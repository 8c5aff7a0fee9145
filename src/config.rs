//! Tunables of the login rate limiters, their defaults and their validation.

use vstd::prelude::*;

verus! {

/// Number of nanoseconds in one second.
pub const NANOS_PER_SECOND: u64 = 1_000_000_000;

/// A sustained rate of `actions` actions every `seconds` seconds, that is
/// `actions / seconds` actions per second.
///
/// `seconds == 0` stands for a rate that is not a finite number.
#[derive(Clone, Copy, Debug, PartialEq, Eq, Structural)]
pub struct Rate {
    pub actions: i64,
    pub seconds: u64,
}

impl Rate {
    /// The rate is a finite number.
    pub open spec fn is_finite(self) -> bool {
        self.seconds > 0
    }

    /// Strictly positive, finite, and below one action per nanosecond, so
    /// that the interval between two actions is at least one nanosecond.
    pub open spec fn is_valid(self) -> bool {
        &&& self.is_finite()
        &&& self.actions > 0
        &&& (self.actions as int) < NANOS_PER_SECOND as int * self.seconds as int
    }

    /// `actions` actions every `seconds` seconds.
    pub fn per_seconds(actions: i64, seconds: u64) -> (r: Rate)
        ensures
            r.actions == actions,
            r.seconds == seconds,
    {
        Rate { actions, seconds }
    }

    /// Whether the rate is usable by a limiter.
    pub fn check_valid(&self) -> (r: bool)
        ensures
            r == self.is_valid(),
    {
        let seconds = self.seconds as u128;
        assert(NANOS_PER_SECOND as u128 * seconds <= 1_000_000_000 * 0xffff_ffff_ffff_ffff)
            by (nonlinear_arith)
            requires
                seconds <= 0xffff_ffff_ffff_ffff,
        ;
        self.seconds > 0 && self.actions > 0 && (self.actions as u128) < (NANOS_PER_SECOND as u128)
            * seconds
    }
}

/// One dimension's allowance: `burst` actions may be performed at once, and
/// the allowance then replenishes at `per_second`.
#[derive(Clone, Copy, Debug, PartialEq, Eq, Structural)]
pub struct RateLimiterConfiguration {
    /// A one-off burst of actions that can be performed in one go without
    /// waiting. Replenishes at the rate.
    pub burst: u32,
    /// How quickly the allowance replenishes, in actions per second.
    pub per_second: Rate,
}

/// Limits on login attempts, by source address and by target account.
#[derive(Clone, Copy, Debug, PartialEq, Eq, Structural)]
pub struct LoginRateLimitingConfig {
    /// Login attempts permitted per source address: protects against brute
    /// force from a single origin.
    pub per_address: RateLimiterConfiguration,
    /// Login attempts permitted per target account: protects against a
    /// distributed brute force, set high enough that an account is not
    /// casually locked out.
    pub per_account: RateLimiterConfiguration,
}

/// Rate limiting configuration section.
#[derive(Clone, Copy, Debug, PartialEq, Eq, Structural)]
pub struct RateLimitingConfig {
    /// Login-specific rate limits.
    pub login: LoginRateLimitingConfig,
}

/// Which of the login limiters a validation error is about.
#[derive(Clone, Copy, Debug, PartialEq, Eq, Structural)]
pub enum LoginLimiter {
    PerAddress,
    PerAccount,
}

/// What is wrong with a limiter's configuration.
#[derive(Clone, Copy, Debug, PartialEq, Eq, Structural)]
pub enum ValidationErrorKind {
    /// `burst` is zero.
    InvalidBurst,
    /// `per_second` is not strictly positive, not finite, or not below 1e9.
    InvalidRate,
}

/// The first violation found in a [`RateLimitingConfig`].
#[derive(Clone, Copy, Debug, PartialEq, Eq, Structural)]
pub struct ValidationError {
    pub limiter: LoginLimiter,
    pub kind: ValidationErrorKind,
}

/// The error of one limiter's configuration, if any: the burst is checked
/// before the rate.
pub open spec fn limiter_error(c: RateLimiterConfiguration) -> Option<ValidationErrorKind> {
    if c.burst == 0 {
        Some(ValidationErrorKind::InvalidBurst)
    } else if !c.per_second.is_valid() {
        Some(ValidationErrorKind::InvalidRate)
    } else {
        None
    }
}

/// The outcome of validation: the address limiter is checked before the
/// account limiter, and the first error is reported.
pub open spec fn validation_outcome(c: RateLimitingConfig) -> Result<(), ValidationError> {
    match limiter_error(c.login.per_address) {
        Some(kind) => Err(ValidationError { limiter: LoginLimiter::PerAddress, kind }),
        None => match limiter_error(c.login.per_account) {
            Some(kind) => Err(ValidationError { limiter: LoginLimiter::PerAccount, kind }),
            None => Ok(()),
        },
    }
}

impl RateLimiterConfiguration {
    /// Both the burst and the rate are usable.
    pub open spec fn is_valid(self) -> bool {
        limiter_error(self) is None
    }

    fn check(&self) -> (r: Option<ValidationErrorKind>)
        ensures
            r == limiter_error(*self),
    {
        if self.burst == 0 {
            return Some(ValidationErrorKind::InvalidBurst);
        }
        if !self.per_second.check_valid() {
            return Some(ValidationErrorKind::InvalidRate);
        }
        None
    }
}

/// Default limit per source address: a burst of 3, then 3 per minute.
fn default_login_per_address() -> (r: RateLimiterConfiguration)
    ensures
        r.burst == 3,
        r.per_second == (Rate { actions: 3, seconds: 60 }),
{
    RateLimiterConfiguration { burst: 3, per_second: Rate { actions: 3, seconds: 60 } }
}

/// Default limit per target account: a burst of 1800, then 1800 per hour.
fn default_login_per_account() -> (r: RateLimiterConfiguration)
    ensures
        r.burst == 1800,
        r.per_second == (Rate { actions: 1800, seconds: 3600 }),
{
    RateLimiterConfiguration { burst: 1800, per_second: Rate { actions: 1800, seconds: 3600 } }
}

/// The default login limits.
pub open spec fn default_login() -> LoginRateLimitingConfig {
    LoginRateLimitingConfig {
        per_address: RateLimiterConfiguration {
            burst: 3,
            per_second: Rate { actions: 3, seconds: 60 },
        },
        per_account: RateLimiterConfiguration {
            burst: 1800,
            per_second: Rate { actions: 1800, seconds: 3600 },
        },
    }
}

impl Default for LoginRateLimitingConfig {
    fn default() -> (r: Self)
        ensures
            r == default_login(),
    {
        LoginRateLimitingConfig {
            per_address: default_login_per_address(),
            per_account: default_login_per_account(),
        }
    }
}

impl Default for RateLimitingConfig {
    fn default() -> (r: Self)
        ensures
            r == (RateLimitingConfig { login: default_login() }),
            validation_outcome(r) == Ok::<(), ValidationError>(()),
    {
        RateLimitingConfig { login: LoginRateLimitingConfig::default() }
    }
}

impl RateLimitingConfig {
    /// Checks both login limiters, address first, and reports the first
    /// violation together with the limiter it was found in.
    pub fn validate(&self) -> (r: Result<(), ValidationError>)
        ensures
            r == validation_outcome(*self),
            r is Ok <==> self.login.per_address.is_valid() && self.login.per_account.is_valid(),
            self.login.per_address.burst == 0 ==> r == Err::<(), ValidationError>(
                ValidationError {
                    limiter: LoginLimiter::PerAddress,
                    kind: ValidationErrorKind::InvalidBurst,
                },
            ),
            self.login.per_address.burst != 0 && !self.login.per_address.per_second.is_valid()
                ==> r == Err::<(), ValidationError>(
                ValidationError {
                    limiter: LoginLimiter::PerAddress,
                    kind: ValidationErrorKind::InvalidRate,
                },
            ),
            self.login.per_address.is_valid() && self.login.per_account.burst == 0 ==> r == Err::<
                (),
                ValidationError,
            >(
                ValidationError {
                    limiter: LoginLimiter::PerAccount,
                    kind: ValidationErrorKind::InvalidBurst,
                },
            ),
            self.login.per_address.is_valid() && self.login.per_account.burst != 0
                && !self.login.per_account.per_second.is_valid() ==> r == Err::<
                (),
                ValidationError,
            >(
                ValidationError {
                    limiter: LoginLimiter::PerAccount,
                    kind: ValidationErrorKind::InvalidRate,
                },
            ),
    {
        if let Some(kind) = self.login.per_address.check() {
            return Err(ValidationError { limiter: LoginLimiter::PerAddress, kind });
        }
        if let Some(kind) = self.login.per_account.check() {
            return Err(ValidationError { limiter: LoginLimiter::PerAccount, kind });
        }
        Ok(())
    }

    /// Whether the configuration equals the default one.
    pub fn is_default(config: &RateLimitingConfig) -> (r: bool)
        ensures
            r == (*config == RateLimitingConfig { login: default_login() }),
    {
        *config == RateLimitingConfig::default()
    }
}

impl ValidationError {
    /// Where the offending limiter stands in the configuration tree.
    pub fn path(&self) -> (r: Vec<&'static str>)
        ensures
            r@.len() == 3,
            r@[0] == "rate_limiting",
            r@[1] == "login",
            r@[2] == match self.limiter {
                LoginLimiter::PerAddress => "per_address",
                LoginLimiter::PerAccount => "per_account",
            },
    {
        let field = match self.limiter {
            LoginLimiter::PerAddress => "per_address",
            LoginLimiter::PerAccount => "per_account",
        };
        vec!["rate_limiting", "login", field]
    }

    /// A message for the operator.
    pub fn message(&self) -> (r: &'static str)
        ensures
            self.kind == ValidationErrorKind::InvalidBurst ==> r
                == "`burst` must not be zero, as this would mean the action could never be performed",
            self.kind == ValidationErrorKind::InvalidRate ==> r
                == "`per_second` must be a number that is more than zero and less than 1_000_000_000 (1e9)",
    {
        match self.kind {
            ValidationErrorKind::InvalidBurst => "`burst` must not be zero, as this would mean the action could never be performed",
            ValidationErrorKind::InvalidRate => "`per_second` must be a number that is more than zero and less than 1_000_000_000 (1e9)",
        }
    }
}

} // verus!
