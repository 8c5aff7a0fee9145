use rate_limiting::config::{
    LoginLimiter, LoginRateLimitingConfig, Rate, RateLimiterConfiguration, RateLimitingConfig,
    ValidationError, ValidationErrorKind,
};
use rate_limiting::limiter::{Decision, KeyedLimiter, LoginRateLimiter};
use rate_limiting::quota::{Quota, MAX_EMISSION_INTERVAL_NS};
use rate_limiting::server::ServerLayer;

const SECOND: u128 = 1_000_000_000;
const SECOND_U64: u64 = 1_000_000_000;

fn limiter(burst: u32, per_second: Rate) -> RateLimiterConfiguration {
    RateLimiterConfiguration { burst, per_second }
}

fn config(per_address: RateLimiterConfiguration, per_account: RateLimiterConfiguration) -> RateLimitingConfig {
    RateLimitingConfig { login: LoginRateLimitingConfig { per_address, per_account } }
}

fn good() -> RateLimiterConfiguration {
    limiter(5, Rate::per_seconds(1, 10))
}

fn err(limiter: LoginLimiter, kind: ValidationErrorKind) -> Result<(), ValidationError> {
    Err(ValidationError { limiter, kind })
}

fn one_per_second_burst_three() -> Quota {
    Quota::with_period(SECOND).unwrap().allow_burst(3)
}

#[test]
fn default_config_validates() {
    let c = RateLimitingConfig::default();
    assert_eq!(c.validate(), Ok(()));
    assert_eq!(c.login.per_address, limiter(3, Rate::per_seconds(3, 60)));
    assert_eq!(c.login.per_account, limiter(1800, Rate::per_seconds(1800, 3600)));
    assert!(RateLimitingConfig::is_default(&c));
}

#[test]
fn modified_config_is_not_default() {
    let mut c = RateLimitingConfig::default();
    c.login.per_account.burst = 10;
    assert!(!RateLimitingConfig::is_default(&c));
}

#[test]
fn zero_burst_is_rejected_on_its_path() {
    let c = config(limiter(0, Rate::per_seconds(1, 1)), good());
    let e = c.validate().unwrap_err();
    assert_eq!(e, ValidationError { limiter: LoginLimiter::PerAddress, kind: ValidationErrorKind::InvalidBurst });
    assert_eq!(e.path(), vec!["rate_limiting", "login", "per_address"]);
    assert_eq!(
        e.message(),
        "`burst` must not be zero, as this would mean the action could never be performed"
    );

    let c = config(good(), limiter(0, Rate::per_seconds(1, 1)));
    let e = c.validate().unwrap_err();
    assert_eq!(e, ValidationError { limiter: LoginLimiter::PerAccount, kind: ValidationErrorKind::InvalidBurst });
    assert_eq!(e.path(), vec!["rate_limiting", "login", "per_account"]);
}

#[test]
fn bad_rates_are_rejected() {
    let bad = [
        Rate::per_seconds(0, 1),
        Rate::per_seconds(-3, 60),
        Rate::per_seconds(1, 0),
        Rate::per_seconds(0, 0),
        Rate::per_seconds(1_000_000_000, 1),
        Rate::per_seconds(3_000_000_000, 2),
    ];
    for rate in bad {
        assert_eq!(
            config(limiter(1, rate), good()).validate(),
            err(LoginLimiter::PerAddress, ValidationErrorKind::InvalidRate)
        );
        assert_eq!(
            config(good(), limiter(1, rate)).validate(),
            err(LoginLimiter::PerAccount, ValidationErrorKind::InvalidRate)
        );
    }
    let e = config(limiter(1, Rate::per_seconds(0, 1)), good()).validate().unwrap_err();
    assert_eq!(
        e.message(),
        "`per_second` must be a number that is more than zero and less than 1_000_000_000 (1e9)"
    );
}

#[test]
fn rates_just_inside_the_bounds_are_accepted() {
    assert_eq!(config(limiter(1, Rate::per_seconds(999_999_999, 1)), good()).validate(), Ok(()));
    assert_eq!(config(limiter(1, Rate::per_seconds(1, u64::MAX)), good()).validate(), Ok(()));
}

#[test]
fn first_error_is_reported() {
    let c = config(limiter(1, Rate::per_seconds(0, 1)), limiter(0, Rate::per_seconds(1, 1)));
    assert_eq!(c.validate(), err(LoginLimiter::PerAddress, ValidationErrorKind::InvalidRate));
    let c = config(limiter(0, Rate::per_seconds(0, 1)), good());
    assert_eq!(c.validate(), err(LoginLimiter::PerAddress, ValidationErrorKind::InvalidBurst));
}

#[test]
fn quota_of_default_address_limit() {
    let q = limiter(3, Rate::per_seconds(3, 60)).to_quota().unwrap();
    assert_eq!(q.emission_interval_ns(), 20 * SECOND);
    assert_eq!(q.burst_capacity(), 3);

    let q = limiter(1800, Rate::per_seconds(1800, 3600)).to_quota().unwrap();
    assert_eq!(q.emission_interval_ns(), 2 * SECOND);
    assert_eq!(q.burst_capacity(), 1800);
}

#[test]
fn quota_interval_rounds_down() {
    let q = limiter(1, Rate::per_seconds(3, 1)).to_quota().unwrap();
    assert_eq!(q.emission_interval_ns(), 333_333_333);
    let q = limiter(1, Rate::per_seconds(1_000_000_000, 1)).to_quota().unwrap();
    assert_eq!(q.emission_interval_ns(), 1);
    let q = limiter(1, Rate::per_seconds(1, u64::MAX)).to_quota().unwrap();
    assert_eq!(q.emission_interval_ns(), MAX_EMISSION_INTERVAL_NS);
}

#[test]
fn no_quota_for_unusable_configuration() {
    assert_eq!(limiter(1, Rate::per_seconds(0, 1)).to_quota(), None);
    assert_eq!(limiter(1, Rate::per_seconds(-1, 1)).to_quota(), None);
    assert_eq!(limiter(1, Rate::per_seconds(1, 0)).to_quota(), None);
    assert_eq!(limiter(1, Rate::per_seconds(1_000_000_001, 1)).to_quota(), None);
    assert_eq!(limiter(0, Rate::per_seconds(1, 1)).to_quota(), None);
}

#[test]
fn quota_with_period_bounds() {
    assert_eq!(Quota::with_period(0), None);
    assert_eq!(Quota::with_period(MAX_EMISSION_INTERVAL_NS + 1), None);
    let q = Quota::with_period(7).unwrap();
    assert_eq!(q.emission_interval_ns(), 7);
    assert_eq!(q.burst_capacity(), 1);
}

#[test]
fn burst_then_sustained_rate() {
    let mut l = KeyedLimiter::new(one_per_second_burst_three());
    assert_eq!(l.check_key(1, 0), Decision::Admitted);
    assert_eq!(l.check_key(1, 0), Decision::Admitted);
    assert_eq!(l.check_key(1, 0), Decision::Admitted);
    assert_eq!(l.check_key(1, 0), Decision::Denied { retry_after_ns: SECOND });
    assert_eq!(l.check_key(1, SECOND_U64), Decision::Admitted);
    assert_eq!(l.check_key(1, SECOND_U64), Decision::Denied { retry_after_ns: SECOND });
}

#[test]
fn denied_attempt_reports_remaining_wait() {
    let mut l = KeyedLimiter::new(one_per_second_burst_three());
    for _ in 0..3 {
        assert_eq!(l.check_key(1, 0), Decision::Admitted);
    }
    assert_eq!(l.check_key(1, 250_000_000), Decision::Denied { retry_after_ns: 750_000_000 });
    assert_eq!(l.check_key(1, 10 * SECOND_U64), Decision::Admitted);
    assert_eq!(l.quota(), one_per_second_burst_three());
}

#[test]
fn burst_of_one_spaces_attempts() {
    let mut l = KeyedLimiter::new(Quota::with_period(20 * SECOND).unwrap());
    assert_eq!(l.check_key(9, 5), Decision::Admitted);
    assert_eq!(l.check_key(9, 6), Decision::Denied { retry_after_ns: 20 * SECOND - 1 });
    assert_eq!(l.check_key(9, 20 * SECOND_U64 + 5), Decision::Admitted);
}

#[test]
fn keys_are_isolated() {
    let mut l = KeyedLimiter::new(one_per_second_burst_three());
    for _ in 0..3 {
        assert_eq!(l.check_key(10, 0), Decision::Admitted);
    }
    assert!(matches!(l.check_key(10, 0), Decision::Denied { .. }));
    for _ in 0..3 {
        assert_eq!(l.check_key(20, 0), Decision::Admitted);
    }
    assert!(matches!(l.check_key(20, 0), Decision::Denied { .. }));
}

#[test]
fn replay_against_fresh_state_is_deterministic() {
    let attempts: Vec<(u128, u64)> = vec![
        (1, 0), (1, 0), (2, 0), (1, 0), (1, 0), (2, 500_000_000), (1, SECOND_U64), (1, SECOND_U64),
    ];
    let mut a = KeyedLimiter::new(one_per_second_burst_three());
    let mut b = KeyedLimiter::new(one_per_second_burst_three());
    let da = a.check_all(&attempts);
    let db = b.check_all(&attempts);
    assert_eq!(da, db);
    let denied = Decision::Denied { retry_after_ns: SECOND };
    assert_eq!(
        da,
        vec![
            Decision::Admitted,
            Decision::Admitted,
            Decision::Admitted,
            Decision::Admitted,
            denied,
            Decision::Admitted,
            Decision::Admitted,
            denied,
        ]
    );
}

#[test]
fn account_denial_denies_login() {
    let c = LoginRateLimitingConfig {
        per_address: limiter(3, Rate::per_seconds(1, 1)),
        per_account: limiter(1, Rate::per_seconds(1, 10)),
    };
    let mut l = LoginRateLimiter::new(&c);
    assert_eq!(l.check(1, 100, 0), Decision::Admitted);
    assert_eq!(l.check(1, 100, 0), Decision::Denied { retry_after_ns: 10 * SECOND });
}

#[test]
fn address_denial_denies_login() {
    let c = LoginRateLimitingConfig {
        per_address: limiter(1, Rate::per_seconds(1, 20)),
        per_account: limiter(10, Rate::per_seconds(1, 1)),
    };
    let mut l = LoginRateLimiter::new(&c);
    assert_eq!(l.check(1, 100, 0), Decision::Admitted);
    assert_eq!(l.check(1, 200, 0), Decision::Denied { retry_after_ns: 20 * SECOND });
    assert_eq!(l.check(2, 200, 0), Decision::Admitted);
}

#[test]
fn both_denials_report_longer_wait() {
    let c = LoginRateLimitingConfig {
        per_address: limiter(1, Rate::per_seconds(1, 20)),
        per_account: limiter(1, Rate::per_seconds(1, 5)),
    };
    let mut l = LoginRateLimiter::new(&c);
    assert_eq!(l.check(1, 100, 0), Decision::Admitted);
    assert_eq!(l.check(1, 100, 0), Decision::Denied { retry_after_ns: 20 * SECOND });
}

#[test]
fn default_login_limits() {
    let mut l = LoginRateLimiter::new(&LoginRateLimitingConfig::default());
    for _ in 0..3 {
        assert_eq!(l.check(7, 8, 0), Decision::Admitted);
    }
    assert_eq!(l.check(7, 8, 0), Decision::Denied { retry_after_ns: 20 * SECOND });
    assert_eq!(l.check(7, 8, 20 * SECOND_U64), Decision::Admitted);
}

#[test]
fn disabled_dimension_admits_everything() {
    let c = LoginRateLimitingConfig {
        per_address: limiter(0, Rate::per_seconds(1, 1)),
        per_account: limiter(1, Rate::per_seconds(1, 0)),
    };
    let mut l = LoginRateLimiter::new(&c);
    assert!(l.per_address.is_none());
    assert!(l.per_account.is_none());
    for _ in 0..100 {
        assert_eq!(l.check(1, 1, 0), Decision::Admitted);
    }
}

#[test]
fn server_layer_keeps_listener_name() {
    let named: ServerLayer<()> = ServerLayer::new(Some("web".to_string()));
    assert_eq!(named.listener_name(), &Some("web".to_string()));
    let anonymous: ServerLayer<()> = ServerLayer::new(None);
    assert_eq!(anonymous.listener_name(), &None);
}

#[test]
fn retain_recent_forgets_replenished_keys_only() {
    let mut l = KeyedLimiter::new(one_per_second_burst_three());
    assert_eq!(l.key_count(), 0);
    assert_eq!(l.check_key(1, 0), Decision::Admitted);
    for _ in 0..3 {
        assert_eq!(l.check_key(2, 0), Decision::Admitted);
    }
    assert_eq!(l.key_count(), 2);
    l.retain_recent(SECOND_U64);
    assert_eq!(l.key_count(), 1);
    assert_eq!(l.check_key(2, SECOND_U64), Decision::Admitted);
    assert_eq!(l.check_key(2, SECOND_U64), Decision::Denied { retry_after_ns: SECOND });
    for _ in 0..3 {
        assert_eq!(l.check_key(1, SECOND_U64), Decision::Admitted);
    }
    l.retain_recent(10 * SECOND_U64);
    assert_eq!(l.key_count(), 0);
}

#[test]
fn login_limiter_retain_recent() {
    let mut l = LoginRateLimiter::new(&LoginRateLimitingConfig::default());
    assert_eq!(l.check(1, 2, 0), Decision::Admitted);
    l.retain_recent(0);
    assert_eq!(l.per_address.as_ref().unwrap().key_count(), 1);
    assert_eq!(l.per_account.as_ref().unwrap().key_count(), 1);
    l.retain_recent(20 * SECOND_U64);
    assert_eq!(l.per_address.as_ref().unwrap().key_count(), 0);
    assert_eq!(l.per_account.as_ref().unwrap().key_count(), 0);
}
