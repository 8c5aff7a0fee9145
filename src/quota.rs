//! The quota that a limiter enforces, derived from a limiter's configuration.

use vstd::prelude::*;

use crate::config::{Rate, RateLimiterConfiguration, NANOS_PER_SECOND};

verus! {

/// Largest emission interval, in nanoseconds: `u64::MAX` whole seconds.
pub const MAX_EMISSION_INTERVAL_NS: u128 = 18_446_744_073_709_551_615_000_000_000;

/// How often a limiter lets an action through: one every `emission_interval_ns`
/// nanoseconds at the sustained rate, and up to `burst_capacity` at once.
#[derive(Clone, Copy, Debug, PartialEq, Eq, Structural)]
pub struct Quota {
    emission_interval_ns: u128,
    burst_capacity: u32,
}

impl Quota {
    #[verifier::type_invariant]
    spec fn well_formed(self) -> bool {
        &&& 1 <= self.emission_interval_ns <= MAX_EMISSION_INTERVAL_NS
        &&& 1 <= self.burst_capacity
    }

    /// Time between two actions at the sustained rate, in nanoseconds.
    pub closed spec fn interval(self) -> nat {
        self.emission_interval_ns as nat
    }

    /// Number of actions allowed at once.
    pub closed spec fn burst(self) -> nat {
        self.burst_capacity as nat
    }

    /// A quota of one action every `period_ns` nanoseconds, with a burst of
    /// one; none when the period is zero or above [`MAX_EMISSION_INTERVAL_NS`].
    pub fn with_period(period_ns: u128) -> (r: Option<Quota>)
        ensures
            r is Some <==> 1 <= period_ns <= MAX_EMISSION_INTERVAL_NS,
            r matches Some(q) ==> q.interval() == period_ns && q.burst() == 1,
    {
        if period_ns == 0 || period_ns > MAX_EMISSION_INTERVAL_NS {
            None
        } else {
            Some(Quota { emission_interval_ns: period_ns, burst_capacity: 1 })
        }
    }

    /// The same quota with a burst of `max_burst`.
    pub fn allow_burst(self, max_burst: u32) -> (r: Quota)
        requires
            max_burst >= 1,
        ensures
            r.interval() == self.interval(),
            r.burst() == max_burst,
    {
        proof {
            use_type_invariant(self);
        }
        Quota { emission_interval_ns: self.emission_interval_ns, burst_capacity: max_burst }
    }

    pub fn emission_interval_ns(&self) -> (r: u128)
        ensures
            r == self.interval(),
            1 <= r <= MAX_EMISSION_INTERVAL_NS,
    {
        proof {
            use_type_invariant(self);
        }
        self.emission_interval_ns
    }

    pub fn burst_capacity(&self) -> (r: u32)
        ensures
            r == self.burst(),
            r >= 1,
    {
        proof {
            use_type_invariant(self);
        }
        self.burst_capacity
    }
}

/// The interval between two actions at `rate`, in whole nanoseconds
/// (rounded down): the reciprocal of the rate.
pub open spec fn emission_interval_of(rate: Rate) -> int {
    (rate.seconds as int * NANOS_PER_SECOND as int) / rate.actions as int
}

/// A configuration yields a quota when its burst is not zero and its rate is
/// positive and finite with an interval of at least one nanosecond.
pub open spec fn has_quota(c: RateLimiterConfiguration) -> bool {
    &&& c.burst >= 1
    &&& c.per_second.seconds >= 1
    &&& c.per_second.actions >= 1
    &&& emission_interval_of(c.per_second) >= 1
}

/// A limiter configuration that passes validation always yields a quota.
pub proof fn lemma_valid_configuration_has_quota(c: RateLimiterConfiguration)
    requires
        c.is_valid(),
    ensures
        has_quota(c),
{
    let s = c.per_second.seconds as int * NANOS_PER_SECOND as int;
    let a = c.per_second.actions as int;
    assert(s / a >= 1) by (nonlinear_arith)
        requires
            1 <= a < s,
    ;
}

impl RateLimiterConfiguration {
    /// The quota that this configuration describes: one action every
    /// `1 / per_second` seconds and a burst of `burst`; none where the
    /// configuration cannot be enforced.
    pub fn to_quota(self) -> (r: Option<Quota>)
        ensures
            r is Some <==> has_quota(self),
            r matches Some(q) ==> q.interval() == emission_interval_of(self.per_second)
                && q.burst() == self.burst,
    {
        if self.per_second.seconds == 0 || self.per_second.actions <= 0 || self.burst == 0 {
            return None;
        }
        let seconds = self.per_second.seconds as u128;
        let actions = self.per_second.actions as u128;
        proof {
            assert(seconds * 1_000_000_000 <= 0xffff_ffff_ffff_ffff * 1_000_000_000)
                by (nonlinear_arith)
                requires
                    seconds <= 0xffff_ffff_ffff_ffff,
            ;
        }
        let period = seconds * (NANOS_PER_SECOND as u128) / actions;
        proof {
            assert(period <= seconds * 1_000_000_000) by (nonlinear_arith)
                requires
                    actions >= 1,
                    period == (seconds * 1_000_000_000) as int / actions as int,
            ;
        }
        match Quota::with_period(period) {
            Some(q) => Some(q.allow_burst(self.burst)),
            None => None,
        }
    }
}

} // verus!
