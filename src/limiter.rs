//! Admission of actions by the generic cell rate algorithm (GCRA), with one
//! theoretical arrival time (TAT) per key, and the login limiter that
//! combines a limiter per source address with one per target account.
//!
//! Times are nanoseconds on a monotonic clock that the caller reads and
//! hands in. Keys are 128-bit identifiers: an IP address, an account id.

use std::collections::HashMap;
use vstd::prelude::*;
use vstd::std_specs::iter::IteratorSpec;

use crate::config::{LoginRateLimitingConfig, RateLimiterConfiguration};
use crate::quota::{emission_interval_of, has_quota, Quota};

verus! {

broadcast use vstd::std_specs::hash::group_hash_axioms;

/// The outcome of one attempt.
#[derive(Clone, Copy, Debug, PartialEq, Eq, Structural)]
pub enum Decision {
    Admitted,
    /// Denied; the same key may succeed after waiting `retry_after_ns`
    /// nanoseconds.
    Denied { retry_after_ns: u128 },
}

/// The delay that a burst may run ahead of the sustained rate:
/// `interval * burst` nanoseconds.
pub open spec fn tolerance(q: Quota) -> int {
    (q.interval() * q.burst()) as int
}

/// Where the schedule of `key` starts for an attempt at `now`: its TAT, or
/// `now` where that is later or the key has not been seen.
pub open spec fn schedule_start(tats: Map<u128, u128>, key: u128, now: u64) -> int {
    if tats.contains_key(key) && tats[key] > now {
        tats[key] as int
    } else {
        now as int
    }
}

/// One attempt of `key` at `now`: the decision and the TATs after it.
///
/// With `next = schedule_start + interval`, the attempt is admitted iff
/// `now >= next - interval * burst`, and then the TAT of `key` becomes
/// `next`; else it is denied, with a wait of `next - interval * burst - now`,
/// and nothing changes.
pub open spec fn step(q: Quota, tats: Map<u128, u128>, key: u128, now: u64) -> (Decision, Map<
    u128,
    u128,
>) {
    let next = schedule_start(tats, key, now) + q.interval();
    if next <= now + tolerance(q) {
        (Decision::Admitted, tats.insert(key, next as u128))
    } else {
        (Decision::Denied { retry_after_ns: (next - tolerance(q) - now) as u128 }, tats)
    }
}

/// The attempts `(key, now)` taken in order: their decisions and the TATs
/// after the last one.
pub open spec fn replay(q: Quota, tats: Map<u128, u128>, attempts: Seq<(u128, u64)>) -> (Seq<
    Decision,
>, Map<u128, u128>)
    decreases attempts.len(),
{
    if attempts.len() == 0 {
        (Seq::empty(), tats)
    } else {
        let before = replay(q, tats, attempts.drop_last());
        let after = step(q, before.1, attempts.last().0, attempts.last().1);
        (before.0.push(after.0), after.1)
    }
}

/// The TATs of the keys that are not fully replenished at `now`.
pub open spec fn recent(tats: Map<u128, u128>, now: u64) -> Map<u128, u128> {
    Map::new(|k: u128| tats.contains_key(k) && tats[k] > now, |k: u128| tats[k])
}

/// Every TAT lies within the tolerance of a representable time.
pub open spec fn tats_bounded(q: Quota, tats: Map<u128, u128>) -> bool {
    forall|k: u128| #[trigger]
        tats.contains_key(k) ==> tats[k] <= u64::MAX + tolerance(q)
}

/// A rate limiter that keeps one TAT per key, all under one quota. A key's
/// state is created on its first admitted attempt.
pub struct KeyedLimiter {
    quota: Quota,
    tats: HashMap<u128, u128>,
}

impl KeyedLimiter {
    /// Every TAT is bounded, so that the arithmetic of an attempt is exact.
    pub closed spec fn wf(self) -> bool {
        tats_bounded(self.quota, self.tats@)
    }

    /// The quota enforced on every key.
    pub closed spec fn spec_quota(self) -> Quota {
        self.quota
    }

    /// The TAT of each key seen so far.
    pub closed spec fn tats(self) -> Map<u128, u128> {
        self.tats@
    }

    /// A limiter that has seen no key.
    pub fn new(quota: Quota) -> (r: KeyedLimiter)
        ensures
            r.spec_quota() == quota,
            r.tats() == Map::<u128, u128>::empty(),
            r.wf(),
    {
        let tats: HashMap<u128, u128> = HashMap::new();
        KeyedLimiter { quota, tats }
    }

    pub fn quota(&self) -> (r: Quota)
        ensures
            r == self.spec_quota(),
    {
        self.quota
    }

    /// Number of keys whose state is kept.
    pub fn key_count(&self) -> (r: usize)
        ensures
            r == self.tats().len(),
    {
        self.tats.len()
    }

    /// Decides an attempt of `key` at `now_ns` and records it when admitted.
    pub fn check_key(&mut self, key: u128, now_ns: u64) -> (r: Decision)
        requires
            old(self).wf(),
        ensures
            final(self).wf(),
            final(self).spec_quota() == old(self).spec_quota(),
            (r, final(self).tats()) == step(old(self).spec_quota(), old(self).tats(), key, now_ns),
    {
        let interval = self.quota.emission_interval_ns();
        let burst = self.quota.burst_capacity() as u128;
        proof {
            assert(interval * burst <= 18_446_744_073_709_551_615_000_000_000 * 0xffff_ffff)
                by (nonlinear_arith)
                requires
                    interval <= 18_446_744_073_709_551_615_000_000_000u128,
                    burst <= 0xffff_ffff,
            ;
        }
        let tolerance = interval * burst;
        let start: u128 = match self.tats.get(&key) {
            Some(tat) => if *tat > now_ns as u128 {
                *tat
            } else {
                now_ns as u128
            },
            None => now_ns as u128,
        };
        let next = start + interval;
        if next <= now_ns as u128 + tolerance {
            self.tats.insert(key, next);
            proof {
                assert(self.tats@ == old(self).tats@.insert(key, next));
            }
            Decision::Admitted
        } else {
            Decision::Denied { retry_after_ns: next - tolerance - now_ns as u128 }
        }
    }

    /// Forgets every key whose TAT is not after `now_ns`. Such a key is fully
    /// replenished: forgetting it changes no decision on an attempt at
    /// `now_ns` or later.
    pub fn retain_recent(&mut self, now_ns: u64)
        requires
            old(self).wf(),
        ensures
            final(self).wf(),
            final(self).spec_quota() == old(self).spec_quota(),
            final(self).tats() == recent(old(self).tats(), now_ns),
    {
        let mut kept: HashMap<u128, u128> = HashMap::new();
        let entries = self.tats.iter();
        let ghost items = entries.remaining();
        let ghost mut count: int = 0;
        proof {
            assert(forall|k: u128| #[trigger]
                self.tats@.contains_key(k) ==> items.contains((&k, &self.tats@[k])));
        }
        for entry in it: entries
            invariant
                self.wf(),
                it.seq() == items,
                count == it.index(),
                forall|k: u128| #[trigger]
                    kept@.contains_key(k) ==> self.tats@.contains_key(k) && self.tats@[k] > now_ns
                        && kept@[k] == self.tats@[k],
                forall|j: int|
                    0 <= j < count && *(#[trigger] items[j]).1 > now_ns ==> kept@.contains_key(
                        *items[j].0,
                    ),
                forall|j: int|
                    0 <= j < items.len() ==> self.tats@.contains_key(*(#[trigger] items[j]).0)
                        && self.tats@[*items[j].0] == *items[j].1,
        {
            let (key, tat) = entry;
            if *tat > now_ns as u128 {
                kept.insert(*key, *tat);
            }
            proof {
                count = count + 1;
            }
        }
        proof {
            assert(count == items.len());
            assert(recent(self.tats@, now_ns) =~= kept@) by {
                assert forall|k: u128| #[trigger] self.tats@.contains_key(k) && self.tats@[k]
                    > now_ns implies kept@.contains_key(k) by {
                    assert(items.contains((&k, &self.tats@[k])));
                    let j = choose|j: int| 0 <= j < items.len() && items[j] == (&k, &self.tats@[k]);
                    assert(*items[j].1 > now_ns);
                }
            }
        }
        self.tats = kept;
    }

    /// Decides the attempts `(key, now_ns)` in order, as many calls of
    /// [`KeyedLimiter::check_key`] would.
    pub fn check_all(&mut self, attempts: &Vec<(u128, u64)>) -> (r: Vec<Decision>)
        requires
            old(self).wf(),
        ensures
            final(self).wf(),
            final(self).spec_quota() == old(self).spec_quota(),
            (r@, final(self).tats()) == replay(old(self).spec_quota(), old(self).tats(), attempts@),
    {
        let mut decisions: Vec<Decision> = Vec::new();
        let mut i: usize = 0;
        while i < attempts.len()
            invariant
                0 <= i <= attempts@.len(),
                self.wf(),
                self.spec_quota() == old(self).spec_quota(),
                (decisions@, self.tats()) == replay(
                    old(self).spec_quota(),
                    old(self).tats(),
                    attempts@.take(i as int),
                ),
            decreases attempts@.len() - i,
        {
            let (key, now_ns) = attempts[i];
            let d = self.check_key(key, now_ns);
            decisions.push(d);
            proof {
                assert(attempts@.take(i as int + 1).drop_last() =~= attempts@.take(i as int));
            }
            i = i + 1;
        }
        proof {
            assert(attempts@.take(i as int) =~= attempts@);
        }
        decisions
    }
}

/// The decision of one dimension: a dimension without a limiter admits all.
pub open spec fn dimension_decision(l: Option<KeyedLimiter>, key: u128, now: u64) -> Decision {
    match l {
        Some(l) => step(l.spec_quota(), l.tats(), key, now).0,
        None => Decision::Admitted,
    }
}

/// `after` is the dimension `before` once it has decided `key` at `now`.
pub open spec fn dimension_advanced(
    before: Option<KeyedLimiter>,
    after: Option<KeyedLimiter>,
    key: u128,
    now: u64,
) -> bool {
    match before {
        Some(b) => after matches Some(a) && a.wf() && a.spec_quota() == b.spec_quota() && a.tats()
            == step(b.spec_quota(), b.tats(), key, now).1,
        None => after is None,
    }
}

/// Both dimensions must admit; where both deny, the longer wait is reported.
pub open spec fn combine(a: Decision, b: Decision) -> Decision {
    match (a, b) {
        (Decision::Admitted, Decision::Admitted) => Decision::Admitted,
        (Decision::Denied { retry_after_ns: w }, Decision::Admitted) => Decision::Denied {
            retry_after_ns: w,
        },
        (Decision::Admitted, Decision::Denied { retry_after_ns: w }) => Decision::Denied {
            retry_after_ns: w,
        },
        (Decision::Denied { retry_after_ns: w1 }, Decision::Denied { retry_after_ns: w2 }) => {
            Decision::Denied { retry_after_ns: if w1 >= w2 {
                w1
            } else {
                w2
            } }
        },
    }
}

/// The limiter of one dimension as `c` describes it: none where `c` yields
/// no quota.
pub open spec fn built_from(l: Option<KeyedLimiter>, c: RateLimiterConfiguration) -> bool {
    if has_quota(c) {
        l matches Some(l) && l.wf() && l.tats() == Map::<u128, u128>::empty()
            && l.spec_quota().interval() == emission_interval_of(c.per_second)
            && l.spec_quota().burst() == c.burst
    } else {
        l is None
    }
}

/// Limits login attempts by source address and by target account. A
/// dimension whose configuration yields no quota is disabled.
pub struct LoginRateLimiter {
    pub per_address: Option<KeyedLimiter>,
    pub per_account: Option<KeyedLimiter>,
}

fn limiter_for(c: RateLimiterConfiguration) -> (r: Option<KeyedLimiter>)
    ensures
        built_from(r, c),
{
    match c.to_quota() {
        Some(q) => Some(KeyedLimiter::new(q)),
        None => None,
    }
}

/// `after` is the dimension `before` once it has forgotten the keys that are
/// fully replenished at `now`.
pub open spec fn dimension_trimmed(
    before: Option<KeyedLimiter>,
    after: Option<KeyedLimiter>,
    now: u64,
) -> bool {
    match before {
        Some(b) => after matches Some(a) && a.wf() && a.spec_quota() == b.spec_quota() && a.tats()
            == recent(b.tats(), now),
        None => after is None,
    }
}

fn trim_dimension(l: &mut Option<KeyedLimiter>, now_ns: u64)
    requires
        (*old(l)) matches Some(k) ==> k.wf(),
    ensures
        dimension_trimmed(*old(l), *final(l), now_ns),
{
    match l {
        Some(limiter) => limiter.retain_recent(now_ns),
        None => {},
    }
}

fn check_dimension(l: &mut Option<KeyedLimiter>, key: u128, now_ns: u64) -> (r: Decision)
    requires
        (*old(l)) matches Some(k) ==> k.wf(),
    ensures
        r == dimension_decision(*old(l), key, now_ns),
        dimension_advanced(*old(l), *final(l), key, now_ns),
{
    match l {
        Some(limiter) => limiter.check_key(key, now_ns),
        None => Decision::Admitted,
    }
}

impl LoginRateLimiter {
    /// Every present limiter is well formed.
    pub open spec fn wf(self) -> bool {
        &&& self.per_address matches Some(l) ==> l.wf()
        &&& self.per_account matches Some(l) ==> l.wf()
    }

    /// Fresh limiters for both dimensions of `config`.
    pub fn new(config: &LoginRateLimitingConfig) -> (r: LoginRateLimiter)
        ensures
            r.wf(),
            built_from(r.per_address, config.per_address),
            built_from(r.per_account, config.per_account),
    {
        LoginRateLimiter {
            per_address: limiter_for(config.per_address),
            per_account: limiter_for(config.per_account),
        }
    }

    /// Forgets, in both dimensions, the keys that are fully replenished at
    /// `now_ns`.
    pub fn retain_recent(&mut self, now_ns: u64)
        requires
            old(self).wf(),
        ensures
            final(self).wf(),
            dimension_trimmed(old(self).per_address, final(self).per_address, now_ns),
            dimension_trimmed(old(self).per_account, final(self).per_account, now_ns),
    {
        trim_dimension(&mut self.per_address, now_ns);
        trim_dimension(&mut self.per_account, now_ns);
    }

    /// Decides a login attempt from `address` on `account` at `now_ns`. Each
    /// dimension decides and records the attempt on its own; the attempt is
    /// admitted only if both admit it.
    pub fn check(&mut self, address: u128, account: u128, now_ns: u64) -> (r: Decision)
        requires
            old(self).wf(),
        ensures
            final(self).wf(),
            r == combine(
                dimension_decision(old(self).per_address, address, now_ns),
                dimension_decision(old(self).per_account, account, now_ns),
            ),
            dimension_advanced(old(self).per_address, final(self).per_address, address, now_ns),
            dimension_advanced(old(self).per_account, final(self).per_account, account, now_ns),
            dimension_decision(old(self).per_address, address, now_ns) is Denied
                || dimension_decision(old(self).per_account, account, now_ns) is Denied
                <==> r is Denied,
            dimension_decision(old(self).per_address, address, now_ns) is Admitted
                ==> r == dimension_decision(old(self).per_account, account, now_ns),
            dimension_decision(old(self).per_account, account, now_ns) is Admitted
                ==> r == dimension_decision(old(self).per_address, address, now_ns),
    {
        let by_address = check_dimension(&mut self.per_address, address, now_ns);
        let by_account = check_dimension(&mut self.per_account, account, now_ns);
        match (by_address, by_account) {
            (Decision::Admitted, Decision::Admitted) => Decision::Admitted,
            (Decision::Denied { retry_after_ns }, Decision::Admitted) => Decision::Denied {
                retry_after_ns,
            },
            (Decision::Admitted, Decision::Denied { retry_after_ns }) => Decision::Denied {
                retry_after_ns,
            },
            (Decision::Denied { retry_after_ns: w1 }, Decision::Denied { retry_after_ns: w2 }) => {
                Decision::Denied { retry_after_ns: if w1 >= w2 {
                    w1
                } else {
                    w2
                } }
            },
        }
    }
}

/// Replaying attempts leaves alone the state of a key that none of them
/// names.
proof fn lemma_replay_keeps_other_key(
    q: Quota,
    tats: Map<u128, u128>,
    attempts: Seq<(u128, u64)>,
    key: u128,
)
    requires
        forall|i: int| 0 <= i < attempts.len() ==> (#[trigger] attempts[i]).0 != key,
    ensures
        replay(q, tats, attempts).1.contains_key(key) == tats.contains_key(key),
        tats.contains_key(key) ==> replay(q, tats, attempts).1[key] == tats[key],
    decreases attempts.len(),
{
    if attempts.len() > 0 {
        let prefix = attempts.drop_last();
        assert forall|i: int| 0 <= i < prefix.len() implies (#[trigger] prefix[i]).0 != key by {
            assert(prefix[i] == attempts[i]);
        }
        lemma_replay_keeps_other_key(q, tats, prefix, key);
        assert(attempts.last() == attempts[attempts.len() - 1]);
    }
}

/// Key isolation: attempts on other keys, admitted or denied, do not change
/// the decision on `key`.
pub proof fn lemma_key_isolation(
    q: Quota,
    tats: Map<u128, u128>,
    attempts: Seq<(u128, u64)>,
    key: u128,
    now: u64,
)
    requires
        forall|i: int| 0 <= i < attempts.len() ==> (#[trigger] attempts[i]).0 != key,
    ensures
        step(q, replay(q, tats, attempts).1, key, now).0 == step(q, tats, key, now).0,
{
    lemma_replay_keeps_other_key(q, tats, attempts, key);
}

/// Two states give the same TAT, or none, to each key of `keys`.
pub open spec fn agree_on(a: Map<u128, u128>, b: Map<u128, u128>, keys: Set<u128>) -> bool {
    forall|k: u128| #[trigger]
        keys.contains(k) ==> (a.contains_key(k) == b.contains_key(k) && (a.contains_key(k)
            ==> a[k] == b[k]))
}

proof fn lemma_replay_agrees(
    q: Quota,
    a: Map<u128, u128>,
    b: Map<u128, u128>,
    attempts: Seq<(u128, u64)>,
    keys: Set<u128>,
)
    requires
        agree_on(a, b, keys),
        forall|i: int| 0 <= i < attempts.len() ==> keys.contains((#[trigger] attempts[i]).0),
    ensures
        replay(q, a, attempts).0 == replay(q, b, attempts).0,
        agree_on(replay(q, a, attempts).1, replay(q, b, attempts).1, keys),
    decreases attempts.len(),
{
    if attempts.len() > 0 {
        let prefix = attempts.drop_last();
        assert forall|i: int| 0 <= i < prefix.len() implies keys.contains(
            (#[trigger] prefix[i]).0,
        ) by {
            assert(prefix[i] == attempts[i]);
        }
        lemma_replay_agrees(q, a, b, prefix, keys);
        let last = attempts.last();
        assert(last == attempts[attempts.len() - 1]);
        assert(keys.contains(last.0));
        let ra = replay(q, a, prefix).1;
        let rb = replay(q, b, prefix).1;
        assert(schedule_start(ra, last.0, last.1) == schedule_start(rb, last.0, last.1));
        let sa = step(q, ra, last.0, last.1);
        let sb = step(q, rb, last.0, last.1);
        assert(sa.0 == sb.0);
        assert forall|k: u128| #[trigger] keys.contains(k) implies (sa.1.contains_key(k)
            == sb.1.contains_key(k) && (sa.1.contains_key(k) ==> sa.1[k] == sb.1[k])) by {
            assert(ra.contains_key(k) == rb.contains_key(k));
        }
    }
}

/// Determinism: the decisions on a sequence of attempts depend only on the
/// quota, the attempts and the state of the keys they name; so replaying the
/// same attempts against fresh state always gives the same decisions.
pub proof fn lemma_replay_deterministic(
    q: Quota,
    a: Map<u128, u128>,
    b: Map<u128, u128>,
    attempts: Seq<(u128, u64)>,
)
    requires
        forall|i: int|
            0 <= i < attempts.len() ==> agree_on(
                a,
                b,
                set![(#[trigger] attempts[i]).0],
            ),
    ensures
        replay(q, a, attempts).0 == replay(q, b, attempts).0,
{
    let keys = Set::new(|k: u128| exists|i: int| 0 <= i < attempts.len() && attempts[i].0 == k);
    assert forall|k: u128| #[trigger] keys.contains(k) implies (a.contains_key(k)
        == b.contains_key(k) && (a.contains_key(k) ==> a[k] == b[k])) by {
        let i = choose|i: int| 0 <= i < attempts.len() && attempts[i].0 == k;
        assert(agree_on(a, b, set![attempts[i].0]));
        assert(set![attempts[i].0].contains(k));
    }
    assert forall|i: int| 0 <= i < attempts.len() implies keys.contains(
        (#[trigger] attempts[i]).0,
    ) by {}
    lemma_replay_agrees(q, a, b, attempts, keys);
}

/// Two states schedule every key alike for attempts at `now` or later: they
/// hold the same keys with a TAT after `now`, with the same TATs.
pub open spec fn alike_from(a: Map<u128, u128>, b: Map<u128, u128>, now: u64) -> bool {
    forall|k: u128| #[trigger]
        recent(a, now).contains_key(k) == recent(b, now).contains_key(k) && (recent(
            a,
            now,
        ).contains_key(k) ==> a[k] == b[k])
}

proof fn lemma_replay_alike(
    q: Quota,
    a: Map<u128, u128>,
    b: Map<u128, u128>,
    attempts: Seq<(u128, u64)>,
    now: u64,
)
    requires
        alike_from(a, b, now),
        forall|i: int| 0 <= i < attempts.len() ==> (#[trigger] attempts[i]).1 >= now,
    ensures
        replay(q, a, attempts).0 == replay(q, b, attempts).0,
        alike_from(replay(q, a, attempts).1, replay(q, b, attempts).1, now),
    decreases attempts.len(),
{
    if attempts.len() > 0 {
        let prefix = attempts.drop_last();
        assert forall|i: int| 0 <= i < prefix.len() implies (#[trigger] prefix[i]).1 >= now by {
            assert(prefix[i] == attempts[i]);
        }
        lemma_replay_alike(q, a, b, prefix, now);
        let last = attempts.last();
        assert(last == attempts[attempts.len() - 1]);
        let ra = replay(q, a, prefix).1;
        let rb = replay(q, b, prefix).1;
        assert(recent(ra, now).contains_key(last.0) == recent(rb, now).contains_key(last.0));
        assert(schedule_start(ra, last.0, last.1) == schedule_start(rb, last.0, last.1));
        let sa = step(q, ra, last.0, last.1);
        let sb = step(q, rb, last.0, last.1);
        assert forall|k: u128| #[trigger]
            recent(sa.1, now).contains_key(k) == recent(sb.1, now).contains_key(k) && (recent(
                sa.1,
                now,
            ).contains_key(k) ==> sa.1[k] == sb.1[k]) by {
            assert(recent(ra, now).contains_key(k) == recent(rb, now).contains_key(k));
        }
    }
}

/// Forgetting the keys that are fully replenished at `now` changes no
/// decision on attempts made at `now` or later.
pub proof fn lemma_retain_recent_keeps_decisions(
    q: Quota,
    tats: Map<u128, u128>,
    now: u64,
    attempts: Seq<(u128, u64)>,
)
    requires
        forall|i: int| 0 <= i < attempts.len() ==> (#[trigger] attempts[i]).1 >= now,
    ensures
        replay(q, recent(tats, now), attempts).0 == replay(q, tats, attempts).0,
{
    let r = recent(tats, now);
    assert forall|k: u128| #[trigger]
        recent(r, now).contains_key(k) == recent(tats, now).contains_key(k) && (recent(
            r,
            now,
        ).contains_key(k) ==> r[k] == tats[k]) by {}
    lemma_replay_alike(q, r, tats, attempts, now);
}

} // verus!
