//! Token-bucket rate limiting with explicit time.
//!
//! A bucket holds up to `capacity` tokens and gains `refill_amount` of
//! them every `refill_interval_ms`, never exceeding the capacity.  Time is
//! an argument of every operation — a caller clock in milliseconds — so
//! the whole accounting is a pure state machine: what to do while a
//! bucket is empty (sleep until its next refill) is the caller's
//! business, and the caller learns exactly how long from
//! [`QuotaPair::try_admit`].

use vstd::arithmetic::div_mod::{lemma_fundamental_div_mod, lemma_mod_bound};
use vstd::math::min;
use vstd::prelude::*;

verus! {

/// The fixed shape of one bucket.
pub struct BucketConfig {
    pub capacity: u64,
    pub refill_interval_ms: u64,
    pub refill_amount: u64,
}

impl BucketConfig {
    pub open spec fn wf(&self) -> bool {
        self.capacity >= 1 && self.refill_interval_ms >= 1 && self.refill_amount >= 1
    }
}

/// One token bucket: its configuration, the tokens now available, and the
/// instant of the last refill it has accounted for.
pub struct TokenBucket {
    pub config: BucketConfig,
    pub available: u64,
    pub last_refill_ms: u64,
}

/// How many whole refill intervals have elapsed since the bucket last
/// accounted for one.
pub open spec fn periods_elapsed(b: TokenBucket, now: u64) -> int {
    (now - b.last_refill_ms) / (b.config.refill_interval_ms as int)
}

/// The tokens available once every elapsed interval is credited: capped
/// at capacity, never lost below it.
pub open spec fn avail_after_refill(b: TokenBucket, now: u64) -> int {
    min(
        b.config.capacity as int,
        b.available + periods_elapsed(b, now) * b.config.refill_amount,
    )
}

/// The refill instant the bucket accounts up to at `now`: a whole number
/// of intervals, at most `now`.
pub open spec fn last_after_refill(b: TokenBucket, now: u64) -> int {
    b.last_refill_ms + periods_elapsed(b, now) * b.config.refill_interval_ms
}

/// Whether an acquisition of `n` tokens at `now` is granted.
pub open spec fn acquire_granted(b: TokenBucket, n: u64, now: u64) -> bool {
    avail_after_refill(b, now) >= n
}

/// The bucket state after `try_acquire(n)` at `now`: refilled, and `n`
/// tokens fewer exactly when the acquisition was granted.
pub open spec fn acquire_state(b: TokenBucket, n: u64, now: u64) -> TokenBucket {
    TokenBucket {
        config: b.config,
        available: if acquire_granted(b, n, now) {
            (avail_after_refill(b, now) - n) as u64
        } else {
            avail_after_refill(b, now) as u64
        },
        last_refill_ms: last_after_refill(b, now) as u64,
    }
}

impl TokenBucket {
    pub open spec fn wf(&self) -> bool {
        self.config.wf() && self.available <= self.config.capacity
    }

    /// A bucket created at `now` holding `initial` tokens.
    pub fn new(config: BucketConfig, initial: u64, now: u64) -> (b: TokenBucket)
        requires
            config.wf(),
            initial <= config.capacity,
        ensures
            b.wf(),
            b.config == config,
            b.available == initial,
            b.last_refill_ms == now,
    {
        TokenBucket { config, available: initial, last_refill_ms: now }
    }

    /// Credit every whole refill interval elapsed up to `now`.
    fn refill(&mut self, now: u64)
        requires
            old(self).wf(),
            now >= old(self).last_refill_ms,
        ensures
            final(self).wf(),
            final(self).config == old(self).config,
            final(self).available == avail_after_refill(*old(self), now),
            final(self).last_refill_ms == last_after_refill(*old(self), now),
            final(self).last_refill_ms <= now,
            now - final(self).last_refill_ms < final(self).config.refill_interval_ms,
    {
        let elapsed = now - self.last_refill_ms;
        let interval = self.config.refill_interval_ms;
        let periods = elapsed / interval;
        proof {
            lemma_fundamental_div_mod(elapsed as int, interval as int);
            lemma_mod_bound(elapsed as int, interval as int);
            assert(periods * interval <= elapsed) by {
                vstd::arithmetic::mul::lemma_mul_is_commutative(periods as int, interval as int);
                assert(elapsed == interval * ((elapsed as int) / (interval as int)) + (
                (elapsed as int) % (interval as int)));
            }
        }
        if periods > 0 {
            proof {
                assert((periods as int) * (self.config.refill_amount as int) <= u128::MAX as int)
                    by (nonlinear_arith)
                    requires
                        0 <= periods as int <= u64::MAX as int,
                        0 <= self.config.refill_amount as int <= u64::MAX as int,
                ;
            }
            let add128: u128 = (periods as u128) * (self.config.refill_amount as u128);
            let deficit = self.config.capacity - self.available;
            if add128 >= deficit as u128 {
                self.available = self.config.capacity;
            } else {
                self.available = self.available + (add128 as u64);
            }
            self.last_refill_ms = self.last_refill_ms + periods * interval;
            proof {
                assert(now - self.last_refill_ms == elapsed - (periods as int) * (interval as int));
                assert(elapsed - (periods as int) * (interval as int) == (elapsed as int)
                    % (interval as int)) by {
                    vstd::arithmetic::mul::lemma_mul_is_commutative(
                        periods as int,
                        interval as int,
                    );
                    assert(elapsed == interval * ((elapsed as int) / (interval as int)) + (
                    (elapsed as int) % (interval as int)));
                }
                assert((elapsed as int) % (interval as int) < interval as int);
            }
        }
        proof {
            assert(periods == periods_elapsed(*old(self), now));
            assert(interval == old(self).config.refill_interval_ms);
            if periods == 0 {
                vstd::arithmetic::mul::lemma_mul_basics(interval as int);
                vstd::arithmetic::mul::lemma_mul_basics(old(self).config.refill_amount as int);
                assert((periods as int) * (interval as int) == 0);
                assert((periods as int) * (old(self).config.refill_amount as int) == 0);
                assert(self.last_refill_ms == last_after_refill(*old(self), now));
                assert(self.available == avail_after_refill(*old(self), now));
            } else {
                assert(self.last_refill_ms == old(self).last_refill_ms + (periods as int) * (
                interval as int));
                assert(last_after_refill(*old(self), now) == old(self).last_refill_ms + (
                periods as int) * (interval as int));
                assert(self.last_refill_ms == last_after_refill(*old(self), now));
                assert(self.available == avail_after_refill(*old(self), now));
            }
        }
    }

    /// Try to take `n` tokens at `now`: non-suspending.  Returns whether
    /// the refilled bucket held at least `n` tokens and, if so, consumed
    /// them.
    pub fn try_acquire(&mut self, n: u64, now: u64) -> (granted: bool)
        requires
            old(self).wf(),
            now >= old(self).last_refill_ms,
        ensures
            final(self).wf(),
            granted == acquire_granted(*old(self), n, now),
            *final(self) == acquire_state(*old(self), n, now),
            final(self).last_refill_ms <= now,
            now - final(self).last_refill_ms < final(self).config.refill_interval_ms,
    {
        self.refill(now);
        if self.available >= n {
            self.available = self.available - n;
            true
        } else {
            false
        }
    }

    /// How long after `now` the next refill lands.  Meaningful after an
    /// acquisition at `now` was denied: sleeping this long and retrying
    /// observes at least one new refill.
    pub fn wait_until_refill(&self, now: u64) -> (w: u64)
        requires
            self.wf(),
            self.last_refill_ms <= now,
            now - self.last_refill_ms < self.config.refill_interval_ms,
            self.last_refill_ms + self.config.refill_interval_ms <= u64::MAX,
        ensures
            w == self.last_refill_ms + self.config.refill_interval_ms - now,
            w >= 1,
    {
        self.last_refill_ms + self.config.refill_interval_ms - now
    }
}

/// Which of the two quotas of a pair ran out.
#[derive(Clone, Copy, PartialEq, Eq, Structural, Debug)]
pub enum QuotaTier {
    Primary,
    Secondary,
}

/// The verdict on one request: admitted, or blocked on a tier until its
/// next refill.
#[derive(Clone, Copy, PartialEq, Eq, Structural, Debug)]
pub enum AdmitOutcome {
    Admitted,
    Blocked { tier: QuotaTier, wait_ms: u64 },
}

/// The bucket state after crediting elapsed intervals, consuming nothing.
pub open spec fn refilled(b: TokenBucket, now: u64) -> TokenBucket {
    TokenBucket {
        config: b.config,
        available: avail_after_refill(b, now) as u64,
        last_refill_ms: last_after_refill(b, now) as u64,
    }
}

/// Two independent quotas guarding one kind of request: a request is
/// admitted only when both buckets hold a token.
pub struct QuotaPair {
    pub primary: TokenBucket,
    pub secondary: TokenBucket,
}

/// The verdict `QuotaPair::try_admit` reaches at `now`: admitted when
/// both buckets can supply a token, otherwise blocked on the first
/// exhausted tier until that bucket's next refill.
pub open spec fn admit_outcome_spec(p: QuotaPair, now: u64) -> AdmitOutcome {
    if !acquire_granted(p.primary, 1, now) {
        AdmitOutcome::Blocked {
            tier: QuotaTier::Primary,
            wait_ms: (last_after_refill(p.primary, now) + p.primary.config.refill_interval_ms
                - now) as u64,
        }
    } else if !acquire_granted(p.secondary, 1, now) {
        AdmitOutcome::Blocked {
            tier: QuotaTier::Secondary,
            wait_ms: (last_after_refill(p.secondary, now) + p.secondary.config.refill_interval_ms
                - now) as u64,
        }
    } else {
        AdmitOutcome::Admitted
    }
}

/// The pair state `QuotaPair::try_admit` leaves at `now`: one token
/// consumed from each bucket when admitted, otherwise only the refill
/// accounting advances.
pub open spec fn admit_state_spec(p: QuotaPair, now: u64) -> QuotaPair {
    if acquire_granted(p.primary, 1, now) && acquire_granted(p.secondary, 1, now) {
        QuotaPair {
            primary: acquire_state(p.primary, 1, now),
            secondary: acquire_state(p.secondary, 1, now),
        }
    } else {
        QuotaPair { primary: refilled(p.primary, now), secondary: refilled(p.secondary, now) }
    }
}

impl QuotaPair {
    pub open spec fn wf(&self) -> bool {
        self.primary.wf() && self.secondary.wf()
    }

    pub open spec fn clocks_at_most(&self, now: u64) -> bool {
        self.primary.last_refill_ms <= now && self.secondary.last_refill_ms <= now
    }

    /// Admit one request at `now` if both buckets can supply a token;
    /// otherwise report the exhausted tier (the primary is reported
    /// first) and how long until that tier refills, consuming nothing.
    pub fn try_admit(&mut self, now: u64) -> (r: AdmitOutcome)
        requires
            old(self).wf(),
            old(self).clocks_at_most(now),
            now + old(self).primary.config.refill_interval_ms <= u64::MAX,
            now + old(self).secondary.config.refill_interval_ms <= u64::MAX,
        ensures
            final(self).wf(),
            final(self).clocks_at_most(now),
            r == admit_outcome_spec(*old(self), now),
            *final(self) == admit_state_spec(*old(self), now),
    {
        let ghost p0 = self.primary;
        let ghost s0 = self.secondary;
        self.primary.refill(now);
        self.secondary.refill(now);
        proof {
            assert(self.primary == (TokenBucket {
                config: p0.config,
                available: avail_after_refill(p0, now) as u64,
                last_refill_ms: last_after_refill(p0, now) as u64,
            }));
        }
        if self.primary.available < 1 {
            let w = self.primary.wait_until_refill(now);
            AdmitOutcome::Blocked { tier: QuotaTier::Primary, wait_ms: w }
        } else if self.secondary.available < 1 {
            let w = self.secondary.wait_until_refill(now);
            AdmitOutcome::Blocked { tier: QuotaTier::Secondary, wait_ms: w }
        } else {
            self.primary.available = self.primary.available - 1;
            self.secondary.available = self.secondary.available - 1;
            AdmitOutcome::Admitted
        }
    }
}

/// The bucket left by `k` successive single-token acquisitions at one
/// instant.
pub open spec fn drain(b: TokenBucket, k: nat, now: u64) -> TokenBucket
    decreases k,
{
    if k == 0 {
        b
    } else {
        drain(acquire_state(b, 1, now), (k - 1) as nat, now)
    }
}

/// Whether `k` successive single-token acquisitions at one instant are
/// all granted.
pub open spec fn all_granted(b: TokenBucket, k: nat, now: u64) -> bool
    decreases k,
{
    k == 0 || (acquire_granted(b, 1, now) && all_granted(
        acquire_state(b, 1, now),
        (k - 1) as nat,
        now,
    ))
}

/// Between refills, acquisitions simply count down the available tokens:
/// as long as `k` of them are there, `k` acquisitions are granted and
/// exactly `k` tokens leave.
pub proof fn lemma_drain_quiescent(b: TokenBucket, k: nat, now: u64)
    requires
        b.wf(),
        b.last_refill_ms <= now,
        now - b.last_refill_ms < b.config.refill_interval_ms,
        k <= b.available,
    ensures
        all_granted(b, k, now),
        drain(b, k, now) == (TokenBucket {
            config: b.config,
            available: (b.available - k) as u64,
            last_refill_ms: b.last_refill_ms,
        }),
    decreases k,
{
    vstd::arithmetic::div_mod::lemma_basic_div_specific_divisor(b.config.refill_interval_ms as int);
    vstd::arithmetic::mul::lemma_mul_basics(b.config.refill_amount as int);
    vstd::arithmetic::mul::lemma_mul_basics(b.config.refill_interval_ms as int);
    assert(periods_elapsed(b, now) == 0);
    assert(avail_after_refill(b, now) == b.available);
    assert(last_after_refill(b, now) == b.last_refill_ms);
    if k == 0 {
        assert(drain(b, k, now) =~= b);
    } else {
        let b1 = acquire_state(b, 1, now);
        assert(b1.available == b.available - 1);
        lemma_drain_quiescent(b1, (k - 1) as nat, now);
    }
}

/// Law: a bucket created full admits exactly `capacity` single-token
/// acquisitions at its creation instant — the next one is denied — and,
/// one refill interval later, exactly `refill_amount` more (stated for
/// `refill_amount <= capacity`, where the refill is not capped).
pub proof fn lemma_capacity_bounds_burst(cfg: BucketConfig, t0: u64)
    requires
        cfg.wf(),
        cfg.refill_amount <= cfg.capacity,
        t0 + cfg.refill_interval_ms <= u64::MAX,
    ensures
        all_granted(
            TokenBucket { config: cfg, available: cfg.capacity, last_refill_ms: t0 },
            cfg.capacity as nat,
            t0,
        ),
        !acquire_granted(
            drain(
                TokenBucket { config: cfg, available: cfg.capacity, last_refill_ms: t0 },
                cfg.capacity as nat,
                t0,
            ),
            1,
            t0,
        ),
        all_granted(
            drain(
                TokenBucket { config: cfg, available: cfg.capacity, last_refill_ms: t0 },
                cfg.capacity as nat,
                t0,
            ),
            cfg.refill_amount as nat,
            (t0 + cfg.refill_interval_ms) as u64,
        ),
{
    let full = TokenBucket { config: cfg, available: cfg.capacity, last_refill_ms: t0 };
    lemma_drain_quiescent(full, cfg.capacity as nat, t0);
    let empty = drain(full, cfg.capacity as nat, t0);
    vstd::arithmetic::div_mod::lemma_basic_div_specific_divisor(cfg.refill_interval_ms as int);
    vstd::arithmetic::mul::lemma_mul_basics(cfg.refill_amount as int);
    vstd::arithmetic::mul::lemma_mul_basics(cfg.refill_interval_ms as int);
    assert(periods_elapsed(empty, t0) == 0);
    assert(avail_after_refill(empty, t0) == 0);
    let t1 = (t0 + cfg.refill_interval_ms) as u64;
    vstd::arithmetic::div_mod::lemma_div_by_self(cfg.refill_interval_ms as int);
    assert(periods_elapsed(empty, t1) == 1);
    assert(avail_after_refill(empty, t1) == cfg.refill_amount);
    assert(acquire_granted(empty, 1, t1));
    let b2 = acquire_state(empty, 1, t1);
    assert(b2.available == cfg.refill_amount - 1);
    assert(b2.last_refill_ms == t1);
    lemma_drain_quiescent(b2, (cfg.refill_amount - 1) as nat, t1);
    assert(all_granted(empty, cfg.refill_amount as nat, t1));
}

/// Law: a capacity-one bucket that was drained at `t0` denies every
/// acquisition strictly before `t0 + refill_interval_ms` and grants one
/// at that instant — two consecutive admissions through such a bucket
/// are at least one refill interval apart.
pub proof fn lemma_min_spacing(cfg: BucketConfig, t0: u64, t: u64)
    requires
        cfg.wf(),
        t0 <= t,
        t - t0 < cfg.refill_interval_ms,
        t0 + cfg.refill_interval_ms <= u64::MAX,
    ensures
        !acquire_granted(TokenBucket { config: cfg, available: 0, last_refill_ms: t0 }, 1, t),
        acquire_granted(
            TokenBucket { config: cfg, available: 0, last_refill_ms: t0 },
            1,
            (t0 + cfg.refill_interval_ms) as u64,
        ),
{
    let b = TokenBucket { config: cfg, available: 0, last_refill_ms: t0 };
    vstd::arithmetic::div_mod::lemma_basic_div_specific_divisor(cfg.refill_interval_ms as int);
    vstd::arithmetic::mul::lemma_mul_basics(cfg.refill_amount as int);
    assert(periods_elapsed(b, t) == 0);
    assert(avail_after_refill(b, t) == 0);
    let t1 = (t0 + cfg.refill_interval_ms) as u64;
    vstd::arithmetic::div_mod::lemma_div_by_self(cfg.refill_interval_ms as int);
    assert(periods_elapsed(b, t1) == 1);
    assert(avail_after_refill(b, t1) >= 1);
}

} // verus!
