//! Hosted-API connection state: the documented request quotas, per
//! authentication state, and the admission decision taken before every
//! page fetch.
//!
//! The HTTP client, the silent token lookup at construction time, and the
//! sleeps the limiter asks for all live outside the library; what the
//! library owns is the quota table and the decision — admitted now, or
//! blocked on a named tier for a computed wait.

use vstd::prelude::*;

use crate::ratelimit::{
    admit_outcome_spec, admit_state_spec, AdmitOutcome, BucketConfig, QuotaPair, QuotaTier,
    TokenBucket,
};

verus! {

/// Unauthenticated primary quota: 60 requests per hour.
pub const ANON_PRIMARY_CAPACITY: u64 = 60;

/// Authenticated primary quota: 5000 requests per hour.
pub const AUTH_PRIMARY_CAPACITY: u64 = 5000;

/// Primary quotas replenish hourly.
pub const PRIMARY_INTERVAL_MS: u64 = 3600000;

/// Secondary quota, either way: 900 point-reads per minute.
pub const SECONDARY_CAPACITY: u64 = 900;

/// Secondary quotas replenish every minute.
pub const SECONDARY_INTERVAL_MS: u64 = 60000;

/// The per-authentication-state rate limiters of one hosted-API
/// connection, created once and kept for the life of the process.
pub struct RateLimiters {
    pub authenticated: QuotaPair,
    pub anonymous: QuotaPair,
}

/// One full bucket of the given shape, created at `now`.
fn full_bucket(capacity: u64, interval_ms: u64, now: u64) -> (b: TokenBucket)
    requires
        capacity >= 1,
        interval_ms >= 1,
    ensures
        b.wf(),
        b.config == (BucketConfig {
            capacity,
            refill_interval_ms: interval_ms,
            refill_amount: capacity,
        }),
        b.available == capacity,
        b.last_refill_ms == now,
{
    TokenBucket::new(
        BucketConfig { capacity, refill_interval_ms: interval_ms, refill_amount: capacity },
        capacity,
        now,
    )
}

impl RateLimiters {
    pub open spec fn wf(&self) -> bool {
        self.authenticated.wf() && self.anonymous.wf()
    }

    pub open spec fn clocks_at_most(&self, now: u64) -> bool {
        self.authenticated.clocks_at_most(now) && self.anonymous.clocks_at_most(now)
    }

    /// The four buckets carry the documented hosted-API quotas.
    pub open spec fn github_configured(&self) -> bool {
        &&& self.anonymous.primary.config == (BucketConfig {
            capacity: ANON_PRIMARY_CAPACITY,
            refill_interval_ms: PRIMARY_INTERVAL_MS,
            refill_amount: ANON_PRIMARY_CAPACITY,
        })
        &&& self.anonymous.secondary.config == (BucketConfig {
            capacity: SECONDARY_CAPACITY,
            refill_interval_ms: SECONDARY_INTERVAL_MS,
            refill_amount: SECONDARY_CAPACITY,
        })
        &&& self.authenticated.primary.config == (BucketConfig {
            capacity: AUTH_PRIMARY_CAPACITY,
            refill_interval_ms: PRIMARY_INTERVAL_MS,
            refill_amount: AUTH_PRIMARY_CAPACITY,
        })
        &&& self.authenticated.secondary.config == (BucketConfig {
            capacity: SECONDARY_CAPACITY,
            refill_interval_ms: SECONDARY_INTERVAL_MS,
            refill_amount: SECONDARY_CAPACITY,
        })
    }

    /// The limiters a fresh connection starts with: every bucket full at
    /// `now`, shaped by the documented quotas.
    pub fn github_defaults(now: u64) -> (r: RateLimiters)
        ensures
            r.wf(),
            r.clocks_at_most(now),
            r.github_configured(),
            r.anonymous.primary.available == ANON_PRIMARY_CAPACITY,
            r.anonymous.secondary.available == SECONDARY_CAPACITY,
            r.authenticated.primary.available == AUTH_PRIMARY_CAPACITY,
            r.authenticated.secondary.available == SECONDARY_CAPACITY,
    {
        RateLimiters {
            authenticated: QuotaPair {
                primary: full_bucket(AUTH_PRIMARY_CAPACITY, PRIMARY_INTERVAL_MS, now),
                secondary: full_bucket(SECONDARY_CAPACITY, SECONDARY_INTERVAL_MS, now),
            },
            anonymous: QuotaPair {
                primary: full_bucket(ANON_PRIMARY_CAPACITY, PRIMARY_INTERVAL_MS, now),
                secondary: full_bucket(SECONDARY_CAPACITY, SECONDARY_INTERVAL_MS, now),
            },
        }
    }

    /// Decide one request at `now` against the pair matching the caller's
    /// authentication state; the other pair is untouched.  `Admitted`
    /// consumes one token from each tier; `Blocked` names the exhausted
    /// tier and how long until its next refill.
    pub fn admit_request(&mut self, authorized: bool, now: u64) -> (r: AdmitOutcome)
        requires
            old(self).wf(),
            old(self).clocks_at_most(now),
            now + PRIMARY_INTERVAL_MS <= u64::MAX,
            old(self).github_configured(),
        ensures
            final(self).wf(),
            final(self).clocks_at_most(now),
            final(self).github_configured(),
            authorized ==> {
                &&& r == admit_outcome_spec(old(self).authenticated, now)
                &&& final(self).authenticated == admit_state_spec(old(self).authenticated, now)
                &&& final(self).anonymous == old(self).anonymous
            },
            !authorized ==> {
                &&& r == admit_outcome_spec(old(self).anonymous, now)
                &&& final(self).anonymous == admit_state_spec(old(self).anonymous, now)
                &&& final(self).authenticated == old(self).authenticated
            },
    {
        if authorized {
            self.authenticated.try_admit(now)
        } else {
            self.anonymous.try_admit(now)
        }
    }
}

/// The wording of the rate-limit diagnostic for an exhausted tier.
pub open spec fn blocked_message_view(tier: QuotaTier, authorized: bool) -> Seq<char> {
    (if authorized {
        "rate limited with auth by "@
    } else {
        "rate limited without auth by "@
    }) + (match tier {
        QuotaTier::Primary => "primary"@,
        QuotaTier::Secondary => "secondary"@,
    }) + ", please wait"@ + (if authorized {
        Seq::<char>::empty()
    } else {
        "; login to GitHub for higher rate"@
    })
}

/// The diagnostic logged when a request is blocked: it names the
/// exhausted tier, says whether authentication was active, and hints at
/// authenticating when it was not.
pub fn blocked_message(tier: QuotaTier, authorized: bool) -> (m: String)
    ensures
        m@ == blocked_message_view(tier, authorized),
{
    let head = if authorized {
        "rate limited with auth by "
    } else {
        "rate limited without auth by "
    };
    let tier_name = match tier {
        QuotaTier::Primary => "primary",
        QuotaTier::Secondary => "secondary",
    };
    let mut m = head.to_owned().concat(tier_name).concat(", please wait");
    if !authorized {
        m.append("; login to GitHub for higher rate");
    } else {
        proof {
            assert(m@ + Seq::<char>::empty() =~= m@);
        }
    }
    m
}

} // verus!
