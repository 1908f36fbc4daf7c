use gitmoto::github::{blocked_message, RateLimiters};
use gitmoto::ratelimit::{AdmitOutcome, BucketConfig, QuotaPair, QuotaTier, TokenBucket};

fn bucket(capacity: u64, interval_ms: u64, refill: u64, now: u64) -> TokenBucket {
    TokenBucket::new(
        BucketConfig { capacity, refill_interval_ms: interval_ms, refill_amount: refill },
        capacity,
        now,
    )
}

#[test]
fn full_bucket_grants_exactly_capacity_then_denies() {
    let mut b = bucket(3, 1000, 2, 0);
    assert!(b.try_acquire(1, 0));
    assert!(b.try_acquire(1, 0));
    assert!(b.try_acquire(1, 0));
    assert!(!b.try_acquire(1, 0));
}

#[test]
fn refill_grants_refill_amount_more() {
    let mut b = bucket(3, 1000, 2, 0);
    assert!(b.try_acquire(1, 0));
    assert!(b.try_acquire(1, 0));
    assert!(b.try_acquire(1, 0));
    assert!(!b.try_acquire(1, 0));
    // one interval later, refill_amount tokens are back
    assert!(b.try_acquire(1, 1000));
    assert!(b.try_acquire(1, 1000));
    assert!(!b.try_acquire(1, 1000));
}

#[test]
fn refill_never_exceeds_capacity() {
    let mut b = bucket(2, 100, 2, 0);
    // many intervals later the bucket is merely full
    assert!(b.try_acquire(1, 100000));
    assert!(b.try_acquire(1, 100000));
    assert!(!b.try_acquire(1, 100000));
}

#[test]
fn one_per_second_bucket_spaces_admissions_by_a_second() {
    // a capacity-one bucket refilling once a second: after one admission,
    // nothing is admitted strictly before a full second has passed
    let mut b = bucket(1, 1000, 1, 0);
    assert!(b.try_acquire(1, 0));
    assert!(!b.try_acquire(1, 1));
    assert!(!b.try_acquire(1, 500));
    assert!(!b.try_acquire(1, 999));
    assert!(b.try_acquire(1, 1000));
}

#[test]
fn pair_admits_only_when_both_buckets_have_tokens() {
    let mut p = QuotaPair {
        primary: bucket(1, 1000, 1, 0),
        secondary: bucket(2, 100, 2, 0),
    };
    assert_eq!(p.try_admit(0), AdmitOutcome::Admitted);
    // primary is exhausted: blocked on the primary tier until its refill
    assert_eq!(
        p.try_admit(10),
        AdmitOutcome::Blocked { tier: QuotaTier::Primary, wait_ms: 990 },
    );
    // after the primary refill both have tokens again
    assert_eq!(p.try_admit(1000), AdmitOutcome::Admitted);
}

#[test]
fn pair_reports_secondary_tier_when_only_it_is_exhausted() {
    let mut p = QuotaPair {
        primary: bucket(10, 1000, 10, 0),
        secondary: bucket(1, 200, 1, 0),
    };
    assert_eq!(p.try_admit(0), AdmitOutcome::Admitted);
    assert_eq!(
        p.try_admit(50),
        AdmitOutcome::Blocked { tier: QuotaTier::Secondary, wait_ms: 150 },
    );
    assert_eq!(p.try_admit(200), AdmitOutcome::Admitted);
}

#[test]
fn github_defaults_carry_documented_quotas() {
    let r = RateLimiters::github_defaults(0);
    assert_eq!(r.anonymous.primary.config.capacity, 60);
    assert_eq!(r.anonymous.primary.config.refill_interval_ms, 3600000);
    assert_eq!(r.anonymous.secondary.config.capacity, 900);
    assert_eq!(r.anonymous.secondary.config.refill_interval_ms, 60000);
    assert_eq!(r.authenticated.primary.config.capacity, 5000);
    assert_eq!(r.authenticated.secondary.config.capacity, 900);
}

#[test]
fn anonymous_primary_quota_runs_out_after_sixty() {
    let mut r = RateLimiters::github_defaults(0);
    let mut admitted: u64 = 0;
    loop {
        match r.admit_request(false, 0) {
            AdmitOutcome::Admitted => admitted += 1,
            AdmitOutcome::Blocked { tier, wait_ms } => {
                assert_eq!(tier, QuotaTier::Primary);
                assert_eq!(wait_ms, 3600000);
                break;
            }
        }
        assert!(admitted <= 60);
    }
    assert_eq!(admitted, 60);
}

#[test]
fn admitting_as_authenticated_leaves_anonymous_quota_alone() {
    let mut r = RateLimiters::github_defaults(0);
    assert_eq!(r.admit_request(true, 0), AdmitOutcome::Admitted);
    assert_eq!(r.authenticated.primary.available, 4999);
    assert_eq!(r.anonymous.primary.available, 60);
}

#[test]
fn blocked_messages_name_tier_and_auth_state() {
    assert_eq!(
        blocked_message(QuotaTier::Primary, false).as_str(),
        "rate limited without auth by primary, please wait; login to GitHub for higher rate",
    );
    assert_eq!(
        blocked_message(QuotaTier::Secondary, true).as_str(),
        "rate limited with auth by secondary, please wait",
    );
}
