use citadel_workspace_server_kernel::rate_limiter::{Bucket, RateLimiter};

const SEC: u64 = 1_000_000_000;
const MS: u64 = 1_000_000;
const T0: u64 = 100 * SEC;

fn limiter() -> RateLimiter {
    RateLimiter::new(3, SEC)
}

#[test]
fn allows_requests_up_to_max_then_rejects() {
    let mut l = limiter();
    let t = T0;
    assert!(l.try_consume(1, t));
    assert!(l.try_consume(1, t));
    assert!(l.try_consume(1, t));
    assert!(!l.try_consume(1, t));
}

#[test]
fn refills_after_the_interval_elapses() {
    let mut l = limiter();
    let t0 = T0;
    for _ in 0..3 {
        assert!(l.try_consume(7, t0));
    }
    assert!(!l.try_consume(7, t0));
    let t1 = t0 + SEC;
    assert!(l.try_consume(7, t1));
    assert!(l.try_consume(7, t1));
    assert!(l.try_consume(7, t1));
    assert!(!l.try_consume(7, t1));
}

#[test]
fn does_not_refill_inside_the_interval() {
    let mut l = limiter();
    let t0 = T0;
    for _ in 0..3 {
        assert!(l.try_consume(2, t0));
    }
    let t_just_under = t0 + 999 * MS;
    assert!(!l.try_consume(2, t_just_under));
}

#[test]
fn different_cids_have_independent_buckets() {
    let mut l = limiter();
    let t = T0;
    for _ in 0..3 {
        assert!(l.try_consume(10, t));
    }
    assert!(!l.try_consume(10, t));
    assert!(l.try_consume(11, t));
    assert!(l.try_consume(11, t));
    assert!(l.try_consume(11, t));
    assert!(!l.try_consume(11, t));
}

#[test]
fn the_same_cid_shares_its_bucket_across_callers() {
    let mut l = limiter();
    let t = T0;
    assert!(l.try_consume(42, t));
    assert!(l.try_consume(42, t));
    assert!(l.try_consume(42, t));
    assert!(!l.try_consume(42, t));
}

#[test]
fn boundary_request_at_zero_tokens_returns_false_without_underflow() {
    let mut l = RateLimiter::new(1, SEC);
    let t = T0;
    assert!(l.try_consume(99, t));
    assert!(!l.try_consume(99, t));
    assert!(!l.try_consume(99, t));
    assert_eq!(l.tracked_cids(), 1);
}

#[test]
fn first_request_per_new_cid_is_allowed_even_if_window_expired() {
    let mut l = limiter();
    assert!(l.try_consume(123, T0));
}

#[test]
fn sweep_reaps_stale_buckets_when_at_capacity() {
    let mut l = RateLimiter::new(1, 10 * MS);
    let t0 = T0;
    assert!(l.try_consume(1, t0 - SEC));
    assert!(l.try_consume(2, t0));
    assert_eq!(l.tracked_cids(), 2);
    assert!(l.try_consume(3, t0));
    assert_eq!(l.tracked_cids(), 3);
}

#[test]
fn sweep_reaps_stale_buckets_directly() {
    let mut l = RateLimiter::new(1, 10 * MS);
    let now = T0;
    for id in 1u64..=5 {
        let age_ms = id * 200;
        l.set_bucket(id, Bucket { tokens: 1, last_refill: now - age_ms * MS });
    }
    l.sweep_stale(now);
    assert!(l.bucket(1).is_some(), "200ms-old bucket should survive");
    assert!(l.bucket(2).is_some(), "400ms-old bucket should survive");
    assert!(l.bucket(3).is_none(), "600ms-old bucket should be reaped");
    assert!(l.bucket(4).is_none(), "800ms-old bucket should be reaped");
    assert!(l.bucket(5).is_none(), "1000ms-old bucket should be reaped");
}

#[test]
fn sweep_fires_through_public_api_at_custom_capacity() {
    let mut l = RateLimiter::with_capacity(1, 10 * MS, 3);
    let t0 = T0;
    let stale_t = t0 - SEC;
    assert!(l.try_consume(1, stale_t));
    assert!(l.try_consume(2, stale_t));
    assert!(l.try_consume(3, stale_t));
    assert_eq!(l.tracked_cids(), 3, "map filled to capacity");
    assert!(l.try_consume(4, t0));
    assert_eq!(l.tracked_cids(), 1, "sweep must reap stale entries when capacity is hit");
    assert!(l.try_consume(1, t0));
}

#[test]
fn sweep_does_not_reap_recent_buckets_at_capacity() {
    let mut l = RateLimiter::with_capacity(1, 10 * MS, 3);
    let t = T0;
    assert!(l.try_consume(1, t));
    assert!(l.try_consume(2, t));
    assert!(l.try_consume(3, t));
    assert_eq!(l.tracked_cids(), 3);
    assert!(l.try_consume(4, t));
    assert_eq!(l.tracked_cids(), 4, "no stale entries to reap, soft over-track is fine");
}

#[test]
fn reaped_cid_starts_with_a_full_budget_again() {
    let mut l = RateLimiter::new(2, 10 * MS);
    let t = T0;
    assert!(l.try_consume(7, t));
    assert!(l.try_consume(7, t));
    assert!(!l.try_consume(7, t));
    l.forget(7);
    assert!(l.try_consume(7, t));
    assert!(l.try_consume(7, t));
    assert!(!l.try_consume(7, t));
}

#[test]
fn a_stale_bucket_behaves_like_a_missing_one() {
    let mut kept = RateLimiter::new(2, 10 * MS);
    let mut dropped = RateLimiter::new(2, 10 * MS);
    kept.set_bucket(5, Bucket { tokens: 0, last_refill: T0 - SEC });
    assert_eq!(kept.try_consume(5, T0), dropped.try_consume(5, T0));
    assert_eq!(kept.bucket(5), dropped.bucket(5));
    assert_eq!(kept.bucket(5), Some(Bucket { tokens: 1, last_refill: T0 }));
}

#[test]
fn a_request_from_one_cid_leaves_another_cids_bucket_alone() {
    let mut l = limiter();
    assert!(l.try_consume(1, T0));
    let before = l.bucket(1);
    assert!(l.try_consume(2, T0));
    assert!(l.try_consume(2, T0));
    assert_eq!(l.bucket(1), before);
    assert_eq!(before, Some(Bucket { tokens: 2, last_refill: T0 }));
}

#[test]
fn an_earlier_instant_than_the_last_refill_counts_as_no_time_elapsed() {
    let mut l = RateLimiter::new(1, SEC);
    assert!(l.try_consume(3, T0));
    assert!(!l.try_consume(3, T0 - 5 * SEC));
}

#[test]
fn one_window_lets_through_at_most_the_budget_across_times() {
    let mut l = RateLimiter::new(3, 1_000_000_000);
    let base: u64 = 5_000;
    let allowed = (0..10u64).filter(|i| l.try_consume(9, base + i * 10_000_000)).count();
    assert_eq!(allowed, 3);
    assert!(l.try_consume(9, base + 1_000_000_000));
}

#[test]
fn reaping_stale_buckets_changes_no_answer() {
    let run = |reap: bool| {
        let mut l = RateLimiter::with_capacity(2, 1_000, 1);
        let mut answers = vec![l.try_consume(1, 0), l.try_consume(1, 0), l.try_consume(1, 0)];
        if reap {
            l.sweep_stale(100_000);
        }
        answers.push(l.try_consume(2, 100_000));
        answers.push(l.try_consume(1, 100_000));
        answers
    };
    assert_eq!(run(true), run(false));
}

#[test]
fn the_first_requests_of_a_window_pass_and_the_rest_are_refused() {
    let mut l = RateLimiter::new(3, SEC);
    assert!(l.try_consume(4, T0));
    let answers: Vec<bool> = (1..6u64).map(|i| l.try_consume(4, T0 + i * MS)).collect();
    assert_eq!(answers, vec![true, true, false, false, false]);
}

#[test]
fn the_table_capacity_changes_no_answer_over_a_run() {
    let run = |cap: usize| {
        let mut l = RateLimiter::with_capacity(1, 10 * MS, cap);
        let mut answers = Vec::new();
        for cid in 1..4u64 {
            answers.push(l.try_consume(cid, T0));
        }
        let later = T0 + 60 * 10 * MS + 1;
        answers.push(l.try_consume(4, later));
        answers.push(l.try_consume(1, later));
        answers.push(l.try_consume(1, later));
        answers
    };
    assert_eq!(run(3), run(usize::MAX));
    assert_eq!(run(3), vec![true, true, true, true, true, false]);
}
