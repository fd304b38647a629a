//! Per-client token-bucket rate limiter.
//!
//! Every client identity (CID) has one bucket of tokens, shared by all of its
//! connections. A request takes one token; a bucket whose refill window has
//! elapsed is topped up to the full budget first. A CID seen for the first
//! time starts with a full budget.
//!
//! Instants are nanoseconds on one monotonic clock and durations are
//! nanoseconds; the elapsed time from a later instant to an earlier one is
//! zero.
//!
//! The bucket table grows with the set of CIDs seen. When a request from an
//! unseen CID finds the table at its high-water mark, buckets whose last
//! refill lies more than sixty refill windows back are dropped first. Such a
//! bucket would be topped up on its next use anyway, so dropping it changes
//! no decision: a dropped CID is treated exactly like one never seen.

use vstd::prelude::*;
use std::collections::HashMap;
use vstd::std_specs::iter::IteratorSpec;

verus! {

broadcast use vstd::std_specs::hash::group_hash_axioms;

/// Default budget per refill window.
pub const DEFAULT_RATE_LIMIT_MAX: u32 = 100;

/// Default refill window: one second, in nanoseconds.
pub const DEFAULT_RATE_LIMIT_REFILL_NANOS: u64 = 1_000_000_000;

/// Default high-water mark of the bucket table.
pub const DEFAULT_MAX_TRACKED_CIDS: usize = 100_000;

/// A bucket is stale, and may be dropped, once its last refill lies this
/// many refill windows back.
pub const STALE_BUCKET_AGE_MULTIPLIER: u32 = 60;

/// One CID's budget.
#[derive(Debug, Clone, Copy, PartialEq, Eq, Structural)]
pub struct Bucket {
    /// Tokens currently available.
    pub tokens: u32,
    /// Instant (nanoseconds) of the last full refill.
    pub last_refill: u64,
}

impl Bucket {
    /// A full bucket refilled at `now`.
    pub fn new(now: u64, max: u32) -> (b: Bucket)
        ensures
            b == (Bucket { tokens: max, last_refill: now }),
    {
        Bucket { tokens: max, last_refill: now }
    }
}

/// The limiter's fixed settings.
#[derive(Debug, Clone, Copy, PartialEq, Eq, Structural)]
pub struct LimiterConfig {
    /// Budget per refill window.
    pub max_tokens: u32,
    /// Length of the refill window, in nanoseconds.
    pub refill_nanos: u64,
    /// High-water mark of the bucket table.
    pub max_tracked_cids: usize,
}

/// Time from `then` to `now`, zero when `then` is later.
pub open spec fn elapsed(now: u64, then: u64) -> int {
    if now >= then {
        now - then
    } else {
        0
    }
}

/// Age from which a bucket counts as stale.
pub open spec fn stale_age(refill_nanos: u64) -> int {
    refill_nanos * STALE_BUCKET_AGE_MULTIPLIER
}

/// Whether a bucket is still fresh at `now`.
pub open spec fn is_fresh(b: Bucket, now: u64, refill_nanos: u64) -> bool {
    elapsed(now, b.last_refill) < stale_age(refill_nanos)
}

/// The table with its stale buckets dropped.
pub open spec fn swept(m: Map<u64, Bucket>, now: u64, refill_nanos: u64) -> Map<u64, Bucket> {
    Map::new(|k: u64| m.contains_key(k) && is_fresh(m[k], now, refill_nanos), |k: u64| m[k])
}

/// The table as it stands just before `cid`'s bucket is looked up: swept when
/// `cid` is new and the table is at its high-water mark.
pub open spec fn before_lookup(m: Map<u64, Bucket>, cfg: LimiterConfig, cid: u64, now: u64) -> Map<
    u64,
    Bucket,
> {
    if !m.contains_key(cid) && m.len() >= cfg.max_tracked_cids {
        swept(m, now, cfg.refill_nanos)
    } else {
        m
    }
}

/// `cid`'s bucket at `now`, created full when missing and topped up when its
/// window has elapsed.
pub open spec fn current_bucket(m: Map<u64, Bucket>, cfg: LimiterConfig, cid: u64, now: u64) -> Bucket {
    let b = if m.contains_key(cid) {
        m[cid]
    } else {
        Bucket { tokens: cfg.max_tokens, last_refill: now }
    };
    if elapsed(now, b.last_refill) >= cfg.refill_nanos {
        Bucket { tokens: cfg.max_tokens, last_refill: now }
    } else {
        b
    }
}

/// One request from `cid` at `now`: the new table and whether the request
/// is allowed.
pub open spec fn consume_model(m: Map<u64, Bucket>, cfg: LimiterConfig, cid: u64, now: u64) -> (
    Map<u64, Bucket>,
    bool,
) {
    let table = before_lookup(m, cfg, cid, now);
    let b = current_bucket(m, cfg, cid, now);
    if b.tokens == 0 {
        (table.insert(cid, b), false)
    } else {
        (table.insert(cid, Bucket { tokens: (b.tokens - 1) as u32, last_refill: b.last_refill }), true)
    }
}

/// No bucket holds more than the budget.
pub open spec fn within_budget(m: Map<u64, Bucket>, max_tokens: u32) -> bool {
    forall|k: u64| #[trigger] m.contains_key(k) ==> m[k].tokens <= max_tokens
}

/// How many of `n` back-to-back requests from `cid` at `now` are allowed.
pub open spec fn allowed_count(m: Map<u64, Bucket>, cfg: LimiterConfig, cid: u64, now: u64, n: nat) -> nat
    decreases n,
{
    if n == 0 {
        0
    } else {
        let step = consume_model(m, cfg, cid, now);
        (if step.1 {
            1nat
        } else {
            0nat
        }) + allowed_count(step.0, cfg, cid, now, (n - 1) as nat)
    }
}

/// Back-to-back requests from one CID at one instant are allowed exactly
/// as long as its bucket, as it stands at that instant, has tokens: `n` of
/// them get `min(n, tokens)` through. (With a zero-length window every
/// request refills the bucket, so the law asks for a positive window.)
pub proof fn law_one_instant_spends_the_bucket(
    m: Map<u64, Bucket>,
    cfg: LimiterConfig,
    cid: u64,
    now: u64,
    n: nat,
)
    requires
        cfg.refill_nanos > 0,
    ensures
        allowed_count(m, cfg, cid, now, n) == (if n <= current_bucket(m, cfg, cid, now).tokens {
            n
        } else {
            current_bucket(m, cfg, cid, now).tokens as nat
        }),
    decreases n,
{
    if n > 0 {
        let b = current_bucket(m, cfg, cid, now);
        let step = consume_model(m, cfg, cid, now);
        law_one_instant_spends_the_bucket(step.0, cfg, cid, now, (n - 1) as nat);
        let b2 = current_bucket(step.0, cfg, cid, now);
        assert(step.0.contains_key(cid));
        if b.tokens == 0 {
            assert(b2 == b);
        } else {
            assert(b2 == Bucket { tokens: (b.tokens - 1) as u32, last_refill: b.last_refill });
        }
    }
}

/// No CID gets more than the budget through at one instant, however many
/// connections it opens, as long as no bucket holds more than the budget.
pub proof fn law_budget_bounds_one_instant(
    m: Map<u64, Bucket>,
    cfg: LimiterConfig,
    cid: u64,
    now: u64,
    n: nat,
)
    requires
        cfg.refill_nanos > 0,
        within_budget(m, cfg.max_tokens),
    ensures
        allowed_count(m, cfg, cid, now, n) <= cfg.max_tokens,
{
    law_one_instant_spends_the_bucket(m, cfg, cid, now, n);
    if m.contains_key(cid) {
        assert(m[cid].tokens <= cfg.max_tokens);
    }
}

/// A CID without a bucket (never seen, or reaped) starts with the full
/// budget: of `n` requests at one instant, `min(n, max_tokens)` pass.
pub proof fn law_new_cid_gets_full_budget(
    m: Map<u64, Bucket>,
    cfg: LimiterConfig,
    cid: u64,
    now: u64,
    n: nat,
)
    requires
        cfg.refill_nanos > 0,
        !m.contains_key(cid),
    ensures
        allowed_count(m, cfg, cid, now, n) == (if n <= cfg.max_tokens {
            n
        } else {
            cfg.max_tokens as nat
        }),
{
    law_one_instant_spends_the_bucket(m, cfg, cid, now, n);
}

/// A bucket that is stale at `t` is, at `t` and at every later instant,
/// indistinguishable from no bucket at all: the request gets the same answer
/// and leaves the CID with the same bucket.
pub proof fn law_stale_bucket_acts_as_missing(
    m: Map<u64, Bucket>,
    cfg: LimiterConfig,
    cid: u64,
    t: u64,
    later: u64,
)
    requires
        m.contains_key(cid),
        !is_fresh(m[cid], t, cfg.refill_nanos),
        t <= later,
    ensures
        current_bucket(m, cfg, cid, later) == current_bucket(m.remove(cid), cfg, cid, later),
        consume_model(m, cfg, cid, later).1 == consume_model(m.remove(cid), cfg, cid, later).1,
        consume_model(m, cfg, cid, later).0[cid] == consume_model(m.remove(cid), cfg, cid, later).0[cid],
{
    assert(elapsed(later, m[cid].last_refill) >= elapsed(t, m[cid].last_refill));
    assert(stale_age(cfg.refill_nanos) >= cfg.refill_nanos);
}

/// Dropping stale buckets at `t` changes no decision at `t` or later, for
/// any CID: the answer and the CID's resulting bucket are the same with the
/// swept table as with the full one.
pub proof fn law_sweep_changes_no_decision(
    m: Map<u64, Bucket>,
    cfg: LimiterConfig,
    cid: u64,
    t: u64,
    later: u64,
)
    requires
        t <= later,
    ensures
        consume_model(swept(m, t, cfg.refill_nanos), cfg, cid, later).1 == consume_model(m, cfg, cid, later).1,
        consume_model(swept(m, t, cfg.refill_nanos), cfg, cid, later).0[cid] == consume_model(
            m,
            cfg,
            cid,
            later,
        ).0[cid],
{
    let s = swept(m, t, cfg.refill_nanos);
    if m.contains_key(cid) && !is_fresh(m[cid], t, cfg.refill_nanos) {
        law_stale_bucket_acts_as_missing(m, cfg, cid, t, later);
        assert(!s.contains_key(cid));
        assert(current_bucket(s, cfg, cid, later) == current_bucket(m.remove(cid), cfg, cid, later));
    } else if m.contains_key(cid) {
        assert(s.contains_key(cid) && s[cid] == m[cid]);
    } else {
        assert(!s.contains_key(cid));
    }
}

/// A request from one CID never changes the answer another CID gets at the
/// same instant or later.
pub proof fn law_cids_are_independent(
    m: Map<u64, Bucket>,
    cfg: LimiterConfig,
    a: u64,
    b: u64,
    now: u64,
    later: u64,
)
    requires
        a != b,
        now <= later,
    ensures
        consume_model(consume_model(m, cfg, a, now).0, cfg, b, later).1 == consume_model(m, cfg, b, later).1,
{
    let m1 = consume_model(m, cfg, a, now).0;
    let pre = before_lookup(m, cfg, a, now);
    if pre == m {
        assert(m1.contains_key(b) == m.contains_key(b));
        if m.contains_key(b) {
            assert(m1[b] == m[b]);
        }
        assert(current_bucket(m1, cfg, b, later) == current_bucket(m, cfg, b, later));
    } else {
        law_sweep_changes_no_decision(m, cfg, b, now, later);
        let s = swept(m, now, cfg.refill_nanos);
        assert(m1.contains_key(b) == s.contains_key(b));
        if s.contains_key(b) {
            assert(m1[b] == s[b]);
        }
        assert(current_bucket(m1, cfg, b, later) == current_bucket(s, cfg, b, later));
    }
}

/// How many of the requests from `cid` at the times `ts`, made in order,
/// are allowed.
pub open spec fn run_allowed(m: Map<u64, Bucket>, cfg: LimiterConfig, cid: u64, ts: Seq<u64>) -> nat
    decreases ts.len(),
{
    if ts.len() == 0 {
        0
    } else {
        let step = consume_model(m, cfg, cid, ts[0]);
        (if step.1 {
            1nat
        } else {
            0nat
        }) + run_allowed(step.0, cfg, cid, ts.drop_first())
    }
}

/// Requests from `cid` whose times all fall inside the window of the
/// bucket `cid` has when the first of them comes get no more through than
/// that bucket's tokens.
proof fn lemma_window_spends_at_most_the_bucket(m: Map<u64, Bucket>, cfg: LimiterConfig, cid: u64, ts: Seq<u64>)
    requires
        ts.len() > 0,
        forall|i: int|
            0 <= i < ts.len() ==> elapsed(#[trigger] ts[i], current_bucket(m, cfg, cid, ts[0]).last_refill)
                < cfg.refill_nanos,
    ensures
        run_allowed(m, cfg, cid, ts) <= current_bucket(m, cfg, cid, ts[0]).tokens,
    decreases ts.len(),
{
    let b = current_bucket(m, cfg, cid, ts[0]);
    let step = consume_model(m, cfg, cid, ts[0]);
    let rest = ts.drop_first();
    assert(step.0.contains_key(cid));
    assert(run_allowed(m, cfg, cid, ts) == (if step.1 {
        1nat
    } else {
        0nat
    }) + run_allowed(step.0, cfg, cid, rest));
    assert(step.1 <==> b.tokens > 0);
    if rest.len() == 0 {
        assert(run_allowed(step.0, cfg, cid, rest) == 0);
    } else {
        let b2 = current_bucket(step.0, cfg, cid, rest[0]);
        assert(rest[0] == ts[1]);
        assert(elapsed(ts[1], b.last_refill) < cfg.refill_nanos);
        if b.tokens == 0 {
            assert(step.0[cid] == b);
            assert(b2 == b);
        } else {
            assert(step.0[cid] == Bucket { tokens: (b.tokens - 1) as u32, last_refill: b.last_refill });
            assert(b2 == step.0[cid]);
        }
        assert forall|i: int| 0 <= i < rest.len() implies elapsed(#[trigger] rest[i], b2.last_refill)
            < cfg.refill_nanos by {
            assert(rest[i] == ts[i + 1]);
        }
        lemma_window_spends_at_most_the_bucket(step.0, cfg, cid, rest);
    }
}

/// Within one refill window no CID gets more than the budget through, over
/// any run of its requests: when every request of the run comes before the
/// window of the bucket the CID has at the first request has elapsed, at
/// most `max_tokens` of them are allowed, as long as no bucket holds more
/// than the budget.
pub proof fn law_budget_bounds_one_window(m: Map<u64, Bucket>, cfg: LimiterConfig, cid: u64, ts: Seq<u64>)
    requires
        ts.len() > 0,
        within_budget(m, cfg.max_tokens),
        forall|i: int|
            0 <= i < ts.len() ==> elapsed(#[trigger] ts[i], current_bucket(m, cfg, cid, ts[0]).last_refill)
                < cfg.refill_nanos,
    ensures
        run_allowed(m, cfg, cid, ts) <= cfg.max_tokens,
{
    lemma_window_spends_at_most_the_bucket(m, cfg, cid, ts);
    if m.contains_key(cid) {
        assert(m[cid].tokens <= cfg.max_tokens);
    }
}

/// The answers to the requests `reqs`, each a CID and a time, made in order.
pub open spec fn run_answers(m: Map<u64, Bucket>, cfg: LimiterConfig, reqs: Seq<(u64, u64)>) -> Seq<bool>
    decreases reqs.len(),
{
    if reqs.len() == 0 {
        Seq::empty()
    } else {
        let step = consume_model(m, cfg, reqs[0].0, reqs[0].1);
        seq![step.1] + run_answers(step.0, cfg, reqs.drop_first())
    }
}

/// Two tables agree at time `t`: each CID has the same bucket in both, or
/// has no bucket that is fresh at `t` in either.
pub open spec fn agree_at(a: Map<u64, Bucket>, b: Map<u64, Bucket>, t: u64, refill_nanos: u64) -> bool {
    forall|k: u64|
        #![trigger a.contains_key(k)]
        #![trigger b.contains_key(k)]
        (a.contains_key(k) && b.contains_key(k) && a[k] == b[k]) || ((!a.contains_key(k) || !is_fresh(
            a[k],
            t,
            refill_nanos,
        )) && (!b.contains_key(k) || !is_fresh(b[k], t, refill_nanos)))
}

/// A bucket that is stale at `t` is stale later.
proof fn lemma_stale_stays_stale(b: Bucket, t: u64, later: u64, refill_nanos: u64)
    requires
        !is_fresh(b, t, refill_nanos),
        t <= later,
    ensures
        !is_fresh(b, later, refill_nanos),
{
}

/// Two settings that differ at most in the high-water mark of the table.
pub open spec fn same_budget(a: LimiterConfig, b: LimiterConfig) -> bool {
    a.max_tokens == b.max_tokens && a.refill_nanos == b.refill_nanos
}

/// Tables that agree at `t`, run under settings with the same budget, give
/// the same answer to a request at `now`, not before `t`, and agree at
/// `now` afterwards.
proof fn lemma_agreeing_tables_step(
    a: Map<u64, Bucket>,
    b: Map<u64, Bucket>,
    cfg_a: LimiterConfig,
    cfg_b: LimiterConfig,
    cid: u64,
    t: u64,
    now: u64,
)
    requires
        same_budget(cfg_a, cfg_b),
        agree_at(a, b, t, cfg_a.refill_nanos),
        t <= now,
    ensures
        consume_model(a, cfg_a, cid, now).1 == consume_model(b, cfg_b, cid, now).1,
        agree_at(consume_model(a, cfg_a, cid, now).0, consume_model(b, cfg_b, cid, now).0, now, cfg_a.refill_nanos),
{
    let ca = current_bucket(a, cfg_a, cid, now);
    let cb = current_bucket(b, cfg_b, cid, now);
    if a.contains_key(cid) && b.contains_key(cid) && a[cid] == b[cid] {
        assert(ca == cb);
    } else {
        if a.contains_key(cid) {
            lemma_stale_stays_stale(a[cid], t, now, cfg_a.refill_nanos);
            law_stale_bucket_acts_as_missing(a, cfg_a, cid, now, now);
        }
        if b.contains_key(cid) {
            lemma_stale_stays_stale(b[cid], t, now, cfg_b.refill_nanos);
            law_stale_bucket_acts_as_missing(b, cfg_b, cid, now, now);
        }
        assert(current_bucket(a.remove(cid), cfg_a, cid, now) == current_bucket(b.remove(cid), cfg_b, cid, now));
        assert(ca == cb);
    }
    let na = consume_model(a, cfg_a, cid, now).0;
    let nb = consume_model(b, cfg_b, cid, now).0;
    let pa = before_lookup(a, cfg_a, cid, now);
    let pb = before_lookup(b, cfg_b, cid, now);
    assert forall|k: u64|
        #![trigger na.contains_key(k)]
        #![trigger nb.contains_key(k)]
        (na.contains_key(k) && nb.contains_key(k) && na[k] == nb[k]) || ((!na.contains_key(k) || !is_fresh(
            na[k],
            now,
            cfg_a.refill_nanos,
        )) && (!nb.contains_key(k) || !is_fresh(nb[k], now, cfg_a.refill_nanos))) by {
        if k != cid {
            assert(a.contains_key(k) || !a.contains_key(k));
            assert(b.contains_key(k) || !b.contains_key(k));
            if a.contains_key(k) && !is_fresh(a[k], t, cfg_a.refill_nanos) {
                lemma_stale_stays_stale(a[k], t, now, cfg_a.refill_nanos);
            }
            if b.contains_key(k) && !is_fresh(b[k], t, cfg_a.refill_nanos) {
                lemma_stale_stays_stale(b[k], t, now, cfg_a.refill_nanos);
            }
            assert(na.contains_key(k) == pa.contains_key(k));
            assert(nb.contains_key(k) == pb.contains_key(k));
            if pa.contains_key(k) {
                assert(na[k] == pa[k] && pa[k] == a[k]);
            }
            if pb.contains_key(k) {
                assert(nb[k] == pb[k] && pb[k] == b[k]);
            }
        }
    }
}

/// Answers and agreement carry over a whole run of requests made at
/// non-decreasing times, none before `t`, under settings with the same
/// budget.
proof fn lemma_agreeing_tables_run(
    a: Map<u64, Bucket>,
    b: Map<u64, Bucket>,
    cfg_a: LimiterConfig,
    cfg_b: LimiterConfig,
    reqs: Seq<(u64, u64)>,
    t: u64,
)
    requires
        same_budget(cfg_a, cfg_b),
        agree_at(a, b, t, cfg_a.refill_nanos),
        forall|i: int| 0 <= i < reqs.len() ==> t <= (#[trigger] reqs[i]).1,
        forall|i: int, j: int| 0 <= i <= j < reqs.len() ==> (#[trigger] reqs[i]).1 <= (#[trigger] reqs[j]).1,
    ensures
        run_answers(a, cfg_a, reqs) == run_answers(b, cfg_b, reqs),
    decreases reqs.len(),
{
    if reqs.len() > 0 {
        let (cid, now) = reqs[0];
        lemma_agreeing_tables_step(a, b, cfg_a, cfg_b, cid, t, now);
        let rest = reqs.drop_first();
        assert forall|i: int| 0 <= i < rest.len() implies now <= (#[trigger] rest[i]).1 by {
            assert(rest[i] == reqs[i + 1]);
        }
        assert forall|i: int, j: int| 0 <= i <= j < rest.len() implies (#[trigger] rest[i]).1 <= (#[trigger] rest[j]).1 by {
            assert(rest[i] == reqs[i + 1]);
            assert(rest[j] == reqs[j + 1]);
        }
        lemma_agreeing_tables_run(
            consume_model(a, cfg_a, cid, now).0,
            consume_model(b, cfg_b, cid, now).0,
            cfg_a,
            cfg_b,
            rest,
            now,
        );
    }
}

/// Reaping the stale buckets at `t` changes no answer the limiter gives to
/// any run of requests, from any CIDs, made afterwards at non-decreasing
/// times.
pub proof fn law_reaping_changes_no_answer(m: Map<u64, Bucket>, cfg: LimiterConfig, t: u64, reqs: Seq<(u64, u64)>)
    requires
        forall|i: int| 0 <= i < reqs.len() ==> t <= (#[trigger] reqs[i]).1,
        forall|i: int, j: int| 0 <= i <= j < reqs.len() ==> (#[trigger] reqs[i]).1 <= (#[trigger] reqs[j]).1,
    ensures
        run_answers(swept(m, t, cfg.refill_nanos), cfg, reqs) == run_answers(m, cfg, reqs),
{
    let s = swept(m, t, cfg.refill_nanos);
    assert forall|k: u64|
        #![trigger s.contains_key(k)]
        #![trigger m.contains_key(k)]
        (s.contains_key(k) && m.contains_key(k) && s[k] == m[k]) || ((!s.contains_key(k) || !is_fresh(
            s[k],
            t,
            cfg.refill_nanos,
        )) && (!m.contains_key(k) || !is_fresh(m[k], t, cfg.refill_nanos))) by {}
    lemma_agreeing_tables_run(s, m, cfg, cfg, reqs, t);
}

/// The high-water mark of the bucket table changes no answer: two limiters
/// with the same budget and window, whatever their high-water marks, that
/// start from the same table answer any run of requests, from any CIDs,
/// made at non-decreasing times, alike.
pub proof fn law_capacity_changes_no_answer(
    m: Map<u64, Bucket>,
    cfg_a: LimiterConfig,
    cfg_b: LimiterConfig,
    reqs: Seq<(u64, u64)>,
)
    requires
        same_budget(cfg_a, cfg_b),
        forall|i: int, j: int| 0 <= i <= j < reqs.len() ==> (#[trigger] reqs[i]).1 <= (#[trigger] reqs[j]).1,
    ensures
        run_answers(m, cfg_a, reqs) == run_answers(m, cfg_b, reqs),
{
    if reqs.len() > 0 {
        let t = reqs[0].1;
        assert forall|i: int| 0 <= i < reqs.len() implies t <= (#[trigger] reqs[i]).1 by {
            assert(reqs[0].1 <= reqs[i].1);
        }
        assert forall|k: u64|
            #![trigger m.contains_key(k)]
            (m.contains_key(k) && m.contains_key(k) && m[k] == m[k]) || ((!m.contains_key(k) || !is_fresh(
                m[k],
                t,
                cfg_a.refill_nanos,
            )) && (!m.contains_key(k) || !is_fresh(m[k], t, cfg_a.refill_nanos))) by {}
        lemma_agreeing_tables_run(m, m, cfg_a, cfg_b, reqs, t);
    }
}

/// Within one refill window a CID's requests are allowed exactly while its
/// bucket lasts: when every request of a run from `cid` comes before the
/// window of the bucket `cid` has at the first request has elapsed, the
/// first `k` of them are allowed and every later one refused, `k` being
/// that bucket's tokens (the full budget for a CID without a bucket).
pub proof fn law_first_requests_of_a_window_pass(
    m: Map<u64, Bucket>,
    cfg: LimiterConfig,
    cid: u64,
    reqs: Seq<(u64, u64)>,
)
    requires
        reqs.len() > 0,
        forall|i: int| 0 <= i < reqs.len() ==> (#[trigger] reqs[i]).0 == cid,
        forall|i: int|
            0 <= i < reqs.len() ==> elapsed((#[trigger] reqs[i]).1, current_bucket(m, cfg, cid, reqs[0].1).last_refill)
                < cfg.refill_nanos,
    ensures
        run_answers(m, cfg, reqs).len() == reqs.len(),
        forall|i: int|
            0 <= i < reqs.len() ==> #[trigger] run_answers(m, cfg, reqs)[i] == (i < current_bucket(
                m,
                cfg,
                cid,
                reqs[0].1,
            ).tokens),
    decreases reqs.len(),
{
    let b = current_bucket(m, cfg, cid, reqs[0].1);
    let step = consume_model(m, cfg, cid, reqs[0].1);
    let rest = reqs.drop_first();
    assert(step.0.contains_key(cid));
    assert(step.1 <==> b.tokens > 0);
    let ans = run_answers(m, cfg, reqs);
    assert(ans == seq![step.1] + run_answers(step.0, cfg, rest));
    if rest.len() == 0 {
        assert(run_answers(step.0, cfg, rest) == Seq::<bool>::empty());
        assert(ans[0] == step.1);
    } else {
        let b2 = current_bucket(step.0, cfg, cid, rest[0].1);
        assert(rest[0] == reqs[1]);
        assert(elapsed(reqs[1].1, b.last_refill) < cfg.refill_nanos);
        if b.tokens == 0 {
            assert(step.0[cid] == b);
            assert(b2 == b);
        } else {
            assert(step.0[cid] == Bucket { tokens: (b.tokens - 1) as u32, last_refill: b.last_refill });
            assert(b2 == step.0[cid]);
        }
        assert forall|i: int| 0 <= i < rest.len() implies (#[trigger] rest[i]).0 == cid by {
            assert(rest[i] == reqs[i + 1]);
        }
        assert forall|i: int| 0 <= i < rest.len() implies elapsed((#[trigger] rest[i]).1, b2.last_refill)
            < cfg.refill_nanos by {
            assert(rest[i] == reqs[i + 1]);
        }
        law_first_requests_of_a_window_pass(step.0, cfg, cid, rest);
        let tail = run_answers(step.0, cfg, rest);
        assert forall|i: int| 0 <= i < reqs.len() implies #[trigger] ans[i] == (i < b.tokens) by {
            if i > 0 {
                assert(ans[i] == tail[i - 1]);
                assert(tail[i - 1] == (i - 1 < b2.tokens));
            }
        }
    }
}

/// Per-CID token-bucket rate limiter.
pub struct RateLimiter {
    config: LimiterConfig,
    buckets: HashMap<u64, Bucket>,
}

/// Time from `then` to `now`, zero when `then` is later.
fn elapsed_nanos(now: u64, then: u64) -> (r: u64)
    ensures
        r == elapsed(now, then),
{
    if now >= then {
        now - then
    } else {
        0
    }
}

impl RateLimiter {
    /// The limiter's settings.
    pub closed spec fn config(&self) -> LimiterConfig {
        self.config
    }

    /// The bucket table, by CID.
    pub closed spec fn table(&self) -> Map<u64, Bucket> {
        self.buckets@
    }

    /// Well-formed: no bucket holds more than the budget.
    pub open spec fn wf(&self) -> bool {
        within_budget(self.table(), self.config().max_tokens)
    }

    /// A limiter with the default high-water mark.
    pub fn new(max_tokens: u32, refill_nanos: u64) -> (l: RateLimiter)
        ensures
            l.config() == (LimiterConfig {
                max_tokens,
                refill_nanos,
                max_tracked_cids: DEFAULT_MAX_TRACKED_CIDS,
            }),
            l.table() == Map::<u64, Bucket>::empty(),
            l.wf(),
    {
        Self::with_capacity(max_tokens, refill_nanos, DEFAULT_MAX_TRACKED_CIDS)
    }

    /// A limiter with a chosen high-water mark for its bucket table.
    pub fn with_capacity(max_tokens: u32, refill_nanos: u64, max_tracked_cids: usize) -> (l: RateLimiter)
        ensures
            l.config() == (LimiterConfig { max_tokens, refill_nanos, max_tracked_cids }),
            l.table() == Map::<u64, Bucket>::empty(),
            l.wf(),
    {
        RateLimiter {
            config: LimiterConfig { max_tokens, refill_nanos, max_tracked_cids },
            buckets: HashMap::new(),
        }
    }

    /// Drop every bucket that is stale at `now`.
    pub fn sweep_stale(&mut self, now: u64)
        ensures
            final(self).config() == old(self).config(),
            final(self).table() == swept(old(self).table(), now, old(self).config().refill_nanos),
            old(self).wf() ==> final(self).wf(),
    {
        let ghost m = self.buckets@;
        let r: u128 = self.config.refill_nanos as u128;
        assert(r * 60 <= u128::MAX) by (nonlinear_arith)
            requires
                r <= u64::MAX,
        ;
        let threshold: u128 = r * STALE_BUCKET_AGE_MULTIPLIER as u128;
        let mut stale: Vec<u64> = Vec::new();
        let ghost all = vstd::std_specs::hash::spec_hash_map_iter(&self.buckets).remaining();
        let ghost mut seen: int = 0;
        for entry in it: self.buckets.iter()
            invariant
                self.buckets@ == m,
                it.seq() == all,
                seen == it.index(),
                threshold == stale_age(self.config.refill_nanos),
                forall|j: int|
                    0 <= j < stale@.len() ==> m.contains_key(#[trigger] stale@[j]) && !is_fresh(
                        m[stale@[j]],
                        now,
                        self.config.refill_nanos,
                    ),
                forall|j: int|
                    0 <= j < seen ==> (!is_fresh(
                        m[*(#[trigger] all[j]).0],
                        now,
                        self.config.refill_nanos,
                    ) ==> stale@.contains(*all[j].0)),
        {
            assert(entry == all[seen]);
            assert(self.buckets@[*all[seen].0] == *all[seen].1);
            let (k, b) = entry;
            let age = elapsed_nanos(now, b.last_refill);
            let ghost before = stale@;
            if age as u128 >= threshold {
                stale.push(*k);
            }
            proof {
                assert forall|j: int|
                    0 <= j < seen + 1 && !is_fresh(m[*(#[trigger] all[j]).0], now, self.config.refill_nanos)
                    implies stale@.contains(*all[j].0) by {
                    if j < seen {
                        let x = choose|x: int| 0 <= x < before.len() && before[x] == *all[j].0;
                        assert(stale@[x] == before[x]);
                    } else {
                        assert(stale@[stale@.len() - 1] == *k);
                    }
                }
                seen = seen + 1;
            }
        }
        proof {
            assert forall|k: u64| #[trigger] m.contains_key(k) && !is_fresh(m[k], now, self.config.refill_nanos)
                implies stale@.contains(k) by {
                assert(all.contains((&k, &m[k])));
                let j = choose|j: int| 0 <= j < all.len() && all[j] == (&k, &m[k]);
                assert(*all[j].0 == k);
            }
        }
        let mut i: usize = 0;
        while i < stale.len()
            invariant
                0 <= i <= stale@.len(),
                self.config == old(self).config,
                m == old(self).buckets@,
                forall|k: u64|
                    #[trigger] self.buckets@.contains_key(k) <==> (m.contains_key(k) && !(exists|j: int|
                        0 <= j < i && #[trigger] stale@[j] == k)),
                forall|k: u64| #[trigger] self.buckets@.contains_key(k) ==> self.buckets@[k] == m[k],
                forall|j: int|
                    0 <= j < stale@.len() ==> m.contains_key(#[trigger] stale@[j]) && !is_fresh(
                        m[stale@[j]],
                        now,
                        self.config.refill_nanos,
                    ),
                forall|k: u64|
                    #[trigger] m.contains_key(k) && !is_fresh(m[k], now, self.config.refill_nanos) ==> stale@.contains(k),
            decreases stale@.len() - i,
        {
            let key = stale[i];
            self.buckets.remove(&key);
            i = i + 1;
        }
        proof {
            assert forall|k: u64| #[trigger] self.buckets@.contains_key(k) <==> swept(
                m,
                now,
                self.config.refill_nanos,
            ).contains_key(k) by {
                if m.contains_key(k) && !is_fresh(m[k], now, self.config.refill_nanos) {
                    let j = choose|j: int| 0 <= j < stale@.len() && stale@[j] == k;
                    assert(stale@[j] == k);
                }
            }
            assert(self.buckets@ =~= swept(m, now, self.config.refill_nanos));
        }
    }

    /// Take one token from `cid`'s bucket at `now`. Returns whether a token
    /// was available; the request should be refused when it was not.
    pub fn try_consume(&mut self, cid: u64, now: u64) -> (allowed: bool)
        ensures
            final(self).config() == old(self).config(),
            (final(self).table(), allowed) == consume_model(old(self).table(), old(self).config(), cid, now),
            old(self).wf() ==> final(self).wf(),
    {
        let max = self.config.max_tokens;
        if !self.buckets.contains_key(&cid) && self.buckets.len() >= self.config.max_tracked_cids {
            self.sweep_stale(now);
        }
        let mut bucket = match self.buckets.get(&cid) {
            Some(b) => *b,
            None => Bucket::new(now, max),
        };
        if elapsed_nanos(now, bucket.last_refill) >= self.config.refill_nanos {
            bucket = Bucket::new(now, max);
        }
        if bucket.tokens == 0 {
            self.buckets.insert(cid, bucket);
            return false;
        }
        bucket.tokens = bucket.tokens - 1;
        self.buckets.insert(cid, bucket);
        true
    }

    /// `cid`'s bucket, if one is held.
    pub fn bucket(&self, cid: u64) -> (r: Option<Bucket>)
        ensures
            r == (if self.table().contains_key(cid) {
                Some(self.table()[cid])
            } else {
                None
            }),
    {
        match self.buckets.get(&cid) {
            Some(b) => Some(*b),
            None => None,
        }
    }

    /// Put `bucket` in place as `cid`'s bucket.
    pub fn set_bucket(&mut self, cid: u64, bucket: Bucket)
        ensures
            final(self).config() == old(self).config(),
            final(self).table() == old(self).table().insert(cid, bucket),
            (old(self).wf() && bucket.tokens <= old(self).config().max_tokens) ==> final(self).wf(),
    {
        self.buckets.insert(cid, bucket);
    }

    /// Drop `cid`'s bucket; its next request is treated as a new CID's.
    pub fn forget(&mut self, cid: u64)
        ensures
            final(self).config() == old(self).config(),
            final(self).table() == old(self).table().remove(cid),
            old(self).wf() ==> final(self).wf(),
    {
        self.buckets.remove(&cid);
    }

    /// Number of CIDs whose bucket is held.
    pub fn tracked_cids(&self) -> (n: usize)
        ensures
            n == self.table().len(),
    {
        self.buckets.len()
    }
}

} // verus!
