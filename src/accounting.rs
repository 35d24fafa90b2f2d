use vstd::prelude::*;
use vstd::arithmetic::div_mod::{lemma_fundamental_div_mod, lemma_mod_pos_bound};

use crate::Verdict;
use crate::bucket::{RateLimit, NS_PER_SEC, SCALE, UNLIMITED, refill_amount};

verus! {

/// State of an entry after the frames `s`, each `(time_ns, len)`, were offered in order.
pub open spec fn run_state(e: RateLimit, s: Seq<(u64, u64)>) -> RateLimit
    decreases s.len(),
{
    if s.len() == 0 {
        e
    } else {
        run_state(e, s.drop_last()).offer_spec(s.last().0, s.last().1).0
    }
}

/// Bytes accepted while the frames `s` were offered in order.
pub open spec fn accepted_bytes(e: RateLimit, s: Seq<(u64, u64)>) -> int
    decreases s.len(),
{
    if s.len() == 0 {
        0
    } else {
        let v = run_state(e, s.drop_last()).offer_spec(s.last().0, s.last().1).1;
        accepted_bytes(e, s.drop_last()) + if v == Verdict::Accept {
            s.last().1 as int
        } else {
            0
        }
    }
}

/// Bytes offered in the frames `s`.
pub open spec fn offered_bytes(s: Seq<(u64, u64)>) -> int
    decreases s.len(),
{
    if s.len() == 0 {
        0
    } else {
        offered_bytes(s.drop_last()) + s.last().1 as int
    }
}

/// The frames come in time order, none before the entry's latest refill.
pub open spec fn in_time_order(e: RateLimit, s: Seq<(u64, u64)>) -> bool {
    &&& forall|i: int| 0 <= i < s.len() ==> e.last_refill_ns <= #[trigger] s[i].0
    &&& forall|i: int, j: int| 0 <= i <= j < s.len() ==> #[trigger] s[i].0 <= #[trigger] s[j].0
}

/// Over any run, the bucket stays within capacity, the policy is unchanged
/// and the refill timestamp never moves back.
pub proof fn lemma_run_invariants(e: RateLimit, s: Seq<(u64, u64)>)
    requires
        e.wf(),
    ensures
        run_state(e, s).wf(),
        run_state(e, s).bps == e.bps,
        run_state(e, s).burst == e.burst,
        run_state(e, s).last_refill_ns >= e.last_refill_ns,
        accepted_bytes(e, s) >= 0,
    decreases s.len(),
{
    if s.len() > 0 {
        lemma_run_invariants(e, s.drop_last());
        lemma_offer_invariants(run_state(e, s.drop_last()), s.last().0, s.last().1);
    }
}

proof fn lemma_offer_invariants(e: RateLimit, now: u64, len: u64)
    requires
        e.wf(),
    ensures
        e.offer_spec(now, len).0.wf(),
        e.offer_spec(now, len).0.bps == e.bps,
        e.offer_spec(now, len).0.burst == e.burst,
        e.offer_spec(now, len).0.last_refill_ns >= e.last_refill_ns,
{
    let elapsed = e.elapsed_since(now);
    assert(refill_amount(e.bps, elapsed) >= 0) by (nonlinear_arith)
        requires
            elapsed >= 0,
    ;
}

/// A zero rate accepts nothing.
pub proof fn lemma_zero_rate_accepts_nothing(e: RateLimit, s: Seq<(u64, u64)>)
    requires
        e.bps == 0,
    ensures
        accepted_bytes(e, s) == 0,
        run_state(e, s).bps == 0,
    decreases s.len(),
{
    if s.len() > 0 {
        lemma_zero_rate_accepts_nothing(e, s.drop_last());
    }
}

/// The unlimited rate accepts every byte offered and leaves the entry untouched.
pub proof fn lemma_unlimited_accepts_all(e: RateLimit, s: Seq<(u64, u64)>)
    requires
        e.bps == UNLIMITED,
    ensures
        accepted_bytes(e, s) == offered_bytes(s),
        run_state(e, s) == e,
    decreases s.len(),
{
    if s.len() > 0 {
        lemma_unlimited_accepts_all(e, s.drop_last());
    }
}

proof fn lemma_refill_bound(bps: u32, elapsed: int)
    requires
        elapsed >= 0,
    ensures
        NS_PER_SEC as int * refill_amount(bps, elapsed) <= bps as int * elapsed * SCALE as int,
{
    let x = bps as int * elapsed * SCALE as int;
    assert(x >= 0) by (nonlinear_arith)
        requires
            x == bps as int * elapsed * SCALE as int,
            bps as int >= 0,
            elapsed >= 0,
    ;
    lemma_fundamental_div_mod(x, NS_PER_SEC as int);
    lemma_mod_pos_bound(x, NS_PER_SEC as int);
}

/// For a finite positive rate, the scaled tokens accepted plus those left
/// never exceed a full bucket plus what the rate earns between the first
/// and the latest frame.
proof fn lemma_budget(e: RateLimit, s: Seq<(u64, u64)>)
    requires
        e.wf(),
        0 < e.bps < UNLIMITED,
        s.len() >= 1,
        in_time_order(e, s),
    ensures
        run_state(e, s).last_refill_ns == s.last().0,
        NS_PER_SEC as int * (accepted_bytes(e, s) * SCALE as int + run_state(e, s).tokens as int)
            <= NS_PER_SEC as int * e.capacity() + e.bps as int * SCALE as int * (s.last().0
            - s[0].0),
    decreases s.len(),
{
    let p = s.drop_last();
    let t = s.last().0;
    let ns = NS_PER_SEC as int;
    let sc = SCALE as int;
    let bps = e.bps as int;
    if s.len() == 1 {
        assert(p.len() == 0);
        let r = e.refilled(t);
        assert(r.tokens <= e.capacity());
        assert(ns * (accepted_bytes(e, s) * sc + run_state(e, s).tokens as int) <= ns
            * e.capacity()) by (nonlinear_arith)
            requires
                accepted_bytes(e, s) * sc + run_state(e, s).tokens as int <= e.capacity(),
                ns > 0,
        ;
        assert(bps * sc * (s.last().0 - s[0].0) == 0);
    } else {
        assert(in_time_order(e, p));
        lemma_budget(e, p);
        lemma_run_invariants(e, p);
        let prev = run_state(e, p);
        let a1 = accepted_bytes(e, p);
        let t1 = prev.tokens as int;
        let last = prev.last_refill_ns as int;
        assert(p.last() == s[s.len() - 2]);
        assert(p[0] == s[0]);
        assert(last <= t);
        let elapsed = t - last;
        let r = prev.refilled(t);
        lemma_refill_bound(prev.bps, elapsed);
        assert(r.tokens as int <= t1 + refill_amount(prev.bps, elapsed));
        assert(accepted_bytes(e, s) * sc + run_state(e, s).tokens as int == a1 * sc
            + r.tokens as int);
        let d1 = last - s[0].0;
        assert(ns * (a1 * sc + r.tokens as int) <= ns * (a1 * sc + t1) + bps * elapsed * sc)
            by (nonlinear_arith)
            requires
                r.tokens as int <= t1 + refill_amount(prev.bps, elapsed),
                ns * refill_amount(prev.bps, elapsed) <= bps * elapsed * sc,
                ns > 0,
        ;
        assert(bps * sc * d1 + bps * elapsed * sc == bps * sc * (t - s[0].0)) by (nonlinear_arith)
            requires
                d1 + elapsed == t - s[0].0,
        ;
    }
}

/// Over any window of `delta` nanoseconds, the bytes accepted under a rule
/// `{bps, burst}` are at most `burst + bps * delta / 1e9`. `e` is the entry as
/// the window opens; the frames come in time order.
pub proof fn lemma_window_bound(e: RateLimit, s: Seq<(u64, u64)>, t: int, delta: int)
    requires
        e.wf(),
        e.bps != UNLIMITED,
        delta >= 0,
        in_time_order(e, s),
        forall|i: int| 0 <= i < s.len() ==> t <= #[trigger] s[i].0 <= t + delta,
    ensures
        NS_PER_SEC as int * accepted_bytes(e, s) <= NS_PER_SEC as int * e.burst as int + e.bps as int
            * delta,
{
    let ns = NS_PER_SEC as int;
    let sc = SCALE as int;
    let bps = e.bps as int;
    let burst = e.burst as int;
    if e.bps == 0 {
        lemma_zero_rate_accepts_nothing(e, s);
        assert(ns * burst + bps * delta >= 0) by (nonlinear_arith)
            requires
                burst >= 0,
                bps == 0,
                ns > 0,
        ;
    } else if s.len() == 0 {
        assert(ns * burst + bps * delta >= 0) by (nonlinear_arith)
            requires
                burst >= 0,
                bps >= 0,
                delta >= 0,
                ns > 0,
        ;
    } else {
        lemma_budget(e, s);
        lemma_run_invariants(e, s);
        let a = accepted_bytes(e, s);
        let d = s.last().0 - s[0].0;
        assert(0 <= d <= delta);
        let tk = run_state(e, s).tokens as int;
        assert(ns * a <= ns * burst + bps * delta) by (nonlinear_arith)
            requires
                ns * (a * sc + tk) <= ns * (burst * sc) + bps * sc * d,
                tk >= 0,
                sc > 0,
                ns > 0,
                bps >= 0,
                0 <= d <= delta,
        ;
    }
}

} // verus!
