//! Peak balances, global and windowed.
//!
//! For a chronological balance history `h` and a window duration `d`,
//! the statistic is: over every anchor event `i`, take the highest
//! balance among the events `j >= i` whose timestamp lies within
//! `h[i].ts + d`, then take the best anchor, reporting the timestamp of
//! the earliest anchor that attains it. An empty history counts as 0.
//!
//! Two executable strategies compute it: a quadratic rescan per anchor
//! ([`calculate_max_balance_for_period`]) and an amortized-linear
//! monotonic double-ended queue ([`max_balance_for_period_monotonic`]).
//! Both carry the same contract, so they agree on every input.

use vstd::prelude::*;

use crate::model::ComputationError;
use crate::ledger::hist_view;

verus! {

/// Timestamps never decrease along the history.
pub open spec fn hist_sorted(h: Seq<(u64, int)>) -> bool {
    forall|i: int, j: int| 0 <= i < j < h.len() ==> (#[trigger] h[i]).0 <= (#[trigger] h[j]).0
}

/// Highest balance among events `[lo, hi)`; meaningful for `lo < hi`.
pub open spec fn seg_max(h: Seq<(u64, int)>, lo: int, hi: int) -> int
    recommends
        0 <= lo < hi <= h.len(),
    decreases hi - lo,
{
    if hi - lo <= 1 {
        h[lo].1
    } else if h[hi - 1].1 > seg_max(h, lo, hi - 1) {
        h[hi - 1].1
    } else {
        seg_max(h, lo, hi - 1)
    }
}

/// Highest balance of the whole history, 0 when empty.
pub open spec fn hist_max(h: Seq<(u64, int)>) -> int {
    if h.len() == 0 {
        0
    } else {
        seg_max(h, 0, h.len() as int)
    }
}

/// Event `j` lies within the window of length `d` anchored at event `i`.
pub open spec fn in_window(h: Seq<(u64, int)>, d: u64, i: int, j: int) -> bool {
    i <= j < h.len() && h[j].0 <= h[i].0 + d
}

/// Highest balance among the in-window events `j` with `i <= j < hi`;
/// the anchor itself is always in its own window.
pub open spec fn wmax_upto(h: Seq<(u64, int)>, d: u64, i: int, hi: int) -> int
    recommends
        0 <= i < hi <= h.len(),
    decreases hi - i,
{
    if hi - i <= 1 {
        h[i].1
    } else if in_window(h, d, i, hi - 1) && h[hi - 1].1 > wmax_upto(h, d, i, hi - 1) {
        h[hi - 1].1
    } else {
        wmax_upto(h, d, i, hi - 1)
    }
}

/// Highest balance within the window anchored at event `i`.
pub open spec fn wmax(h: Seq<(u64, int)>, d: u64, i: int) -> int {
    wmax_upto(h, d, i, h.len() as int)
}

/// Best windowed maximum over the anchors `[0, hi)`.
pub open spec fn best_upto(h: Seq<(u64, int)>, d: u64, hi: int) -> int
    recommends
        1 <= hi <= h.len(),
    decreases hi,
{
    if hi <= 1 {
        wmax(h, d, 0)
    } else if wmax(h, d, hi - 1) > best_upto(h, d, hi - 1) {
        wmax(h, d, hi - 1)
    } else {
        best_upto(h, d, hi - 1)
    }
}

/// The windowed maximum of the whole history, 0 when empty.
pub open spec fn window_max(h: Seq<(u64, int)>, d: u64) -> int {
    if h.len() == 0 {
        0
    } else {
        best_upto(h, d, h.len() as int)
    }
}

/// Anchor `i` attains the windowed maximum and no earlier anchor does.
pub open spec fn is_first_anchor(h: Seq<(u64, int)>, d: u64, i: int) -> bool {
    &&& 0 <= i < h.len()
    &&& wmax(h, d, i) == window_max(h, d)
    &&& forall|j: int| 0 <= j < i ==> #[trigger] wmax(h, d, j) < window_max(h, d)
}

/// Every event of the segment is bounded by the segment maximum.
pub proof fn lemma_seg_max_bound(h: Seq<(u64, int)>, lo: int, hi: int, j: int)
    requires
        0 <= lo <= j < hi <= h.len(),
    ensures
        h[j].1 <= seg_max(h, lo, hi),
    decreases hi - lo,
{
    if j < hi - 1 {
        lemma_seg_max_bound(h, lo, hi - 1, j);
    }
}

/// The segment maximum is attained by some event of the segment.
pub proof fn lemma_seg_max_witness(h: Seq<(u64, int)>, lo: int, hi: int)
    requires
        0 <= lo < hi <= h.len(),
    ensures
        exists|j: int| lo <= j < hi && h[j].1 == seg_max(h, lo, hi),
    decreases hi - lo,
{
    if hi - lo <= 1 {
        assert(lo <= lo < hi && h[lo].1 == seg_max(h, lo, hi));
    } else if h[hi - 1].1 > seg_max(h, lo, hi - 1) {
        assert(lo <= hi - 1 < hi && h[hi - 1].1 == seg_max(h, lo, hi));
    } else {
        lemma_seg_max_witness(h, lo, hi - 1);
        let j = choose|j: int| lo <= j < hi - 1 && h[j].1 == seg_max(h, lo, hi - 1);
        assert(lo <= j < hi && h[j].1 == seg_max(h, lo, hi));
    }
}

/// `wmax_upto` is attained by some in-window event.
pub proof fn lemma_wmax_upto_witness(h: Seq<(u64, int)>, d: u64, i: int, hi: int)
    requires
        0 <= i < hi <= h.len(),
    ensures
        exists|j: int|
            i <= j < hi && #[trigger] in_window(h, d, i, j) && h[j].1 == wmax_upto(h, d, i, hi),
    decreases hi - i,
{
    if hi - i <= 1 {
        assert(in_window(h, d, i, i));
        assert(i <= i < hi && in_window(h, d, i, i) && h[i].1 == wmax_upto(h, d, i, hi));
    } else if in_window(h, d, i, hi - 1) && h[hi - 1].1 > wmax_upto(h, d, i, hi - 1) {
        assert(i <= hi - 1 < hi && in_window(h, d, i, hi - 1) && h[hi - 1].1 == wmax_upto(
            h,
            d,
            i,
            hi,
        ));
    } else {
        lemma_wmax_upto_witness(h, d, i, hi - 1);
        let j = choose|j: int|
            i <= j < hi - 1 && #[trigger] in_window(h, d, i, j) && h[j].1 == wmax_upto(
                h,
                d,
                i,
                hi - 1,
            );
        assert(i <= j < hi && in_window(h, d, i, j) && h[j].1 == wmax_upto(h, d, i, hi));
    }
}

/// Every anchor below `hi` is bounded by `best_upto`.
pub proof fn lemma_best_upto_bound(h: Seq<(u64, int)>, d: u64, hi: int, j: int)
    requires
        0 < hi <= h.len(),
        0 <= j < hi,
    ensures
        wmax(h, d, j) <= best_upto(h, d, hi),
    decreases hi,
{
    if j < hi - 1 {
        lemma_best_upto_bound(h, d, hi - 1, j);
    }
}

/// `best_upto` is attained by some anchor.
pub proof fn lemma_best_upto_witness(h: Seq<(u64, int)>, d: u64, hi: int)
    requires
        0 < hi <= h.len(),
    ensures
        exists|j: int| 0 <= j < hi && #[trigger] wmax(h, d, j) == best_upto(h, d, hi),
    decreases hi,
{
    if hi <= 1 {
        assert(wmax(h, d, 0) == best_upto(h, d, hi));
    } else if wmax(h, d, hi - 1) > best_upto(h, d, hi - 1) {
        assert(wmax(h, d, hi - 1) == best_upto(h, d, hi));
    } else {
        lemma_best_upto_witness(h, d, hi - 1);
        let j = choose|j: int| 0 <= j < hi - 1 && #[trigger] wmax(h, d, j) == best_upto(h, d, hi - 1);
        assert(wmax(h, d, j) == best_upto(h, d, hi));
    }
}

/// No window can see above the global peak: the windowed maximum never
/// exceeds the maximum over the whole history.
pub proof fn lemma_window_max_le_hist_max(h: Seq<(u64, int)>, d: u64)
    ensures
        window_max(h, d) <= hist_max(h),
{
    if h.len() > 0 {
        let n = h.len() as int;
        lemma_best_upto_witness(h, d, n);
        let a = choose|j: int| 0 <= j < n && #[trigger] wmax(h, d, j) == best_upto(h, d, n);
        lemma_wmax_upto_witness(h, d, a, n);
        let j = choose|j: int|
            a <= j < n && #[trigger] in_window(h, d, a, j) && h[j].1 == wmax_upto(h, d, a, n);
        lemma_seg_max_bound(h, 0, n, j);
    }
}

/// In a sorted history whose in-window events for anchor `i` are exactly
/// `[i, e)`, the windowed maximum at `i` is the segment maximum.
pub proof fn lemma_wmax_contiguous(h: Seq<(u64, int)>, d: u64, i: int, e: int)
    requires
        hist_sorted(h),
        0 <= i < e <= h.len(),
        forall|j: int| i <= j < e ==> #[trigger] in_window(h, d, i, j),
        e < h.len() ==> h[e].0 > h[i].0 + d,
    ensures
        wmax(h, d, i) == seg_max(h, i, e),
{
    lemma_wmax_upto_out(h, d, i, e, h.len() as int);
    lemma_wmax_upto_in(h, d, i, e);
}

/// Above the window boundary nothing changes `wmax_upto`.
proof fn lemma_wmax_upto_out(h: Seq<(u64, int)>, d: u64, i: int, e: int, hi: int)
    requires
        hist_sorted(h),
        0 <= i < e <= hi <= h.len(),
        e < h.len() ==> h[e].0 > h[i].0 + d,
    ensures
        wmax_upto(h, d, i, hi) == wmax_upto(h, d, i, e),
    decreases hi - e,
{
    if hi > e {
        lemma_wmax_upto_out(h, d, i, e, hi - 1);
        assert(h[e].0 <= h[hi - 1].0);
        assert(!in_window(h, d, i, hi - 1));
    }
}

/// Within an all-in-window range, `wmax_upto` is the segment maximum.
proof fn lemma_wmax_upto_in(h: Seq<(u64, int)>, d: u64, i: int, hi: int)
    requires
        0 <= i < hi <= h.len(),
        forall|j: int| i <= j < hi ==> #[trigger] in_window(h, d, i, j),
    ensures
        wmax_upto(h, d, i, hi) == seg_max(h, i, hi),
    decreases hi - i,
{
    if hi - i > 1 {
        lemma_wmax_upto_in(h, d, i, hi - 1);
        assert(in_window(h, d, i, hi - 1));
    }
}

} // verus!

verus! {

/// Windowed maximum by a per-anchor rescan of the remaining history.
///
/// Quadratic in the history length, but the simplest correct strategy;
/// [`max_balance_for_period_monotonic`] carries the same contract and
/// is the one the engine uses.
///
/// Returns `None` for an empty history, else the windowed maximum paired
/// with the timestamp of the earliest anchor attaining it. Fails with
/// [`ComputationError::InvalidTimestamp`] exactly when some event's
/// timestamp plus `period` leaves the `u64` range.
pub fn calculate_max_balance_for_period(history: &Vec<(u64, i128)>, period: u64) -> (r: Result<
    Option<(u64, i128)>,
    ComputationError,
>)
    requires
        hist_sorted(hist_view(history@)),
    ensures
        ({
            let h = hist_view(history@);
            match r {
                Err(e) => e == ComputationError::InvalidTimestamp && exists|j: int|
                    0 <= j < h.len() && (#[trigger] h[j]).0 + period > u64::MAX,
                Ok(opt) => (forall|j: int|
                    0 <= j < h.len() ==> (#[trigger] h[j]).0 + period <= u64::MAX) && match opt {
                    None => h.len() == 0,
                    Some(p) => h.len() > 0 && p.1 as int == window_max(h, period) && exists|a: int|
                        #[trigger] is_first_anchor(h, period, a) && p.0 == h[a].0,
                },
            }
        }),
{
    let ghost h = hist_view(history@);
    let n = history.len();
    let mut result: Option<(u64, i128)> = None;
    assert(h.len() == n);
    for i in 0..n
        invariant
            h == hist_view(history@),
            n == history@.len(),
            h.len() == n,
            hist_sorted(h),
            forall|j: int| 0 <= j < i as int ==> (#[trigger] h[j]).0 + period <= u64::MAX,
            i == 0 ==> result is None,
            i > 0 ==> (match result {
                Some(p) => p.1 as int == best_upto(h, period, i as int) && exists|a: int|
                    0 <= a < i as int && #[trigger] wmax(h, period, a) == p.1 as int && p.0
                        == h[a].0 && (forall|j: int|
                        0 <= j < a ==> #[trigger] wmax(h, period, j) < p.1 as int),
                None => false,
            }),
    {
        let ghost ii = i as int;
        let ts_i = history[i].0;
        let bal_i = history[i].1;
        proof {
            assert(h[ii] == (history@[ii].0, history@[ii].1 as int));
        }
        if ts_i > u64::MAX - period {
            proof {
                assert(h[ii].0 + period > u64::MAX);
            }
            return Err(ComputationError::InvalidTimestamp);
        }
        let window_end = ts_i + period;
        let mut cur: i128 = bal_i;
        let mut j = i + 1;
        while j < n
            invariant_except_break
                h == hist_view(history@),
                n == history@.len(),
                h.len() == n,
                hist_sorted(h),
                0 <= ii < n,
                ii < j <= n,
                window_end == h[ii].0 + period,
                cur as int == wmax_upto(h, period, ii, j as int),
            ensures
                cur as int == wmax(h, period, ii),
            decreases n - j,
        {
            let ghost ji = j as int;
            proof {
                assert(h[ji] == (history@[ji].0, history@[ji].1 as int));
            }
            if history[j].0 > window_end {
                proof {
                    assert(!(h[ji].0 <= h[ii].0 + period));
                    lemma_wmax_upto_out(h, period, ii, ji, n as int);
                }
                break;
            }
            if history[j].1 > cur {
                cur = history[j].1;
            }
            proof {
                assert(in_window(h, period, ii, ji));
            }
            j = j + 1;
        }
        match result {
            None => {
                proof {
                    assert(ii == 0);
                    assert(best_upto(h, period, 1) == wmax(h, period, 0));
                }
                result = Some((ts_i, cur));
                proof {
                    assert(wmax(h, period, 0) == cur as int && (ts_i, cur).0 == h[0].0);
                }
            },
            Some(p) => {
                if cur > p.1 {
                    proof {
                        assert forall|j: int| 0 <= j < ii implies #[trigger] wmax(h, period, j)
                            < cur as int by {
                            lemma_best_upto_bound(h, period, ii, j);
                        }
                    }
                    result = Some((ts_i, cur));
                    proof {
                        assert(wmax(h, period, ii) == cur as int && ts_i == h[ii].0);
                        assert(best_upto(h, period, ii + 1) == cur as int);
                    }
                } else {
                    proof {
                        assert(best_upto(h, period, ii + 1) == best_upto(h, period, ii));
                        let a = choose|a: int|
                            0 <= a < ii && #[trigger] wmax(h, period, a) == p.1 as int && p.0
                                == h[a].0 && (forall|j: int|
                                0 <= j < a ==> #[trigger] wmax(h, period, j) < p.1 as int);
                        assert(0 <= a < ii + 1 && wmax(h, period, a) == p.1 as int);
                    }
                }
            },
        }
    }
    proof {
        if n > 0 {
            let p = result->Some_0;
            assert(p.1 as int == best_upto(h, period, n as int));
            let a = choose|a: int|
                0 <= a < n as int && #[trigger] wmax(h, period, a) == p.1 as int && p.0 == h[a].0
                    && (forall|j: int| 0 <= j < a ==> #[trigger] wmax(h, period, j) < p.1 as int);
            assert(is_first_anchor(h, period, a));
        }
    }
    Ok(result)
}

} // verus!

verus! {

/// Some queue entry at or after `j` carries at least `j`'s balance.
spec fn covered_at(h: Seq<(u64, int)>, act: Seq<usize>, j: int) -> bool {
    exists|k: int| 0 <= k < act.len() && j <= (#[trigger] act[k]) && h[act[k] as int].1 >= h[j].1
}

/// The active queue holds strictly increasing indices below `r` whose
/// balances strictly decrease along the queue.
spec fn dq_core(h: Seq<(u64, int)>, act: Seq<usize>, r: int) -> bool {
    &&& forall|k: int| 0 <= k < act.len() ==> (#[trigger] act[k]) < r
    &&& forall|k1: int, k2: int|
        0 <= k1 < k2 < act.len() ==> ((#[trigger] act[k1]) < (#[trigger] act[k2]) && h[act[k1] as int].1
            > h[act[k2] as int].1)
}

/// Every event of `[lo, r)` is covered by the active queue.
spec fn dq_covers(h: Seq<(u64, int)>, act: Seq<usize>, lo: int, r: int) -> bool {
    forall|j: int| lo <= j < r ==> #[trigger] covered_at(h, act, j)
}

/// Windowed maximum via a monotonic double-ended queue: the window end
/// and the queue advance monotonically over the anchors, giving each
/// anchor's window maximum in amortized constant time.
///
/// Same contract as [`calculate_max_balance_for_period`]: the two
/// strategies agree on every input.
pub fn max_balance_for_period_monotonic(history: &Vec<(u64, i128)>, period: u64) -> (r: Result<
    Option<(u64, i128)>,
    ComputationError,
>)
    requires
        hist_sorted(hist_view(history@)),
    ensures
        ({
            let h = hist_view(history@);
            match r {
                Err(e) => e == ComputationError::InvalidTimestamp && exists|j: int|
                    0 <= j < h.len() && (#[trigger] h[j]).0 + period > u64::MAX,
                Ok(opt) => (forall|j: int|
                    0 <= j < h.len() ==> (#[trigger] h[j]).0 + period <= u64::MAX) && match opt {
                    None => h.len() == 0,
                    Some(p) => h.len() > 0 && p.1 as int == window_max(h, period) && exists|a: int|
                        #[trigger] is_first_anchor(h, period, a) && p.0 == h[a].0,
                },
            }
        }),
{
    let ghost h = hist_view(history@);
    let n = history.len();
    let mut result: Option<(u64, i128)> = None;
    let mut q: Vec<usize> = Vec::new();
    let mut qh: usize = 0;
    let mut r: usize = 0;
    assert(h.len() == n);
    for i in 0..n
        invariant
            h == hist_view(history@),
            n == history@.len(),
            h.len() == n,
            hist_sorted(h),
            qh <= q@.len(),
            i as int <= r as int <= n,
            dq_core(h, q@.skip(qh as int), r as int),
            dq_covers(h, q@.skip(qh as int), i as int, r as int),
            i < n ==> forall|j: int| 0 <= j < r as int ==> (#[trigger] h[j]).0 <= h[i as int].0 + period,
            forall|j: int| 0 <= j < i as int ==> (#[trigger] h[j]).0 + period <= u64::MAX,
            i == 0 ==> result is None,
            i > 0 ==> (match result {
                Some(p) => p.1 as int == best_upto(h, period, i as int) && exists|a: int|
                    0 <= a < i as int && #[trigger] wmax(h, period, a) == p.1 as int && p.0
                        == h[a].0 && (forall|j: int|
                        0 <= j < a ==> #[trigger] wmax(h, period, j) < p.1 as int),
                None => false,
            }),
    {
        let ghost ii = i as int;
        let ts_i = history[i].0;
        proof {
            assert(h[ii] == (history@[ii].0, history@[ii].1 as int));
        }
        if ts_i > u64::MAX - period {
            proof {
                assert(h[ii].0 + period > u64::MAX);
            }
            return Err(ComputationError::InvalidTimestamp);
        }
        let window_end = ts_i + period;
        // advance the window end, dropping dominated entries off the back
        while r < n && history[r].0 <= window_end
            invariant
                h == hist_view(history@),
                n == history@.len(),
                h.len() == n,
                hist_sorted(h),
                0 <= ii < n,
                window_end == h[ii].0 + period,
                qh <= q@.len(),
                r as int <= n,
                dq_core(h, q@.skip(qh as int), r as int),
                dq_covers(h, q@.skip(qh as int), ii, r as int),
                forall|j: int| 0 <= j < r as int ==> (#[trigger] h[j]).0 <= h[ii].0 + period,
            decreases n - r,
        {
            let ghost ri = r as int;
            let bal_r = history[r].1;
            proof {
                assert(h[ri] == (history@[ri].0, history@[ri].1 as int));
            }
            while qh < q.len()
                invariant
                    h == hist_view(history@),
                    n == history@.len(),
                    h.len() == n,
                    qh <= q@.len(),
                    0 <= ri < n,
                    ri <= n,
                    bal_r as int == h[ri].1,
                    dq_core(h, q@.skip(qh as int), ri),
                    forall|j: int|
                        ii <= j < ri ==> (#[trigger] covered_at(h, q@.skip(qh as int), j) || h[ri].1
                            >= h[j].1),
                ensures
                    qh <= q@.len(),
                    dq_core(h, q@.skip(qh as int), ri),
                    forall|j: int|
                        ii <= j < ri ==> (#[trigger] covered_at(h, q@.skip(qh as int), j) || h[ri].1
                            >= h[j].1),
                    qh == q@.len() || h[q@.skip(qh as int).last() as int].1 > h[ri].1,
                decreases q@.len() - qh,
            {
                let ghost act = q@.skip(qh as int);
                let last = q[q.len() - 1];
                proof {
                    assert(act.last() == last);
                    assert(act[act.len() - 1] < ri);
                }
                if history[last].1 > bal_r {
                    break;
                }
                let ghost popped = act.last();
                q.pop();
                proof {
                    let act2 = q@.skip(qh as int);
                    assert(act2 =~= act.drop_last());
                    assert forall|j: int|
                        ii <= j < ri implies (#[trigger] covered_at(h, act2, j) || h[ri].1
                        >= h[j].1) by {
                        if covered_at(h, act, j) {
                            let k = choose|k: int|
                                0 <= k < act.len() && j <= (#[trigger] act[k]) && h[act[k] as int].1
                                    >= h[j].1;
                            if k < act.len() - 1 {
                                assert(act2[k] == act[k]);
                                assert(covered_at(h, act2, j));
                            } else {
                                assert(act[k] == popped);
                                assert(h[ri].1 >= h[popped as int].1);
                            }
                        }
                    }
                }
            }
            let ghost act = q@.skip(qh as int);
            q.push(r);
            r = r + 1;
            proof {
                let act2 = q@.skip(qh as int);
                assert(act2 =~= act.push(ri as usize));
                // back entries, if any, carry strictly larger balances
                assert forall|k1: int, k2: int|
                    0 <= k1 < k2 < act2.len() implies ((#[trigger] act2[k1]) < (#[trigger] act2[k2])
                    && h[act2[k1] as int].1 > h[act2[k2] as int].1) by {
                    if k2 == act2.len() - 1 {
                        assert(act2[k1] == act[k1]);
                        assert(act[k1] < ri);
                        if k1 < act.len() - 1 {
                            assert(h[act[k1] as int].1 > h[act.last() as int].1);
                            assert(h[act.last() as int].1 > h[ri].1);
                        } else {
                            assert(act[k1] == act.last());
                            assert(h[act[k1] as int].1 > h[ri].1);
                        }
                    } else {
                        assert(act2[k1] == act[k1] && act2[k2] == act[k2]);
                    }
                }
                assert forall|j: int| ii <= j < r as int implies #[trigger] covered_at(
                    h,
                    act2,
                    j,
                ) by {
                    if j < ri {
                        if covered_at(h, act, j) {
                            let k = choose|k: int|
                                0 <= k < act.len() && j <= (#[trigger] act[k]) && h[act[k] as int].1
                                    >= h[j].1;
                            assert(act2[k] == act[k]);
                            assert(covered_at(h, act2, j));
                        } else {
                            assert(h[ri].1 >= h[j].1);
                            assert(act2[act2.len() - 1] == ri as usize);
                            assert(covered_at(h, act2, j));
                        }
                    } else {
                        assert(act2[act2.len() - 1] == ri as usize);
                        assert(covered_at(h, act2, j));
                    }
                }
            }
        }
        proof {
            // the window of anchor i reaches past i itself
            if r as int <= ii {
                assert(h[r as int].0 <= h[ii].0);
                assert(false);
            }
        }
        // drop anchors that fell out of the window off the front
        while qh < q.len() && q[qh] < i
            invariant
                h == hist_view(history@),
                h.len() == n,
                qh <= q@.len(),
                ii == i as int,
                0 <= ii < n,
                ii < r as int <= n,
                dq_core(h, q@.skip(qh as int), r as int),
                dq_covers(h, q@.skip(qh as int), ii, r as int),
            decreases q@.len() - qh,
        {
            let ghost act = q@.skip(qh as int);
            proof {
                assert(act[0] == q@[qh as int]);
            }
            qh = qh + 1;
            proof {
                let act2 = q@.skip(qh as int);
                assert(act2 =~= act.drop_first());
                assert forall|j: int| ii <= j < r as int implies #[trigger] covered_at(
                    h,
                    act2,
                    j,
                ) by {
                    assert(covered_at(h, act, j));
                    let k = choose|k: int|
                        0 <= k < act.len() && j <= (#[trigger] act[k]) && h[act[k] as int].1
                            >= h[j].1;
                    assert((act[0] as int) < ii);
                    assert(j <= act[k] && ii <= j);
                    if k == 0 {
                        assert(false);
                    }
                    assert(act2[k - 1] == act[k]);
                    assert(covered_at(h, act2, j));
                }
            }
        }
        proof {
            assert(covered_at(h, q@.skip(qh as int), ii));
            assert(q@.skip(qh as int).len() > 0);
        }
        let f = q[qh];
        proof {
            let act = q@.skip(qh as int);
            assert(act[0] == f);
            assert(act[0] < r as usize);
        }
        let cur = history[f].1;
        proof {
            let act = q@.skip(qh as int);
            let rr = r as int;
            assert(act[0] == f);
            assert(ii <= f as int && (f as int) < rr);
            assert(h[f as int] == (history@[f as int].0, history@[f as int].1 as int));
            assert forall|j: int| ii <= j < rr implies h[j].1 <= cur as int by {
                assert(covered_at(h, act, j));
                let k = choose|k: int|
                    0 <= k < act.len() && j <= (#[trigger] act[k]) && h[act[k] as int].1 >= h[j].1;
                if k > 0 {
                    assert(h[act[0] as int].1 > h[act[k] as int].1);
                }
            }
            lemma_seg_max_witness(h, ii, rr);
            let jw = choose|j: int| ii <= j < rr && h[j].1 == seg_max(h, ii, rr);
            lemma_seg_max_bound(h, ii, rr, f as int);
            assert(cur as int == seg_max(h, ii, rr));
            assert forall|j: int| ii <= j < rr implies #[trigger] in_window(h, period, ii, j) by {
                assert(h[j].0 <= h[ii].0 + period);
            }
            lemma_wmax_contiguous(h, period, ii, rr);
            assert(cur as int == wmax(h, period, ii));
        }
        match result {
            None => {
                proof {
                    assert(ii == 0);
                    assert(best_upto(h, period, 1) == wmax(h, period, 0));
                }
                result = Some((ts_i, cur));
                proof {
                    assert(wmax(h, period, 0) == cur as int && (ts_i, cur).0 == h[0].0);
                }
            },
            Some(p) => {
                if cur > p.1 {
                    proof {
                        assert forall|j: int| 0 <= j < ii implies #[trigger] wmax(h, period, j)
                            < cur as int by {
                            lemma_best_upto_bound(h, period, ii, j);
                        }
                    }
                    result = Some((ts_i, cur));
                    proof {
                        assert(wmax(h, period, ii) == cur as int && ts_i == h[ii].0);
                        assert(best_upto(h, period, ii + 1) == cur as int);
                    }
                } else {
                    proof {
                        assert(best_upto(h, period, ii + 1) == best_upto(h, period, ii));
                        let a = choose|a: int|
                            0 <= a < ii && #[trigger] wmax(h, period, a) == p.1 as int && p.0
                                == h[a].0 && (forall|j: int|
                                0 <= j < a ==> #[trigger] wmax(h, period, j) < p.1 as int);
                        assert(0 <= a < ii + 1 && wmax(h, period, a) == p.1 as int);
                    }
                }
            },
        }
        proof {
            if i + 1 < n {
                assert forall|j: int| 0 <= j < r as int implies (#[trigger] h[j]).0 <= h[ii + 1].0
                    + period by {
                    assert(h[j].0 <= h[ii].0 + period);
                    assert(h[ii].0 <= h[ii + 1].0);
                }
            }
        }
    }
    proof {
        if n > 0 {
            let p = result->Some_0;
            assert(p.1 as int == best_upto(h, period, n as int));
            let a = choose|a: int|
                0 <= a < n as int && #[trigger] wmax(h, period, a) == p.1 as int && p.0 == h[a].0
                    && (forall|j: int| 0 <= j < a ==> #[trigger] wmax(h, period, j) < p.1 as int);
            assert(is_first_anchor(h, period, a));
        }
    }
    Ok(result)
}

} // verus!

verus! {

/// The all-time peak balance of a history, 0 when the history is empty.
pub fn max_balance_of(history: &Vec<(u64, i128)>) -> (m: i128)
    ensures
        m as int == hist_max(hist_view(history@)),
{
    let ghost h = hist_view(history@);
    let n = history.len();
    if n == 0 {
        return 0;
    }
    let mut m = history[0].1;
    assert(m as int == seg_max(h, 0, 1));
    for i in 1..n
        invariant
            h == hist_view(history@),
            n == history@.len(),
            h.len() == n,
            0 < i <= n,
            m as int == seg_max(h, 0, i as int),
    {
        proof {
            assert(h[i as int] == (history@[i as int].0, history@[i as int].1 as int));
        }
        if history[i].1 > m {
            m = history[i].1;
        }
    }
    m
}

} // verus!
