//! The statistics engine.
//!
//! [`compute_statistics`] turns an unordered transfer batch into one
//! [`UserStats`] record per address, for a configurable set of trailing
//! window durations; [`calculate_user_stats`] fixes the customary
//! one-hour, one-day and one-week windows. The whole batch fails on the
//! first error — no address is silently skipped.
//!
//! The result is pinned down by [`stats_of`], a pure function of the
//! chronologically sorted batch, so the output cannot depend on the
//! arrival order of transfers beyond their timestamps.

use vstd::prelude::*;

use crate::average::{
    amount_sum, lemma_amount_sum_bounds, lemma_average_zero_iff_no_volume, sum_amounts,
    weighted_average, weighted_average_of, weighted_sum,
};
use crate::ledger::{
    addr_views, addrs_of, balances_fit, build_ledger, buys_of, hist_view, history_of,
    lemma_history_sorted, lemma_untouched, sells_of,
};
use crate::model::{ComputationError, Transfer, TransferView, UserStats, UserStatsView};
use crate::sort::{
    batch_view, distinct_ts, lemma_distinct_ts_permutation, lemma_sort_by_ts_ensures,
    lemma_sorted_distinct_unique, sort_by_ts, sort_transfers, sorted_ts,
};
use crate::window::{
    hist_max, lemma_window_max_le_hist_max, max_balance_for_period_monotonic, max_balance_of,
    window_max,
};

verus! {

/// Every event timestamp of the batch admits every configured window:
/// no `timestamp + duration` leaves the `u64` range.
pub open spec fn ts_fit(s: Seq<TransferView>, ws: Seq<u64>) -> bool {
    forall|i: int, j: int|
        0 <= i < s.len() && 0 <= j < ws.len() ==> (#[trigger] s[i]).ts + (#[trigger] ws[j])
            <= u64::MAX
}

/// Every per-address weighted price sum and volume sum fits `u128`.
pub open spec fn sums_fit(s: Seq<TransferView>) -> bool {
    &&& forall|a: Seq<char>| #[trigger] weighted_sum(buys_of(s, a)) <= u128::MAX
    &&& forall|a: Seq<char>| #[trigger] weighted_sum(sells_of(s, a)) <= u128::MAX
    &&& forall|a: Seq<char>|
        (#[trigger] amount_sum(buys_of(s, a))) + amount_sum(sells_of(s, a)) <= u128::MAX
}

/// The per-window peaks of one address, in the order the durations were
/// configured.
pub open spec fn window_entries(s: Seq<TransferView>, ws: Seq<u64>, a: Seq<char>) -> Seq<
    (u64, int),
> {
    Seq::new(ws.len(), |j: int| (ws[j], window_max(history_of(s, a), ws[j])))
}

/// The statistics record of one address of the sorted batch `s`.
pub open spec fn stats_for(s: Seq<TransferView>, ws: Seq<u64>, a: Seq<char>) -> UserStatsView {
    UserStatsView {
        address: a,
        total_volume: amount_sum(buys_of(s, a)) + amount_sum(sells_of(s, a)),
        avg_buy_price: weighted_average_of(buys_of(s, a)),
        avg_sell_price: weighted_average_of(sells_of(s, a)),
        max_balance: hist_max(history_of(s, a)),
        max_balance_per_window: window_entries(s, ws, a),
    }
}

/// The engine's full output over the sorted batch `s`: one record per
/// address, in first-touch order.
pub open spec fn stats_of(s: Seq<TransferView>, ws: Seq<u64>) -> Seq<UserStatsView> {
    Seq::new(addrs_of(s).len(), |i: int| stats_for(s, ws, addrs_of(s)[i]))
}

/// The views of the computed records.
pub open spec fn stats_views(v: Seq<UserStats>) -> Seq<UserStatsView> {
    v.map_values(|u: UserStats| u@)
}

/// Derives the per-address statistics of `transfers` for the window
/// durations `windows` (seconds).
///
/// The result is exactly [`stats_of`] over the chronologically sorted
/// batch. The call fails with [`ComputationError::InvalidTimestamp`]
/// when some event timestamp plus some window duration leaves `u64`,
/// and with [`ComputationError::NumericOverflow`] when a running
/// balance leaves `i128` or a per-address sum leaves `u128`; otherwise
/// it succeeds.
pub fn compute_statistics(transfers: &Vec<Transfer>, windows: &Vec<u64>) -> (r: Result<
    Vec<UserStats>,
    ComputationError,
>)
    requires
        crate::model::valid_batch(batch_view(transfers@)),
    ensures
        ({
            let s = sort_by_ts(batch_view(transfers@));
            let ws = windows@;
            match r {
                Ok(stats) => ts_fit(s, ws) && balances_fit(s) && sums_fit(s) && stats_views(stats@)
                    == stats_of(s, ws),
                Err(ComputationError::InvalidTimestamp) => !ts_fit(s, ws),
                Err(ComputationError::NumericOverflow) => ts_fit(s, ws) && !(balances_fit(s)
                    && sums_fit(s)),
            }
        }),
{
    let ghost s = sort_by_ts(batch_view(transfers@));
    let ghost ws = windows@;
    let sorted = sort_transfers(transfers);
    proof {
        lemma_sort_by_ts_ensures(batch_view(transfers@));
        assert(batch_view(sorted@) == s);
        assert(sorted_ts(s));
    }
    let n = sorted.len();
    let nw = windows.len();
    assert(s.len() == n);

    // reject batches whose windowing arithmetic would overflow
    for i in 0..n
        invariant
            s == sort_by_ts(batch_view(transfers@)),
            s == batch_view(sorted@),
            ws == windows@,
            n == sorted@.len(),
            s.len() == n,
            nw == windows@.len(),
            forall|i2: int, j2: int|
                0 <= i2 < i as int && 0 <= j2 < nw ==> (#[trigger] s[i2]).ts + (#[trigger] ws[j2])
                    <= u64::MAX,
    {
        let t_ts = sorted[i].ts;
        proof {
            assert(s[i as int] == sorted@[i as int]@);
        }
        for j in 0..nw
            invariant
                s == sort_by_ts(batch_view(transfers@)),
                s == batch_view(sorted@),
                ws == windows@,
                nw == windows@.len(),
                0 <= i as int && (i as int) < s.len(),
                t_ts == s[i as int].ts,
                forall|j2: int|
                    0 <= j2 < j as int ==> s[i as int].ts + (#[trigger] ws[j2]) <= u64::MAX,
        {
            if t_ts > u64::MAX - windows[j] {
                proof {
                    assert(s[i as int].ts + ws[j as int] > u64::MAX);
                }
                return Err(ComputationError::InvalidTimestamp);
            }
        }
    }
    assert(ts_fit(s, ws));

    let ledger = match build_ledger(&sorted) {
        Ok(l) => l,
        Err(e) => {
            return Err(e);
        },
    };

    let m = ledger.addrs.len();
    let mut out: Vec<UserStats> = Vec::new();
    proof {
        assert(addr_views(ledger.addrs@) == addrs_of(s));
        assert(addrs_of(s).len() == m);
    }
    for idx in 0..m
        invariant
            s == sort_by_ts(batch_view(transfers@)),
            s == batch_view(sorted@),
            ws == windows@,
            nw == windows@.len(),
            sorted_ts(s),
            ts_fit(s, ws),
            balances_fit(s),
            ledger.wf(s),
            m == ledger.addrs@.len(),
            out@.len() == idx,
            forall|i: int|
                0 <= i < idx as int ==> #[trigger] out@[i]@ == stats_for(s, ws, addrs_of(s)[i]),
            forall|i: int|
                0 <= i < idx as int ==> #[trigger] weighted_sum(buys_of(s, addrs_of(s)[i]))
                    <= u128::MAX,
            forall|i: int|
                0 <= i < idx as int ==> #[trigger] weighted_sum(sells_of(s, addrs_of(s)[i]))
                    <= u128::MAX,
            forall|i: int|
                0 <= i < idx as int ==> (#[trigger] amount_sum(buys_of(s, addrs_of(s)[i])))
                    + amount_sum(sells_of(s, addrs_of(s)[i])) <= u128::MAX,
    {
        let ghost a = addrs_of(s)[idx as int];
        proof {
            assert(addr_views(ledger.addrs@)[idx as int] == a);
            assert(ledger.buys@[idx as int]@ == buys_of(s, a));
            assert(ledger.sells@[idx as int]@ == sells_of(s, a));
            assert(hist_view(ledger.histories@[idx as int]@) == history_of(s, a));
        }
        let avg_buy = match weighted_average(&ledger.buys[idx]) {
            Ok(v) => v,
            Err(e) => {
                proof {
                    assert(weighted_sum(buys_of(s, a)) > u128::MAX);
                }
                return Err(e);
            },
        };
        let avg_sell = match weighted_average(&ledger.sells[idx]) {
            Ok(v) => v,
            Err(e) => {
                proof {
                    assert(weighted_sum(sells_of(s, a)) > u128::MAX);
                }
                return Err(e);
            },
        };
        let vol_buy = sum_amounts(&ledger.buys[idx]);
        let vol_sell = sum_amounts(&ledger.sells[idx]);
        if vol_buy > u128::MAX - vol_sell {
            proof {
                assert(amount_sum(buys_of(s, a)) + amount_sum(sells_of(s, a)) > u128::MAX);
            }
            return Err(ComputationError::NumericOverflow);
        }
        let total_volume = vol_buy + vol_sell;
        let max_balance = max_balance_of(&ledger.histories[idx]);
        proof {
            lemma_history_sorted(s, a, s.len() as int);
        }
        let mut per_window: Vec<(u64, i128)> = Vec::new();
        for j in 0..nw
            invariant
                s == sort_by_ts(batch_view(transfers@)),
                s == batch_view(sorted@),
                ws == windows@,
                nw == windows@.len(),
                sorted_ts(s),
                ts_fit(s, ws),
                s.len() == sorted@.len(),
                0 <= idx as int && (idx as int) < addrs_of(s).len(),
                a == addrs_of(s)[idx as int],
                ledger.wf(s),
                idx < ledger.addrs@.len(),
                hist_view(ledger.histories@[idx as int]@) == history_of(s, a),
                forall|e: int|
                    0 <= e < history_of(s, a).len() ==> exists|j2: int|
                        0 <= j2 < s.len() && (#[trigger] history_of(s, a)[e]).0 == s[j2].ts,
                forall|e1: int, e2: int|
                    0 <= e1 < e2 < history_of(s, a).len() ==> (#[trigger] history_of(s, a)[e1]).0
                        <= (#[trigger] history_of(s, a)[e2]).0,
                per_window@.len() == j,
                forall|j2: int|
                    0 <= j2 < j as int ==> #[trigger] hist_view(per_window@)[j2] == (
                        ws[j2],
                        window_max(history_of(s, a), ws[j2]),
                    ),
        {
            let d = windows[j];
            let ghost h = history_of(s, a);
            let wm: i128 = match max_balance_for_period_monotonic(&ledger.histories[idx], d) {
                Ok(None) => 0,
                Ok(Some(p)) => p.1,
                Err(e) => {
                    proof {
                        // unreachable: every event timestamp admits every window
                        let bad = choose|e2: int|
                            0 <= e2 < h.len() && (#[trigger] h[e2]).0 + d > u64::MAX;
                        let j2 = choose|j2: int|
                            0 <= j2 < s.len() && (#[trigger] h[bad]).0 == s[j2].ts;
                        assert(s[j2].ts + ws[j as int] <= u64::MAX);
                        assert(false);
                    }
                    return Err(e);
                },
            };
            proof {
                assert(wm as int == window_max(h, d));
            }
            let ghost pw0 = per_window@;
            per_window.push((d, wm));
            proof {
                assert forall|j2: int|
                    0 <= j2 < j as int + 1 implies #[trigger] hist_view(per_window@)[j2] == (
                    ws[j2],
                    window_max(history_of(s, a), ws[j2]),
                ) by {
                    if j2 < j as int {
                        assert(per_window@[j2] == pw0[j2]);
                        assert(hist_view(pw0)[j2] == (
                            ws[j2],
                            window_max(history_of(s, a), ws[j2]),
                        ));
                    } else {
                        assert(per_window@[j2] == (d, wm));
                    }
                }
            }
        }
        let record = UserStats {
            address: ledger.addrs[idx].clone(),
            total_volume,
            avg_buy_price: avg_buy,
            avg_sell_price: avg_sell,
            max_balance,
            max_balance_per_window: per_window,
        };
        proof {
            assert(record.address@ == a);
            assert forall|j2: int|
                0 <= j2 < nw as int implies record@.max_balance_per_window[j2] == window_entries(
                s,
                ws,
                a,
            )[j2] by {
                assert(hist_view(per_window@)[j2] == (
                    ws[j2],
                    window_max(history_of(s, a), ws[j2]),
                ));
            }
            assert(record@.max_balance_per_window =~= window_entries(s, ws, a));
            assert(record@ =~= stats_for(s, ws, a));
        }
        out.push(record);
    }
    proof {
        assert(stats_views(out@) =~= stats_of(s, ws));
        assert forall|a: Seq<char>| #[trigger] weighted_sum(buys_of(s, a)) <= u128::MAX by {
            if addrs_of(s).contains(a) {
                let i = choose|i: int| 0 <= i < addrs_of(s).len() && addrs_of(s)[i] == a;
                assert(weighted_sum(buys_of(s, addrs_of(s)[i])) <= u128::MAX);
            } else {
                lemma_untouched(s, s.len() as int, a);
            }
        }
        assert forall|a: Seq<char>| #[trigger] weighted_sum(sells_of(s, a)) <= u128::MAX by {
            if addrs_of(s).contains(a) {
                let i = choose|i: int| 0 <= i < addrs_of(s).len() && addrs_of(s)[i] == a;
                assert(weighted_sum(sells_of(s, addrs_of(s)[i])) <= u128::MAX);
            } else {
                lemma_untouched(s, s.len() as int, a);
            }
        }
        assert forall|a: Seq<char>|
            (#[trigger] amount_sum(buys_of(s, a))) + amount_sum(sells_of(s, a))
            <= u128::MAX by {
            if addrs_of(s).contains(a) {
                let i = choose|i: int| 0 <= i < addrs_of(s).len() && addrs_of(s)[i] == a;
                assert(amount_sum(buys_of(s, addrs_of(s)[i])) + amount_sum(
                    sells_of(s, addrs_of(s)[i]),
                ) <= u128::MAX);
            } else {
                lemma_untouched(s, s.len() as int, a);
            }
        }
    }
    Ok(out)
}

/// The default trailing windows: one hour, one day, one week.
pub fn default_windows() -> (ws: Vec<u64>)
    ensures
        ws@ =~= seq![3600u64, 86400u64, 604800u64],
{
    let mut ws: Vec<u64> = Vec::new();
    ws.push(3600);
    ws.push(86400);
    ws.push(604800);
    ws
}

/// [`compute_statistics`] over the default one-hour, one-day and
/// one-week windows.
pub fn calculate_user_stats(transfers: &Vec<Transfer>) -> (r: Result<
    Vec<UserStats>,
    ComputationError,
>)
    requires
        crate::model::valid_batch(batch_view(transfers@)),
    ensures
        ({
            let s = sort_by_ts(batch_view(transfers@));
            let ws = seq![3600u64, 86400u64, 604800u64];
            match r {
                Ok(stats) => ts_fit(s, ws) && balances_fit(s) && sums_fit(s) && stats_views(stats@)
                    == stats_of(s, ws),
                Err(ComputationError::InvalidTimestamp) => !ts_fit(s, ws),
                Err(ComputationError::NumericOverflow) => ts_fit(s, ws) && !(balances_fit(s)
                    && sums_fit(s)),
            }
        }),
{
    let windows = default_windows();
    compute_statistics(transfers, &windows)
}

} // verus!

verus! {

/// Every address's reported volume is never negative and equals the sum
/// of its buy and sell volumes, each computed on its own.
pub proof fn lemma_total_volume_consistent(s: Seq<TransferView>, ws: Seq<u64>, i: int)
    requires
        0 <= i < stats_of(s, ws).len(),
    ensures
        stats_of(s, ws)[i].total_volume == amount_sum(buys_of(s, addrs_of(s)[i])) + amount_sum(
            sells_of(s, addrs_of(s)[i]),
        ),
        stats_of(s, ws)[i].total_volume >= 0,
{
    let a = addrs_of(s)[i];
    lemma_amount_sum_bounds(buys_of(s, a), buys_of(s, a).len() as int);
    lemma_amount_sum_bounds(sells_of(s, a), sells_of(s, a).len() as int);
}

/// For every address and every configured window, the windowed peak
/// balance never exceeds the all-time peak balance.
pub proof fn lemma_windowed_peak_bounded(s: Seq<TransferView>, ws: Seq<u64>, i: int, j: int)
    requires
        0 <= i < stats_of(s, ws).len(),
        0 <= j < ws.len(),
    ensures
        stats_of(s, ws)[i].max_balance_per_window[j].1 <= stats_of(s, ws)[i].max_balance,
{
    lemma_window_max_le_hist_max(history_of(s, addrs_of(s)[i]), ws[j]);
}

/// For a valid batch, an address's average buy price is 0 exactly when
/// it received no volume, and its average sell price is 0 exactly when
/// it sent none.
pub proof fn lemma_average_zero_iff_no_volume_stats(s: Seq<TransferView>, ws: Seq<u64>, i: int)
    requires
        crate::model::valid_batch(s),
        0 <= i < stats_of(s, ws).len(),
    ensures
        stats_of(s, ws)[i].avg_buy_price == 0 <==> amount_sum(buys_of(s, addrs_of(s)[i])) == 0,
        stats_of(s, ws)[i].avg_sell_price == 0 <==> amount_sum(sells_of(s, addrs_of(s)[i])) == 0,
{
    let a = addrs_of(s)[i];
    crate::ledger::lemma_flows_valid(s, a, s.len() as int);
    lemma_average_zero_iff_no_volume(buys_of(s, a));
    lemma_average_zero_iff_no_volume(sells_of(s, a));
}

/// Batch order does not matter: two batches that hold the same transfers
/// — in any order — with pairwise-distinct timestamps produce identical
/// statistics, record for record.
pub proof fn lemma_batch_order_irrelevant(t1: Seq<TransferView>, t2: Seq<TransferView>, ws: Seq<
    u64,
>)
    requires
        t1.to_multiset() == t2.to_multiset(),
        distinct_ts(t1),
    ensures
        stats_of(sort_by_ts(t1), ws) == stats_of(sort_by_ts(t2), ws),
{
    lemma_sort_by_ts_ensures(t1);
    lemma_sort_by_ts_ensures(t2);
    lemma_distinct_ts_permutation(t1, sort_by_ts(t1));
    lemma_sorted_distinct_unique(sort_by_ts(t1), sort_by_ts(t2));
}

} // verus!
