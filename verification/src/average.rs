//! Volume sums and volume-weighted average prices.
//!
//! A flow list holds `(unit_price, amount)` records; its weighted
//! average price is the price-weighted amount sum divided by the amount
//! sum, and 0 when there is no volume — the division is never by zero.
//! Amount sums always fit `u128`; the weighted sum may not, and that
//! case is a numeric error, never a silently wrapped value.

use vstd::prelude::*;
use vstd::arithmetic::mul::{lemma_mul_inequality, lemma_mul_upper_bound};

use crate::model::ComputationError;

verus! {

/// Sum of the amounts of the first `k` flow records.
pub open spec fn amount_sum_prefix(f: Seq<(u64, u64)>, k: int) -> int
    decreases k,
{
    if k <= 0 {
        0
    } else {
        amount_sum_prefix(f, k - 1) + f[k - 1].1
    }
}

/// Sum of the amounts of a flow list: the list's volume.
pub open spec fn amount_sum(f: Seq<(u64, u64)>) -> int {
    amount_sum_prefix(f, f.len() as int)
}

/// Price-weighted amount sum of the first `k` flow records.
pub open spec fn weighted_sum_prefix(f: Seq<(u64, u64)>, k: int) -> int
    decreases k,
{
    if k <= 0 {
        0
    } else {
        weighted_sum_prefix(f, k - 1) + f[k - 1].0 * f[k - 1].1
    }
}

/// Price-weighted amount sum of a flow list.
pub open spec fn weighted_sum(f: Seq<(u64, u64)>) -> int {
    weighted_sum_prefix(f, f.len() as int)
}

/// The volume-weighted average price: 0 when there is no volume.
pub open spec fn weighted_average_of(f: Seq<(u64, u64)>) -> int {
    if amount_sum(f) == 0 {
        0
    } else {
        weighted_sum(f) / amount_sum(f)
    }
}

/// Every record carries a positive unit price.
pub open spec fn prices_positive(f: Seq<(u64, u64)>) -> bool {
    forall|i: int| 0 <= i < f.len() ==> (#[trigger] f[i]).0 >= 1
}

/// Volumes are never negative, and each prefix sum is bounded by the
/// record count times the largest amount.
pub proof fn lemma_amount_sum_bounds(f: Seq<(u64, u64)>, k: int)
    requires
        0 <= k <= f.len(),
    ensures
        0 <= amount_sum_prefix(f, k) <= k * (u64::MAX as int),
    decreases k,
{
    if k > 0 {
        lemma_amount_sum_bounds(f, k - 1);
    }
}

/// Weighted sums are never negative and grow with the prefix.
pub proof fn lemma_weighted_sum_monotonic(f: Seq<(u64, u64)>, k1: int, k2: int)
    requires
        0 <= k1 <= k2 <= f.len(),
    ensures
        0 <= weighted_sum_prefix(f, k1) <= weighted_sum_prefix(f, k2),
    decreases k2,
{
    if k2 > 0 {
        if k1 == k2 {
            lemma_weighted_sum_monotonic(f, k1 - 1, k1 - 1);
            lemma_mul_upper_bound(0, f[k1 - 1].0 as int, 0, f[k1 - 1].1 as int);
        } else {
            lemma_weighted_sum_monotonic(f, k1, k2 - 1);
            lemma_mul_upper_bound(0, f[k2 - 1].0 as int, 0, f[k2 - 1].1 as int);
        }
    }
}

/// With positive prices, the weighted sum dominates the amount sum.
pub proof fn lemma_weighted_sum_dominates(f: Seq<(u64, u64)>, k: int)
    requires
        0 <= k <= f.len(),
        prices_positive(f),
    ensures
        weighted_sum_prefix(f, k) >= amount_sum_prefix(f, k),
    decreases k,
{
    if k > 0 {
        lemma_weighted_sum_dominates(f, k - 1);
        lemma_mul_inequality(1, f[k - 1].0 as int, f[k - 1].1 as int);
    }
}

/// The weighted average is 0 exactly when the list has no volume —
/// positive prices cannot average out to zero.
pub proof fn lemma_average_zero_iff_no_volume(f: Seq<(u64, u64)>)
    requires
        prices_positive(f),
    ensures
        weighted_average_of(f) == 0 <==> amount_sum(f) == 0,
{
    lemma_amount_sum_bounds(f, f.len() as int);
    if amount_sum(f) != 0 {
        lemma_weighted_sum_dominates(f, f.len() as int);
        assert(weighted_sum(f) / amount_sum(f) >= 1) by (nonlinear_arith)
            requires
                weighted_sum(f) >= amount_sum(f) >= 1,
        ;
    }
}

/// The volume of a flow list; this cannot leave `u128`, since there are
/// fewer records than `usize` can count and each amount fits `u64`.
pub fn sum_amounts(flows: &Vec<(u64, u64)>) -> (s: u128)
    ensures
        s as int == amount_sum(flows@),
{
    let mut s: u128 = 0;
    for i in 0..flows.len()
        invariant
            s as int == amount_sum_prefix(flows@, i as int),
            s as int <= (i as int) * (u64::MAX as int),
    {
        proof {
            assert((i as int + 1) * (u64::MAX as int) <= (u64::MAX as int) * (u64::MAX as int))
                by (nonlinear_arith)
                requires
                    0 <= i as int + 1 <= u64::MAX as int,
            ;
        }
        s = s + (flows[i].1 as u128);
    }
    s
}

/// The volume-weighted average price of a flow list, 0 when there is no
/// volume. Fails with [`ComputationError::NumericOverflow`] exactly when
/// the weighted sum leaves the `u128` range.
pub fn weighted_average(flows: &Vec<(u64, u64)>) -> (r: Result<u128, ComputationError>)
    ensures
        match r {
            Ok(avg) => weighted_sum(flows@) <= u128::MAX && avg as int == weighted_average_of(
                flows@,
            ),
            Err(e) => e == ComputationError::NumericOverflow && weighted_sum(flows@) > u128::MAX,
        },
{
    let ghost f = flows@;
    let mut sum_w: u128 = 0;
    let n = flows.len();
    for i in 0..n
        invariant
            f == flows@,
            n == flows@.len(),
            sum_w as int == weighted_sum_prefix(f, i as int),
    {
        let p = flows[i].0;
        let a = flows[i].1;
        proof {
            lemma_mul_upper_bound(p as int, u64::MAX as int, a as int, u64::MAX as int);
        }
        let term = (p as u128) * (a as u128);
        if sum_w > u128::MAX - term {
            proof {
                lemma_weighted_sum_monotonic(f, i as int + 1, f.len() as int);
                assert(weighted_sum(f) > u128::MAX);
            }
            return Err(ComputationError::NumericOverflow);
        }
        sum_w = sum_w + term;
    }
    let sum_a = sum_amounts(flows);
    proof {
        lemma_amount_sum_bounds(f, f.len() as int);
        lemma_weighted_sum_monotonic(f, 0, f.len() as int);
    }
    if sum_a == 0 {
        Ok(0)
    } else {
        Ok(sum_w / sum_a)
    }
}

} // verus!
