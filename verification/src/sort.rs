//! Chronological ordering of a transfer batch.
//!
//! The batch arrives in arbitrary order; every statistic is defined over
//! the batch sorted by timestamp, ties broken by batch position (a stable
//! sort), so the specification-level sort below is a stable insertion
//! sort. `sort_transfers` is the executable counterpart and returns
//! exactly the sequence the specification names.

use vstd::prelude::*;
use vstd::seq_lib::group_to_multiset_ensures;

use crate::model::{Transfer, TransferView};

verus! {

/// The views of a sequence of transfers.
pub open spec fn batch_view(s: Seq<Transfer>) -> Seq<TransferView> {
    s.map_values(|t: Transfer| t@)
}

/// Timestamps never decrease along the sequence.
pub open spec fn sorted_ts(s: Seq<TransferView>) -> bool {
    forall|i: int, j: int| 0 <= i < j < s.len() ==> #[trigger] s[i].ts <= #[trigger] s[j].ts
}

/// No two records share a timestamp.
pub open spec fn distinct_ts(s: Seq<TransferView>) -> bool {
    forall|i: int, j: int| 0 <= i < j < s.len() ==> #[trigger] s[i].ts != #[trigger] s[j].ts
}

/// Places `x` after every element whose timestamp is at most `x.ts`,
/// so that insertion keeps equal timestamps in arrival order.
pub open spec fn insert_by_ts(s: Seq<TransferView>, x: TransferView) -> Seq<TransferView>
    decreases s.len(),
{
    if s.len() == 0 {
        seq![x]
    } else if s.last().ts <= x.ts {
        s.push(x)
    } else {
        insert_by_ts(s.drop_last(), x).push(s.last())
    }
}

/// Stable insertion sort by timestamp.
pub open spec fn sort_by_ts(s: Seq<TransferView>) -> Seq<TransferView>
    decreases s.len(),
{
    if s.len() == 0 {
        Seq::empty()
    } else {
        insert_by_ts(sort_by_ts(s.drop_last()), s.last())
    }
}

/// Inserting splices `x` at any position `p` that is preceded only by
/// timestamps at most `x.ts` and followed only by larger ones.
proof fn lemma_insert_by_ts_at(s: Seq<TransferView>, x: TransferView, p: int)
    requires
        0 <= p <= s.len(),
        forall|q: int| p <= q < s.len() ==> #[trigger] s[q].ts > x.ts,
        p > 0 ==> s[p - 1].ts <= x.ts,
    ensures
        insert_by_ts(s, x) =~= s.subrange(0, p) + seq![x] + s.subrange(p, s.len() as int),
    decreases s.len(),
{
    if s.len() == 0 {
        assert(insert_by_ts(s, x) =~= seq![x]);
    } else if p == s.len() {
        assert(insert_by_ts(s, x) =~= s.push(x));
    } else {
        assert(s.last().ts > x.ts);
        lemma_insert_by_ts_at(s.drop_last(), x, p);
        assert(insert_by_ts(s, x) =~= (s.drop_last().subrange(0, p) + seq![x] + s.drop_last()
            .subrange(p, s.len() - 1)).push(s.last()));
    }
}

/// What insertion guarantees: one more element, the same multiset plus
/// `x`, and order preserved when the input was ordered.
pub proof fn lemma_insert_by_ts_ensures(s: Seq<TransferView>, x: TransferView)
    ensures
        insert_by_ts(s, x).len() == s.len() + 1,
        insert_by_ts(s, x).to_multiset() =~= s.to_multiset().insert(x),
        sorted_ts(s) ==> sorted_ts(insert_by_ts(s, x)),
    decreases s.len(),
{
    broadcast use group_to_multiset_ensures;

    if s.len() == 0 {
        assert(seq![x] =~= Seq::<TransferView>::empty().push(x));
        assert(Seq::<TransferView>::empty().to_multiset() =~= s.to_multiset());
    } else if s.last().ts <= x.ts {
        assert(s.push(x).to_multiset() =~= s.to_multiset().insert(x));
        if sorted_ts(s) {
            assert forall|i: int, j: int|
                0 <= i < j < s.push(x).len() implies #[trigger] s.push(x)[i].ts
                <= #[trigger] s.push(x)[j].ts by {
                if j < s.len() {
                } else {
                    assert(s.push(x)[i].ts <= s.last().ts);
                }
            }
        }
    } else {
        let inner = insert_by_ts(s.drop_last(), x);
        lemma_insert_by_ts_ensures(s.drop_last(), x);
        assert(s.drop_last().push(s.last()) =~= s);
        assert(inner.push(s.last()).to_multiset() =~= inner.to_multiset().insert(s.last()));
        assert(s.drop_last().to_multiset().insert(s.last()) =~= s.to_multiset());
        assert(inner.push(s.last()).to_multiset() =~= s.to_multiset().insert(x)) by {
            assert(inner.to_multiset() =~= s.drop_last().to_multiset().insert(x));
            assert(s.drop_last().to_multiset().insert(x).insert(s.last()) =~= s.drop_last()
                .to_multiset().insert(s.last()).insert(x));
        }
        if sorted_ts(s) {
            assert(sorted_ts(s.drop_last()));
            // every element of the inner insertion is an old element or x,
            // and all of those have timestamps at most s.last().ts
            let p = choose_position(s.drop_last(), x);
            lemma_insert_position(s.drop_last(), x, p);
            lemma_insert_by_ts_at(s.drop_last(), x, p);
            let spliced = s.drop_last().subrange(0, p) + seq![x] + s.drop_last().subrange(
                p,
                s.len() - 1,
            );
            assert forall|i: int, j: int|
                0 <= i < j < inner.push(s.last()).len() implies #[trigger] inner.push(
                s.last(),
            )[i].ts <= #[trigger] inner.push(s.last())[j].ts by {
                if j < inner.len() {
                    assert(inner[i].ts <= inner[j].ts);
                } else {
                    assert(inner[i] == spliced[i]);
                    assert(inner[i].ts <= s.last().ts);
                }
            }
        }
    }
}

/// The position at which `insert_by_ts` splices: the number of leading
/// elements whose timestamp is at most `x.ts`, counted from the end of
/// the trailing run of larger timestamps.
spec fn choose_position(s: Seq<TransferView>, x: TransferView) -> int
    decreases s.len(),
{
    if s.len() == 0 {
        0
    } else if s.last().ts <= x.ts {
        s.len() as int
    } else {
        choose_position(s.drop_last(), x)
    }
}

proof fn lemma_insert_position(s: Seq<TransferView>, x: TransferView, p: int)
    requires
        p == choose_position(s, x),
    ensures
        0 <= p <= s.len(),
        forall|q: int| p <= q < s.len() ==> #[trigger] s[q].ts > x.ts,
        p > 0 ==> s[p - 1].ts <= x.ts,
    decreases s.len(),
{
    if s.len() == 0 {
    } else if s.last().ts <= x.ts {
    } else {
        lemma_insert_position(s.drop_last(), x, p);
        assert forall|q: int| p <= q < s.len() implies #[trigger] s[q].ts > x.ts by {
            if q < s.len() - 1 {
                assert(s.drop_last()[q].ts > x.ts);
            } else {
                assert(s[q] == s.last());
            }
        }
        if p > 0 {
            assert(s[p - 1] == s.drop_last()[p - 1]);
        }
    }
}

/// What the sort guarantees: a permutation of the input, ordered by
/// timestamp, of the same length.
pub proof fn lemma_sort_by_ts_ensures(s: Seq<TransferView>)
    ensures
        sort_by_ts(s).len() == s.len(),
        sort_by_ts(s).to_multiset() =~= s.to_multiset(),
        sorted_ts(sort_by_ts(s)),
    decreases s.len(),
{
    broadcast use group_to_multiset_ensures;

    if s.len() == 0 {
    } else {
        lemma_sort_by_ts_ensures(s.drop_last());
        lemma_insert_by_ts_ensures(sort_by_ts(s.drop_last()), s.last());
        assert(s.drop_last().push(s.last()) =~= s);
        assert(s.drop_last().to_multiset().insert(s.last()) =~= s.to_multiset());
    }
}

/// Pairwise-distinct timestamps survive any permutation.
pub proof fn lemma_distinct_ts_permutation(a: Seq<TransferView>, b: Seq<TransferView>)
    requires
        a.to_multiset() == b.to_multiset(),
        distinct_ts(a),
    ensures
        distinct_ts(b),
{
    broadcast use group_to_multiset_ensures;

    assert forall|i: int, j: int|
        0 <= i < j < b.len() implies #[trigger] b[i].ts != #[trigger] b[j].ts by {
        if b[i].ts == b[j].ts {
            if b[i] == b[j] {
                // the shared value occurs at least twice in b, hence in a,
                // so a holds two positions with one timestamp
                let v = b[i];
                assert(b.remove(j).to_multiset() =~= b.to_multiset().remove(v));
                assert(b.remove(j)[i] == v);
                assert(b.remove(j).contains(v));
                assert(b.to_multiset().remove(v).count(v) > 0);
                assert(a.to_multiset().count(v) >= 2);
                assert(a.contains(v));
                let i1 = choose|k: int| 0 <= k < a.len() && a[k] == v;
                assert(a.remove(i1).to_multiset() =~= a.to_multiset().remove(v));
                assert(a.remove(i1).to_multiset().count(v) > 0);
                assert(a.remove(i1).contains(v));
                let i2 = choose|k: int| 0 <= k < a.remove(i1).len() && a.remove(i1)[k] == v;
                let i2b: int = if i2 < i1 {
                    i2
                } else {
                    i2 + 1
                };
                assert(a[i2b] == v);
                assert(a[i1].ts == a[i2b].ts);
                assert(false);
            } else {
                // two different values with one timestamp both occur in a
                assert(b.contains(b[i]));
                assert(b.contains(b[j]));
                assert(b.to_multiset().count(b[i]) > 0);
                assert(b.to_multiset().count(b[j]) > 0);
                assert(a.to_multiset().count(b[i]) > 0);
                assert(a.to_multiset().count(b[j]) > 0);
                assert(a.contains(b[i]));
                assert(a.contains(b[j]));
                let k1 = choose|k: int| 0 <= k < a.len() && a[k] == b[i];
                let k2 = choose|k: int| 0 <= k < a.len() && a[k] == b[j];
                assert(k1 != k2);
                assert(a[k1].ts == a[k2].ts);
                assert(false);
            }
        }
    }
}

/// Two timestamp-ordered permutations of one batch with pairwise-distinct
/// timestamps are the same sequence.
pub proof fn lemma_sorted_distinct_unique(x: Seq<TransferView>, y: Seq<TransferView>)
    requires
        sorted_ts(x),
        sorted_ts(y),
        distinct_ts(x),
        x.to_multiset() == y.to_multiset(),
    ensures
        x =~= y,
    decreases x.len(),
{
    broadcast use group_to_multiset_ensures;

    vstd::seq_lib::to_multiset_len(x);
    vstd::seq_lib::to_multiset_len(y);
    if x.len() == 0 {
    } else {
        assert(x.contains(x.first())) by {
            assert(x[0] == x.first());
        }
        assert(y.contains(y.first())) by {
            assert(y[0] == y.first());
        }
        assert(y.to_multiset().count(y.first()) > 0);
        assert(x.to_multiset().count(y.first()) > 0);
        assert(x.contains(y.first()));
        let i = choose|k: int| 0 <= k < x.len() && x[k] == y.first();
        assert(x.to_multiset().count(x.first()) > 0);
        assert(y.to_multiset().count(x.first()) > 0);
        assert(y.contains(x.first()));
        let j = choose|k: int| 0 <= k < y.len() && y[k] == x.first();
        assert(x.first().ts <= x[i].ts);
        assert(y.first().ts <= y[j].ts);
        assert(x.first().ts == y.first().ts);
        assert(i == 0) by {
            if i > 0 {
                assert(x[0].ts != x[i].ts);
            }
        }
        assert(x.first() == y.first());
        assert(x.drop_first().to_multiset() =~= x.to_multiset().remove(x.first())) by {
            assert(x.drop_first() =~= x.remove(0));
            assert(x.remove(0).to_multiset() =~= x.to_multiset().remove(x[0]));
        }
        assert(y.drop_first().to_multiset() =~= y.to_multiset().remove(y.first())) by {
            assert(y.drop_first() =~= y.remove(0));
            assert(y.remove(0).to_multiset() =~= y.to_multiset().remove(y[0]));
        }
        assert(sorted_ts(x.drop_first()) && distinct_ts(x.drop_first())) by {
            assert(forall|k: int|
                0 <= k < x.drop_first().len() ==> x.drop_first()[k] == x[k + 1]);
        }
        assert(sorted_ts(y.drop_first())) by {
            assert(forall|k: int|
                0 <= k < y.drop_first().len() ==> y.drop_first()[k] == y[k + 1]);
        }
        lemma_sorted_distinct_unique(x.drop_first(), y.drop_first());
        assert(x =~= seq![x.first()] + x.drop_first());
        assert(y =~= seq![y.first()] + y.drop_first());
    }
}

/// A field-for-field copy; spelled out so the verifier knows the copy's
/// view equals the original's.
pub(crate) fn clone_transfer(t: &Transfer) -> (r: Transfer)
    ensures
        r@ == t@,
{
    Transfer {
        ts: t.ts,
        from: t.from.clone(),
        to: t.to.clone(),
        amount: t.amount,
        usd_price: t.usd_price,
    }
}

/// Returns the batch in chronological order, equal timestamps kept in
/// batch order.
pub fn sort_transfers(transfers: &Vec<Transfer>) -> (r: Vec<Transfer>)
    ensures
        batch_view(r@) == sort_by_ts(batch_view(transfers@)),
{
    let ghost sv = batch_view(transfers@);
    let mut out: Vec<Transfer> = Vec::new();
    for i in 0..transfers.len()
        invariant
            batch_view(out@) =~= sort_by_ts(sv.take(i as int)),
            sv == batch_view(transfers@),
    {
        let t = clone_transfer(&transfers[i]);
        let mut p: usize = out.len();
        while p > 0 && out[p - 1].ts > t.ts
            invariant
                0 <= p <= out.len(),
                forall|q: int| p <= q < out.len() ==> #[trigger] out@[q].ts > t.ts,
                batch_view(out@) == sort_by_ts(sv.take(i as int)),
                t@ == sv[i as int],
                0 <= i < sv.len(),
            decreases p,
        {
            p = p - 1;
        }
        proof {
            let prev = batch_view(out@);
            assert(forall|q: int| p <= q < prev.len() ==> #[trigger] prev[q].ts > t@.ts);
            assert(p > 0 ==> prev[p as int - 1].ts <= t@.ts);
            lemma_insert_by_ts_at(prev, t@, p as int);
        }
        let ghost prev_out = out@;
        out.insert(p, t);
        proof {
            assert(batch_view(out@) =~= insert_by_ts(batch_view(prev_out), t@)) by {
                assert(out@ =~= prev_out.insert(p as int, t));
                assert(batch_view(out@) =~= batch_view(prev_out).subrange(0, p as int) + seq![t@]
                    + batch_view(prev_out).subrange(p as int, prev_out.len() as int));
            }
            assert(sv.take(i as int + 1).drop_last() =~= sv.take(i as int));
            assert(sv.take(i as int + 1).last() == sv[i as int]);
        }
    }
    proof {
        assert(sv.take(sv.len() as int) =~= sv);
    }
    out
}

} // verus!
