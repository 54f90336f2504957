//! The per-address balance ledger.
//!
//! A chronologically sorted batch induces, for every address that occurs
//! as sender or receiver: a balance history (the running net balance
//! after each transfer touching the address), a buy list (one
//! `(unit_price, amount)` record per transfer received) and a sell list
//! (one per transfer sent). The specification functions define these
//! over the sorted sequence; [`build_ledger`] computes them all in one
//! pass, failing only when a running balance leaves the `i128` range.

use vstd::prelude::*;

use crate::model::{ComputationError, Transfer, TransferView};
use crate::sort::{batch_view, sorted_ts};

verus! {

/// Net effect of one transfer on one address's balance: credited when
/// received, debited when sent, zero for a self-transfer.
pub open spec fn delta(t: TransferView, a: Seq<char>) -> int {
    (if t.to == a {
        t.amount as int
    } else {
        0
    }) - (if t.from == a {
        t.amount as int
    } else {
        0
    })
}

/// The transfer touches the address as sender or receiver.
pub open spec fn touches(t: TransferView, a: Seq<char>) -> bool {
    t.from == a || t.to == a
}

/// Running net balance of `a` after the first `k` transfers of `s`.
pub open spec fn balance_after(s: Seq<TransferView>, a: Seq<char>, k: int) -> int
    decreases k,
{
    if k <= 0 {
        0
    } else {
        balance_after(s, a, k - 1) + delta(s[k - 1], a)
    }
}

/// Balance history of `a` over the first `k` transfers: one
/// `(timestamp, balance after the transfer)` event per touch; a
/// self-transfer touches twice (a debit and a credit event) and so
/// contributes two equal events.
pub open spec fn history_of_prefix(s: Seq<TransferView>, a: Seq<char>, k: int) -> Seq<(u64, int)>
    decreases k,
{
    if k <= 0 {
        Seq::empty()
    } else {
        let h = history_of_prefix(s, a, k - 1);
        let t = s[k - 1];
        let ev = (t.ts, balance_after(s, a, k));
        if t.from == a && t.to == a {
            h.push(ev).push(ev)
        } else if touches(t, a) {
            h.push(ev)
        } else {
            h
        }
    }
}

/// Balance history of `a` over the whole batch.
pub open spec fn history_of(s: Seq<TransferView>, a: Seq<char>) -> Seq<(u64, int)> {
    history_of_prefix(s, a, s.len() as int)
}

/// Buy list of `a` over the first `k` transfers.
pub open spec fn buys_of_prefix(s: Seq<TransferView>, a: Seq<char>, k: int) -> Seq<(u64, u64)>
    decreases k,
{
    if k <= 0 {
        Seq::empty()
    } else {
        let p = buys_of_prefix(s, a, k - 1);
        if s[k - 1].to == a {
            p.push((s[k - 1].usd_price, s[k - 1].amount))
        } else {
            p
        }
    }
}

/// Buy list of `a` over the whole batch.
pub open spec fn buys_of(s: Seq<TransferView>, a: Seq<char>) -> Seq<(u64, u64)> {
    buys_of_prefix(s, a, s.len() as int)
}

/// Sell list of `a` over the first `k` transfers.
pub open spec fn sells_of_prefix(s: Seq<TransferView>, a: Seq<char>, k: int) -> Seq<(u64, u64)>
    decreases k,
{
    if k <= 0 {
        Seq::empty()
    } else {
        let p = sells_of_prefix(s, a, k - 1);
        if s[k - 1].from == a {
            p.push((s[k - 1].usd_price, s[k - 1].amount))
        } else {
            p
        }
    }
}

/// Sell list of `a` over the whole batch.
pub open spec fn sells_of(s: Seq<TransferView>, a: Seq<char>) -> Seq<(u64, u64)> {
    sells_of_prefix(s, a, s.len() as int)
}

/// Appends `a` unless already present.
pub open spec fn push_new(addrs: Seq<Seq<char>>, a: Seq<char>) -> Seq<Seq<char>> {
    if addrs.contains(a) {
        addrs
    } else {
        addrs.push(a)
    }
}

/// All addresses touched by the first `k` transfers, in first-touch
/// order, senders before receivers.
pub open spec fn addrs_of_prefix(s: Seq<TransferView>, k: int) -> Seq<Seq<char>>
    decreases k,
{
    if k <= 0 {
        Seq::empty()
    } else {
        push_new(push_new(addrs_of_prefix(s, k - 1), s[k - 1].from), s[k - 1].to)
    }
}

/// All addresses of the batch, in first-touch order.
pub open spec fn addrs_of(s: Seq<TransferView>) -> Seq<Seq<char>> {
    addrs_of_prefix(s, s.len() as int)
}

/// Every running balance of every address stays within `i128`.
pub open spec fn balances_fit(s: Seq<TransferView>) -> bool {
    forall|a: Seq<char>, k: int|
        0 <= k <= s.len() ==> i128::MIN <= #[trigger] balance_after(s, a, k) <= i128::MAX
}

/// The address list never repeats an address.
pub proof fn lemma_addrs_distinct(s: Seq<TransferView>, k: int)
    requires
        0 <= k <= s.len(),
    ensures
        addrs_of_prefix(s, k).no_duplicates(),
    decreases k,
{
    if k > 0 {
        lemma_addrs_distinct(s, k - 1);
    }
}

/// The address list grows monotonically with the prefix.
pub proof fn lemma_addrs_grow(s: Seq<TransferView>, k1: int, k2: int)
    requires
        0 <= k1 <= k2 <= s.len(),
    ensures
        addrs_of_prefix(s, k1).is_prefix_of(addrs_of_prefix(s, k2)),
        forall|a: Seq<char>|
            addrs_of_prefix(s, k1).contains(a) ==> addrs_of_prefix(s, k2).contains(a),
    decreases k2 - k1,
{
    if k1 < k2 {
        lemma_addrs_grow(s, k1, k2 - 1);
    }
}

proof fn lemma_push_new_keeps(addrs: Seq<Seq<char>>, b: Seq<char>, a: Seq<char>)
    requires
        addrs.contains(a),
    ensures
        push_new(addrs, b).contains(a),
{
    if !addrs.contains(b) {
        let i = choose|i: int| 0 <= i < addrs.len() && addrs[i] == a;
        assert(addrs.push(b)[i] == a);
    }
}

proof fn lemma_push_new_adds(addrs: Seq<Seq<char>>, b: Seq<char>)
    ensures
        push_new(addrs, b).contains(b),
{
    if !addrs.contains(b) {
        assert(addrs.push(b)[addrs.len() as int] == b);
    }
}

/// An address outside the address list has no balance movement, no
/// history and no flow records over that prefix.
pub proof fn lemma_untouched(s: Seq<TransferView>, k: int, a: Seq<char>)
    requires
        0 <= k <= s.len(),
        !addrs_of_prefix(s, k).contains(a),
    ensures
        balance_after(s, a, k) == 0,
        history_of_prefix(s, a, k) =~= Seq::<(u64, int)>::empty(),
        buys_of_prefix(s, a, k) =~= Seq::<(u64, u64)>::empty(),
        sells_of_prefix(s, a, k) =~= Seq::<(u64, u64)>::empty(),
    decreases k,
{
    if k > 0 {
        lemma_addrs_grow(s, k - 1, k);
        assert(!addrs_of_prefix(s, k - 1).contains(a));
        lemma_untouched(s, k - 1, a);
        lemma_push_new_adds(addrs_of_prefix(s, k - 1), s[k - 1].from);
        lemma_push_new_keeps(
            push_new(addrs_of_prefix(s, k - 1), s[k - 1].from),
            s[k - 1].to,
            s[k - 1].from,
        );
        lemma_push_new_adds(push_new(addrs_of_prefix(s, k - 1), s[k - 1].from), s[k - 1].to);
        assert(s[k - 1].from != a && s[k - 1].to != a);
    }
}

/// In a sorted batch, every history event carries the timestamp of some
/// transfer of the prefix, and the events are in timestamp order.
pub proof fn lemma_history_sorted(s: Seq<TransferView>, a: Seq<char>, k: int)
    requires
        0 <= k <= s.len(),
        sorted_ts(s),
    ensures
        forall|e: int|
            0 <= e < history_of_prefix(s, a, k).len() ==> exists|j: int|
                0 <= j < k && (#[trigger] history_of_prefix(s, a, k)[e]).0 == s[j].ts,
        forall|e1: int, e2: int|
            0 <= e1 < e2 < history_of_prefix(s, a, k).len() ==> (#[trigger] history_of_prefix(
                s,
                a,
                k,
            )[e1]).0 <= (#[trigger] history_of_prefix(s, a, k)[e2]).0,
    decreases k,
{
    if k > 0 {
        lemma_history_sorted(s, a, k - 1);
        let h = history_of_prefix(s, a, k - 1);
        let hk = history_of_prefix(s, a, k);
        assert forall|e: int| 0 <= e < hk.len() implies exists|j: int|
            0 <= j < k && (#[trigger] hk[e]).0 == s[j].ts by {
            if e < h.len() {
                assert(hk[e] == h[e]);
                let j = choose|j: int| 0 <= j < k - 1 && h[e].0 == s[j].ts;
                assert(0 <= j < k && hk[e].0 == s[j].ts);
            } else {
                assert(hk[e].0 == s[k - 1].ts);
            }
        }
        assert forall|e1: int, e2: int|
            0 <= e1 < e2 < hk.len() implies (#[trigger] hk[e1]).0 <= (#[trigger] hk[e2]).0 by {
            if e2 < h.len() {
                assert(hk[e1] == h[e1] && hk[e2] == h[e2]);
            } else {
                assert(hk[e2].0 == s[k - 1].ts);
                if e1 < h.len() {
                    assert(hk[e1] == h[e1]);
                    let j = choose|j: int| 0 <= j < k - 1 && h[e1].0 == s[j].ts;
                    assert(s[j].ts <= s[k - 1].ts);
                } else {
                    assert(hk[e1].0 == s[k - 1].ts);
                }
            }
        }
    }
}

} // verus!

verus! {

/// Views of an address list.
pub open spec fn addr_views(addrs: Seq<String>) -> Seq<Seq<char>> {
    addrs.map_values(|a: String| a@)
}

/// Mathematical image of a stored balance history.
pub open spec fn hist_view(h: Seq<(u64, i128)>) -> Seq<(u64, int)> {
    h.map_values(|p: (u64, i128)| (p.0, p.1 as int))
}

/// One batch's ledger: the address list in first-touch order and, per
/// address, its balance history and flow lists, all index-aligned.
pub struct Ledger {
    pub addrs: Vec<String>,
    pub histories: Vec<Vec<(u64, i128)>>,
    pub buys: Vec<Vec<(u64, u64)>>,
    pub sells: Vec<Vec<(u64, u64)>>,
}

impl Ledger {
    /// The ledger is exactly what the sorted batch `s` induces.
    pub open spec fn wf(self, s: Seq<TransferView>) -> bool {
        &&& addr_views(self.addrs@) == addrs_of(s)
        &&& self.histories@.len() == self.addrs@.len()
        &&& self.buys@.len() == self.addrs@.len()
        &&& self.sells@.len() == self.addrs@.len()
        &&& forall|i: int|
            0 <= i < self.addrs@.len() ==> hist_view(#[trigger] self.histories@[i]@) == history_of(
                s,
                addrs_of(s)[i],
            )
        &&& forall|i: int|
            0 <= i < self.addrs@.len() ==> (#[trigger] self.buys@[i])@ == buys_of(s, addrs_of(s)[i])
        &&& forall|i: int|
            0 <= i < self.addrs@.len() ==> (#[trigger] self.sells@[i])@ == sells_of(
                s,
                addrs_of(s)[i],
            )
    }
}

/// First position of `a` in the list, if any.
fn find_index(addrs: &Vec<String>, a: &String) -> (r: Option<usize>)
    ensures
        match r {
            Some(i) => i < addrs@.len() && addrs@[i as int]@ == a@,
            None => forall|i: int| 0 <= i < addrs@.len() ==> (#[trigger] addrs@[i])@ != a@,
        },
{
    let mut i: usize = 0;
    while i < addrs.len()
        invariant
            i <= addrs@.len(),
            forall|j: int| 0 <= j < i ==> (#[trigger] addrs@[j])@ != a@,
        decreases addrs@.len() - i,
    {
        if addrs[i] == *a {
            return Some(i);
        }
        i = i + 1;
    }
    None
}

/// Index of `a` in the running ledger state, adding a fresh entry (zero
/// balance, empty history and flow lists) when the address is new.
fn locate_or_add(
    addrs: &mut Vec<String>,
    bals: &mut Vec<i128>,
    hists: &mut Vec<Vec<(u64, i128)>>,
    buys: &mut Vec<Vec<(u64, u64)>>,
    sells: &mut Vec<Vec<(u64, u64)>>,
    a: &String,
) -> (idx: usize)
    requires
        old(bals)@.len() == old(addrs)@.len(),
        old(hists)@.len() == old(addrs)@.len(),
        old(buys)@.len() == old(addrs)@.len(),
        old(sells)@.len() == old(addrs)@.len(),
    ensures
        final(bals)@.len() == final(addrs)@.len(),
        final(hists)@.len() == final(addrs)@.len(),
        final(buys)@.len() == final(addrs)@.len(),
        final(sells)@.len() == final(addrs)@.len(),
        addr_views(final(addrs)@) =~= push_new(addr_views(old(addrs)@), a@),
        idx < final(addrs)@.len(),
        addr_views(final(addrs)@)[idx as int] == a@,
        addr_views(old(addrs)@).contains(a@) ==> {
            &&& *final(addrs) == *old(addrs)
            &&& *final(bals) == *old(bals)
            &&& *final(hists) == *old(hists)
            &&& *final(buys) == *old(buys)
            &&& *final(sells) == *old(sells)
        },
        !addr_views(old(addrs)@).contains(a@) ==> {
            &&& idx == old(addrs)@.len()
            &&& addr_views(final(addrs)@) =~= addr_views(old(addrs)@).push(a@)
            &&& final(bals)@ =~= old(bals)@.push(0i128)
            &&& final(hists)@.len() == old(hists)@.len() + 1
            &&& final(hists)@.last()@ =~= Seq::<(u64, i128)>::empty()
            &&& forall|i: int|
                0 <= i < old(hists)@.len() ==> final(hists)@[i] == #[trigger] old(hists)@[i]
            &&& final(buys)@.len() == old(buys)@.len() + 1
            &&& final(buys)@.last()@ =~= Seq::<(u64, u64)>::empty()
            &&& forall|i: int|
                0 <= i < old(buys)@.len() ==> final(buys)@[i] == #[trigger] old(buys)@[i]
            &&& final(sells)@.len() == old(sells)@.len() + 1
            &&& final(sells)@.last()@ =~= Seq::<(u64, u64)>::empty()
            &&& forall|i: int|
                0 <= i < old(sells)@.len() ==> final(sells)@[i] == #[trigger] old(sells)@[i]
        },
{
    match find_index(addrs, a) {
        Some(i) => {
            proof {
                assert(addr_views(addrs@)[i as int] == a@);
                assert(addr_views(addrs@).contains(a@));
            }
            i
        },
        None => {
            proof {
                assert forall|i: int|
                    0 <= i < addr_views(addrs@).len() implies #[trigger] addr_views(addrs@)[i]
                    != a@ by {
                    assert(addrs@[i]@ != a@);
                }
                assert(!addr_views(addrs@).contains(a@));
            }
            let idx = addrs.len();
            addrs.push(a.clone());
            bals.push(0i128);
            hists.push(Vec::new());
            buys.push(Vec::new());
            sells.push(Vec::new());
            proof {
                assert(addr_views(addrs@) =~= addr_views(old(addrs)@).push(a@));
            }
            idx
        },
    }
}

} // verus!

verus! {

/// Entry `i` of the running ledger state matches what the first `k`
/// transfers induce for its address.
pub open spec fn entry_ok(
    s: Seq<TransferView>,
    av: Seq<Seq<char>>,
    bals: Seq<i128>,
    hists: Seq<Vec<(u64, i128)>>,
    buys: Seq<Vec<(u64, u64)>>,
    sells: Seq<Vec<(u64, u64)>>,
    k: int,
    i: int,
) -> bool {
    &&& bals[i] as int == balance_after(s, av[i], k)
    &&& hist_view(hists[i]@) == history_of_prefix(s, av[i], k)
    &&& buys[i]@ == buys_of_prefix(s, av[i], k)
    &&& sells[i]@ == sells_of_prefix(s, av[i], k)
}

/// All per-index ledger facts for a prefix of length `k`, shared by the
/// construction loop's invariant and its step proof.
pub open spec fn ledger_state_ok(
    s: Seq<TransferView>,
    av: Seq<Seq<char>>,
    bals: Seq<i128>,
    hists: Seq<Vec<(u64, i128)>>,
    buys: Seq<Vec<(u64, u64)>>,
    sells: Seq<Vec<(u64, u64)>>,
    k: int,
) -> bool {
    &&& bals.len() == av.len()
    &&& hists.len() == av.len()
    &&& buys.len() == av.len()
    &&& sells.len() == av.len()
    &&& forall|i: int|
        0 <= i < av.len() ==> #[trigger] entry_ok(s, av, bals, hists, buys, sells, k, i)
}

/// Builds the full ledger of a chronologically sorted batch in one pass.
///
/// Fails with [`ComputationError::NumericOverflow`] exactly when some
/// running balance leaves the `i128` range; otherwise the returned
/// ledger is precisely what the specification functions name.
pub fn build_ledger(sorted: &Vec<Transfer>) -> (r: Result<Ledger, ComputationError>)
    ensures
        ({
            let s = batch_view(sorted@);
            match r {
                Ok(l) => balances_fit(s) && l.wf(s),
                Err(e) => e == ComputationError::NumericOverflow && !balances_fit(s),
            }
        }),
{
    let ghost s = batch_view(sorted@);
    let mut addrs: Vec<String> = Vec::new();
    let mut bals: Vec<i128> = Vec::new();
    let mut hists: Vec<Vec<(u64, i128)>> = Vec::new();
    let mut buys: Vec<Vec<(u64, u64)>> = Vec::new();
    let mut sells: Vec<Vec<(u64, u64)>> = Vec::new();

    let n = sorted.len();
    assert(s.len() == n);
    for k in 0..n
        invariant
            s == batch_view(sorted@),
            n == sorted@.len(),
            s.len() == n,
            addr_views(addrs@) == addrs_of_prefix(s, k as int),
            ledger_state_ok(s, addr_views(addrs@), bals@, hists@, buys@, sells@, k as int),
            forall|a: Seq<char>, j: int|
                0 <= j <= k as int ==> i128::MIN <= #[trigger] balance_after(s, a, j) <= i128::MAX,
    {
        let ghost ki = k as int;
        proof {
            assert(s[ki] == sorted@[ki]@);
        }
        let ghost av0 = addr_views(addrs@);
        let ghost bals0 = bals@;
        let ghost hists0 = hists@;
        let ghost buys0 = buys@;
        let ghost sells0 = sells@;
        let fi = locate_or_add(
            &mut addrs,
            &mut bals,
            &mut hists,
            &mut buys,
            &mut sells,
            &sorted[k].from,
        );
        proof {
            let av1 = addr_views(addrs@);
            assert(av1 =~= push_new(av0, s[ki].from));
            if !av0.contains(s[ki].from) {
                lemma_untouched(s, ki, s[ki].from);
            }
            assert forall|i: int| 0 <= i < av1.len() implies #[trigger] entry_ok(
                s,
                av1,
                bals@,
                hists@,
                buys@,
                sells@,
                ki,
                i,
            ) by {
                if i < av0.len() {
                    assert(entry_ok(s, av0, bals0, hists0, buys0, sells0, ki, i));
                    assert(av1[i] == av0[i]);
                    assert(bals@[i] == bals0[i]);
                    assert(hists@[i] == hists0[i]);
                    assert(buys@[i] == buys0[i]);
                    assert(sells@[i] == sells0[i]);
                } else {
                    assert(!av0.contains(s[ki].from));
                    assert(av1[i] == s[ki].from);
                    assert(bals@[i] == 0i128);
                    assert(hists@[i]@ =~= Seq::<(u64, i128)>::empty());
                    assert(hist_view(hists@[i]@) =~= Seq::<(u64, int)>::empty());
                    assert(buys@[i]@ =~= Seq::<(u64, u64)>::empty());
                    assert(sells@[i]@ =~= Seq::<(u64, u64)>::empty());
                }
            }
            assert(ledger_state_ok(s, av1, bals@, hists@, buys@, sells@, ki));
        }
        let ghost av1 = addr_views(addrs@);
        let ghost bals1 = bals@;
        let ghost hists1 = hists@;
        let ghost buys1 = buys@;
        let ghost sells1 = sells@;
        let ti = locate_or_add(
            &mut addrs,
            &mut bals,
            &mut hists,
            &mut buys,
            &mut sells,
            &sorted[k].to,
        );
        proof {
            let av2 = addr_views(addrs@);
            assert(av2 =~= push_new(av1, s[ki].to));
            assert(av2 =~= addrs_of_prefix(s, ki + 1));
            if !av1.contains(s[ki].to) {
                if av0.contains(s[ki].to) {
                    lemma_push_new_keeps(av0, s[ki].from, s[ki].to);
                    assert(false);
                }
                lemma_untouched(s, ki, s[ki].to);
            }
            assert forall|i: int| 0 <= i < av2.len() implies #[trigger] entry_ok(
                s,
                av2,
                bals@,
                hists@,
                buys@,
                sells@,
                ki,
                i,
            ) by {
                if i < av1.len() {
                    assert(entry_ok(s, av1, bals1, hists1, buys1, sells1, ki, i));
                    assert(av2[i] == av1[i]);
                    assert(bals@[i] == bals1[i]);
                    assert(hists@[i] == hists1[i]);
                    assert(buys@[i] == buys1[i]);
                    assert(sells@[i] == sells1[i]);
                } else {
                    assert(!av1.contains(s[ki].to));
                    assert(av2[i] == s[ki].to);
                    assert(bals@[i] == 0i128);
                    assert(hists@[i]@ =~= Seq::<(u64, i128)>::empty());
                    assert(hist_view(hists@[i]@) =~= Seq::<(u64, int)>::empty());
                    assert(buys@[i]@ =~= Seq::<(u64, u64)>::empty());
                    assert(sells@[i]@ =~= Seq::<(u64, u64)>::empty());
                }
            }
            assert(ledger_state_ok(s, av2, bals@, hists@, buys@, sells@, ki));
            lemma_addrs_distinct(s, ki + 1);
        }
        let ghost av2 = addr_views(addrs@);
        let ghost bals2 = bals@;
        let ghost hists2 = hists@;
        let ghost buys2 = buys@;
        let ghost sells2 = sells@;
        let t_ts = sorted[k].ts;
        let t_amount = sorted[k].amount;
        let t_price = sorted[k].usd_price;
        proof {
            assert(t_ts == s[ki].ts && t_amount == s[ki].amount && t_price == s[ki].usd_price);
            assert(av2[fi as int] == s[ki].from);
            assert(av2[ti as int] == s[ki].to);
            assert(av2.no_duplicates());
        }
        if fi == ti {
            // self-transfer: no balance movement, but a debit and a
            // credit event and both flow records are registered
            proof {
                assert(s[ki].from == s[ki].to);
                assert(delta(s[ki], s[ki].from) == 0);
            }
            let b = bals[fi];
            hists[fi].push((t_ts, b));
            hists[fi].push((t_ts, b));
            buys[fi].push((t_price, t_amount));
            sells[fi].push((t_price, t_amount));
            proof {
                let a_self = s[ki].from;
                let fii = fi as int;
                assert(entry_ok(s, av2, bals2, hists2, buys2, sells2, ki, fii));
                assert(b == bals2[fii]);
                assert(balance_after(s, a_self, ki + 1) == b as int);
                assert(hists@[fii]@ =~= hists2[fii]@.push((t_ts, b)).push((t_ts, b)));
                assert(hist_view(hists@[fii]@) =~= hist_view(hists2[fii]@).push(
                    (t_ts, b as int),
                ).push((t_ts, b as int)));
                assert(hist_view(hists@[fii]@) =~= history_of_prefix(s, a_self, ki + 1));
                assert(buys@[fii]@ =~= buys2[fii]@.push((t_price, t_amount)));
                assert(buys@[fii]@ =~= buys_of_prefix(s, a_self, ki + 1));
                assert(sells@[fii]@ =~= sells2[fii]@.push((t_price, t_amount)));
                assert(sells@[fii]@ =~= sells_of_prefix(s, a_self, ki + 1));
                assert forall|i: int| 0 <= i < av2.len() implies #[trigger] entry_ok(
                    s,
                    av2,
                    bals@,
                    hists@,
                    buys@,
                    sells@,
                    ki + 1,
                    i,
                ) by {
                    assert(entry_ok(s, av2, bals2, hists2, buys2, sells2, ki, i));
                    if i != fii {
                        assert(av2[i] != a_self);
                        assert(!touches(s[ki], av2[i]));
                        assert(delta(s[ki], av2[i]) == 0);
                        assert(bals@[i] == bals2[i]);
                        assert(hists@[i] == hists2[i]);
                        assert(buys@[i] == buys2[i]);
                        assert(sells@[i] == sells2[i]);
                    } else {
                        assert(bals@[i] == bals2[i]);
                    }
                }
                assert(ledger_state_ok(s, av2, bals@, hists@, buys@, sells@, ki + 1));
                assert forall|a: Seq<char>, j: int|
                    0 <= j <= ki + 1 implies i128::MIN <= #[trigger] balance_after(s, a, j)
                    <= i128::MAX by {
                    if j == ki + 1 {
                        assert(balance_after(s, a, j) == balance_after(s, a, ki) + delta(
                            s[ki],
                            a,
                        ));
                        assert(delta(s[ki], a) == 0);
                    }
                }
            }
        } else {
            proof {
                assert(s[ki].from != s[ki].to);
                assert(delta(s[ki], s[ki].from) == -(s[ki].amount as int));
                assert(delta(s[ki], s[ki].to) == s[ki].amount as int);
            }
            let amt_i = t_amount as i128;
            let bf = bals[fi];
            proof {
                assert(entry_ok(s, av2, bals2, hists2, buys2, sells2, ki, fi as int));
                assert(entry_ok(s, av2, bals2, hists2, buys2, sells2, ki, ti as int));
                assert(bf as int == balance_after(s, s[ki].from, ki));
            }
            if bf < i128::MIN + amt_i {
                proof {
                    assert(bf as int == balance_after(s, s[ki].from, ki));
                    assert(balance_after(s, s[ki].from, ki + 1) < i128::MIN);
                    assert(0 <= ki + 1 <= s.len());
                    assert(!balances_fit(s));
                }
                return Err(ComputationError::NumericOverflow);
            }
            let nbf = bf - amt_i;
            bals[fi] = nbf;
            let bt = bals[ti];
            proof {
                assert(bt == bals2[ti as int]);
                assert(bt as int == balance_after(s, s[ki].to, ki));
            }
            if bt > i128::MAX - amt_i {
                proof {
                    assert(bt as int == balance_after(s, s[ki].to, ki));
                    assert(balance_after(s, s[ki].to, ki + 1) > i128::MAX);
                    assert(0 <= ki + 1 <= s.len());
                    assert(!balances_fit(s));
                }
                return Err(ComputationError::NumericOverflow);
            }
            let nbt = bt + amt_i;
            bals[ti] = nbt;
            hists[fi].push((t_ts, nbf));
            hists[ti].push((t_ts, nbt));
            buys[ti].push((t_price, t_amount));
            sells[fi].push((t_price, t_amount));
            proof {
                let af = s[ki].from;
                let at = s[ki].to;
                let fii = fi as int;
                let tii = ti as int;
                assert(entry_ok(s, av2, bals2, hists2, buys2, sells2, ki, fii));
                assert(entry_ok(s, av2, bals2, hists2, buys2, sells2, ki, tii));
                assert(bf as int == balance_after(s, af, ki));
                assert(bt as int == balance_after(s, at, ki));
                assert(balance_after(s, af, ki + 1) == nbf as int);
                assert(balance_after(s, at, ki + 1) == nbt as int);
                assert(bals@ =~= bals2.update(fii, nbf).update(tii, nbt));
                assert(hists@[fii]@ =~= hists2[fii]@.push((t_ts, nbf)));
                assert(hists@[tii]@ =~= hists2[tii]@.push((t_ts, nbt)));
                assert(hist_view(hists@[fii]@) =~= hist_view(hists2[fii]@).push(
                    (t_ts, nbf as int),
                ));
                assert(hist_view(hists@[tii]@) =~= hist_view(hists2[tii]@).push(
                    (t_ts, nbt as int),
                ));
                assert(hist_view(hists@[fii]@) =~= history_of_prefix(s, af, ki + 1));
                assert(hist_view(hists@[tii]@) =~= history_of_prefix(s, at, ki + 1));
                assert(buys@[tii]@ =~= buys2[tii]@.push((t_price, t_amount)));
                assert(buys@[tii]@ =~= buys_of_prefix(s, at, ki + 1));
                assert(sells@[fii]@ =~= sells2[fii]@.push((t_price, t_amount)));
                assert(sells@[fii]@ =~= sells_of_prefix(s, af, ki + 1));
                assert(buys@[fii]@ =~= buys_of_prefix(s, af, ki + 1));
                assert(sells@[tii]@ =~= sells_of_prefix(s, at, ki + 1));
                assert forall|i: int| 0 <= i < av2.len() implies #[trigger] entry_ok(
                    s,
                    av2,
                    bals@,
                    hists@,
                    buys@,
                    sells@,
                    ki + 1,
                    i,
                ) by {
                    assert(entry_ok(s, av2, bals2, hists2, buys2, sells2, ki, i));
                    if i != fii && i != tii {
                        assert(av2[i] != af && av2[i] != at);
                        assert(!touches(s[ki], av2[i]));
                        assert(delta(s[ki], av2[i]) == 0);
                        assert(bals@[i] == bals2[i]);
                        assert(hists@[i] == hists2[i]);
                        assert(buys@[i] == buys2[i]);
                        assert(sells@[i] == sells2[i]);
                    }
                }
                assert(ledger_state_ok(s, av2, bals@, hists@, buys@, sells@, ki + 1));
                assert forall|a: Seq<char>, j: int|
                    0 <= j <= ki + 1 implies i128::MIN <= #[trigger] balance_after(s, a, j)
                    <= i128::MAX by {
                    if j == ki + 1 {
                        assert(balance_after(s, a, j) == balance_after(s, a, ki) + delta(
                            s[ki],
                            a,
                        ));
                        if a == af {
                            assert(balance_after(s, a, j) == nbf as int);
                        } else if a == at {
                            assert(balance_after(s, a, j) == nbt as int);
                        } else {
                            assert(delta(s[ki], a) == 0);
                        }
                    }
                }
            }
        }
    }
    proof {
        assert(addr_views(addrs@) == addrs_of(s));
        let av = addr_views(addrs@);
        assert forall|i: int|
            0 <= i < addrs@.len() implies hist_view(#[trigger] hists@[i]@) == history_of(
            s,
            addrs_of(s)[i],
        ) by {
            assert(entry_ok(s, av, bals@, hists@, buys@, sells@, s.len() as int, i));
        }
        assert forall|i: int|
            0 <= i < addrs@.len() implies (#[trigger] buys@[i])@ == buys_of(s, addrs_of(s)[i]) by {
            assert(entry_ok(s, av, bals@, hists@, buys@, sells@, s.len() as int, i));
        }
        assert forall|i: int|
            0 <= i < addrs@.len() implies (#[trigger] sells@[i])@ == sells_of(
            s,
            addrs_of(s)[i],
        ) by {
            assert(entry_ok(s, av, bals@, hists@, buys@, sells@, s.len() as int, i));
        }
    }
    Ok(Ledger { addrs, histories: hists, buys, sells })
}

} // verus!

verus! {

/// In a valid batch every flow record of every address carries a
/// positive unit price (and a positive amount).
pub proof fn lemma_flows_valid(s: Seq<TransferView>, a: Seq<char>, k: int)
    requires
        crate::model::valid_batch(s),
        0 <= k <= s.len(),
    ensures
        crate::average::prices_positive(buys_of_prefix(s, a, k)),
        crate::average::prices_positive(sells_of_prefix(s, a, k)),
    decreases k,
{
    if k > 0 {
        lemma_flows_valid(s, a, k - 1);
        assert(crate::model::valid_transfer(s[k - 1]));
    }
}

} // verus!
