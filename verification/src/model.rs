//! Data model: transfers in, per-address statistics out.
//!
//! Amounts and prices are unsigned fixed-point integers in the smallest
//! accounting unit; balances are signed and may go negative, since a
//! batch is a ledger over an incomplete observation window, not a
//! solvency check.

use vstd::prelude::*;

verus! {

/// One token transfer: at `ts` seconds since the epoch, `from` sends
/// `amount` units to `to`, at a unit price of `usd_price`.
///
/// A batch is an unordered `Vec<Transfer>`; nothing requires
/// `(from, to, ts)` to be unique, and `from == to` is legal.
#[derive(Clone, Debug, PartialEq)]
pub struct Transfer {
    pub ts: u64,
    pub from: String,
    pub to: String,
    pub amount: u64,
    pub usd_price: u64,
}

/// Mathematical image of a [`Transfer`]: addresses as character sequences.
#[verifier::ext_equal]
pub struct TransferView {
    pub ts: u64,
    pub from: Seq<char>,
    pub to: Seq<char>,
    pub amount: u64,
    pub usd_price: u64,
}

impl View for Transfer {
    type V = TransferView;

    open spec fn view(&self) -> TransferView {
        TransferView {
            ts: self.ts,
            from: self.from@,
            to: self.to@,
            amount: self.amount,
            usd_price: self.usd_price,
        }
    }
}

/// The engine's precondition on a single record: amount and unit price
/// are positive. Zero-amount or zero-price transfers are rejected by the
/// upstream collaborator before a batch reaches the engine.
pub open spec fn valid_transfer(t: TransferView) -> bool {
    &&& t.amount > 0
    &&& t.usd_price > 0
}

/// Every record of the batch is valid.
pub open spec fn valid_batch(s: Seq<TransferView>) -> bool {
    forall|i: int| 0 <= i < s.len() ==> valid_transfer(#[trigger] s[i])
}

/// Statistics derived for one address.
///
/// `max_balance_per_window` holds one `(duration, peak)` pair per
/// configured window duration, in the order the durations were given.
#[derive(Clone, Debug, PartialEq)]
pub struct UserStats {
    pub address: String,
    pub total_volume: u128,
    pub avg_buy_price: u128,
    pub avg_sell_price: u128,
    pub max_balance: i128,
    pub max_balance_per_window: Vec<(u64, i128)>,
}

/// Mathematical image of a [`UserStats`] record.
#[verifier::ext_equal]
pub struct UserStatsView {
    pub address: Seq<char>,
    pub total_volume: int,
    pub avg_buy_price: int,
    pub avg_sell_price: int,
    pub max_balance: int,
    pub max_balance_per_window: Seq<(u64, int)>,
}

impl View for UserStats {
    type V = UserStatsView;

    open spec fn view(&self) -> UserStatsView {
        UserStatsView {
            address: self.address@,
            total_volume: self.total_volume as int,
            avg_buy_price: self.avg_buy_price as int,
            avg_sell_price: self.avg_sell_price as int,
            max_balance: self.max_balance as int,
            max_balance_per_window: self.max_balance_per_window@.map(
                |i: int, p: (u64, i128)| (p.0, p.1 as int),
            ),
        }
    }
}

/// Why a batch could not be computed. The engine fails the whole batch
/// on the first error; it never skips an address and continues.
#[derive(Clone, Copy, Debug, PartialEq, Eq, Structural)]
pub enum ComputationError {
    /// Some event timestamp plus some window duration does not fit the
    /// timestamp arithmetic.
    InvalidTimestamp,
    /// A running balance or a weighted price sum left its machine range.
    NumericOverflow,
}

} // verus!
