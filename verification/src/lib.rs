//! Per-address statistics over a batch of token transfers.
//!
//! A batch of transfers is sorted chronologically ([`sort`]) and turned
//! into a per-address balance ledger ([`ledger`]); from the ledger the
//! engine ([`metrics`]) derives total traded volume, volume-weighted
//! average buy and sell prices ([`average`]), the all-time peak balance
//! and the peak balance within trailing windows of configurable
//! duration ([`window`]). The [`aggregate`] module holds the
//! command-and-event shape of the transfer store, and [`storage`] the
//! handles that carry its database client.

pub mod aggregate;
pub mod average;
pub mod ledger;
pub mod metrics;
pub mod model;
pub mod sort;
pub mod storage;
pub mod window;

pub use metrics::{calculate_user_stats, compute_statistics};
pub use model::{ComputationError, Transfer, UserStats};
