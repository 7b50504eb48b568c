//! A multi-currency balance ledger with an atomic, hash-locked swap protocol.
//!
//! Accounts hold free and reserved balances in a designated native currency
//! and in any number of other currencies. A currency router dispatches every
//! balance operation to the native book or to the per-currency asset books,
//! maintaining the accounting invariant that each currency's total issuance
//! equals the sum of its accounts' free and reserved balances. On top of the
//! router sits a commit-reveal atomic swap engine with timeout-based refund.

pub mod alist;
pub mod book;
pub mod builder;
pub mod currency;
pub mod dispatch;
pub mod laws;
pub mod merge;
pub mod pallet;
pub mod router;
pub mod swap;
pub mod types;

pub use types::{
    AccountId, Amount, Balance, BalanceStatus, BlockNumber, Config, CurrencyId, Error, Event,
    HashedProof, Lock, LockIdentifier, Origin, PendingSwap, SwapAction, WeightInfo,
};
