//! Replays an ordered stream of ledger events (deposit, withdrawal, dispute,
//! resolve, chargeback) against per-client account balances.
//!
//! Amounts are fixed-point integers counting 1/10000ths of a currency unit;
//! every transition is a guarded, all-or-nothing update that silently declines
//! when its precondition fails, so an arbitrary event stream is always
//! processed to the end.

pub mod account;
pub mod codec;
pub mod events;
pub mod processing;
