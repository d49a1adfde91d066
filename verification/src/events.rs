use vstd::prelude::*;

verus! {

/// The five actions a ledger event can carry.
///
/// Deposit and withdrawal bring their own amount; the dispute family
/// (dispute, chargeback, resolve) refers back to the amount of an earlier
/// deposit or withdrawal by transaction identifier.
#[derive(Debug, Copy, Clone, PartialEq, Eq, Structural)]
pub enum AccountActions {
    Withdrawal,
    Deposit,
    Dispute,
    ChargeBack,
    Resolve,
}

/// One ledger event: which transaction it names, what it does, whose account
/// it touches, and (for deposit/withdrawal only) the fixed-point amount.
#[derive(Debug, Copy, Clone)]
pub struct AccountEvent {
    pub transaction_id: i32,
    pub action_type: AccountActions,
    pub client_id: u16,
    pub amount: Option<u64>,
}

impl AccountEvent {
    /// The amount an event carries, with a missing amount read as zero.
    pub open spec fn carried_amount(self) -> u64 {
        match self.amount {
            Some(a) => a,
            None => 0,
        }
    }
}

} // verus!
