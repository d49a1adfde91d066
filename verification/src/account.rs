use vstd::prelude::*;
use vstd::string::StringExecFns;

use crate::codec::{amount_to_string, spec_amount_chars, spec_uint_chars, uint_to_string};
use crate::events::AccountActions;

verus! {

/// The text of a boolean, as the snapshot prints it.
pub open spec fn spec_bool_chars(b: bool) -> Seq<char> {
    if b {
        seq!['t', 'r', 'u', 'e']
    } else {
        seq!['f', 'a', 'l', 's', 'e']
    }
}

/// One snapshot row: identifier, available, held, total and lock flag,
/// comma-separated, with every amount carrying four decimal places.
pub open spec fn spec_csv_line(a: ClientAccount) -> Seq<char> {
    spec_uint_chars(a.id as nat) + seq![','] + spec_amount_chars(a.available) + seq![',']
        + spec_amount_chars(a.held) + seq![','] + spec_amount_chars(
        (a.available + a.held) as u64,
    ) + seq![','] + spec_bool_chars(a.locked)
}

/// One client's balances: funds available for use, funds held pending
/// dispute resolution, and whether the account is locked by a chargeback.
#[derive(Debug, Copy, Clone, PartialEq, Eq, Structural)]
pub struct ClientAccount {
    pub id: u16,
    pub available: u64,
    pub held: u64,
    pub locked: bool,
}

impl ClientAccount {
    /// Well-formed: the total (available + held) fits in a u64, so the total
    /// can always be computed and funds can move between the two buckets
    /// without overflow. Freshly created accounts satisfy this and every
    /// transition preserves it.
    pub open spec fn wf(self) -> bool {
        self.available + self.held <= u64::MAX
    }

    /// Deposit: declined when the account is locked or when the new total
    /// would not fit in a u64; otherwise credits `available`.
    pub open spec fn spec_deposit(self, amount: u64) -> ClientAccount {
        if self.locked || self.available + self.held + amount > u64::MAX {
            self
        } else {
            ClientAccount { available: (self.available + amount) as u64, ..self }
        }
    }

    /// Withdrawal: declined when the account is locked or when the amount
    /// exceeds `available`; otherwise debits `available`.
    pub open spec fn spec_withdraw(self, amount: u64) -> ClientAccount {
        if self.locked || amount > self.available {
            self
        } else {
            ClientAccount { available: (self.available - amount) as u64, ..self }
        }
    }

    /// Dispute: declined when the amount exceeds `available`; otherwise moves
    /// the amount from `available` to `held`. A lock does not block it.
    pub open spec fn spec_dispute(self, amount: u64) -> ClientAccount {
        if amount > self.available {
            self
        } else {
            ClientAccount {
                available: (self.available - amount) as u64,
                held: (self.held + amount) as u64,
                ..self
            }
        }
    }

    /// Resolve: declined when nothing is held or the amount exceeds `held`;
    /// otherwise moves the amount back from `held` to `available` and clears
    /// the lock unconditionally.
    pub open spec fn spec_resolve(self, amount: u64) -> ClientAccount {
        if self.held == 0 || self.held < amount {
            self
        } else {
            ClientAccount {
                available: (self.available + amount) as u64,
                held: (self.held - amount) as u64,
                locked: false,
                ..self
            }
        }
    }

    /// Chargeback: declined when nothing is held or the amount exceeds
    /// `held`; otherwise removes the amount from `held` and locks the
    /// account.
    pub open spec fn spec_charge_back(self, amount: u64) -> ClientAccount {
        if self.held == 0 || self.held < amount {
            self
        } else {
            ClientAccount { held: (self.held - amount) as u64, locked: true, ..self }
        }
    }

    /// The transition an action selects, on a given account and amount.
    pub open spec fn spec_apply(self, action: AccountActions, amount: u64) -> ClientAccount {
        match action {
            AccountActions::Withdrawal => self.spec_withdraw(amount),
            AccountActions::Deposit => self.spec_deposit(amount),
            AccountActions::Dispute => self.spec_dispute(amount),
            AccountActions::ChargeBack => self.spec_charge_back(amount),
            AccountActions::Resolve => self.spec_resolve(amount),
        }
    }

    pub fn new(id: u16, deposit: u64) -> (account: ClientAccount)
        ensures
            account == (ClientAccount { id: id, available: deposit, held: 0, locked: false }),
            account.wf(),
    {
        ClientAccount { id, available: deposit, held: 0, locked: false }
    }

    pub fn deposit(&mut self, amount: u64)
        requires
            old(self).wf(),
        ensures
            *final(self) == old(self).spec_deposit(amount),
            final(self).wf(),
            old(self).locked ==> *final(self) == *old(self),
    {
        if self.locked {
            return;
        }

        if amount > u64::MAX - self.available - self.held {
            return;
        }

        self.available = self.available + amount;
    }

    pub fn withdraw(&mut self, amount: u64)
        ensures
            *final(self) == old(self).spec_withdraw(amount),
            old(self).locked ==> *final(self) == *old(self),
            amount > old(self).available ==> *final(self) == *old(self),
            old(self).wf() ==> final(self).wf(),
    {
        if self.locked {
            return;
        }

        if amount > self.available {
            return;
        }

        self.available = self.available - amount;
    }

    pub fn dispute(&mut self, amount: u64)
        requires
            old(self).wf(),
        ensures
            *final(self) == old(self).spec_dispute(amount),
            final(self).wf(),
            final(self).locked == old(self).locked,
    {
        if amount > self.available {
            return;
        }

        self.available = self.available - amount;
        self.held = self.held + amount;
    }

    pub fn resolve(&mut self, amount: u64)
        requires
            old(self).wf(),
        ensures
            *final(self) == old(self).spec_resolve(amount),
            final(self).wf(),
    {
        if self.held == 0 || self.held < amount {
            return;
        }

        self.held = self.held - amount;
        self.available = self.available + amount;
        self.locked = false;
    }

    pub fn charge_back(&mut self, amount: u64)
        ensures
            *final(self) == old(self).spec_charge_back(amount),
            old(self).wf() ==> final(self).wf(),
    {
        if self.held == 0 || self.held < amount {
            return;
        }

        self.held = self.held - amount;
        self.locked = true;
    }

    /// Renders the account as its snapshot row.
    pub fn csv_line(&self) -> (line: String)
        requires
            self.wf(),
        ensures
            line@ == spec_csv_line(*self),
    {
        let mut line = uint_to_string(self.id as u64);
        line.append(",");
        line.append(amount_to_string(self.available).as_str());
        line.append(",");
        line.append(amount_to_string(self.held).as_str());
        line.append(",");
        line.append(amount_to_string(self.available + self.held).as_str());
        line.append(",");
        if self.locked {
            line.append("true");
        } else {
            line.append("false");
        }
        proof {
            reveal_strlit(",");
            reveal_strlit("true");
            reveal_strlit("false");
            assert(","@ =~= seq![',']);
            assert("true"@ =~= seq!['t', 'r', 'u', 'e']);
            assert("false"@ =~= seq!['f', 'a', 'l', 's', 'e']);
            assert(line@ =~= spec_csv_line(*self));
        }
        line
    }
}

/// Every transition keeps `available` and `held` within a u64 total; with
/// both fields unsigned, balances can never go negative either.
pub proof fn lemma_transitions_preserve_wf(a: ClientAccount, action: AccountActions, amount: u64)
    requires
        a.wf(),
    ensures
        a.spec_apply(action, amount).wf(),
{
}

/// A dispute is permitted even on a locked account: whether it applies
/// depends only on the amount and `available`, and it never touches the lock.
pub proof fn lemma_dispute_ignores_lock(a: ClientAccount, amount: u64)
    requires
        a.wf(),
        amount <= a.available,
    ensures
        a.spec_dispute(amount).available == a.available - amount,
        a.spec_dispute(amount).held == a.held + amount,
        a.spec_dispute(amount).locked == a.locked,
{
}

/// Money moves between the two buckets but is neither created nor destroyed:
/// a dispute and a resolve leave the account's total untouched, whether or
/// not they take effect.
pub proof fn lemma_dispute_resolve_conserve_total(a: ClientAccount, amount: u64)
    requires
        a.wf(),
    ensures
        a.spec_dispute(amount).available + a.spec_dispute(amount).held == a.available + a.held,
        a.spec_resolve(amount).available + a.spec_resolve(amount).held == a.available + a.held,
{
}

/// Dispute then resolve on the same amount restores `available` and `held`
/// to their pre-dispute values. When the resolve takes effect (some money is
/// held) it also clears the lock, whether or not the account was locked
/// before; in the degenerate run (amount zero on an account holding nothing)
/// the resolve is declined and the lock is untouched.
pub proof fn lemma_dispute_then_resolve(a: ClientAccount, amount: u64)
    requires
        a.wf(),
        amount <= a.available,
    ensures
        a.spec_dispute(amount).spec_resolve(amount).available == a.available,
        a.spec_dispute(amount).spec_resolve(amount).held == a.held,
        a.spec_dispute(amount).spec_resolve(amount).id == a.id,
        a.held + amount > 0 ==> !a.spec_dispute(amount).spec_resolve(amount).locked,
        a.held + amount == 0 ==> a.spec_dispute(amount).spec_resolve(amount).locked == a.locked,
{
}

/// Dispute then chargeback on the same amount: relative to the pre-dispute
/// account, `held` is back where it started (the dispute's credit is undone
/// by the chargeback's debit), `available` keeps only the dispute's debit,
/// and the account ends locked.
pub proof fn lemma_dispute_then_charge_back(a: ClientAccount, amount: u64)
    requires
        a.wf(),
        amount <= a.available,
        a.held + amount > 0,
    ensures
        a.spec_dispute(amount).spec_charge_back(amount).available == a.available - amount,
        a.spec_dispute(amount).spec_charge_back(amount).held == a.held,
        a.spec_dispute(amount).spec_charge_back(amount).id == a.id,
        a.spec_dispute(amount).spec_charge_back(amount).locked,
{
}

} // verus!
