use vstd::prelude::*;

use std::collections::BTreeMap;

use vstd::std_specs::cmp::OrdSpec;
use vstd::std_specs::iter::IteratorSpec;

use crate::account::ClientAccount;
use crate::events::{AccountActions, AccountEvent};

verus! {

broadcast use vstd::std_specs::btree::group_btree_axioms, vstd::laws_cmp::group_laws_cmp;

/// True exactly for the dispute family — dispute, chargeback, resolve —
/// whose effective amount must be looked up in the transaction ledger.
pub open spec fn spec_needs_lookup(account_action: AccountActions) -> bool {
    ||| account_action == AccountActions::ChargeBack
    ||| account_action == AccountActions::Resolve
    ||| account_action == AccountActions::Dispute
}

/// The processing context: per-client accounts, and the ledger mapping each
/// amount-bearing transaction identifier to its original amount.
pub struct AccountProcessing {
    pub accounts: BTreeMap<u16, ClientAccount>,
    pub transaction_amount: BTreeMap<i32, u64>,
}

impl AccountProcessing {
    /// Every stored account is well formed and keyed by its own identifier.
    pub open spec fn inv(self) -> bool {
        forall|client_id: u16| self.accounts@.contains_key(client_id) ==> {
            &&& (#[trigger] self.accounts@[client_id]).wf()
            &&& self.accounts@[client_id].id == client_id
        }
    }

    /// The account an event addresses: the stored one, or a fresh one with
    /// zero balances for a client identifier not seen before.
    pub open spec fn spec_account_for(
        accounts: Map<u16, ClientAccount>,
        client_id: u16,
    ) -> ClientAccount {
        if accounts.contains_key(client_id) {
            accounts[client_id]
        } else {
            ClientAccount { id: client_id, available: 0, held: 0, locked: false }
        }
    }

    /// A dispute-family event whose transaction identifier the ledger has
    /// never recorded; such an event must be skipped.
    pub open spec fn spec_is_invalid_lookup(ledger: Map<i32, u64>, event: AccountEvent) -> bool {
        spec_needs_lookup(event.action_type) && !ledger.contains_key(event.transaction_id)
    }

    /// What `process_event` does to the accounts: the addressed account is
    /// looked up or created, a dispute-family event has its amount replaced
    /// by the ledger's (or is dropped, account creation aside, when the
    /// ledger has none), and the selected transition is applied.
    pub open spec fn spec_process(
        accounts: Map<u16, ClientAccount>,
        ledger: Map<i32, u64>,
        event: AccountEvent,
    ) -> Map<u16, ClientAccount> {
        let account = Self::spec_account_for(accounts, event.client_id);
        if spec_needs_lookup(event.action_type) {
            if ledger.contains_key(event.transaction_id) {
                accounts.insert(
                    event.client_id,
                    account.spec_apply(event.action_type, ledger[event.transaction_id]),
                )
            } else {
                accounts.insert(event.client_id, account)
            }
        } else {
            accounts.insert(
                event.client_id,
                account.spec_apply(event.action_type, event.carried_amount()),
            )
        }
    }

    /// One replay step on the pair (accounts, ledger): an unknown-transaction
    /// dispute-family event is skipped whole; any other event is processed,
    /// and a deposit or withdrawal then records its amount in the ledger,
    /// whether or not the transition inside was applied.
    pub open spec fn spec_consume(
        accounts: Map<u16, ClientAccount>,
        ledger: Map<i32, u64>,
        event: AccountEvent,
    ) -> (Map<u16, ClientAccount>, Map<i32, u64>) {
        if Self::spec_is_invalid_lookup(ledger, event) {
            (accounts, ledger)
        } else {
            let processed = Self::spec_process(accounts, ledger, event);
            if !spec_needs_lookup(event.action_type) {
                (processed, ledger.insert(event.transaction_id, event.carried_amount()))
            } else {
                (processed, ledger)
            }
        }
    }

    /// The replay of a whole event sequence, step by step in source order.
    pub open spec fn spec_replay(
        accounts: Map<u16, ClientAccount>,
        ledger: Map<i32, u64>,
        events: Seq<AccountEvent>,
    ) -> (Map<u16, ClientAccount>, Map<i32, u64>)
        decreases events.len(),
    {
        if events.len() == 0 {
            (accounts, ledger)
        } else {
            let stepped = Self::spec_consume(accounts, ledger, events[0]);
            Self::spec_replay(stepped.0, stepped.1, events.skip(1))
        }
    }

    pub fn event_needs_transaction_lookup(account_action: AccountActions) -> (needs: bool)
        ensures
            needs == spec_needs_lookup(account_action),
    {
        account_action == AccountActions::ChargeBack || account_action == AccountActions::Resolve
            || account_action == AccountActions::Dispute
    }

    pub fn dispute_action_with_invalid_transaction(
        &mut self,
        account_event: &AccountEvent,
    ) -> (invalid: bool)
        ensures
            invalid == Self::spec_is_invalid_lookup(
                old(self).transaction_amount@,
                *account_event,
            ),
            final(self).accounts@ == old(self).accounts@,
            final(self).transaction_amount@ == old(self).transaction_amount@,
    {
        Self::event_needs_transaction_lookup(account_event.action_type)
            && !self.transaction_amount.contains_key(&account_event.transaction_id)
    }

    /// Selects and runs the transition the event's action calls for, with the
    /// event's own amount (a missing amount is read as zero).
    pub fn apply(client_account: &mut ClientAccount, event: &AccountEvent)
        requires
            old(client_account).wf(),
        ensures
            *final(client_account) == old(client_account).spec_apply(
                event.action_type,
                event.carried_amount(),
            ),
            final(client_account).wf(),
            final(client_account).id == old(client_account).id,
    {
        match event.action_type {
            AccountActions::Withdrawal => client_account.withdraw(event.amount.unwrap_or(0)),
            AccountActions::Deposit => client_account.deposit(event.amount.unwrap_or(0)),
            AccountActions::Dispute => client_account.dispute(event.amount.unwrap_or(0)),
            AccountActions::ChargeBack => client_account.charge_back(event.amount.unwrap_or(0)),
            AccountActions::Resolve => client_account.resolve(event.amount.unwrap_or(0)),
        }
    }

    /// Routes one event: looks up or creates the client's account, gives a
    /// dispute-family event the amount of its original transaction (dropping
    /// it when the ledger has none), and applies the transition. The ledger
    /// itself is never changed here.
    pub fn process_event(&mut self, event: &AccountEvent)
        requires
            old(self).inv(),
        ensures
            final(self).inv(),
            final(self).accounts@ == Self::spec_process(
                old(self).accounts@,
                old(self).transaction_amount@,
                *event,
            ),
            final(self).transaction_amount@ == old(self).transaction_amount@,
    {
        let mut client_account: ClientAccount = match self.accounts.get(&event.client_id) {
            Some(stored) => *stored,
            None => ClientAccount::new(event.client_id, 0),
        };

        if Self::event_needs_transaction_lookup(event.action_type) {
            // a dispute-family event without a ledger entry should already
            // have been filtered by the caller; re-checked defensively, with
            // the addressed account still created
            match self.transaction_amount.get(&event.transaction_id) {
                None => {
                    self.accounts.insert(event.client_id, client_account);
                },
                Some(amount) => {
                    let looked_up = AccountEvent {
                        transaction_id: event.transaction_id,
                        action_type: event.action_type,
                        client_id: event.client_id,
                        amount: Some(*amount),
                    };
                    Self::apply(&mut client_account, &looked_up);
                    self.accounts.insert(event.client_id, client_account);
                },
            }
        } else {
            Self::apply(&mut client_account, event);
            self.accounts.insert(event.client_id, client_account);
        }
    }

    /// One step of the replay loop: skip a dispute-family event whose
    /// transaction is unknown; otherwise process the event, and record the
    /// amount of a deposit or withdrawal in the transaction ledger.
    pub fn consume(&mut self, event: &AccountEvent)
        requires
            old(self).inv(),
        ensures
            final(self).inv(),
            (final(self).accounts@, final(self).transaction_amount@) == Self::spec_consume(
                old(self).accounts@,
                old(self).transaction_amount@,
                *event,
            ),
    {
        if self.dispute_action_with_invalid_transaction(event) {
            return;
        }

        self.process_event(event);

        if !Self::event_needs_transaction_lookup(event.action_type) {
            self.transaction_amount.insert(event.transaction_id, event.amount.unwrap_or(0));
        }
    }

    /// The final snapshot's rows: every account once, in ascending client
    /// identifier order (the store's natural key order).
    pub fn snapshot(&self) -> (rows: Vec<ClientAccount>)
        requires
            self.inv(),
        ensures
            rows@.len() == self.accounts@.dom().len(),
            forall|i: int| 0 <= i < rows@.len() ==> {
                &&& self.accounts@.contains_key((#[trigger] rows@[i]).id)
                &&& self.accounts@[rows@[i].id] == rows@[i]
            },
            forall|k: u16| #[trigger] self.accounts@.contains_key(k) ==> exists|i: int|
                0 <= i < rows@.len() && rows@[i].id == k,
            forall|i: int, j: int| 0 <= i < j < rows@.len() ==> (#[trigger] rows@[i]).id < (
            #[trigger] rows@[j]).id,
    {
        let ghost entries = vstd::std_specs::btree::spec_btree_map_iter(
            &self.accounts,
        ).remaining();
        let mut rows: Vec<ClientAccount> = Vec::new();
        for pair in it: self.accounts.iter()
            invariant
                it.seq() == entries,
                rows@.len() == it.index(),
                forall|i: int| 0 <= i < rows@.len() ==> rows@[i] == *(#[trigger] entries[i]).1,
        {
            rows.push(*pair.1);
        }
        proof {
            assert(rows@.len() == entries.len());
            let ids = entries.map_values(|kv: (&u16, &ClientAccount)| *kv.0);
            assert forall|i: int| 0 <= i < rows@.len() implies (#[trigger] rows@[i]).id
                == ids[i] by {
                assert(self.accounts@.contains_key(*entries[i].0));
                assert(rows@[i] == *entries[i].1);
                assert(ids[i] == *entries[i].0);
            }
            assert forall|i: int, j: int| 0 <= i < j < rows@.len() implies (
            #[trigger] rows@[i]).id < (#[trigger] rows@[j]).id by {
                assert(ids[i].cmp_spec(&ids[j]) is Less);
            }
            assert forall|k: u16| #[trigger] self.accounts@.contains_key(k) implies exists|i: int|
                0 <= i < rows@.len() && rows@[i].id == k by {
                assert(entries.contains((&k, &self.accounts@[k])));
                let witness = choose|i: int|
                    0 <= i < entries.len() && entries[i] == (&k, &self.accounts@[k]);
                assert(rows@[witness].id == k);
            }
        }
        rows
    }

    /// Replays a whole event sequence in order.
    pub fn replay(&mut self, events: &Vec<AccountEvent>)
        requires
            old(self).inv(),
        ensures
            final(self).inv(),
            (final(self).accounts@, final(self).transaction_amount@) == Self::spec_replay(
                old(self).accounts@,
                old(self).transaction_amount@,
                events@,
            ),
    {
        let ghost initial_accounts = self.accounts@;
        let ghost initial_ledger = self.transaction_amount@;
        let mut i: usize = 0;
        proof {
            assert(events@.skip(0) =~= events@);
        }
        while i < events.len()
            invariant
                self.inv(),
                i <= events@.len(),
                Self::spec_replay(initial_accounts, initial_ledger, events@) == Self::spec_replay(
                    self.accounts@,
                    self.transaction_amount@,
                    events@.skip(i as int),
                ),
            decreases events@.len() - i,
        {
            proof {
                assert(events@.skip(i as int)[0] == events@[i as int]);
                assert(events@.skip(i as int).skip(1) =~= events@.skip(i as int + 1));
            }
            self.consume(&events[i]);
            i = i + 1;
        }
    }
}

impl Default for AccountProcessing {
    /// An empty context: no accounts, no recorded transactions.
    fn default() -> (result: Self)
        ensures
            result.accounts@ == Map::<u16, ClientAccount>::empty(),
            result.transaction_amount@ == Map::<i32, u64>::empty(),
            result.inv(),
    {
        AccountProcessing { accounts: BTreeMap::new(), transaction_amount: BTreeMap::new() }
    }
}

/// A dispute-family event naming a transaction identifier the ledger has
/// never seen as a deposit or withdrawal changes nothing: no account is
/// created or mutated, and the ledger stays as it was.
pub proof fn lemma_unknown_transaction_is_noop(
    accounts: Map<u16, ClientAccount>,
    ledger: Map<i32, u64>,
    event: AccountEvent,
)
    requires
        AccountProcessing::spec_is_invalid_lookup(ledger, event),
    ensures
        AccountProcessing::spec_consume(accounts, ledger, event) == (accounts, ledger),
{
}

} // verus!
