//! The engine, the transactions it consumes and the ledgers it keeps.
//!
//! A ledger is kept for each client. It records the deposits and withdrawals
//! that went through, so that a later dispute can refer to them, and holds
//! the client's balance.
use vstd::prelude::*;
use vstd::std_specs::iter::IteratorSpec;

pub mod amount;
pub mod laws;
pub mod ledger;
pub mod record;

use std::collections::HashMap;

use amount::Amount;
use ledger::{BalanceView, ClientBalance, ClientLedger, LedgerError, LedgerView, Rejection};

verus! {

/// Identifies a client, and with it an account.
pub type ClientId = u16;

/// Identifies a transaction among those of one client.
pub type TransactionId = u32;

/// What a transaction does to an account.
///
/// Only deposits and withdrawals carry an amount. A dispute, a resolution
/// and a chargeback name an earlier transaction of the same client and take
/// their amount from it.
#[derive(Clone, Copy, Debug, PartialEq, Eq, Structural)]
pub enum TransactionType {
    Deposit { amount: Amount },
    Withdrawal { amount: Amount },
    Dispute,
    Resolve,
    ChargeBack,
}

/// One event to apply: the client it concerns, its transaction id, and what
/// it does.
#[derive(Clone, Copy, Debug, PartialEq, Eq, Structural)]
pub struct Transaction {
    pub client: ClientId,
    pub tx: TransactionId,
    pub txn_type: TransactionType,
}

impl TransactionType {
    /// Whether the amount, where there is one, is not below zero. Records
    /// are read into transactions of which this holds; the engine takes any
    /// transaction as it stands.
    pub open spec fn well_formed(self) -> bool {
        match self {
            TransactionType::Deposit { amount } => amount@ >= 0,
            TransactionType::Withdrawal { amount } => amount@ >= 0,
            _ => true,
        }
    }

    /// Whether the amount, where there is one, is not below zero.
    pub fn is_well_formed(&self) -> (well_formed: bool)
        ensures
            well_formed == self.well_formed(),
    {
        match self {
            TransactionType::Deposit { amount } => !amount.is_negative(),
            TransactionType::Withdrawal { amount } => !amount.is_negative(),
            _ => true,
        }
    }
}

impl Transaction {
    /// The transaction `id` of `client`, of the given type.
    pub fn new(
        client: ClientId,
        id: TransactionId,
        transaction_type: TransactionType,
    ) -> (transaction: Self)
        ensures
            transaction == (Transaction { client, tx: id, txn_type: transaction_type }),
    {
        Transaction { client, tx: id, txn_type: transaction_type }
    }
}

/// The state of the engine as plain values: the ledger of every client seen
/// so far.
pub ghost struct EngineView {
    pub ledgers: Map<ClientId, LedgerView>,
}

impl EngineView {
    /// The engine before any transaction.
    pub open spec fn empty() -> EngineView {
        EngineView { ledgers: Map::empty() }
    }

    /// The ledger that a transaction of `client` meets: the one the engine
    /// keeps, or a fresh one for a client it has not seen.
    pub open spec fn ledger_of(self, client: ClientId) -> LedgerView {
        if self.ledgers.contains_key(client) {
            self.ledgers[client]
        } else {
            LedgerView::fresh(client)
        }
    }

    /// Whether `transaction` goes through, and if not, why.
    pub open spec fn outcome(self, transaction: Transaction) -> Result<(), Rejection> {
        match self.ledger_of(transaction.client).apply(transaction) {
            Ok(_) => Ok(()),
            Err(rejection) => Err(rejection),
        }
    }

    /// The engine after `transaction`. The client has a ledger from now on,
    /// whether the transaction went through or not; a refused transaction
    /// changes nothing else.
    pub open spec fn apply(self, transaction: Transaction) -> EngineView {
        let next = self.ledger_of(transaction.client).step(transaction);
        EngineView { ledgers: self.ledgers.insert(transaction.client, next) }
    }

    /// The engine after the transactions of `transactions`, applied in
    /// order. A refused transaction does not stop the ones after it.
    pub open spec fn replay(self, transactions: Seq<Transaction>) -> EngineView
        decreases transactions.len(),
    {
        if transactions.len() == 0 {
            self
        } else {
            self.replay(transactions.drop_last()).apply(transactions.last())
        }
    }

    /// The transactions of `transactions` that are refused when they are
    /// applied in order, each as its position in the sequence and the reason.
    pub open spec fn refusals(self, transactions: Seq<Transaction>) -> Seq<(int, Rejection)>
        decreases transactions.len(),
    {
        if transactions.len() == 0 {
            Seq::empty()
        } else {
            let earlier = transactions.drop_last();
            match self.replay(earlier).outcome(transactions.last()) {
                Ok(_) => self.refusals(earlier),
                Err(rejection) => self.refusals(earlier).push((transactions.len() - 1, rejection)),
            }
        }
    }

    /// Whether `balances` lists the balance of every client exactly once, in
    /// whatever order.
    pub open spec fn listed_by(self, balances: Seq<BalanceView>) -> bool {
        &&& balances.len() == self.ledgers.dom().len()
        &&& forall|i: int|
            0 <= i < balances.len() ==> self.ledgers.contains_key(#[trigger] balances[i].client)
                && self.ledgers[balances[i].client].balance == balances[i]
        &&& forall|i: int, j: int|
            0 <= i < j < balances.len() ==> #[trigger] balances[i].client
                != #[trigger] balances[j].client
        &&& forall|client: ClientId| #[trigger]
            self.ledgers.contains_key(client) ==> exists|i: int|
                0 <= i < balances.len() && #[trigger] balances[i].client == client
    }
}

/// Whether `refused` holds the refusals of `expected`, one for one.
pub open spec fn shows(
    refused: Seq<(usize, LedgerError)>,
    expected: Seq<(int, Rejection)>,
) -> bool {
    &&& refused.len() == expected.len()
    &&& forall|i: int|
        0 <= i < refused.len() ==> (#[trigger] refused[i]).0 == expected[i].0 && refused[i].1@
            == expected[i].1
}

/// Keeps the accounts of all clients and applies transactions to them.
#[derive(Debug)]
pub struct TransactionEngine {
    ledger: HashMap<ClientId, ClientLedger>,
}

impl View for TransactionEngine {
    type V = EngineView;

    closed spec fn view(&self) -> EngineView {
        EngineView { ledgers: self.ledger@.map_values(|ledger: ClientLedger| ledger@) }
    }
}

impl TransactionEngine {
    /// Each ledger is kept under the id of the client whose balance it holds.
    #[verifier::type_invariant]
    spec fn keyed_by_client(self) -> bool {
        forall|client: ClientId| #[trigger]
            self.ledger@.contains_key(client) ==> self.ledger@[client]@.balance.client == client
    }

    /// An engine that has seen no transaction.
    pub fn new() -> (engine: Self)
        ensures
            engine@ == EngineView::empty(),
    {
        let engine = TransactionEngine { ledger: HashMap::new() };
        assert(engine@.ledgers =~= Map::empty());
        engine
    }

    /// Applies a transaction to the account of its client, which is opened
    /// with an empty balance if the client is new.
    ///
    /// The result is that of the client's ledger. A refused transaction
    /// leaves every balance as it was. The ledger is always there when it is
    /// needed, so [`LedgerError::CustomerMissing`] never comes back.
    pub fn apply(&mut self, transaction: Transaction) -> (result: Result<(), LedgerError>)
        ensures
            final(self)@ == old(self)@.apply(transaction),
            match old(self)@.outcome(transaction) {
                Ok(_) => result is Ok,
                Err(rejection) => result matches Err(error) && error@ == rejection,
            },
            !(result matches Err(LedgerError::CustomerMissing(_))),
    {
        proof {
            use_type_invariant(&*self);
        }
        let mut ledgers = HashMap::new();
        std::mem::swap(&mut ledgers, &mut self.ledger);
        let client_ledger = ledgers.entry(transaction.client).or_insert(
            ClientLedger::new(transaction.client),
        );
        let result = client_ledger.apply_transaction(&transaction);
        self.ledger = ledgers;
        assert(self@.ledgers =~= old(self)@.apply(transaction).ledgers);
        result
    }

    /// Applies the transactions of `transactions` in order and returns those
    /// that were refused, each as its position and the error. A refusal does
    /// not stop the transactions after it.
    pub fn replay(&mut self, transactions: &Vec<Transaction>) -> (refused: Vec<
        (usize, LedgerError),
    >)
        ensures
            final(self)@ == old(self)@.replay(transactions@),
            shows(refused@, old(self)@.refusals(transactions@)),
    {
        let mut refused: Vec<(usize, LedgerError)> = Vec::new();
        let ghost start = self@;
        let mut at: usize = 0;
        while at < transactions.len()
            invariant
                at <= transactions.len(),
                self@ == start.replay(transactions@.take(at as int)),
                shows(refused@, start.refusals(transactions@.take(at as int))),
            decreases transactions.len() - at,
        {
            let transaction = transactions[at];
            assert(transactions@.take(at + 1).drop_last() =~= transactions@.take(at as int));
            match self.apply(transaction) {
                Ok(_) => {},
                Err(error) => {
                    refused.push((at, error));
                },
            }
            at = at + 1;
        }
        assert(transactions@.take(at as int) =~= transactions@);
        refused
    }

    /// The balances of all clients, each once, in no particular order: the
    /// order is that in which the underlying hash map hands them out.
    pub fn iter(&self) -> (balances: ClientIterator)
        ensures
            self@.listed_by(balances@),
    {
        proof {
            use_type_invariant(self);
        }
        let mut balances: Vec<ClientBalance> = Vec::new();
        let entries = self.ledger.iter();
        let ghost listed = entries.remaining();
        for entry in it: entries
            invariant
                it.seq() == listed,
                balances@.len() == it.index(),
                forall|i: int|
                    0 <= i < balances@.len() ==> (#[trigger] balances@[i])@
                        == (*listed[i].1)@.balance,
        {
            let (_, ledger) = entry;
            balances.push(*ledger.get_balance());
        }
        let listing = ClientIterator { balances, next: 0 };
        proof {
            let ledgers = self.ledger@;
            assert(listing@.len() == listed.len());
            assert(self@.ledgers.dom() =~= ledgers.dom());
            assert forall|i: int| 0 <= i < listing@.len() implies self@.ledgers.contains_key(
                #[trigger] listing@[i].client,
            ) && self@.ledgers[listing@[i].client].balance == listing@[i] by {
                assert(ledgers.contains_key(*listed[i].0));
            }
            assert forall|i: int, j: int|
                0 <= i < j < listing@.len() implies #[trigger] listing@[i].client
                != #[trigger] listing@[j].client by {
                assert(ledgers.contains_key(*listed[i].0));
                assert(ledgers.contains_key(*listed[j].0));
                if *listed[i].0 == *listed[j].0 {
                    assert(listed[i] == listed[j]);
                }
            }
            assert forall|client: ClientId| #[trigger]
                self@.ledgers.contains_key(client) implies exists|i: int|
                0 <= i < listing@.len() && #[trigger] listing@[i].client == client by {
                assert(ledgers.contains_key(client));
                let i = listed.index_of((&client, &ledgers[client]));
                assert(listing@[i].client == client);
            }
        }
        listing
    }

    /// The ledger of `client`, if the engine has seen the client.
    pub fn get_ledger(&self, client: ClientId) -> (ledger: Option<&ClientLedger>)
        ensures
            match ledger {
                Some(ledger) => self@.ledgers.contains_key(client) && self@.ledgers[client]
                    == ledger@,
                None => !self@.ledgers.contains_key(client),
            },
    {
        self.ledger.get(&client)
    }
}

/// Hands out the balances of all clients, one at a time.
#[derive(Debug)]
pub struct ClientIterator {
    balances: Vec<ClientBalance>,
    next: usize,
}

impl View for ClientIterator {
    type V = Seq<BalanceView>;

    /// The balances still to come, in the order in which they will come.
    closed spec fn view(&self) -> Seq<BalanceView> {
        Seq::new(
            (self.balances@.len() - self.next) as nat,
            |i: int| self.balances@[self.next + i]@,
        )
    }
}

impl ClientIterator {
    /// What has been handed out is no more than there is.
    #[verifier::type_invariant]
    spec fn within(self) -> bool {
        self.next <= self.balances@.len()
    }

    /// The next balance, or `None` when all have been handed out.
    pub fn next(&mut self) -> (balance: Option<ClientBalance>)
        ensures
            match balance {
                Some(balance) => old(self)@.len() > 0 && balance@ == old(self)@[0] && final(self)@
                    == old(self)@.drop_first(),
                None => old(self)@.len() == 0 && final(self)@ == old(self)@,
            },
    {
        proof {
            use_type_invariant(&*self);
        }
        if self.next < self.balances.len() {
            let balance = self.balances[self.next];
            self.next = self.next + 1;
            assert(self@ =~= old(self)@.drop_first());
            Some(balance)
        } else {
            None
        }
    }
}

} // verus!
