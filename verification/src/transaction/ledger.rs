//! The balance of one client and the ledger that the engine keeps for it.
//!
//! | Field | Description |
//! |-|-|
//! | client | the id of the client |
//! | available | what the client can withdraw |
//! | held | what is frozen while a dispute is open |
//! | locked | set by a chargeback, for good |
//! | total | available plus held |
use vstd::prelude::*;
use vstd::string::*;

use std::collections::HashMap;

use crate::text::{decimal_digits, push_decimal};

use super::amount::Amount;
use super::{ClientId, Transaction, TransactionId, TransactionType};

verus! {

/// Why an operation on a balance was refused, with amounts as plain numbers
/// of ten-thousandths.
pub ghost enum Rejection {
    /// The account is locked.
    AccountLocked,
    /// A withdrawal asked for more than is available.
    InsufficientFunds { available: int, requested: int },
    /// A resolution or chargeback asked for more than is held.
    InsufficientHeld { held: int, requested: int },
    /// No ledger exists for the client.
    CustomerMissing(ClientId),
    /// The operation would leave a balance that cannot be represented.
    Overflow,
}

/// Why the engine refused a transaction.
///
/// A refused transaction changes no balance.
#[derive(Clone, Copy, Debug, PartialEq, Eq, Structural)]
pub enum LedgerError {
    /// The account is locked; nothing can be applied to it any more.
    AccountLocked,
    /// A withdrawal asked for more than is available.
    InsufficientFunds { available: Amount, requested: Amount },
    /// A resolution or chargeback asked for more than is held.
    InsufficientHeld { held: Amount, requested: Amount },
    /// No ledger exists for the client. The engine creates ledgers on demand
    /// and never reports this.
    CustomerMissing(ClientId),
    /// The operation would leave a balance that cannot be represented.
    Overflow,
}

impl View for LedgerError {
    type V = Rejection;

    open spec fn view(&self) -> Rejection {
        match *self {
            LedgerError::AccountLocked => Rejection::AccountLocked,
            LedgerError::InsufficientFunds { available, requested } => {
                Rejection::InsufficientFunds { available: available@, requested: requested@ }
            },
            LedgerError::InsufficientHeld { held, requested } => {
                Rejection::InsufficientHeld { held: held@, requested: requested@ }
            },
            LedgerError::CustomerMissing(client) => Rejection::CustomerMissing(client),
            LedgerError::Overflow => Rejection::Overflow,
        }
    }
}

impl Rejection {
    /// What the rejection says to a reader.
    pub open spec fn message(self) -> Seq<char> {
        match self {
            Rejection::AccountLocked => {
                "Customer account is locked and transaction cannot be carried out"@
            },
            Rejection::InsufficientFunds { available, requested } => "Balance "@ + Amount::text_of(
                available,
            ) + " is less than the requested withdrawal amount of "@ + Amount::text_of(requested),
            Rejection::InsufficientHeld { held, requested } => "Held amount "@ + Amount::text_of(
                held,
            ) + " is less than the requested amount of "@ + Amount::text_of(requested),
            Rejection::CustomerMissing(client) => "Ledger for customer "@ + decimal_digits(
                client as nat,
            ) + " could not be found"@,
            Rejection::Overflow => "Balance would be out of range"@,
        }
    }
}

impl LedgerError {
    /// The error as a sentence for a reader, with amounts written to four
    /// decimal digits.
    pub fn to_string(&self) -> (text: String)
        ensures
            text@ == self@.message(),
    {
        match *self {
            LedgerError::AccountLocked => String::from_str(
                "Customer account is locked and transaction cannot be carried out",
            ),
            LedgerError::InsufficientFunds { available, requested } => {
                let mut text = String::from_str("Balance ");
                text.append(available.to_string().as_str());
                text.append(" is less than the requested withdrawal amount of ");
                text.append(requested.to_string().as_str());
                text
            },
            LedgerError::InsufficientHeld { held, requested } => {
                let mut text = String::from_str("Held amount ");
                text.append(held.to_string().as_str());
                text.append(" is less than the requested amount of ");
                text.append(requested.to_string().as_str());
                text
            },
            LedgerError::CustomerMissing(client) => {
                let mut text = String::from_str("Ledger for customer ");
                push_decimal(&mut text, client as u64);
                text.append(" could not be found");
                text
            },
            LedgerError::Overflow => String::from_str("Balance would be out of range"),
        }
    }
}

/// The balance of an account as plain numbers of ten-thousandths.
pub ghost struct BalanceView {
    pub client: ClientId,
    pub available: int,
    pub held: int,
    pub locked: bool,
}

impl BalanceView {
    /// The balance of an account that has seen no transaction.
    pub open spec fn fresh(client: ClientId) -> BalanceView {
        BalanceView { client, available: 0, held: 0, locked: false }
    }

    /// Everything the account holds, available or not.
    pub open spec fn total(self) -> int {
        self.available + self.held
    }

    /// Whether the available funds, the held funds and their total can each
    /// be represented as an [`Amount`].
    pub open spec fn representable(self) -> bool {
        &&& Amount::representable(self.available)
        &&& Amount::representable(self.held)
        &&& Amount::representable(self.total())
    }

    /// The balance with its funds replaced, provided the outcome can be
    /// represented.
    pub open spec fn moved_to(self, available: int, held: int, locked: bool) -> Result<
        BalanceView,
        Rejection,
    > {
        let next = BalanceView { client: self.client, available, held, locked };
        if next.representable() {
            Ok(next)
        } else {
            Err(Rejection::Overflow)
        }
    }

    /// A deposit adds to the available funds of an unlocked account.
    pub open spec fn deposit(self, amount: int) -> Result<BalanceView, Rejection> {
        if self.locked {
            Err(Rejection::AccountLocked)
        } else {
            self.moved_to(self.available + amount, self.held, false)
        }
    }

    /// A withdrawal takes from the available funds of an unlocked account,
    /// and never more than is there.
    pub open spec fn withdrawal(self, amount: int) -> Result<BalanceView, Rejection> {
        if self.locked {
            Err(Rejection::AccountLocked)
        } else if self.available < amount {
            Err(Rejection::InsufficientFunds { available: self.available, requested: amount })
        } else {
            self.moved_to(self.available - amount, self.held, false)
        }
    }

    /// A dispute moves the amount from available to held. It is a hold
    /// against a transaction that already went through, so it applies even
    /// when less than the amount is still available, and may leave the
    /// available funds below zero.
    pub open spec fn dispute(self, amount: int) -> Result<BalanceView, Rejection> {
        if self.locked {
            Err(Rejection::AccountLocked)
        } else {
            self.moved_to(self.available - amount, self.held + amount, false)
        }
    }

    /// A resolution releases held funds back to available, and never more
    /// than is held.
    pub open spec fn resolve(self, amount: int) -> Result<BalanceView, Rejection> {
        if self.locked {
            Err(Rejection::AccountLocked)
        } else if self.held < amount {
            Err(Rejection::InsufficientHeld { held: self.held, requested: amount })
        } else {
            self.moved_to(self.available + amount, self.held - amount, false)
        }
    }

    /// A chargeback removes held funds, never more than is held, and locks
    /// the account.
    pub open spec fn chargeback(self, amount: int) -> Result<BalanceView, Rejection> {
        if self.locked {
            Err(Rejection::AccountLocked)
        } else if self.held < amount {
            Err(Rejection::InsufficientHeld { held: self.held, requested: amount })
        } else {
            self.moved_to(self.available, self.held - amount, true)
        }
    }
}

/// Whether an operation ended as the model says: on success the state is the
/// one the model gives; on refusal the error is the model's and the state is
/// as it was.
pub open spec fn settled<State>(
    before: State,
    expected: Result<State, Rejection>,
    after: State,
    result: Result<(), LedgerError>,
) -> bool {
    match expected {
        Ok(next) => result is Ok && after == next,
        Err(rejection) => result matches Err(error) && error@ == rejection && after == before,
    }
}

/// The current balance of one client.
#[derive(Clone, Copy, Debug)]
pub struct ClientBalance {
    client: ClientId,
    available: Amount,
    held: Amount,
    locked: bool,
}

impl View for ClientBalance {
    type V = BalanceView;

    closed spec fn view(&self) -> BalanceView {
        BalanceView {
            client: self.client,
            available: self.available@,
            held: self.held@,
            locked: self.locked,
        }
    }
}

impl ClientBalance {
    /// The total of a balance always fits in an [`Amount`].
    #[verifier::type_invariant]
    spec fn total_fits(self) -> bool {
        self@.representable()
    }

    /// The balance of a client that has seen no transaction.
    pub fn new(client: ClientId) -> (balance: Self)
        ensures
            balance@ == BalanceView::fresh(client),
    {
        ClientBalance { client, available: Amount::zero(), held: Amount::zero(), locked: false }
    }

    /// The id of the client that owns the balance.
    pub fn client(&self) -> (client: ClientId)
        ensures
            client == self@.client,
    {
        self.client
    }

    /// What the client can withdraw.
    pub fn available(&self) -> (available: Amount)
        ensures
            available@ == self@.available,
    {
        self.available
    }

    /// What is frozen while a dispute is open.
    pub fn held(&self) -> (held: Amount)
        ensures
            held@ == self@.held,
    {
        self.held
    }

    /// Whether a chargeback has locked the account.
    pub fn locked(&self) -> (locked: bool)
        ensures
            locked == self@.locked,
    {
        self.locked
    }

    /// Available plus held.
    pub fn total(&self) -> (total: Amount)
        ensures
            total@ == self@.total(),
    {
        proof {
            use_type_invariant(self);
        }
        Amount::new(self.available.units() + self.held.units())
    }

    /// Puts the funds the model arrived at in place, or reports that they
    /// cannot be represented.
    fn move_to(&mut self, available: i128, held: i128, locked: bool) -> (result: Result<
        (),
        LedgerError,
    >)
        ensures
            settled(
                old(self)@,
                old(self)@.moved_to(available as int, held as int, locked),
                final(self)@,
                result,
            ),
    {
        let total: i128 = match available.checked_add(held) {
            Some(total) => total,
            None => {
                return Err(LedgerError::Overflow);
            },
        };
        if fits(available) && fits(held) && fits(total) {
            *self = ClientBalance {
                client: self.client,
                available: Amount::new(available as i64),
                held: Amount::new(held as i64),
                locked,
            };
            Ok(())
        } else {
            Err(LedgerError::Overflow)
        }
    }

    /// Refuses to go on where the account is locked.
    fn check_locked(&self) -> (result: Result<(), LedgerError>)
        ensures
            result == if self@.locked {
                Err::<(), LedgerError>(LedgerError::AccountLocked)
            } else {
                Ok(())
            },
    {
        if self.locked {
            return Err(LedgerError::AccountLocked);
        }
        Ok(())
    }

    /// Deposits money into the account.
    ///
    /// Fails with [`LedgerError::AccountLocked`] on a locked account, and with
    /// [`LedgerError::Overflow`] when the new balance cannot be represented.
    pub fn deposit(&mut self, amount: Amount) -> (result: Result<(), LedgerError>)
        ensures
            settled(old(self)@, old(self)@.deposit(amount@), final(self)@, result),
    {
        self.check_locked()?;
        let available: i128 = self.available.units() as i128 + amount.units() as i128;
        let held: i128 = self.held.units() as i128;
        self.move_to(available, held, false)
    }

    /// Withdraws money from the account.
    ///
    /// Fails with [`LedgerError::AccountLocked`] on a locked account, with
    /// [`LedgerError::InsufficientFunds`] when more is asked for than is
    /// available, and with [`LedgerError::Overflow`] when the new balance
    /// cannot be represented. In particular a withdrawal of more than is
    /// available always fails and changes nothing.
    pub fn withdrawal(&mut self, amount: Amount) -> (result: Result<(), LedgerError>)
        ensures
            settled(old(self)@, old(self)@.withdrawal(amount@), final(self)@, result),
            amount@ > old(self)@.available ==> result is Err && final(self)@ == old(self)@,
    {
        self.check_locked()?;
        if self.available < amount {
            return Err(
                LedgerError::InsufficientFunds { available: self.available, requested: amount },
            );
        }
        let available: i128 = self.available.units() as i128 - amount.units() as i128;
        let held: i128 = self.held.units() as i128;
        self.move_to(available, held, false)
    }

    /// Disputes an amount: it leaves the available funds and is held.
    ///
    /// A dispute is a hold against a transaction that already went through,
    /// so it is applied even when less than the amount is still available.
    /// Fails with [`LedgerError::AccountLocked`] on a locked account, and with
    /// [`LedgerError::Overflow`] when the new balance cannot be represented.
    pub fn dispute(&mut self, amount: Amount) -> (result: Result<(), LedgerError>)
        ensures
            settled(old(self)@, old(self)@.dispute(amount@), final(self)@, result),
    {
        self.check_locked()?;
        let available: i128 = self.available.units() as i128 - amount.units() as i128;
        let held: i128 = self.held.units() as i128 + amount.units() as i128;
        self.move_to(available, held, false)
    }

    /// Resolves a dispute: the amount is no longer held and is available
    /// again.
    ///
    /// Fails with [`LedgerError::AccountLocked`] on a locked account, with
    /// [`LedgerError::InsufficientHeld`] when less than the amount is held,
    /// and with [`LedgerError::Overflow`] when the new balance cannot be
    /// represented.
    pub fn resolve(&mut self, amount: Amount) -> (result: Result<(), LedgerError>)
        ensures
            settled(old(self)@, old(self)@.resolve(amount@), final(self)@, result),
    {
        self.check_locked()?;
        if self.held < amount {
            return Err(LedgerError::InsufficientHeld { held: self.held, requested: amount });
        }
        let available: i128 = self.available.units() as i128 + amount.units() as i128;
        let held: i128 = self.held.units() as i128 - amount.units() as i128;
        self.move_to(available, held, false)
    }

    /// Charges a disputed amount back: it leaves the held funds for good and
    /// the account is locked.
    ///
    /// Fails with [`LedgerError::AccountLocked`] on an account that is locked
    /// already, with [`LedgerError::InsufficientHeld`] when less than the
    /// amount is held, and with [`LedgerError::Overflow`] when the new balance
    /// cannot be represented.
    pub fn chargeback(&mut self, amount: Amount) -> (result: Result<(), LedgerError>)
        ensures
            settled(old(self)@, old(self)@.chargeback(amount@), final(self)@, result),
    {
        self.check_locked()?;
        if self.held < amount {
            return Err(LedgerError::InsufficientHeld { held: self.held, requested: amount });
        }
        let available: i128 = self.available.units() as i128;
        let held: i128 = self.held.units() as i128 - amount.units() as i128;
        self.move_to(available, held, true)
    }
}

/// The ledger of an account as plain values: its balance, and the amount of
/// each deposit and withdrawal that went through, by transaction id.
pub ghost struct LedgerView {
    pub balance: BalanceView,
    pub transactions: Map<TransactionId, int>,
}

impl LedgerView {
    /// The ledger of an account that has seen no transaction.
    pub open spec fn fresh(client: ClientId) -> LedgerView {
        LedgerView { balance: BalanceView::fresh(client), transactions: Map::empty() }
    }

    /// The ledger once `transaction` is on record. Only a deposit or a
    /// withdrawal is recorded; one recorded under an id that is already in use
    /// takes the place of the earlier one.
    pub open spec fn record(self, transaction: Transaction) -> LedgerView {
        match transaction.txn_type {
            TransactionType::Deposit { amount } => LedgerView {
                transactions: self.transactions.insert(transaction.tx, amount@),
                ..self
            },
            TransactionType::Withdrawal { amount } => LedgerView {
                transactions: self.transactions.insert(transaction.tx, amount@),
                ..self
            },
            _ => self,
        }
    }

    /// What `transaction` does to the balance. A dispute, a resolution or a
    /// chargeback that names a transaction which is not on record does
    /// nothing, and that is no error.
    pub open spec fn settle(self, transaction: Transaction) -> Result<BalanceView, Rejection> {
        let known = self.transactions.contains_key(transaction.tx);
        let referred = self.transactions[transaction.tx];
        match transaction.txn_type {
            TransactionType::Deposit { amount } => self.balance.deposit(amount@),
            TransactionType::Withdrawal { amount } => self.balance.withdrawal(amount@),
            TransactionType::Dispute => if known {
                self.balance.dispute(referred)
            } else {
                Ok(self.balance)
            },
            TransactionType::Resolve => if known {
                self.balance.resolve(referred)
            } else {
                Ok(self.balance)
            },
            TransactionType::ChargeBack => if known {
                self.balance.chargeback(referred)
            } else {
                Ok(self.balance)
            },
        }
    }

    /// The ledger after `transaction`, or why it was refused. A transaction
    /// that goes through changes the balance and is then put on record.
    pub open spec fn apply(self, transaction: Transaction) -> Result<LedgerView, Rejection> {
        match self.settle(transaction) {
            Ok(balance) => Ok(LedgerView { balance, ..self }.record(transaction)),
            Err(rejection) => Err(rejection),
        }
    }

    /// Whether `transaction` goes through.
    pub open spec fn accepts(self, transaction: Transaction) -> bool {
        self.apply(transaction) is Ok
    }

    /// The ledger after `transaction`, which is the ledger as it was if the
    /// transaction is refused.
    pub open spec fn step(self, transaction: Transaction) -> LedgerView {
        match self.apply(transaction) {
            Ok(next) => next,
            Err(_) => self,
        }
    }

    /// The ledger after the transactions of `transactions`, in order.
    pub open spec fn replay(self, transactions: Seq<Transaction>) -> LedgerView
        decreases transactions.len(),
    {
        if transactions.len() == 0 {
            self
        } else {
            self.replay(transactions.drop_last()).step(transactions.last())
        }
    }

    /// The sum of the deposits among `transactions` that go through when the
    /// transactions are applied in order.
    pub open spec fn deposited(self, transactions: Seq<Transaction>) -> int
        decreases transactions.len(),
    {
        if transactions.len() == 0 {
            0
        } else {
            let earlier = transactions.drop_last();
            let last = transactions.last();
            self.deposited(earlier) + match last.txn_type {
                TransactionType::Deposit { amount } if self.replay(earlier).accepts(last) => {
                    amount@
                },
                _ => 0,
            }
        }
    }

    /// The sum of the withdrawals among `transactions` that go through when
    /// the transactions are applied in order.
    pub open spec fn withdrawn(self, transactions: Seq<Transaction>) -> int
        decreases transactions.len(),
    {
        if transactions.len() == 0 {
            0
        } else {
            let earlier = transactions.drop_last();
            let last = transactions.last();
            self.withdrawn(earlier) + match last.txn_type {
                TransactionType::Withdrawal { amount } if self.replay(earlier).accepts(last) => {
                    amount@
                },
                _ => 0,
            }
        }
    }
}

/// The balance of one client together with the deposits and withdrawals that
/// a dispute may refer to.
#[derive(Debug)]
pub struct ClientLedger {
    transactions: HashMap<TransactionId, Amount>,
    balance: ClientBalance,
}

impl View for ClientLedger {
    type V = LedgerView;

    closed spec fn view(&self) -> LedgerView {
        LedgerView {
            balance: self.balance@,
            transactions: self.transactions@.map_values(|amount: Amount| amount@),
        }
    }
}

impl ClientLedger {
    /// The ledger of a client that has seen no transaction.
    pub fn new(client: ClientId) -> (ledger: Self)
        ensures
            ledger@ == LedgerView::fresh(client),
    {
        let ledger = ClientLedger {
            transactions: HashMap::new(),
            balance: ClientBalance::new(client),
        };
        assert(ledger@.transactions =~= Map::empty());
        ledger
    }

    /// The balance, to change it in place. The record of transactions stays
    /// as it is.
    pub fn get_balance_mut(&mut self) -> (balance: &mut ClientBalance)
        ensures
            balance@ == old(self)@.balance,
            final(self)@ == (LedgerView { balance: final(balance)@, ..old(self)@ }),
    {
        &mut self.balance
    }

    /// The balance.
    pub fn get_balance(&self) -> (balance: &ClientBalance)
        ensures
            balance@ == self@.balance,
    {
        &self.balance
    }

    /// Puts a deposit or a withdrawal on record under its transaction id, in
    /// place of any earlier one with that id. Other transactions leave no
    /// record.
    pub fn record_transaction(&mut self, transaction: &Transaction)
        ensures
            final(self)@ == old(self)@.record(*transaction),
    {
        match transaction.txn_type {
            TransactionType::Deposit { amount } => {
                self.transactions.insert(transaction.tx, amount);
            },
            TransactionType::Withdrawal { amount } => {
                self.transactions.insert(transaction.tx, amount);
            },
            _ => {},
        }
        assert(self@.transactions =~= old(self)@.record(*transaction).transactions);
    }

    /// The amount of the deposit or withdrawal on record under `id`, if
    /// there is one.
    pub fn get_past_transaction(&self, id: TransactionId) -> (amount: Option<&Amount>)
        ensures
            match amount {
                Some(amount) => self@.transactions.contains_key(id) && self@.transactions[id]
                    == amount@,
                None => !self@.transactions.contains_key(id),
            },
    {
        self.transactions.get(&id)
    }

    /// Applies a transaction to the ledger.
    ///
    /// A deposit or a withdrawal goes to the balance and, if it went through,
    /// is put on record. A dispute, a resolution or a chargeback takes its
    /// amount from the transaction on record under its id; if there is none,
    /// it is ignored, which is no error. What the balance refuses is
    /// refused here with the same error, and then nothing has changed.
    pub fn apply_transaction(&mut self, transaction: &Transaction) -> (result: Result<
        (),
        LedgerError,
    >)
        ensures
            settled(old(self)@, old(self)@.apply(*transaction), final(self)@, result),
    {
        match &transaction.txn_type {
            TransactionType::Deposit { amount } => {
                self.balance.deposit(*amount)?;
            },
            TransactionType::Withdrawal { amount } => {
                self.balance.withdrawal(*amount)?;
            },
            TransactionType::Dispute => {
                if let Some(amount) = self.transactions.get(&transaction.tx) {
                    self.balance.dispute(*amount)?;
                }
            },
            TransactionType::Resolve => {
                if let Some(amount) = self.transactions.get(&transaction.tx) {
                    self.balance.resolve(*amount)?;
                }
            },
            TransactionType::ChargeBack => {
                if let Some(amount) = self.transactions.get(&transaction.tx) {
                    self.balance.chargeback(*amount)?;
                }
            },
        }
        self.record_transaction(transaction);
        Ok(())
    }
}

/// Whether `value` is in the range of an [`Amount`].
fn fits(value: i128) -> (fits: bool)
    ensures
        fits == Amount::representable(value as int),
{
    i64::MIN as i128 <= value && value <= i64::MAX as i128
}

} // verus!
