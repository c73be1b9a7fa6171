//! What holds of accounts whatever the transactions are.
//!
//! Each law is stated over the models that the contracts of the engine, the
//! ledger and the balance are stated over, so it holds of whatever those
//! functions do.
use vstd::prelude::*;
use vstd::seq_lib::to_multiset_contains;

use super::ledger::{BalanceView, LedgerView, Rejection};
use super::{ClientId, EngineView, Transaction, TransactionType};

verus! {

/// Whether `transactions` holds deposits and withdrawals only.
pub open spec fn only_deposits_and_withdrawals(transactions: Seq<Transaction>) -> bool {
    forall|i: int|
        0 <= i < transactions.len() ==> (#[trigger] transactions[i]).txn_type is Deposit
            || transactions[i].txn_type is Withdrawal
}

/// The sum of all deposits among `transactions`, refused or not.
pub open spec fn deposits(transactions: Seq<Transaction>) -> int
    decreases transactions.len(),
{
    if transactions.len() == 0 {
        0
    } else {
        deposits(transactions.drop_last()) + match transactions.last().txn_type {
            TransactionType::Deposit { amount } => amount@,
            _ => 0,
        }
    }
}

/// Whether every deposit among `transactions` goes through when the
/// transactions are applied to `ledger` in order.
pub open spec fn every_deposit_goes_through(
    ledger: LedgerView,
    transactions: Seq<Transaction>,
) -> bool {
    forall|i: int|
        0 <= i < transactions.len() && (#[trigger] transactions[i]).txn_type is Deposit
            ==> ledger.replay(transactions.take(i)).apply(transactions[i]) is Ok
}

/// While an account sees deposits and withdrawals only, its total is what it
/// was, plus the deposits that went through, minus the withdrawals that went
/// through; nothing is ever held that was not held before, and the account
/// is locked only if it was.
pub proof fn lemma_deposits_and_withdrawals(ledger: LedgerView, transactions: Seq<Transaction>)
    requires
        only_deposits_and_withdrawals(transactions),
    ensures
        ledger.replay(transactions).balance.total() == ledger.balance.total() + ledger.deposited(
            transactions,
        ) - ledger.withdrawn(transactions),
        ledger.replay(transactions).balance.held == ledger.balance.held,
        ledger.replay(transactions).balance.locked == ledger.balance.locked,
        ledger.replay(transactions).balance.client == ledger.balance.client,
    decreases transactions.len(),
{
    if transactions.len() > 0 {
        let earlier = transactions.drop_last();
        assert forall|i: int|
            0 <= i < earlier.len() implies (#[trigger] earlier[i]).txn_type is Deposit
            || earlier[i].txn_type is Withdrawal by {
            assert(earlier[i] == transactions[i]);
        }
        lemma_deposits_and_withdrawals(ledger, earlier);
        assert(transactions.last() == transactions[transactions.len() - 1]);
    }
}

/// Whether no transaction of `transactions` has an amount below zero.
pub open spec fn all_well_formed(transactions: Seq<Transaction>) -> bool {
    forall|i: int|
        0 <= i < transactions.len() ==> (#[trigger] transactions[i]).txn_type.well_formed()
}

/// Deposits and withdrawals of amounts that are not below zero never leave
/// less than nothing available: a withdrawal that would is refused.
pub proof fn lemma_available_stays_above_zero(ledger: LedgerView, transactions: Seq<Transaction>)
    requires
        only_deposits_and_withdrawals(transactions),
        all_well_formed(transactions),
        ledger.balance.available >= 0,
    ensures
        ledger.replay(transactions).balance.available >= 0,
    decreases transactions.len(),
{
    if transactions.len() > 0 {
        let earlier = transactions.drop_last();
        assert forall|i: int|
            0 <= i < earlier.len() implies ((#[trigger] earlier[i]).txn_type is Deposit
            || earlier[i].txn_type is Withdrawal) && earlier[i].txn_type.well_formed() by {
            assert(earlier[i] == transactions[i]);
        }
        lemma_available_stays_above_zero(ledger, earlier);
        assert(transactions.last() == transactions[transactions.len() - 1]);
    }
}

/// Where every deposit goes through, the deposits that went through are all
/// the deposits.
pub proof fn lemma_all_deposits_count(ledger: LedgerView, transactions: Seq<Transaction>)
    requires
        every_deposit_goes_through(ledger, transactions),
    ensures
        ledger.deposited(transactions) == deposits(transactions),
    decreases transactions.len(),
{
    if transactions.len() > 0 {
        let earlier = transactions.drop_last();
        let last = transactions.len() - 1;
        assert forall|i: int|
            0 <= i < earlier.len() && (#[trigger] earlier[i]).txn_type is Deposit
            implies ledger.replay(earlier.take(i)).apply(earlier[i]) is Ok by {
            assert(earlier[i] == transactions[i]);
            assert(earlier.take(i) =~= transactions.take(i));
        }
        lemma_all_deposits_count(ledger, earlier);
        assert(transactions.take(last) =~= earlier);
        assert(transactions.last() == transactions[last]);
    }
}

/// An account that starts empty and sees deposits and withdrawals only, all
/// of its deposits going through, holds in total the sum of its deposits
/// minus the sum of the withdrawals that went through. Nothing is held and
/// the account is not locked, after all of the transactions and after any
/// number of them.
pub proof fn lemma_total_of_new_account(client: ClientId, transactions: Seq<Transaction>)
    requires
        only_deposits_and_withdrawals(transactions),
        every_deposit_goes_through(LedgerView::fresh(client), transactions),
    ensures
        LedgerView::fresh(client).replay(transactions).balance.total() == deposits(transactions)
            - LedgerView::fresh(client).withdrawn(transactions),
        forall|n: int|
            0 <= n <= transactions.len() ==> {
                let balance = (#[trigger] LedgerView::fresh(client).replay(
                    transactions.take(n),
                )).balance;
                balance.held == 0 && !balance.locked
            },
{
    let ledger = LedgerView::fresh(client);
    lemma_deposits_and_withdrawals(ledger, transactions);
    lemma_all_deposits_count(ledger, transactions);
    assert forall|n: int| 0 <= n <= transactions.len() implies {
        let balance = (#[trigger] ledger.replay(transactions.take(n))).balance;
        balance.held == 0 && !balance.locked
    } by {
        let seen = transactions.take(n);
        assert forall|i: int| 0 <= i < seen.len() implies (#[trigger] seen[i]).txn_type is Deposit
            || seen[i].txn_type is Withdrawal by {
            assert(seen[i] == transactions[i]);
        }
        lemma_deposits_and_withdrawals(ledger, seen);
    }
}

/// A withdrawal of more than is available is refused.
pub proof fn lemma_withdrawal_needs_funds(balance: BalanceView, amount: int)
    requires
        amount > balance.available,
    ensures
        balance.withdrawal(amount) is Err,
        !balance.locked ==> balance.withdrawal(amount) == Err::<BalanceView, Rejection>(
            Rejection::InsufficientFunds { available: balance.available, requested: amount },
        ),
{
}

/// A chargeback that goes through leaves the account locked, with the
/// available funds as they were.
pub proof fn lemma_chargeback_locks(balance: BalanceView, amount: int)
    requires
        balance.chargeback(amount) is Ok,
    ensures
        balance.chargeback(amount)->Ok_0.locked,
        balance.chargeback(amount)->Ok_0.available == balance.available,
        balance.chargeback(amount)->Ok_0.held == balance.held - amount,
{
}

/// A locked account refuses every operation.
pub proof fn lemma_locked_balance_refuses(balance: BalanceView, amount: int)
    requires
        balance.locked,
    ensures
        balance.deposit(amount) == Err::<BalanceView, Rejection>(Rejection::AccountLocked),
        balance.withdrawal(amount) == Err::<BalanceView, Rejection>(Rejection::AccountLocked),
        balance.dispute(amount) == Err::<BalanceView, Rejection>(Rejection::AccountLocked),
        balance.resolve(amount) == Err::<BalanceView, Rejection>(Rejection::AccountLocked),
        balance.chargeback(amount) == Err::<BalanceView, Rejection>(Rejection::AccountLocked),
{
}

/// Nothing that is applied to the ledger of a locked account changes it: not
/// its balance, which stays locked, nor its record of transactions.
pub proof fn lemma_locked_ledger_is_final(ledger: LedgerView, transactions: Seq<Transaction>)
    requires
        ledger.balance.locked,
    ensures
        ledger.replay(transactions) == ledger,
    decreases transactions.len(),
{
    if transactions.len() > 0 {
        lemma_locked_ledger_is_final(ledger, transactions.drop_last());
        let last = transactions.last();
        match ledger.apply(last) {
            Ok(next) => {
                assert(!ledger.transactions.contains_key(last.tx));
                assert(next.transactions =~= ledger.transactions);
            },
            Err(_) => {},
        }
    }
}

/// A dispute, a resolution or a chargeback that names a transaction which is
/// not on record goes through and changes nothing.
pub proof fn lemma_unknown_reference_is_ignored(ledger: LedgerView, transaction: Transaction)
    requires
        !ledger.transactions.contains_key(transaction.tx),
        transaction.txn_type is Dispute || transaction.txn_type is Resolve
            || transaction.txn_type is ChargeBack,
    ensures
        ledger.apply(transaction) == Ok::<LedgerView, Rejection>(ledger),
{
}

/// Once a chargeback has taken effect the account is locked, and whatever is
/// applied to its ledger afterwards changes nothing.
pub proof fn lemma_chargeback_is_final(
    ledger: LedgerView,
    chargeback: Transaction,
    later: Seq<Transaction>,
)
    requires
        chargeback.txn_type is ChargeBack,
        ledger.transactions.contains_key(chargeback.tx),
        ledger.apply(chargeback) is Ok,
    ensures
        ledger.step(chargeback).balance.locked,
        ledger.step(chargeback).replay(later) == ledger.step(chargeback),
{
    lemma_locked_ledger_is_final(ledger.step(chargeback), later);
}

/// The transactions among `transactions` that concern `client`, in order.
pub open spec fn of_client(transactions: Seq<Transaction>, client: ClientId) -> Seq<Transaction> {
    transactions.filter(|transaction: Transaction| transaction.client == client)
}

/// A transaction changes the ledger of its own client and no other.
pub proof fn lemma_apply_touches_one_account(
    engine: EngineView,
    transaction: Transaction,
    client: ClientId,
)
    ensures
        engine.apply(transaction).ledger_of(client) == if client == transaction.client {
            engine.ledger_of(client).step(transaction)
        } else {
            engine.ledger_of(client)
        },
{
}

/// The accounts do not bear on each other: after any transactions, the
/// ledger of a client is what its own transactions alone make of it.
pub proof fn lemma_replay_by_client(
    engine: EngineView,
    transactions: Seq<Transaction>,
    client: ClientId,
)
    ensures
        engine.replay(transactions).ledger_of(client) == engine.ledger_of(client).replay(
            of_client(transactions, client),
        ),
    decreases transactions.len(),
{
    let concerns = |transaction: Transaction| transaction.client == client;
    if transactions.len() == 0 {
        assert(transactions.filter(concerns) =~= Seq::empty()) by {
            transactions.lemma_filter_len(concerns);
        }
    } else {
        let earlier = transactions.drop_last();
        let last = transactions.last();
        lemma_replay_by_client(engine, earlier, client);
        lemma_apply_touches_one_account(engine.replay(earlier), last, client);
        assert(earlier.push(last) =~= transactions);
        earlier.lemma_filter_push(last, concerns);
        if last.client == client {
            assert(earlier.filter(concerns).push(last).drop_last() =~= earlier.filter(concerns));
        }
    }
}

/// An account, once opened, stays open whatever is applied afterwards.
pub proof fn lemma_accounts_stay_open(
    engine: EngineView,
    transactions: Seq<Transaction>,
    client: ClientId,
)
    requires
        engine.ledgers.contains_key(client),
    ensures
        engine.replay(transactions).ledgers.contains_key(client),
    decreases transactions.len(),
{
    if transactions.len() > 0 {
        lemma_accounts_stay_open(engine, transactions.drop_last(), client);
    }
}

/// Every client that a transaction names has an account afterwards, whether
/// the transaction went through or not.
pub proof fn lemma_apply_opens_the_account(engine: EngineView, transaction: Transaction)
    ensures
        engine.apply(transaction).ledgers.contains_key(transaction.client),
{
}

/// While the transactions of a client are deposits and withdrawals only, the
/// total of its account is what it was, plus its deposits that went through,
/// minus its withdrawals that went through, and nothing more is held than
/// was; the transactions of other clients do not come into it.
pub proof fn lemma_account_total(
    engine: EngineView,
    transactions: Seq<Transaction>,
    client: ClientId,
)
    requires
        only_deposits_and_withdrawals(of_client(transactions, client)),
    ensures
        ({
            let before = engine.ledger_of(client);
            let after = engine.replay(transactions).ledger_of(client);
            let own = of_client(transactions, client);
            &&& after.balance.total() == before.balance.total() + before.deposited(own)
                - before.withdrawn(own)
            &&& after.balance.held == before.balance.held
            &&& after.balance.locked == before.balance.locked
        }),
{
    lemma_replay_by_client(engine, transactions, client);
    lemma_deposits_and_withdrawals(engine.ledger_of(client), of_client(transactions, client));
}

/// Once an account is locked, no transaction changes its ledger, whichever
/// clients the transactions are for.
pub proof fn lemma_locked_account_is_final(
    engine: EngineView,
    transactions: Seq<Transaction>,
    client: ClientId,
)
    requires
        engine.ledger_of(client).balance.locked,
    ensures
        engine.replay(transactions).ledger_of(client) == engine.ledger_of(client),
{
    lemma_replay_by_client(engine, transactions, client);
    lemma_locked_ledger_is_final(engine.ledger_of(client), of_client(transactions, client));
}

/// A dispute, a resolution or a chargeback that names a transaction which is
/// not on record for its client is no error to the engine and changes the
/// ledger of no client.
pub proof fn lemma_unknown_reference_changes_nothing(
    engine: EngineView,
    transaction: Transaction,
    client: ClientId,
)
    requires
        !engine.ledger_of(transaction.client).transactions.contains_key(transaction.tx),
        transaction.txn_type is Dispute || transaction.txn_type is Resolve
            || transaction.txn_type is ChargeBack,
    ensures
        engine.outcome(transaction) is Ok,
        engine.apply(transaction).ledger_of(client) == engine.ledger_of(client),
{
    lemma_unknown_reference_is_ignored(engine.ledger_of(transaction.client), transaction);
}

/// Two listings of the balances of one engine hold the same balances, each
/// the same number of times; they can differ in order only.
pub proof fn lemma_listings_agree(
    engine: EngineView,
    first: Seq<BalanceView>,
    second: Seq<BalanceView>,
)
    requires
        engine.listed_by(first),
        engine.listed_by(second),
    ensures
        first.to_multiset() == second.to_multiset(),
{
    lemma_listing_counts(engine, first);
    lemma_listing_counts(engine, second);
    assert(first.to_multiset() =~= second.to_multiset());
}

/// A listing holds a balance once if it is the balance of a client of the
/// engine, and not at all otherwise.
pub proof fn lemma_listing_counts(engine: EngineView, balances: Seq<BalanceView>)
    requires
        engine.listed_by(balances),
    ensures
        forall|balance: BalanceView| #[trigger]
            balances.to_multiset().count(balance) == if engine.ledgers.contains_key(balance.client)
                && engine.ledgers[balance.client].balance == balance {
                1nat
            } else {
                0nat
            },
{
    assert(balances.no_duplicates()) by {
        assert forall|i: int, j: int|
            0 <= i < balances.len() && 0 <= j < balances.len() && i != j implies balances[i]
            != balances[j] by {
            if i < j {
                assert(balances[i].client != balances[j].client);
            } else {
                assert(balances[j].client != balances[i].client);
            }
        }
    }
    balances.lemma_multiset_has_no_duplicates();
    assert forall|balance: BalanceView| #[trigger]
        balances.to_multiset().count(balance) == if engine.ledgers.contains_key(balance.client)
            && engine.ledgers[balance.client].balance == balance {
            1nat
        } else {
            0nat
        } by {
        to_multiset_contains(balances, balance);
        if engine.ledgers.contains_key(balance.client) && engine.ledgers[balance.client].balance
            == balance {
            let i = choose|i: int|
                0 <= i < balances.len() && #[trigger] balances[i].client == balance.client;
            assert(balances[i] == balance);
            assert(balances.contains(balance));
        } else if balances.contains(balance) {
            let i = choose|i: int| 0 <= i < balances.len() && balances[i] == balance;
            assert(engine.ledgers.contains_key(balances[i].client));
        }
    }
}

} // verus!
