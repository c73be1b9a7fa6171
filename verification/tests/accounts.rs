use txnengine::transaction::amount::Amount;
use txnengine::transaction::ledger::{ClientBalance, ClientLedger, LedgerError};
use txnengine::transaction::{Transaction, TransactionEngine, TransactionType};

fn amount(value: f64) -> Amount {
    Amount::new((value * 10_000.0).round() as i64)
}

fn deposit(client: u16, tx: u32, value: f64) -> Transaction {
    Transaction::new(client, tx, TransactionType::Deposit { amount: amount(value) })
}

fn withdrawal(client: u16, tx: u32, value: f64) -> Transaction {
    Transaction::new(client, tx, TransactionType::Withdrawal { amount: amount(value) })
}

fn dispute(client: u16, tx: u32) -> Transaction {
    Transaction::new(client, tx, TransactionType::Dispute)
}

fn resolve(client: u16, tx: u32) -> Transaction {
    Transaction::new(client, tx, TransactionType::Resolve)
}

fn chargeback(client: u16, tx: u32) -> Transaction {
    Transaction::new(client, tx, TransactionType::ChargeBack)
}

fn balance_of(engine: &TransactionEngine, client: u16) -> ClientBalance {
    *engine.get_ledger(client).expect("ledger").get_balance()
}

fn state(balance: &ClientBalance) -> (i64, i64, i64, bool) {
    (
        balance.available().units(),
        balance.held().units(),
        balance.total().units(),
        balance.locked(),
    )
}

#[test]
fn new_balance_is_empty_and_unlocked() {
    let balance = ClientBalance::new(7);
    assert_eq!(balance.client(), 7);
    assert_eq!(state(&balance), (0, 0, 0, false));
}

#[test]
fn two_deposits_add_up() {
    let mut engine = TransactionEngine::new();
    assert_eq!(engine.apply(deposit(1, 1, 10.0)), Ok(()));
    assert_eq!(engine.apply(deposit(1, 2, 20.0)), Ok(()));
    let balance = balance_of(&engine, 1);
    assert_eq!(balance.available(), amount(30.0));
    assert_eq!(balance.held(), amount(0.0));
    assert_eq!(balance.total(), amount(30.0));
    assert!(!balance.locked());
}

#[test]
fn withdrawal_beyond_available_changes_nothing() {
    let mut engine = TransactionEngine::new();
    engine.apply(deposit(1, 1, 10.0)).unwrap();
    engine.apply(deposit(1, 2, 20.0)).unwrap();
    assert_eq!(engine.apply(withdrawal(1, 3, 15.0)), Ok(()));
    let balance = balance_of(&engine, 1);
    assert_eq!(balance.available(), amount(15.0));
    assert_eq!(balance.total(), amount(15.0));

    let refused = engine.apply(withdrawal(1, 4, 16.0));
    assert_eq!(
        refused,
        Err(LedgerError::InsufficientFunds { available: amount(15.0), requested: amount(16.0) })
    );
    let balance = balance_of(&engine, 1);
    assert_eq!(state(&balance), (150_000, 0, 150_000, false));
    assert!(engine.get_ledger(1).unwrap().get_past_transaction(4).is_none());
}

#[test]
fn dispute_resolve_dispute_chargeback() {
    let mut engine = TransactionEngine::new();
    engine.apply(deposit(1, 1, 10.0)).unwrap();
    assert_eq!(engine.apply(dispute(1, 1)), Ok(()));
    let balance = balance_of(&engine, 1);
    assert_eq!(balance.available(), amount(0.0));
    assert_eq!(balance.held(), amount(10.0));
    assert_eq!(balance.total(), amount(10.0));

    assert_eq!(engine.apply(resolve(1, 1)), Ok(()));
    let balance = balance_of(&engine, 1);
    assert_eq!(balance.available(), amount(10.0));
    assert_eq!(balance.held(), amount(0.0));

    assert_eq!(engine.apply(dispute(1, 1)), Ok(()));
    assert_eq!(engine.apply(chargeback(1, 1)), Ok(()));
    let balance = balance_of(&engine, 1);
    assert_eq!(balance.available(), amount(0.0));
    assert_eq!(balance.held(), amount(0.0));
    assert!(balance.locked());
}

#[test]
fn locked_account_refuses_everything() {
    let mut engine = TransactionEngine::new();
    engine.apply(deposit(1, 1, 10.0)).unwrap();
    engine.apply(deposit(1, 2, 5.0)).unwrap();
    engine.apply(dispute(1, 1)).unwrap();
    engine.apply(chargeback(1, 1)).unwrap();
    let before = state(&balance_of(&engine, 1));
    assert_eq!(before, (50_000, 0, 50_000, true));

    assert_eq!(engine.apply(deposit(1, 3, 1.0)), Err(LedgerError::AccountLocked));
    assert_eq!(engine.apply(withdrawal(1, 4, 1.0)), Err(LedgerError::AccountLocked));
    assert_eq!(engine.apply(dispute(1, 2)), Err(LedgerError::AccountLocked));
    assert_eq!(engine.apply(resolve(1, 2)), Err(LedgerError::AccountLocked));
    assert_eq!(engine.apply(chargeback(1, 2)), Err(LedgerError::AccountLocked));
    assert_eq!(state(&balance_of(&engine, 1)), before);
    assert!(engine.get_ledger(1).unwrap().get_past_transaction(3).is_none());
}

#[test]
fn unknown_reference_is_ignored() {
    let mut engine = TransactionEngine::new();
    engine.apply(deposit(1, 1, 10.0)).unwrap();
    let before = state(&balance_of(&engine, 1));
    assert_eq!(engine.apply(dispute(1, 99)), Ok(()));
    assert_eq!(engine.apply(resolve(1, 99)), Ok(()));
    assert_eq!(engine.apply(chargeback(1, 99)), Ok(()));
    assert_eq!(state(&balance_of(&engine, 1)), before);
}

#[test]
fn reference_is_scoped_to_the_client() {
    let mut engine = TransactionEngine::new();
    engine.apply(deposit(1, 1, 10.0)).unwrap();
    engine.apply(deposit(2, 7, 3.0)).unwrap();
    assert_eq!(engine.apply(dispute(2, 1)), Ok(()));
    assert_eq!(state(&balance_of(&engine, 1)), (100_000, 0, 100_000, false));
    assert_eq!(state(&balance_of(&engine, 2)), (30_000, 0, 30_000, false));
}

#[test]
fn first_transaction_opens_the_account_even_when_refused() {
    let mut engine = TransactionEngine::new();
    assert!(engine.get_ledger(5).is_none());
    assert_eq!(
        engine.apply(withdrawal(5, 1, 1.0)),
        Err(LedgerError::InsufficientFunds { available: amount(0.0), requested: amount(1.0) })
    );
    assert_eq!(state(&balance_of(&engine, 5)), (0, 0, 0, false));
    assert_eq!(balance_of(&engine, 5).client(), 5);
}

#[test]
fn duplicate_transaction_id_overwrites_the_record() {
    let mut engine = TransactionEngine::new();
    engine.apply(deposit(1, 1, 10.0)).unwrap();
    engine.apply(deposit(1, 1, 4.0)).unwrap();
    assert_eq!(engine.get_ledger(1).unwrap().get_past_transaction(1), Some(&amount(4.0)));
    engine.apply(dispute(1, 1)).unwrap();
    assert_eq!(state(&balance_of(&engine, 1)), (100_000, 40_000, 140_000, false));
}

#[test]
fn dispute_may_leave_available_below_zero() {
    let mut engine = TransactionEngine::new();
    engine.apply(deposit(1, 1, 10.0)).unwrap();
    engine.apply(withdrawal(1, 2, 8.0)).unwrap();
    assert_eq!(engine.apply(dispute(1, 1)), Ok(()));
    assert_eq!(state(&balance_of(&engine, 1)), (-80_000, 100_000, 20_000, false));
}

#[test]
fn disputed_withdrawal_is_held_like_a_deposit() {
    let mut engine = TransactionEngine::new();
    engine.apply(deposit(1, 1, 10.0)).unwrap();
    engine.apply(withdrawal(1, 2, 4.0)).unwrap();
    engine.apply(dispute(1, 2)).unwrap();
    assert_eq!(state(&balance_of(&engine, 1)), (20_000, 40_000, 60_000, false));
}

#[test]
fn resolve_needs_enough_held() {
    let mut balance = ClientBalance::new(1);
    balance.deposit(amount(10.0)).unwrap();
    balance.dispute(amount(3.0)).unwrap();
    assert_eq!(
        balance.resolve(amount(4.0)),
        Err(LedgerError::InsufficientHeld { held: amount(3.0), requested: amount(4.0) })
    );
    assert_eq!(state(&balance), (70_000, 30_000, 100_000, false));
    assert_eq!(balance.resolve(amount(3.0)), Ok(()));
    assert_eq!(state(&balance), (100_000, 0, 100_000, false));
}

#[test]
fn chargeback_needs_enough_held() {
    let mut balance = ClientBalance::new(1);
    balance.deposit(amount(10.0)).unwrap();
    balance.dispute(amount(3.0)).unwrap();
    assert_eq!(
        balance.chargeback(amount(3.0001)),
        Err(LedgerError::InsufficientHeld { held: amount(3.0), requested: amount(3.0001) })
    );
    assert_eq!(state(&balance), (70_000, 30_000, 100_000, false));
    assert_eq!(balance.chargeback(amount(3.0)), Ok(()));
    assert_eq!(state(&balance), (70_000, 0, 70_000, true));
    assert_eq!(balance.chargeback(amount(0.0)), Err(LedgerError::AccountLocked));
}

#[test]
fn withdrawal_of_exactly_what_is_available() {
    let mut balance = ClientBalance::new(1);
    balance.deposit(amount(2.5)).unwrap();
    assert_eq!(balance.withdrawal(amount(2.5)), Ok(()));
    assert_eq!(state(&balance), (0, 0, 0, false));
    assert_eq!(
        balance.withdrawal(Amount::new(1)),
        Err(LedgerError::InsufficientFunds { available: Amount::new(0), requested: Amount::new(1) })
    );
}

#[test]
fn balance_out_of_range_is_refused() {
    let mut balance = ClientBalance::new(1);
    assert_eq!(balance.deposit(Amount::new(i64::MAX)), Ok(()));
    assert_eq!(balance.deposit(Amount::new(1)), Err(LedgerError::Overflow));
    assert_eq!(state(&balance), (i64::MAX, 0, i64::MAX, false));
    assert_eq!(balance.dispute(Amount::new(-1)), Err(LedgerError::Overflow));
    assert_eq!(balance.dispute(Amount::new(i64::MAX)), Ok(()));
    assert_eq!(state(&balance), (0, i64::MAX, i64::MAX, false));
    assert_eq!(balance.deposit(Amount::new(1)), Err(LedgerError::Overflow));
    assert_eq!(balance.resolve(Amount::new(i64::MIN)), Err(LedgerError::Overflow));
}

#[test]
fn ledger_records_deposits_and_withdrawals_only() {
    let mut ledger = ClientLedger::new(3);
    ledger.apply_transaction(&deposit(3, 1, 10.0)).unwrap();
    ledger.apply_transaction(&withdrawal(3, 2, 4.0)).unwrap();
    ledger.apply_transaction(&dispute(3, 1)).unwrap();
    ledger.apply_transaction(&resolve(3, 1)).unwrap();
    assert_eq!(ledger.get_past_transaction(1), Some(&amount(10.0)));
    assert_eq!(ledger.get_past_transaction(2), Some(&amount(4.0)));
    assert!(ledger.get_past_transaction(3).is_none());
    ledger.record_transaction(&chargeback(3, 9));
    assert!(ledger.get_past_transaction(9).is_none());
    ledger.record_transaction(&deposit(3, 9, 1.0));
    assert_eq!(ledger.get_past_transaction(9), Some(&amount(1.0)));
    assert_eq!(state(ledger.get_balance()), (60_000, 0, 60_000, false));
}

#[test]
fn balance_can_be_changed_through_the_ledger() {
    let mut ledger = ClientLedger::new(3);
    ledger.get_balance_mut().deposit(amount(2.0)).unwrap();
    assert_eq!(state(ledger.get_balance()), (20_000, 0, 20_000, false));
    assert!(ledger.get_past_transaction(1).is_none());
}

#[test]
fn total_is_deposits_minus_accepted_withdrawals() {
    let mut engine = TransactionEngine::new();
    let transactions = vec![
        deposit(1, 1, 5.0),
        withdrawal(1, 2, 7.0),
        deposit(1, 3, 2.5),
        withdrawal(1, 4, 7.0),
        withdrawal(1, 5, 1.0),
        deposit(1, 6, 0.0001),
    ];
    let refused = engine.replay(&transactions);
    assert_eq!(
        refused,
        vec![
            (1, LedgerError::InsufficientFunds { available: amount(5.0), requested: amount(7.0) }),
            (4, LedgerError::InsufficientFunds { available: amount(0.5), requested: amount(1.0) }),
        ]
    );
    let balance = balance_of(&engine, 1);
    assert_eq!(balance.total().units(), 50_000 + 25_000 + 1 - 70_000);
    assert_eq!(balance.held().units(), 0);
    assert!(!balance.locked());
}

#[test]
fn replay_goes_on_after_a_refusal() {
    let mut engine = TransactionEngine::new();
    let refused = engine.replay(&vec![
        withdrawal(1, 1, 1.0),
        deposit(2, 1, 3.0),
        deposit(1, 2, 1.0),
        chargeback(2, 1),
    ]);
    assert_eq!(refused.len(), 2);
    assert_eq!(refused[0].0, 0);
    assert_eq!(
        refused[1],
        (3, LedgerError::InsufficientHeld { held: amount(0.0), requested: amount(3.0) })
    );
    assert_eq!(state(&balance_of(&engine, 1)), (10_000, 0, 10_000, false));
    assert_eq!(state(&balance_of(&engine, 2)), (30_000, 0, 30_000, false));
}

fn listing(engine: &TransactionEngine) -> Vec<(u16, i64, i64, i64, bool)> {
    let mut balances = engine.iter();
    let mut listed = Vec::new();
    while let Some(balance) = balances.next() {
        let (available, held, total, locked) = state(&balance);
        listed.push((balance.client(), available, held, total, locked));
    }
    assert!(balances.next().is_none());
    listed.sort();
    listed
}

#[test]
fn iter_lists_every_client_once() {
    let mut engine = TransactionEngine::new();
    assert!(engine.iter().next().is_none());
    engine.apply(deposit(3, 1, 1.0)).unwrap();
    engine.apply(deposit(1, 1, 2.0)).unwrap();
    engine.apply(deposit(2, 1, 3.0)).unwrap();
    engine.apply(deposit(3, 2, 4.0)).unwrap();
    engine.apply(dispute(2, 1)).unwrap();
    assert_eq!(
        listing(&engine),
        vec![
            (1, 20_000, 0, 20_000, false),
            (2, 0, 30_000, 30_000, false),
            (3, 50_000, 0, 50_000, false),
        ]
    );
}

#[test]
fn iter_twice_gives_the_same_balances() {
    let mut engine = TransactionEngine::new();
    for client in 0..40u16 {
        engine.apply(deposit(client, 1, client as f64)).unwrap();
    }
    let first = listing(&engine);
    let second = listing(&engine);
    assert_eq!(first.len(), 40);
    assert_eq!(first, second);
}

#[test]
fn error_messages() {
    assert_eq!(
        LedgerError::AccountLocked.to_string(),
        "Customer account is locked and transaction cannot be carried out"
    );
    assert_eq!(
        LedgerError::InsufficientFunds { available: amount(15.0), requested: amount(16.0) }
            .to_string(),
        "Balance 15.0000 is less than the requested withdrawal amount of 16.0000"
    );
    assert_eq!(
        LedgerError::InsufficientHeld { held: amount(-0.5), requested: amount(1.25) }.to_string(),
        "Held amount -0.5000 is less than the requested amount of 1.2500"
    );
    assert_eq!(
        LedgerError::CustomerMissing(65535).to_string(),
        "Ledger for customer 65535 could not be found"
    );
    assert_eq!(LedgerError::Overflow.to_string(), "Balance would be out of range");
}

#[test]
fn engine_takes_amounts_below_zero_as_they_stand() {
    let mut engine = TransactionEngine::new();
    engine.apply(deposit(1, 1, 10.0)).unwrap();
    assert_eq!(engine.apply(deposit(1, 2, -4.0)), Ok(()));
    assert_eq!(state(&balance_of(&engine, 1)), (60_000, 0, 60_000, false));
    assert_eq!(engine.apply(withdrawal(1, 3, -1.0)), Ok(()));
    assert_eq!(state(&balance_of(&engine, 1)), (70_000, 0, 70_000, false));
}
