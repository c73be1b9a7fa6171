//! A transaction engine: it replays deposits, withdrawals, disputes,
//! resolutions and chargebacks against per-client ledgers and reports the
//! resulting balances.
//!
//! Every amount is an exact number of ten-thousandths, so balances never pick
//! up rounding noise. The behaviour of each operation is stated as a contract
//! over a mathematical model of the account and proved against it.
pub mod text;
pub mod transaction;
