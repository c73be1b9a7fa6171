//! Transactions as they are written in a record of four fields: the type,
//! the client, the transaction id and the amount.
use vstd::prelude::*;
use vstd::string::*;

use super::amount::{Amount, AmountError};
use super::{ClientId, Transaction, TransactionId, TransactionType};
use crate::text::{chars_of, same_text, trim, trimmed, unsigned, unsigned_of};

verus! {

/// One of the four fields of a record.
#[derive(Clone, Copy, Debug, PartialEq, Eq, Structural)]
pub enum Field {
    Type,
    Client,
    Tx,
    Amount,
}

/// Why a record is no transaction.
#[derive(Clone, Copy, Debug, PartialEq, Eq, Structural)]
pub enum RecordError {
    /// A field that the transaction needs is absent or blank.
    Missing(Field),
    /// The client or the transaction id is not a whole number in range.
    InvalidNumber(Field),
    /// The amount is written, but not as an amount.
    InvalidAmount(AmountError),
    /// A deposit or a withdrawal is of an amount below zero.
    NegativeAmount,
    /// The type is none of `deposit`, `withdrawal`, `dispute`, `resolve` and
    /// `chargeback`.
    UnknownType,
}

/// What is written in a field once the blanks around it are left out, or
/// `None` where nothing is.
pub open spec fn written(field: Seq<char>) -> Option<Seq<char>> {
    if trimmed(field).len() == 0 {
        None
    } else {
        Some(trimmed(field))
    }
}

/// What a transaction of the type that `kind` names does, given the amount
/// that the record holds, if it holds one. The type is taken as it stands,
/// blanks included. Only a deposit and a withdrawal have an amount, which is
/// not below zero; for the others an amount in the record is passed over.
pub open spec fn type_of(kind: Seq<char>, amount: Option<int>) -> Result<
    TransactionType,
    RecordError,
> {
    if kind == "deposit"@ || kind == "withdrawal"@ {
        match amount {
            None => Err(RecordError::Missing(Field::Amount)),
            Some(units) => if units < 0 {
                Err(RecordError::NegativeAmount)
            } else if kind == "deposit"@ {
                Ok(TransactionType::Deposit { amount: Amount::of(units) })
            } else {
                Ok(TransactionType::Withdrawal { amount: Amount::of(units) })
            },
        }
    } else if kind == "dispute"@ {
        Ok(TransactionType::Dispute)
    } else if kind == "resolve"@ {
        Ok(TransactionType::Resolve)
    } else if kind == "chargeback"@ {
        Ok(TransactionType::ChargeBack)
    } else {
        Err(RecordError::UnknownType)
    }
}

/// The transaction that a record of these four fields stands for, or why it
/// stands for none.
///
/// The client, the transaction id and the amount may have blanks around
/// them, and a field that holds blanks only counts as absent. What is
/// written in them is looked at first, in this order; then whether the type,
/// the client and the transaction id are there; then the type.
pub open spec fn record_of(
    kind: Seq<char>,
    client: Seq<char>,
    tx: Seq<char>,
    amount: Seq<char>,
) -> Result<Transaction, RecordError> {
    let client_id = match written(client) {
        Some(text) => unsigned_of(text, ClientId::MAX as nat),
        None => None,
    };
    let tx_id = match written(tx) {
        Some(text) => unsigned_of(text, TransactionId::MAX as nat),
        None => None,
    };
    let units = match written(amount) {
        Some(text) => Amount::units_of(text),
        None => Ok(0),
    };
    if written(client) is Some && client_id is None {
        Err(RecordError::InvalidNumber(Field::Client))
    } else if written(tx) is Some && tx_id is None {
        Err(RecordError::InvalidNumber(Field::Tx))
    } else if units is Err {
        Err(RecordError::InvalidAmount(units->Err_0))
    } else if kind.len() == 0 {
        Err(RecordError::Missing(Field::Type))
    } else if written(client) is None {
        Err(RecordError::Missing(Field::Client))
    } else if written(tx) is None {
        Err(RecordError::Missing(Field::Tx))
    } else {
        let amount = if written(amount) is Some {
            Some(units->Ok_0)
        } else {
            None
        };
        match type_of(kind, amount) {
            Ok(txn_type) => Ok(
                Transaction {
                    client: client_id->0 as ClientId,
                    tx: tx_id->0 as TransactionId,
                    txn_type,
                },
            ),
            Err(error) => Err(error),
        }
    }
}

/// A transaction that is read from a record has no amount below zero.
pub proof fn lemma_records_are_well_formed(
    kind: Seq<char>,
    client: Seq<char>,
    tx: Seq<char>,
    amount: Seq<char>,
)
    ensures
        record_of(kind, client, tx, amount) matches Ok(transaction)
            ==> transaction.txn_type.well_formed(),
{
    match written(amount) {
        Some(text) => match Amount::units_of(text) {
            Ok(units) => {
                Amount::lemma_of(units);
            },
            Err(_) => {},
        },
        None => {},
    }
}

/// The field of `fields` at `position`, which is empty where the record has
/// no such field.
pub open spec fn field_at(fields: Seq<String>, position: int) -> Seq<char> {
    if 0 <= position < fields.len() {
        fields[position]@
    } else {
        Seq::empty()
    }
}

/// The field of `fields` at `position`.
fn field(fields: &Vec<String>, position: usize) -> (text: &str)
    ensures
        text@ == field_at(fields@, position as int),
{
    if position < fields.len() {
        fields[position].as_str()
    } else {
        proof {
            reveal_strlit("");
        }
        assert(""@ =~= Seq::empty());
        ""
    }
}

/// The whole number written in `field`, if anything is written in it.
fn number(field: &str, max: u64, which: Field) -> (value: Result<Option<u64>, RecordError>)
    ensures
        match written(field@) {
            None => value == Ok::<Option<u64>, RecordError>(None),
            Some(text) => match unsigned_of(text, max as nat) {
                Some(n) => value == Ok::<Option<u64>, RecordError>(Some(n as u64)) && n <= max,
                None => value == Err::<Option<u64>, RecordError>(RecordError::InvalidNumber(which)),
            },
        },
{
    let chars = chars_of(field);
    let (from, to) = trim(&chars);
    if from == to {
        return Ok(None);
    }
    match unsigned(&chars, from, to, max) {
        Some(value) => Ok(Some(value)),
        None => Err(RecordError::InvalidNumber(which)),
    }
}

/// The amount written in `field`, if anything is written in it.
fn amount(field: &str) -> (value: Result<Option<Amount>, RecordError>)
    ensures
        match written(field@) {
            None => value == Ok::<Option<Amount>, RecordError>(None),
            Some(text) => match Amount::units_of(text) {
                Ok(units) => value == Ok::<Option<Amount>, RecordError>(Some(Amount::of(units))),
                Err(error) => value == Err::<Option<Amount>, RecordError>(
                    RecordError::InvalidAmount(error),
                ),
            },
        },
{
    let chars = chars_of(field);
    let (from, to) = trim(&chars);
    if from == to {
        return Ok(None);
    }
    match Amount::read(&chars, from, to) {
        Ok(amount) => {
            proof {
                amount.lemma_of_view();
            }
            Ok(Some(amount))
        },
        Err(error) => Err(RecordError::InvalidAmount(error)),
    }
}

impl TransactionType {
    /// What a transaction of the type that `kind` names does, given the
    /// amount of the record.
    pub fn parse(kind: &str, amount: Option<Amount>) -> (txn_type: Result<
        TransactionType,
        RecordError,
    >)
        ensures
            txn_type == type_of(
                kind@,
                match amount {
                    Some(amount) => Some(amount@),
                    None => None,
                },
            ),
    {
        let deposit = same_text(kind, "deposit");
        if deposit || same_text(kind, "withdrawal") {
            match amount {
                None => Err(RecordError::Missing(Field::Amount)),
                Some(amount) => {
                    proof {
                        amount.lemma_of_view();
                    }
                    if amount.is_negative() {
                        Err(RecordError::NegativeAmount)
                    } else if deposit {
                        Ok(TransactionType::Deposit { amount })
                    } else {
                        Ok(TransactionType::Withdrawal { amount })
                    }
                },
            }
        } else if same_text(kind, "dispute") {
            Ok(TransactionType::Dispute)
        } else if same_text(kind, "resolve") {
            Ok(TransactionType::Resolve)
        } else if same_text(kind, "chargeback") {
            Ok(TransactionType::ChargeBack)
        } else {
            Err(RecordError::UnknownType)
        }
    }
}

impl Transaction {
    /// Reads a transaction from the four fields of a record. A field that
    /// the record lacks is passed as the empty text.
    pub fn parse(kind: &str, client: &str, tx: &str, amount: &str) -> (transaction: Result<
        Transaction,
        RecordError,
    >)
        ensures
            transaction == record_of(kind@, client@, tx@, amount@),
    {
        let client_id = number(client, 0xffff, Field::Client)?;
        let tx_id = number(tx, 0xffff_ffff, Field::Tx)?;
        let units = self::amount(amount)?;
        if kind.is_empty() {
            return Err(RecordError::Missing(Field::Type));
        }
        let client_id = match client_id {
            Some(client_id) => client_id as ClientId,
            None => {
                return Err(RecordError::Missing(Field::Client));
            },
        };
        let tx_id = match tx_id {
            Some(tx_id) => tx_id as TransactionId,
            None => {
                return Err(RecordError::Missing(Field::Tx));
            },
        };
        proof {
            if units is Some {
                Amount::lemma_of(Amount::units_of(written(amount@)->0)->Ok_0);
            }
        }
        let txn_type = TransactionType::parse(kind, units)?;
        Ok(Transaction::new(client_id, tx_id, txn_type))
    }

    /// Reads a transaction from a record whose fields are, in this order,
    /// the type, the client, the transaction id and the amount. A record may
    /// be short of fields at its end; what follows the fourth is passed
    /// over.
    pub fn from_record(fields: &Vec<String>) -> (transaction: Result<Transaction, RecordError>)
        ensures
            transaction == record_of(
                field_at(fields@, 0),
                field_at(fields@, 1),
                field_at(fields@, 2),
                field_at(fields@, 3),
            ),
    {
        Transaction::parse(field(fields, 0), field(fields, 1), field(fields, 2), field(fields, 3))
    }
}

} // verus!
