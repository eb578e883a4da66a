//! Input records: the transaction kinds the engine understands and the
//! immutable record type the rest of the library consumes.

use vstd::prelude::*;

verus! {

/// The kind of an input transaction record. Any kind text other than the
/// five recognized lowercase words maps to `Unknown`, which every part of
/// the engine treats as a no-op record.
#[derive(Debug, Clone, Copy, PartialEq, Eq, Structural)]
pub enum TransactionType {
    Deposit,
    Withdrawal,
    Dispute,
    Resolve,
    Chargeback,
    Unknown,
}

/// One decoded input record.
///
/// `amount` is a fixed-point decimal: a count of ten-thousandths of a
/// currency unit (so `15000` means `1.5`). It is meaningful only for
/// deposits and withdrawals; dispute, resolve and chargeback records
/// carry whatever the decoder produced and the engine ignores it.
#[derive(Debug, Clone, Copy, PartialEq, Eq, Structural)]
pub struct Transaction {
    pub kind: TransactionType,
    pub client: u16,
    pub tx: u32,
    pub amount: i64,
}

/// The transaction kind denoted by a kind field's text, after trimming:
/// exactly the five lowercase words are recognized, everything else is
/// `Unknown`.
pub open spec fn transaction_type_of(text: Seq<char>) -> TransactionType {
    if text == "deposit"@ {
        TransactionType::Deposit
    } else if text == "withdrawal"@ {
        TransactionType::Withdrawal
    } else if text == "dispute"@ {
        TransactionType::Dispute
    } else if text == "resolve"@ {
        TransactionType::Resolve
    } else if text == "chargeback"@ {
        TransactionType::Chargeback
    } else {
        TransactionType::Unknown
    }
}

/// Maps the textual, case-sensitive kind field of a decoded record to a
/// [`TransactionType`]. The input decoder calls this on the trimmed kind
/// column of each row.
pub fn transaction_type_of_text(text: &String) -> (t: TransactionType)
    ensures
        t == transaction_type_of(text@),
{
    if *text == "deposit".to_owned() {
        TransactionType::Deposit
    } else if *text == "withdrawal".to_owned() {
        TransactionType::Withdrawal
    } else if *text == "dispute".to_owned() {
        TransactionType::Dispute
    } else if *text == "resolve".to_owned() {
        TransactionType::Resolve
    } else if *text == "chargeback".to_owned() {
        TransactionType::Chargeback
    } else {
        TransactionType::Unknown
    }
}

} // verus!
