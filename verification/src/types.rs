//! The data model: event kinds, incoming rows, stored events, account rows,
//! history keys, and the error type for fatal failures.

use vstd::prelude::*;

verus! {

/// The closed set of recognized event kinds.
#[derive(Clone, Copy, Debug, PartialEq, Eq, Structural)]
pub enum TransactionType {
    Deposit,
    Withdrawal,
    Dispute,
    Resolve,
    Chargeback,
}

/// One event as delivered by the input source. The kind arrives as a string
/// token and is resolved against the five recognized tokens, case-sensitively.
///
/// `amount` is a fixed-point decimal in units of 1/10_000 (four fractional
/// digits). It must be present for deposits and withdrawals and is ignored
/// for disputes, resolves and chargebacks.
#[derive(Debug)]
pub struct InputRow {
    pub kind: String,
    pub client: u16,
    pub tx: u32,
    pub amount: Option<u64>,
}

/// One event in the shape the core works with: the kind already resolved.
/// This is what the history stores verbatim once an event is accepted.
#[derive(Clone, Copy, Debug, PartialEq, Eq, Structural)]
pub struct Event {
    pub kind: TransactionType,
    pub client: u16,
    pub tx: u32,
    pub amount: Option<u64>,
}

/// The running balance state of one client, and the final output shape.
///
/// Balances are signed fixed-point values in units of 1/10_000: a dispute
/// raised after a withdrawal legitimately drives `available` negative.
#[derive(Clone, Copy, Debug, PartialEq, Eq, Structural)]
pub struct OutputRow {
    pub client: u16,
    pub available: i128,
    pub held: i128,
    pub total: i128,
    pub locked: bool,
}

/// The key under which an accepted event is recorded: only deposits,
/// withdrawals and disputes are ever recorded, each under its own kind.
#[derive(Clone, Copy, Debug, PartialEq, Eq, Structural)]
pub struct HistoryKey {
    pub client: u16,
    pub tx: u32,
    pub tx_type: TransactionType,
}

/// The fatal failure class: either failure aborts the whole run, with the
/// state of any partial output unspecified. Everything else (insufficient
/// funds, references to unknown transactions) is absorbed as a silent no-op.
#[derive(Clone, Copy, Debug, PartialEq, Eq, Structural)]
pub enum EngineError {
    /// The kind token is none of the five recognized strings.
    UnknownKind,
    /// A deposit or withdrawal arrived without an amount.
    MissingAmount,
}

/// Resolution of a kind token, case-sensitive exact match.
pub open spec fn spec_kind(s: Seq<char>) -> Option<TransactionType> {
    if s == "deposit"@ {
        Some(TransactionType::Deposit)
    } else if s == "withdrawal"@ {
        Some(TransactionType::Withdrawal)
    } else if s == "dispute"@ {
        Some(TransactionType::Dispute)
    } else if s == "resolve"@ {
        Some(TransactionType::Resolve)
    } else if s == "chargeback"@ {
        Some(TransactionType::Chargeback)
    } else {
        None
    }
}

impl InputRow {
    /// Resolves the row's kind token against the five recognized strings.
    pub fn transaction_type(&self) -> (r: Option<TransactionType>)
        ensures
            r == spec_kind(self.kind@),
    {
        if self.kind == "deposit".to_owned() {
            Some(TransactionType::Deposit)
        } else if self.kind == "withdrawal".to_owned() {
            Some(TransactionType::Withdrawal)
        } else if self.kind == "dispute".to_owned() {
            Some(TransactionType::Dispute)
        } else if self.kind == "resolve".to_owned() {
            Some(TransactionType::Resolve)
        } else if self.kind == "chargeback".to_owned() {
            Some(TransactionType::Chargeback)
        } else {
            None
        }
    }
}

/// The event that the history records for an accepted row: the row's fields
/// with the kind resolved.
pub open spec fn event_of(row: InputRow, t: TransactionType) -> Event {
    Event { kind: t, client: row.client, tx: row.tx, amount: row.amount }
}

/// A fresh zero-balance account, created the first time a client is referenced.
pub open spec fn new_account(client: u16) -> OutputRow {
    OutputRow { client, available: 0, held: 0, total: 0, locked: false }
}

/// The account invariant: the total is the sum of the available and the held
/// funds. It holds of every account after every transition.
pub open spec fn balanced(acc: OutputRow) -> bool {
    acc.total == acc.available + acc.held
}

/// Whether a mathematical balance still fits the signed 128-bit representation.
pub open spec fn fits_i128(x: int) -> bool {
    i128::MIN <= x <= i128::MAX
}

} // verus!
