//! The five transition rules. Each rule mutates one account in place and
//! conditionally records the event into the history; invalid or inapplicable
//! events are absorbed as silent no-ops, so that one bad row never fails the
//! whole stream.
//!
//! Each rule's behaviour is pinned down by a spec function of the same shape,
//! a pure function from (row, account, history) to (account, history).
//!
//! A transition whose exact result would leave the signed 128-bit range is
//! also absorbed as a no-op: balances never wrap around and never silently
//! lose value. (No realistic stream reaches that range: it would take about
//! 2^64 maximal deposits.)

use vstd::prelude::*;

use crate::history::History;
use crate::types::{
    balanced, event_of, fits_i128, Event, HistoryKey, InputRow, OutputRow, TransactionType,
};

verus! {

/// The amount a dispute against `(client, tx)` refers to: the recorded
/// deposit's amount, the recorded withdrawal's otherwise. `None` when neither
/// event is on record (or the record carries no amount, which no reachable
/// history contains).
pub open spec fn spec_ref_amount(h: Map<HistoryKey, Event>, client: u16, tx: u32) -> Option<u64> {
    let kd = HistoryKey { client, tx, tx_type: TransactionType::Deposit };
    let kw = HistoryKey { client, tx, tx_type: TransactionType::Withdrawal };
    if h.contains_key(kd) {
        h[kd].amount
    } else if h.contains_key(kw) {
        h[kw].amount
    } else {
        None
    }
}

/// The amount a resolve or chargeback against `(client, tx)` acts on: the
/// referenced amount, but only once a dispute is on record for the pair.
pub open spec fn spec_dispute_amount(h: Map<HistoryKey, Event>, client: u16, tx: u32) -> Option<
    u64,
> {
    let kdis = HistoryKey { client, tx, tx_type: TransactionType::Dispute };
    if h.contains_key(kdis) {
        spec_ref_amount(h, client, tx)
    } else {
        None
    }
}

/// Deposit: credit the amount to the available and total funds, and record
/// the event under the deposit key (first writer stays).
pub open spec fn spec_deposit(row: InputRow, acc: OutputRow, h: Map<HistoryKey, Event>) -> (
    OutputRow,
    Map<HistoryKey, Event>,
)
    recommends
        row.amount is Some,
{
    let a = row.amount.unwrap() as int;
    if fits_i128(acc.available + a) && fits_i128(acc.total + a) {
        let acc2 = OutputRow {
            available: (acc.available + a) as i128,
            total: (acc.total + a) as i128,
            ..acc
        };
        let key = HistoryKey { client: row.client, tx: row.tx, tx_type: TransactionType::Deposit };
        let h2 = if h.contains_key(key) {
            h
        } else {
            h.insert(key, event_of(row, TransactionType::Deposit))
        };
        (acc2, h2)
    } else {
        (acc, h)
    }
}

/// Withdrawal: debit the amount from the available and total funds, and
/// record the event under the withdrawal key — unless the amount exceeds
/// either balance, in which case the account is left unchanged and nothing
/// is recorded.
pub open spec fn spec_withdrawal(row: InputRow, acc: OutputRow, h: Map<HistoryKey, Event>) -> (
    OutputRow,
    Map<HistoryKey, Event>,
)
    recommends
        row.amount is Some,
{
    let a = row.amount.unwrap() as int;
    if a > acc.available || a > acc.total {
        (acc, h)
    } else {
        let acc2 = OutputRow {
            available: (acc.available - a) as i128,
            total: (acc.total - a) as i128,
            ..acc
        };
        let key = HistoryKey {
            client: row.client,
            tx: row.tx,
            tx_type: TransactionType::Withdrawal,
        };
        let h2 = if h.contains_key(key) {
            h
        } else {
            h.insert(key, event_of(row, TransactionType::Withdrawal))
        };
        (acc2, h2)
    }
}

/// Dispute: move the referenced amount from available to held, and record
/// the dispute. A dispute whose transaction id matches no recorded deposit
/// or withdrawal of the client is a no-op.
pub open spec fn spec_dispute(row: InputRow, acc: OutputRow, h: Map<HistoryKey, Event>) -> (
    OutputRow,
    Map<HistoryKey, Event>,
) {
    match spec_ref_amount(h, row.client, row.tx) {
        None => (acc, h),
        Some(a0) => {
            let a = a0 as int;
            if fits_i128(acc.available - a) && fits_i128(acc.held + a) {
                let acc2 = OutputRow {
                    available: (acc.available - a) as i128,
                    held: (acc.held + a) as i128,
                    ..acc
                };
                let key = HistoryKey {
                    client: row.client,
                    tx: row.tx,
                    tx_type: TransactionType::Dispute,
                };
                let h2 = if h.contains_key(key) {
                    h
                } else {
                    h.insert(key, event_of(row, TransactionType::Dispute))
                };
                (acc2, h2)
            } else {
                (acc, h)
            }
        },
    }
}

/// Resolve: return the disputed amount from held to available. A resolve
/// with no dispute on record for its (client, tx) pair is a no-op, and
/// nothing is ever recorded.
pub open spec fn spec_resolve(row: InputRow, acc: OutputRow, h: Map<HistoryKey, Event>) -> (
    OutputRow,
    Map<HistoryKey, Event>,
) {
    match spec_dispute_amount(h, row.client, row.tx) {
        None => (acc, h),
        Some(a0) => {
            let a = a0 as int;
            if fits_i128(acc.held - a) && fits_i128(acc.available + a) {
                let acc2 = OutputRow {
                    held: (acc.held - a) as i128,
                    available: (acc.available + a) as i128,
                    ..acc
                };
                (acc2, h)
            } else {
                (acc, h)
            }
        },
    }
}

/// Chargeback: withdraw the disputed amount from held and total, and lock
/// the account. A chargeback with no dispute on record for its (client, tx)
/// pair is a no-op, and nothing is ever recorded.
pub open spec fn spec_chargeback(row: InputRow, acc: OutputRow, h: Map<HistoryKey, Event>) -> (
    OutputRow,
    Map<HistoryKey, Event>,
) {
    match spec_dispute_amount(h, row.client, row.tx) {
        None => (acc, h),
        Some(a0) => {
            let a = a0 as int;
            if fits_i128(acc.held - a) && fits_i128(acc.total - a) {
                let acc2 = OutputRow {
                    held: (acc.held - a) as i128,
                    total: (acc.total - a) as i128,
                    locked: true,
                    ..acc
                };
                (acc2, h)
            } else {
                (acc, h)
            }
        },
    }
}

/// Applies a deposit to the client's account.
pub fn process_deposit(input_row: &InputRow, client_row: &mut OutputRow, history: &mut History)
    requires
        input_row.amount is Some,
    ensures
        (*final(client_row), final(history)@) == spec_deposit(
            *input_row,
            *old(client_row),
            old(history)@,
        ),
{
    let amount = input_row.amount.unwrap();
    let a = amount as i128;
    if client_row.available <= i128::MAX - a && client_row.total <= i128::MAX - a {
        client_row.available = client_row.available + a;
        client_row.total = client_row.total + a;
        let key = HistoryKey {
            client: input_row.client,
            tx: input_row.tx,
            tx_type: TransactionType::Deposit,
        };
        let ev = Event {
            kind: TransactionType::Deposit,
            client: input_row.client,
            tx: input_row.tx,
            amount: input_row.amount,
        };
        history.record(key, ev);
    }
}

/// Applies a withdrawal to the client's account. A withdrawal of more than
/// the available (or total) funds leaves the account unchanged.
pub fn process_withdrawal(input_row: &InputRow, client_row: &mut OutputRow, history: &mut History)
    requires
        input_row.amount is Some,
    ensures
        (*final(client_row), final(history)@) == spec_withdrawal(
            *input_row,
            *old(client_row),
            old(history)@,
        ),
{
    let amount = input_row.amount.unwrap();
    let a = amount as i128;
    if a > client_row.available || a > client_row.total {
        return ;
    }
    client_row.available = client_row.available - a;
    client_row.total = client_row.total - a;
    let key = HistoryKey {
        client: input_row.client,
        tx: input_row.tx,
        tx_type: TransactionType::Withdrawal,
    };
    let ev = Event {
        kind: TransactionType::Withdrawal,
        client: input_row.client,
        tx: input_row.tx,
        amount: input_row.amount,
    };
    history.record(key, ev);
}

/// Raises a dispute against a prior deposit or withdrawal of the client,
/// moving the referenced amount from available to held.
pub fn process_dispute(input_row: &InputRow, client_row: &mut OutputRow, history: &mut History)
    ensures
        (*final(client_row), final(history)@) == spec_dispute(
            *input_row,
            *old(client_row),
            old(history)@,
        ),
{
    let kd = HistoryKey {
        client: input_row.client,
        tx: input_row.tx,
        tx_type: TransactionType::Deposit,
    };
    let kw = HistoryKey {
        client: input_row.client,
        tx: input_row.tx,
        tx_type: TransactionType::Withdrawal,
    };
    let amount_opt = match history.lookup(kd) {
        Some(ev) => ev.amount,
        None => match history.lookup(kw) {
            Some(ev) => ev.amount,
            None => None,
        },
    };
    if let Some(amount) = amount_opt {
        let a = amount as i128;
        if client_row.available >= i128::MIN + a && client_row.held <= i128::MAX - a {
            client_row.available = client_row.available - a;
            client_row.held = client_row.held + a;
            let key = HistoryKey {
                client: input_row.client,
                tx: input_row.tx,
                tx_type: TransactionType::Dispute,
            };
            let ev = Event {
                kind: TransactionType::Dispute,
                client: input_row.client,
                tx: input_row.tx,
                amount: input_row.amount,
            };
            history.record(key, ev);
        }
    }
}

/// Resolves an open dispute, returning the held amount to available.
pub fn process_resolve(input_row: &InputRow, client_row: &mut OutputRow, history: &mut History)
    ensures
        (*final(client_row), final(history)@) == spec_resolve(
            *input_row,
            *old(client_row),
            old(history)@,
        ),
{
    if let Some(amount) = get_dispute_amount(input_row, history) {
        let a = amount as i128;
        if client_row.held >= i128::MIN + a && client_row.available <= i128::MAX - a {
            client_row.held = client_row.held - a;
            client_row.available = client_row.available + a;
        }
    }
}

/// Finalizes a dispute against the client: the held amount leaves the
/// account for good and the account is locked.
pub fn process_chargeback(input_row: &InputRow, client_row: &mut OutputRow, history: &mut History)
    ensures
        (*final(client_row), final(history)@) == spec_chargeback(
            *input_row,
            *old(client_row),
            old(history)@,
        ),
{
    if let Some(amount) = get_dispute_amount(input_row, history) {
        let a = amount as i128;
        if client_row.held >= i128::MIN + a && client_row.total >= i128::MIN + a {
            client_row.held = client_row.held - a;
            client_row.total = client_row.total - a;
            client_row.locked = true;
        }
    }
}

/// The amount a resolve or chargeback may act on: requires a dispute on
/// record for the (client, tx) pair, then recovers the amount from the
/// recorded deposit, falling back to the recorded withdrawal.
pub fn get_dispute_amount(input_row: &InputRow, history: &History) -> (r: Option<u64>)
    ensures
        r == spec_dispute_amount(history@, input_row.client, input_row.tx),
{
    let kdis = HistoryKey {
        client: input_row.client,
        tx: input_row.tx,
        tx_type: TransactionType::Dispute,
    };
    if !history.has(kdis) {
        return None;
    }
    let kd = HistoryKey {
        client: input_row.client,
        tx: input_row.tx,
        tx_type: TransactionType::Deposit,
    };
    let kw = HistoryKey {
        client: input_row.client,
        tx: input_row.tx,
        tx_type: TransactionType::Withdrawal,
    };
    match history.lookup(kd) {
        Some(ev) => ev.amount,
        None => match history.lookup(kw) {
            Some(ev) => ev.amount,
            None => None,
        },
    }
}

/// Every transition rule preserves the account invariant
/// `total == available + held`, and never changes which client the account
/// belongs to.
pub proof fn lemma_rules_preserve_balance(row: InputRow, acc: OutputRow, h: Map<HistoryKey, Event>)
    requires
        balanced(acc),
    ensures
        balanced(spec_deposit(row, acc, h).0),
        balanced(spec_withdrawal(row, acc, h).0),
        balanced(spec_dispute(row, acc, h).0),
        balanced(spec_resolve(row, acc, h).0),
        balanced(spec_chargeback(row, acc, h).0),
        spec_deposit(row, acc, h).0.client == acc.client,
        spec_withdrawal(row, acc, h).0.client == acc.client,
        spec_dispute(row, acc, h).0.client == acc.client,
        spec_resolve(row, acc, h).0.client == acc.client,
        spec_chargeback(row, acc, h).0.client == acc.client,
{
}

} // verus!
