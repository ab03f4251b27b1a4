//! The laws of the ledger, stated and proved over the spec-level model:
//! the balance invariant, the abort behaviour of fatal events, the no-op
//! policies of the transition rules, the effect of a replayed deposit, and
//! the independence of distinct clients.

use vstd::prelude::*;

use crate::engine::{spec_run, spec_step, LedgerState};
use crate::processors::{
    lemma_rules_preserve_balance, spec_chargeback, spec_deposit, spec_dispute, spec_ref_amount,
    spec_resolve, spec_withdrawal,
};
use crate::types::{
    balanced, event_of, fits_i128, new_account, spec_kind, EngineError, Event, HistoryKey,
    InputRow, OutputRow, TransactionType,
};

verus! {

/// Every account of the map satisfies `total == available + held`.
pub open spec fn all_balanced(m: Map<u16, OutputRow>) -> bool {
    forall|c: u16| #[trigger] m.contains_key(c) ==> balanced(m[c])
}

/// One step keeps every account balanced.
pub proof fn lemma_step_preserves_balance(
    clients: Map<u16, OutputRow>,
    h: Map<HistoryKey, Event>,
    row: InputRow,
)
    requires
        all_balanced(clients),
        spec_step(clients, h, row) is Ok,
    ensures
        all_balanced(spec_step(clients, h, row)->Ok_0.0),
{
    let acc0 = if clients.contains_key(row.client) {
        clients[row.client]
    } else {
        new_account(row.client)
    };
    lemma_rules_preserve_balance(row, acc0, h);
    let m2 = spec_step(clients, h, row)->Ok_0.0;
    assert forall|c: u16| #[trigger] m2.contains_key(c) implies balanced(m2[c]) by {
        if c != row.client {
            assert(m2[c] == clients[c]);
        }
    }
}

/// The balance invariant of a whole run: every account a successful run
/// produces satisfies `total == available + held`. Every prefix of a
/// successful run is itself a successful run, so the invariant holds at
/// every point in time, not only at the end.
pub proof fn lemma_run_balanced(rows: Seq<InputRow>)
    requires
        spec_run(rows) is Ok,
    ensures
        all_balanced(spec_run(rows)->Ok_0.0),
    decreases rows.len(),
{
    if rows.len() > 0 {
        lemma_run_balanced(rows.drop_last());
        let prev = spec_run(rows.drop_last())->Ok_0;
        lemma_step_preserves_balance(prev.0, prev.1, rows.last());
    }
}

/// An event whose kind token is none of the five recognized strings aborts
/// the whole run: if the rows before it all went through, the run's result
/// is the unknown-kind error, whatever rows follow.
pub proof fn lemma_unknown_kind_aborts(rows: Seq<InputRow>, i: int)
    requires
        0 <= i < rows.len(),
        spec_run(rows.take(i)) is Ok,
        spec_kind(rows[i].kind@) is None,
    ensures
        spec_run(rows) == Err::<LedgerState, EngineError>(EngineError::UnknownKind),
{
    assert(rows.take(i + 1).drop_last() =~= rows.take(i));
    assert(rows.take(i + 1).last() == rows[i]);
    crate::engine::lemma_error_persists(rows, i + 1);
}

/// A withdrawal of more than the available (or more than the total) funds
/// leaves the account and the history unchanged.
pub proof fn lemma_withdrawal_insufficient_funds(
    row: InputRow,
    acc: OutputRow,
    h: Map<HistoryKey, Event>,
)
    requires
        row.amount is Some,
        row.amount.unwrap() as int > acc.available || row.amount.unwrap() as int > acc.total,
    ensures
        spec_withdrawal(row, acc, h) == (acc, h),
{
}

/// Disputing a transaction id under which the client has no recorded deposit
/// and no recorded withdrawal is a no-op.
pub proof fn lemma_dispute_unknown_reference(
    row: InputRow,
    acc: OutputRow,
    h: Map<HistoryKey, Event>,
)
    requires
        !h.contains_key(
            (HistoryKey { client: row.client, tx: row.tx, tx_type: TransactionType::Deposit }),
        ),
        !h.contains_key(
            (HistoryKey { client: row.client, tx: row.tx, tx_type: TransactionType::Withdrawal }),
        ),
    ensures
        spec_dispute(row, acc, h) == (acc, h),
{
}

/// Resolving or charging back a transaction id with no dispute on record is
/// a no-op.
pub proof fn lemma_resolve_chargeback_without_dispute(
    row: InputRow,
    acc: OutputRow,
    h: Map<HistoryKey, Event>,
)
    requires
        !h.contains_key(
            (HistoryKey { client: row.client, tx: row.tx, tx_type: TransactionType::Dispute }),
        ),
    ensures
        spec_resolve(row, acc, h) == (acc, h),
        spec_chargeback(row, acc, h) == (acc, h),
{
}

/// A deposit replayed under an already-used transaction id applies its
/// monetary effect again, but the history keeps the first record: a later
/// dispute of that id recovers the first deposit's amount.
pub proof fn lemma_deposit_replayed_same_tx(
    row1: InputRow,
    row2: InputRow,
    acc: OutputRow,
    h: Map<HistoryKey, Event>,
)
    requires
        row1.client == row2.client,
        row1.tx == row2.tx,
        row1.amount is Some,
        row2.amount is Some,
        !h.contains_key(
            (HistoryKey { client: row1.client, tx: row1.tx, tx_type: TransactionType::Deposit }),
        ),
        fits_i128(acc.available + row1.amount.unwrap() + row2.amount.unwrap()),
        fits_i128(acc.total + row1.amount.unwrap() + row2.amount.unwrap()),
        fits_i128(acc.available + row1.amount.unwrap()),
        fits_i128(acc.total + row1.amount.unwrap()),
    ensures
        ({
            let first = spec_deposit(row1, acc, h);
            let second = spec_deposit(row2, first.0, first.1);
            &&& second.0.available == acc.available + row1.amount.unwrap() + row2.amount.unwrap()
            &&& second.0.total == acc.total + row1.amount.unwrap() + row2.amount.unwrap()
            &&& second.0.held == acc.held
            &&& second.1[(HistoryKey {
                client: row1.client,
                tx: row1.tx,
                tx_type: TransactionType::Deposit,
            })] == event_of(row1, TransactionType::Deposit)
            &&& spec_ref_amount(second.1, row1.client, row1.tx) == row1.amount
        }),
{
}

/// A history entry is immutable once inserted: no later event deletes or
/// rewrites it. An account, once created, is never deleted either.
pub proof fn lemma_ledger_grows_monotonically(
    clients: Map<u16, OutputRow>,
    h: Map<HistoryKey, Event>,
    row: InputRow,
)
    requires
        spec_step(clients, h, row) is Ok,
    ensures
        forall|k: HistoryKey|
            #![all_triggers]
            h.contains_key(k) ==> spec_step(clients, h, row)->Ok_0.1.contains_key(k) && spec_step(
                clients,
                h,
                row,
            )->Ok_0.1[k] == h[k],
        forall|c: u16| #[trigger]
            clients.contains_key(c) ==> spec_step(clients, h, row)->Ok_0.0.contains_key(c),
{
}

/// The rows of the input that belong to one client, in their order of arrival.
pub open spec fn restrict_client(rows: Seq<InputRow>, c: u16) -> Seq<InputRow>
    decreases rows.len(),
{
    if rows.len() == 0 {
        Seq::<InputRow>::empty()
    } else {
        let p = restrict_client(rows.drop_last(), c);
        if rows.last().client == c {
            p.push(rows.last())
        } else {
            p
        }
    }
}

/// Two account maps agree on one client.
pub open spec fn acct_agree(m1: Map<u16, OutputRow>, m2: Map<u16, OutputRow>, c: u16) -> bool {
    &&& m1.contains_key(c) == m2.contains_key(c)
    &&& m1.contains_key(c) ==> m1[c] == m2[c]
}

/// Two histories agree on every key of one client.
pub open spec fn hist_agree(
    h1: Map<HistoryKey, Event>,
    h2: Map<HistoryKey, Event>,
    c: u16,
) -> bool {
    forall|k: HistoryKey|
        #![all_triggers]
        k.client == c ==> (h1.contains_key(k) == h2.contains_key(k)) && (h1.contains_key(k)
            ==> h1[k] == h2[k])
}

/// A step for some other client neither touches this client's account nor
/// its history entries.
pub proof fn lemma_step_other_client(
    clients: Map<u16, OutputRow>,
    h: Map<HistoryKey, Event>,
    row: InputRow,
    c: u16,
)
    requires
        row.client != c,
        spec_step(clients, h, row) is Ok,
    ensures
        acct_agree(spec_step(clients, h, row)->Ok_0.0, clients, c),
        hist_agree(spec_step(clients, h, row)->Ok_0.1, h, c),
{
}

/// Two ledgers that agree on one client take a step of that client to two
/// ledgers that still agree on it, and fail in exactly the same way.
pub proof fn lemma_step_same_client(
    clients1: Map<u16, OutputRow>,
    h1: Map<HistoryKey, Event>,
    clients2: Map<u16, OutputRow>,
    h2: Map<HistoryKey, Event>,
    row: InputRow,
    c: u16,
)
    requires
        row.client == c,
        acct_agree(clients1, clients2, c),
        hist_agree(h1, h2, c),
    ensures
        spec_step(clients1, h1, row) is Ok <==> spec_step(clients2, h2, row) is Ok,
        spec_step(clients1, h1, row) is Err ==> spec_step(clients1, h1, row) == spec_step(
            clients2,
            h2,
            row,
        ),
        spec_step(clients1, h1, row) is Ok ==> acct_agree(
            spec_step(clients1, h1, row)->Ok_0.0,
            spec_step(clients2, h2, row)->Ok_0.0,
            c,
        ) && hist_agree(
            spec_step(clients1, h1, row)->Ok_0.1,
            spec_step(clients2, h2, row)->Ok_0.1,
            c,
        ),
{
    let kd = HistoryKey { client: c, tx: row.tx, tx_type: TransactionType::Deposit };
    let kw = HistoryKey { client: c, tx: row.tx, tx_type: TransactionType::Withdrawal };
    let kdis = HistoryKey { client: c, tx: row.tx, tx_type: TransactionType::Dispute };
    assert(spec_ref_amount(h1, c, row.tx) == spec_ref_amount(h2, c, row.tx));
    assert(h1.contains_key(kdis) == h2.contains_key(kdis));
}

/// No client ever influences another client's account: after a successful
/// run, a client's account (and its slice of the history) is exactly what
/// replaying only that client's rows produces, whatever other clients' rows
/// were interleaved with them.
pub proof fn lemma_client_independence(rows: Seq<InputRow>, c: u16)
    requires
        spec_run(rows) is Ok,
    ensures
        spec_run(restrict_client(rows, c)) is Ok,
        acct_agree(
            spec_run(rows)->Ok_0.0,
            spec_run(restrict_client(rows, c))->Ok_0.0,
            c,
        ),
        hist_agree(
            spec_run(rows)->Ok_0.1,
            spec_run(restrict_client(rows, c))->Ok_0.1,
            c,
        ),
    decreases rows.len(),
{
    if rows.len() > 0 {
        let prev = rows.drop_last();
        let r = rows.last();
        lemma_client_independence(prev, c);
        let full_prev = spec_run(prev)->Ok_0;
        let filt_prev = spec_run(restrict_client(prev, c))->Ok_0;
        if r.client == c {
            let filtered = restrict_client(rows, c);
            assert(filtered == restrict_client(prev, c).push(r));
            assert(filtered.drop_last() =~= restrict_client(prev, c));
            assert(filtered.last() == r);
            lemma_step_same_client(full_prev.0, full_prev.1, filt_prev.0, filt_prev.1, r, c);
        } else {
            assert(restrict_client(rows, c) == restrict_client(prev, c));
            lemma_step_other_client(full_prev.0, full_prev.1, r, c);
        }
    }
}

} // verus!
