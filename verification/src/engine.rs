//! The transaction engine: the account store and the router. One engine
//! instance owns the accounts of one run; events are consumed strictly in
//! delivery order, and the final state of every client touched comes out of
//! [`TransactionEngine::snapshot`] in ascending client order.

use vstd::prelude::*;

use crate::history::History;
use crate::processors::{
    process_chargeback, process_deposit, process_dispute, process_resolve, process_withdrawal,
    spec_chargeback, spec_deposit, spec_dispute, spec_resolve, spec_withdrawal,
};
use crate::types::{
    balanced, new_account, spec_kind, EngineError, Event, HistoryKey, InputRow, OutputRow,
    TransactionType,
};
use std::collections::HashMap;

verus! {

/// The state one event takes a run from and to: the accounts by client, and
/// the history of recorded events.
pub type LedgerState = (Map<u16, OutputRow>, Map<HistoryKey, Event>);

/// What one incoming event does to the ledger. Resolving an unknown kind
/// token, or finding no amount on a deposit or withdrawal, is a fatal error
/// that leaves the ledger untouched; otherwise the target account is created
/// if need be and exactly one transition rule is applied to it.
pub open spec fn spec_step(clients: Map<u16, OutputRow>, h: Map<HistoryKey, Event>, row: InputRow) -> Result<
    LedgerState,
    EngineError,
> {
    match spec_kind(row.kind@) {
        None => Err(EngineError::UnknownKind),
        Some(t) => {
            if (t == TransactionType::Deposit || t == TransactionType::Withdrawal)
                && row.amount is None {
                Err(EngineError::MissingAmount)
            } else {
                let acc0 = if clients.contains_key(row.client) {
                    clients[row.client]
                } else {
                    new_account(row.client)
                };
                let stepped = match t {
                    TransactionType::Deposit => spec_deposit(row, acc0, h),
                    TransactionType::Withdrawal => spec_withdrawal(row, acc0, h),
                    TransactionType::Dispute => spec_dispute(row, acc0, h),
                    TransactionType::Resolve => spec_resolve(row, acc0, h),
                    TransactionType::Chargeback => spec_chargeback(row, acc0, h),
                };
                Ok((clients.insert(row.client, stepped.0), stepped.1))
            }
        },
    }
}

/// A whole run: the empty ledger folded over the rows in delivery order.
/// The first fatal event aborts the run with its error; no later row is
/// looked at.
pub open spec fn spec_run(rows: Seq<InputRow>) -> Result<LedgerState, EngineError>
    decreases rows.len(),
{
    if rows.len() == 0 {
        Ok((Map::<u16, OutputRow>::empty(), Map::<HistoryKey, Event>::empty()))
    } else {
        match spec_run(rows.drop_last()) {
            Err(e) => Err(e),
            Ok(state) => spec_step(state.0, state.1, rows.last()),
        }
    }
}

/// What a correct snapshot of an account map looks like: one row per account,
/// each row the account itself, in strictly ascending client order.
pub open spec fn snapshot_matches(s: Seq<OutputRow>, m: Map<u16, OutputRow>) -> bool {
    &&& forall|i: int, j: int| 0 <= i < j < s.len() ==> s[i].client < s[j].client
    &&& forall|i: int|
        0 <= i < s.len() ==> m.contains_key((#[trigger] s[i]).client) && s[i] == m[s[i].client]
    &&& forall|c: u16| #[trigger]
        m.contains_key(c) ==> exists|i: int| 0 <= i < s.len() && (#[trigger] s[i]).client == c
}

/// The account store and router of one run. `order` carries the client ids
/// of the stored accounts in ascending order, so that the snapshot comes out
/// deterministically.
pub struct TransactionEngine {
    clients: HashMap<u16, OutputRow>,
    order: Vec<u16>,
}

impl View for TransactionEngine {
    type V = Map<u16, OutputRow>;

    closed spec fn view(&self) -> Map<u16, OutputRow> {
        self.clients@
    }
}

impl TransactionEngine {
    /// Well-formedness: every stored account belongs to the client it is
    /// keyed under and satisfies the balance invariant
    /// `total == available + held`, and `order` lists exactly the stored
    /// clients, strictly ascending.
    pub closed spec fn wf(self) -> bool {
        &&& forall|c: u16| #[trigger]
            self.clients@.contains_key(c) ==> self.clients@[c].client == c && balanced(
                self.clients@[c],
            )
        &&& forall|i: int, j: int|
            0 <= i < j < self.order@.len() ==> self.order@[i] < self.order@[j]
        &&& forall|i: int|
            0 <= i < self.order@.len() ==> self.clients@.contains_key(#[trigger] self.order@[i])
        &&& forall|c: u16| #[trigger] self.clients@.contains_key(c) ==> self.order@.contains(c)
    }

    /// Every account a well-formed engine holds is balanced and keyed under
    /// its own client id.
    pub proof fn lemma_wf_accounts(self, c: u16)
        requires
            self.wf(),
            self@.contains_key(c),
        ensures
            self@[c].client == c,
            balanced(self@[c]),
    {
    }

    /// An engine with no accounts.
    pub fn new() -> (r: TransactionEngine)
        ensures
            r.wf(),
            r@ == Map::<u16, OutputRow>::empty(),
    {
        let r = TransactionEngine { clients: HashMap::new(), order: Vec::new() };
        proof {
            assert(r@ =~= Map::<u16, OutputRow>::empty());
        }
        r
    }

    /// Makes sure the client has an account, creating a zero account on the
    /// first reference; never fails.
    pub fn create_client_if_non_exists(&mut self, client: u16)
        requires
            old(self).wf(),
        ensures
            final(self).wf(),
            final(self)@ == if old(self)@.contains_key(client) {
                old(self)@
            } else {
                old(self)@.insert(client, new_account(client))
            },
    {
        if !self.clients.contains_key(&client) {
            let ghost order0 = self.order@;
            let mut i: usize = 0;
            while i < self.order.len() && self.order[i] < client
                invariant
                    self.order@ == order0,
                    i <= order0.len(),
                    forall|j: int| 0 <= j < i ==> order0[j] < client,
                decreases order0.len() - i,
            {
                i += 1;
            }
            self.order.insert(i, client);
            let new_row = OutputRow { client, available: 0, held: 0, total: 0, locked: false };
            self.clients.insert(client, new_row);
            proof {
                assert(self@ =~= old(self)@.insert(client, new_account(client)));
                let order1 = self.order@;
                assert(order1 == order0.insert(i as int, client));
                assert forall|p: int, q: int| 0 <= p < q < order1.len() implies order1[p]
                    < order1[q] by {
                    if p < i && q > i {
                        assert(order1[p] == order0[p]);
                        assert(order1[q] == order0[q - 1]);
                        assert(!old(self).clients@.contains_key(client));
                        assert(order0[q - 1] != client);
                    } else if q == i {
                        assert(order1[p] == order0[p]);
                    } else if p == i {
                        assert(order1[q] == order0[q - 1]);
                        assert(order0[q - 1] != client);
                    }
                }
                assert forall|c2: u16| #[trigger] self.clients@.contains_key(c2) implies
                    self.order@.contains(c2) by {
                    if c2 == client {
                        assert(self.order@[i as int] == c2);
                    } else {
                        let j = choose|j: int| 0 <= j < order0.len() && order0[j] == c2;
                        if j < i {
                            assert(self.order@[j] == c2);
                        } else {
                            assert(self.order@[j + 1] == c2);
                        }
                    }
                }
            }
        }
    }

    /// Routes one incoming event: resolves its kind, checks that a deposit
    /// or withdrawal carries an amount, makes sure the account exists, and
    /// applies exactly one transition rule. A fatal error leaves the engine
    /// and the history exactly as they were.
    pub fn process_single_transaction(
        &mut self,
        input_row: &InputRow,
        history: &mut History,
    ) -> (r: Result<(), EngineError>)
        requires
            old(self).wf(),
        ensures
            final(self).wf(),
            match r {
                Ok(()) => spec_step(old(self)@, old(history)@, *input_row) == Ok::<
                    LedgerState,
                    EngineError,
                >((final(self)@, final(history)@)),
                Err(e) => {
                    &&& spec_step(old(self)@, old(history)@, *input_row) == Err::<
                        LedgerState,
                        EngineError,
                    >(e)
                    &&& final(self)@ == old(self)@
                    &&& final(history)@ == old(history)@
                },
            },
    {
        let tx_type = match input_row.transaction_type() {
            Some(t) => t,
            None => {
                return Err(EngineError::UnknownKind);
            },
        };
        if (tx_type == TransactionType::Deposit || tx_type == TransactionType::Withdrawal)
            && input_row.amount.is_none() {
            return Err(EngineError::MissingAmount);
        }
        self.create_client_if_non_exists(input_row.client);
        let mut client_row = *self.clients.get(&input_row.client).unwrap();
        match tx_type {
            TransactionType::Deposit => process_deposit(input_row, &mut client_row, history),
            TransactionType::Withdrawal => process_withdrawal(input_row, &mut client_row, history),
            TransactionType::Dispute => process_dispute(input_row, &mut client_row, history),
            TransactionType::Resolve => process_resolve(input_row, &mut client_row, history),
            TransactionType::Chargeback => process_chargeback(input_row, &mut client_row, history),
        }
        self.clients.insert(input_row.client, client_row);
        proof {
            crate::processors::lemma_rules_preserve_balance(
                *input_row,
                if old(self)@.contains_key(input_row.client) {
                    old(self)@[input_row.client]
                } else {
                    new_account(input_row.client)
                },
                old(history)@,
            );
            assert(self@ =~= old(self)@.insert(input_row.client, client_row));
        }
        Ok(())
    }

    /// The final state of every client that was ever referenced, one row per
    /// account, in ascending client order.
    pub fn snapshot(&self) -> (out: Vec<OutputRow>)
        requires
            self.wf(),
        ensures
            snapshot_matches(out@, self@),
    {
        let mut out: Vec<OutputRow> = Vec::new();
        let mut i: usize = 0;
        while i < self.order.len()
            invariant
                self.wf(),
                i <= self.order@.len(),
                out@.len() == i,
                forall|j: int|
                    0 <= j < i ==> (#[trigger] out@[j]).client == self.order@[j] && out@[j]
                        == self@[self.order@[j]],
            decreases self.order@.len() - i,
        {
            let c = self.order[i];
            let row = *self.clients.get(&c).unwrap();
            out.push(row);
            i += 1;
        }
        proof {
            assert forall|c: u16| #[trigger] self@.contains_key(c) implies exists|j: int|
                0 <= j < out@.len() && (#[trigger] out@[j]).client == c by {
                let j = choose|j: int| 0 <= j < self.order@.len() && self.order@[j] == c;
                assert(out@[j].client == c);
            }
        }
        out
    }

    /// A whole run from nothing: replays the rows in order against a fresh
    /// engine and a fresh history, and returns the snapshot — or the error
    /// of the first fatal event, with no later row looked at.
    pub fn process_rows(rows: &Vec<InputRow>) -> (r: Result<Vec<OutputRow>, EngineError>)
        ensures
            match r {
                Ok(out) => spec_run(rows@) is Ok && snapshot_matches(
                    out@,
                    spec_run(rows@)->Ok_0.0,
                ),
                Err(e) => spec_run(rows@) == Err::<LedgerState, EngineError>(e),
            },
    {
        let mut engine = TransactionEngine::new();
        let mut history = History::new();
        let mut i: usize = 0;
        proof {
            assert(rows@.take(0) =~= Seq::<InputRow>::empty());
        }
        while i < rows.len()
            invariant
                engine.wf(),
                i <= rows@.len(),
                spec_run(rows@.take(i as int)) == Ok::<LedgerState, EngineError>(
                    (engine@, history@),
                ),
            decreases rows@.len() - i,
        {
            let row = &rows[i];
            let ghost prefix = rows@.take(i as int);
            proof {
                assert(rows@.take(i + 1).drop_last() =~= prefix);
                assert(rows@.take(i + 1).last() == rows@[i as int]);
            }
            match engine.process_single_transaction(row, &mut history) {
                Ok(()) => {},
                Err(e) => {
                    proof {
                        assert(spec_run(rows@.take(i + 1)) == Err::<LedgerState, EngineError>(e));
                        lemma_error_persists(rows@, i + 1);
                    }
                    return Err(e);
                },
            }
            i += 1;
        }
        proof {
            assert(rows@.take(rows@.len() as int) =~= rows@);
        }
        Ok(engine.snapshot())
    }
}

/// Once a prefix of the rows has failed, the whole run fails with the same
/// error: no row after the first fatal event is looked at.
pub proof fn lemma_error_persists(rows: Seq<InputRow>, k: int)
    requires
        0 <= k <= rows.len(),
        spec_run(rows.take(k)) is Err,
    ensures
        spec_run(rows) == spec_run(rows.take(k)),
    decreases rows.len() - k,
{
    if k == rows.len() {
        assert(rows.take(k) =~= rows);
    } else {
        assert(rows.take(k + 1).drop_last() =~= rows.take(k));
        lemma_error_persists(rows, k + 1);
    }
}

} // verus!
