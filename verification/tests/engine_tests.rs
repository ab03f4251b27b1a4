use tx_engine::engine::TransactionEngine;
use tx_engine::history::History;
use tx_engine::types::{EngineError, InputRow, OutputRow};

fn row(kind: &str, client: u16, tx: u32, amount: Option<u64>) -> InputRow {
    InputRow { kind: String::from(kind), client, tx, amount }
}

// Amounts are fixed-point in units of 1/10_000: 10_000 is 1.0.

#[test]
fn scenario_two_deposits() {
    let rows = vec![
        row("deposit", 1, 1, Some(10_000)),
        row("deposit", 1, 2, Some(20_000)),
    ];
    let out = TransactionEngine::process_rows(&rows).unwrap();
    assert_eq!(out.len(), 1);
    assert_eq!(
        out[0],
        OutputRow { client: 1, available: 30_000, held: 0, total: 30_000, locked: false }
    );
}

#[test]
fn scenario_withdrawal_rejected_insufficient_funds() {
    let rows = vec![
        row("deposit", 1, 1, Some(50_000)),
        row("withdrawal", 1, 2, Some(60_000)),
    ];
    let out = TransactionEngine::process_rows(&rows).unwrap();
    assert_eq!(out.len(), 1);
    assert_eq!(out[0].available, 50_000);
    assert_eq!(out[0].total, 50_000);
    assert_eq!(out[0].held, 0);
    assert!(!out[0].locked);
}

#[test]
fn scenario_dispute_then_resolve() {
    let rows = vec![row("deposit", 1, 1, Some(100_000)), row("dispute", 1, 1, None)];
    let out = TransactionEngine::process_rows(&rows).unwrap();
    assert_eq!(
        out[0],
        OutputRow { client: 1, available: 0, held: 100_000, total: 100_000, locked: false }
    );

    let rows = vec![
        row("deposit", 1, 1, Some(100_000)),
        row("dispute", 1, 1, None),
        row("resolve", 1, 1, None),
    ];
    let out = TransactionEngine::process_rows(&rows).unwrap();
    assert_eq!(
        out[0],
        OutputRow { client: 1, available: 100_000, held: 0, total: 100_000, locked: false }
    );
}

#[test]
fn scenario_dispute_then_chargeback() {
    let rows = vec![
        row("deposit", 1, 1, Some(100_000)),
        row("dispute", 1, 1, None),
        row("chargeback", 1, 1, None),
    ];
    let out = TransactionEngine::process_rows(&rows).unwrap();
    assert_eq!(out[0], OutputRow { client: 1, available: 0, held: 0, total: 0, locked: true });
}

#[test]
fn unknown_kind_aborts_run() {
    let rows = vec![
        row("deposit", 1, 1, Some(10_000)),
        row("gift", 1, 2, Some(10_000)),
        row("deposit", 1, 3, Some(10_000)),
    ];
    assert_eq!(TransactionEngine::process_rows(&rows), Err(EngineError::UnknownKind));
}

#[test]
fn unknown_kind_leaves_engine_untouched() {
    let mut engine = TransactionEngine::new();
    let mut history = History::new();
    let r = engine.process_single_transaction(&row("deposit", 1, 1, Some(10_000)), &mut history);
    assert_eq!(r, Ok(()));
    let r = engine.process_single_transaction(&row("Deposit", 1, 2, Some(10_000)), &mut history);
    assert_eq!(r, Err(EngineError::UnknownKind));
    let out = engine.snapshot();
    assert_eq!(out.len(), 1);
    assert_eq!(out[0].available, 10_000);
}

#[test]
fn missing_amount_is_fatal() {
    let rows = vec![row("deposit", 1, 1, None)];
    assert_eq!(TransactionEngine::process_rows(&rows), Err(EngineError::MissingAmount));
    let rows = vec![row("withdrawal", 1, 1, None)];
    assert_eq!(TransactionEngine::process_rows(&rows), Err(EngineError::MissingAmount));
}

#[test]
fn dispute_without_reference_is_noop_but_creates_account() {
    let rows = vec![row("dispute", 7, 1, None)];
    let out = TransactionEngine::process_rows(&rows).unwrap();
    assert_eq!(
        out,
        vec![OutputRow { client: 7, available: 0, held: 0, total: 0, locked: false }]
    );
}

#[test]
fn resolve_and_chargeback_without_dispute_are_noops() {
    let rows = vec![
        row("deposit", 1, 1, Some(10_000)),
        row("resolve", 1, 1, None),
        row("chargeback", 1, 1, None),
    ];
    let out = TransactionEngine::process_rows(&rows).unwrap();
    assert_eq!(
        out[0],
        OutputRow { client: 1, available: 10_000, held: 0, total: 10_000, locked: false }
    );
}

#[test]
fn deposit_reusing_tx_id_applies_effect_but_history_keeps_first() {
    let rows = vec![
        row("deposit", 1, 1, Some(10_000)),
        row("deposit", 1, 1, Some(20_000)),
        row("dispute", 1, 1, None),
    ];
    let out = TransactionEngine::process_rows(&rows).unwrap();
    // Both monetary effects applied; the dispute recovers the first deposit's amount.
    assert_eq!(out[0].total, 30_000);
    assert_eq!(out[0].held, 10_000);
    assert_eq!(out[0].available, 20_000);
}

#[test]
fn dispute_resolve_cycle_replays_the_monetary_effect() {
    // History never reflects a "currently disputed" state: a second dispute
    // of the same transaction id moves the amount to held again.
    let rows = vec![
        row("deposit", 1, 1, Some(10_000)),
        row("dispute", 1, 1, None),
        row("resolve", 1, 1, None),
        row("dispute", 1, 1, None),
    ];
    let out = TransactionEngine::process_rows(&rows).unwrap();
    assert_eq!(out[0].available, 0);
    assert_eq!(out[0].held, 10_000);
    assert_eq!(out[0].total, 10_000);

    // And a resolve replayed after another resolve keeps acting on the
    // recorded dispute: the held balance goes negative.
    let rows = vec![
        row("deposit", 1, 1, Some(10_000)),
        row("dispute", 1, 1, None),
        row("resolve", 1, 1, None),
        row("resolve", 1, 1, None),
    ];
    let out = TransactionEngine::process_rows(&rows).unwrap();
    assert_eq!(out[0].available, 20_000);
    assert_eq!(out[0].held, -10_000);
    assert_eq!(out[0].total, 10_000);
}

#[test]
fn withdrawal_of_exact_balance_is_allowed() {
    let rows = vec![
        row("deposit", 1, 1, Some(60_000)),
        row("withdrawal", 1, 2, Some(60_000)),
    ];
    let out = TransactionEngine::process_rows(&rows).unwrap();
    assert_eq!(out[0].available, 0);
    assert_eq!(out[0].total, 0);
}

#[test]
fn clients_are_independent_of_interleaving() {
    let interleaved = vec![
        row("deposit", 1, 1, Some(10_000)),
        row("deposit", 2, 2, Some(50_000)),
        row("withdrawal", 2, 3, Some(20_000)),
        row("dispute", 1, 1, None),
        row("deposit", 2, 4, Some(5_000)),
        row("chargeback", 1, 1, None),
    ];
    let out = TransactionEngine::process_rows(&interleaved).unwrap();

    let only_one = vec![
        row("deposit", 1, 1, Some(10_000)),
        row("dispute", 1, 1, None),
        row("chargeback", 1, 1, None),
    ];
    let out_one = TransactionEngine::process_rows(&only_one).unwrap();

    let only_two = vec![
        row("deposit", 2, 2, Some(50_000)),
        row("withdrawal", 2, 3, Some(20_000)),
        row("deposit", 2, 4, Some(5_000)),
    ];
    let out_two = TransactionEngine::process_rows(&only_two).unwrap();

    assert_eq!(out.len(), 2);
    assert_eq!(out[0], out_one[0]);
    assert_eq!(out[1], out_two[0]);
}

#[test]
fn snapshot_is_sorted_by_client_id() {
    let rows = vec![
        row("deposit", 5, 1, Some(10_000)),
        row("deposit", 3, 2, Some(20_000)),
        row("deposit", 9, 3, Some(30_000)),
    ];
    let out = TransactionEngine::process_rows(&rows).unwrap();
    let clients: Vec<u16> = out.iter().map(|r| r.client).collect();
    assert_eq!(clients, vec![3, 5, 9]);
}

#[test]
fn empty_run_produces_no_rows() {
    let rows: Vec<InputRow> = Vec::new();
    let out = TransactionEngine::process_rows(&rows).unwrap();
    assert!(out.is_empty());
}

#[test]
fn dispute_after_withdrawal_can_drive_available_negative() {
    let rows = vec![
        row("deposit", 1, 1, Some(50_000)),
        row("withdrawal", 1, 2, Some(50_000)),
        row("dispute", 1, 1, None),
    ];
    let out = TransactionEngine::process_rows(&rows).unwrap();
    assert_eq!(out[0].available, -50_000);
    assert_eq!(out[0].held, 50_000);
    assert_eq!(out[0].total, 0);
}

#[test]
fn locked_account_still_accepts_further_events() {
    let rows = vec![
        row("deposit", 1, 1, Some(10_000)),
        row("dispute", 1, 1, None),
        row("chargeback", 1, 1, None),
        row("deposit", 1, 2, Some(40_000)),
    ];
    let out = TransactionEngine::process_rows(&rows).unwrap();
    assert!(out[0].locked);
    assert_eq!(out[0].available, 40_000);
    assert_eq!(out[0].total, 40_000);
}
