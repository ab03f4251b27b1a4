use tx_engine::history::History;
use tx_engine::types::{Event, HistoryKey, TransactionType};

fn key(client: u16, tx: u32, tx_type: TransactionType) -> HistoryKey {
    HistoryKey { client, tx, tx_type }
}

fn deposit_event(client: u16, tx: u32, amount: u64) -> Event {
    Event { kind: TransactionType::Deposit, client, tx, amount: Some(amount) }
}

#[test]
fn fresh_history_is_empty() {
    let history = History::new();
    assert!(!history.has(key(1, 1, TransactionType::Deposit)));
    assert_eq!(history.lookup(key(1, 1, TransactionType::Deposit)), None);
}

#[test]
fn record_then_lookup_round_trip() {
    let mut history = History::new();
    let ev = deposit_event(3, 17, 42_000);
    history.record(key(3, 17, TransactionType::Deposit), ev);
    assert!(history.has(key(3, 17, TransactionType::Deposit)));
    assert_eq!(history.lookup(key(3, 17, TransactionType::Deposit)), Some(ev));
}

#[test]
fn keys_differ_by_each_component() {
    let mut history = History::new();
    history.record(key(3, 17, TransactionType::Deposit), deposit_event(3, 17, 1));
    assert!(!history.has(key(4, 17, TransactionType::Deposit)));
    assert!(!history.has(key(3, 18, TransactionType::Deposit)));
    assert!(!history.has(key(3, 17, TransactionType::Withdrawal)));
    assert!(!history.has(key(3, 17, TransactionType::Dispute)));
}

#[test]
fn record_keeps_the_first_writer() {
    let mut history = History::new();
    let first = deposit_event(3, 17, 10_000);
    let second = deposit_event(3, 17, 99_000);
    history.record(key(3, 17, TransactionType::Deposit), first);
    history.record(key(3, 17, TransactionType::Deposit), second);
    assert_eq!(history.lookup(key(3, 17, TransactionType::Deposit)), Some(first));
}

#[test]
fn extreme_key_components_do_not_collide() {
    let mut history = History::new();
    history.record(
        key(u16::MAX, u32::MAX, TransactionType::Chargeback),
        Event { kind: TransactionType::Chargeback, client: u16::MAX, tx: u32::MAX, amount: None },
    );
    history.record(key(0, 0, TransactionType::Deposit), deposit_event(0, 0, 5));
    assert!(history.has(key(u16::MAX, u32::MAX, TransactionType::Chargeback)));
    assert!(history.has(key(0, 0, TransactionType::Deposit)));
    assert!(!history.has(key(u16::MAX, u32::MAX, TransactionType::Deposit)));
}
