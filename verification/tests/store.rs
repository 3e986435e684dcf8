use sqlite_es::account::{AccountEvent, BankAccount};
use sqlite_es::event_log::{AppendError, EventLog};
use sqlite_es::replayer::reconstruct;
use sqlite_es::snapshot::SnapshotStore;

fn opened(balance: u64) -> AccountEvent {
    AccountEvent::Opened { balance }
}

fn deposited(amount: u64) -> AccountEvent {
    AccountEvent::Deposited { amount }
}

fn withdrew(amount: u64) -> AccountEvent {
    AccountEvent::Withdrew { amount }
}

#[test]
fn new_log_has_no_events() {
    let log: EventLog<AccountEvent> = EventLog::new();
    assert_eq!(log.current_sequence("acct-1"), 0);
    assert!(log.load("acct-1", 0).is_empty());
}

#[test]
fn append_assigns_next_sequence_numbers() {
    let mut log: EventLog<AccountEvent> = EventLog::new();
    let batch = log.append("acct-1", 0, &vec![opened(100), deposited(5)], "").unwrap();
    assert_eq!(batch.len(), 2);
    assert_eq!(batch[0].sequence, 1);
    assert_eq!(batch[1].sequence, 2);
    assert_eq!(batch[0].aggregate_id, "acct-1");
    assert_eq!(batch[1].aggregate_id, "acct-1");
    assert_eq!(batch[0].payload, opened(100));
    assert_eq!(batch[1].payload, deposited(5));
    assert_eq!(batch[0].event_type, "Opened");
    assert_eq!(batch[1].event_type, "Deposited");
    let more = log.append("acct-1", 2, &vec![withdrew(7)], "").unwrap();
    assert_eq!(more.len(), 1);
    assert_eq!(more[0].sequence, 3);
    assert_eq!(more[0].event_type, "Withdrew");
    assert_eq!(log.current_sequence("acct-1"), 3);
}

#[test]
fn sequence_numbers_are_contiguous_from_one() {
    let mut log: EventLog<AccountEvent> = EventLog::new();
    log.append("acct-1", 0, &vec![opened(10)], "").unwrap();
    log.append("acct-2", 0, &vec![opened(20), deposited(1)], "").unwrap();
    log.append("acct-1", 1, &vec![deposited(1), deposited(2), deposited(3)], "").unwrap();
    log.append("acct-1", 4, &vec![withdrew(4)], "").unwrap();
    let events = log.load("acct-1", 0);
    assert_eq!(events.len(), 5);
    for (k, envelope) in events.iter().enumerate() {
        assert_eq!(envelope.sequence, k + 1);
        assert_eq!(envelope.aggregate_id, "acct-1");
    }
    let others = log.load("acct-2", 0);
    assert_eq!(others.len(), 2);
    assert_eq!(others[0].sequence, 1);
    assert_eq!(others[1].sequence, 2);
}

#[test]
fn append_with_stale_sequence_is_a_conflict() {
    let mut log: EventLog<AccountEvent> = EventLog::new();
    log.append("acct-1", 0, &vec![opened(100)], "").unwrap();
    let stale = log.append("acct-1", 0, &vec![deposited(1)], "");
    assert_eq!(stale.err(), Some(AppendError::Concurrency));
    let ahead = log.append("acct-1", 2, &vec![deposited(1)], "");
    assert_eq!(ahead.err(), Some(AppendError::Concurrency));
    assert_eq!(log.current_sequence("acct-1"), 1);
    assert_eq!(log.load("acct-1", 0).len(), 1);
}

#[test]
fn append_to_unknown_aggregate_expects_zero() {
    let mut log: EventLog<AccountEvent> = EventLog::new();
    let refused = log.append("acct-9", 1, &vec![opened(1)], "");
    assert_eq!(refused.err(), Some(AppendError::Concurrency));
    assert_eq!(log.current_sequence("acct-9"), 0);
    assert!(log.load("acct-9", 0).is_empty());
}

#[test]
fn two_writers_with_same_sequence_one_wins() {
    let mut log: EventLog<AccountEvent> = EventLog::new();
    log.append("acct-1", 0, &vec![opened(100)], "").unwrap();
    let seen_by_both = log.current_sequence("acct-1");
    let first = log.append("acct-1", seen_by_both, &vec![deposited(10)], "");
    let second = log.append("acct-1", seen_by_both, &vec![withdrew(20)], "");
    assert!(first.is_ok());
    assert_eq!(second.err(), Some(AppendError::Concurrency));
    let reread = log.current_sequence("acct-1");
    assert_eq!(reread, 2);
    let retried = log.append("acct-1", reread, &vec![withdrew(20)], "").unwrap();
    assert_eq!(retried[0].sequence, 3);
    let snapshots: SnapshotStore<BankAccount> = SnapshotStore::new();
    let rebuilt = reconstruct(&log, &snapshots, "acct-1");
    assert_eq!(rebuilt.state.balance, 90);
    assert_eq!(rebuilt.last_sequence, 3);
}

#[test]
fn empty_append_commits_nothing() {
    let mut log: EventLog<AccountEvent> = EventLog::new();
    log.append("acct-1", 0, &vec![opened(100)], "").unwrap();
    let batch = log.append("acct-1", 1, &Vec::new(), "").unwrap();
    assert!(batch.is_empty());
    assert_eq!(log.current_sequence("acct-1"), 1);
}

#[test]
fn load_returns_events_after_sequence() {
    let mut log: EventLog<AccountEvent> = EventLog::new();
    log.append("acct-1", 0, &vec![opened(1), deposited(2), deposited(3), withdrew(4)], "").unwrap();
    let tail = log.load("acct-1", 2);
    assert_eq!(tail.len(), 2);
    assert_eq!(tail[0].sequence, 3);
    assert_eq!(tail[0].payload, deposited(3));
    assert_eq!(tail[1].sequence, 4);
    assert_eq!(tail[1].payload, withdrew(4));
    assert!(log.load("acct-1", 4).is_empty());
    assert!(log.load("acct-1", 5).is_empty());
    assert!(log.load("acct-1", usize::MAX).is_empty());
}

#[test]
fn streams_do_not_mix() {
    let mut log: EventLog<AccountEvent> = EventLog::new();
    log.append("a", 0, &vec![opened(1)], "").unwrap();
    log.append("b", 0, &vec![opened(2)], "").unwrap();
    log.append("a", 1, &vec![deposited(3)], "").unwrap();
    let a = log.load("a", 0);
    let b = log.load("b", 0);
    assert_eq!(a.len(), 2);
    assert_eq!(b.len(), 1);
    assert_eq!(b[0].payload, opened(2));
    assert_eq!(b[0].aggregate_id, "b");
    assert_eq!(a[1].payload, deposited(3));
}

#[test]
fn append_stores_metadata_as_given() {
    let mut log: EventLog<AccountEvent> = EventLog::new();
    let batch = log.append("acct-1", 0, &vec![opened(1), deposited(2)], "by=teller-7").unwrap();
    assert_eq!(batch[0].metadata, "by=teller-7");
    assert_eq!(batch[1].metadata, "by=teller-7");
    log.append("acct-1", 2, &vec![deposited(3)], "").unwrap();
    let stored = log.load("acct-1", 0);
    assert_eq!(stored[0].metadata, "by=teller-7");
    assert_eq!(stored[1].metadata, "by=teller-7");
    assert_eq!(stored[2].metadata, "");
}

#[test]
fn envelope_duplicate_is_equal() {
    let mut log: EventLog<AccountEvent> = EventLog::new();
    let batch = log.append("acct-1", 0, &vec![opened(100)], "note").unwrap();
    let copy = batch[0].duplicate();
    assert_eq!(copy.aggregate_id, batch[0].aggregate_id);
    assert_eq!(copy.sequence, batch[0].sequence);
    assert_eq!(copy.event_type, batch[0].event_type);
    assert_eq!(copy.payload, batch[0].payload);
    assert_eq!(copy.metadata, batch[0].metadata);
    assert_eq!(copy.metadata, "note");
}

#[test]
fn snapshot_store_starts_empty() {
    let store: SnapshotStore<BankAccount> = SnapshotStore::new();
    assert_eq!(store.len(), 0);
    assert!(store.load_latest("acct-1").is_none());
}

#[test]
fn load_latest_picks_highest_sequence() {
    let mut store: SnapshotStore<BankAccount> = SnapshotStore::new();
    store.save("acct-1", 5, BankAccount { opened: true, balance: 50 });
    store.save("acct-2", 9, BankAccount { opened: true, balance: 90 });
    store.save("acct-1", 10, BankAccount { opened: true, balance: 100 });
    store.save("acct-1", 7, BankAccount { opened: true, balance: 70 });
    assert_eq!(store.len(), 4);
    let latest = store.load_latest("acct-1").unwrap();
    assert_eq!(latest.sequence, 10);
    assert_eq!(latest.aggregate_id, "acct-1");
    assert_eq!(latest.state, BankAccount { opened: true, balance: 100 });
    let other = store.load_latest("acct-2").unwrap();
    assert_eq!(other.sequence, 9);
    assert!(store.load_latest("acct-3").is_none());
}

#[test]
fn save_is_idempotent_per_identity_and_sequence() {
    let mut store: SnapshotStore<BankAccount> = SnapshotStore::new();
    store.save("acct-1", 5, BankAccount { opened: true, balance: 50 });
    store.save("acct-1", 5, BankAccount { opened: true, balance: 51 });
    assert_eq!(store.len(), 1);
    let kept = store.load_latest("acct-1").unwrap();
    assert_eq!(kept.state.balance, 50);
    store.save("acct-2", 5, BankAccount { opened: true, balance: 7 });
    assert_eq!(store.len(), 2);
}

#[test]
fn reconstruct_without_events_gives_initial_state() {
    let log: EventLog<AccountEvent> = EventLog::new();
    let snapshots: SnapshotStore<BankAccount> = SnapshotStore::new();
    let rebuilt = reconstruct(&log, &snapshots, "acct-1");
    assert_eq!(rebuilt.state, BankAccount { opened: false, balance: 0 });
    assert_eq!(rebuilt.last_sequence, 0);
    assert_eq!(rebuilt.snapshot_sequence, 0);
}

#[test]
fn reconstruct_folds_events_in_order() {
    let mut log: EventLog<AccountEvent> = EventLog::new();
    log.append("acct-1", 0, &vec![opened(100), withdrew(30), deposited(5)], "").unwrap();
    let snapshots: SnapshotStore<BankAccount> = SnapshotStore::new();
    let rebuilt = reconstruct(&log, &snapshots, "acct-1");
    assert_eq!(rebuilt.state, BankAccount { opened: true, balance: 75 });
    assert_eq!(rebuilt.last_sequence, 3);
    assert_eq!(rebuilt.snapshot_sequence, 0);
}

#[test]
fn snapshot_at_every_k_agrees_with_full_replay() {
    let events = vec![opened(100), withdrew(30), deposited(5), withdrew(60), deposited(1)];
    let mut log: EventLog<AccountEvent> = EventLog::new();
    log.append("acct-1", 0, &events, "").unwrap();
    let none: SnapshotStore<BankAccount> = SnapshotStore::new();
    let full = reconstruct(&log, &none, "acct-1");
    assert_eq!(full.state, BankAccount { opened: true, balance: 16 });
    for k in 0..=events.len() {
        let mut prefix: EventLog<AccountEvent> = EventLog::new();
        prefix.append("acct-1", 0, &events[..k].to_vec(), "").unwrap();
        let at_k = reconstruct(&prefix, &none, "acct-1");
        let mut snapshots: SnapshotStore<BankAccount> = SnapshotStore::new();
        snapshots.save("acct-1", k, at_k.state);
        let resumed = reconstruct(&log, &snapshots, "acct-1");
        assert_eq!(resumed.state, full.state);
        assert_eq!(resumed.last_sequence, full.last_sequence);
        assert_eq!(resumed.snapshot_sequence, k);
    }
}

#[test]
fn reconstruct_twice_gives_the_same() {
    let mut log: EventLog<AccountEvent> = EventLog::new();
    log.append("acct-1", 0, &vec![opened(100), withdrew(30)], "").unwrap();
    let mut snapshots: SnapshotStore<BankAccount> = SnapshotStore::new();
    snapshots.save("acct-1", 1, BankAccount { opened: true, balance: 100 });
    let first = reconstruct(&log, &snapshots, "acct-1");
    let second = reconstruct(&log, &snapshots, "acct-1");
    assert_eq!(first.state, second.state);
    assert_eq!(first.last_sequence, second.last_sequence);
    assert_eq!(first.snapshot_sequence, second.snapshot_sequence);
    assert_eq!(first.state.balance, 70);
    assert_eq!(first.last_sequence, 2);
    assert_eq!(first.snapshot_sequence, 1);
}
