use pg_relay::error::Error;
use pg_relay::keys::LockKey;
use pg_relay::row::{Column, Row};
use pg_relay::write_coordinator::{Admission, WriteCoordinator};
use std::sync::atomic::{AtomicU32, Ordering};
use std::sync::Arc;
use std::time::Duration;
use tokio::sync::Mutex;

fn ok_row() -> Row {
    Row::new().push(Column::Text("committed".to_string()))
}

fn runtime() -> tokio::runtime::Runtime {
    tokio::runtime::Builder::new_multi_thread().worker_threads(2).enable_all().build().unwrap()
}

#[test]
fn idempotency_returns_prior_result() {
    let mut coord = WriteCoordinator::new();
    let lk = LockKey::from("client_1");

    let r1 = coord.execute(&lk, Some("req_A"), || Ok(ok_row())).unwrap();
    assert!(!r1.was_idempotent_noop);

    let r2 = coord
        .execute(&lk, Some("req_A"), || panic!("idempotent path should not invoke f"))
        .unwrap();
    assert!(r2.was_idempotent_noop);
    assert_eq!(r2.row.columns, ok_row().columns);
}

#[test]
fn concurrent_writes_fail_fast() {
    runtime().block_on(async {
        let coord = Arc::new(Mutex::new(WriteCoordinator::new()));
        let lk = LockKey::from("client_2");
        let counter = Arc::new(AtomicU32::new(0));

        let coord_a = coord.clone();
        let lk_a = lk.clone();
        let counter_a = counter.clone();
        let slow = tokio::spawn(async move {
            let ticket = match coord_a.lock().await.begin(&lk_a, Some("req_slow")) {
                Admission::Run(ticket) => ticket,
                _ => panic!("not admitted"),
            };
            counter_a.fetch_add(1, Ordering::SeqCst);
            tokio::time::sleep(Duration::from_millis(100)).await;
            coord_a.lock().await.finish(ticket, Ok(ok_row()))
        });

        tokio::time::sleep(Duration::from_millis(10)).await;

        let r = coord.lock().await.execute(&lk, Some("req_fast"), || {
            counter.fetch_add(1, Ordering::SeqCst);
            Ok(ok_row())
        });
        assert!(matches!(r, Err(Error::WriteConflict(_))));

        slow.await.unwrap().unwrap();
        assert_eq!(counter.load(Ordering::SeqCst), 1);
    });
}

#[test]
fn different_keys_dont_conflict() {
    let mut coord = WriteCoordinator::new();
    let r1 = coord.execute(&LockKey::from("a"), Some("req_1"), || Ok(ok_row())).unwrap();
    let r2 = coord.execute(&LockKey::from("b"), Some("req_2"), || Ok(ok_row())).unwrap();
    assert!(!r1.was_idempotent_noop);
    assert!(!r2.was_idempotent_noop);
}

#[test]
fn a_refused_or_replayed_write_does_not_run() {
    let mut coord = WriteCoordinator::new();
    let key = LockKey::from("a");
    coord.execute(&LockKey::from("b"), Some("done"), || Ok(ok_row())).unwrap();
    let held = match coord.begin(&key, Some("first")) {
        Admission::Run(t) => t,
        _ => panic!("not admitted"),
    };
    for id in [Some("second"), Some("first"), None] {
        let r = coord.execute(&key, id, || panic!("the lock key is held"));
        assert!(matches!(r, Err(Error::WriteConflict(k)) if k == "a"));
    }
    let r = coord.execute(&key, Some("done"), || panic!("the row is recorded")).unwrap();
    assert!(r.was_idempotent_noop);
    assert_eq!(coord.idempotency_len(), 1);

    coord.finish(held, Ok(ok_row())).unwrap();
    let r = coord.execute(&key, Some("first"), || panic!("the row is recorded")).unwrap();
    assert!(r.was_idempotent_noop);
    assert!(!coord.execute(&key, Some("second"), || Ok(ok_row())).unwrap().was_idempotent_noop);
}

#[test]
fn a_held_lock_key_conflicts_and_another_does_not() {
    let mut coord = WriteCoordinator::default();
    let held = match coord.begin(&LockKey::from("a"), Some("r1")) {
        Admission::Run(t) => t,
        _ => panic!("not admitted"),
    };
    match coord.begin(&LockKey::from("a"), Some("r2")) {
        Admission::Refused(Error::WriteConflict(key)) => assert_eq!(key, "a"),
        _ => panic!("not refused"),
    }
    let other = match coord.begin(&LockKey::from("b"), None) {
        Admission::Run(t) => t,
        _ => panic!("not admitted"),
    };
    coord.abort(other);
    coord.abort(held);
    assert_eq!(coord.idempotency_len(), 0);
    assert!(matches!(coord.begin(&LockKey::from("a"), Some("r1")), Admission::Run(_)));
}

#[test]
fn a_failed_write_leaves_no_trace() {
    let mut coord = WriteCoordinator::new();
    let key = LockKey::from("a");
    let r = coord.execute(&key, Some("r1"), || Err(Error::Storage("full".to_string())));
    assert!(matches!(r, Err(Error::Storage(m)) if m == "full"));
    assert_eq!(coord.idempotency_len(), 0);
    let r = coord.execute(&key, Some("r1"), || Ok(ok_row())).unwrap();
    assert!(!r.was_idempotent_noop);
    assert_eq!(coord.idempotency_len(), 1);
}

#[test]
fn without_a_request_id_nothing_is_recorded() {
    let mut coord = WriteCoordinator::new();
    let key = LockKey::from("a");
    for _ in 0..3 {
        let r = coord.execute(&key, None, || Ok(ok_row())).unwrap();
        assert!(!r.was_idempotent_noop);
    }
    assert_eq!(coord.idempotency_len(), 0);
}

#[test]
fn a_recorded_request_is_replayed_under_any_lock_key() {
    let mut coord = WriteCoordinator::new();
    let first = Row::new().push(1i64);
    coord.execute(&LockKey::from("a"), Some("r"), || Ok(first)).unwrap();
    let again = coord.execute(&LockKey::from("b"), Some("r"), || Ok(Row::new())).unwrap();
    assert!(again.was_idempotent_noop);
    assert_eq!(again.row.columns, vec![Column::Int64(1)]);

    // Even while the lock key is held.
    let held = coord.begin(&LockKey::from("a"), Some("s"));
    assert!(matches!(held, Admission::Run(_)));
    assert!(matches!(coord.begin(&LockKey::from("a"), Some("r")), Admission::Replay(_)));
}
