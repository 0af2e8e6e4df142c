use pg_relay::audit::Caller;
use pg_relay::relay::{
    after_try, daemon_base, is_success, lock_failure, lock_key, log_call, relay_call, rows_from,
    shard_value, Body, Outgoing, Relay, RelayAction, RelayEvent, RelayStage, Reply, Verb,
    WriteLock,
};
use serde_json::Value;
use std::collections::hash_map::DefaultHasher;
use std::hash::{Hash, Hasher};

fn caller() -> Caller {
    Caller {
        pg_role: Some("trader".to_string()),
        application_name: Some("a \"b\"".to_string()),
        client_addr: None,
        backend_pid: Some(12345),
        session_user: None,
    }
}

fn nobody() -> Caller {
    Caller {
        pg_role: None,
        application_name: None,
        client_addr: None,
        backend_pid: None,
        session_user: None,
    }
}

fn json(text: &str) -> Value {
    serde_json::from_str(text).unwrap()
}

fn hashed(s: &str) -> i64 {
    let mut h = DefaultHasher::new();
    s.hash(&mut h);
    h.finish() as i64
}

#[test]
fn the_daemon_has_a_default_address() {
    assert_eq!(daemon_base(None), "http://127.0.0.1:8080");
    assert_eq!(daemon_base(Some("https://d:1")), "https://d:1");
}

#[test]
fn calls_are_logged_with_their_caller() {
    assert_eq!(
        log_call(Verb::Get, "kv_get", &json("{\"key\": \"foo\"}"), &caller()),
        "pg_relay GET kv_get args={\"key\":\"foo\"} caller(role=Some(\"trader\") \
         app=Some(\"a \\\"b\\\"\") addr=None pid=Some(12345) session_user=None)"
    );
}

fn update(mode: WriteLock, field: &str) -> RelayAction {
    let args = json("{\"key\":\"foo\"}");
    relay_call(Relay::Update, "http://d", Some(field), mode, "kv_put", &args, &nobody())
}

/// What follows the line in the log.
fn logged(action: RelayAction) -> (String, RelayAction) {
    match action {
        RelayAction::Log { line, then } => (line, then.next(RelayEvent::Logged)),
        _ => panic!("not logged first"),
    }
}

fn sent(action: RelayAction) -> (Outgoing, RelayStage) {
    match action {
        RelayAction::Send { request, then } => (request, then),
        _ => panic!("not sent"),
    }
}

fn raised(action: RelayAction) -> String {
    match action {
        RelayAction::Raise(message) => message,
        _ => panic!("not raised"),
    }
}

fn answered(code: u16, body: &str) -> Reply {
    Reply::Answered { code, body: Body::Document(json(body)) }
}

#[test]
fn a_read_goes_out_as_a_get() {
    let args = json("{\"key\":\"foo\"}");
    let (_, action) = logged(relay_call(
        Relay::Read,
        "http://d",
        Some("key"),
        WriteLock::Wait,
        "kv_get",
        &args,
        &caller(),
    ));
    let (request, then) = sent(action);
    assert_eq!(request.verb, Verb::Get);
    assert_eq!(request.url, "http://d/kv_get");
    assert_eq!(request.query.as_deref(), Some("{\"key\":\"foo\"}"));
    let headers: Vec<(&str, &str)> =
        request.headers.iter().map(|(n, v)| (*n, v.as_str())).collect();
    assert_eq!(
        headers,
        vec![
            ("X-Pg-Role", "trader"),
            ("X-Pg-Application", "a \"b\""),
            ("X-Pg-Client-Addr", ""),
            ("X-Pg-Backend-Pid", "12345"),
            ("X-Pg-Session-User", ""),
        ]
    );
    match then.next(RelayEvent::Replied(answered(200, "{\"rows\":[1]}"))) {
        RelayAction::Return(rows) => assert_eq!(rows, vec![json("1")]),
        _ => panic!("no rows"),
    }
}

#[test]
fn a_write_is_posted_without_a_lock() {
    let args = json("{\"key\":\"foo\"}");
    let (line, action) = logged(relay_call(
        Relay::Write,
        "http://d",
        Some("key"),
        WriteLock::Nowait,
        "kv_put",
        &args,
        &nobody(),
    ));
    assert!(line.starts_with("pg_relay POST kv_put args="));
    let (request, then) = sent(action);
    assert_eq!(request.verb.name(), "POST");
    assert_eq!(request.query, None);
    assert!(request.headers.iter().all(|(_, v)| v.is_empty()));
    let action = then.next(RelayEvent::Replied(Reply::Unreachable("refused".to_string())));
    assert_eq!(raised(action), "pg_relay: could not reach daemon: refused");
}

#[test]
fn an_update_waits_for_the_lock_of_its_shard() {
    let key = hashed("kv_put:\"foo\"");
    let (line, action) = logged(update(WriteLock::Wait, "key"));
    assert!(line.starts_with("pg_relay PUT kv_put args="));
    let then = match action {
        RelayAction::Lock { sql, then } => {
            assert_eq!(sql, format!("SELECT pg_advisory_xact_lock({key})"));
            then
        }
        _ => panic!("no lock"),
    };
    let (request, _) = sent(then.next(RelayEvent::Locked));
    assert_eq!(request.verb.name(), "PUT");
}

#[test]
fn a_conflict_is_logged_and_nothing_is_sent() {
    let key = hashed("kv_put:\"foo\"");
    let conflict = "pg_relay: write conflict on shard \"foo\" (another write is in progress)";
    let trying = || {
        let (line, action) = logged(update(WriteLock::Nowait, "key"));
        assert!(line.starts_with("pg_relay PUT kv_put args="));
        match action {
            RelayAction::Try { sql, then } => {
                assert_eq!(sql, format!("SELECT pg_try_advisory_xact_lock({key})"));
                then
            }
            _ => panic!("no lock"),
        }
    };
    assert_eq!(raised(trying().next(RelayEvent::Tried(Some(false)))), conflict);
    assert_eq!(raised(trying().next(RelayEvent::Tried(None))), conflict);
    let failed = trying().next(RelayEvent::LockFailed("spi".to_string()));
    assert_eq!(raised(failed), "pg_relay: failed to take write lock: spi");
    let (request, _) = sent(trying().next(RelayEvent::Tried(Some(true))));
    assert_eq!(request.url, "http://d/kv_put");
}

#[test]
fn a_failed_wait_for_the_lock_is_raised() {
    let (_, action) = logged(update(WriteLock::Wait, "key"));
    let then = match action {
        RelayAction::Lock { then, .. } => then,
        _ => panic!("no lock"),
    };
    let action = then.next(RelayEvent::LockFailed("spi".to_string()));
    assert_eq!(raised(action), "pg_relay: failed to take write lock: spi");
}

#[test]
fn locks_are_hashed_texts() {
    for s in ["", "a", "kv_put:\"foo\"", "kv_put:1", "ä:2", "x:3", "y:4", "z:5"] {
        assert_eq!(lock_key(s), hashed(s));
    }
}

#[test]
fn shards_come_from_the_field_that_is_set() {
    let args = json("{\"key\":\"foo\",\"n\":1,\"o\":{\"a\":[1, 2]},\"\":true}");
    assert_eq!(shard_value(Some("key"), &args).as_deref(), Some("\"foo\""));
    assert_eq!(shard_value(Some("n"), &args).as_deref(), Some("1"));
    assert_eq!(shard_value(Some("o"), &args).as_deref(), Some("{\"a\":[1,2]}"));
    assert_eq!(shard_value(Some("missing"), &args), None);
    assert_eq!(shard_value(Some(""), &args), None);
    assert_eq!(shard_value(None, &args), None);
    assert_eq!(shard_value(Some("key"), &json("[\"key\"]")), None);
}

#[test]
fn an_update_without_its_shard_is_not_locked() {
    let (_, action) = logged(update(WriteLock::Wait, "tenant"));
    assert_eq!(sent(action).0.verb, Verb::Put);
}

#[test]
fn only_a_yes_gets_the_lock() {
    assert_eq!(after_try(Some(true), "c".to_string()), Ok(()));
    assert_eq!(after_try(Some(false), "c".to_string()), Err("c".to_string()));
    assert_eq!(after_try(None, "c".to_string()), Err("c".to_string()));
    assert_eq!(lock_failure("spi"), "pg_relay: failed to take write lock: spi");
}

#[test]
fn rows_are_taken_from_the_reply() {
    let rows = rows_from(answered(200, "{\"rows\":[{\"a\":1},2]}")).unwrap();
    assert_eq!(rows, vec![json("{\"a\":1}"), json("2")]);
    assert_eq!(rows_from(answered(299, "{\"rows\":[]}")), Ok(vec![]));
}

#[test]
fn only_a_status_of_success_gives_rows() {
    for code in [100, 199, 300, 302, 304, 404, 500] {
        assert!(!is_success(code));
        assert_eq!(
            rows_from(answered(code, "{\"rows\":[1]}")),
            Err(format!("pg_relay: daemon returned HTTP {code}: {{\"rows\":[1]}}"))
        );
    }
    for code in [200, 201, 204, 299] {
        assert!(is_success(code));
    }
}

#[test]
fn failed_replies_are_explained() {
    let missing = Err("pg_relay: daemon response missing a 'rows' array".to_string());
    assert_eq!(rows_from(answered(200, "{}")), missing);
    assert_eq!(rows_from(answered(200, "{\"rows\":{}}")), missing);
    assert_eq!(rows_from(answered(200, "[1]")), missing);
    assert_eq!(
        rows_from(Reply::Answered { code: 503, body: Body::Text("busy".to_string()) }),
        Err("pg_relay: daemon returned HTTP 503: busy".to_string())
    );
    assert_eq!(
        rows_from(Reply::Answered { code: 503, body: Body::Unreadable("eof".to_string()) }),
        Err("pg_relay: daemon returned HTTP 503: ".to_string())
    );
    assert_eq!(
        rows_from(Reply::Unreachable("refused".to_string())),
        Err("pg_relay: could not reach daemon: refused".to_string())
    );
    assert_eq!(
        rows_from(Reply::Answered { code: 200, body: Body::Unreadable("eof".to_string()) }),
        Err("pg_relay: invalid daemon response: eof".to_string())
    );
    assert_eq!(
        rows_from(Reply::Answered { code: 200, body: Body::Text("<html>".to_string()) }),
        Err("pg_relay: invalid daemon response: <html>".to_string())
    );
}
