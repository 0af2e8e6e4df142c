use pg_relay::error::Error;
use pg_relay::frame::{frame, header, payload_len, HeaderRead, MAX_FRAME};
use pg_relay::keys::{ComputeKey, LockKey};
use pg_relay::name_table::NameTable;
use pg_relay::table_function::downcast_state;
use pg_relay::text::{decimal_int_text, decimal_text, text_begins_with, text_eq, text_le};
use std::any::Any;
use std::sync::Arc;

#[test]
fn errors_have_codes_and_messages() {
    let s = || "x".to_string();
    let all = [
        (Error::UnknownTableFunction(s()), "unknown_table_function", "table function 'x' not registered"),
        (Error::MissingInput(s()), "missing_input", "missing input 'x'"),
        (
            Error::InputType { name: s(), expected: "a", got: "b" },
            "input_type_mismatch",
            "type mismatch for input 'x': expected a, got b",
        ),
        (
            Error::WriteConflict(s()),
            "write_conflict",
            "concurrent write in progress for shard key x",
        ),
        (Error::IdempotentNoop, "idempotent_noop", "idempotent no-op: prior outcome returned"),
        (Error::Storage(s()), "storage_error", "storage error: x"),
        (Error::Compute(s()), "compute_error", "compute error: x"),
        (Error::Protocol(s()), "protocol_error", "protocol error: x"),
        (Error::Timeout { secs: 1, nanos: 500_000_000 }, "timeout", "timeout after 1.5s"),
        (Error::Other(s()), "internal_error", "x"),
    ];
    for (e, code, message) in &all {
        assert_eq!(e.code(), *code);
        assert_eq!(e.message(), *message);
    }
    for (i, a) in all.iter().enumerate() {
        for (j, b) in all.iter().enumerate() {
            assert_eq!(a.0.code() == b.0.code(), i == j);
        }
    }
}

#[test]
fn timeouts_carry_their_nanoseconds() {
    let e = Error::Timeout { secs: 1, nanos: 2_500_000_000 };
    assert_eq!(e.message(), "timeout after 3.5s");
    let e = Error::Timeout { secs: u64::MAX, nanos: 1_000_000_000 };
    assert_eq!(e.message(), "timeout after 18446744073709551615.999999999s");
}

#[test]
fn compute_keys_keep_their_parts_apart() {
    let key = ComputeKey::from_parts(&[b"ab", b"c"]);
    assert_eq!(key.0, vec![2, 0, 0, 0, b'a', b'b', 1, 0, 0, 0, b'c']);
    assert_ne!(key.0, ComputeKey::from_parts(&[b"a", b"bc"]).0);
    assert_ne!(key.0, ComputeKey::from_parts(&[b"ab", b"c", b""]).0);
    assert!(ComputeKey::from_parts(&[]).0.is_empty());
    assert_eq!(key.clone().0, key.0);
}

#[test]
fn compute_keys_are_shown_in_hex() {
    assert_eq!(ComputeKey(vec![0, 0x1f, 0xff]).display(), "001fff");
    assert_eq!(ComputeKey(vec![0xab; 32]).display(), "ab".repeat(32));
    assert_eq!(ComputeKey(vec![0xab; 33]).display(), "ab".repeat(32) + "…");
}

#[test]
fn lock_keys_are_texts() {
    let key = LockKey::from("client_1");
    assert_eq!(key.0, "client_1");
    assert_eq!(key.display(), "client_1");
    assert_eq!(key.clone().0, "client_1");
}

#[test]
fn frames_are_read_back() {
    let body = b"{\"op\":\"ping\"}".to_vec();
    let bytes = frame(&body);
    assert_eq!(&bytes[..4], &[0, 0, 0, 13]);
    let head = [bytes[0], bytes[1], bytes[2], bytes[3]];
    assert_eq!(payload_len(HeaderRead::Full(head)), Ok(Some(13)));
    assert_eq!(&bytes[4..], &body[..]);
}

#[test]
fn frame_lengths_are_checked() {
    assert_eq!(header(0x0102_0304), [1, 2, 3, 4]);
    assert_eq!(header(0), [0, 0, 0, 0]);
    assert_eq!(MAX_FRAME, 16 * 1024 * 1024);
    assert_eq!(payload_len(HeaderRead::Full([1, 0, 0, 0])), Ok(Some(16_777_216)));
    assert_eq!(
        payload_len(HeaderRead::Full([1, 0, 0, 1])),
        Err("frame too large: 16777217 bytes".to_string())
    );
    assert_eq!(
        payload_len(HeaderRead::Full([255, 255, 255, 255])),
        Err("frame too large: 4294967295 bytes".to_string())
    );
    assert_eq!(payload_len(HeaderRead::Eof), Ok(None));
    assert_eq!(payload_len(HeaderRead::Failed("reset".to_string())), Err("reset".to_string()));
}

#[test]
fn name_tables_keep_one_value_per_name() {
    let mut t: NameTable<u32> = NameTable::new();
    assert_eq!(t.len(), 0);
    for (i, name) in ["a", "b", "c", "a"].iter().enumerate() {
        t.insert(name.to_string(), i as u32);
    }
    assert_eq!(t.len(), 3);
    assert_eq!(t.get("a"), Some(&3));
    assert_eq!(t.get("b"), Some(&1));
    t.remove("a");
    t.remove("x");
    assert_eq!(t.len(), 2);
    assert_eq!(t.get("a"), None);
    assert_eq!(t.get("c"), Some(&2));
    assert_eq!(t.at(0), ("c", &2));
    t.remove("b");
    t.remove("c");
    assert_eq!(t.len(), 0);
}

#[test]
fn texts_compare_by_their_bytes() {
    for a in ["", "a", "ab", "b", "ä", "a/", "zz"] {
        for b in ["", "a", "ab", "b", "ä", "a/", "zz"] {
            assert_eq!(text_eq(a, b), a == b);
            assert_eq!(text_le(a, b), a <= b);
            assert_eq!(text_begins_with(a, b), a.starts_with(b));
        }
    }
}

#[test]
fn numbers_are_written_in_decimal() {
    for n in [0u64, 7, 10, 99, 100, 18_446_744_073_709_551_615] {
        assert_eq!(decimal_text(n), n.to_string());
    }
    for n in [0i64, -1, 42, i64::MIN, i64::MAX] {
        assert_eq!(decimal_int_text(n), n.to_string());
    }
}

#[test]
fn state_of_another_type_is_an_error() {
    let state: Arc<dyn Any + Send + Sync> = Arc::new(5u32);
    assert_eq!(*downcast_state(state.downcast_ref::<u32>()).unwrap(), 5);
    let e = downcast_state(state.downcast_ref::<String>()).err().unwrap();
    assert_eq!(e.message(), "compute error: cached state type mismatch");
}
