use bytes::Bytes;
use pg_relay::storage::{Manifest, Storage, StorageError};
use pg_relay::storage_memory::MemoryStorage;

fn stamp(text: &str) -> chrono::NaiveDateTime {
    chrono::NaiveDateTime::parse_from_str(text, "%Y-%m-%d %H:%M:%S").unwrap()
}

#[test]
fn put_if_match_round_trip() {
    let mut s = MemoryStorage::new();

    let m1 = s.put("k", Bytes::from_static(b"v1")).unwrap();
    let m2 = s.put_if_match("k", Bytes::from_static(b"v2"), &m1.etag).unwrap();
    assert_ne!(m1.etag, m2.etag);

    let r = s.put_if_match("k", Bytes::from_static(b"v3"), &m1.etag);
    assert!(matches!(r, Err(StorageError::EtagMismatch { .. })));
}

#[test]
fn list_by_prefix() {
    let mut s = MemoryStorage::new();
    s.put("foo/a", Bytes::from_static(b"1")).unwrap();
    s.put("foo/b", Bytes::from_static(b"2")).unwrap();
    s.put("bar/c", Bytes::from_static(b"3")).unwrap();

    let foos = s.list("foo/").unwrap();
    assert_eq!(foos.len(), 2);
    assert_eq!(foos[0].key, "foo/a");
    assert_eq!(foos[1].key, "foo/b");
}

#[test]
fn a_write_is_read_back() {
    let mut s = MemoryStorage::default();
    assert!(matches!(s.get("k"), Err(StorageError::NotFound(k)) if k == "k"));
    let meta = s.put("k", Bytes::from_static(b"value")).unwrap();
    assert_eq!(meta.key, "k");
    assert_eq!(meta.size, 5);
    assert_eq!(s.get("k").unwrap(), Bytes::from_static(b"value"));
    let (data, etag) = s.get_with_etag("k").unwrap();
    assert_eq!(data, Bytes::from_static(b"value"));
    assert_eq!(etag, meta.etag);
    assert_eq!(s.writes_count(), 1);
    assert!(matches!(s.get_with_etag("other"), Err(StorageError::NotFound(_))));
}

#[test]
fn fresh_etags_have_the_shape_of_a_random_uuid() {
    let mut s = MemoryStorage::new();
    let etag = s.put("k", Bytes::new()).unwrap().etag;
    assert_eq!(etag.len(), 36);
    for (i, c) in etag.chars().enumerate() {
        if i == 8 || i == 13 || i == 18 || i == 23 {
            assert_eq!(c, '-');
        } else {
            assert!(c.is_ascii_digit() || ('a'..='f').contains(&c));
        }
    }
    assert_eq!(etag.chars().nth(14), Some('4'));
    assert!(matches!(etag.chars().nth(19), Some('8' | '9' | 'a' | 'b')));
}

#[test]
fn a_refused_write_changes_nothing() {
    let mut s = MemoryStorage::new();
    s.store("k", Bytes::from_static(b"v1"), "e1".to_string(), stamp("2026-01-02 03:04:05"));
    let r = s.store_if_match(
        "k",
        Bytes::from_static(b"v2"),
        "e0",
        "e2".to_string(),
        stamp("2026-01-02 03:04:06"),
    );
    match r {
        Err(StorageError::EtagMismatch { key, expected, got }) => {
            assert_eq!((key.as_str(), expected.as_str(), got.as_str()), ("k", "e0", "e1"));
        }
        _ => panic!("not refused"),
    }
    assert_eq!(s.writes_count(), 1);
    let (data, etag) = s.get_with_etag("k").unwrap();
    assert_eq!((data, etag.as_str()), (Bytes::from_static(b"v1"), "e1"));
    assert_eq!(s.list("").unwrap()[0].last_modified, stamp("2026-01-02 03:04:05"));
}

#[test]
fn a_matching_write_replaces_data_etag_and_time() {
    let mut s = MemoryStorage::new();
    s.store("k", Bytes::from_static(b"v1"), "e1".to_string(), stamp("2026-01-02 03:04:05"));
    let meta = s
        .store_if_match(
            "k",
            Bytes::from_static(b"second"),
            "e1",
            "e2".to_string(),
            stamp("2026-01-02 03:04:06"),
        )
        .unwrap();
    assert_eq!((meta.size, meta.etag.as_str()), (6, "e2"));
    assert_eq!(meta.last_modified, stamp("2026-01-02 03:04:06"));
    assert_eq!(s.writes_count(), 2);
    assert!(s.put_if_match("k", Bytes::new(), "e1").is_err());
}

#[test]
fn a_conditional_write_of_a_missing_object_creates_nothing() {
    for if_match in ["e", ""] {
        let mut s = MemoryStorage::new();
        s.put("other", Bytes::from_static(b"o")).unwrap();
        let r = s.put_if_match("k", Bytes::from_static(b"v"), if_match);
        match r {
            Err(StorageError::EtagMismatch { key, expected, got }) => {
                assert_eq!((key.as_str(), expected.as_str(), got.as_str()), ("k", if_match, ""));
            }
            _ => panic!("not refused"),
        }
        assert_eq!(s.writes_count(), 1);
        assert!(matches!(s.get("k"), Err(StorageError::NotFound(k)) if k == "k"));
        assert!(matches!(s.get_with_etag("k"), Err(StorageError::NotFound(_))));
        let keys: Vec<String> = s.list("").unwrap().into_iter().map(|m| m.key).collect();
        assert_eq!(keys, vec!["other"]);
        s.put_if_absent("k", Bytes::from_static(b"v")).unwrap();
        assert_eq!(s.get("k").unwrap(), Bytes::from_static(b"v"));
    }
}

#[test]
fn a_deleted_object_matches_no_etag() {
    let mut s = MemoryStorage::new();
    let meta = s.put("k", Bytes::from_static(b"v")).unwrap();
    s.delete("k").unwrap();
    assert!(s.put_if_match("k", Bytes::from_static(b"w"), &meta.etag).is_err());
    assert!(matches!(s.get("k"), Err(StorageError::NotFound(_))));
}

#[test]
fn put_if_absent_needs_a_free_key() {
    let mut s = MemoryStorage::new();
    s.put_if_absent("k", Bytes::from_static(b"v")).unwrap();
    let e = s.put_if_absent("k", Bytes::from_static(b"w")).err().unwrap();
    assert_eq!(e.message(), "etag mismatch on k: expected (absent), got (present)");
    assert_eq!(s.get("k").unwrap(), Bytes::from_static(b"v"));
}

#[test]
fn delete_drops_one_object() {
    let mut s = MemoryStorage::new();
    for key in ["a", "b", "c", "d"] {
        s.put(key, Bytes::from_static(b"x")).unwrap();
    }
    s.delete("b").unwrap();
    s.delete("missing").unwrap();
    let keys: Vec<String> = s.list("").unwrap().into_iter().map(|m| m.key).collect();
    assert_eq!(keys, vec!["a", "c", "d"]);
    assert_eq!(s.writes_count(), 4);
}

#[test]
fn lists_are_in_byte_order() {
    let mut s = MemoryStorage::new();
    for key in ["b", "a", "ab", "B", "ä", "", "a/z", "a.z"] {
        s.put(key, Bytes::new()).unwrap();
    }
    let keys: Vec<String> = s.list("").unwrap().into_iter().map(|m| m.key).collect();
    assert_eq!(keys, vec!["", "B", "a", "a.z", "a/z", "ab", "b", "ä"]);
    let keys: Vec<String> = s.list("a").unwrap().into_iter().map(|m| m.key).collect();
    assert_eq!(keys, vec!["a", "a.z", "a/z", "ab"]);
    assert!(s.list("zzz").unwrap().is_empty());
}

#[test]
fn storage_messages() {
    assert_eq!(StorageError::NotFound("k".to_string()).message(), "not found: k");
    assert_eq!(StorageError::Backend("disk".to_string()).message(), "backend error: disk");
    assert_eq!(Manifest::CURRENT_VERSION, 1);
}

#[test]
fn manifests_are_copied_whole() {
    let manifest = Manifest {
        version: Manifest::CURRENT_VERSION,
        committed_at: stamp("2026-01-02 03:04:05"),
        request_id: "r".to_string(),
        data_objects: vec!["a".to_string(), "b".to_string()],
        metadata: serde_json::Value::from(7),
    };
    let copy = manifest.clone();
    assert_eq!((copy.version, copy.committed_at), (1, manifest.committed_at));
    assert_eq!((copy.request_id.as_str(), &copy.metadata), ("r", &manifest.metadata));
    assert_eq!(copy.data_objects, manifest.data_objects);
}
