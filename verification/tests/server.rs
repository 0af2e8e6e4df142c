use pg_relay::app::App;
use pg_relay::audit::{AuditEvent, CacheResult, Caller, Elapsed};
use pg_relay::audit_stdout::StdoutJsonLog;
use pg_relay::error::Error;
use pg_relay::ipc::{Answer, IpcServer, Opened};
use pg_relay::keys::{ComputeKey, LockKey};
use pg_relay::kv_store::{confirmation, storage_name, value_of, KvGet, KvPut};
use pg_relay::protocol::{Request, Response};
use pg_relay::read_cache::Step;
use pg_relay::registry::{ReadHandler, Registry, WriteHandler};
use pg_relay::row::{Column, Inputs, Row};
use pg_relay::schema::{TableFunctionKind, TableFunctionSchema};
use pg_relay::storage::{ObjectMeta, Storage, StorageError};
use pg_relay::storage_memory::MemoryStorage;
use pg_relay::table_function::{ComputeContext, WriteContext};
use std::sync::Arc;

type Server = IpcServer<KvGet, KvPut>;

fn empty_caller() -> Caller {
    Caller {
        pg_role: None,
        application_name: None,
        client_addr: None,
        backend_pid: None,
        session_user: None,
    }
}

fn text(s: &str) -> Column {
    Column::Text(s.to_string())
}

fn read(name: &str, pairs: Vec<(&str, Column)>) -> Request {
    Request::Read {
        table_function: name.to_string(),
        inputs: Inputs::from_pairs(pairs),
        caller: empty_caller(),
        trace_id: "t1".to_string(),
        deadline_ms: None,
    }
}

fn write(name: &str, pairs: Vec<(&str, Column)>, request_id: &str) -> Request {
    Request::Write {
        table_function: name.to_string(),
        inputs: Inputs::from_pairs(pairs),
        request_id: request_id.to_string(),
        caller: empty_caller(),
        trace_id: "t2".to_string(),
        deadline_ms: Some(5),
    }
}

fn put(key: &str, value: &str, id: &str) -> Request {
    write("kv_put", vec![("key", text(key)), ("value", text(value)), ("request_id", text(id))], id)
}

fn ms(n: u32) -> Elapsed {
    Elapsed { secs: 0, nanos: n * 1_000_000 }
}

fn server() -> Server {
    let mut registry = Registry::new();
    registry.register_read(Arc::new(KvGet));
    registry.register_write(Arc::new(KvPut));
    IpcServer::new(registry)
}

fn handle(server: &mut Server, storage: &mut MemoryStorage, req: Request) -> (Response, Option<AuditEvent>) {
    match server.open(req) {
        Opened::Reply(response) => (response, None),
        Opened::Read(call) => {
            if server.read_cache.step(&call.ticket) == Step::Run {
                let ctx = ComputeContext { storage: &*storage, trace_id: &call.trace_id };
                let given = call.handler.compute(&call.inputs, &ctx);
                server.read_cache.complete(&call.ticket, given);
            }
            let done = server.finish_read(call).project();
            let sizes = vec![10; done.rows.len()];
            let Answer { response, event } = done.conclude(&sizes, ms(4), ms(3));
            (response, Some(event))
        }
        Opened::Refused(done) => {
            let Answer { response, event } = done.conclude(&vec![], ms(2), ms(0));
            (response, Some(event))
        }
        Opened::Write(call) => {
            let mut ctx = WriteContext {
                storage,
                trace_id: &call.trace_id,
                request_id: &call.request_id,
            };
            let given = call.handler.execute(&call.inputs, &mut ctx);
            let done = server.settle_write(call, given);
            let Answer { response, event } = done.conclude(99, ms(5));
            (response, Some(event))
        }
        Opened::Settled(done) => {
            let Answer { response, event } = done.conclude(77, ms(6));
            (response, Some(event))
        }
    }
}

#[test]
fn end_to_end_read_write_idempotency() {
    let mut s = server();
    let mut store = MemoryStorage::new();

    let (r, event) = handle(&mut s, &mut store, Request::Ping);
    assert!(matches!(r, Response::Pong));
    assert!(event.is_none());

    let (r, event) = handle(&mut s, &mut store, read("kv_get", vec![("key", text("foo"))]));
    match r {
        Response::Rows { rows, cache, compute_ms } => {
            assert_eq!(rows.len(), 1);
            assert_eq!(rows[0].columns, vec![text("foo"), Column::Null]);
            assert_eq!(cache, CacheResult::Miss);
            assert_eq!(compute_ms, ms(3));
        }
        other => panic!("unexpected response: {other:?}"),
    }
    let event = event.unwrap();
    assert_eq!(event.trace_id, "t1");
    assert_eq!(event.request_id, None);
    assert_eq!(event.operation.table_function, "kv_get");
    assert_eq!(event.operation.kind, TableFunctionKind::Read);
    assert_eq!(event.operation.inputs.get_text("key").unwrap(), "foo");
    assert_eq!(event.result.status, "ok");
    assert_eq!(event.result.error_code, None);
    assert_eq!((event.result.rows, event.result.bytes_out), (1, 10));
    assert_eq!((event.result.latency_ms, event.result.compute_ms), (ms(4), ms(3)));
    assert_eq!(event.result.storage_ms, ms(0));

    let (r, event) = handle(&mut s, &mut store, put("foo", "hello", "req_1"));
    match r {
        Response::Outcome { row, was_idempotent_noop } => {
            assert!(!was_idempotent_noop);
            assert_eq!(row.columns[0], text("foo"));
            assert_eq!(row.columns[1], Column::Int64(5));
            assert!(matches!(row.columns[2], Column::Timestamp(_)));
        }
        other => panic!("unexpected response: {other:?}"),
    }
    let event = event.unwrap();
    assert_eq!(event.request_id.as_deref(), Some("req_1"));
    assert_eq!(event.operation.kind, TableFunctionKind::Write);
    assert_eq!(event.result.cache, CacheResult::NotApplicable);
    assert_eq!((event.result.rows, event.result.bytes_out), (1, 99));

    // The value that was cached before the write is still served.
    let (r, event) = handle(&mut s, &mut store, read("kv_get", vec![("key", text("foo"))]));
    match r {
        Response::Rows { rows, cache, .. } => {
            assert_eq!(rows.len(), 1);
            assert_eq!(cache, CacheResult::Hit);
        }
        other => panic!("unexpected response: {other:?}"),
    }
    assert_eq!(event.unwrap().result.cache, CacheResult::Hit);

    let (r, event) = handle(&mut s, &mut store, put("foo", "ignored", "req_1"));
    match r {
        Response::Outcome { was_idempotent_noop, .. } => assert!(was_idempotent_noop),
        other => panic!("unexpected response: {other:?}"),
    }
    assert_eq!(event.unwrap().result.bytes_out, 77);
    assert_eq!(store.get("kv/foo").unwrap(), bytes::Bytes::from_static(b"hello"));

    let name = "kv_get".to_string();
    let (r, _) = handle(&mut s, &mut store, Request::Describe { table_function: name });
    match r {
        Response::Schema(schema) => {
            assert_eq!(schema.name, "kv_get");
            assert!(matches!(schema.kind, TableFunctionKind::Read));
            assert_eq!(schema.columns[1].description, "Null if key absent");
            assert_eq!(schema.timeout_ms, Some(1000));
        }
        other => panic!("unexpected response: {other:?}"),
    }
    let name = "kv_put".to_string();
    let (r, _) = handle(&mut s, &mut store, Request::Describe { table_function: name });
    assert!(matches!(r, Response::Schema(schema) if schema.shard_key.as_deref() == Some("key")));

    let (r, _) = handle(&mut s, &mut store, Request::ListTableFunctions);
    match r {
        Response::SchemaList(list) => {
            let names: Vec<&str> = list.iter().map(|s| s.name.as_str()).collect();
            assert_eq!(names, vec!["kv_get", "kv_put"]);
        }
        other => panic!("unexpected response: {other:?}"),
    }
}

fn error_of(r: Response) -> (String, String) {
    match r {
        Response::Error { code, message } => (code, message),
        other => panic!("unexpected response: {other:?}"),
    }
}

#[test]
fn unknown_table_functions_are_refused_and_audited() {
    let mut s = server();
    let mut store = MemoryStorage::new();
    for (req, name, kind, request_id) in [
        (read("nope", vec![("key", text("k"))]), "nope", TableFunctionKind::Read, None),
        (read("kv_put", vec![("key", text("k"))]), "kv_put", TableFunctionKind::Read, None),
        (write("nope", vec![("key", text("k"))], "r"), "nope", TableFunctionKind::Write, Some("r")),
        (
            write("kv_get", vec![("key", text("k"))], "r"),
            "kv_get",
            TableFunctionKind::Write,
            Some("r"),
        ),
    ] {
        let (r, event) = handle(&mut s, &mut store, req);
        assert_eq!(error_of(r), ("unknown_table_function".to_string(), name.to_string()));
        let event = event.unwrap();
        assert_eq!(event.request_id.as_deref(), request_id);
        assert_eq!(event.operation.table_function, name);
        assert_eq!(event.operation.kind, kind);
        assert_eq!(event.operation.inputs.get_text("key").unwrap(), "k");
        assert_eq!(event.result.status, "unknown_table_function");
        assert_eq!(event.result.error_code.as_deref(), Some("unknown_table_function"));
        assert_eq!(event.result.cache, CacheResult::NotApplicable);
        assert_eq!((event.result.rows, event.result.bytes_out), (0, 0));
    }
    assert!(s.read_cache.is_empty());
    assert_eq!(s.write_coord.idempotency_len(), 0);

    let name = "nope".to_string();
    let (r, event) = handle(&mut s, &mut store, Request::Describe { table_function: name });
    assert_eq!(error_of(r), ("unknown_table_function".to_string(), "nope".to_string()));
    assert!(event.is_none());
}

#[test]
fn requests_without_a_key_are_refused_and_audited() {
    let mut s = server();
    let mut store = MemoryStorage::new();
    let (r, event) = handle(&mut s, &mut store, read("kv_get", vec![]));
    assert_eq!(error_of(r), ("missing_input".to_string(), "missing input 'key'".to_string()));
    let event = event.unwrap();
    assert_eq!((event.trace_id.as_str(), event.request_id.as_deref()), ("t1", None));
    assert_eq!(event.operation.table_function, "kv_get");
    assert_eq!(event.result.error_code.as_deref(), Some("missing_input"));
    assert_eq!(event.result.cache, CacheResult::NotApplicable);
    assert_eq!((event.result.rows, event.result.bytes_out), (0, 0));
    assert_eq!((event.result.latency_ms, event.result.compute_ms), (ms(2), ms(0)));
    assert!(s.read_cache.is_empty());

    let (r, event) = handle(&mut s, &mut store, write("kv_put", vec![("key", Column::Null)], "r"));
    assert_eq!(error_of(r).0, "input_type_mismatch");
    let event = event.unwrap();
    assert_eq!((event.trace_id.as_str(), event.request_id.as_deref()), ("t2", Some("r")));
    assert_eq!(event.operation.table_function, "kv_put");
    assert_eq!(event.result.error_code.as_deref(), Some("input_type_mismatch"));
    assert_eq!((event.result.rows, event.result.bytes_out), (0, 0));
    assert_eq!(store.writes_count(), 0);
}

#[test]
fn a_failed_write_is_answered_and_audited() {
    let mut s = server();
    let mut store = MemoryStorage::new();
    let (r, event) = handle(&mut s, &mut store, write("kv_put", vec![("key", text("k"))], "r"));
    assert_eq!(error_of(r), ("missing_input".to_string(), "missing input 'value'".to_string()));
    let event = event.unwrap();
    assert_eq!(event.result.status, "missing_input");
    assert_eq!(event.result.error_code.as_deref(), Some("missing_input"));
    assert_eq!((event.result.rows, event.result.bytes_out), (0, 0));
}

#[test]
fn a_write_under_way_refuses_another() {
    let mut s = server();
    let mut store = MemoryStorage::new();
    let first = match s.open(put("k", "1", "r1")) {
        Opened::Write(call) => call,
        _ => panic!("not admitted"),
    };
    let (r, event) = handle(&mut s, &mut store, put("k", "2", "r2"));
    let expected = "concurrent write in progress for shard key k".to_string();
    assert_eq!(error_of(r), ("write_conflict".to_string(), expected));
    assert_eq!(event.unwrap().result.error_code.as_deref(), Some("write_conflict"));
    let (r, _) = handle(&mut s, &mut store, put("other", "2", "r3"));
    assert!(matches!(r, Response::Outcome { .. }));
    s.write_coord.abort(first.ticket);
    let (r, _) = handle(&mut s, &mut store, put("k", "2", "r2"));
    assert!(matches!(r, Response::Outcome { .. }));
}

#[test]
fn a_failed_computation_counts_as_a_miss() {
    let mut s = server();
    let call = match s.open(read("kv_get", vec![("key", text("k"))])) {
        Opened::Read(call) => call,
        _ => panic!("not opened"),
    };
    assert_eq!(s.read_cache.step(&call.ticket), Step::Run);
    s.read_cache.complete(&call.ticket, Err(Error::Storage("down".to_string())));
    let done = s.finish_read(call).project();
    assert!(done.rows.is_empty());
    let answer = done.conclude(&vec![], ms(1), ms(1));
    assert_eq!(
        error_of(answer.response),
        ("compute_error".to_string(), "compute error: storage error: down".to_string())
    );
    assert_eq!(answer.event.result.cache, CacheResult::Miss);
    assert_eq!(answer.event.result.status, "compute_error");
    assert!(s.read_cache.is_empty());
}

#[test]
fn a_failed_read_is_audited_without_bytes() {
    let mut s = server();
    let done = match s.open(read("nope", vec![])) {
        Opened::Refused(done) => done,
        _ => panic!("not refused"),
    };
    let answer = done.conclude(&vec![5, u64::MAX], ms(1), ms(1));
    assert_eq!((answer.event.result.rows, answer.event.result.bytes_out), (0, 0));
    let copy = answer.event.clone();
    assert_eq!(copy.ts, answer.event.ts);
    assert_eq!(copy.trace_id, "t1");
    assert_eq!(copy.operation.table_function, "nope");
    assert_eq!(copy.result.error_code.as_deref(), Some("unknown_table_function"));
}

#[test]
fn a_late_reader_is_coalesced() {
    let mut s = server();
    let open = |s: &mut Server| match s.open(read("kv_get", vec![("key", text("k"))])) {
        Opened::Read(call) => call,
        _ => panic!("not opened"),
    };
    let first = open(&mut s);
    let second = open(&mut s);
    assert_eq!(s.read_cache.step(&first.ticket), Step::Run);
    assert_eq!(s.read_cache.step(&second.ticket), Step::Wait);
    s.read_cache.complete(&first.ticket, Ok(Arc::new(Some("v".to_string()))));
    let at = chrono::NaiveDate::from_ymd_opt(2026, 1, 1).unwrap().and_hms_opt(0, 0, 0).unwrap();
    let answer = s.finish_read(second).project().conclude_at(&vec![3, 4], ms(1), ms(2), at);
    assert_eq!(answer.event.ts, at);
    assert_eq!(answer.event.result.bytes_out, 7);
    match answer.response {
        Response::Rows { rows, cache, .. } => {
            assert_eq!(cache, CacheResult::Coalesced);
            assert_eq!(rows[0].columns, vec![text("k"), text("v")]);
        }
        other => panic!("unexpected response: {other:?}"),
    }
    assert_eq!(answer.event.result.cache, CacheResult::Coalesced);
    let done = s.finish_read(first).project();
    assert_eq!(done.rows.len(), 1);
}

#[test]
fn kv_keys_and_values() {
    let inputs = Inputs::from_pairs(vec![("key", text("k"))]);
    let key = KvGet.compute_key(&inputs).unwrap();
    assert_eq!(key.0, ComputeKey::from_parts(&[b"kv_get:", b"k"]).0);
    assert_eq!(KvPut.lock_key(&inputs).unwrap().0, LockKey::from("k").0);
    assert_eq!(KvPut.idempotency_key(&inputs), None);

    let mut store = MemoryStorage::new();
    store.put("kv/k", bytes::Bytes::from_static(&[b'a', 0xff, b'b'])).unwrap();
    store.put("kv/e", bytes::Bytes::from_static("ä€".as_bytes())).unwrap();
    let ctx = ComputeContext { storage: &store, trace_id: "t" };
    let state = KvGet.compute(&inputs, &ctx).unwrap();
    assert_eq!(state.as_deref(), Some("a\u{fffd}b"));
    let missing = Inputs::from_pairs(vec![("key", text("none"))]);
    assert_eq!(KvGet.compute(&missing, &ctx).unwrap().as_deref(), None);
    let inputs = Inputs::from_pairs(vec![("key", text("e"))]);
    assert_eq!(KvGet.compute(&inputs, &ctx).unwrap().as_deref(), Some("ä€"));
}

#[test]
fn storage_failures_are_reported() {
    let down = || StorageError::Backend("down".to_string());
    let e = value_of(Err(down())).err().unwrap();
    assert_eq!(e.message(), "storage error: backend error: down");
    assert_eq!(value_of(Err(StorageError::NotFound("k".to_string()))).unwrap(), None);
    let e = confirmation("k", Err(down())).err().unwrap();
    assert_eq!(e.code(), "storage_error");
    assert_eq!(e.message(), "storage error: backend error: down");
}

#[test]
fn a_write_is_confirmed_with_its_size_and_time() {
    let at = chrono::NaiveDate::from_ymd_opt(2026, 1, 1).unwrap().and_hms_opt(0, 0, 0).unwrap();
    let meta = ObjectMeta {
        key: "kv/k".to_string(),
        size: 3,
        etag: "e".to_string(),
        last_modified: at,
    };
    let row = confirmation("k", Ok(meta.clone())).unwrap();
    assert_eq!(row.columns, vec![text("k"), Column::Int64(3), Column::Timestamp(at)]);
    assert_eq!(storage_name("k"), meta.key);
}

struct Named(&'static str);

impl Named {
    fn describe(&self, kind: TableFunctionKind) -> TableFunctionSchema {
        TableFunctionSchema {
            name: self.0.to_string(),
            kind,
            inputs: vec![],
            columns: vec![],
            description: String::new(),
            shard_key: None,
            estimated_rows: 1,
            timeout_ms: None,
        }
    }
}

impl ReadHandler for Named {
    type State = u32;

    fn schema(&self) -> TableFunctionSchema {
        self.describe(TableFunctionKind::Read)
    }

    fn compute_key(&self, _inputs: &Inputs) -> Result<ComputeKey, Error> {
        Ok(ComputeKey(vec![]))
    }

    fn project(&self, _inputs: &Inputs, _state: &Arc<u32>) -> Result<Vec<Row>, Error> {
        Err(Error::Compute("no projection".to_string()))
    }
}

impl WriteHandler for Named {
    fn schema(&self) -> TableFunctionSchema {
        self.describe(TableFunctionKind::Write)
    }

    fn lock_key(&self, _inputs: &Inputs) -> Result<LockKey, Error> {
        Ok(LockKey::from("one"))
    }

    fn idempotency_key(&self, _inputs: &Inputs) -> Option<String> {
        None
    }
}

#[test]
fn schemas_are_listed_by_name_reads_first() {
    let mut registry: Registry<Named, Named> = Registry::default();
    for name in ["m", "c", "z"] {
        registry.register_write(Arc::new(Named(name)));
    }
    for name in ["z", "a", "m"] {
        registry.register_read(Arc::new(Named(name)));
    }
    let list: Vec<(String, TableFunctionKind)> =
        registry.list_schemas().into_iter().map(|s| (s.name, s.kind)).collect();
    let read = TableFunctionKind::Read;
    let write = TableFunctionKind::Write;
    let expected: Vec<(String, TableFunctionKind)> =
        [("a", read), ("c", write), ("m", read), ("m", write), ("z", read), ("z", write)]
            .iter()
            .map(|(n, k)| (n.to_string(), *k))
            .collect();
    assert_eq!(list, expected);
}

#[test]
fn a_later_registration_replaces_an_earlier_one() {
    let mut registry: Registry<Named, Named> = Registry::new();
    let first = Arc::new(Named("f"));
    let second = Arc::new(Named("f"));
    registry.register_read(first);
    registry.register_read(second.clone());
    assert!(Arc::ptr_eq(&registry.get_read("f").unwrap(), &second));
    assert!(registry.get_write("f").is_none());
    registry.add_write("g".to_string(), Arc::new(Named("f")));
    assert!(registry.get_write("g").is_some());
    assert!(registry.get_read("g").is_none());
}

#[test]
fn a_failed_projection_keeps_its_cache_outcome() {
    let mut registry: Registry<Named, Named> = Registry::new();
    registry.add_read("f".to_string(), Arc::new(Named("f")));
    let mut s = IpcServer::new(registry);
    let mut outcomes = Vec::new();
    for _ in 0..2 {
        let call = match s.open(read("f", vec![])) {
            Opened::Read(call) => call,
            _ => panic!("not opened"),
        };
        if s.read_cache.step(&call.ticket) == Step::Run {
            s.read_cache.complete(&call.ticket, Ok(Arc::new(1)));
        }
        let answer = s.finish_read(call).project().conclude(&vec![], ms(1), ms(1));
        assert_eq!(error_of(answer.response).1, "compute error: no projection");
        outcomes.push(answer.event.result.cache);
    }
    assert_eq!(outcomes, vec![CacheResult::Miss, CacheResult::Hit]);
}

#[test]
fn a_daemon_needs_storage() {
    let app: App<Named, Named, u8, StdoutJsonLog> = App::default();
    let e = app.parts(StdoutJsonLog::new()).err().unwrap();
    assert_eq!(e, "App::serve_unix requires storage()");

    let mut app: App<Named, Named, u8, u16> = App::new().storage(1);
    app.register_read(Arc::new(Named("a")));
    app.register_write(Arc::new(Named("b")));
    assert_eq!(app.registry().list_schemas().len(), 2);
    let parts = app.parts(7).ok().unwrap();
    assert_eq!((parts.storage, parts.audit), (1, 7));

    let app: App<Named, Named, u8, u16> = App::new().audit(3).storage(2);
    let parts = app.parts(7).ok().unwrap();
    assert_eq!((parts.storage, parts.audit), (2, 3));
}
