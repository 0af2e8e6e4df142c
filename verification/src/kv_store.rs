//! A key-value store in two table functions: `kv_get` reads a value, `kv_put`
//! writes one.

use crate::error::{Error, ErrorView};
use crate::keys::{
    key_bytes, law_key_determines_parts, part_views, short_parts, ComputeKey, LockKey,
};
use crate::outside::{bytes_content, lossy_text, repaired_text};
use crate::registry::{ReadHandler, WriteHandler};
use crate::row::{input_type_error, named_value, Column, ColumnView, Inputs, Row};
use crate::schema::{
    ColumnSchema, ColumnSchemaView, TableFunctionKind, TableFunctionSchema,
    TableFunctionSchemaView, Type,
};
use crate::storage::{
    described, meta_of, ObjectMeta, ObjectMetaView, ObjectView, Storage, StorageError,
    StorageErrorView, StorageResult,
};
use crate::table_function::{ComputeContext, WriteContext};
use crate::text::{lemma_utf8_injective, lemma_utf8_len};
use bytes::Bytes;
use std::sync::Arc;
use vstd::prelude::*;
use vstd::string::*;
use vstd::utf8::*;

verus! {

/// The read function.
pub struct KvGet;

/// The write function.
pub struct KvPut;

/// The storage key for a key of the store.
pub open spec fn storage_key(key: Seq<char>) -> Seq<char> {
    "kv/"@ + key
}

/// The storage key for a key of the store.
pub fn storage_name(key: &str) -> (name: String)
    ensures
        name@ == storage_key(key@),
{
    let mut name = "kv/".to_string();
    name.append(key);
    name
}

/// The text of stored bytes.
pub open spec fn stored_text(b: Seq<u8>) -> Seq<char> {
    if valid_utf8(b) {
        decode_utf8(b)
    } else {
        repaired_text(b)
    }
}

/// The value of a key.
pub open spec fn kv_value(objects: Map<Seq<char>, ObjectView>, key: Seq<char>) -> Option<
    Seq<char>,
> {
    if objects.contains_key(storage_key(key)) {
        Some(stored_text(objects[storage_key(key)].data))
    } else {
        None
    }
}

/// The text under a name among the inputs, or the error that it is not there
/// or not a text.
pub open spec fn text_input(inputs: Seq<(Seq<char>, ColumnView)>, name: Seq<char>) -> Result<
    Seq<char>,
    ErrorView,
> {
    match named_value(inputs, name) {
        None => Err(ErrorView::MissingInput(name)),
        Some(ColumnView::Text(v)) => Ok(v),
        Some(c) => Err(input_type_error(name, "text"@, c)),
    }
}

/// The value of the state that was read.
pub open spec fn state_view(state: Option<String>) -> Option<Seq<char>> {
    match state {
        Some(s) => Some(s@),
        None => None,
    }
}

fn column(name: &str, ty: Type, nullable: bool, description: &str) -> (c: ColumnSchema)
    ensures
        c@ == (ColumnSchemaView { name: name@, ty, nullable, description: description@ }),
{
    ColumnSchema {
        name: name.to_string(),
        ty,
        nullable,
        description: description.to_string(),
    }
}

/// The description of a column.
pub open spec fn column_view(
    name: Seq<char>,
    ty: Type,
    nullable: bool,
    description: Seq<char>,
) -> ColumnSchemaView {
    ColumnSchemaView { name, ty, nullable, description }
}

/// The schema of the read function.
pub open spec fn kv_get_schema() -> TableFunctionSchemaView {
    TableFunctionSchemaView {
        name: "kv_get"@,
        kind: TableFunctionKind::Read,
        inputs: seq![column_view("key"@, Type::Text, false, "Key to look up"@)],
        columns: seq![
            column_view("key"@, Type::Text, false, ""@),
            column_view("value"@, Type::Text, true, "Null if key absent"@),
        ],
        description: "Read a value by key from the in-memory KV store."@,
        shard_key: None,
        estimated_rows: 1,
        timeout_ms: Some(1000),
    }
}

/// The schema of the write function.
pub open spec fn kv_put_schema() -> TableFunctionSchemaView {
    TableFunctionSchemaView {
        name: "kv_put"@,
        kind: TableFunctionKind::Write,
        inputs: seq![
            column_view("key"@, Type::Text, false, ""@),
            column_view("value"@, Type::Text, false, ""@),
            column_view("request_id"@, Type::Text, false, "Idempotency key"@),
        ],
        columns: seq![
            column_view("key"@, Type::Text, false, ""@),
            column_view("bytes_written"@, Type::Int64, false, ""@),
            column_view("committed_at"@, Type::Timestamp, false, ""@),
        ],
        description: "Write a key/value pair atomically."@,
        shard_key: Some("key"@),
        estimated_rows: 1,
        timeout_ms: Some(5000),
    }
}

/// The rows of a read: the key and its value, or null.
pub open spec fn kv_row(key: Seq<char>, value: Option<Seq<char>>) -> Seq<ColumnView> {
    seq![
        ColumnView::Text(key),
        match value {
            Some(v) => ColumnView::Text(v),
            None => ColumnView::Null,
        },
    ]
}

/// The backend of the storage failed.
pub open spec fn is_backend_failure(e: ErrorView) -> bool {
    exists|m: Seq<char>|
        e == ErrorView::Storage(#[trigger] StorageErrorView::Backend(m).message())
}

/// What a read of a value comes to when the storage gave `found`.
pub open spec fn kv_read(found: StorageResult<Bytes>) -> Result<Option<Seq<char>>, ErrorView> {
    match found {
        Ok(data) => Ok(Some(stored_text(bytes_content(data)))),
        Err(e) => if e@ is NotFound {
            Ok(None)
        } else {
            Err(ErrorView::Storage(e@.message()))
        },
    }
}

/// What a write of a value comes to when the storage gave `stored`.
pub open spec fn kv_confirmed(key: Seq<char>, stored: StorageResult<ObjectMeta>) -> Result<
    Seq<ColumnView>,
    ErrorView,
> {
    match stored {
        Ok(meta) => Ok(written_row(key, meta@)),
        Err(e) => Err(ErrorView::Storage(e@.message())),
    }
}

/// A write has stored the value, and its row tells of it.
pub open spec fn kv_written(
    before: Map<Seq<char>, ObjectView>,
    after: Map<Seq<char>, ObjectView>,
    key: Seq<char>,
    value: Seq<char>,
    row: Seq<ColumnView>,
) -> bool {
    let object = after[storage_key(key)];
    &&& after == before.insert(storage_key(key), object)
    &&& object.data == encode_utf8(value)
    &&& row == written_row(key, meta_of(storage_key(key), object))
}

/// The value that was read: none where there is no object. Any other failure
/// is a storage error.
pub fn value_of(found: StorageResult<Bytes>) -> (value: Result<Option<String>, Error>)
    ensures
        match kv_read(found) {
            Ok(v) => value matches Ok(text) && state_view(text) == v,
            Err(e) => value matches Err(r) && r@ == e,
        },
{
    match found {
        Ok(data) => Ok(Some(lossy_text(&data))),
        Err(StorageError::NotFound(_)) => Ok(None),
        Err(e) => Err(Error::Storage(e.message())),
    }
}

/// The row of a write: the key, the number of bytes and the time.
pub open spec fn written_row(key: Seq<char>, meta: ObjectMetaView) -> Seq<ColumnView> {
    seq![
        ColumnView::Text(key),
        ColumnView::Int64(meta.size as i64),
        ColumnView::Timestamp(meta.last_modified),
    ]
}

/// What a write is confirmed with, after it was stored or not.
pub fn confirmation(key: &str, stored: StorageResult<ObjectMeta>) -> (result: Result<Row, Error>)
    ensures
        match kv_confirmed(key@, stored) {
            Ok(row) => result matches Ok(r) && r@ == row,
            Err(e) => result matches Err(r) && r@ == e,
        },
{
    match stored {
        Ok(meta) => {
            let row = Row::new().push(key).push(meta.size as i64).push(meta.last_modified);
            assert(row@ =~= written_row(key@, meta@));
            Ok(row)
        },
        Err(e) => Err(Error::Storage(e.message())),
    }
}

impl ReadHandler for KvGet {
    type State = Option<String>;

    fn schema(&self) -> (schema: TableFunctionSchema)
        ensures
            schema@ == kv_get_schema(),
    {
        let mut inputs: Vec<ColumnSchema> = Vec::new();
        inputs.push(column("key", Type::Text, false, "Key to look up"));
        let mut columns: Vec<ColumnSchema> = Vec::new();
        columns.push(column("key", Type::Text, false, ""));
        columns.push(column("value", Type::Text, true, "Null if key absent"));
        let schema = TableFunctionSchema {
            name: "kv_get".to_string(),
            kind: TableFunctionKind::Read,
            inputs,
            columns,
            description: "Read a value by key from the in-memory KV store.".to_string(),
            shard_key: None,
            estimated_rows: 1,
            timeout_ms: Some(1000),
        };
        assert(schema@.inputs =~= kv_get_schema().inputs);
        assert(schema@.columns =~= kv_get_schema().columns);
        schema
    }

    fn compute_key(&self, inputs: &Inputs) -> (result: Result<ComputeKey, Error>)
        ensures
            match text_input(inputs@, "key"@) {
                Ok(key) => result matches Ok(k) && k@ == key_bytes(
                    seq![encode_utf8("kv_get:"@), encode_utf8(key)],
                ),
                Err(e) => result matches Err(r) && r@ == e,
            },
    {
        let key = match inputs.get_text("key") {
            Ok(key) => key,
            Err(e) => {
                return Err(e);
            },
        };
        let mut parts: Vec<&[u8]> = Vec::new();
        parts.push("kv_get:".as_bytes());
        parts.push(key.as_bytes());
        let k = ComputeKey::from_parts(parts.as_slice());
        assert(part_views(parts@) =~= seq![
            encode_utf8("kv_get:"@),
            encode_utf8(key@),
        ]);
        Ok(k)
    }

    fn project(&self, inputs: &Inputs, state: &Arc<Option<String>>) -> (result: Result<
        Vec<Row>,
        Error,
    >)
        ensures
            match text_input(inputs@, "key"@) {
                Ok(key) => result matches Ok(rows) && rows@.len() == 1 && rows@[0]@ == kv_row(
                    key,
                    state_view(**state),
                ),
                Err(e) => result matches Err(r) && r@ == e,
            },
    {
        let key = match inputs.get_text("key") {
            Ok(key) => key,
            Err(e) => {
                return Err(e);
            },
        };
        let value: Option<String> = match &**state {
            Some(v) => Some(v.clone()),
            None => None,
        };
        let row = Row::new().push(key).push(value);
        assert(row@ =~= kv_row(key@, state_view(**state)));
        let mut rows: Vec<Row> = Vec::new();
        rows.push(row);
        Ok(rows)
    }
}

impl KvGet {
    /// Reads the value of the key from storage: what comes of it is decided by
    /// what the storage gives for the name of the key.
    pub fn compute<St: Storage>(&self, inputs: &Inputs, ctx: &ComputeContext<'_, St>) -> (result:
        Result<Arc<Option<String>>, Error>)
        requires
            ctx.storage.ready(),
        ensures
            match text_input(inputs@, "key"@) {
                Ok(key) => {
                    &&& match result {
                        Ok(state) => state_view(*state) == kv_value(ctx.storage.objects(), key),
                        Err(e) => !ctx.storage.reliable() && is_backend_failure(e@),
                    }
                    &&& exists|name: &str, found: StorageResult<Bytes>|
                        name@ == storage_key(key) && #[trigger] call_ensures(
                            St::get,
                            (ctx.storage, name),
                            found,
                        ) && match kv_read(found) {
                            Ok(value) => result matches Ok(state) && state_view(*state) == value,
                            Err(e) => result matches Err(r) && r@ == e,
                        }
                },
                Err(e) => result matches Err(r) && r@ == e,
            },
    {
        let key = match inputs.get_text("key") {
            Ok(key) => key,
            Err(e) => {
                return Err(e);
            },
        };
        let name = storage_name(key);
        let name = name.as_str();
        let found = ctx.storage.get(name);
        assert(call_ensures(St::get, (ctx.storage, name), found));
        match value_of(found) {
            Ok(value) => Ok(Arc::new(value)),
            Err(e) => Err(e),
        }
    }
}

impl WriteHandler for KvPut {
    fn schema(&self) -> (schema: TableFunctionSchema)
        ensures
            schema@ == kv_put_schema(),
    {
        let mut inputs: Vec<ColumnSchema> = Vec::new();
        inputs.push(column("key", Type::Text, false, ""));
        inputs.push(column("value", Type::Text, false, ""));
        inputs.push(column("request_id", Type::Text, false, "Idempotency key"));
        let mut columns: Vec<ColumnSchema> = Vec::new();
        columns.push(column("key", Type::Text, false, ""));
        columns.push(column("bytes_written", Type::Int64, false, ""));
        columns.push(column("committed_at", Type::Timestamp, false, ""));
        let schema = TableFunctionSchema {
            name: "kv_put".to_string(),
            kind: TableFunctionKind::Write,
            inputs,
            columns,
            description: "Write a key/value pair atomically.".to_string(),
            shard_key: Some("key".to_string()),
            estimated_rows: 1,
            timeout_ms: Some(5000),
        };
        assert(schema@.inputs =~= kv_put_schema().inputs);
        assert(schema@.columns =~= kv_put_schema().columns);
        schema
    }

    fn lock_key(&self, inputs: &Inputs) -> (result: Result<LockKey, Error>)
        ensures
            match text_input(inputs@, "key"@) {
                Ok(key) => result matches Ok(k) && k@ == key,
                Err(e) => result matches Err(r) && r@ == e,
            },
    {
        match inputs.get_text("key") {
            Ok(key) => Ok(LockKey::from(key)),
            Err(e) => Err(e),
        }
    }

    fn idempotency_key(&self, inputs: &Inputs) -> (key: Option<String>)
        ensures
            match text_input(inputs@, "request_id"@) {
                Ok(id) => key matches Some(k) && k@ == id,
                Err(_) => key is None,
            },
    {
        match inputs.get_text("request_id") {
            Ok(id) => Some(id.to_string()),
            Err(_) => None,
        }
    }
}

impl KvPut {
    /// Writes the value of the key to storage.
    pub fn execute<St: Storage>(&self, inputs: &Inputs, ctx: &mut WriteContext<'_, St>) -> (result:
        Result<Row, Error>)
        requires
            old(ctx).storage.ready(),
        ensures
            final(ctx).storage.ready(),
            match (text_input(inputs@, "key"@), text_input(inputs@, "value"@)) {
                (Err(e), _) => {
                    &&& result matches Err(r) && r@ == e
                    &&& final(ctx).storage.objects() == old(ctx).storage.objects()
                },
                (Ok(_), Err(e)) => {
                    &&& result matches Err(r) && r@ == e
                    &&& final(ctx).storage.objects() == old(ctx).storage.objects()
                },
                (Ok(key), Ok(value)) => match result {
                    Ok(row) => kv_written(
                        old(ctx).storage.objects(),
                        final(ctx).storage.objects(),
                        key,
                        value,
                        row@,
                    ),
                    Err(e) => {
                        &&& !old(ctx).storage.reliable()
                        &&& is_backend_failure(e@)
                        &&& final(ctx).storage.objects() == old(ctx).storage.objects()
                    },
                },
            },
    {
        let key = match inputs.get_text("key") {
            Ok(key) => key,
            Err(e) => {
                return Err(e);
            },
        };
        let value = match inputs.get_text("value") {
            Ok(value) => value,
            Err(e) => {
                return Err(e);
            },
        };
        let name = storage_name(key);
        let data = Bytes::from(value.as_bytes_vec());
        let stored = ctx.storage.put(name.as_str(), data);
        proof {
            if stored is Ok {
                let meta = stored->Ok_0;
                let object = described(meta@, encode_utf8(value@));
                assert(ctx.storage.objects() == old(ctx).storage.objects().insert(
                    storage_key(key@),
                    object,
                ));
            }
        }
        confirmation(key, stored)
    }
}

/// What was put is what is got: after a write of a value, reading the key gives
/// the value, and every other key gives what it gave before.
pub proof fn law_put_then_get(
    before: Map<Seq<char>, ObjectView>,
    after: Map<Seq<char>, ObjectView>,
    key: Seq<char>,
    value: Seq<char>,
    row: Seq<ColumnView>,
    other: Seq<char>,
)
    requires
        kv_written(before, after, key, value, row),
        other != key,
    ensures
        kv_value(after, key) == Some(value),
        kv_value(after, other) == kv_value(before, other),
{
    encode_utf8_valid_utf8(value);
    encode_utf8_decode_utf8(value);
    if storage_key(key) == storage_key(other) {
        let n = "kv/"@.len() as int;
        assert(storage_key(key).skip(n) =~= key);
        assert(storage_key(other).skip(n) =~= other);
    }
}

/// Reads of different keys never share a computation, for keys whose encoding
/// is shorter than 4 GiB.
pub proof fn law_keys_have_their_own_computation(a: Seq<char>, b: Seq<char>)
    requires
        encode_utf8(a).len() < 0x1_0000_0000,
        encode_utf8(b).len() < 0x1_0000_0000,
        key_bytes(seq![encode_utf8("kv_get:"@), encode_utf8(a)]) == key_bytes(
            seq![encode_utf8("kv_get:"@), encode_utf8(b)],
        ),
    ensures
        a == b,
{
    let x = seq![encode_utf8("kv_get:"@), encode_utf8(a)];
    let y = seq![encode_utf8("kv_get:"@), encode_utf8(b)];
    lemma_utf8_len("kv_get:"@);
    reveal_strlit("kv_get:");
    assert(short_parts(x));
    assert(short_parts(y));
    law_key_determines_parts(x, y);
    assert(x[1] == y[1]);
    lemma_utf8_injective(a, b);
}

/// A key is stored under its own name behind `kv/`.
pub proof fn law_storage_names(key: &str, name: String, other: &str, second: String)
    requires
        call_ensures(storage_name, (key,), name),
        call_ensures(storage_name, (other,), second),
    ensures
        name@ == "kv/"@ + key@,
        name@ == second@ <==> key@ == other@,
{
    if name@ == second@ {
        let n = "kv/"@.len() as int;
        assert(name@.skip(n) =~= key@);
        assert(second@.skip(n) =~= other@);
    }
}

/// The value of an object is its text, that of a missing object none, and any
/// other failure of the storage is a storage error with its message.
pub proof fn law_values(found: StorageResult<Bytes>, value: Result<Option<String>, Error>)
    requires
        call_ensures(value_of, (found,), value),
    ensures
        match found {
            Ok(data) => (value matches Ok(Some(v)) && v@ == if valid_utf8(bytes_content(data)) {
                decode_utf8(bytes_content(data))
            } else {
                repaired_text(bytes_content(data))
            }),
            Err(StorageError::NotFound(_)) => value matches Ok(None),
            Err(StorageError::EtagMismatch { key, expected, got }) => (
            value matches Err(Error::Storage(m)) && m@ == "etag mismatch on "@ + key@
                + ": expected "@ + expected@ + ", got "@ + got@),
            Err(StorageError::Backend(reason)) => (value matches Err(Error::Storage(m)) && m@
                == "backend error: "@ + reason@),
        },
{
}

/// A write is confirmed with its key, the number of its bytes and its time; a
/// failure of the storage is a storage error with its message.
pub proof fn law_confirmations(
    key: &str,
    stored: StorageResult<ObjectMeta>,
    result: Result<Row, Error>,
    e: &StorageError,
    message: String,
)
    requires
        call_ensures(confirmation, (key, stored), result),
        stored matches Err(reason) ==> reason@ == e@,
        call_ensures(StorageError::message, (e,), message),
    ensures
        match stored {
            Ok(meta) => result matches Ok(row) && {
                &&& row.columns@.len() == 3
                &&& row.columns@[0] matches Column::Text(k) && k@ == key@
                &&& meta.size <= i64::MAX ==> row.columns@[1] == Column::Int64(meta.size as i64)
                &&& row.columns@[2] == Column::Timestamp(meta.last_modified)
            },
            Err(_) => result matches Err(Error::Storage(m)) && m@ == message@,
        },
{
    if let Ok(row) = result {
        assert(row@.len() == row.columns@.len());
        assert(row@[0] == row.columns@[0]@);
        assert(row@[1] == row.columns@[1]@);
        assert(row@[2] == row.columns@[2]@);
    }
}

/// What the read function is called, takes and returns.
pub proof fn law_read_function(schema: TableFunctionSchema)
    requires
        call_ensures(<KvGet as ReadHandler>::schema, (&KvGet,), schema),
    ensures
        schema.name@ == "kv_get"@,
        schema.kind == TableFunctionKind::Read,
        schema.inputs@.len() == 1,
        schema.inputs@[0].name@ == "key"@,
        schema.inputs@[0].ty == Type::Text,
        !schema.inputs@[0].nullable,
        schema.columns@.len() == 2,
        schema.columns@[0].name@ == "key"@,
        schema.columns@[0].ty == Type::Text,
        !schema.columns@[0].nullable,
        schema.columns@[1].name@ == "value"@,
        schema.columns@[1].ty == Type::Text,
        schema.columns@[1].nullable,
        schema.shard_key is None,
        schema.estimated_rows == 1,
        schema.timeout_ms == Some(1000u64),
{
    let inputs = schema@.inputs;
    let columns = schema@.columns;
    assert(inputs.len() == schema.inputs@.len() && columns.len() == schema.columns@.len());
    assert(inputs[0] == schema.inputs@[0]@);
    assert(columns[0] == schema.columns@[0]@ && columns[1] == schema.columns@[1]@);
}

/// What the write function is called, takes and returns, and what it is
/// serialized by.
pub proof fn law_write_function(schema: TableFunctionSchema)
    requires
        call_ensures(<KvPut as WriteHandler>::schema, (&KvPut,), schema),
    ensures
        schema.name@ == "kv_put"@,
        schema.kind == TableFunctionKind::Write,
        schema.inputs@.len() == 3,
        schema.inputs@[0].name@ == "key"@,
        schema.inputs@[1].name@ == "value"@,
        schema.inputs@[2].name@ == "request_id"@,
        forall|i: int| #![trigger schema.inputs@[i]]
            0 <= i < 3 ==> schema.inputs@[i].ty == Type::Text && !schema.inputs@[i].nullable,
        schema.columns@.len() == 3,
        schema.columns@[0].name@ == "key"@,
        schema.columns@[0].ty == Type::Text,
        schema.columns@[1].name@ == "bytes_written"@,
        schema.columns@[1].ty == Type::Int64,
        schema.columns@[2].name@ == "committed_at"@,
        schema.columns@[2].ty == Type::Timestamp,
        forall|i: int| #![trigger schema.columns@[i]] 0 <= i < 3 ==> !schema.columns@[i].nullable,
        schema.shard_key matches Some(k) && k@ == "key"@,
        schema.estimated_rows == 1,
        schema.timeout_ms == Some(5000u64),
{
    let inputs = schema@.inputs;
    let columns = schema@.columns;
    assert(inputs.len() == schema.inputs@.len() && columns.len() == schema.columns@.len());
    assert(inputs[0] == schema.inputs@[0]@ && inputs[1] == schema.inputs@[1]@ && inputs[2]
        == schema.inputs@[2]@);
    assert(columns[0] == schema.columns@[0]@ && columns[1] == schema.columns@[1]@ && columns[2]
        == schema.columns@[2]@);
}

/// A read is computed under the key that is made of the function's name and the
/// value of the input `key`; without such a text it has no key.
pub proof fn law_reads_share_by_key(
    inputs: &Inputs,
    name: &str,
    text: Result<&str, Error>,
    result: Result<ComputeKey, Error>,
    parts: &[&[u8]],
    key: ComputeKey,
)
    requires
        name@ == "key"@,
        call_ensures(Inputs::get_text, (inputs, name), text),
        call_ensures(<KvGet as ReadHandler>::compute_key, (&KvGet, inputs), result),
        call_ensures(ComputeKey::from_parts, (parts,), key),
        text matches Ok(t) ==> parts@.len() == 2 && parts@[0]@ == encode_utf8("kv_get:"@)
            && parts@[1]@ == encode_utf8(t@),
    ensures
        match text {
            Ok(t) => result matches Ok(k) && k.0@ == key.0@,
            Err(e) => result matches Err(r) && r@ == e@,
        },
{
    if let Ok(t) = text {
        assert(part_views(parts@) =~= seq![encode_utf8("kv_get:"@), encode_utf8(t@)]);
    }
}

/// A read gives one row: the key and its value, or a null where it has none.
pub proof fn law_read_gives_key_and_value(
    inputs: &Inputs,
    name: &str,
    text: Result<&str, Error>,
    state: &Arc<Option<String>>,
    result: Result<Vec<Row>, Error>,
)
    requires
        name@ == "key"@,
        call_ensures(Inputs::get_text, (inputs, name), text),
        call_ensures(<KvGet as ReadHandler>::project, (&KvGet, inputs, state), result),
    ensures
        match text {
            Ok(t) => result matches Ok(rows) && {
                &&& rows@.len() == 1
                &&& rows@[0].columns@.len() == 2
                &&& rows@[0].columns@[0] matches Column::Text(k) && k@ == t@
                &&& match **state {
                    Some(v) => rows@[0].columns@[1] matches Column::Text(w) && w@ == v@,
                    None => rows@[0].columns@[1] == Column::Null,
                }
            },
            Err(e) => result matches Err(r) && r@ == e@,
        },
{
    if let Ok(rows) = result {
        let row = rows@[0];
        assert(row@.len() == row.columns@.len());
        assert(row@[0] == row.columns@[0]@);
        assert(row@[1] == row.columns@[1]@);
    }
}

/// A write is serialized by the value of the input `key`, and is recorded under
/// that of the input `request_id`, where there is such a text.
pub proof fn law_writes_are_serialized_by_key(
    inputs: &Inputs,
    name: &str,
    text: Result<&str, Error>,
    lock_key: Result<LockKey, Error>,
    id_name: &str,
    id: Result<&str, Error>,
    idempotency_key: Option<String>,
)
    requires
        name@ == "key"@,
        id_name@ == "request_id"@,
        call_ensures(Inputs::get_text, (inputs, name), text),
        call_ensures(<KvPut as WriteHandler>::lock_key, (&KvPut, inputs), lock_key),
        call_ensures(Inputs::get_text, (inputs, id_name), id),
        call_ensures(<KvPut as WriteHandler>::idempotency_key, (&KvPut, inputs), idempotency_key),
    ensures
        match text {
            Ok(t) => lock_key matches Ok(k) && k.0@ == t@,
            Err(e) => lock_key matches Err(r) && r@ == e@,
        },
        match id {
            Ok(i) => idempotency_key matches Some(k) && k@ == i@,
            Err(_) => idempotency_key is None,
        },
{
}

/// What was written is what is read: after a write of a value under a key, which
/// over a storage that does not fail succeeds, reading the key gives the value,
/// and any other key gives what it gave before.
pub proof fn law_written_value_is_read<St: Storage>(
    inputs: &Inputs,
    ctx: &mut WriteContext<'_, St>,
    result: Result<Row, Error>,
    key_name: &str,
    key: &str,
    value_name: &str,
    value: &str,
    before: &ComputeContext<'_, St>,
    after: &ComputeContext<'_, St>,
    asked: &Inputs,
    asked_key: &str,
    was: Result<Arc<Option<String>>, Error>,
    is: Result<Arc<Option<String>>, Error>,
)
    requires
        key_name@ == "key"@,
        value_name@ == "value"@,
        call_ensures(Inputs::get_text, (inputs, key_name), Ok(key)),
        call_ensures(Inputs::get_text, (inputs, value_name), Ok(value)),
        call_ensures(KvPut::execute::<St>, (&KvPut, inputs, ctx), result),
        call_ensures(Inputs::get_text, (asked, key_name), Ok(asked_key)),
        before.storage.objects() == old(ctx).storage.objects(),
        before.storage.reliable(),
        after.storage.reliable(),
        call_ensures(KvGet::compute::<St>, (&KvGet, asked, before), was),
        call_ensures(KvGet::compute::<St>, (&KvGet, asked, after), is),
    ensures
        old(ctx).storage.reliable() ==> result is Ok,
        result matches Ok(row) ==> {
            &&& row.columns@.len() == 3
            &&& row.columns@[0] matches Column::Text(k) && k@ == key@
            &&& encode_utf8(value@).len() <= i64::MAX ==> row.columns@[1] == Column::Int64(
                encode_utf8(value@).len() as i64,
            )
            &&& row.columns@[2] is Timestamp
        },
        result is Ok && after.storage.objects() == final(ctx).storage.objects() ==> {
            &&& asked_key@ == key@ ==> (is matches Ok(state) && *state matches Some(v) && v@
                == value@)
            &&& asked_key@ != key@ ==> (was matches Ok(a) && (is matches Ok(b) && match (*a, *b) {
                (Some(x), Some(y)) => x@ == y@,
                (None, None) => true,
                _ => false,
            }))
        },
        result is Err ==> final(ctx).storage.objects() == old(ctx).storage.objects(),
{
    if let Ok(row) = result {
        assert(row@.len() == row.columns@.len());
        assert(row@[0] == row.columns@[0]@);
        assert(row@[1] == row.columns@[1]@);
        assert(row@[2] == row.columns@[2]@);
        let a = old(ctx).storage.objects();
        let b = final(ctx).storage.objects();
        encode_utf8_valid_utf8(value@);
        encode_utf8_decode_utf8(value@);
        if asked_key@ != key@ {
            law_put_then_get(a, b, key@, value@, row@, asked_key@);
        }
    }
}

/// Without a text under `key`, or without one under `value`, a write fails with
/// the error for that input, and stores nothing.
pub proof fn law_write_needs_its_inputs<St: Storage>(
    inputs: &Inputs,
    ctx: &mut WriteContext<'_, St>,
    result: Result<Row, Error>,
    key_name: &str,
    key: Result<&str, Error>,
    value_name: &str,
    value: Result<&str, Error>,
)
    requires
        key_name@ == "key"@,
        value_name@ == "value"@,
        call_ensures(Inputs::get_text, (inputs, key_name), key),
        call_ensures(Inputs::get_text, (inputs, value_name), value),
        call_ensures(KvPut::execute::<St>, (&KvPut, inputs, ctx), result),
    ensures
        key matches Err(e) ==> (result matches Err(r) && r@ == e@) && final(ctx).storage.objects()
            == old(ctx).storage.objects(),
        key is Ok ==> (value matches Err(e) ==> (result matches Err(r) && r@ == e@) && final(
            ctx).storage.objects() == old(ctx).storage.objects()),
{
}

/// A read of a value comes to what the storage gives for the name of the key: the
/// text of the object, none where there is none, and a storage error otherwise.
pub proof fn law_read_comes_to_what_is_stored<St: Storage>(
    inputs: &Inputs,
    ctx: &ComputeContext<'_, St>,
    key_name: &str,
    key: Result<&str, Error>,
    result: Result<Arc<Option<String>>, Error>,
)
    requires
        key_name@ == "key"@,
        call_ensures(Inputs::get_text, (inputs, key_name), key),
        call_ensures(KvGet::compute::<St>, (&KvGet, inputs, ctx), result),
    ensures
        match key {
            Err(e) => result matches Err(r) && r@ == e@,
            Ok(k) => {
                &&& ctx.storage.reliable() ==> result is Ok
                &&& result matches Ok(state) ==> match *state {
                    Some(v) => ctx.storage.objects().contains_key("kv/"@ + k@) && (valid_utf8(
                        ctx.storage.objects()["kv/"@ + k@].data,
                    ) ==> v@ == decode_utf8(ctx.storage.objects()["kv/"@ + k@].data)),
                    None => !ctx.storage.objects().contains_key("kv/"@ + k@),
                }
                &&& exists|name: &str, found: StorageResult<Bytes>| #[trigger]
                    call_ensures(St::get, (ctx.storage, name), found) && name@ == "kv/"@ + k@
                        && match found {
                        Ok(_) => result matches Ok(state) && *state is Some,
                        Err(StorageError::NotFound(_)) => result matches Ok(state) && *state is None,
                        Err(_) => result matches Err(Error::Storage(m)),
                    }
            },
        },
{
}

} // verus!
