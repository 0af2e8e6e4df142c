//! The daemon's side of a connection: what becomes of each request.
//!
//! A request is opened with [`IpcServer::open`]. Some are answered at once. A
//! read is over where it is refused; else it goes through the cache, is taken out of it with
//! [`IpcServer::finish_read`] when its state is there, and is projected with
//! [`ReadReady::project`]. A write either was settled on opening, or is run and
//! settled with [`IpcServer::settle_write`]. Each finished read or write is
//! concluded into a response and an audit event. Running computations and
//! writes, waiting and measuring are left to the one who drives the server.

use crate::audit::{AuditEvent, CacheResult, CallResult, Caller, Elapsed, Operation};
use crate::error::{Error, ErrorView};
use crate::keys::{ComputeKey, LockKey};
use crate::outside::utc_now;
use crate::protocol::{Request, Response};
use crate::read_cache::{CacheOutcome, ReadCache, SlotView, Ticket};
use crate::registry::{
    enumerates, gives_schemas, is_read_schema, is_write_schema, lemma_schemas_listed, ReadHandler, Registry, RegistryView, WriteHandler,
};
use crate::row::{ColumnView, Inputs, Row};
use crate::schema::{TableFunctionKind, TableFunctionSchema};
use crate::sorting::stably_sorted;
use crate::write_coordinator::{
    given_row, opt_string, Admission, CoordinatorView, WriteCoordinator, WriteResult,
    WriteTicket, WriteTicketView,
};
use chrono::NaiveDateTime;
use std::sync::Arc;
use crate::text::comes_before;
use vstd::prelude::*;
use vstd::string::*;
use vstd::utf8::*;

verus! {

/// The state that all connections share.
pub struct IpcServer<R: ReadHandler, W> {
    pub registry: Registry<R, W>,
    pub read_cache: ReadCache<R::State>,
    pub write_coord: WriteCoordinator,
}

/// Why a call gave nothing.
pub enum Failure {
    /// No table function has the name.
    Unregistered,
    /// It failed.
    Error(Error),
}

/// A read that is under way.
pub struct ReadCall<R> {
    pub handler: Arc<R>,
    pub table_function: String,
    pub inputs: Inputs,
    pub caller: Caller,
    pub trace_id: String,
    pub ticket: Ticket,
}

/// A read whose state was computed, or could not be.
pub struct ReadReady<R: ReadHandler> {
    pub handler: Arc<R>,
    pub table_function: String,
    pub inputs: Inputs,
    pub caller: Caller,
    pub trace_id: String,
    pub found: Result<(Arc<R::State>, CacheOutcome), Error>,
}

/// A read that is over: its rows, or why there are none.
pub struct ReadDone {
    pub table_function: String,
    pub inputs: Inputs,
    pub caller: Caller,
    pub trace_id: String,
    pub rows: Vec<Row>,
    /// What the cache had to do with it; `None` where it was not asked.
    pub outcome: Option<CacheOutcome>,
    pub failure: Option<Failure>,
}

/// A write that has to be run.
pub struct WriteCall<W> {
    pub handler: Arc<W>,
    pub table_function: String,
    pub inputs: Inputs,
    pub request_id: String,
    pub caller: Caller,
    pub trace_id: String,
    pub ticket: WriteTicket,
}

/// A write that is over.
pub struct WriteDone {
    pub table_function: String,
    pub inputs: Inputs,
    pub request_id: String,
    pub caller: Caller,
    pub trace_id: String,
    pub result: Result<WriteResult, Failure>,
}

/// What is to be done about a request.
pub enum Opened<R, W> {
    /// Answer it.
    Reply(Response),
    /// Take it through the read cache.
    Read(ReadCall<R>),
    /// It was a read, and is over.
    Refused(ReadDone),
    /// Run it.
    Write(WriteCall<W>),
    /// It was a write, and is over.
    Settled(WriteDone),
}

/// What a call is answered, and the event that tells of it.
pub struct Answer {
    pub response: Response,
    pub event: AuditEvent,
}

/// The response reports the error by its code and its message.
pub open spec fn reports(response: Response, e: ErrorView) -> bool {
    response matches Response::Error { code, message } && code@ == e.code() && message@
        == e.message()
}

/// The response says that no table function has the name.
pub open spec fn reports_unknown(response: Response, name: Seq<char>) -> bool {
    response matches Response::Error { code, message } && code@ == "unknown_table_function"@
        && message@ == name
}

fn error_response(e: &Error) -> (response: Response)
    ensures
        reports(response, e@),
{
    Response::Error { code: e.code().to_string(), message: e.message() }
}

fn unknown(name: String) -> (response: Response)
    ensures
        reports_unknown(response, name@),
{
    Response::Error { code: "unknown_table_function".to_string(), message: name }
}

/// The code of a failure.
pub open spec fn failure_code(f: Failure) -> Seq<char> {
    match f {
        Failure::Unregistered => "unknown_table_function"@,
        Failure::Error(e) => e@.code(),
    }
}

/// The response reports the failure of a call of the table function.
pub open spec fn reports_failure(response: Response, table_function: Seq<char>, f: Failure) -> bool {
    match f {
        Failure::Unregistered => reports_unknown(response, table_function),
        Failure::Error(e) => reports(response, e@),
    }
}

fn code_of(f: &Failure) -> (code: &'static str)
    ensures
        code@ == failure_code(*f),
{
    match f {
        Failure::Unregistered => "unknown_table_function",
        Failure::Error(e) => e.code(),
    }
}

fn failure_response(table_function: &str, f: &Failure) -> (response: Response)
    ensures
        reports_failure(response, table_function@, *f),
{
    match f {
        Failure::Unregistered => unknown(table_function.to_string()),
        Failure::Error(e) => error_response(e),
    }
}

/// How the audit log names a cache outcome.
pub open spec fn cache_result(outcome: Option<CacheOutcome>) -> CacheResult {
    match outcome {
        Some(CacheOutcome::Hit) => CacheResult::Hit,
        Some(CacheOutcome::Miss) => CacheResult::Miss,
        Some(CacheOutcome::Coalesced) => CacheResult::Coalesced,
        None => CacheResult::NotApplicable,
    }
}

fn audit_cache(outcome: Option<CacheOutcome>) -> (cache: CacheResult)
    ensures
        cache == cache_result(outcome),
{
    match outcome {
        Some(CacheOutcome::Hit) => CacheResult::Hit,
        Some(CacheOutcome::Miss) => CacheResult::Miss,
        Some(CacheOutcome::Coalesced) => CacheResult::Coalesced,
        None => CacheResult::NotApplicable,
    }
}

/// The result says how the call went: `ok`, or the code of the failure.
pub open spec fn says_how(result: CallResult, failure: Option<Failure>) -> bool {
    match failure {
        None => result.status@ == "ok"@ && result.error_code is None,
        Some(f) => result.status@ == failure_code(f) && opt_string(result.error_code) == Some(
            failure_code(f),
        ),
    }
}

/// Builds the part of an audit event that says how a call went.
fn call_result(
    cache: CacheResult,
    rows: u64,
    bytes_out: u64,
    latency_ms: Elapsed,
    compute_ms: Elapsed,
    failure: Option<&Failure>,
) -> (result: CallResult)
    ensures
        says_how(
            result,
            match failure {
                Some(f) => Some(*f),
                None => None,
            },
        ),
        result.cache == cache,
        result.rows == rows,
        result.bytes_out == bytes_out,
        result.latency_ms == latency_ms,
        result.compute_ms == compute_ms,
        result.storage_ms == (Elapsed { secs: 0, nanos: 0 }),
{
    let (status, error_code) = match failure {
        None => ("ok".to_string(), None),
        Some(f) => (code_of(f).to_string(), Some(code_of(f).to_string())),
    };
    CallResult {
        status,
        cache,
        rows,
        bytes_out,
        latency_ms,
        compute_ms,
        storage_ms: Elapsed::zero(),
        error_code,
    }
}

/// The sum of the sizes.
pub open spec fn total(sizes: Seq<u64>) -> int
    decreases sizes.len(),
{
    if sizes.len() == 0 {
        0
    } else {
        total(sizes.drop_last()) + sizes.last()
    }
}

proof fn lemma_total_grows(sizes: Seq<u64>, n: int)
    requires
        0 <= n <= sizes.len(),
    ensures
        0 <= total(sizes.take(n)) <= total(sizes),
    decreases sizes.len() - n, n,
{
    if n < sizes.len() {
        lemma_total_grows(sizes, n + 1);
        assert(sizes.take(n + 1).drop_last() =~= sizes.take(n));
        lemma_total_positive(sizes.take(n));
    } else {
        assert(sizes.take(n) =~= sizes);
        lemma_total_positive(sizes);
    }
}

proof fn lemma_total_positive(sizes: Seq<u64>)
    ensures
        0 <= total(sizes),
    decreases sizes.len(),
{
    if sizes.len() > 0 {
        lemma_total_positive(sizes.drop_last());
    }
}

fn total_size(sizes: &Vec<u64>) -> (sum: u64)
    requires
        total(sizes@) <= u64::MAX,
    ensures
        sum == total(sizes@),
{
    let mut sum: u64 = 0;
    let mut i: usize = 0;
    while i < sizes.len()
        invariant
            i <= sizes.len(),
            total(sizes@) <= u64::MAX,
            sum == total(sizes@.take(i as int)),
        decreases sizes.len() - i,
    {
        proof {
            lemma_total_grows(sizes@, i + 1);
            assert(sizes@.take(i + 1).drop_last() =~= sizes@.take(i as int));
        }
        sum = sum + sizes[i];
        i += 1;
    }
    assert(sizes@.take(i as int) =~= sizes@);
    sum
}

/// What a finished read is answered, and what the audit log says of it. The
/// event tells of the call itself; the rows are counted, and their sizes added
/// up. A failed read has no rows.
pub open spec fn read_concluded(
    done: ReadDone,
    sizes: Seq<u64>,
    latency_ms: Elapsed,
    compute_ms: Elapsed,
    answer: Answer,
) -> bool {
    let event = answer.event;
    &&& event.trace_id == done.trace_id
    &&& event.request_id is None
    &&& event.caller == done.caller
    &&& event.operation.table_function == done.table_function
    &&& event.operation.kind == TableFunctionKind::Read
    &&& event.operation.inputs == done.inputs
    &&& says_how(event.result, done.failure)
    &&& event.result.cache == cache_result(done.outcome)
    &&& event.result.latency_ms == latency_ms
    &&& event.result.compute_ms == compute_ms
    &&& event.result.storage_ms == (Elapsed { secs: 0, nanos: 0 })
    &&& match done.failure {
        Some(f) => {
            &&& event.result.rows == 0
            &&& event.result.bytes_out == 0
            &&& reports_failure(answer.response, done.table_function@, f)
        },
        None => {
            &&& event.result.rows == done.rows@.len()
            &&& event.result.bytes_out == total(sizes)
            &&& answer.response == (Response::Rows {
                rows: done.rows,
                cache: cache_result(done.outcome),
                compute_ms,
            })
        },
    }
}

impl ReadDone {
    /// Concludes the read at the time `ts`. `sizes` are the sizes of the rows
    /// as they are sent.
    pub fn conclude_at(
        self,
        sizes: &Vec<u64>,
        latency_ms: Elapsed,
        compute_ms: Elapsed,
        ts: NaiveDateTime,
    ) -> (answer: Answer)
        requires
            self.failure is None ==> total(sizes@) <= u64::MAX,
        ensures
            read_concluded(self, sizes@, latency_ms, compute_ms, answer),
            answer.event.ts == ts,
    {
        let ReadDone { table_function, inputs, caller, trace_id, rows, outcome, failure } = self;
        let cache = audit_cache(outcome);
        let (n, bytes_out): (u64, u64) = match &failure {
            Some(_) => (0, 0),
            None => (rows.len() as u64, total_size(sizes)),
        };
        let result = call_result(
            cache,
            n,
            bytes_out,
            latency_ms,
            compute_ms,
            match &failure {
                Some(f) => Some(f),
                None => None,
            },
        );
        let response = match failure {
            Some(f) => failure_response(table_function.as_str(), &f),
            None => Response::Rows { rows, cache, compute_ms },
        };
        let operation = Operation { table_function, kind: TableFunctionKind::Read, inputs };
        Answer {
            response,
            event: AuditEvent { ts, trace_id, request_id: None, caller, operation, result },
        }
    }

    /// Concludes the read now.
    pub fn conclude(self, sizes: &Vec<u64>, latency_ms: Elapsed, compute_ms: Elapsed) -> (answer:
        Answer)
        requires
            self.failure is None ==> total(sizes@) <= u64::MAX,
        ensures
            read_concluded(self, sizes@, latency_ms, compute_ms, answer),
    {
        self.conclude_at(sizes, latency_ms, compute_ms, utc_now())
    }
}

/// What a finished write is answered, and what the audit log says of it. `size`
/// is that of the row as it is sent; a failed write has no row.
pub open spec fn write_concluded(
    done: WriteDone,
    size: u64,
    latency_ms: Elapsed,
    answer: Answer,
) -> bool {
    let event = answer.event;
    &&& event.trace_id == done.trace_id
    &&& event.request_id == Some(done.request_id)
    &&& event.caller == done.caller
    &&& event.operation.table_function == done.table_function
    &&& event.operation.kind == TableFunctionKind::Write
    &&& event.operation.inputs == done.inputs
    &&& event.result.cache == CacheResult::NotApplicable
    &&& event.result.latency_ms == latency_ms
    &&& event.result.compute_ms == (Elapsed { secs: 0, nanos: 0 })
    &&& event.result.storage_ms == (Elapsed { secs: 0, nanos: 0 })
    &&& match done.result {
        Ok(r) => {
            &&& says_how(event.result, None)
            &&& event.result.rows == 1
            &&& event.result.bytes_out == size
            &&& answer.response == (Response::Outcome {
                row: r.row,
                was_idempotent_noop: r.was_idempotent_noop,
            })
        },
        Err(f) => {
            &&& says_how(event.result, Some(f))
            &&& event.result.rows == 0
            &&& event.result.bytes_out == 0
            &&& reports_failure(answer.response, done.table_function@, f)
        },
    }
}

impl WriteDone {
    /// Concludes the write at the time `ts`.
    pub fn conclude_at(self, size: u64, latency_ms: Elapsed, ts: NaiveDateTime) -> (answer: Answer)
        ensures
            write_concluded(self, size, latency_ms, answer),
            answer.event.ts == ts,
    {
        let WriteDone { table_function, inputs, request_id, caller, trace_id, result } = self;
        let (rows, bytes_out): (u64, u64) = match &result {
            Ok(_) => (1, size),
            Err(_) => (0, 0),
        };
        let how = call_result(
            CacheResult::NotApplicable,
            rows,
            bytes_out,
            latency_ms,
            Elapsed::zero(),
            match &result {
                Ok(_) => None,
                Err(f) => Some(f),
            },
        );
        let response = match result {
            Ok(r) => Response::Outcome { row: r.row, was_idempotent_noop: r.was_idempotent_noop },
            Err(f) => failure_response(table_function.as_str(), &f),
        };
        let operation = Operation { table_function, kind: TableFunctionKind::Write, inputs };
        Answer {
            response,
            event: AuditEvent {
                ts,
                trace_id,
                request_id: Some(request_id),
                caller,
                operation,
                result: how,
            },
        }
    }

    /// Concludes the write now.
    pub fn conclude(self, size: u64, latency_ms: Elapsed) -> (answer: Answer)
        ensures
            write_concluded(self, size, latency_ms, answer),
    {
        self.conclude_at(size, latency_ms, utc_now())
    }
}

/// The schema that the response gives is that of the handler for the name: the
/// read handler, or else the write handler.
pub open spec fn describes<R: ReadHandler, W: WriteHandler>(
    response: Response,
    registry: RegistryView<R, W>,
    name: Seq<char>,
) -> bool {
    match (registry.read(name), registry.write(name)) {
        (Some(h), _) => response matches Response::Schema(s) && call_ensures(R::schema, (&*h,), s),
        (None, Some(h)) => response matches Response::Schema(s) && call_ensures(
            W::schema,
            (&*h,),
            s,
        ),
        (None, None) => reports_unknown(response, name),
    }
}

/// The response lists the schemas of all handlers, in the order of their names.
pub open spec fn describes_all<R: ReadHandler, W: WriteHandler>(
    response: Response,
    registry: RegistryView<R, W>,
) -> bool {
    response matches Response::SchemaList(list) && exists|
        reads: Seq<Arc<R>>,
        writes: Seq<Arc<W>>,
        schemas: Seq<TableFunctionSchema>,
    | #[trigger]
        gives_schemas(reads, writes, schemas) && enumerates(reads, registry.reads) && enumerates(
            writes,
            registry.writes,
        ) && stably_sorted(schemas, list@)
}

/// The call is the one that was asked for.
pub open spec fn is_read_call<R>(
    call: ReadCall<R>,
    handler: Arc<R>,
    table_function: String,
    inputs: Inputs,
    caller: Caller,
    trace_id: String,
) -> bool {
    &&& call.handler == handler
    &&& call.table_function == table_function
    &&& call.inputs == inputs
    &&& call.caller == caller
    &&& call.trace_id == trace_id
}

/// The read that is ready is that of the call.
pub open spec fn is_ready_for<R: ReadHandler>(ready: ReadReady<R>, call: ReadCall<R>) -> bool {
    &&& ready.handler == call.handler
    &&& ready.table_function == call.table_function
    &&& ready.inputs == call.inputs
    &&& ready.caller == call.caller
    &&& ready.trace_id == call.trace_id
}

/// The finished read is the one that was ready.
pub open spec fn is_done_with<R: ReadHandler>(done: ReadDone, ready: ReadReady<R>) -> bool {
    &&& done.table_function == ready.table_function
    &&& done.inputs == ready.inputs
    &&& done.caller == ready.caller
    &&& done.trace_id == ready.trace_id
}

/// The call is the one that was asked for.
pub open spec fn is_write_call<W>(
    call: WriteCall<W>,
    handler: Arc<W>,
    table_function: String,
    inputs: Inputs,
    request_id: String,
    caller: Caller,
    trace_id: String,
) -> bool {
    &&& call.handler == handler
    &&& call.table_function == table_function
    &&& call.inputs == inputs
    &&& call.request_id == request_id
    &&& call.caller == caller
    &&& call.trace_id == trace_id
}

/// The finished write is the one that was asked for.
pub open spec fn is_write_done(
    done: WriteDone,
    table_function: String,
    inputs: Inputs,
    request_id: String,
    caller: Caller,
    trace_id: String,
) -> bool {
    &&& done.table_function == table_function
    &&& done.inputs == inputs
    &&& done.request_id == request_id
    &&& done.caller == caller
    &&& done.trace_id == trace_id
}

/// What the rows, the cache outcome and the error of a read are when its state
/// was there and was projected: without rows where the projection failed.
pub open spec fn projected(
    done: ReadDone,
    outcome: CacheOutcome,
    rows: Result<Vec<Row>, Error>,
) -> bool {
    &&& done.outcome == Some(outcome)
    &&& match rows {
        Ok(rows) => done.rows == rows && done.failure is None,
        Err(e) => done.rows@ == Seq::<Row>::empty() && done.failure == Some(Failure::Error(e)),
    }
}

fn refused_read(
    failure: Failure,
    table_function: String,
    inputs: Inputs,
    caller: Caller,
    trace_id: String,
) -> (done: ReadDone)
    ensures
        done.table_function == table_function,
        done.inputs == inputs,
        done.caller == caller,
        done.trace_id == trace_id,
        done.rows@ == Seq::<Row>::empty(),
        done.outcome is None,
        done.failure == Some(failure),
{
    ReadDone {
        table_function,
        inputs,
        caller,
        trace_id,
        rows: Vec::new(),
        outcome: None,
        failure: Some(failure),
    }
}

impl<R: ReadHandler> ReadReady<R> {
    /// Projects the rows of the read. A failed computation counts as a miss.
    pub fn project(self) -> (done: ReadDone)
        ensures
            is_done_with(done, self),
            match self.found {
                Ok(f) => exists|rows: Result<Vec<Row>, Error>| #[trigger]
                    call_ensures(R::project, (&*self.handler, &self.inputs, &f.0), rows)
                        && projected(done, f.1, rows),
                Err(e) => done.outcome == Some(CacheOutcome::Miss) && done.rows@ == Seq::<
                    Row,
                >::empty() && done.failure == Some(Failure::Error(e)),
            },
    {
        let ReadReady { handler, table_function, inputs, caller, trace_id, found } = self;
        let (rows, outcome, failure) = match found {
            Err(e) => (Vec::new(), CacheOutcome::Miss, Some(Failure::Error(e))),
            Ok((state, outcome)) => {
                let rows = handler.project(&inputs, &state);
                assert(call_ensures(R::project, (&*handler, &inputs, &state), rows));
                match rows {
                    Ok(rows) => (rows, outcome, None),
                    Err(e) => (Vec::new(), outcome, Some(Failure::Error(e))),
                }
            },
        };
        let outcome = Some(outcome);
        ReadDone { table_function, inputs, caller, trace_id, rows, outcome, failure }
    }
}

/// The write was done before, with this row.
pub open spec fn replays(result: Result<WriteResult, Failure>, row: Seq<ColumnView>) -> bool {
    result matches Ok(r) && r.row@ == row && r.was_idempotent_noop
}

/// Another write holds the lock key.
pub open spec fn conflicts(result: Result<WriteResult, Failure>, lock_key: Seq<char>) -> bool {
    result matches Err(Failure::Error(e)) && e@ == ErrorView::WriteConflict(lock_key)
}

/// A write that was run is answered with what it gave.
pub open spec fn answers_run(
    result: Result<WriteResult, Failure>,
    given: Result<Row, Error>,
) -> bool {
    match given {
        Ok(row) => result matches Ok(r) && r.row@ == row@ && !r.was_idempotent_noop,
        Err(e) => result == Err::<WriteResult, Failure>(Failure::Error(e)),
    }
}

/// The read was refused before the cache was asked, for the given reason.
pub open spec fn is_refused_read<R, W>(
    opened: Opened<R, W>,
    failure: Failure,
    table_function: String,
    inputs: Inputs,
    caller: Caller,
    trace_id: String,
) -> bool {
    opened matches Opened::Refused(done) && done.table_function == table_function && done.inputs
        == inputs && done.caller == caller && done.trace_id == trace_id && done.rows@ == Seq::<
        Row,
    >::empty() && done.outcome is None && done.failure == Some(failure)
}

/// The write was refused before it was admitted, for the given reason.
pub open spec fn is_refused_write<R, W>(
    opened: Opened<R, W>,
    failure: Failure,
    table_function: String,
    inputs: Inputs,
    request_id: String,
    caller: Caller,
    trace_id: String,
) -> bool {
    opened matches Opened::Settled(done) && is_write_done(
        done,
        table_function,
        inputs,
        request_id,
        caller,
        trace_id,
    ) && done.result == Err::<WriteResult, Failure>(failure)
}

/// How a read is opened for which the handler gave this compute key: where it
/// failed to, the read is over; else it is opened in the cache.
pub open spec fn read_opened<R: ReadHandler, W: WriteHandler>(
    before: IpcServer<R, W>,
    after: IpcServer<R, W>,
    opened: Opened<R, W>,
    handler: Arc<R>,
    key: Result<ComputeKey, Error>,
    table_function: String,
    inputs: Inputs,
    caller: Caller,
    trace_id: String,
) -> bool {
    &&& after.registry == before.registry
    &&& after.write_coord == before.write_coord
    &&& match key {
        Err(e) => {
            &&& is_refused_read(
                opened,
                Failure::Error(e),
                table_function,
                inputs,
                caller,
                trace_id,
            )
            &&& after.read_cache == before.read_cache
        },
        Ok(key) => opened matches Opened::Read(call) && is_read_call(
            call,
            handler,
            table_function,
            inputs,
            caller,
            trace_id,
        ) && before.read_cache@.offers(key@, call.ticket@) && after.read_cache@
            == before.read_cache@.begun(key@, call.ticket@),
    }
}

/// How a write is opened for which the handler gave this lock key and this
/// idempotency key: where it failed to give a lock key, where the write was
/// done before or the lock key is held, it is over; else it has to be run.
pub open spec fn write_opened<R: ReadHandler, W: WriteHandler>(
    before: IpcServer<R, W>,
    after: IpcServer<R, W>,
    opened: Opened<R, W>,
    handler: Arc<W>,
    lock_key: Result<LockKey, Error>,
    idempotency_key: Option<String>,
    table_function: String,
    inputs: Inputs,
    request_id: String,
    caller: Caller,
    trace_id: String,
) -> bool {
    let id = opt_string(idempotency_key);
    &&& after.registry == before.registry
    &&& after.read_cache == before.read_cache
    &&& match lock_key {
        Err(e) => {
            &&& is_refused_write(
                opened,
                Failure::Error(e),
                table_function,
                inputs,
                request_id,
                caller,
                trace_id,
            )
            &&& after.write_coord == before.write_coord
        },
        Ok(key) => match before.write_coord@.recorded(id) {
            Some(row) => {
                &&& opened matches Opened::Settled(done) && is_write_done(
                    done,
                    table_function,
                    inputs,
                    request_id,
                    caller,
                    trace_id,
                ) && replays(done.result, row)
                &&& after.write_coord@ == before.write_coord@
            },
            None => if before.write_coord@.held.contains(key@) {
                &&& opened matches Opened::Settled(done) && is_write_done(
                    done,
                    table_function,
                    inputs,
                    request_id,
                    caller,
                    trace_id,
                ) && conflicts(done.result, key@)
                &&& after.write_coord@ == before.write_coord@
            } else {
                opened matches Opened::Write(call) && is_write_call(
                    call,
                    handler,
                    table_function,
                    inputs,
                    request_id,
                    caller,
                    trace_id,
                ) && call.ticket@ == (WriteTicketView { lock_key: key@, request_id: id })
                    && after.write_coord@ == before.write_coord@.admitted(call.ticket@)
            },
        },
    }
}

/// What becomes of a request.
pub open spec fn request_opened<R: ReadHandler, W: WriteHandler>(
    before: IpcServer<R, W>,
    after: IpcServer<R, W>,
    request: Request,
    opened: Opened<R, W>,
) -> bool {
    match request {
        Request::Ping => opened == Opened::<R, W>::Reply(Response::Pong) && after.same(before),
        Request::Describe { table_function } => {
            &&& opened matches Opened::Reply(response) && describes(
                response,
                before.registry@,
                table_function@,
            )
            &&& after.same(before)
        },
        Request::ListTableFunctions => {
            &&& opened matches Opened::Reply(response) && describes_all(
                response,
                before.registry@,
            )
            &&& after.same(before)
        },
        Request::Read { table_function, inputs, caller, trace_id, deadline_ms } => {
            match before.registry@.read(table_function@) {
                None => {
                    &&& is_refused_read(
                        opened,
                        Failure::Unregistered,
                        table_function,
                        inputs,
                        caller,
                        trace_id,
                    )
                    &&& after.same(before)
                },
                Some(h) => exists|key: Result<ComputeKey, Error>| #[trigger]
                    call_ensures(R::compute_key, (&*h, &inputs), key) && read_opened(
                        before,
                        after,
                        opened,
                        h,
                        key,
                        table_function,
                        inputs,
                        caller,
                        trace_id,
                    ),
            }
        },
        Request::Write { table_function, inputs, request_id, caller, trace_id, deadline_ms } => {
            match before.registry@.write(table_function@) {
                None => {
                    &&& is_refused_write(
                        opened,
                        Failure::Unregistered,
                        table_function,
                        inputs,
                        request_id,
                        caller,
                        trace_id,
                    )
                    &&& after.same(before)
                },
                Some(h) => exists|key: Result<LockKey, Error>| #[trigger]
                    call_ensures(W::lock_key, (&*h, &inputs), key) && if key is Err {
                        write_opened(
                            before,
                            after,
                            opened,
                            h,
                            key,
                            None,
                            table_function,
                            inputs,
                            request_id,
                            caller,
                            trace_id,
                        )
                    } else {
                        exists|id: Option<String>| #[trigger]
                            call_ensures(W::idempotency_key, (&*h, &inputs), id) && write_opened(
                                before,
                                after,
                                opened,
                                h,
                                key,
                                id,
                                table_function,
                                inputs,
                                request_id,
                                caller,
                                trace_id,
                            )
                    },
            }
        },
    }
}

impl<R: ReadHandler, W: WriteHandler> IpcServer<R, W> {
    /// The parts are well formed.
    pub open spec fn wf(&self) -> bool {
        &&& self.registry.wf()
        &&& self.read_cache.wf()
        &&& self.write_coord.wf()
    }

    /// Nothing in the server has changed.
    pub open spec fn same(self, other: Self) -> bool {
        &&& self.registry == other.registry
        &&& self.read_cache == other.read_cache
        &&& self.write_coord == other.write_coord
    }

    /// A server with the given handlers and nothing cached or recorded.
    pub fn new(registry: Registry<R, W>) -> (server: Self)
        requires
            registry.wf(),
        ensures
            server.wf(),
            server.registry == registry,
            server.read_cache@.live == Map::<Seq<u8>, int>::empty(),
            server.read_cache@.slots == Map::<int, SlotView<R::State>>::empty(),
            server.write_coord@.held == Set::<Seq<char>>::empty(),
            server.write_coord@.records == Map::<Seq<char>, Seq<ColumnView>>::empty(),
    {
        IpcServer {
            registry,
            read_cache: ReadCache::new(),
            write_coord: WriteCoordinator::new(),
        }
    }

    /// Answers a request for the schema of one table function.
    pub fn describe(&self, table_function: String) -> (response: Response)
        requires
            self.wf(),
        ensures
            describes(response, self.registry@, table_function@),
    {
        match self.registry.get_read(table_function.as_str()) {
            Some(h) => Response::Schema(h.schema()),
            None => match self.registry.get_write(table_function.as_str()) {
                Some(h) => Response::Schema(h.schema()),
                None => unknown(table_function),
            },
        }
    }

    /// Opens a read whose compute key the handler has given, or failed to give.
    pub fn begin_read(
        &mut self,
        handler: Arc<R>,
        key: Result<ComputeKey, Error>,
        table_function: String,
        inputs: Inputs,
        caller: Caller,
        trace_id: String,
    ) -> (opened: Opened<R, W>)
        requires
            old(self).wf(),
        ensures
            final(self).wf(),
            read_opened(
                *old(self),
                *final(self),
                opened,
                handler,
                key,
                table_function,
                inputs,
                caller,
                trace_id,
            ),
    {
        match key {
            Err(e) => Opened::Refused(
                refused_read(Failure::Error(e), table_function, inputs, caller, trace_id),
            ),
            Ok(key) => {
                let ticket = self.read_cache.begin(&key);
                Opened::Read(
                    ReadCall { handler, table_function, inputs, caller, trace_id, ticket },
                )
            },
        }
    }

    /// Opens a write whose lock key the handler has given, or failed to give,
    /// and whose outcome is to be recorded under `idempotency_key`, if any.
    pub fn begin_write(
        &mut self,
        handler: Arc<W>,
        lock_key: Result<LockKey, Error>,
        idempotency_key: Option<String>,
        table_function: String,
        inputs: Inputs,
        request_id: String,
        caller: Caller,
        trace_id: String,
    ) -> (opened: Opened<R, W>)
        requires
            old(self).wf(),
        ensures
            final(self).wf(),
            write_opened(
                *old(self),
                *final(self),
                opened,
                handler,
                lock_key,
                idempotency_key,
                table_function,
                inputs,
                request_id,
                caller,
                trace_id,
            ),
    {
        let key = match lock_key {
            Err(e) => {
                let result = Err(Failure::Error(e));
                return Opened::Settled(
                    WriteDone { table_function, inputs, request_id, caller, trace_id, result },
                );
            },
            Ok(key) => key,
        };
        let id = match &idempotency_key {
            Some(id) => Some(id.as_str()),
            None => None,
        };
        let result = match self.write_coord.begin(&key, id) {
            Admission::Run(ticket) => {
                return Opened::Write(
                    WriteCall {
                        handler,
                        table_function,
                        inputs,
                        request_id,
                        caller,
                        trace_id,
                        ticket,
                    },
                );
            },
            Admission::Replay(row) => Ok(WriteResult { row, was_idempotent_noop: true }),
            Admission::Refused(e) => Err(Failure::Error(e)),
        };
        Opened::Settled(
            WriteDone { table_function, inputs, request_id, caller, trace_id, result },
        )
    }

    /// Opens a request: answers it, or says what has to be done about it.
    pub fn open(&mut self, request: Request) -> (opened: Opened<R, W>)
        requires
            old(self).wf(),
        ensures
            final(self).wf(),
            request_opened(*old(self), *final(self), request, opened),
    {
        match request {
            Request::Ping => Opened::Reply(Response::Pong),
            Request::Describe { table_function } => Opened::Reply(self.describe(table_function)),
            Request::ListTableFunctions => Opened::Reply(
                Response::SchemaList(self.registry.list_schemas()),
            ),
            Request::Read { table_function, inputs, caller, trace_id, deadline_ms: _ } => {
                let handler = match self.registry.get_read(table_function.as_str()) {
                    Some(h) => h,
                    None => {
                        return Opened::Refused(
                            refused_read(
                                Failure::Unregistered,
                                table_function,
                                inputs,
                                caller,
                                trace_id,
                            ),
                        );
                    },
                };
                let key = handler.compute_key(&inputs);
                assert(call_ensures(R::compute_key, (&*handler, &inputs), key));
                self.begin_read(handler, key, table_function, inputs, caller, trace_id)
            },
            Request::Write {
                table_function,
                inputs,
                request_id,
                caller,
                trace_id,
                deadline_ms: _,
            } => {
                let handler = match self.registry.get_write(table_function.as_str()) {
                    Some(h) => h,
                    None => {
                        let result = Err(Failure::Unregistered);
                        return Opened::Settled(
                            WriteDone {
                                table_function,
                                inputs,
                                request_id,
                                caller,
                                trace_id,
                                result,
                            },
                        );
                    },
                };
                let lock_key = handler.lock_key(&inputs);
                assert(call_ensures(W::lock_key, (&*handler, &inputs), lock_key));
                let id = match &lock_key {
                    Ok(_) => {
                        let id = handler.idempotency_key(&inputs);
                        assert(call_ensures(W::idempotency_key, (&*handler, &inputs), id));
                        id
                    },
                    Err(_) => None,
                };
                self.begin_write(
                    handler,
                    lock_key,
                    id,
                    table_function,
                    inputs,
                    request_id,
                    caller,
                    trace_id,
                )
            },
        }
    }

    /// Takes a read whose state is there out of the cache.
    pub fn finish_read(&mut self, call: ReadCall<R>) -> (ready: ReadReady<R>)
        requires
            old(self).wf(),
            old(self).read_cache@.holds(call.ticket@),
            old(self).read_cache@.cell(call.ticket@) is Done,
        ensures
            final(self).wf(),
            final(self).registry == old(self).registry,
            final(self).write_coord == old(self).write_coord,
            final(self).read_cache@ == old(self).read_cache@.ended(call.ticket@),
            is_ready_for(ready, call),
            match old(self).read_cache@.cell(call.ticket@)->Done_0 {
                Ok(state) => ready.found matches Ok(f) && f.0 == state && f.1 == old(
                    self,
                ).read_cache@.outcome(call.ticket@),
                Err(m) => ready.found matches Err(e) && e@ == ErrorView::Compute(m),
            },
    {
        let ReadCall { handler, table_function, inputs, caller, trace_id, ticket } = call;
        let found = self.read_cache.finish(ticket);
        ReadReady { handler, table_function, inputs, caller, trace_id, found }
    }

    /// Ends a write that was run with what it gave.
    pub fn settle_write(&mut self, call: WriteCall<W>, given: Result<Row, Error>) -> (done:
        WriteDone)
        requires
            old(self).wf(),
            old(self).write_coord@.held.contains(call.ticket@.lock_key),
        ensures
            final(self).wf(),
            final(self).registry == old(self).registry,
            final(self).read_cache == old(self).read_cache,
            final(self).write_coord@ == old(self).write_coord@.ended(
                call.ticket@,
                given_row(given),
            ),
            is_write_done(
                done,
                call.table_function,
                call.inputs,
                call.request_id,
                call.caller,
                call.trace_id,
            ),
            answers_run(done.result, given),
    {
        let WriteCall { handler: _, table_function, inputs, request_id, caller, trace_id, ticket } =
            call;
        let result = match self.write_coord.finish(ticket, given) {
            Ok(r) => Ok(r),
            Err(e) => Err(Failure::Error(e)),
        };
        WriteDone { table_function, inputs, request_id, caller, trace_id, result }
    }
}

/// The event tells of the request: its table function, its kind, its inputs,
/// its caller and its trace.
pub open spec fn tells_of(event: AuditEvent, request: Request) -> bool {
    match request {
        Request::Read { table_function, inputs, caller, trace_id, .. } => {
            &&& event.operation.table_function == table_function
            &&& event.operation.kind == TableFunctionKind::Read
            &&& event.operation.inputs == inputs
            &&& event.caller == caller
            &&& event.trace_id == trace_id
            &&& event.request_id is None
        },
        Request::Write { table_function, inputs, request_id, caller, trace_id, .. } => {
            &&& event.operation.table_function == table_function
            &&& event.operation.kind == TableFunctionKind::Write
            &&& event.operation.inputs == inputs
            &&& event.caller == caller
            &&& event.trace_id == trace_id
            &&& event.request_id == Some(request_id)
        },
        _ => false,
    }
}

/// The finished read is what the opened request came to: at once, or by way of
/// the cache.
pub open spec fn read_came_to<R: ReadHandler, W>(opened: Opened<R, W>, done: ReadDone) -> bool {
    match opened {
        Opened::Refused(d) => done == d,
        Opened::Read(call) => exists|ready: ReadReady<R>| #[trigger]
            is_ready_for(ready, call) && is_done_with(done, ready),
        _ => false,
    }
}

/// The finished write is what the opened request came to: at once, or by being
/// run.
pub open spec fn write_came_to<R, W>(opened: Opened<R, W>, done: WriteDone) -> bool {
    match opened {
        Opened::Settled(d) => done == d,
        Opened::Write(call) => is_write_done(
            done,
            call.table_function,
            call.inputs,
            call.request_id,
            call.caller,
            call.trace_id,
        ),
        _ => false,
    }
}

/// Every read and every write is audited, whether it succeeds, fails or is
/// refused: it is never answered on opening, so that its answer comes with an
/// event; other requests are answered on opening, without one.
pub proof fn law_reads_and_writes_are_answered_with_an_event<R: ReadHandler, W: WriteHandler>(
    before: IpcServer<R, W>,
    after: IpcServer<R, W>,
    request: Request,
    opened: Opened<R, W>,
)
    requires
        request_opened(before, after, request, opened),
    ensures
        match request {
            Request::Read { .. } => opened is Read || opened is Refused,
            Request::Write { .. } => opened is Write || opened is Settled,
            _ => opened is Reply,
        },
{
}

/// The one event of a read tells of its request.
pub proof fn law_event_tells_of_its_read<R: ReadHandler, W: WriteHandler>(
    before: IpcServer<R, W>,
    after: IpcServer<R, W>,
    request: Request,
    opened: Opened<R, W>,
    done: ReadDone,
    sizes: Seq<u64>,
    latency_ms: Elapsed,
    compute_ms: Elapsed,
    answer: Answer,
)
    requires
        request is Read,
        request_opened(before, after, request, opened),
        read_came_to(opened, done),
        read_concluded(done, sizes, latency_ms, compute_ms, answer),
    ensures
        tells_of(answer.event, request),
{
}

/// The one event of a write tells of its request.
pub proof fn law_event_tells_of_its_write<R: ReadHandler, W: WriteHandler>(
    before: IpcServer<R, W>,
    after: IpcServer<R, W>,
    request: Request,
    opened: Opened<R, W>,
    done: WriteDone,
    size: u64,
    latency_ms: Elapsed,
    answer: Answer,
)
    requires
        request is Write,
        request_opened(before, after, request, opened),
        write_came_to(opened, done),
        write_concluded(done, size, latency_ms, answer),
    ensures
        tells_of(answer.event, request),
{
}

/// The audit log and the caller are told the same about a read: it went well
/// exactly where rows are returned, the log counts those rows and names the
/// same cache result, and otherwise the log has the code of the error that is
/// returned.
pub proof fn law_read_audit_agrees(
    done: ReadDone,
    sizes: Seq<u64>,
    latency_ms: Elapsed,
    compute_ms: Elapsed,
    answer: Answer,
)
    requires
        read_concluded(done, sizes, latency_ms, compute_ms, answer),
    ensures
        match answer.response {
            Response::Rows { rows, cache, compute_ms } => {
                &&& answer.event.result.error_code is None
                &&& answer.event.result.status@ == "ok"@
                &&& answer.event.result.rows == rows@.len()
                &&& answer.event.result.cache == cache
                &&& answer.event.result.compute_ms == compute_ms
            },
            Response::Error { code, .. } => {
                &&& opt_string(answer.event.result.error_code) == Some(code@)
                &&& answer.event.result.status@ == code@
                &&& answer.event.result.rows == 0
                &&& answer.event.result.bytes_out == 0
            },
            _ => false,
        },
{
}

/// The audit log and the caller are told the same about a write.
pub proof fn law_write_audit_agrees(
    done: WriteDone,
    size: u64,
    latency_ms: Elapsed,
    answer: Answer,
)
    requires
        write_concluded(done, size, latency_ms, answer),
    ensures
        match answer.response {
            Response::Outcome { .. } => {
                &&& answer.event.result.error_code is None
                &&& answer.event.result.status@ == "ok"@
                &&& answer.event.result.rows == 1
            },
            Response::Error { code, .. } => {
                &&& opt_string(answer.event.result.error_code) == Some(code@)
                &&& answer.event.result.status@ == code@
                &&& answer.event.result.rows == 0
                &&& answer.event.result.bytes_out == 0
            },
            _ => false,
        },
{
}

/// A retry of a write that succeeded is answered with the row of the first
/// attempt, marked as such, and changes nothing.
pub proof fn law_retry_is_answered<R: ReadHandler, W: WriteHandler>(
    earlier: CoordinatorView,
    first: WriteTicketView,
    row: Seq<ColumnView>,
    before: IpcServer<R, W>,
    after: IpcServer<R, W>,
    opened: Opened<R, W>,
    handler: Arc<W>,
    lock_key: LockKey,
    id: String,
    table_function: String,
    inputs: Inputs,
    request_id: String,
    caller: Caller,
    trace_id: String,
)
    requires
        first.request_id == Some(id@),
        before.write_coord@ == earlier.ended(first, Some(row)),
        write_opened(
            before,
            after,
            opened,
            handler,
            Ok(lock_key),
            Some(id),
            table_function,
            inputs,
            request_id,
            caller,
            trace_id,
        ),
    ensures
        opened matches Opened::Settled(done) && replays(done.result, row),
        after.write_coord@ == before.write_coord@,
        after.read_cache == before.read_cache,
{
}

/// A write whose lock key is held is answered with a conflict at once, and
/// changes nothing.
pub proof fn law_conflict_is_answered<R: ReadHandler, W: WriteHandler>(
    before: IpcServer<R, W>,
    after: IpcServer<R, W>,
    opened: Opened<R, W>,
    handler: Arc<W>,
    lock_key: LockKey,
    id: Option<String>,
    table_function: String,
    inputs: Inputs,
    request_id: String,
    caller: Caller,
    trace_id: String,
)
    requires
        before.write_coord@.held.contains(lock_key@),
        before.write_coord@.recorded(opt_string(id)) is None,
        write_opened(
            before,
            after,
            opened,
            handler,
            Ok(lock_key),
            id,
            table_function,
            inputs,
            request_id,
            caller,
            trace_id,
        ),
    ensures
        opened matches Opened::Settled(done) && conflicts(done.result, lock_key@),
        after.write_coord@ == before.write_coord@,
        after.read_cache == before.read_cache,
{
}

/// A read whose state is there has exactly the rows that its handler's projection
/// gave: the same number, in the same order, none dropped or changed. Where the
/// projection failed, there are none, and its error is the failure.
pub proof fn law_rows_are_those_of_the_projection<R: ReadHandler>(
    ready: ReadReady<R>,
    done: ReadDone,
)
    requires
        call_ensures(ReadReady::<R>::project, (ready,), done),
    ensures
        match ready.found {
            Ok(f) => {
                &&& done.outcome == Some(f.1)
                &&& exists|rows: Result<Vec<Row>, Error>| #[trigger]
                    call_ensures(R::project, (&*ready.handler, &ready.inputs, &f.0), rows)
                        && match rows {
                        Ok(r) => done.rows@ == r@ && done.failure is None,
                        Err(e) => done.rows@.len() == 0 && done.failure == Some(Failure::Error(e)),
                    }
            },
            Err(e) => {
                &&& done.outcome == Some(CacheOutcome::Miss)
                &&& done.rows@.len() == 0
                &&& done.failure == Some(Failure::Error(e))
            },
        },
        done.table_function == ready.table_function,
        done.inputs == ready.inputs,
        done.caller == ready.caller,
        done.trace_id == ready.trace_id,
{
}

/// A read that succeeds is answered with exactly the rows that its handler's
/// projection gave, and the audit log counts them; one whose projection or
/// computation failed is answered with that error.
pub proof fn law_read_is_answered_with_the_projected_rows<R: ReadHandler>(
    ready: ReadReady<R>,
    done: ReadDone,
    sizes: &Vec<u64>,
    latency_ms: Elapsed,
    compute_ms: Elapsed,
    ts: NaiveDateTime,
    answer: Answer,
)
    requires
        call_ensures(ReadReady::<R>::project, (ready,), done),
        call_ensures(ReadDone::conclude_at, (done, sizes, latency_ms, compute_ms, ts), answer),
    ensures
        match ready.found {
            Ok(f) => exists|rows: Result<Vec<Row>, Error>| #[trigger]
                call_ensures(R::project, (&*ready.handler, &ready.inputs, &f.0), rows)
                    && match rows {
                    Ok(r) => {
                        &&& answer.response matches Response::Rows { rows: sent, .. } && sent@ == r@
                        &&& answer.event.result.rows == r@.len()
                        &&& answer.event.result.status@ == "ok"@
                        &&& answer.event.result.error_code is None
                    },
                    Err(e) => {
                        &&& answer.response matches Response::Error { code, message } && code@
                            == e@.code() && message@ == e@.message()
                        &&& answer.event.result.rows == 0
                        &&& answer.event.result.status@ == e@.code()
                    },
                },
            Err(e) => {
                &&& answer.response matches Response::Error { code, message } && code@ == e@.code()
                    && message@ == e@.message()
                &&& answer.event.result.rows == 0
                &&& answer.event.result.status@ == e@.code()
            },
        },
{
}

/// A finished read is answered with its rows and with how it came by them, or
/// with its failure; the event tells the same of it, and is the read's own.
pub proof fn law_read_answer(
    done: ReadDone,
    sizes: &Vec<u64>,
    latency_ms: Elapsed,
    compute_ms: Elapsed,
    ts: NaiveDateTime,
    answer: Answer,
)
    requires
        call_ensures(ReadDone::conclude_at, (done, sizes, latency_ms, compute_ms, ts), answer),
    ensures
        answer.event.ts == ts,
        answer.event.trace_id@ == done.trace_id@,
        answer.event.request_id is None,
        answer.event.caller == done.caller,
        answer.event.operation.table_function@ == done.table_function@,
        answer.event.operation.kind == TableFunctionKind::Read,
        answer.event.operation.inputs == done.inputs,
        answer.event.result.latency_ms == latency_ms,
        answer.event.result.compute_ms == compute_ms,
        answer.event.result.storage_ms == (Elapsed { secs: 0, nanos: 0 }),
        answer.event.result.cache == match done.outcome {
            Some(CacheOutcome::Hit) => CacheResult::Hit,
            Some(CacheOutcome::Miss) => CacheResult::Miss,
            Some(CacheOutcome::Coalesced) => CacheResult::Coalesced,
            None => CacheResult::NotApplicable,
        },
        match done.failure {
            None => {
                &&& answer.response == (Response::Rows {
                    rows: done.rows,
                    cache: answer.event.result.cache,
                    compute_ms,
                })
                &&& answer.event.result.status@ == "ok"@
                &&& answer.event.result.error_code is None
                &&& answer.event.result.rows == done.rows@.len()
                &&& answer.event.result.bytes_out == sizes@.fold_left(
                    0int,
                    |sum: int, size: u64| sum + size,
                )
            },
            Some(f) => {
                let (code, message) = match f {
                    Failure::Unregistered => ("unknown_table_function"@, done.table_function@),
                    Failure::Error(e) => (e@.code(), e@.message()),
                };
                &&& answer.response matches Response::Error { code: c, message: m } && c@ == code
                    && m@ == message
                &&& answer.event.result.status@ == code
                &&& answer.event.result.error_code matches Some(c) && c@ == code
                &&& answer.event.result.rows == 0
                &&& answer.event.result.bytes_out == 0
            },
        },
{
    lemma_total_folds(sizes@);
}

proof fn lemma_total_folds(sizes: Seq<u64>)
    ensures
        total(sizes) == sizes.fold_left(0int, |sum: int, size: u64| sum + size),
    decreases sizes.len(),
{
    if sizes.len() > 0 {
        lemma_total_folds(sizes.drop_last());
    }
}

/// A finished write is answered with the row of its result, column by column, and
/// with its mark, whether it was run or done before; a failed one with its
/// failure. The event tells the same of it, and is the write's own.
pub proof fn law_write_answer(
    done: WriteDone,
    size: u64,
    latency_ms: Elapsed,
    ts: NaiveDateTime,
    answer: Answer,
)
    requires
        call_ensures(WriteDone::conclude_at, (done, size, latency_ms, ts), answer),
    ensures
        answer.event.ts == ts,
        answer.event.trace_id@ == done.trace_id@,
        answer.event.request_id matches Some(id) && id@ == done.request_id@,
        answer.event.caller == done.caller,
        answer.event.operation.table_function@ == done.table_function@,
        answer.event.operation.kind == TableFunctionKind::Write,
        answer.event.operation.inputs == done.inputs,
        answer.event.result.latency_ms == latency_ms,
        answer.event.result.compute_ms == (Elapsed { secs: 0, nanos: 0 }),
        answer.event.result.storage_ms == (Elapsed { secs: 0, nanos: 0 }),
        answer.event.result.cache == CacheResult::NotApplicable,
        match done.result {
            Ok(r) => {
                &&& answer.response matches Response::Outcome { row, was_idempotent_noop }
                    && row.columns@ == r.row.columns@ && was_idempotent_noop
                    == r.was_idempotent_noop
                &&& answer.event.result.status@ == "ok"@
                &&& answer.event.result.error_code is None
                &&& answer.event.result.rows == 1
                &&& answer.event.result.bytes_out == size
            },
            Err(f) => {
                let (code, message) = match f {
                    Failure::Unregistered => ("unknown_table_function"@, done.table_function@),
                    Failure::Error(e) => (e@.code(), e@.message()),
                };
                &&& answer.response matches Response::Error { code: c, message: m } && c@ == code
                    && m@ == message
                &&& answer.event.result.status@ == code
                &&& answer.event.result.error_code matches Some(c) && c@ == code
                &&& answer.event.result.rows == 0
                &&& answer.event.result.bytes_out == 0
            },
        },
{
}

/// Concluding a call now is concluding it at some time.
pub proof fn law_conclusions_agree(
    read: ReadDone,
    sizes: &Vec<u64>,
    latency_ms: Elapsed,
    compute_ms: Elapsed,
    of_read: Answer,
    write: WriteDone,
    size: u64,
    of_write: Answer,
)
    requires
        call_ensures(ReadDone::conclude, (read, sizes, latency_ms, compute_ms), of_read),
        call_ensures(WriteDone::conclude, (write, size, latency_ms), of_write),
    ensures
        read.failure is None ==> (of_read.response matches Response::Rows { rows, .. } && rows@
            == read.rows@ && of_read.event.result.rows == read.rows@.len()),
        read.failure matches Some(Failure::Error(e)) ==> (
        of_read.response matches Response::Error { code, message } && code@ == e@.code()
            && message@ == e@.message()),
        of_read.event.caller == read.caller,
        of_read.event.operation.inputs == read.inputs,
        of_read.event.operation.table_function@ == read.table_function@,
        of_read.event.trace_id@ == read.trace_id@,
        write.result matches Ok(r) ==> (of_write.response matches Response::Outcome {
            row,
            was_idempotent_noop,
        } && row.columns@ == r.row.columns@ && was_idempotent_noop == r.was_idempotent_noop),
        write.result matches Err(Failure::Error(e)) ==> (
        of_write.response matches Response::Error { code, message } && code@ == e@.code()
            && message@ == e@.message()),
        of_write.event.caller == write.caller,
        of_write.event.operation.inputs == write.inputs,
        of_write.event.operation.table_function@ == write.table_function@,
        of_write.event.trace_id@ == write.trace_id@,
{
}

/// A write that succeeded is answered with the row that it gave, and every retry
/// under its idempotency key, with whatever lock key and inputs, with the columns
/// of the same row, marked as done before, while nothing runs.
pub proof fn law_retry_is_answered_with_the_first_row<R: ReadHandler, W: WriteHandler>(
    server: &mut IpcServer<R, W>,
    call: WriteCall<W>,
    id: String,
    row: Row,
    first: WriteDone,
    size: u64,
    latency_ms: Elapsed,
    ts: NaiveDateTime,
    answer: Answer,
    later: &mut IpcServer<R, W>,
    handler: Arc<W>,
    lock_key: LockKey,
    again: String,
    table_function: String,
    inputs: Inputs,
    request_id: String,
    caller: Caller,
    trace_id: String,
    opened: Opened<R, W>,
    retry: WriteDone,
    second: Answer,
)
    requires
        call_ensures(IpcServer::<R, W>::settle_write, (server, call, Ok(row)), first),
        call_ensures(WriteDone::conclude_at, (first, size, latency_ms, ts), answer),
        call.ticket@.request_id == Some(id@),
        again@ == id@,
        call_ensures(
            IpcServer::<R, W>::begin_write,
            (
                later,
                handler,
                Ok(lock_key),
                Some(again),
                table_function,
                inputs,
                request_id,
                caller,
                trace_id,
            ),
            opened,
        ),
        opened == Opened::<R, W>::Settled(retry),
        call_ensures(WriteDone::conclude_at, (retry, size, latency_ms, ts), second),
    ensures
        answer.response matches Response::Outcome { row: sent, was_idempotent_noop } && sent@
            == row@ && !was_idempotent_noop,
        *old(later) == *final(server) ==> (second.response matches Response::Outcome {
            row: sent,
            was_idempotent_noop,
        } && sent@ == row@ && was_idempotent_noop),
        *old(later) == *final(server) ==> final(later).write_coord@ == old(later).write_coord@,
        *old(later) == *final(server) ==> final(later).read_cache@ == old(later).read_cache@,
{
}

/// A retry is never run: once a row is recorded under an idempotency key, opening
/// a write under it settles the write at once.
pub proof fn law_retry_is_settled<R: ReadHandler, W: WriteHandler>(
    server: &mut IpcServer<R, W>,
    handler: Arc<W>,
    lock_key: LockKey,
    id: String,
    table_function: String,
    inputs: Inputs,
    request_id: String,
    caller: Caller,
    trace_id: String,
    opened: Opened<R, W>,
)
    requires
        old(server).write_coord@.records.contains_key(id@),
        call_ensures(
            IpcServer::<R, W>::begin_write,
            (
                server,
                handler,
                Ok(lock_key),
                Some(id),
                table_function,
                inputs,
                request_id,
                caller,
                trace_id,
            ),
            opened,
        ),
    ensures
        opened matches Opened::Settled(done) && done.result matches Ok(r) && r.row@ == old(server).write_coord@.records[id@] && r.was_idempotent_noop,
        opened matches Opened::Settled(done) && done.caller == caller && done.inputs == inputs
            && done.table_function == table_function && done.request_id == request_id
            && done.trace_id == trace_id,
        final(server).write_coord@ == old(server).write_coord@,
{
}

/// How a write is opened that was not done before: where its lock key is held, it
/// is over with a conflict and nothing changes; where it is not, it has to be run
/// and holds the lock key.
pub proof fn law_new_write_is_admitted_or_refused<R: ReadHandler, W: WriteHandler>(
    server: &mut IpcServer<R, W>,
    handler: Arc<W>,
    lock_key: LockKey,
    idempotency_key: Option<String>,
    table_function: String,
    inputs: Inputs,
    request_id: String,
    caller: Caller,
    trace_id: String,
    opened: Opened<R, W>,
)
    requires
        idempotency_key matches Some(id) ==> !old(server).write_coord@.records.contains_key(id@),
        call_ensures(
            IpcServer::<R, W>::begin_write,
            (
                server,
                handler,
                Ok(lock_key),
                idempotency_key,
                table_function,
                inputs,
                request_id,
                caller,
                trace_id,
            ),
            opened,
        ),
    ensures
        final(server).read_cache == old(server).read_cache,
        final(server).registry == old(server).registry,
        final(server).write_coord@.records == old(server).write_coord@.records,
        old(server).write_coord@.held.contains(lock_key@) ==> {
            &&& opened matches Opened::Settled(done) && done.result matches Err(
                Failure::Error(Error::WriteConflict(k)),
            ) && k@ == lock_key@ && done.caller == caller && done.inputs == inputs
                && done.table_function == table_function && done.request_id == request_id
                && done.trace_id == trace_id
            &&& final(server).write_coord@.held == old(server).write_coord@.held
        },
        !old(server).write_coord@.held.contains(lock_key@) ==> {
            &&& opened matches Opened::Write(call) && call.handler == handler && call.caller
                == caller && call.inputs == inputs && call.table_function == table_function
                && call.request_id == request_id && call.trace_id == trace_id
                && call.ticket@.lock_key == lock_key@ && call.ticket@.request_id
                == match idempotency_key {
                Some(id) => Some(id@),
                None => None,
            }
            &&& final(server).write_coord@.held == old(server).write_coord@.held.insert(lock_key@)
        },
{
}

/// A write whose handler gives no lock key is over with the handler's error, and
/// changes nothing.
pub proof fn law_write_without_lock_key_is_refused<R: ReadHandler, W: WriteHandler>(
    server: &mut IpcServer<R, W>,
    handler: Arc<W>,
    e: Error,
    idempotency_key: Option<String>,
    table_function: String,
    inputs: Inputs,
    request_id: String,
    caller: Caller,
    trace_id: String,
    opened: Opened<R, W>,
)
    requires
        call_ensures(
            IpcServer::<R, W>::begin_write,
            (
                server,
                handler,
                Err(e),
                idempotency_key,
                table_function,
                inputs,
                request_id,
                caller,
                trace_id,
            ),
            opened,
        ),
    ensures
        opened matches Opened::Settled(done) && done.result == Err::<WriteResult, Failure>(
            Failure::Error(e),
        ) && done.caller == caller && done.inputs == inputs && done.table_function
            == table_function && done.request_id == request_id && done.trace_id == trace_id,
        final(server).write_coord == old(server).write_coord,
        final(server).read_cache == old(server).read_cache,
        final(server).registry == old(server).registry,
{
}

/// A write that was run is over with what it gave: its row is recorded under its
/// idempotency key, if it has one, and its lock key is free again.
pub proof fn law_run_write_is_settled<R: ReadHandler, W: WriteHandler>(
    server: &mut IpcServer<R, W>,
    call: WriteCall<W>,
    given: Result<Row, Error>,
    done: WriteDone,
)
    requires
        call_ensures(IpcServer::<R, W>::settle_write, (server, call, given), done),
    ensures
        match given {
            Ok(row) => done.result matches Ok(r) && r.row@ == row@ && !r.was_idempotent_noop,
            Err(e) => done.result == Err::<WriteResult, Failure>(Failure::Error(e)),
        },
        done.caller == call.caller,
        done.inputs == call.inputs,
        done.table_function == call.table_function,
        done.request_id == call.request_id,
        done.trace_id == call.trace_id,
        final(server).write_coord@.held == old(server).write_coord@.held.remove(
            call.ticket@.lock_key,
        ),
        final(server).write_coord@.records == match (call.ticket@.request_id, given) {
            (Some(id), Ok(row)) => old(server).write_coord@.records.insert(id, row@),
            _ => old(server).write_coord@.records,
        },
        final(server).read_cache == old(server).read_cache,
        final(server).registry == old(server).registry,
{
}

/// A read whose handler gives a key is opened in the cache under that key; one
/// whose handler gives none is over with the handler's error, without rows, and
/// the cache is not asked.
pub proof fn law_read_is_opened_under_its_key<R: ReadHandler, W: WriteHandler>(
    server: &mut IpcServer<R, W>,
    handler: Arc<R>,
    key: Result<ComputeKey, Error>,
    table_function: String,
    inputs: Inputs,
    caller: Caller,
    trace_id: String,
    opened: Opened<R, W>,
)
    requires
        call_ensures(
            IpcServer::<R, W>::begin_read,
            (server, handler, key, table_function, inputs, caller, trace_id),
            opened,
        ),
    ensures
        final(server).write_coord == old(server).write_coord,
        final(server).registry == old(server).registry,
        match key {
            Ok(k) => opened matches Opened::Read(call) && {
                &&& call.handler == handler
                &&& call.table_function == table_function
                &&& call.inputs == inputs
                &&& call.caller == caller
                &&& call.trace_id == trace_id
                &&& final(server).read_cache@.live.contains_key(k@)
                &&& final(server).read_cache@.live[k@] == call.ticket@.slot
                &&& final(server).read_cache@.slots[call.ticket@.slot].calls.contains_key(
                    call.ticket@.call,
                )
                &&& old(server).read_cache@.live.contains_key(k@) ==> old(server).read_cache@.live[k@] == call.ticket@.slot && final(server).read_cache@.slots[call.ticket@.slot].cell == old(server).read_cache@.slots[call.ticket@.slot].cell
                &&& !old(server).read_cache@.live.contains_key(k@) ==> final(server).read_cache@.slots[call.ticket@.slot].cell is Empty
            },
            Err(e) => {
                &&& opened matches Opened::Refused(done) && done.table_function == table_function
                    && done.inputs == inputs && done.caller == caller && done.trace_id == trace_id
                    && done.rows@.len() == 0 && done.outcome is None && done.failure == Some(
                    Failure::Error(e),
                )
                &&& final(server).read_cache == old(server).read_cache
            },
        },
{
}

/// A read whose computation is over is ready with the state that was computed, or
/// with its failure as a failed computation.
pub proof fn law_finished_read_has_the_computed_state<R: ReadHandler, W: WriteHandler>(
    server: &mut IpcServer<R, W>,
    call: ReadCall<R>,
    ready: ReadReady<R>,
)
    requires
        call_ensures(IpcServer::<R, W>::finish_read, (server, call), ready),
        old(server).read_cache@.slots[call.ticket@.slot].cell is Done,
    ensures
        ready.handler == call.handler,
        ready.table_function == call.table_function,
        ready.inputs == call.inputs,
        ready.caller == call.caller,
        ready.trace_id == call.trace_id,
        match old(server).read_cache@.slots[call.ticket@.slot].cell->Done_0 {
            Ok(state) => ready.found matches Ok(f) && f.0 == state,
            Err(m) => ready.found matches Err(Error::Compute(t)) && t@ == m,
        },
        final(server).write_coord == old(server).write_coord,
        final(server).registry == old(server).registry,
{
}

/// What becomes of a request, by its kind: a ping is answered; a read or a write
/// of a table function that is not registered for it is over with that failure,
/// and its own details; the others are opened with their handler, inputs and
/// caller.
pub proof fn law_requests_are_opened_by_kind<R: ReadHandler, W: WriteHandler>(
    server: &mut IpcServer<R, W>,
    request: Request,
    opened: Opened<R, W>,
)
    requires
        call_ensures(IpcServer::<R, W>::open, (server, request), opened),
    ensures
        final(server).registry == old(server).registry,
        match request {
            Request::Ping => opened == Opened::<R, W>::Reply(Response::Pong) && final(server).read_cache == old(server).read_cache && final(server).write_coord == old(server).write_coord,
            Request::Describe { table_function } => {
                &&& final(server).read_cache == old(server).read_cache
                &&& final(server).write_coord == old(server).write_coord
                &&& opened matches Opened::Reply(response) && if old(server).registry@.reads.contains_key(table_function@) {
                    response matches Response::Schema(s) && call_ensures(
                        R::schema,
                        (&*old(server).registry@.reads[table_function@],),
                        s,
                    )
                } else if old(server).registry@.writes.contains_key(table_function@) {
                    response matches Response::Schema(s) && call_ensures(
                        W::schema,
                        (&*old(server).registry@.writes[table_function@],),
                        s,
                    )
                } else {
                    response matches Response::Error { code, message } && code@
                        == "unknown_table_function"@ && message@ == table_function@
                }
            },
            Request::ListTableFunctions => {
                &&& final(server).read_cache == old(server).read_cache
                &&& final(server).write_coord == old(server).write_coord
                &&& opened matches Opened::Reply(Response::SchemaList(list))
            },
            Request::Read { table_function, inputs, caller, trace_id, .. } => {
                &&& final(server).write_coord == old(server).write_coord
                &&& if old(server).registry@.reads.contains_key(table_function@) {
                    match opened {
                        Opened::Read(call) => {
                            &&& call.handler == old(server).registry@.reads[table_function@]
                            &&& call.table_function == table_function
                            &&& call.inputs == inputs
                            &&& call.caller == caller
                            &&& call.trace_id == trace_id
                        },
                        Opened::Refused(done) => {
                            &&& done.failure matches Some(Failure::Error(e))
                            &&& done.table_function == table_function
                            &&& done.inputs == inputs
                            &&& done.caller == caller
                            &&& done.trace_id == trace_id
                            &&& done.rows@.len() == 0
                            &&& final(server).read_cache == old(server).read_cache
                        },
                        _ => false,
                    }
                } else {
                    &&& opened matches Opened::Refused(done) && done.failure == Some(
                        Failure::Unregistered,
                    ) && done.table_function == table_function && done.inputs == inputs
                        && done.caller == caller && done.trace_id == trace_id && done.rows@.len()
                        == 0 && done.outcome is None
                    &&& final(server).read_cache == old(server).read_cache
                }
            },
            Request::Write { table_function, inputs, request_id, caller, trace_id, .. } => {
                &&& final(server).read_cache == old(server).read_cache
                &&& if old(server).registry@.writes.contains_key(table_function@) {
                    match opened {
                        Opened::Write(call) => {
                            &&& call.handler == old(server).registry@.writes[table_function@]
                            &&& call.table_function == table_function
                            &&& call.inputs == inputs
                            &&& call.request_id == request_id
                            &&& call.caller == caller
                            &&& call.trace_id == trace_id
                        },
                        Opened::Settled(done) => {
                            &&& done.table_function == table_function
                            &&& done.inputs == inputs
                            &&& done.request_id == request_id
                            &&& done.caller == caller
                            &&& done.trace_id == trace_id
                            &&& final(server).write_coord@ == old(server).write_coord@
                        },
                        _ => false,
                    }
                } else {
                    &&& opened matches Opened::Settled(done) && done.result == Err::<
                        WriteResult,
                        Failure,
                    >(Failure::Unregistered) && done.table_function == table_function
                        && done.inputs == inputs && done.request_id == request_id && done.caller
                        == caller && done.trace_id == trace_id
                    &&& final(server).write_coord == old(server).write_coord
                }
            },
        },
{
}

/// A registered read is opened under the key that its handler gives for the
/// inputs, and only where the handler gives none is it refused, with the
/// handler's error.
pub proof fn law_registered_read_is_opened_under_its_key<R: ReadHandler, W: WriteHandler>(
    server: &mut IpcServer<R, W>,
    table_function: String,
    inputs: Inputs,
    caller: Caller,
    trace_id: String,
    deadline_ms: Option<u64>,
    opened: Opened<R, W>,
)
    requires
        old(server).registry@.reads.contains_key(table_function@),
        call_ensures(
            IpcServer::<R, W>::open,
            (server, Request::Read { table_function, inputs, caller, trace_id, deadline_ms }),
            opened,
        ),
    ensures
        exists|key: Result<ComputeKey, Error>| #[trigger]
            call_ensures(
                R::compute_key,
                (&*old(server).registry@.reads[table_function@], &inputs),
                key,
            ) && match key {
                Ok(k) => opened matches Opened::Read(call) && final(server).read_cache@.live.contains_key(k@) && final(server).read_cache@.live[k@]
                    == call.ticket@.slot,
                Err(e) => opened matches Opened::Refused(done) && done.failure == Some(
                    Failure::Error(e),
                ) && done.outcome is None,
            },
{
}

/// A registered write is admitted under the lock key and the idempotency key that
/// its handler gives for the inputs; it is answered with the recorded row, with a
/// conflict or with the handler's error where it is not to be run.
pub proof fn law_registered_write_is_opened_under_its_keys<R: ReadHandler, W: WriteHandler>(
    server: &mut IpcServer<R, W>,
    table_function: String,
    inputs: Inputs,
    request_id: String,
    caller: Caller,
    trace_id: String,
    deadline_ms: Option<u64>,
    opened: Opened<R, W>,
)
    requires
        old(server).registry@.writes.contains_key(table_function@),
        call_ensures(
            IpcServer::<R, W>::open,
            (
                server,
                Request::Write { table_function, inputs, request_id, caller, trace_id, deadline_ms },
            ),
            opened,
        ),
    ensures
        exists|key: Result<LockKey, Error>| #[trigger]
            call_ensures(
                W::lock_key,
                (&*old(server).registry@.writes[table_function@], &inputs),
                key,
            ) && match key {
                Err(e) => opened matches Opened::Settled(done) && done.result == Err::<
                    WriteResult,
                    Failure,
                >(Failure::Error(e)),
                Ok(k) => exists|id: Option<String>| #[trigger]
                    call_ensures(
                        W::idempotency_key,
                        (&*old(server).registry@.writes[table_function@], &inputs),
                        id,
                    ) && match opened {
                        Opened::Write(call) => {
                            &&& !old(server).write_coord@.held.contains(k@)
                            &&& id matches Some(i) ==> !old(server).write_coord@.records.contains_key(i@)
                            &&& call.ticket@.lock_key == k@
                            &&& call.ticket@.request_id is Some <==> id is Some
                            &&& id matches Some(i) ==> call.ticket@.request_id == Some(i@)
                            &&& final(server).write_coord@.held == old(server).write_coord@.held.insert(k@)
                        },
                        Opened::Settled(done) => match done.result {
                            Ok(r) => id matches Some(i) && old(server).write_coord@.records.contains_key(i@) && r.row@ == old(server).write_coord@.records[i@] && r.was_idempotent_noop,
                            Err(f) => old(server).write_coord@.held.contains(k@)
                                && (f matches Failure::Error(Error::WriteConflict(c)) && c@ == k@),
                        },
                        _ => false,
                    },
            },
{
}

/// The answer to a request for all table functions lists one schema of each
/// handler that is registered, read or write, and no others, in the order of
/// their names.
pub proof fn law_all_table_functions_are_listed<R: ReadHandler, W: WriteHandler>(
    server: &mut IpcServer<R, W>,
    opened: Opened<R, W>,
    list: Vec<TableFunctionSchema>,
)
    requires
        call_ensures(IpcServer::<R, W>::open, (server, Request::ListTableFunctions), opened),
        opened == Opened::<R, W>::Reply(Response::SchemaList(list)),
    ensures
        list@.len() == old(server).registry@.reads.dom().len() + old(server).registry@.writes.dom().len(),
        forall|n: Seq<char>| #[trigger]
            old(server).registry@.reads.contains_key(n) ==> exists|i: int|
                0 <= i < list@.len() && call_ensures(
                    R::schema,
                    (&*old(server).registry@.reads[n],),
                    #[trigger] list@[i],
                ),
        forall|n: Seq<char>| #[trigger]
            old(server).registry@.writes.contains_key(n) ==> exists|i: int|
                0 <= i < list@.len() && call_ensures(
                    W::schema,
                    (&*old(server).registry@.writes[n],),
                    #[trigger] list@[i],
                ),
        forall|i: int| #![trigger list@[i]]
            0 <= i < list@.len() ==> is_read_schema(list@[i], old(server).registry@.reads) || is_write_schema(
                list@[i],
                old(server).registry@.writes,
            ),
        forall|i: int, j: int| #![trigger list@[i], list@[j]]
            0 <= i < j < list@.len() ==> !comes_before(
                encode_utf8(list@[j].name@),
                encode_utf8(list@[i].name@),
            ),
{
    lemma_schemas_listed(old(server).registry@, list@);
}

} // verus!
