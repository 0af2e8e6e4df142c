//! Audit events: who called what, and how it went.

use crate::row::Inputs;
use crate::schema::TableFunctionKind;
use crate::write_coordinator::opt_string;
use chrono::NaiveDateTime;
use vstd::prelude::*;

verus! {

/// Who made a call, as far as the database session tells.
#[derive(Debug)]
pub struct Caller {
    pub pg_role: Option<String>,
    pub application_name: Option<String>,
    pub client_addr: Option<String>,
    pub backend_pid: Option<i32>,
    pub session_user: Option<String>,
}

impl Clone for Caller {
    fn clone(&self) -> (caller: Self)
        ensures
            same_caller(caller, *self),
    {
        Caller {
            pg_role: clone_text(&self.pg_role),
            application_name: clone_text(&self.application_name),
            client_addr: clone_text(&self.client_addr),
            backend_pid: self.backend_pid,
            session_user: clone_text(&self.session_user),
        }
    }
}

/// Both tell the same of who made a call.
pub open spec fn same_caller(a: Caller, b: Caller) -> bool {
    &&& opt_string(a.pg_role) == opt_string(b.pg_role)
    &&& opt_string(a.application_name) == opt_string(b.application_name)
    &&& opt_string(a.client_addr) == opt_string(b.client_addr)
    &&& a.backend_pid == b.backend_pid
    &&& opt_string(a.session_user) == opt_string(b.session_user)
}

/// What was called, and with which inputs.
#[derive(Debug)]
pub struct Operation {
    pub table_function: String,
    pub kind: TableFunctionKind,
    pub inputs: Inputs,
}

impl Clone for Operation {
    fn clone(&self) -> (operation: Self)
        ensures
            operation.table_function@ == self.table_function@,
            operation.kind == self.kind,
            operation.inputs@ == self.inputs@,
    {
        Operation {
            table_function: self.table_function.clone(),
            kind: self.kind,
            inputs: self.inputs.clone(),
        }
    }
}

/// What the read cache had to do with a call.
#[derive(Clone, Copy, Debug, PartialEq, Eq, Structural)]
pub enum CacheResult {
    Hit,
    Miss,
    Coalesced,
    NotApplicable,
}

/// A span of time: whole seconds, and the nanoseconds of the last one.
#[derive(Clone, Copy, Debug, PartialEq, Eq, Structural)]
pub struct Elapsed {
    pub secs: u64,
    pub nanos: u32,
}

impl Elapsed {
    /// No time at all.
    pub fn zero() -> (e: Self)
        ensures
            e.secs == 0,
            e.nanos == 0,
    {
        Elapsed { secs: 0, nanos: 0 }
    }
}

/// How a call went.
#[derive(Debug)]
pub struct CallResult {
    /// `ok`, or the code of the error.
    pub status: String,
    pub cache: CacheResult,
    pub rows: u64,
    pub bytes_out: u64,
    pub latency_ms: Elapsed,
    pub compute_ms: Elapsed,
    pub storage_ms: Elapsed,
    pub error_code: Option<String>,
}

impl Clone for CallResult {
    fn clone(&self) -> (result: Self)
        ensures
            same_result(result, *self),
    {
        CallResult {
            status: self.status.clone(),
            cache: self.cache,
            rows: self.rows,
            bytes_out: self.bytes_out,
            latency_ms: self.latency_ms,
            compute_ms: self.compute_ms,
            storage_ms: self.storage_ms,
            error_code: clone_text(&self.error_code),
        }
    }
}

/// Both tell the same of how a call went.
pub open spec fn same_result(a: CallResult, b: CallResult) -> bool {
    &&& a.status@ == b.status@
    &&& a.cache == b.cache
    &&& a.rows == b.rows
    &&& a.bytes_out == b.bytes_out
    &&& a.latency_ms == b.latency_ms
    &&& a.compute_ms == b.compute_ms
    &&& a.storage_ms == b.storage_ms
    &&& opt_string(a.error_code) == opt_string(b.error_code)
}

/// One audited call.
#[derive(Debug)]
pub struct AuditEvent {
    /// In UTC.
    pub ts: NaiveDateTime,
    pub trace_id: String,
    pub request_id: Option<String>,
    pub caller: Caller,
    pub operation: Operation,
    pub result: CallResult,
}

impl Clone for AuditEvent {
    fn clone(&self) -> (event: Self)
        ensures
            event.ts == self.ts,
            event.trace_id@ == self.trace_id@,
            opt_string(event.request_id) == opt_string(self.request_id),
            same_caller(event.caller, self.caller),
            event.operation.table_function@ == self.operation.table_function@,
            event.operation.kind == self.operation.kind,
            event.operation.inputs@ == self.operation.inputs@,
            same_result(event.result, self.result),
    {
        AuditEvent {
            ts: self.ts,
            trace_id: self.trace_id.clone(),
            request_id: clone_text(&self.request_id),
            caller: self.caller.clone(),
            operation: self.operation.clone(),
            result: self.result.clone(),
        }
    }
}

fn clone_text(text: &Option<String>) -> (copy: Option<String>)
    ensures
        opt_string(copy) == opt_string(*text),
{
    match text {
        Some(t) => Some(t.clone()),
        None => None,
    }
}

/// A copy of an event tells the same as the event, field by field.
pub proof fn law_copied_event_tells_the_same(event: &AuditEvent, copy: AuditEvent)
    requires
        call_ensures(<AuditEvent as Clone>::clone, (event,), copy),
    ensures
        copy.ts == event.ts,
        copy.trace_id@ == event.trace_id@,
        copy.request_id is Some <==> event.request_id is Some,
        copy.request_id matches Some(a) ==> (event.request_id matches Some(b) && a@ == b@),
        copy.caller.pg_role is Some <==> event.caller.pg_role is Some,
        copy.caller.pg_role matches Some(a) ==> (event.caller.pg_role matches Some(b) && a@ == b@),
        copy.caller.application_name is Some <==> event.caller.application_name is Some,
        copy.caller.application_name matches Some(a) ==> (
        event.caller.application_name matches Some(b) && a@ == b@),
        copy.caller.client_addr is Some <==> event.caller.client_addr is Some,
        copy.caller.client_addr matches Some(a) ==> (event.caller.client_addr matches Some(b) && a@
            == b@),
        copy.caller.backend_pid == event.caller.backend_pid,
        copy.caller.session_user is Some <==> event.caller.session_user is Some,
        copy.caller.session_user matches Some(a) ==> (event.caller.session_user matches Some(b)
            && a@ == b@),
        copy.operation.table_function@ == event.operation.table_function@,
        copy.operation.kind == event.operation.kind,
        copy.operation.inputs@ == event.operation.inputs@,
        copy.result.status@ == event.result.status@,
        copy.result.cache == event.result.cache,
        copy.result.rows == event.result.rows,
        copy.result.bytes_out == event.result.bytes_out,
        copy.result.latency_ms == event.result.latency_ms,
        copy.result.compute_ms == event.result.compute_ms,
        copy.result.storage_ms == event.result.storage_ms,
        copy.result.error_code is Some <==> event.result.error_code is Some,
        copy.result.error_code matches Some(a) ==> (event.result.error_code matches Some(b) && a@
            == b@),
{
}

} // verus!
