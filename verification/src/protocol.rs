//! Requests and responses between the database extension and the daemon.

use crate::audit::{CacheResult, Caller, Elapsed};
use crate::row::{Inputs, Row};
use crate::schema::TableFunctionSchema;
use vstd::prelude::*;

verus! {

/// What the daemon is asked.
#[derive(Clone, Debug)]
pub enum Request {
    /// Sanity probe.
    Ping,
    /// The schema of one table function.
    Describe { table_function: String },
    /// The schemas of all table functions.
    ListTableFunctions,
    /// Call of a read function.
    Read {
        table_function: String,
        inputs: Inputs,
        caller: Caller,
        trace_id: String,
        deadline_ms: Option<u64>,
    },
    /// Call of a write function.
    Write {
        table_function: String,
        inputs: Inputs,
        request_id: String,
        caller: Caller,
        trace_id: String,
        deadline_ms: Option<u64>,
    },
}

/// What the daemon answers.
#[derive(Clone, Debug)]
pub enum Response {
    Pong,
    Schema(TableFunctionSchema),
    SchemaList(Vec<TableFunctionSchema>),
    /// The rows of a read.
    Rows { rows: Vec<Row>, cache: CacheResult, compute_ms: Elapsed },
    /// The confirmation row of a write.
    Outcome { row: Row, was_idempotent_noop: bool },
    Error { code: String, message: String },
}

} // verus!
