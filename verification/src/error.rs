//! Errors of the relay, with their stable codes and their messages.

use crate::outside::{duration_debug, duration_text};
use vstd::prelude::*;
use vstd::string::*;

verus! {

/// Why a call failed.
#[derive(Debug)]
pub enum Error {
    UnknownTableFunction(String),
    MissingInput(String),
    InputType { name: String, expected: &'static str, got: &'static str },
    WriteConflict(String),
    IdempotentNoop,
    Storage(String),
    Compute(String),
    Protocol(String),
    /// A deadline of `secs` seconds and `nanos` nanoseconds passed.
    Timeout { secs: u64, nanos: u32 },
    /// Any other failure, by its message.
    Other(String),
}

/// An [`Error`] with its texts as character sequences.
pub enum ErrorView {
    UnknownTableFunction(Seq<char>),
    MissingInput(Seq<char>),
    InputType { name: Seq<char>, expected: Seq<char>, got: Seq<char> },
    WriteConflict(Seq<char>),
    IdempotentNoop,
    Storage(Seq<char>),
    Compute(Seq<char>),
    Protocol(Seq<char>),
    Timeout { secs: u64, nanos: u32 },
    Other(Seq<char>),
}

impl View for Error {
    type V = ErrorView;

    open spec fn view(&self) -> ErrorView {
        match self {
            Error::UnknownTableFunction(s) => ErrorView::UnknownTableFunction(s@),
            Error::MissingInput(s) => ErrorView::MissingInput(s@),
            Error::InputType { name, expected, got } => ErrorView::InputType {
                name: name@,
                expected: expected@,
                got: got@,
            },
            Error::WriteConflict(s) => ErrorView::WriteConflict(s@),
            Error::IdempotentNoop => ErrorView::IdempotentNoop,
            Error::Storage(s) => ErrorView::Storage(s@),
            Error::Compute(s) => ErrorView::Compute(s@),
            Error::Protocol(s) => ErrorView::Protocol(s@),
            Error::Timeout { secs, nanos } => ErrorView::Timeout { secs: *secs, nanos: *nanos },
            Error::Other(s) => ErrorView::Other(s@),
        }
    }
}

/// A span with its nanoseconds below a second; the longest such span where the
/// seconds would not fit.
pub open spec fn carried(secs: u64, nanos: u32) -> (u64, u32) {
    if secs + nanos / 1_000_000_000 > u64::MAX {
        (u64::MAX, 999_999_999)
    } else {
        ((secs + nanos / 1_000_000_000) as u64, nanos % 1_000_000_000)
    }
}

impl ErrorView {
    /// The short, machine-readable code of the error.
    pub open spec fn code(self) -> Seq<char> {
        match self {
            ErrorView::UnknownTableFunction(_) => "unknown_table_function"@,
            ErrorView::MissingInput(_) => "missing_input"@,
            ErrorView::InputType { .. } => "input_type_mismatch"@,
            ErrorView::WriteConflict(_) => "write_conflict"@,
            ErrorView::IdempotentNoop => "idempotent_noop"@,
            ErrorView::Storage(_) => "storage_error"@,
            ErrorView::Compute(_) => "compute_error"@,
            ErrorView::Protocol(_) => "protocol_error"@,
            ErrorView::Timeout { .. } => "timeout"@,
            ErrorView::Other(_) => "internal_error"@,
        }
    }

    /// The message of the error.
    pub open spec fn message(self) -> Seq<char> {
        match self {
            ErrorView::UnknownTableFunction(s) => "table function '"@ + s + "' not registered"@,
            ErrorView::MissingInput(s) => "missing input '"@ + s + "'"@,
            ErrorView::InputType { name, expected, got } => "type mismatch for input '"@ + name
                + "': expected "@ + expected + ", got "@ + got,
            ErrorView::WriteConflict(s) => "concurrent write in progress for shard key "@ + s,
            ErrorView::IdempotentNoop => "idempotent no-op: prior outcome returned"@,
            ErrorView::Storage(s) => "storage error: "@ + s,
            ErrorView::Compute(s) => "compute error: "@ + s,
            ErrorView::Protocol(s) => "protocol error: "@ + s,
            ErrorView::Timeout { secs, nanos } => "timeout after "@ + duration_debug(
                carried(secs, nanos).0,
                carried(secs, nanos).1,
            ),
            ErrorView::Other(s) => s,
        }
    }

    /// The two errors are of the same variant.
    pub open spec fn same_kind(self, other: ErrorView) -> bool {
        match self {
            ErrorView::UnknownTableFunction(_) => other is UnknownTableFunction,
            ErrorView::MissingInput(_) => other is MissingInput,
            ErrorView::InputType { .. } => other is InputType,
            ErrorView::WriteConflict(_) => other is WriteConflict,
            ErrorView::IdempotentNoop => other is IdempotentNoop,
            ErrorView::Storage(_) => other is Storage,
            ErrorView::Compute(_) => other is Compute,
            ErrorView::Protocol(_) => other is Protocol,
            ErrorView::Timeout { .. } => other is Timeout,
            ErrorView::Other(_) => other is Other,
        }
    }
}

/// A code stands for one variant: two errors share their code exactly when
/// they are of the same variant.
pub proof fn law_code_identifies_variant(a: ErrorView, b: ErrorView)
    ensures
        a.code() == b.code() <==> a.same_kind(b),
{
    reveal_strlit("unknown_table_function");
    reveal_strlit("missing_input");
    reveal_strlit("input_type_mismatch");
    reveal_strlit("write_conflict");
    reveal_strlit("idempotent_noop");
    reveal_strlit("storage_error");
    reveal_strlit("compute_error");
    reveal_strlit("protocol_error");
    reveal_strlit("timeout");
    reveal_strlit("internal_error");
    assert(a.code()[0] != b.code()[0] || a.code()[1] != b.code()[1] || a.code().len()
        != b.code().len() || a.code()[2] != b.code()[2] || a.same_kind(b));
}

impl Error {
    /// Stable code for the audit log and for the error name on the SQL side.
    pub fn code(&self) -> (code: &'static str)
        ensures
            code@ == self@.code(),
    {
        match self {
            Error::UnknownTableFunction(_) => "unknown_table_function",
            Error::MissingInput(_) => "missing_input",
            Error::InputType { .. } => "input_type_mismatch",
            Error::WriteConflict(_) => "write_conflict",
            Error::IdempotentNoop => "idempotent_noop",
            Error::Storage(_) => "storage_error",
            Error::Compute(_) => "compute_error",
            Error::Protocol(_) => "protocol_error",
            Error::Timeout { .. } => "timeout",
            Error::Other(_) => "internal_error",
        }
    }

    /// The message shown to people.
    pub fn message(&self) -> (text: String)
        ensures
            text@ == self@.message(),
    {
        let mut out = String::new();
        match self {
            Error::UnknownTableFunction(s) => {
                out.append("table function '");
                out.append(s.as_str());
                out.append("' not registered");
            },
            Error::MissingInput(s) => {
                out.append("missing input '");
                out.append(s.as_str());
                out.append("'");
            },
            Error::InputType { name, expected, got } => {
                out.append("type mismatch for input '");
                out.append(name.as_str());
                out.append("': expected ");
                out.append(expected);
                out.append(", got ");
                out.append(got);
            },
            Error::WriteConflict(s) => {
                out.append("concurrent write in progress for shard key ");
                out.append(s.as_str());
            },
            Error::IdempotentNoop => {
                out.append("idempotent no-op: prior outcome returned");
            },
            Error::Storage(s) => {
                out.append("storage error: ");
                out.append(s.as_str());
            },
            Error::Compute(s) => {
                out.append("compute error: ");
                out.append(s.as_str());
            },
            Error::Protocol(s) => {
                out.append("protocol error: ");
                out.append(s.as_str());
            },
            Error::Timeout { secs, nanos } => {
                out.append("timeout after ");
                let span = match secs.checked_add((*nanos / 1_000_000_000) as u64) {
                    Some(whole) => duration_text(whole, *nanos % 1_000_000_000),
                    None => duration_text(u64::MAX, 999_999_999),
                };
                out.append(span.as_str());
            },
            Error::Other(s) => {
                out.append(s.as_str());
            },
        }
        assert(out@ =~= self@.message());
        out
    }
}

/// Each error has its own fixed code.
pub proof fn law_codes(e: &Error, code: &'static str)
    requires
        call_ensures(Error::code, (e,), code),
    ensures
        *e is UnknownTableFunction ==> code@ == "unknown_table_function"@,
        *e is MissingInput ==> code@ == "missing_input"@,
        *e is InputType ==> code@ == "input_type_mismatch"@,
        *e is WriteConflict ==> code@ == "write_conflict"@,
        *e is IdempotentNoop ==> code@ == "idempotent_noop"@,
        *e is Storage ==> code@ == "storage_error"@,
        *e is Compute ==> code@ == "compute_error"@,
        *e is Protocol ==> code@ == "protocol_error"@,
        *e is Timeout ==> code@ == "timeout"@,
        *e is Other ==> code@ == "internal_error"@,
{
}

/// The message of an error names what it is about. A span with more nanoseconds
/// than a second has is shown with the seconds carried over.
pub proof fn law_messages(e: &Error, text: String)
    requires
        call_ensures(Error::message, (e,), text),
    ensures
        match *e {
            Error::UnknownTableFunction(s) => text@ == "table function '"@ + s@
                + "' not registered"@,
            Error::MissingInput(s) => text@ == "missing input '"@ + s@ + "'"@,
            Error::InputType { name, expected, got } => text@ == "type mismatch for input '"@ + name@
                + "': expected "@ + expected@ + ", got "@ + got@,
            Error::WriteConflict(s) => text@ == "concurrent write in progress for shard key "@ + s@,
            Error::IdempotentNoop => text@ == "idempotent no-op: prior outcome returned"@,
            Error::Storage(s) => text@ == "storage error: "@ + s@,
            Error::Compute(s) => text@ == "compute error: "@ + s@,
            Error::Protocol(s) => text@ == "protocol error: "@ + s@,
            Error::Timeout { secs, nanos } => nanos < 1_000_000_000 ==> text@ == "timeout after "@
                + duration_debug(secs, nanos),
            Error::Other(s) => text@ == s@,
        },
{
}

/// Two spans of the same length have the same message.
pub proof fn law_equal_spans_have_equal_messages(a: &Error, b: &Error, x: String, y: String)
    requires
        call_ensures(Error::message, (a,), x),
        call_ensures(Error::message, (b,), y),
    ensures
        match (*a, *b) {
            (
                Error::Timeout { secs: s, nanos: m },
                Error::Timeout { secs: t, nanos: n },
            ) => s * 1_000_000_000 + m == t * 1_000_000_000 + n && s * 1_000_000_000 + m
                <= u64::MAX * 1_000_000_000 + 999_999_999 ==> x@ == y@,
            _ => true,
        },
{
}

/// What an error is seen as holds its kind and all its texts.
pub proof fn law_error_views(e: Error)
    ensures
        match e {
            Error::UnknownTableFunction(s) => e@ == ErrorView::UnknownTableFunction(s@),
            Error::MissingInput(s) => e@ == ErrorView::MissingInput(s@),
            Error::InputType { name, expected, got } => e@ == (ErrorView::InputType {
                name: name@,
                expected: expected@,
                got: got@,
            }),
            Error::WriteConflict(s) => e@ == ErrorView::WriteConflict(s@),
            Error::IdempotentNoop => e@ == ErrorView::IdempotentNoop,
            Error::Storage(s) => e@ == ErrorView::Storage(s@),
            Error::Compute(s) => e@ == ErrorView::Compute(s@),
            Error::Protocol(s) => e@ == ErrorView::Protocol(s@),
            Error::Timeout { secs, nanos } => e@ == (ErrorView::Timeout { secs, nanos }),
            Error::Other(s) => e@ == ErrorView::Other(s@),
        },
{
}

} // verus!
