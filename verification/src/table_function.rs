//! What a table function offers to the daemon.

use crate::error::{Error, ErrorView};
use crate::keys::{ComputeKey, LockKey};
use crate::row::{Inputs, Row};
use crate::schema::TableFunctionSchema;
use crate::storage::Storage;
use vstd::prelude::*;
use vstd::string::*;

verus! {

/// What read and write functions have in common.
pub trait TableFunction {
    fn schema() -> TableFunctionSchema;
}

/// What a computation has to work with.
pub struct ComputeContext<'a, St: Storage> {
    pub storage: &'a St,
    pub trace_id: &'a str,
}

/// What a write has to work with.
pub struct WriteContext<'a, St: Storage> {
    pub storage: &'a mut St,
    pub trace_id: &'a str,
    pub request_id: &'a str,
}

/// A read function. Calls with the same compute key share one computation.
pub trait ReadTableFunction: TableFunction {
    /// The state that is computed and kept.
    type State;

    /// The key under which the computed state is kept. Functions that give
    /// the same key share the state.
    fn compute_key(inputs: &Inputs) -> Result<ComputeKey, Error>;

    /// The rows of this call, out of the computed state.
    fn project(inputs: &Inputs, state: &Self::State) -> Result<Vec<Row>, Error>;
}

/// A write function. Calls with the same lock key never run at the same time.
pub trait WriteTableFunction: TableFunction {
    /// The key that the write is serialized by.
    fn lock_key(inputs: &Inputs) -> Result<LockKey, Error>;

    /// The key under which the outcome is recorded, if it is to be.
    fn idempotency_key(inputs: &Inputs) -> Option<String>;
}

/// The state that was found under the type that was asked for, or the error
/// that it is of another type.
pub fn downcast_state<'a, S>(found: Option<&'a S>) -> (result: Result<&'a S, Error>)
    ensures
        match found {
            Some(s) => result == Ok::<&'a S, Error>(s),
            None => result matches Err(e) && e@ == ErrorView::Compute(
                "cached state type mismatch"@,
            ),
        },
{
    match found {
        Some(s) => Ok(s),
        None => Err(Error::Compute("cached state type mismatch".to_string())),
    }
}

/// A state of the type that was asked for is given back; one of another type is
/// a failed computation.
pub proof fn law_state_of_the_right_type_is_given_back<'a, S>(
    found: Option<&'a S>,
    result: Result<&'a S, Error>,
)
    requires
        call_ensures(downcast_state::<S>, (found,), result),
    ensures
        found matches Some(s) ==> (result matches Ok(r) && *r == *s),
        found is None ==> (result matches Err(Error::Compute(m)) && m@
            == "cached state type mismatch"@),
{
}

} // verus!
