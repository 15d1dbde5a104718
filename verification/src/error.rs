//! The errors of the library.
use vstd::prelude::*;
use vstd::std_specs::convert::FromSpecImpl;

use crate::json::{ApplyError, RouteError};
use crate::path::PathError;

verus! {

#[derive(Debug)]
pub enum JsonError {
    RouteError(RouteError),
    ApplyOperationError(ApplyError),
    InvalidOperation(String),
    PathError(PathError),
    ConflictSubType(String),
}

pub type Result<T> = std::result::Result<T, JsonError>;

impl From<RouteError> for JsonError {
    fn from(e: RouteError) -> (r: JsonError) {
        JsonError::RouteError(e)
    }
}

impl FromSpecImpl<RouteError> for JsonError {
    open spec fn obeys_from_spec() -> bool {
        true
    }

    open spec fn from_spec(e: RouteError) -> JsonError {
        JsonError::RouteError(e)
    }
}

impl From<ApplyError> for JsonError {
    fn from(e: ApplyError) -> (r: JsonError) {
        JsonError::ApplyOperationError(e)
    }
}

impl FromSpecImpl<ApplyError> for JsonError {
    open spec fn obeys_from_spec() -> bool {
        true
    }

    open spec fn from_spec(e: ApplyError) -> JsonError {
        JsonError::ApplyOperationError(e)
    }
}

impl From<PathError> for JsonError {
    fn from(e: PathError) -> (r: JsonError) {
        JsonError::PathError(e)
    }
}

impl FromSpecImpl<PathError> for JsonError {
    open spec fn obeys_from_spec() -> bool {
        true
    }

    open spec fn from_spec(e: PathError) -> JsonError {
        JsonError::PathError(e)
    }
}

/// An `InvalidOperation` error with the given message.
pub fn invalid_operation(msg: &str) -> (r: JsonError)
    ensures
        r matches JsonError::InvalidOperation(m) && m@ == msg@,
{
    JsonError::InvalidOperation(String::from_str(msg))
}

} // verus!
