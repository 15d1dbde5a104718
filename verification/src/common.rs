//! What every checked part of an operation offers.
use vstd::prelude::*;

use crate::error::Result;

verus! {

pub trait Validation {
    /// `Ok` when the value is well formed.
    fn validates(&self) -> Result<()>;
}

} // verus!
