//! The two ways in which an operation on process data can fail.

use vstd::prelude::*;

verus! {

/// Why an operation on process data did not produce a value.
#[derive(Clone, Copy, Debug, PartialEq, Eq, Structural)]
pub enum ProcError {
    /// The process could not be observed: it may have exited, or its status
    /// line does not have the expected shape. Callers carry on without it.
    Unavailable,
    /// The request itself cannot be served. Callers stop with a diagnostic.
    Fatal,
}

} // verus!
