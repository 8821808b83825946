//! The process id that a user names on the command line.

use vstd::prelude::*;
use crate::decimal::{parse_u32, u32_of};
use crate::error::ProcError;
use crate::text::chars_of;

verus! {

/// Reads a process id as the user wrote it.
///
/// Gives the number that `text` denotes as a 32-bit unsigned decimal, and
/// [`ProcError::Fatal`] exactly where it denotes none: a request for no
/// process at all cannot be served.
pub fn parse_pid(text: &str) -> (pid: Result<u32, ProcError>)
    ensures
        match u32_of(text@) {
            Some(value) => pid == Ok::<u32, ProcError>(value),
            None => pid == Err::<u32, ProcError>(ProcError::Fatal),
        },
{
    let chars = chars_of(text);
    match parse_u32(chars.as_slice()) {
        Some(value) => Ok(value),
        None => Err(ProcError::Fatal),
    }
}

} // verus!
