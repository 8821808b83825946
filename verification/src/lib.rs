//! Process inspection for Linux, without the reading: everything that is
//! decided or computed between a read of `/proc` and a write to the terminal.
//!
//! - [`stat`] reads a status line into the name, state and parent of a
//!   process.
//! - [`cmdline`] decodes a command-line file into its arguments and renders
//!   them, byte for byte.
//! - [`ancestry`] walks from a process up to the root of the process tree
//!   and makes the header of each process it lists.
//! - [`pretty`] shows a pasted command line one token per line.
//! - [`request`] reads the process id that a user asks for.
//! - [`error`] tells the failure to absorb from the failure to stop on.
//! - [`fields`], [`decimal`], [`separator`] and [`text`] hold what the
//!   others share: splitting and joining, decimal numerals, the
//!   continuation separator, and characters in and out of strings.
//!
//! No function here opens a file. Callers hand over what they read, `None`
//! standing for a file that could not be read.

pub mod ancestry;
pub mod cmdline;
pub mod decimal;
pub mod error;
pub mod fields;
pub mod pretty;
pub mod request;
pub mod separator;
pub mod stat;
pub mod text;
