//! Why the library refuses a request.

use vstd::prelude::*;

verus! {

/// Why a request was refused.
#[derive(Debug, PartialEq, Eq, Structural)]
pub enum Error {
    /// No mod file: no path was given, and none of the usual places has one.
    NotFound,
    /// A position at or past the end of a list of `len` entries.
    IndexError { index: usize, len: usize },
}

} // verus!
