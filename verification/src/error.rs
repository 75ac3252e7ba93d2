//! The kinds of failure formatting and naming report.

use vstd::prelude::*;

verus! {

/// Why an operation failed.
#[derive(Debug, Clone, Copy, PartialEq, Eq, Structural)]
pub enum ErrorKind {
    /// An argument is out of range or malformed.
    InvalidInput,
    /// The device or volume has no room for what was asked.
    NoSpace,
    /// A limit of the format is exceeded.
    LimitExceeded,
    /// A name is longer than the format allows.
    NameTooLong,
}

} // verus!
