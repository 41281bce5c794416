//! Error taxonomy of the store.

use vstd::prelude::*;

verus! {

/// Everything that an operation of this library can fail with.
///
/// `InvalidArgument` and `NotFound` are request-level results; a caller gets
/// them back as part of the normal contract.  `CorruptSnapshot` marks a
/// structural violation of the binary snapshot format found while decoding.
/// `LockUnavailable` and `IoFailure` are reserved for the surrounding process
/// plumbing (a poisoned lock, a failed disk read or write), which reports
/// them through the same taxonomy.
#[derive(Clone, Copy, PartialEq, Eq, Structural, Debug)]
pub enum StoreError {
    InvalidArgument,
    NotFound,
    LockUnavailable,
    CorruptSnapshot,
    IoFailure,
}

impl StoreError {
    /// A human-readable name for the error kind.
    pub fn describe(&self) -> (r: &'static str)
        ensures
            self is InvalidArgument ==> r@ == "invalid argument"@,
            self is NotFound ==> r@ == "not found"@,
            self is LockUnavailable ==> r@ == "lock unavailable"@,
            self is CorruptSnapshot ==> r@ == "corrupt snapshot"@,
            self is IoFailure ==> r@ == "io failure"@,
    {
        match self {
            StoreError::InvalidArgument => "invalid argument",
            StoreError::NotFound => "not found",
            StoreError::LockUnavailable => "lock unavailable",
            StoreError::CorruptSnapshot => "corrupt snapshot",
            StoreError::IoFailure => "io failure",
        }
    }
}

} // verus!
