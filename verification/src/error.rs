//! The failures a backend operation can report.

use vstd::prelude::*;

verus! {

/// Why a backend operation failed. Callers tell failures apart by variant.
#[derive(Clone, Copy, Debug, PartialEq, Eq, Structural)]
pub enum Error {
    /// A mutating call reached a backend that cannot be written to.
    ReadOnly,
    /// The remote could not be reached, or the transfer broke off.
    ConnectionFailure,
    /// The payload was malformed or not of the expected kind.
    InvalidData,
    /// The entry does not exist.
    NotFound,
    /// A lock could not be acquired.
    LockFailure,
}

} // verus!
