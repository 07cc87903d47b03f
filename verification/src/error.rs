use vstd::prelude::*;

verus! {

/// Why a codec operation failed.
#[derive(Debug, Clone, Copy, PartialEq, Eq, Structural)]
pub enum NetError {
    /// An argument is outside the accepted range (a bit count of 0 or above 32, a query of the wrong kind).
    InvalidInput,
    /// The input ended before the value was complete.
    UnexpectedEof,
    /// The input is malformed (an empty packet, bytes that are not UTF-8, a bad header).
    InvalidData,
    /// The caller is not allowed to do this yet (a client that has not authenticated).
    PermissionDenied,
}

} // verus!
