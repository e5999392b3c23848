//! Errors the kernel reports, as the root server passes them on.

use vstd::prelude::*;

verus! {

/// The error codes of seL4 invocations.
#[derive(PartialEq, Eq, Structural, Debug, Clone, Copy)]
pub enum Sel4Error {
    InvalidArgument,
    InvalidCapability,
    IllegalOperation,
    RangeError,
    AlignmentError,
    FailedLookup,
    TruncatedMessage,
    DeleteFirst,
    RevokeFirst,
    NotEnoughMemory,
}

/// The errors root-server invocations report to their callers.
#[derive(PartialEq, Eq, Structural, Debug, Clone, Copy)]
pub enum InvocationError {
    InvalidInvocation,
    InvalidArguments,
    InsufficientResources,
    OutOfHandles,
    OutOfHandleCaps,
    CSpaceFull,
    DataBufferNotSet,
    BufferTooLarge,
    ServerError,
    InvalidHandle { which_arg: usize },
    InvalidHandleCapability { which_arg: usize },
    AlignmentError { which_arg: usize },
}

} // verus!
