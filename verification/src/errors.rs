//! The error taxonomy of the close protocol: every failure is a typed,
//! local refusal, surfaced before anything is mutated.

use vstd::prelude::*;

verus! {

/// Why an operation on a record was refused.
///
/// Every failure is a rejected operation surfaced to the caller; none of the
/// registry operations panics, and a failed operation leaves every record
/// unchanged.
#[derive(Clone, Copy, Debug, PartialEq, Eq, Structural)]
pub enum LifecycleError {
    /// A record region's length does not match the expected shape.
    InvalidLayout,
    /// A record's discriminator byte does not match the expected shape.
    TypeMismatch,
    /// A record's custody tag does not belong to the executing authority.
    IllegalAuthority,
    /// A referenced record is absent, reclaimed, or no longer the original
    /// record that the reference was created against.
    StaleOrForgedReference,
    /// A child-count would underflow: the parent records no live children.
    InvariantViolation,
    /// A parent cannot be closed while live children still reference it.
    ChildrenStillReferencing,
    /// The same address was supplied for two distinct roles of one call.
    AliasedRecords,
    /// The operation selector byte is missing or names no operation.
    UnknownOperation,
}

} // verus!
