//! What building a node can refuse.

use vstd::prelude::*;

verus! {

/// The ways a node rejects an insert.
#[derive(Debug, Clone, Copy, PartialEq, Eq, Structural)]
pub enum MalwareBrotError {
    /// A nested child was offered to a node that already has one.
    DoubleNest,
    /// A routing child was offered to a node that has no nested child yet.
    InsertBeforeNest,
}

/// What an operation of this library returns when it can be refused.
pub type MalwareBrotResult<T> = Result<T, MalwareBrotError>;

} // verus!
