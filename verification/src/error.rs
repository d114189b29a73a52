//! Error taxonomy of the storage layer.

use vstd::prelude::*;

verus! {

/// Everything that can go wrong between a guest call and the durable store.
///
/// A read miss is not an error: it surfaces as `None` from `read`.
#[derive(Clone, Copy, PartialEq, Eq, Structural, Debug)]
pub enum Error {
    /// A decoded value does not match the type the caller asked for.
    ValueConversion,
    /// Capability resolution produced the wrong `Key` kind.
    UnexpectedKeyVariant,
    /// The presented capability lacks the right the operation needs.
    InvalidAccess,
    /// A snapshot read named a root that was never committed.
    RootNotFound,
    /// The commit step could not apply the effect map; nothing was applied.
    CommitFailure,
}

} // verus!
