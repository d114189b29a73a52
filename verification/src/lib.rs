//! State-access and effect-commit layer of a smart-contract execution engine.
//!
//! Guest programs read, write and accumulate values in a versioned global
//! store through unforgeable capability references.  Every mutation is
//! deferred: an execution produces a batch of transforms, and a separate,
//! atomic commit step applies the batch to a snapshot root, producing a new
//! root.

pub mod api;
pub mod codec;
pub mod effects;
pub mod error;
pub mod inspect;
pub mod key;
pub mod query;
pub mod rights;
pub mod state;
pub mod transform;
pub mod value;
