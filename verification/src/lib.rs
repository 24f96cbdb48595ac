//! Structural schema inference over streams of example values.
//!
//! The crate observes input values one at a time and folds each into an
//! inferred shape: a point in a lattice that runs from `Unknown` (nothing
//! seen yet) up to `Any` (accepts everything).  Hints supplied up front can
//! bias how record-shaped values are classified at chosen paths.  Once the
//! stream is exhausted the shape is exported as a schema document.

pub mod export;
pub mod hints;
pub mod laws;
pub mod rfc3339;
pub mod shape;
pub mod value;
