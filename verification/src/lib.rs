//! Property-based testing over arbitrary algebraic data types: deterministic
//! generation from a seed with a size budget, curated corner cases, and
//! shrinking of a found witness to a local minimum.
//!
//! The one call that an application makes is [`witness`]: it generates
//! values from increasingly large seeds until one passes a property, and
//! minimizes that value.
//!
//! Every type that takes part has a mathematical model ([`term::Term`]), a
//! cardinality ([`count::Count`]), a way to generate values
//! ([`conjure::Conjure`]) and a way to shrink them ([`shrink::Shrink`]).
//! What each function returns is stated over the models: generation as a
//! function of the seed, and shrinking as a function of what the property
//! means, for every property whose answers depend on the model alone.

pub mod conjure;
pub mod count;
pub mod decompose;
pub mod either;
pub mod impls;
pub mod iter;
pub mod samples;
pub mod seed;
pub mod shrink;
pub mod size;
pub mod term;
pub mod witness;

pub use crate::witness::{witness, NotFound};
