//! The protocol for common types: scalars, seeds, options, results, tuples,
//! boxes, arrays and vectors.

pub mod arrays;
pub mod basics;
pub mod boxed;
pub mod ints;
pub mod option;
pub mod result;
pub mod seeds;
pub mod trees;
pub mod tuples;
pub mod vec;
pub mod wide;
