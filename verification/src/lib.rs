//! A small numerical toolkit: a dense rectangular matrix store with
//! shape-checked construction and structural operations, an index
//! permutation sort, the control skeleton of a Jacobi rotation solver,
//! descriptive-statistics helpers, and classification types for the
//! geometric layer.
//!
//! Matrix entries are held as opaque 64-bit words.  Callers pick the
//! encoding of their scalar type into words and supply the scalar
//! operations as closures; every structural guarantee (shapes, entry
//! placement, permutations) is stated and proved here, while the
//! supplied operations are described through their own contracts.

pub mod geometry;
pub mod jacobi;
pub mod matrix_2d;
pub mod statistics;
