//! Structural type inference for categorized JSON samples, and rendering of
//! the inferred types as type declarations.
//!
//! - `types`: the inferred types and their mathematical model (`Shape`).
//! - `inference`: the type of one JSON value.
//! - `merge`: combining two types into one that covers both.
//! - `formatting`: declaration syntax of a type.
//! - `generation`: grouping samples by category and writing all declarations.
//! - `keys`, `props`: key order and property maps.
//! - `invariants`, `laws`, `assoc`: well-formedness and the algebra of merging.
//! - `order`: the output does not depend on the order of the samples.
pub mod assoc;
pub mod formatting;
pub mod generation;
pub mod inference;
pub mod invariants;
pub mod keys;
pub mod laws;
pub mod merge;
pub mod order;
pub mod props;
pub mod types;
