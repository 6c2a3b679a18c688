//! A compiler for a small declarative language describing multi-argument
//! polymorphic functions with two "open" arguments (double dispatch).
//!
//! The input is a token tree: two type-class declarations (roles A and B),
//! a list of declared function signatures, and one or more implementation
//! blocks binding concrete type pairs to function bodies.  The compiler
//! validates the specification (argument-position inference, completeness,
//! visibility consistency, commutativity legality) and synthesizes a
//! two-level dispatch structure: two trait declarations, per-type trait
//! implementations, and top-level dispatch-entry functions.

pub mod casing;
pub mod cursor;
pub mod errors;
pub mod literal;
pub mod model;
pub mod resolve;
pub mod signature;
pub mod strings;
pub mod subst;
pub mod synth;
pub mod token;
