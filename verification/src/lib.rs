//! Program induction over a polymorphically typed lambda calculus: a registry
//! of primitives and inventions, type inference, a textual syntax, and a
//! cost-ordered search for expressions of a requested type; with the domains
//! of boolean circuits and of string editing.

pub mod domains;
pub mod lambda;
