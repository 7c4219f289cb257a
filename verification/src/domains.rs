//! Domains that give the primitives of a language a meaning.

pub mod circuits;
pub mod strings;
