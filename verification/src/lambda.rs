//! The lambda calculus representation: types, expressions, the language
//! registry with inference and the textual syntax, and the search for
//! expressions of a type.

pub mod candidates;
pub mod engine;
pub mod enumeration;
pub mod enumerator;
pub mod expression;
pub mod infer;
pub mod invention;
pub mod language;
pub mod parser;
pub mod printer;
pub mod progress;
pub mod roundtrip;
pub mod scope;
pub mod simple;
pub mod text;
pub mod types;
pub mod windows;

pub use self::expression::Expression;
pub use self::language::{InferenceError, Language};
pub use self::parser::ParseError;
pub use self::types::{Type, UnificationError};
