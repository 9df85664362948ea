//! A codec for a compact configuration language: lexer, token parser and the
//! decisions of a type-driven deserializer.

pub mod text;
pub mod cursor;
pub mod literal;
pub mod parse;
pub mod error;
pub mod de;
pub mod message;

pub use de::Deserializer;
pub use error::{Error, Result};
