//! A small recursive-descent JSON parser, verified with Verus.
//!
//! The parser turns a sequence of characters (or bytes, through a
//! byte-to-character adapter) into a [`value::Json`] tree. Its behaviour is
//! specified by the mathematical model in [`model`]: every reader's contract
//! states that the characters it consumes and the value or error it returns
//! are exactly those of the corresponding model function.

pub mod bytes;
pub mod cursor;
pub mod laws;
pub mod model;
pub mod parser;
pub mod value;

pub use value::Error;
pub use value::Json;
