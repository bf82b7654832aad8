//! Byte reading, text building and exact binary arithmetic.
pub mod bytes;
pub mod double;
pub mod text;
