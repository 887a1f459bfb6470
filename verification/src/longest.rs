//! The longer of two strings, with the first winning ties. One variant
//! measures length in bytes, the other in characters; they differ on
//! text with characters encoded in more than one byte.

pub mod by_bytes;
pub mod by_chars;
