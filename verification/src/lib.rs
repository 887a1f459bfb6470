//! A collection of small verified algorithms: arithmetic and scanning
//! exercises, a couple of state machines, a resource-locator validator,
//! merge sorting, and two interpreters for a minimal byte-tape language.
//!
//! Several problems come in more than one variant; each variant lives in
//! its own submodule and is proved against the same specification.

pub mod brainfuck;
pub mod computer;
pub mod factorial;
pub mod find_largest;
pub mod interleave;
pub mod longest;
pub mod luhn;
pub mod merge;
pub mod parentheses;
pub mod sanitize;
pub mod srl;
pub mod strip_prefix;
pub mod typed_states;
