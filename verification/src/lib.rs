//! A two-pass assembler for a small virtual instruction set.
//!
//! The crate turns assembly source text into a flat binary image in three
//! verified stages: lexing source lines into encoded records, laying the
//! records out at absolute addresses, and back-patching symbolic references.

pub mod bebytes;
pub mod cli;
pub mod encode;
pub mod errors;
pub mod laws;
pub mod layout;
pub mod lex;
pub mod line;
pub mod operand;
pub mod text;
