//! Resolution of byte-producing literal syntax, with digest emission.
//!
//! The input is a tree of tokens in the shape a procedural macro receives.
//! The resolver turns it into bytes and a provenance span, the emitter hashes
//! those bytes and produces the output tokens.

pub mod span;
pub mod token;
pub mod outside;
pub mod registry;
pub mod error;
pub mod grammar;
pub mod resolve;
pub mod literal;
pub mod emit;
pub mod laws;
