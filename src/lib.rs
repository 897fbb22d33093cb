//! A tape machine for the eight-instruction bracket-looped language: a
//! tokenizer, a resolver for skipped loops, and a step-by-step executor whose
//! input and output are left to the caller.

pub mod error;
pub mod machine;
pub mod resolver;
pub mod token;
