//! A pull-based tokenizer for a small subset of a C-like language.
//!
//! [`tokenizer`] holds the executable tokenizer, [`grammar`] the mathematical
//! definition of what it computes, [`charclass`] the character classes the
//! grammar is built on, [`laws`] what is proved of the grammar for every
//! input, and [`stdlib`] the few facts about the standard library that the
//! proofs assume.

pub mod charclass;
pub mod grammar;
pub mod laws;
pub mod stdlib;
pub mod tokenizer;
