//! Tokenizer for the first record of a delimiter-separated text buffer,
//! with spreadsheet-style quoting, and its binding as a host function.
//!
//! `model` states what a record is, `tokenizer` computes it, `laws` proves
//! properties of it, and `function` exposes it under the host's calling
//! conventions.
pub mod error;
pub mod function;
pub mod laws;
pub mod model;
pub mod tokenizer;
