//! A small Forth: a dictionary of words, a two-stack engine that steps an
//! instruction pointer over a line of tokens, and a `:` compiler that reads
//! new definitions straight from that line.

pub mod builtins;
pub mod dictionary;
pub mod error;
pub mod interpreter;
pub mod laws;
pub mod primitive;
pub mod semantics;
pub mod statement;
pub mod text;
pub mod types;
pub mod word;
