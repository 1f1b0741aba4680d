//! A deterministic single-tape Turing machine: a two-way growable tape, a
//! transition table with at most one rule per (state, symbol) key, and an
//! execution engine whose steps are proved against a mathematical model,
//! and a reader for the line-oriented text that describes a machine.

pub mod tape;
pub mod table;
pub mod machine;
pub mod laws;
pub mod loader;
