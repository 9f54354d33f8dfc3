//! Constraint filtering for word-guessing puzzles: constraint state, the
//! filter over a dictionary, and the decisions of the interactive session.
pub mod constraints;
pub mod dictionary;
pub mod filter;
pub mod laws;
pub mod session;
pub mod text;
