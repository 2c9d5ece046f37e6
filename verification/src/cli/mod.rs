//! Command-line front end.

pub mod printer;
pub mod repl;
