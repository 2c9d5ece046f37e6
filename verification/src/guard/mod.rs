//! Loop guards: what to do with a model turn that called no tool.

pub mod config;
pub mod default;
pub mod judge;
pub mod types;
