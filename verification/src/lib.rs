//! Agent toolkit: guards, context compression, project memory, MCP plumbing,
//! command-line front end and built-in file tools, with every decision the
//! toolkit takes stated as a contract and proved.

pub mod builder;
pub mod builtin;
pub mod cli;
pub mod compression;
pub mod error;
pub mod events;
pub mod focus;
pub mod guard;
pub mod handle;
pub mod json;
pub mod mcp;
pub mod memory;
pub mod text;
pub mod time;
