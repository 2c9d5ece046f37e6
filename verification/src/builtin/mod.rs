//! Built-in file tools: what a call asks for, and what it is answered.
//!
//! A call is first read into what it asks for; the path is then confined to
//! the workspace; what came of the file operation makes the answer.

pub mod file_exists;
pub mod list_directory;
pub mod path_util;
pub mod read_file;
pub mod schema;
pub mod search_replace;
pub mod write_file;
