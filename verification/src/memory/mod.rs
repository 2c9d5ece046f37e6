//! Persistent memory: Markdown files with YAML frontmatter under a
//! per-project directory, listed in an index file.

pub mod calendar;
pub mod frontmatter;
pub mod index;
pub mod names;
pub mod order;
pub mod store;
