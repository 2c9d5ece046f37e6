//! Context compression for long agent conversations: when the message list of
//! a model call has grown past a threshold, its earlier part is replaced by a
//! summary.

pub mod compactor;
pub mod config;
pub mod events;
pub mod filter;
pub mod middleware;
pub mod policy;
pub mod summarizer;
