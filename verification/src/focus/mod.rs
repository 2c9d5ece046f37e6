//! Focused model calls: one system prompt, one question, one JSON answer.

pub mod call;
pub mod progress;
