//! Compression configuration.

use vstd::prelude::*;

verus! {

/// Tuning knobs for context compression.
///
/// # Defaults
///
/// | Field | Default | Purpose |
/// |-------|---------|---------|
/// | `enabled` | `true` | Master switch |
/// | `trigger_tokens` | 30 000 | Skip compression when estimated tokens are not above this |
/// | `keep_recent_messages` | 40 | Number of most-recent messages kept verbatim |
/// | `max_summary_chars` | 10 240 (10 KB) | Hard cap on the generated summary length |
/// | `max_transcript_chars` | 20 480 (20 KB) | Max chars of old messages sent to the summarizer |
#[derive(Clone, Copy, Debug, PartialEq, Eq, Structural)]
pub struct CompressionConfig {
    /// Master switch. When `false`, compression is a no-op.
    pub enabled: bool,
    /// Compress when the estimated token count of the message list exceeds this.
    pub trigger_tokens: usize,
    /// Always keep the most recent N messages intact.
    pub keep_recent_messages: usize,
    /// Hard cap (in chars) on the summary.
    pub max_summary_chars: usize,
    /// Max chars of the old-message transcript handed to the summarizer.
    pub max_transcript_chars: usize,
}

/// The default configuration.
pub open spec fn default_config() -> CompressionConfig {
    CompressionConfig {
        enabled: true,
        trigger_tokens: 30_000,
        keep_recent_messages: 40,
        max_summary_chars: 10_240,
        max_transcript_chars: 20_480,
    }
}

impl Default for CompressionConfig {
    fn default() -> (r: Self)
        ensures
            r == default_config(),
    {
        CompressionConfig {
            enabled: true,
            trigger_tokens: 30_000,
            keep_recent_messages: 40,
            max_summary_chars: 10_240,
            max_transcript_chars: 20_480,
        }
    }
}

impl CompressionConfig {
    /// A config with everything at default, to be customised.
    pub fn builder() -> (r: Self)
        ensures
            r == default_config(),
    {
        CompressionConfig::default()
    }

    pub fn with_enabled(self, enabled: bool) -> (r: Self)
        ensures
            r == (CompressionConfig { enabled, ..self }),
    {
        CompressionConfig { enabled, ..self }
    }

    pub fn with_trigger_tokens(self, tokens: usize) -> (r: Self)
        ensures
            r == (CompressionConfig { trigger_tokens: tokens, ..self }),
    {
        CompressionConfig { trigger_tokens: tokens, ..self }
    }

    pub fn with_keep_recent_messages(self, n: usize) -> (r: Self)
        ensures
            r == (CompressionConfig { keep_recent_messages: n, ..self }),
    {
        CompressionConfig { keep_recent_messages: n, ..self }
    }

    pub fn with_max_summary_chars(self, chars: usize) -> (r: Self)
        ensures
            r == (CompressionConfig { max_summary_chars: chars, ..self }),
    {
        CompressionConfig { max_summary_chars: chars, ..self }
    }

    pub fn with_max_transcript_chars(self, chars: usize) -> (r: Self)
        ensures
            r == (CompressionConfig { max_transcript_chars: chars, ..self }),
    {
        CompressionConfig { max_transcript_chars: chars, ..self }
    }
}

} // verus!
