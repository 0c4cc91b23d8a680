//! Settings.

use crate::utils::ratio::Ratio;
use vstd::prelude::*;

verus! {

/// Settings of context compaction.
pub struct CompactionConfig {
    /// Whether compaction is on.
    pub enabled: bool,
    /// Maximum token capacity of the context window.
    pub context_limit: usize,
    /// Fraction of the limit at which compaction is suggested.
    pub threshold: Ratio,
    /// Fraction of the limit at which truncation is suggested.
    pub emergency_threshold: Ratio,
    /// Fraction of the limit at which a hard trim is suggested.
    pub critical_threshold: Ratio,
    /// Fraction of the limit usable for messages.
    pub input_headroom_ratio: Ratio,
    /// Largest fraction of the limit that one tool result may take.
    pub single_tool_result_share: Ratio,
    /// Factor by which estimates are raised.
    pub safety_margin: Ratio,
    /// How often a request that overflowed is tried again.
    pub overflow_retries: u32,
}

/// Settings of the browser tool.
pub struct BrowserConfig {
    /// Whether the tool is on.
    pub enabled: bool,
    /// The engine to start with.
    pub engine: String,
    /// The executable, where it is not the usual one.
    pub executable_path: Option<String>,
    /// Timeout of a command, in seconds.
    pub timeout_secs: u64,
}

} // verus!
