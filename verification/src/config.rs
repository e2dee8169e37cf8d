//! Download strategies and engine settings.
use vstd::prelude::*;
use crate::text::{chars_of, fold_ascii, fold_seq, same_chars};

verus! {

broadcast use vstd::string::group_string_axioms;

/// How a download is carried out.
#[derive(Debug, Clone, Copy, PartialEq, Eq, Hash, Structural)]
pub enum Strategy {
    /// Small files (< 5MB) kept in memory.
    MemoryBuffered,
    /// Medium/linear files streamed to disk.
    StreamToDisk,
    /// Large files (> 10MB) downloaded in parallel chunks.
    ParallelChunks,
}

/// The strategy that a request parameter names: `memory`, `stream` or
/// `parallel`, compared without regard to case.
pub open spec fn strategy_named(s: Seq<char>) -> Option<Strategy> {
    let f = fold_seq(s);
    if f == "memory"@ {
        Some(Strategy::MemoryBuffered)
    } else if f == "stream"@ {
        Some(Strategy::StreamToDisk)
    } else if f == "parallel"@ {
        Some(Strategy::ParallelChunks)
    } else {
        None
    }
}

/// Reads a strategy from a request parameter, ignoring case: `memory`,
/// `stream` and `parallel` name the three strategies, anything else none.
/// (No character outside ASCII lower-cases to a letter of these three words,
/// so ASCII case folding decides exactly as full lower-casing would.)
pub fn parse_strategy_param(s: &str) -> (r: Option<Strategy>)
    ensures
        r == strategy_named(s@),
{
    let folded = fold_ascii(chars_of(s).as_slice());
    proof {
        reveal_strlit("memory");
        reveal_strlit("stream");
        reveal_strlit("parallel");
    }
    if same_chars(folded.as_slice(), chars_of("memory").as_slice()) {
        Some(Strategy::MemoryBuffered)
    } else if same_chars(folded.as_slice(), chars_of("stream").as_slice()) {
        Some(Strategy::StreamToDisk)
    } else if same_chars(folded.as_slice(), chars_of("parallel").as_slice()) {
        Some(Strategy::ParallelChunks)
    } else {
        None
    }
}

/// A span of time as `std::time::Duration` holds it: whole seconds and the
/// nanoseconds beyond them, fewer than a second's worth.
#[derive(Debug, Clone, Copy, PartialEq, Eq, Structural)]
pub struct Span {
    pub secs: u64,
    pub nanos: u32,
}

impl Span {
    /// The nanoseconds make less than a second.
    pub open spec fn well_formed(self) -> bool {
        self.nanos < 1_000_000_000
    }

    /// `secs` whole seconds.
    pub fn from_secs(secs: u64) -> (r: Span)
        ensures
            r.secs == secs,
            r.nanos == 0,
            r.well_formed(),
    {
        Span { secs, nanos: 0 }
    }
}

/// Settings of the download engine.
#[derive(Debug, Clone)]
pub struct DownloadConfig {
    pub max_concurrent_chunks: usize,
    pub buffer_pool_size: usize,
    pub chunk_size: usize,
    /// Request timeout.
    pub timeout: Span,
    /// How long an idle pooled connection is kept.
    pub pool_idle_timeout: Option<Span>,
    pub max_retries: u32,
    pub user_agent: String,
    pub debug: bool,
}

/// The user agent that the engine announces unless told otherwise.
pub open spec fn default_user_agent() -> Seq<char> {
    "LeechEngine/1.0.0 (Faster, Less-Memory Downloader)"@
}

/// `c` holds the default settings: 8 concurrent chunks, 64 pooled buffers of
/// 128 KiB, a 30 s timeout, 90 s idle connections, 3 retries, the engine's
/// own user agent, and no debug output.
pub open spec fn is_default_config(c: DownloadConfig) -> bool {
    &&& c.max_concurrent_chunks == 8
    &&& c.buffer_pool_size == 64
    &&& c.chunk_size == 128 * 1024
    &&& c.timeout == Span { secs: 30, nanos: 0 }
    &&& c.pool_idle_timeout == Some(Span { secs: 90, nanos: 0 })
    &&& c.max_retries == 3
    &&& c.user_agent@ == default_user_agent()
    &&& !c.debug
}

impl Default for DownloadConfig {
    /// The default settings (`is_default_config`).
    fn default() -> (r: Self)
        ensures
            is_default_config(r),
    {
        DownloadConfig {
            max_concurrent_chunks: 8,
            buffer_pool_size: 64,
            chunk_size: 128 * 1024,
            timeout: Span::from_secs(30),
            pool_idle_timeout: Some(Span::from_secs(90)),
            max_retries: 3,
            user_agent: String::from_str("LeechEngine/1.0.0 (Faster, Less-Memory Downloader)"),
            debug: false,
        }
    }
}

} // verus!
