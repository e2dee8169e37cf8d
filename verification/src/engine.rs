//! The download engine: strategy selection, retries with fallback, and the
//! state it keeps between downloads.
use vstd::prelude::*;
use crate::buffer::pool::{BufferPool, acquired, bytes_contents, fit_index, made_capacity, no_fit, released};
use bytes::BytesMut;
use crate::bypass::{BypassSystem, default_languages, default_user_agents};
use crate::config::{DownloadConfig, Strategy, is_default_config};
use crate::error::{DownloadError, DownloadResult};
use crate::extractor::{ExtractionRules, LinkExtractor};
use crate::metrics::DownloadMetrics;
use crate::static_analysis::StaticAnalyzer;
use crate::strategies::{HeadInfo, accepts_byte_ranges, announced_length};
use crate::urls::{ParsedUrl, parse_url, url_parts};
use lru::LruCache;
use std::num::NonZeroUsize;

verus! {

pub const FIVE_MIB: u64 = 5 * 1024 * 1024;
pub const TEN_MIB: u64 = 10 * 1024 * 1024;

/// The strategy for a file whose announced size is `len` (`None` when the
/// size is unknown): small files (under 5 MiB, an empty one included) are kept
/// in memory, large ones (over 10 MiB) fetched in parallel when the server
/// takes byte ranges, and everything else, unknown sizes among them, is
/// streamed to disk.
pub open spec fn strategy_for(len: Option<u64>, ranges: bool) -> Strategy {
    match len {
        None => Strategy::StreamToDisk,
        Some(n) => if n < FIVE_MIB {
            Strategy::MemoryBuffered
        } else if ranges && n > TEN_MIB {
            Strategy::ParallelChunks
        } else {
            Strategy::StreamToDisk
        },
    }
}

/// The strategy that a HEAD probe leads to; a failed probe counts as an
/// unknown size without range support.
pub open spec fn probed_strategy(head: Option<HeadInfo>) -> Strategy {
    match head {
        Some(h) => strategy_for(announced_length(h), accepts_byte_ranges(h)),
        None => strategy_for(None, false),
    }
}

/// What the size thresholds mean: every announced size below 5 MiB is kept
/// in memory, whatever the range support; the parallel strategy is chosen
/// exactly for sizes over 10 MiB on servers that take byte ranges; an unknown
/// size, and every other announced size, is streamed to disk.
pub proof fn lemma_strategy_thresholds(len: Option<u64>, ranges: bool)
    ensures
        len matches Some(n) && n < 5_242_880 ==> strategy_for(len, ranges) == Strategy::MemoryBuffered,
        (strategy_for(len, ranges) == Strategy::MemoryBuffered) == (len matches Some(n) && n < 5_242_880),
        (strategy_for(len, ranges) == Strategy::ParallelChunks) == (ranges && (len matches Some(n) && n > 10_485_760)),
        len is None ==> strategy_for(len, ranges) == Strategy::StreamToDisk,
        (len matches Some(n) && (n >= 5_242_880 && !(ranges && n > 10_485_760))) ==> strategy_for(len, ranges) == Strategy::StreamToDisk,
{
}

/// Picks the strategy for a file whose announced size is `len`.
pub fn select_strategy(len: Option<u64>, ranges: bool) -> (r: Strategy)
    ensures
        r == strategy_for(len, ranges),
{
    match len {
        None => Strategy::StreamToDisk,
        Some(n) => {
            if n < FIVE_MIB {
                Strategy::MemoryBuffered
            } else if ranges && n > TEN_MIB {
                Strategy::ParallelChunks
            } else {
                Strategy::StreamToDisk
            }
        },
    }
}

/// Picks the strategy from the answer to a HEAD request, `None` when the
/// request failed.
pub fn strategy_from_head(head: &Option<HeadInfo>) -> (r: Strategy)
    ensures
        r == probed_strategy(*head),
{
    match head {
        Some(h) => select_strategy(h.content_length_value(), h.supports_byte_ranges()),
        None => select_strategy(None, false),
    }
}

/// The pause before retrying after the `attempt`-th failed attempt:
/// 500 ms, doubled for every further attempt.
pub open spec fn backoff_ms(attempt: nat) -> nat
    decreases attempt,
{
    if attempt <= 1 {
        500
    } else {
        2 * backoff_ms((attempt - 1) as nat)
    }
}

/// The strategy used after a failure: parallel downloads fall back to
/// streaming, the others are kept.
pub open spec fn downgraded(s: Strategy) -> Strategy {
    if s == Strategy::ParallelChunks {
        Strategy::StreamToDisk
    } else {
        s
    }
}

/// What the engine does after an attempt failed.
#[derive(Debug, Clone, Copy, PartialEq, Eq, Structural)]
pub enum AfterFailure {
    /// Stop and report the failure after this many attempts.
    GiveUp { attempts: u32 },
    /// Wait `delay_ms`, then try again with `strategy`.
    Retry { delay_ms: u64, strategy: Strategy },
}

/// The decision after a failure: give up once more than `max_retries`
/// attempts have been made, else wait and try again.
pub open spec fn failure_step(attempts: u32, strategy: Strategy, max_retries: u32) -> AfterFailure {
    if attempts > max_retries {
        AfterFailure::GiveUp { attempts }
    } else {
        AfterFailure::Retry {
            delay_ms: backoff_ms(attempts as nat) as u64,
            strategy: downgraded(strategy),
        }
    }
}

/// The pause grows with every attempt.
proof fn lemma_backoff_monotonic(a: nat, b: nat)
    requires
        a <= b,
    ensures
        backoff_ms(a) <= backoff_ms(b),
        backoff_ms(a) >= 500,
    decreases b,
{
    if a < b {
        lemma_backoff_monotonic(a, (b - 1) as nat);
    } else if a > 1 {
        lemma_backoff_monotonic((a - 1) as nat, (a - 1) as nat);
    }
}

/// The longest pause that can be computed: the 56th attempt's.
proof fn lemma_backoff_bound(a: nat)
    requires
        a <= 56,
    ensures
        backoff_ms(a) <= 18_014_398_509_481_984_000,
{
    lemma_backoff_monotonic(a, 56);
    reveal_with_fuel(backoff_ms, 57);
}

/// Decides what follows the failure of attempt number `attempts` (counted
/// from 1) made with `strategy`. The pause is computed only when a retry
/// follows, and it must fit in 64 bits: at most 56 attempts when retrying.
pub fn after_failure(attempts: u32, strategy: Strategy, max_retries: u32) -> (r: AfterFailure)
    requires
        attempts >= 1,
        attempts <= max_retries ==> attempts <= 56,
    ensures
        r == failure_step(attempts, strategy, max_retries),
{
    if attempts > max_retries {
        return AfterFailure::GiveUp { attempts };
    }
    let mut delay: u64 = 500;
    let mut k: u32 = 1;
    while k < attempts
        invariant
            1 <= k <= attempts <= 56,
            delay == backoff_ms(k as nat),
        decreases attempts - k,
    {
        proof {
            lemma_backoff_bound((k + 1) as nat);
        }
        delay = delay * 2;
        k = k + 1;
    }
    let next = if strategy == Strategy::ParallelChunks {
        Strategy::StreamToDisk
    } else {
        strategy
    };
    AfterFailure::Retry { delay_ms: delay, strategy: next }
}


#[verifier::external_type_specification]
#[verifier::external_body]
#[verifier::reject_recursive_types(K)]
#[verifier::reject_recursive_types(V)]
#[verifier::reject_recursive_types(S)]
pub struct ExLruCache<K, V, S>(LruCache<K, V, S>);

#[verifier::external_type_specification]
#[verifier::external_body]
pub struct ExLruHasher(lru::DefaultHasher);

/// The per-domain cache of the strategies that worked.
pub type StrategyCache = LruCache<String, Strategy>;

/// A cached domain and its strategy.
pub type CacheEntry = (Seq<char>, Strategy);

/// What the cache holds, most recently used first.
pub uninterp spec fn cache_entries(c: StrategyCache) -> Seq<CacheEntry>;

/// The capacity the cache was made with.
pub uninterp spec fn cache_capacity(c: StrategyCache) -> nat;

/// `k` is cached.
pub open spec fn cached(es: Seq<CacheEntry>, k: Seq<char>) -> bool {
    exists|i: int| 0 <= i < es.len() && (#[trigger] es[i]).0 == k
}

/// Where `k` is cached.
pub open spec fn cache_pos(es: Seq<CacheEntry>, k: Seq<char>) -> int {
    choose|i: int| 0 <= i < es.len() && (#[trigger] es[i]).0 == k
}

/// Each domain is cached at most once, and no more entries than `cap`.
pub open spec fn cache_ok(es: Seq<CacheEntry>, cap: nat) -> bool {
    &&& es.len() <= cap
    &&& forall|i: int, j: int| 0 <= i < es.len() && 0 <= j < es.len() && (#[trigger] es[i]).0 == (#[trigger] es[j]).0 ==> i == j
}

/// The strategy cached for `k`.
pub open spec fn cache_lookup(es: Seq<CacheEntry>, k: Seq<char>) -> Option<Strategy> {
    if cached(es, k) {
        Some(es[cache_pos(es, k)].1)
    } else {
        None
    }
}

/// The cache after a lookup of `k`: a found entry becomes the most recent.
pub open spec fn cache_touched(es: Seq<CacheEntry>, k: Seq<char>) -> Seq<CacheEntry> {
    if cached(es, k) {
        seq![es[cache_pos(es, k)]] + es.remove(cache_pos(es, k))
    } else {
        es
    }
}

/// The cache after storing `v` for `k`: the entry becomes the most recent,
/// replacing an older entry for `k`, or else evicting the least recently used
/// entry when the cache is full.
pub open spec fn cache_stored(es: Seq<CacheEntry>, k: Seq<char>, v: Strategy, cap: nat) -> Seq<CacheEntry> {
    if cached(es, k) {
        seq![(k, v)] + es.remove(cache_pos(es, k))
    } else if es.len() >= cap {
        seq![(k, v)] + es.drop_last()
    } else {
        seq![(k, v)] + es
    }
}

/// `LruCache::new`, with `NonZeroUsize::new(cap)`: an empty cache that holds
/// at most `cap` entries.
#[verifier::external_body]
fn cache_new(cap: usize) -> (r: StrategyCache)
    requires
        cap > 0,
    ensures
        cache_entries(r).len() == 0,
        cache_capacity(r) == cap,
{
    LruCache::new(NonZeroUsize::new(cap).unwrap())
}

/// `LruCache::get`: the strategy cached for `k`, which becomes the most
/// recently used entry.
#[verifier::external_body]
fn cache_get(c: &mut StrategyCache, k: &str) -> (r: Option<Strategy>)
    ensures
        r == cache_lookup(cache_entries(*old(c)), k@),
        cache_entries(*final(c)) == cache_touched(cache_entries(*old(c)), k@),
        cache_capacity(*final(c)) == cache_capacity(*old(c)),
        cache_ok(cache_entries(*final(c)), cache_capacity(*final(c))),
{
    c.get(k).copied()
}

/// `LruCache::put`: stores `v` for `k` as the most recently used entry,
/// evicting the least recently used one when a new key finds the cache full.
#[verifier::external_body]
fn cache_put(c: &mut StrategyCache, k: String, v: Strategy)
    ensures
        cache_entries(*final(c)) == cache_stored(cache_entries(*old(c)), k@, v, cache_capacity(*old(c))),
        cache_capacity(*final(c)) == cache_capacity(*old(c)),
        cache_ok(cache_entries(*final(c)), cache_capacity(*final(c))),
{
    c.put(k, v);
}

/// How many domains the strategy cache remembers.
pub const STRATEGY_CACHE_SIZE: usize = 100;

/// The state the engine keeps between downloads: its settings, the buffer
/// pool, the metrics, the strategy cache and its helpers. Connections and
/// transfers are the caller's.
pub struct LeechEngine {
    config: DownloadConfig,
    buffer_pool: BufferPool,
    metrics: DownloadMetrics,
    strategy_cache: StrategyCache,
    extractor: LinkExtractor,
    static_analyzer: StaticAnalyzer,
    bypass_system: BypassSystem,
}

impl LeechEngine {
    /// The engine's settings.
    pub closed spec fn settings(&self) -> DownloadConfig {
        self.config
    }

    /// The buffer pool.
    pub closed spec fn pool(&self) -> BufferPool {
        self.buffer_pool
    }

    /// The metrics.
    pub closed spec fn stats(&self) -> DownloadMetrics {
        self.metrics
    }

    /// The cached strategies, most recently used first.
    pub closed spec fn cache(&self) -> Seq<CacheEntry> {
        cache_entries(self.strategy_cache)
    }

    /// The extraction rules.
    pub closed spec fn rules(&self) -> Option<ExtractionRules> {
        self.extractor.rules
    }

    /// The header pools.
    pub closed spec fn bypass(&self) -> BypassSystem {
        self.bypass_system
    }

    /// The engine's invariant: a well-formed pool, a cache of at most
    /// `STRATEGY_CACHE_SIZE` distinct domains, and non-empty header pools.
    pub closed spec fn wf(&self) -> bool {
        &&& self.buffer_pool.wf()
        &&& cache_capacity(self.strategy_cache) == STRATEGY_CACHE_SIZE
        &&& cache_ok(cache_entries(self.strategy_cache), cache_capacity(self.strategy_cache))
        &&& self.bypass_system.user_agent_pool().len() > 0
        &&& self.bypass_system.language_pool().len() > 0
    }

    /// What a well-formed engine keeps true: its strategy cache holds each
    /// domain at most once and at most `STRATEGY_CACHE_SIZE` entries, and its
    /// buffer pool is well-formed (at most `limit()` buffers, all empty).
    pub proof fn lemma_engine_invariant(&self)
        requires
            self.wf(),
        ensures
            cache_ok(self.cache(), STRATEGY_CACHE_SIZE as nat),
            self.pool().wf(),
    {
    }

    /// Whether a pooled buffer has room for `size` bytes
    /// (`BufferPool::has_fit`).
    pub fn buffer_fits(&self, size: usize) -> (r: bool)
        ensures
            r == !no_fit(self.pool().capacities(), size),
    {
        self.buffer_pool.has_fit(size)
    }

    /// An engine with the default settings and the given extraction rules.
    pub fn new(rules: Option<ExtractionRules>) -> (r: Self)
        ensures
            r.wf(),
            is_default_config(r.settings()),
            r.pool().capacities().len() == 0,
            r.pool().limit() == 64,
            r.pool().default_capacity() == 128 * 1024,
            r.stats().bytes() == 0,
            r.stats().downloads() == 0,
            r.stats().counts().dom() == Set::<Strategy>::empty(),
            r.cache().len() == 0,
            r.rules() == rules,
            r.bypass().user_agent_pool() == default_user_agents(),
            r.bypass().language_pool() == default_languages(),
    {
        Self::with_config(DownloadConfig::default(), rules)
    }

    /// An engine with the given settings and extraction rules: a buffer pool
    /// of `buffer_pool_size` buffers of `chunk_size` bytes, fresh metrics, an
    /// empty strategy cache for 100 domains, and the default header pools.
    pub fn with_config(config: DownloadConfig, rules: Option<ExtractionRules>) -> (r: Self)
        ensures
            r.wf(),
            r.settings() == config,
            r.pool().capacities().len() == 0,
            r.pool().limit() == config.buffer_pool_size,
            r.pool().default_capacity() == config.chunk_size,
            r.stats().bytes() == 0,
            r.stats().downloads() == 0,
            r.stats().counts().dom() == Set::<Strategy>::empty(),
            r.cache().len() == 0,
            r.rules() == rules,
            r.bypass().user_agent_pool() == default_user_agents(),
            r.bypass().language_pool() == default_languages(),
    {
        let buffer_pool = BufferPool::new(config.buffer_pool_size, config.chunk_size);
        let bypass_system = BypassSystem::new();
        proof {
            assert(default_user_agents().len() == 4);
            assert(default_languages().len() == 4);
        }
        LeechEngine {
            config,
            buffer_pool,
            metrics: DownloadMetrics::new(),
            strategy_cache: cache_new(STRATEGY_CACHE_SIZE),
            extractor: LinkExtractor::new(rules),
            static_analyzer: StaticAnalyzer::new(),
            bypass_system,
        }
    }

    /// The strategy to start with, when it is known without probing: the
    /// preferred one, else the one cached for the URL's domain (which then
    /// becomes the most recently used entry). `None` means the URL must be
    /// probed with a HEAD request.
    pub fn known_strategy(&mut self, preferred: Option<Strategy>, domain: Option<&str>) -> (r: Option<Strategy>)
        requires
            old(self).wf(),
        ensures
            final(self).wf(),
            r == (match preferred {
                Some(p) => Some(p),
                None => match domain {
                    Some(d) => cache_lookup(old(self).cache(), d@),
                    None => None,
                },
            }),
            final(self).cache() == (match (preferred, domain) {
                (None, Some(d)) => cache_touched(old(self).cache(), d@),
                _ => old(self).cache(),
            }),
            final(self).settings() == old(self).settings(),
            final(self).pool() == old(self).pool(),
            final(self).stats() == old(self).stats(),
            final(self).rules() == old(self).rules(),
            final(self).bypass() == old(self).bypass(),
    {
        match preferred {
            Some(p) => Some(p),
            None => match domain {
                Some(d) => cache_get(&mut self.strategy_cache, d),
                None => None,
            },
        }
    }

    /// The engine's settings.
    pub fn config(&self) -> (r: &DownloadConfig)
        ensures
            *r == self.settings(),
    {
        &self.config
    }

    /// The download totals.
    pub fn metrics(&self) -> (r: &DownloadMetrics)
        ensures
            *r == self.stats(),
    {
        &self.metrics
    }

    /// The link extractor.
    pub fn extractor(&self) -> (r: &LinkExtractor)
        ensures
            r.rules == self.rules(),
    {
        &self.extractor
    }

    /// The header generator.
    pub fn bypass_system(&self) -> (r: &BypassSystem)
        ensures
            *r == self.bypass(),
    {
        &self.bypass_system
    }

    /// The page analyzer.
    pub fn static_analyzer(&self) -> (r: &StaticAnalyzer) {
        &self.static_analyzer
    }

    /// Takes a buffer of at least `size` bytes from the pool
    /// (`BufferPool::acquire`).
    pub fn acquire_buffer(&mut self, size: usize) -> (b: BytesMut)
        requires
            old(self).wf(),
            no_fit(old(self).pool().capacities(), size) ==> size <= isize::MAX && old(self).pool().default_capacity() <= isize::MAX,
        ensures
            final(self).wf(),
            bytes_contents(b) == Seq::<u8>::empty(),
            final(self).pool().capacities() == acquired(old(self).pool().capacities(), size),
            final(self).pool().default_capacity() == old(self).pool().default_capacity(),
            final(self).pool().limit() == old(self).pool().limit(),
            !no_fit(old(self).pool().capacities(), size) ==> b == old(self).pool().buffers()[fit_index(old(self).pool().capacities(), size)]
                && final(self).pool().buffers() == old(self).pool().buffers().remove(fit_index(old(self).pool().capacities(), size)),
            no_fit(old(self).pool().capacities(), size) ==> final(self).pool() == old(self).pool()
                && made_capacity(b) == (if size >= old(self).pool().default_capacity() { size } else { old(self).pool().default_capacity() }),
            final(self).cache() == old(self).cache(),
            final(self).settings() == old(self).settings(),
    {
        self.buffer_pool.acquire(size)
    }

    /// Gives a buffer back to the pool (`BufferPool::release`).
    pub fn release_buffer(&mut self, buf: BytesMut)
        requires
            old(self).wf(),
        ensures
            final(self).wf(),
            exists|c: usize| final(self).pool().capacities() == #[trigger] released(old(self).pool().capacities(), c, old(self).pool().limit()),
            old(self).pool().capacities().len() < old(self).pool().limit() ==> final(self).pool().contents() == old(self).pool().contents().push(Seq::<u8>::empty()),
            old(self).pool().capacities().len() >= old(self).pool().limit() ==> final(self).pool() == old(self).pool(),
            old(self).pool().capacities().len() < old(self).pool().limit() ==> final(self).pool().buffers().len() == old(self).pool().buffers().len() + 1
                && final(self).pool().buffers().take(old(self).pool().buffers().len() as int) == old(self).pool().buffers()
                && (bytes_contents(buf).len() == 0 ==> final(self).pool().buffers().last() == buf
                    && final(self).pool().capacities().last() >= made_capacity(buf)),
            final(self).pool().default_capacity() == old(self).pool().default_capacity(),
            final(self).pool().limit() == old(self).pool().limit(),
            final(self).cache() == old(self).cache(),
            final(self).settings() == old(self).settings(),
    {
        let ghost before = self.buffer_pool.capacities();
        let ghost lim = self.buffer_pool.limit();
        self.buffer_pool.release(buf);
        proof {
            let c = choose|c: usize| self.buffer_pool.capacities() == #[trigger] released(before, c, lim);
            assert(self.pool().capacities() == released(old(self).pool().capacities(), c, old(self).pool().limit()));
        }
    }

    /// Copies a response body through a pooled buffer
    /// (`strategies::memory::buffer_body`): the bytes returned are the body.
    pub fn buffer_body(&mut self, content_length: Option<u64>, body: &[u8]) -> (r: Vec<u8>)
        requires
            old(self).wf(),
            body@.len() <= isize::MAX,
            no_fit(old(self).pool().capacities(), crate::strategies::memory::requested_size(content_length))
                ==> crate::strategies::memory::requested_size(content_length) <= isize::MAX
                && old(self).pool().default_capacity() <= isize::MAX,
        ensures
            r@ == body@,
            final(self).wf(),
            final(self).cache() == old(self).cache(),
            final(self).settings() == old(self).settings(),
    {
        crate::strategies::memory::buffer_body(&mut self.buffer_pool, content_length, body)
    }

    /// Records a successful download of `url`: the metrics count it under the
    /// strategy that succeeded, and that strategy is cached for the URL's
    /// domain, if it has one.
    pub fn record_success(&mut self, url: &str, domain: Option<&str>, result: &DownloadResult)
        requires
            old(self).wf(),
            old(self).stats().count_of(result.strategy_enum) < u64::MAX,
        ensures
            final(self).wf(),
            final(self).stats().bytes() == crate::metrics::wrapped_sum(old(self).stats().bytes(), result.size),
            final(self).stats().downloads() == crate::metrics::wrapped_sum(old(self).stats().downloads(), 1),
            final(self).stats().counts() == old(self).stats().counts().insert(
                result.strategy_enum,
                (old(self).stats().count_of(result.strategy_enum) + 1) as u64,
            ),
            final(self).cache() == (match domain {
                Some(d) => cache_stored(old(self).cache(), d@, result.strategy_enum, STRATEGY_CACHE_SIZE as nat),
                None => old(self).cache(),
            }),
            final(self).settings() == old(self).settings(),
            final(self).pool() == old(self).pool(),
            final(self).rules() == old(self).rules(),
            final(self).bypass() == old(self).bypass(),
    {
        self.metrics.record_download(url, result.size, result.duration, &result.strategy_enum);
        match domain {
            Some(d) => cache_put(&mut self.strategy_cache, String::from_str(d), result.strategy_enum),
            None => {},
        }
    }
}

/// Parses the URL of the media to download; `InvalidUrl` with the URL when
/// the `url` crate refuses it.
pub fn check_url(url: &str) -> (r: Result<ParsedUrl, DownloadError>)
    ensures
        r is Err == url_parts(url@) is None,
        r matches Ok(p) ==> url_parts(url@) == Some(p@),
        r matches Err(e) ==> e matches DownloadError::InvalidUrl(u) && u@ == url@,
{
    match parse_url(url) {
        Some(p) => Ok(p),
        None => Err(DownloadError::InvalidUrl(String::from_str(url))),
    }
}

/// A strategy cached for a domain is what the next lookup of that domain
/// gives back, whatever the cache held before.
pub proof fn lemma_cache_read_after_write(es: Seq<CacheEntry>, k: Seq<char>, v: Strategy, cap: nat)
    requires
        cache_ok(es, cap),
        cap > 0,
    ensures
        cache_lookup(cache_stored(es, k, v, cap), k) == Some(v),
        cache_ok(cache_stored(es, k, v, cap), cap),
        cache_stored(es, k, v, cap)[0] == (k, v),
{
    let r = cache_stored(es, k, v, cap);
    assert(r[0] == (k, v));
    if cached(es, k) {
        let i = cache_pos(es, k);
        assert(es.remove(i).len() == es.len() - 1);
        assert forall|a: int, b: int| 0 <= a < r.len() && 0 <= b < r.len() && (#[trigger] r[a]).0 == (#[trigger] r[b]).0 implies a == b by {
            if a > 0 && b > 0 {
                let a1 = if a - 1 < i { a - 1 } else { a };
                let b1 = if b - 1 < i { b - 1 } else { b };
                assert(r[a] == es[a1]);
                assert(r[b] == es[b1]);
            } else if a == 0 && b > 0 {
                let b1 = if b - 1 < i { b - 1 } else { b };
                assert(r[b] == es[b1]);
                assert(es[b1].0 == es[i].0);
            } else if b == 0 && a > 0 {
                let a1 = if a - 1 < i { a - 1 } else { a };
                assert(r[a] == es[a1]);
                assert(es[a1].0 == es[i].0);
            }
        }
    } else {
        let rest = if es.len() >= cap { es.drop_last() } else { es };
        assert(r == seq![(k, v)] + rest);
        assert forall|a: int, b: int| 0 <= a < r.len() && 0 <= b < r.len() && (#[trigger] r[a]).0 == (#[trigger] r[b]).0 implies a == b by {
            if a > 0 && b > 0 {
                assert(r[a] == es[a - 1]);
                assert(r[b] == es[b - 1]);
            } else if a == 0 && b > 0 {
                assert(r[b] == es[b - 1]);
            } else if b == 0 && a > 0 {
                assert(r[a] == es[a - 1]);
            }
        }
    }
    assert(cached(r, k));
    let j = cache_pos(r, k);
    assert(r[j].0 == r[0].0);
}


/// No domain occurs twice.
spec fn distinct_keys(es: Seq<CacheEntry>) -> bool {
    forall|i: int, j: int| 0 <= i < es.len() && 0 <= j < es.len() && (#[trigger] es[i]).0 == (#[trigger] es[j]).0 ==> i == j
}

/// An entry for another domain put in front leaves the lookup of `d` as it was.
proof fn lemma_lookup_front(rest: Seq<CacheEntry>, x: CacheEntry, d: Seq<char>)
    requires
        x.0 != d,
        distinct_keys(seq![x] + rest),
    ensures
        cache_lookup(seq![x] + rest, d) == cache_lookup(rest, d),
{
    let r = seq![x] + rest;
    if cached(rest, d) {
        let j = cache_pos(rest, d);
        assert(r[j + 1] == rest[j]);
        assert(cached(r, d));
        let p = cache_pos(r, d);
        assert(r[p].0 == r[j + 1].0);
    } else if cached(r, d) {
        let p = cache_pos(r, d);
        assert(p != 0);
        assert(r[p] == rest[p - 1]);
    }
}

/// Removing an entry for another domain leaves the lookup of `d` as it was,
/// and the domains distinct.
proof fn lemma_lookup_remove(es: Seq<CacheEntry>, i: int, d: Seq<char>)
    requires
        distinct_keys(es),
        0 <= i < es.len(),
        es[i].0 != d,
    ensures
        cache_lookup(es.remove(i), d) == cache_lookup(es, d),
        distinct_keys(es.remove(i)),
{
    let r = es.remove(i);
    assert forall|a: int, b: int| 0 <= a < r.len() && 0 <= b < r.len() && (#[trigger] r[a]).0 == (#[trigger] r[b]).0 implies a == b by {
        let a1 = if a < i { a } else { a + 1 };
        let b1 = if b < i { b } else { b + 1 };
        assert(r[a] == es[a1]);
        assert(r[b] == es[b1]);
    }
    if cached(es, d) {
        let p = cache_pos(es, d);
        assert(p != i);
        let q = if p < i { p } else { p - 1 };
        assert(r[q] == es[p]);
        assert(cached(r, d));
        let p2 = cache_pos(r, d);
        let p3 = if p2 < i { p2 } else { p2 + 1 };
        assert(r[p2] == es[p3]);
        assert(es[p3].0 == es[p].0);
    } else if cached(r, d) {
        let p2 = cache_pos(r, d);
        let p3 = if p2 < i { p2 } else { p2 + 1 };
        assert(r[p2] == es[p3]);
    }
}

/// Whether storing `k` in the cache evicts its least recently used entry: `k`
/// is new and the cache is full.
pub open spec fn store_evicts(es: Seq<CacheEntry>, k: Seq<char>, cap: nat) -> bool {
    !cached(es, k) && es.len() >= cap
}

/// What a domain `d` is cached with survives the lookups and stores of other
/// domains: a lookup of `k` keeps the cache well-formed and changes no
/// other domain's strategy, and so does a store for `k`, unless it evicts
/// `d` as the least recently used entry of a full cache.
pub proof fn lemma_cache_other_key(es: Seq<CacheEntry>, d: Seq<char>, k: Seq<char>, v: Strategy, cap: nat)
    requires
        cache_ok(es, cap),
        cap > 0,
        k != d,
    ensures
        cache_ok(cache_touched(es, k), cap),
        cache_lookup(cache_touched(es, k), d) == cache_lookup(es, d),
        cache_ok(cache_stored(es, k, v, cap), cap),
        !(store_evicts(es, k, cap) && es.last().0 == d) ==> cache_lookup(cache_stored(es, k, v, cap), d) == cache_lookup(es, d),
{
    assert(distinct_keys(es));
    lemma_cache_read_after_write(es, k, v, cap);
    if cached(es, k) {
        let i = cache_pos(es, k);
        lemma_lookup_remove(es, i, d);
        let rest = es.remove(i);
        let t = seq![es[i]] + rest;
        assert(distinct_keys(t)) by {
            assert forall|a: int, b: int| 0 <= a < t.len() && 0 <= b < t.len() && (#[trigger] t[a]).0 == (#[trigger] t[b]).0 implies a == b by {
                if a > 0 && b > 0 {
                    assert(t[a] == rest[a - 1]);
                    assert(t[b] == rest[b - 1]);
                } else if a == 0 && b > 0 {
                    let b1 = if b - 1 < i { b - 1 } else { b };
                    assert(t[b] == es[b1]);
                } else if b == 0 && a > 0 {
                    let a1 = if a - 1 < i { a - 1 } else { a };
                    assert(t[a] == es[a1]);
                }
            }
        }
        assert(cache_touched(es, k) == t);
        lemma_lookup_front(rest, es[i], d);
        let st = seq![(k, v)] + rest;
        assert(cache_stored(es, k, v, cap) == st);
        assert(distinct_keys(st));
        lemma_lookup_front(rest, (k, v), d);
    } else {
        assert(cache_touched(es, k) == es);
        let st = cache_stored(es, k, v, cap);
        assert(distinct_keys(st));
        if es.len() >= cap {
            if es.last().0 != d {
                let n = es.len() - 1;
                lemma_lookup_remove(es, n, d);
                assert(es.drop_last() =~= es.remove(n));
                lemma_lookup_front(es.drop_last(), (k, v), d);
            }
        } else {
            lemma_lookup_front(es, (k, v), d);
        }
    }
}

/// A lookup of `d` itself keeps the cache well-formed and `d`'s strategy.
proof fn lemma_cache_touch_same(es: Seq<CacheEntry>, d: Seq<char>, cap: nat)
    requires
        cache_ok(es, cap),
        cap > 0,
    ensures
        cache_ok(cache_touched(es, d), cap),
        cache_lookup(cache_touched(es, d), d) == cache_lookup(es, d),
{
    let other = d + seq!['.'];
    assert(other.len() != d.len());
    lemma_cache_other_key(es, other, d, Strategy::StreamToDisk, cap);
    if cached(es, d) {
        let i = cache_pos(es, d);
        let t = cache_touched(es, d);
        assert(t[0] == es[i]);
        assert(cached(t, d));
        let p = cache_pos(t, d);
        assert(t[p].0 == t[0].0);
    }
}

/// One use of the strategy cache: a lookup of a domain (`None`) or a store
/// of a strategy for it.
pub type CacheOp = (Seq<char>, Option<Strategy>);

/// The cache after one use.
pub open spec fn cache_apply(es: Seq<CacheEntry>, op: CacheOp, cap: nat) -> Seq<CacheEntry> {
    match op.1 {
        None => cache_touched(es, op.0),
        Some(v) => cache_stored(es, op.0, v, cap),
    }
}

/// The cache after the uses `ops`, in order.
pub open spec fn cache_run(es: Seq<CacheEntry>, ops: Seq<CacheOp>, cap: nat) -> Seq<CacheEntry>
    decreases ops.len(),
{
    if ops.len() == 0 {
        es
    } else {
        cache_apply(cache_run(es, ops.drop_last(), cap), ops.last(), cap)
    }
}

/// Domain `d` stays among the cached domains through `ops`: no store of a
/// new domain into the full cache evicts it as the least recently used.
pub open spec fn keeps_domain(es: Seq<CacheEntry>, ops: Seq<CacheOp>, cap: nat, d: Seq<char>) -> bool
    decreases ops.len(),
{
    if ops.len() == 0 {
        true
    } else {
        let before = cache_run(es, ops.drop_last(), cap);
        &&& keeps_domain(es, ops.drop_last(), cap, d)
        &&& !(ops.last().1 is Some && store_evicts(before, ops.last().0, cap) && before.last().0 == d)
    }
}

/// The strategy recorded for a domain is what the cache gives back for it
/// later: after `record_success` stores `s` for `d`, any lookups, and any
/// stores for other domains, that leave `d` among the cached domains, a
/// lookup of `d` (`known_strategy` with no preferred strategy) finds `s`, and
/// no probe is needed.
pub proof fn lemma_recorded_strategy_found(es: Seq<CacheEntry>, d: Seq<char>, s: Strategy, ops: Seq<CacheOp>, cap: nat)
    requires
        cache_ok(es, cap),
        cap > 0,
        forall|i: int| 0 <= i < ops.len() && (#[trigger] ops[i]).0 == d ==> ops[i].1 is None,
        keeps_domain(cache_stored(es, d, s, cap), ops, cap, d),
    ensures
        cache_ok(cache_run(cache_stored(es, d, s, cap), ops, cap), cap),
        cache_lookup(cache_run(cache_stored(es, d, s, cap), ops, cap), d) == Some(s),
    decreases ops.len(),
{
    lemma_cache_read_after_write(es, d, s, cap);
    if ops.len() > 0 {
        let init = cache_stored(es, d, s, cap);
        let rest = ops.drop_last();
        assert forall|i: int| 0 <= i < rest.len() && (#[trigger] rest[i]).0 == d implies rest[i].1 is None by {
            assert(rest[i] == ops[i]);
        }
        lemma_recorded_strategy_found(es, d, s, rest, cap);
        let before = cache_run(init, rest, cap);
        let op = ops.last();
        assert(op == ops[ops.len() - 1]);
        match op.1 {
            None => {
                if op.0 == d {
                    lemma_cache_touch_same(before, d, cap);
                } else {
                    lemma_cache_other_key(before, d, op.0, Strategy::StreamToDisk, cap);
                }
            },
            Some(v) => {
                lemma_cache_other_key(before, d, op.0, v, cap);
            },
        }
    }
}

/// The strategy attempt `k` (from 1) uses when every earlier attempt failed.
pub open spec fn strategy_of_attempt(initial: Strategy, k: nat) -> Strategy {
    if k <= 1 {
        initial
    } else {
        downgraded(initial)
    }
}

/// The retry schedule of a download whose attempts keep failing: attempts 1
/// to `max_retries` are each followed by a retry, attempt `max_retries + 1`
/// by giving up, so at most `max_retries + 1` attempts are made; every retry
/// after the first attempt uses the downgraded strategy (never the parallel
/// one); the pause starts at 500 ms and doubles with each attempt.
pub proof fn lemma_retry_schedule(initial: Strategy, max_retries: u32, k: u32)
    requires
        1 <= k,
    ensures
        k <= max_retries ==> failure_step(k, strategy_of_attempt(initial, k as nat), max_retries) == (AfterFailure::Retry {
            delay_ms: backoff_ms(k as nat) as u64,
            strategy: strategy_of_attempt(initial, (k + 1) as nat),
        }),
        k > max_retries ==> failure_step(k, strategy_of_attempt(initial, k as nat), max_retries) == (AfterFailure::GiveUp { attempts: k }),
        k >= 2 ==> strategy_of_attempt(initial, k as nat) != Strategy::ParallelChunks,
        backoff_ms(1) == 500,
        backoff_ms((k + 1) as nat) == 2 * backoff_ms(k as nat),
{
    assert(downgraded(downgraded(initial)) == downgraded(initial));
}

} // verus!
