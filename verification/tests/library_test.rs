use leech_core::buffer::BufferPool;
use leech_core::bypass::BypassSystem;
use leech_core::config::{parse_strategy_param, DownloadConfig, Span, Strategy};
use leech_core::engine::{after_failure, check_url, select_strategy, strategy_from_head, AfterFailure, LeechEngine};
use leech_core::error::{DownloadError, DownloadResult};
use leech_core::extractor::{
    after_step, apply_rules, apply_rules_checked, clean_link, direct_media, find_media_link, is_direct_link,
    media_link_of, mediafire_media, player_json_of, rule_link, select_stream, youtube_media, Category,
    ExtractedMedia, ExtractionRules, ExtractionStep, LinkExtractor, PlatformConfig, PlayerResponse, StepResult,
    StreamFormat,
};
use leech_core::metrics::DownloadMetrics;
use leech_core::static_analysis::{assign_from_matches, links_of_elements, match_text, match_texts, LinkAttrs, StaticAnalyzer};
use leech_core::strategies::memory::buffer_body;
use leech_core::strategies::parallel::{check_head, chunk_count_for, plan_chunks, ChunkRange, HeadRefusal};
use leech_core::strategies::HeadInfo;
use leech_core::tcp_optimizer::OptimizedClientBuilder;
use leech_core::text::{chars_of, parse_u64, replace_all};

fn head(success: bool, len: Option<&str>, ranges: Option<&str>) -> HeadInfo {
    HeadInfo {
        success,
        content_length: len.map(|s| s.to_string()),
        accept_ranges: ranges.map(|s| s.to_string()),
        content_type: None,
    }
}

fn result_with(strategy: Strategy, size: u64) -> DownloadResult {
    DownloadResult {
        data: vec![1, 2, 3],
        path: None,
        size,
        duration: Span { secs: 0, nanos: 10_000_000 },
        strategy: "memory".to_string(),
        strategy_enum: strategy,
    }
}

#[test]
fn default_config_values() {
    let c = DownloadConfig::default();
    assert_eq!(c.max_concurrent_chunks, 8);
    assert_eq!(c.buffer_pool_size, 64);
    assert_eq!(c.chunk_size, 128 * 1024);
    assert_eq!(c.timeout, Span { secs: 30, nanos: 0 });
    assert_eq!(c.pool_idle_timeout, Some(Span { secs: 90, nanos: 0 }));
    assert_eq!(c.max_retries, 3);
    assert_eq!(c.user_agent, "LeechEngine/1.0.0 (Faster, Less-Memory Downloader)");
    assert!(!c.debug);
}

#[test]
fn strategy_param_ignores_case() {
    assert_eq!(parse_strategy_param("MeMoRy"), Some(Strategy::MemoryBuffered));
    assert_eq!(parse_strategy_param("stream"), Some(Strategy::StreamToDisk));
    assert_eq!(parse_strategy_param("PARALLEL"), Some(Strategy::ParallelChunks));
    assert_eq!(parse_strategy_param("parallels"), None);
    assert_eq!(parse_strategy_param(""), None);
}

#[test]
fn parse_u64_accepts_decimal_only() {
    assert_eq!(parse_u64(&chars_of("12345")), Some(12345));
    assert_eq!(parse_u64(&chars_of("+7")), Some(7));
    assert_eq!(parse_u64(&chars_of("18446744073709551615")), Some(u64::MAX));
    assert_eq!(parse_u64(&chars_of("18446744073709551616")), None);
    assert_eq!(parse_u64(&chars_of("")), None);
    assert_eq!(parse_u64(&chars_of("+")), None);
    assert_eq!(parse_u64(&chars_of("-1")), None);
    assert_eq!(parse_u64(&chars_of("1a")), None);
}

#[test]
fn replace_all_scans_left_to_right() {
    let r = replace_all(&chars_of("aaa"), &chars_of("aa"), &chars_of("b"));
    assert_eq!(r, chars_of("ba"));
    let r = replace_all(&chars_of("x&amp;y&amp;"), &chars_of("&amp;"), &chars_of("&"));
    assert_eq!(r, chars_of("x&y&"));
}

#[test]
fn chunk_plan_small_file() {
    assert_eq!(plan_chunks(0), Vec::<ChunkRange>::new());
    assert_eq!(plan_chunks(1), vec![ChunkRange { start: 0, end: 0 }]);
    assert_eq!(plan_chunks(3), vec![ChunkRange { start: 0, end: 1 }, ChunkRange { start: 2, end: 2 }]);
    assert_eq!(plan_chunks(10), vec![ChunkRange { start: 0, end: 4 }, ChunkRange { start: 5, end: 9 }]);
}

#[test]
fn chunk_plan_partitions_large_files() {
    let mib = 1024 * 1024u64;
    assert_eq!(chunk_count_for(10 * mib - 1), 2);
    assert_eq!(chunk_count_for(10 * mib), 4);
    assert_eq!(chunk_count_for(100 * mib), 8);
    for total in [10 * mib + 3, 100 * mib + 5, 7, 1_000_001, u64::MAX] {
        let plan = plan_chunks(total);
        assert!(plan.len() as u64 <= chunk_count_for(total));
        assert_eq!(plan[0].start, 0);
        assert_eq!(plan[plan.len() - 1].end, total - 1);
        for w in plan.windows(2) {
            assert_eq!(w[1].start, w[0].end + 1);
        }
    }
    let plan = plan_chunks(40 * mib);
    assert_eq!(plan.len(), 4);
    assert_eq!(plan[1], ChunkRange { start: 10 * mib, end: 20 * mib - 1 });
}

#[test]
fn head_check_refusals() {
    assert_eq!(check_head(&head(false, Some("10"), Some("bytes"))), Err(HeadRefusal::HeadFailed));
    assert_eq!(check_head(&head(true, None, Some("bytes"))), Err(HeadRefusal::LengthMissing));
    assert_eq!(check_head(&head(true, Some("ten"), Some("bytes"))), Err(HeadRefusal::LengthMissing));
    assert_eq!(check_head(&head(true, Some("10"), Some("none"))), Err(HeadRefusal::NoRangeSupport));
    assert_eq!(check_head(&head(true, Some("10"), None)), Err(HeadRefusal::NoRangeSupport));
    assert_eq!(check_head(&head(true, Some("10"), Some("bytes"))), Ok(10));
}

#[test]
fn strategy_selection_by_size() {
    let mib = 1024 * 1024u64;
    assert_eq!(select_strategy(None, true), Strategy::StreamToDisk);
    assert_eq!(select_strategy(Some(0), true), Strategy::MemoryBuffered);
    assert_eq!(select_strategy(Some(5 * mib - 1), false), Strategy::MemoryBuffered);
    assert_eq!(select_strategy(Some(5 * mib), true), Strategy::StreamToDisk);
    assert_eq!(select_strategy(Some(10 * mib), true), Strategy::StreamToDisk);
    assert_eq!(select_strategy(Some(10 * mib + 1), true), Strategy::ParallelChunks);
    assert_eq!(select_strategy(Some(10 * mib + 1), false), Strategy::StreamToDisk);
    assert_eq!(strategy_from_head(&Some(head(true, Some("0"), Some("bytes")))), Strategy::MemoryBuffered);
    assert_eq!(strategy_from_head(&Some(head(true, None, Some("bytes")))), Strategy::StreamToDisk);
    assert_eq!(strategy_from_head(&None), Strategy::StreamToDisk);
    assert_eq!(strategy_from_head(&Some(head(true, Some("1024"), None))), Strategy::MemoryBuffered);
    assert_eq!(strategy_from_head(&Some(head(true, Some("20971520"), Some("bytes")))), Strategy::ParallelChunks);
    assert_eq!(strategy_from_head(&Some(head(false, Some("junk"), Some("bytes")))), Strategy::StreamToDisk);
}

#[test]
fn retry_schedule_backs_off_and_downgrades() {
    assert_eq!(after_failure(1, Strategy::ParallelChunks, 3), AfterFailure::Retry { delay_ms: 500, strategy: Strategy::StreamToDisk });
    assert_eq!(after_failure(2, Strategy::StreamToDisk, 3), AfterFailure::Retry { delay_ms: 1000, strategy: Strategy::StreamToDisk });
    assert_eq!(after_failure(3, Strategy::MemoryBuffered, 3), AfterFailure::Retry { delay_ms: 2000, strategy: Strategy::MemoryBuffered });
    assert_eq!(after_failure(4, Strategy::MemoryBuffered, 3), AfterFailure::GiveUp { attempts: 4 });
    assert_eq!(after_failure(1, Strategy::ParallelChunks, 0), AfterFailure::GiveUp { attempts: 1 });
    assert_eq!(after_failure(56, Strategy::MemoryBuffered, 60), AfterFailure::Retry { delay_ms: 500 * (1u64 << 55), strategy: Strategy::MemoryBuffered });
}

#[test]
fn buffer_pool_reuses_released_buffers() {
    let mut pool = BufferPool::new(1, 16);
    let b = pool.acquire(8);
    assert!(b.is_empty());
    assert!(b.capacity() >= 16);
    pool.release(b);
    let again = pool.acquire(4);
    assert!(again.capacity() >= 16);
    let other = pool.acquire(4);
    assert!(other.capacity() >= 16);
    pool.release(again);
    pool.release(other);
    pool.clear();
    let fresh = pool.acquire(100);
    assert!(fresh.capacity() >= 100);
}

#[test]
fn buffer_body_returns_the_body() {
    let mut pool = BufferPool::new(4, 8);
    let out = buffer_body(&mut pool, Some(5), b"hello");
    assert_eq!(out, b"hello".to_vec());
    let out = buffer_body(&mut pool, None, b"");
    assert!(out.is_empty());
}

#[test]
fn metrics_count_downloads() {
    let mut m = DownloadMetrics::new();
    m.record_download("u", 10, Span::from_secs(5), &Strategy::MemoryBuffered);
    m.record_download("u", u64::MAX, Span::from_secs(5), &Strategy::StreamToDisk);
    assert_eq!(m.get_total_downloads(), 2);
    assert_eq!(m.get_total_bytes(), 9);
}

#[test]
fn engine_cache_gives_back_recorded_strategy() {
    let mut e = LeechEngine::new(None);
    assert_eq!(e.known_strategy(None, Some("example.com")), None);
    e.record_success("https://example.com/f", Some("example.com"), &result_with(Strategy::ParallelChunks, 7));
    assert_eq!(e.known_strategy(None, Some("example.com")), Some(Strategy::ParallelChunks));
    assert_eq!(e.known_strategy(Some(Strategy::MemoryBuffered), Some("example.com")), Some(Strategy::MemoryBuffered));
    assert_eq!(e.known_strategy(None, None), None);
    assert_eq!(e.metrics().get_total_bytes(), 7);
    assert_eq!(e.metrics().get_total_downloads(), 1);
    assert_eq!(e.config().max_retries, 3);
}

#[test]
fn engine_cache_evicts_least_recent() {
    let mut e = LeechEngine::new(None);
    for i in 0..101 {
        let d = format!("d{}.com", i);
        e.record_success("u", Some(&d), &result_with(Strategy::StreamToDisk, 1));
    }
    assert_eq!(e.known_strategy(None, Some("d0.com")), None);
    assert_eq!(e.known_strategy(None, Some("d1.com")), Some(Strategy::StreamToDisk));
}

#[test]
fn url_check() {
    match check_url("not a url") {
        Err(DownloadError::InvalidUrl(u)) => assert_eq!(u, "not a url"),
        _ => panic!("expected InvalidUrl"),
    }
    let p = check_url("https://Example.com/a?b=1").unwrap();
    assert_eq!(p.host.as_deref(), Some("example.com"));
    assert_eq!(p.domain.as_deref(), Some("example.com"));
    assert_eq!(p.text, "https://example.com/a?b=1");
    let ip = check_url("http://127.0.0.1/x").unwrap();
    assert_eq!(ip.domain, None);
}

#[test]
fn bypass_headers_are_browser_like() {
    let b = BypassSystem::new();
    let h = b.generate_headers("https://example.com/video.mp4");
    let get = |n: &str| h.iter().find(|(k, _)| k == n).map(|(_, v)| v.clone());
    assert_eq!(get("referer"), Some("https://example.com/".to_string()));
    assert!(get("user-agent").unwrap().starts_with("Mozilla/5.0"));
    assert_eq!(get("dnt"), Some("1".to_string()));
    assert_eq!(get("via"), Some("1.1 vegur".to_string()));
    let xff = get("x-forwarded-for").unwrap();
    let octets: Vec<u32> = xff.split('.').map(|o| o.parse().unwrap()).collect();
    assert_eq!(octets.len(), 4);
    assert!(octets.iter().all(|o| (1..255).contains(o)));
    let mut names: Vec<&String> = h.iter().map(|(k, _)| k).collect();
    names.sort();
    names.dedup();
    assert_eq!(names.len(), h.len());
    let no_host = b.generate_headers("nonsense");
    assert!(no_host.iter().all(|(k, _)| k != "referer"));
    assert_eq!(no_host.len(), h.len() - 1);
}

#[test]
fn timezone_and_location() {
    let b = BypassSystem::new();
    let tz = b.get_random_timezone();
    assert!(["UTC", "America/New_York", "Europe/London", "Asia/Tokyo"].contains(&tz.as_str()));
    let loc = b.get_spoofed_location();
    assert_eq!(loc[0], ("lat".to_string(), "40.7128".to_string()));
    assert_eq!(loc[1], ("lon".to_string(), "-74.0060".to_string()));
    assert_eq!(loc[2], ("city".to_string(), "New York".to_string()));
}

#[test]
fn client_settings_from_config() {
    let s = OptimizedClientBuilder::new(DownloadConfig::default()).settings();
    assert_eq!(s.timeout, Span { secs: 30, nanos: 0 });
    assert_eq!(s.pool_idle_timeout, Span { secs: 90, nanos: 0 });
    assert_eq!(s.pool_max_idle_per_host, 32);
    assert_eq!(s.tcp_keepalive, Span { secs: 60, nanos: 0 });
    assert!(s.tcp_nodelay && s.accept_invalid_certs && s.no_proxy && s.cookie_store);
    let mut c = DownloadConfig::default();
    c.pool_idle_timeout = None;
    assert_eq!(OptimizedClientBuilder::new(c).settings().pool_idle_timeout, Span { secs: 90, nanos: 0 });
    let mut c = DownloadConfig::default();
    c.timeout = Span { secs: 1, nanos: 250_001 };
    c.pool_idle_timeout = Some(Span { secs: 0, nanos: 999_999_999 });
    let s = OptimizedClientBuilder::new(c).settings();
    assert_eq!(s.timeout, Span { secs: 1, nanos: 250_001 });
    assert_eq!(s.pool_idle_timeout, Span { secs: 0, nanos: 999_999_999 });
}

#[test]
fn links_by_css_selector() {
    let a = StaticAnalyzer::new();
    let html = r#"<a href="/one">x</a><img src="/two.png"><meta content="three"><a>none</a>"#;
    let links = a.extract_links(html, &["a", "img", "meta"]).unwrap();
    assert_eq!(links, vec!["/one", "/two.png", "three"]);
    assert_eq!(a.extract_links_checked(html, &["a[", "img"]).is_none(), true);
    let checked = a.extract_links_checked(html, &["img"]).unwrap().unwrap();
    assert_eq!(checked, vec!["/two.png"]);
}

#[test]
fn js_patterns_pick_group_or_match() {
    let a = StaticAnalyzer::new();
    let html = "file=a.mp4; file=b.mp4; id=42";
    let r = a.extract_with_js_patterns(html, &[r"file=(\w+)\.mp4", r"id=\d+", "(unclosed"]);
    assert_eq!(r, vec!["a", "b", "id=42"]);
}

#[test]
fn js_vars_later_values_win() {
    let a = StaticAnalyzer::new();
    let html = r#"var host = "https://cdn.example"; let path = "/f.mp4"; {"path": "/g.mp4", token: "abc"}"#;
    let vars = a.scrape_js_vars(html);
    let get = |n: &str| vars.iter().find(|(k, _)| k == n).map(|(_, v)| v.clone());
    assert_eq!(get("host"), Some("https://cdn.example".to_string()));
    assert_eq!(get("path"), Some("/g.mp4".to_string()));
    assert_eq!(get("token"), Some("abc".to_string()));
    assert_eq!(vars.iter().filter(|(k, _)| k == "path").count(), 1);
    assert_eq!(a.reconstruct_url_from_js(html), Some("https://cdn.example/g.mp4?token=abc".to_string()));
    let with_query = r#"var base_url = "https://x.io/get?id=1"; var slug = "&f=2"; var k = "z";"#;
    assert_eq!(a.reconstruct_url_from_js(with_query), Some("https://x.io/get?id=1&f=2&token=z".to_string()));
    assert_eq!(a.reconstruct_url_from_js("var host = \"h\";"), None);
}

#[test]
fn direct_links() {
    assert!(is_direct_link("https://a.b/file.mp4"));
    assert!(is_direct_link("https://a.b/file.zip?x=1"));
    assert!(is_direct_link("https://a.b/f.tar.gz"));
    assert!(!is_direct_link("https://a.b/watch?v=1"));
    assert!(!is_direct_link("https://a.b/file.mp4x"));
}

fn rules() -> ExtractionRules {
    ExtractionRules {
        categories: vec![Category {
            platforms: vec![
                PlatformConfig {
                    name: "insta".to_string(),
                    domains: vec!["instagram.com".to_string()],
                    patterns: vec![r#""video_url":"([^"]+)""#.to_string()],
                    ua: None,
                },
                PlatformConfig {
                    name: "other".to_string(),
                    domains: vec!["gram.com".to_string()],
                    patterns: vec![],
                    ua: Some("UA".to_string()),
                },
            ],
        }],
    }
}

#[test]
fn extraction_plans() {
    let x = LinkExtractor::new(Some(rules()));
    assert_eq!(x.plan("HTTPS://A.B/FILE.MP4"), vec![ExtractionStep::Direct]);
    assert_eq!(x.plan("https://www.YouTube.com/watch?v=1"), vec![ExtractionStep::YouTube]);
    assert_eq!(
        x.plan("https://Instagram.com/p/1"),
        vec![
            ExtractionStep::Platform { category: 0, platform: 0 },
            ExtractionStep::Platform { category: 0, platform: 1 },
            ExtractionStep::Generic
        ]
    );
    assert_eq!(x.plan("https://mediafire.com/f"), vec![ExtractionStep::Mediafire]);
    assert_eq!(LinkExtractor::new(None).plan("https://site.org/page"), vec![ExtractionStep::Generic]);
}

#[test]
fn rules_unescape_links() {
    let r = rules();
    let p = &r.categories[0].platforms[0];
    let html = r#"{"video_url":"https:\/\/cdn.x\/v.mp4?a=1\u0026b=2&amp;c=3"}"#;
    let m = apply_rules(html, p).unwrap();
    assert_eq!(m.url, "https://cdn.x/v.mp4?a=1&b=2&c=3");
    assert!(!m.is_direct);
    assert!(m.title.is_none());
    match apply_rules("nothing", p) {
        Err(DownloadError::Anyhow(msg)) => assert_eq!(msg, "Rule extraction failed for insta"),
        _ => panic!("expected failure"),
    }
    let odd = PlatformConfig { name: "o".to_string(), domains: vec![], patterns: vec!["(a)|b".to_string()], ua: None };
    assert!(apply_rules_checked("b", &odd).is_none());
    assert_eq!(clean_link(r"a\/b"), "a/b");
}

#[test]
fn generic_media_search() {
    let m = find_media_link(r#"<a href="https://x.org/files/clip.mp4?dl=1">go</a>"#).unwrap();
    assert_eq!(m.url, "https://x.org/files/clip.mp4?dl=1");
    match find_media_link("<p>no media</p>") {
        Err(DownloadError::Anyhow(msg)) => assert_eq!(msg, "Could not find any media links on the page"),
        _ => panic!("expected failure"),
    }
}

#[test]
fn youtube_player_parsing() {
    let page = r#"<script>var ytInitialPlayerResponse = {"videoDetails":{"title":"Clip"},"streamingData":{"formats":[{"itag":1},{"url":"https://v.example/1"}]}};</script>"#;
    let m = youtube_media(page).unwrap();
    assert_eq!(m.url, "https://v.example/1");
    assert_eq!(m.title.as_deref(), Some("Clip"));
    assert!(m.is_direct);
    let ciphered = r#"var ytInitialPlayerResponse = {"streamingData":{"formats":[{"signatureCipher":"s=1"},{"url":"u"}]}};"#;
    match youtube_media(ciphered) {
        Err(DownloadError::Anyhow(msg)) => assert_eq!(msg, "Encrypted signature not supported in lightweight mode"),
        _ => panic!("expected cipher error"),
    }
    match youtube_media("<html></html>") {
        Err(DownloadError::Anyhow(msg)) => assert_eq!(msg, "Could not find ytInitialPlayerResponse JSON"),
        _ => panic!("expected missing JSON"),
    }
    match youtube_media("var ytInitialPlayerResponse = {nope};") {
        Err(DownloadError::Anyhow(msg)) => assert!(msg.starts_with("JSON Parse Error: ")),
        _ => panic!("expected parse error"),
    }
    match youtube_media(r#"var ytInitialPlayerResponse = {"videoDetails":{}};"#) {
        Err(DownloadError::Anyhow(msg)) => assert_eq!(msg, "No valid streaming URL found in JSON"),
        _ => panic!("expected no stream"),
    }
}

#[test]
fn engine_new_has_default_settings() {
    let e = LeechEngine::new(None);
    let c = e.config();
    assert_eq!(c.max_concurrent_chunks, 8);
    assert_eq!(c.buffer_pool_size, 64);
    assert_eq!(c.chunk_size, 128 * 1024);
    assert_eq!(c.timeout, Span::from_secs(30));
    assert_eq!(c.pool_idle_timeout, Some(Span::from_secs(90)));
    assert_eq!(c.max_retries, 3);
    assert_eq!(c.user_agent, "LeechEngine/1.0.0 (Faster, Less-Memory Downloader)");
    assert!(!c.debug);
    assert_eq!(e.metrics().get_total_downloads(), 0);
    assert_eq!(e.metrics().strategy_count(Strategy::StreamToDisk), 0);
    assert!(!e.buffer_fits(1));
}

fn media(url: &str) -> ExtractedMedia {
    ExtractedMedia { url: url.to_string(), title: None, is_direct: false }
}

#[test]
fn step_outcomes_decide_the_search() {
    let platform = ExtractionStep::Platform { category: 0, platform: 1 };
    assert!(matches!(after_step(platform, Err(DownloadError::Unknown)), StepResult::Continue));
    match after_step(platform, Ok(media("https://m/1"))) {
        StepResult::Finish(Ok(m)) => assert_eq!(m.url, "https://m/1"),
        _ => panic!("a platform's success ends the search"),
    }
    match after_step(ExtractionStep::Generic, Err(DownloadError::Anyhow("none".to_string()))) {
        StepResult::Finish(Err(DownloadError::Anyhow(msg))) => assert_eq!(msg, "none"),
        _ => panic!("the generic step ends the search with its error"),
    }
    match after_step(ExtractionStep::YouTube, Ok(media("https://y"))) {
        StepResult::Finish(Ok(m)) => assert_eq!(m.url, "https://y"),
        _ => panic!("the YouTube step ends the search"),
    }
    let d = direct_media("HTTPS://A.B/FILE.MP4");
    assert_eq!(d.url, "HTTPS://A.B/FILE.MP4");
    assert!(d.is_direct && d.title.is_none());
    match mediafire_media("https://mediafire.com/f") {
        Err(DownloadError::Anyhow(msg)) => assert_eq!(msg, "Mediafire extraction placeholder"),
        _ => panic!("expected the placeholder error"),
    }
    match after_step(ExtractionStep::Mediafire, mediafire_media("https://mediafire.com/f")) {
        StepResult::Finish(Err(DownloadError::Anyhow(msg))) => assert_eq!(msg, "Mediafire extraction placeholder"),
        _ => panic!("the Mediafire step ends the search"),
    }
}

#[test]
fn pool_keeps_at_most_its_limit() {
    let mut pool = BufferPool::new(1, 16);
    assert!(!pool.has_fit(1));
    let a = pool.acquire(8);
    let b = pool.acquire(32);
    pool.release(b);
    assert!(pool.has_fit(32));
    assert!(!pool.has_fit(usize::MAX));
    pool.release(a);
    let again = pool.acquire(32);
    assert!(again.capacity() >= 32);
    assert!(again.is_empty());
    assert!(!pool.has_fit(1));
    let mut full = BufferPool::new(0, 4);
    full.release(again);
    assert!(!full.has_fit(0));
}

#[test]
fn metrics_do_not_depend_on_order() {
    let calls = [(5u64, Strategy::MemoryBuffered), (u64::MAX, Strategy::StreamToDisk), (7, Strategy::MemoryBuffered)];
    let mut forward = DownloadMetrics::new();
    for (size, s) in calls.iter() {
        forward.record_download("u", *size, Span::from_secs(1), s);
    }
    let mut backward = DownloadMetrics::new();
    for (size, s) in calls.iter().rev() {
        backward.record_download("u", *size, Span { secs: 0, nanos: 1 }, s);
    }
    assert_eq!(forward.get_total_downloads(), 3);
    assert_eq!(forward.get_total_bytes(), 11);
    assert_eq!(backward.get_total_bytes(), forward.get_total_bytes());
    assert_eq!(forward.strategy_count(Strategy::MemoryBuffered), 2);
    assert_eq!(backward.strategy_count(Strategy::MemoryBuffered), 2);
    assert_eq!(backward.strategy_count(Strategy::StreamToDisk), 1);
    assert_eq!(backward.strategy_count(Strategy::ParallelChunks), 0);
}

#[test]
fn engine_cache_lookup_refreshes_entry() {
    let mut e = LeechEngine::new(None);
    for i in 0..100 {
        let d = format!("d{}.com", i);
        e.record_success("u", Some(&d), &result_with(Strategy::MemoryBuffered, 1));
    }
    assert_eq!(e.known_strategy(None, Some("d0.com")), Some(Strategy::MemoryBuffered));
    e.record_success("u", Some("new.com"), &result_with(Strategy::ParallelChunks, 1));
    assert_eq!(e.known_strategy(None, Some("d0.com")), Some(Strategy::MemoryBuffered));
    assert_eq!(e.known_strategy(None, Some("d1.com")), None);
    assert_eq!(e.known_strategy(None, Some("new.com")), Some(Strategy::ParallelChunks));
    e.record_success("u", Some("d0.com"), &result_with(Strategy::StreamToDisk, 1));
    assert_eq!(e.known_strategy(None, Some("d0.com")), Some(Strategy::StreamToDisk));
    assert_eq!(e.known_strategy(None, Some("new.com")), Some(Strategy::ParallelChunks));
}

fn groups(v: &[Option<&str>]) -> Vec<Option<String>> {
    v.iter().map(|o| o.map(|s| s.to_string())).collect()
}

#[test]
fn readers_of_match_groups() {
    assert_eq!(rule_link(&groups(&[Some("all"), Some(r"https:\/\/a\/b\u0026c")])), "https://a/b&c");
    assert_eq!(rule_link(&groups(&[Some("x&amp;y")])), "x&y");
    match media_link_of(&Some(groups(&[Some("https://m/a.mp4"), Some("https://m/a.mp4")]))) {
        Ok(m) => {
            assert_eq!(m.url, "https://m/a.mp4");
            assert!(!m.is_direct);
        }
        Err(_) => panic!("expected the link"),
    }
    assert!(media_link_of(&None).is_err());
    assert!(media_link_of(&Some(groups(&[Some("whole"), None]))).is_err());
    assert_eq!(player_json_of(&Some(groups(&[Some("var ..."), Some("{}")]))), Some("{}".to_string()));
    assert_eq!(player_json_of(&Some(groups(&[Some("var ...")]))), None);
    assert_eq!(player_json_of(&None), None);
    assert_eq!(match_text(&groups(&[Some("id=42"), None])), "id=42");
    assert_eq!(match_text(&groups(&[Some("file=a.mp4"), Some("a")])), "a");
    let ms = vec![groups(&[Some("x"), Some("1")]), groups(&[Some("y")])];
    assert_eq!(match_texts(&ms), vec!["1", "y"]);
    let mut t: Vec<(String, String)> = vec![];
    let ms = vec![
        groups(&[Some("a=1"), Some("a"), Some("1")]),
        groups(&[Some("b=2"), Some("b"), Some("2")]),
        groups(&[Some("a=3"), Some("a"), Some("3")]),
        groups(&[Some("c"), Some("c"), None]),
    ];
    assign_from_matches(&mut t, &ms);
    assert_eq!(t, vec![("a".to_string(), "3".to_string()), ("b".to_string(), "2".to_string())]);
}

#[test]
fn player_stream_selection() {
    let p = PlayerResponse {
        title: Some("T".to_string()),
        formats: Some(vec![
            StreamFormat { url: None, ciphered: false },
            StreamFormat { url: Some("https://v/2".to_string()), ciphered: true },
        ]),
    };
    let m = select_stream(&p).unwrap();
    assert_eq!(m.url, "https://v/2");
    assert_eq!(m.title.as_deref(), Some("T"));
    assert!(m.is_direct);
    let locked = PlayerResponse { title: None, formats: Some(vec![StreamFormat { url: None, ciphered: true }]) };
    match select_stream(&locked) {
        Err(DownloadError::Anyhow(msg)) => assert_eq!(msg, "Encrypted signature not supported in lightweight mode"),
        _ => panic!("expected cipher error"),
    }
    let empty = PlayerResponse { title: None, formats: None };
    match select_stream(&empty) {
        Err(DownloadError::Anyhow(msg)) => assert_eq!(msg, "No valid streaming URL found in JSON"),
        _ => panic!("expected no stream"),
    }
}

#[test]
fn element_links_in_order() {
    let els = vec![
        LinkAttrs { href: None, src: Some("/s".to_string()), content: Some("c".to_string()) },
        LinkAttrs { href: None, src: None, content: None },
        LinkAttrs { href: Some("/h".to_string()), src: Some("/x".to_string()), content: None },
        LinkAttrs { href: None, src: None, content: Some("meta".to_string()) },
    ];
    assert_eq!(links_of_elements(&els), vec!["/s", "/h", "meta"]);
}

fn run_search(steps: &[ExtractionStep], oks: &[bool]) -> Option<(usize, Result<ExtractedMedia, DownloadError>)> {
    for (i, step) in steps.iter().enumerate() {
        let outcome = if oks[i] { Ok(media(&format!("https://m/{}", i))) } else { Err(DownloadError::Anyhow(format!("step {}", i))) };
        if let StepResult::Finish(r) = after_step(*step, outcome) {
            return Some((i, r));
        }
    }
    None
}

#[test]
fn search_stops_at_first_success_or_last_step() {
    let x = LinkExtractor::new(Some(rules()));
    let plan = x.plan("https://Instagram.com/p/1");
    match run_search(&plan, &[false, true, true]) {
        Some((1, Ok(m))) => assert_eq!(m.url, "https://m/1"),
        _ => panic!("expected the second platform's link"),
    }
    match run_search(&plan, &[false, false, false]) {
        Some((2, Err(DownloadError::Anyhow(msg)))) => assert_eq!(msg, "step 2"),
        _ => panic!("expected the last step's error"),
    }
    match run_search(&plan, &[true, false, false]) {
        Some((0, Ok(_))) => {}
        _ => panic!("expected the first platform's link"),
    }
    let direct = x.plan("https://a.b/f.zip");
    assert!(matches!(run_search(&direct, &[false]), Some((0, Err(_)))));
}

#[test]
fn released_buffer_is_handed_out_again() {
    let mut p = BufferPool::new(2, 1024);
    let b = p.acquire(10);
    let cap = b.capacity();
    let ptr = b.as_ptr();
    assert!(cap >= 1024);
    p.release(b);
    assert!(p.has_fit(10));
    let again = p.acquire(10);
    assert!(again.is_empty());
    assert_eq!(again.capacity(), cap);
    assert_eq!(again.as_ptr(), ptr);
    assert!(!p.has_fit(10));
    let fresh = p.acquire(10);
    assert!(fresh.capacity() >= 1024);
    assert_ne!(fresh.as_ptr(), ptr);
}

#[test]
fn links_with_no_selectors() {
    let a = StaticAnalyzer::new();
    assert_eq!(a.extract_links("<a href=\"/x\">x</a>", &[]).unwrap(), Vec::<String>::new());
    assert!(a.extract_links("<select><xmp><script>\"use strict\";</script></select>", &[]).is_err());
}
