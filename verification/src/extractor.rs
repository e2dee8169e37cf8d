//! Finding the media behind a page URL: direct links, YouTube pages,
//! rule-based platforms, and a generic search for media links.
use vstd::prelude::*;
use crate::error::DownloadError;
use crate::patterns::{Groups, Pattern, groups_view, hit_view, regex_first, regex_valid, well_formed_groups};
use crate::text::{chars_of, contains, ends_with, replace_all, replaced, seq_contains, seq_ends_with, string_of};

verus! {

broadcast use vstd::string::group_string_axioms;

/// A media file found behind a URL.
#[derive(Debug, Clone)]
pub struct ExtractedMedia {
    pub url: String,
    pub title: Option<String>,
    pub is_direct: bool,
}

/// Extraction rules for one platform: the domains it serves, the patterns
/// that find its media links, and the user agent to fetch its pages with.
#[derive(Debug, Clone)]
pub struct PlatformConfig {
    pub name: String,
    pub domains: Vec<String>,
    pub patterns: Vec<String>,
    pub ua: Option<String>,
}

/// A group of platforms.
#[derive(Debug, Clone)]
pub struct Category {
    pub platforms: Vec<PlatformConfig>,
}

/// The extraction rules, by category.
#[derive(Debug, Clone)]
pub struct ExtractionRules {
    pub categories: Vec<Category>,
}

/// Extracts media links from page URLs, with optional platform rules.
pub struct LinkExtractor {
    pub rules: Option<ExtractionRules>,
}

/// One way of finding the media behind a URL.
#[derive(Debug, Clone, Copy, PartialEq, Eq, Structural)]
pub enum ExtractionStep {
    /// The URL is the media file itself.
    Direct,
    /// Read the player data of a YouTube page.
    YouTube,
    /// Apply the rules of platform `platform` of category `category`.
    Platform { category: usize, platform: usize },
    /// The Mediafire extractor.
    Mediafire,
    /// Search the page for any media link.
    Generic,
}

/// What `str::to_lowercase` makes of `s` (full Unicode lower-casing).
pub uninterp spec fn lowercased(s: Seq<char>) -> Seq<char>;

/// `str::to_lowercase`.
#[verifier::external_body]
fn to_lowercase(s: &str) -> (r: String)
    ensures
        r@ == lowercased(s@),
{
    s.to_lowercase()
}

/// The file extensions that mark a direct link.
pub open spec fn direct_extensions() -> Seq<Seq<char>> {
    seq![
        ".mp4"@, ".m3u8"@, ".zip"@, ".pdf"@, ".exe"@, ".dmg"@, ".mkv"@, ".avi"@, ".mp3"@,
        ".rar"@, ".7z"@, ".tar.gz"@, ".iso"@, ".mov"@, ".wav"@, ".flac"@, ".epub"@,
    ]
}

/// A (lower-cased) URL is a direct link when it ends with a media or archive
/// extension, or has one right before a query string.
pub open spec fn is_direct(url: Seq<char>) -> bool {
    exists|i: int| 0 <= i < direct_extensions().len() && (seq_ends_with(url, #[trigger] direct_extensions()[i])
        || seq_contains(url, direct_extensions()[i].push('?')))
}

/// The URL names a YouTube page.
pub open spec fn is_youtube(url: Seq<char>) -> bool {
    seq_contains(url, "youtube.com"@) || seq_contains(url, "youtu.be"@)
}

/// One of the platform's domains occurs in the URL.
pub open spec fn serves(p: PlatformConfig, url: Seq<char>) -> bool {
    exists|k: int| 0 <= k < p.domains@.len() && seq_contains(url, (#[trigger] p.domains@[k])@)
}

/// The platforms of category `c` (its first `n` platforms) that serve `url`,
/// in order.
pub open spec fn platform_steps(c: usize, ps: Seq<PlatformConfig>, n: int, url: Seq<char>) -> Seq<ExtractionStep>
    decreases n,
{
    if n <= 0 {
        Seq::empty()
    } else {
        platform_steps(c, ps, n - 1, url) + if serves(ps[n - 1], url) {
            seq![ExtractionStep::Platform { category: c, platform: (n - 1) as usize }]
        } else {
            Seq::empty()
        }
    }
}

/// The platforms of the first `n` categories that serve `url`, in order.
pub open spec fn rule_steps(cs: Seq<Category>, n: int, url: Seq<char>) -> Seq<ExtractionStep>
    decreases n,
{
    if n <= 0 {
        Seq::empty()
    } else {
        rule_steps(cs, n - 1, url) + platform_steps((n - 1) as usize, cs[n - 1].platforms@, cs[n - 1].platforms@.len() as int, url)
    }
}

/// The ways to try, in order, for a (lower-cased) URL: a direct link is taken
/// as it is, a YouTube page goes to the YouTube extractor; otherwise every
/// platform whose domain occurs in the URL is tried in rule order, then the
/// Mediafire extractor for Mediafire URLs or the generic search for all
/// others. Only the platform steps fall through to the next step on failure.
pub open spec fn extraction_plan(rules: Option<ExtractionRules>, url: Seq<char>) -> Seq<ExtractionStep> {
    if is_direct(url) {
        seq![ExtractionStep::Direct]
    } else if is_youtube(url) {
        seq![ExtractionStep::YouTube]
    } else {
        (match rules {
            Some(r) => rule_steps(r.categories@, r.categories@.len() as int, url),
            None => Seq::empty(),
        }) + seq![if seq_contains(url, "mediafire.com"@) { ExtractionStep::Mediafire } else { ExtractionStep::Generic }]
    }
}

/// A (lower-cased) URL is a direct link exactly when it ends with one of
/// `.mp4 .m3u8 .zip .pdf .exe .dmg .mkv .avi .mp3 .rar .7z .tar.gz .iso .mov
/// .wav .flac .epub`, or has one of them right before a `?`.
pub proof fn lemma_direct_by_extension(url: Seq<char>)
    ensures
        seq_ends_with(url, ".mp4"@) || seq_contains(url, ".mp4?"@) ==> is_direct(url),
        seq_ends_with(url, ".m3u8"@) || seq_contains(url, ".m3u8?"@) ==> is_direct(url),
        seq_ends_with(url, ".zip"@) || seq_contains(url, ".zip?"@) ==> is_direct(url),
        seq_ends_with(url, ".pdf"@) || seq_contains(url, ".pdf?"@) ==> is_direct(url),
        seq_ends_with(url, ".exe"@) || seq_contains(url, ".exe?"@) ==> is_direct(url),
        seq_ends_with(url, ".dmg"@) || seq_contains(url, ".dmg?"@) ==> is_direct(url),
        seq_ends_with(url, ".mkv"@) || seq_contains(url, ".mkv?"@) ==> is_direct(url),
        seq_ends_with(url, ".avi"@) || seq_contains(url, ".avi?"@) ==> is_direct(url),
        seq_ends_with(url, ".mp3"@) || seq_contains(url, ".mp3?"@) ==> is_direct(url),
        seq_ends_with(url, ".rar"@) || seq_contains(url, ".rar?"@) ==> is_direct(url),
        seq_ends_with(url, ".7z"@) || seq_contains(url, ".7z?"@) ==> is_direct(url),
        seq_ends_with(url, ".tar.gz"@) || seq_contains(url, ".tar.gz?"@) ==> is_direct(url),
        seq_ends_with(url, ".iso"@) || seq_contains(url, ".iso?"@) ==> is_direct(url),
        seq_ends_with(url, ".mov"@) || seq_contains(url, ".mov?"@) ==> is_direct(url),
        seq_ends_with(url, ".wav"@) || seq_contains(url, ".wav?"@) ==> is_direct(url),
        seq_ends_with(url, ".flac"@) || seq_contains(url, ".flac?"@) ==> is_direct(url),
        seq_ends_with(url, ".epub"@) || seq_contains(url, ".epub?"@) ==> is_direct(url),
        is_direct(url) ==> seq_ends_with(url, ".mp4"@) || seq_contains(url, ".mp4?"@)
            || seq_ends_with(url, ".m3u8"@) || seq_contains(url, ".m3u8?"@)
            || seq_ends_with(url, ".zip"@) || seq_contains(url, ".zip?"@)
            || seq_ends_with(url, ".pdf"@) || seq_contains(url, ".pdf?"@)
            || seq_ends_with(url, ".exe"@) || seq_contains(url, ".exe?"@)
            || seq_ends_with(url, ".dmg"@) || seq_contains(url, ".dmg?"@)
            || seq_ends_with(url, ".mkv"@) || seq_contains(url, ".mkv?"@)
            || seq_ends_with(url, ".avi"@) || seq_contains(url, ".avi?"@)
            || seq_ends_with(url, ".mp3"@) || seq_contains(url, ".mp3?"@)
            || seq_ends_with(url, ".rar"@) || seq_contains(url, ".rar?"@)
            || seq_ends_with(url, ".7z"@) || seq_contains(url, ".7z?"@)
            || seq_ends_with(url, ".tar.gz"@) || seq_contains(url, ".tar.gz?"@)
            || seq_ends_with(url, ".iso"@) || seq_contains(url, ".iso?"@)
            || seq_ends_with(url, ".mov"@) || seq_contains(url, ".mov?"@)
            || seq_ends_with(url, ".wav"@) || seq_contains(url, ".wav?"@)
            || seq_ends_with(url, ".flac"@) || seq_contains(url, ".flac?"@)
            || seq_ends_with(url, ".epub"@) || seq_contains(url, ".epub?"@),
{
    let l = seq![
        ".mp4"@, ".m3u8"@, ".zip"@, ".pdf"@, ".exe"@, ".dmg"@, ".mkv"@, ".avi"@, ".mp3"@,
        ".rar"@, ".7z"@, ".tar.gz"@, ".iso"@, ".mov"@, ".wav"@, ".flac"@, ".epub"@,
    ];
    assert(l =~= direct_extensions());
    reveal_strlit(".mp4");
    reveal_strlit(".mp4?");
    assert(l[0].push('?') =~= ".mp4?"@);
    reveal_strlit(".m3u8");
    reveal_strlit(".m3u8?");
    assert(l[1].push('?') =~= ".m3u8?"@);
    reveal_strlit(".zip");
    reveal_strlit(".zip?");
    assert(l[2].push('?') =~= ".zip?"@);
    reveal_strlit(".pdf");
    reveal_strlit(".pdf?");
    assert(l[3].push('?') =~= ".pdf?"@);
    reveal_strlit(".exe");
    reveal_strlit(".exe?");
    assert(l[4].push('?') =~= ".exe?"@);
    reveal_strlit(".dmg");
    reveal_strlit(".dmg?");
    assert(l[5].push('?') =~= ".dmg?"@);
    reveal_strlit(".mkv");
    reveal_strlit(".mkv?");
    assert(l[6].push('?') =~= ".mkv?"@);
    reveal_strlit(".avi");
    reveal_strlit(".avi?");
    assert(l[7].push('?') =~= ".avi?"@);
    reveal_strlit(".mp3");
    reveal_strlit(".mp3?");
    assert(l[8].push('?') =~= ".mp3?"@);
    reveal_strlit(".rar");
    reveal_strlit(".rar?");
    assert(l[9].push('?') =~= ".rar?"@);
    reveal_strlit(".7z");
    reveal_strlit(".7z?");
    assert(l[10].push('?') =~= ".7z?"@);
    reveal_strlit(".tar.gz");
    reveal_strlit(".tar.gz?");
    assert(l[11].push('?') =~= ".tar.gz?"@);
    reveal_strlit(".iso");
    reveal_strlit(".iso?");
    assert(l[12].push('?') =~= ".iso?"@);
    reveal_strlit(".mov");
    reveal_strlit(".mov?");
    assert(l[13].push('?') =~= ".mov?"@);
    reveal_strlit(".wav");
    reveal_strlit(".wav?");
    assert(l[14].push('?') =~= ".wav?"@);
    reveal_strlit(".flac");
    reveal_strlit(".flac?");
    assert(l[15].push('?') =~= ".flac?"@);
    reveal_strlit(".epub");
    reveal_strlit(".epub?");
    assert(l[16].push('?') =~= ".epub?"@);
}

/// The plan by the kind of URL (lower-cased): a direct link is taken as it
/// is; any other URL that names `youtube.com` or `youtu.be` goes to the
/// YouTube extractor alone; every other URL ends with the Mediafire extractor
/// when it names `mediafire.com` and with the generic search otherwise.
pub proof fn lemma_plan_by_url(rules: Option<ExtractionRules>, url: Seq<char>)
    ensures
        is_direct(url) ==> extraction_plan(rules, url) == seq![ExtractionStep::Direct],
        !is_direct(url) && (seq_contains(url, "youtube.com"@) || seq_contains(url, "youtu.be"@))
            ==> extraction_plan(rules, url) == seq![ExtractionStep::YouTube],
        !is_direct(url) && !seq_contains(url, "youtube.com"@) && !seq_contains(url, "youtu.be"@) ==> {
            &&& extraction_plan(rules, url).len() >= 1
            &&& extraction_plan(rules, url).last() == (if seq_contains(url, "mediafire.com"@) {
                ExtractionStep::Mediafire
            } else {
                ExtractionStep::Generic
            })
        },
{
}

/// Whether a (lower-cased) URL is a direct link.
pub fn is_direct_link(url: &str) -> (r: bool)
    ensures
        r == is_direct(url@),
{
    let exts = [".mp4", ".m3u8", ".zip", ".pdf", ".exe", ".dmg", ".mkv", ".avi", ".mp3",
        ".rar", ".7z", ".tar.gz", ".iso", ".mov", ".wav", ".flac", ".epub"];
    assert(exts@.map_values(|e: &str| e@) =~= direct_extensions());
    let u = chars_of(url);
    let mut i: usize = 0;
    while i < exts.len()
        invariant
            exts@.map_values(|e: &str| e@) == direct_extensions(),
            exts@.len() == direct_extensions().len(),
            u@ == url@,
            i <= exts.len(),
            forall|j: int| 0 <= j < i ==> !(seq_ends_with(url@, #[trigger] direct_extensions()[j])
                || seq_contains(url@, direct_extensions()[j].push('?'))),
        decreases exts.len() - i,
    {
        let e = chars_of(exts[i]);
        assert(e@ == direct_extensions()[i as int]);
        let mut q = e.clone();
        q.push('?');
        if ends_with(u.as_slice(), e.as_slice()) || contains(u.as_slice(), q.as_slice()) {
            return true;
        }
        i = i + 1;
    }
    false
}

/// Whether the domains of `p` occur in `url`.
fn platform_serves(p: &PlatformConfig, url: &Vec<char>) -> (r: bool)
    ensures
        r == serves(*p, url@),
{
    let mut k: usize = 0;
    while k < p.domains.len()
        invariant
            k <= p.domains.len(),
            forall|j: int| 0 <= j < k ==> !seq_contains(url@, (#[trigger] p.domains@[j])@),
        decreases p.domains.len() - k,
    {
        if contains(url.as_slice(), chars_of(p.domains[k].as_str()).as_slice()) {
            return true;
        }
        k = k + 1;
    }
    false
}

impl LinkExtractor {
    /// An extractor with the given platform rules (none when the rules file
    /// could not be read).
    pub fn new(rules: Option<ExtractionRules>) -> (r: Self)
        ensures
            r.rules == rules,
    {
        LinkExtractor { rules }
    }

    /// The steps to try, in order, for `input_url`; the URL is matched in
    /// lower case.
    pub fn plan(&self, input_url: &str) -> (r: Vec<ExtractionStep>)
        ensures
            r@ == extraction_plan(self.rules, lowercased(input_url@)),
    {
        let lower = to_lowercase(input_url);
        if is_direct_link(lower.as_str()) {
            return vec![ExtractionStep::Direct];
        }
        let u = chars_of(lower.as_str());
        proof {
            reveal_strlit("youtube.com");
            reveal_strlit("youtu.be");
            reveal_strlit("mediafire.com");
        }
        if contains(u.as_slice(), chars_of("youtube.com").as_slice()) || contains(u.as_slice(), chars_of("youtu.be").as_slice()) {
            return vec![ExtractionStep::YouTube];
        }
        let mut steps: Vec<ExtractionStep> = Vec::new();
        match &self.rules {
            Some(rules) => {
                let ghost cs = rules.categories@;
                let mut c: usize = 0;
                while c < rules.categories.len()
                    invariant
                        cs == rules.categories@,
                        u@ == lower@,
                        c <= cs.len(),
                        steps@ == rule_steps(cs, c as int, u@),
                    decreases cs.len() - c,
                {
                    let ps = &rules.categories[c].platforms;
                    let mut p: usize = 0;
                    while p < ps.len()
                        invariant
                            cs == rules.categories@,
                            c < cs.len(),
                            *ps == cs[c as int].platforms,
                            p <= ps.len(),
                            steps@ == rule_steps(cs, c as int, u@) + platform_steps(c, ps@, p as int, u@),
                        decreases ps.len() - p,
                    {
                        if platform_serves(&ps[p], &u) {
                            steps.push(ExtractionStep::Platform { category: c, platform: p });
                        }
                        assert(steps@ =~= rule_steps(cs, c as int, u@) + platform_steps(c, ps@, p + 1, u@));
                        p = p + 1;
                    }
                    assert(steps@ =~= rule_steps(cs, c + 1, u@));
                    c = c + 1;
                }
            },
            None => {},
        }
        if contains(u.as_slice(), chars_of("mediafire.com").as_slice()) {
            steps.push(ExtractionStep::Mediafire);
        } else {
            steps.push(ExtractionStep::Generic);
        }
        steps
    }
}


/// What follows the outcome of one planned step.
#[derive(Debug)]
pub enum StepResult {
    /// Go on with the next step.
    Continue,
    /// The search ends with this outcome.
    Finish(Result<ExtractedMedia, DownloadError>),
}

/// A step ends the search with its outcome, unless it is a platform's rules
/// that failed: those fall through to the next step.
pub open spec fn finishes(step: ExtractionStep, ok: bool) -> bool {
    !(step is Platform) || ok
}

/// Decides what follows `outcome`, the result of trying `step`: a platform's
/// success ends the search and its failure goes on to the next step; any
/// other step ends the search with its own outcome, success or error.
pub fn after_step(step: ExtractionStep, outcome: Result<ExtractedMedia, DownloadError>) -> (r: StepResult)
    ensures
        r is Continue <==> !finishes(step, outcome is Ok),
        r matches StepResult::Finish(o) ==> o == outcome,
{
    match step {
        ExtractionStep::Platform { .. } => match outcome {
            Ok(m) => StepResult::Finish(Ok(m)),
            Err(_) => StepResult::Continue,
        },
        _ => StepResult::Finish(outcome),
    }
}

/// The outcome of the `Direct` step: the URL itself, as given (not lower
/// cased), as a direct link without title.
pub fn direct_media(input_url: &str) -> (r: ExtractedMedia)
    ensures
        r.url@ == input_url@,
        r.title is None,
        r.is_direct,
{
    ExtractedMedia { url: String::from_str(input_url), title: None, is_direct: true }
}

/// The outcome of the `Mediafire` step: no Mediafire extractor is built in,
/// so it always fails with the placeholder error.
pub fn mediafire_media(_url: &str) -> (r: Result<ExtractedMedia, DownloadError>)
    ensures
        r matches Err(DownloadError::Anyhow(m)) && m@ == "Mediafire extraction placeholder"@,
{
    proof {
        reveal_strlit("Mediafire extraction placeholder");
    }
    Err(DownloadError::Anyhow(String::from_str("Mediafire extraction placeholder")))
}

/// The search over `steps`, where `oks[j]` tells whether step `j` succeeded,
/// stops at step `i`: the first step that finishes.
pub open spec fn stops_at(steps: Seq<ExtractionStep>, oks: Seq<bool>, i: int) -> bool {
    &&& 0 <= i < steps.len()
    &&& finishes(steps[i], oks[i])
    &&& forall|j: int| 0 <= j < i ==> !finishes(steps[j], oks[j])
}

/// Every step of a platform list is a platform step.
proof fn lemma_platform_steps(c: usize, ps: Seq<PlatformConfig>, n: int, url: Seq<char>)
    ensures
        forall|j: int| 0 <= j < platform_steps(c, ps, n, url).len() ==> (#[trigger] platform_steps(c, ps, n, url)[j]) is Platform,
    decreases n,
{
    if n > 0 {
        lemma_platform_steps(c, ps, n - 1, url);
    }
}

/// Every step of the rule steps is a platform step.
proof fn lemma_rule_steps(cs: Seq<Category>, n: int, url: Seq<char>)
    ensures
        forall|j: int| 0 <= j < rule_steps(cs, n, url).len() ==> (#[trigger] rule_steps(cs, n, url)[j]) is Platform,
    decreases n,
{
    if n > 0 {
        lemma_rule_steps(cs, n - 1, url);
        lemma_platform_steps((n - 1) as usize, cs[n - 1].platforms@, cs[n - 1].platforms@.len() as int, url);
    }
}

/// From step `i` on, where every earlier step failed, the search stops
/// somewhere in a plan of platform steps followed by one other step.
proof fn lemma_search_from(p: Seq<ExtractionStep>, oks: Seq<bool>, i: int)
    requires
        0 <= i < p.len(),
        oks.len() == p.len(),
        !(p.last() is Platform),
        forall|j: int| 0 <= j < p.len() - 1 ==> (#[trigger] p[j]) is Platform,
        forall|j: int| 0 <= j < i ==> !(#[trigger] oks[j]),
    ensures
        exists|k: int| #[trigger] stops_at(p, oks, k),
    decreases p.len() - i,
{
    if finishes(p[i], oks[i]) {
        assert forall|j: int| 0 <= j < i implies !finishes(p[j], oks[j]) by {
            assert(p[j] is Platform);
            assert(!oks[j]);
        }
        assert(stops_at(p, oks, i));
    } else {
        lemma_search_from(p, oks, i + 1);
    }
}

/// The search over a plan always ends within it, so the engine never runs out
/// of steps: a plan is some platform steps followed by one step that is not a
/// platform's, and the search stops at the first platform whose rules
/// succeed, or else at that last step, whose outcome is the result.
pub proof fn lemma_plan_always_finishes(rules: Option<ExtractionRules>, url: Seq<char>, oks: Seq<bool>)
    requires
        oks.len() == extraction_plan(rules, url).len(),
    ensures
        extraction_plan(rules, url).len() >= 1,
        !(extraction_plan(rules, url).last() is Platform),
        forall|j: int| 0 <= j < extraction_plan(rules, url).len() - 1 ==> (#[trigger] extraction_plan(rules, url)[j]) is Platform,
        exists|i: int| #[trigger] stops_at(extraction_plan(rules, url), oks, i),
        forall|i: int| #[trigger] stops_at(extraction_plan(rules, url), oks, i) ==> (i == extraction_plan(rules, url).len() - 1 || oks[i]) && (forall|j: int| 0 <= j < i ==> !oks[j]),
{
    let p = extraction_plan(rules, url);
    if !is_direct(url) && !is_youtube(url) {
        let rs = match rules {
            Some(r) => rule_steps(r.categories@, r.categories@.len() as int, url),
            None => Seq::empty(),
        };
        match rules {
            Some(r) => lemma_rule_steps(r.categories@, r.categories@.len() as int, url),
            None => {},
        }
        let last = if seq_contains(url, "mediafire.com"@) { ExtractionStep::Mediafire } else { ExtractionStep::Generic };
        assert(p == rs + seq![last]);
        assert forall|j: int| 0 <= j < p.len() - 1 implies (#[trigger] p[j]) is Platform by {
            assert(p[j] == rs[j]);
        }
    }
    lemma_search_from(p, oks, 0);
    assert forall|i: int| #[trigger] stops_at(p, oks, i) implies (i == p.len() - 1 || oks[i]) && (forall|j: int| 0 <= j < i ==> !oks[j]) by {
        assert forall|j: int| 0 <= j < i implies !oks[j] by {
            assert(!finishes(p[j], oks[j]));
        }
        if i < p.len() - 1 {
            assert(p[i] is Platform);
        }
    }
}

/// A media link as the platforms write it in their pages, made plain:
/// `\u0026` and `&amp;` become `&`, and `\/` becomes `/`.
pub open spec fn unescaped_link(s: Seq<char>) -> Seq<char> {
    replaced(replaced(replaced(s, "\\u0026"@, "&"@), "&amp;"@, "&"@), "\\/"@, "/"@)
}

/// The groups of the first pattern, in order, that compiles and matches
/// `html`.
pub open spec fn first_hit(patterns: Seq<Seq<char>>, html: Seq<char>) -> Option<Groups>
    decreases patterns.len(),
{
    if patterns.len() == 0 {
        None
    } else if regex_valid(patterns[0]) && regex_first(patterns[0], html) is Some {
        regex_first(patterns[0], html)
    } else {
        first_hit(patterns.skip(1), html)
    }
}

/// The hit is that of the first pattern, in order, that both compiles and
/// matches the page: patterns that do not compile, and patterns that compile
/// but do not match, are skipped.
proof fn lemma_first_hit_at(patterns: Seq<Seq<char>>, html: Seq<char>, j: int)
    requires
        0 <= j < patterns.len(),
        regex_valid(patterns[j]) && regex_first(patterns[j], html) is Some,
        forall|k: int| 0 <= k < j ==> !(regex_valid(#[trigger] patterns[k]) && regex_first(patterns[k], html) is Some),
    ensures
        first_hit(patterns, html) == regex_first(patterns[j], html),
    decreases j,
{
    if j > 0 {
        let rest = patterns.skip(1);
        assert(!(regex_valid(patterns[0]) && regex_first(patterns[0], html) is Some));
        assert forall|k: int| 0 <= k < j - 1 implies !(regex_valid(#[trigger] rest[k]) && regex_first(rest[k], html) is Some) by {
            assert(rest[k] == patterns[k + 1]);
        }
        assert(rest[j - 1] == patterns[j]);
        lemma_first_hit_at(rest, html, j - 1);
    }
}

/// When no pattern both compiles and matches, there is no hit.
proof fn lemma_first_hit_none(patterns: Seq<Seq<char>>, html: Seq<char>)
    requires
        forall|k: int| 0 <= k < patterns.len() ==> !(regex_valid(#[trigger] patterns[k]) && regex_first(patterns[k], html) is Some),
    ensures
        first_hit(patterns, html) is None,
    decreases patterns.len(),
{
    if patterns.len() > 0 {
        let rest = patterns.skip(1);
        assert(!(regex_valid(patterns[0]) && regex_first(patterns[0], html) is Some));
        assert forall|k: int| 0 <= k < rest.len() implies !(regex_valid(#[trigger] rest[k]) && regex_first(rest[k], html) is Some) by {
            assert(rest[k] == patterns[k + 1]);
        }
        lemma_first_hit_none(rest, html);
    }
}

/// What a platform's rules give for a page: a link exactly when some pattern
/// of the platform compiles and matches the page, and then the link of the
/// first such pattern, in order (group 1, or the whole match when the pattern
/// has no groups, unescaped); patterns that do not compile or do not match
/// are skipped. Otherwise the error names the platform.
pub proof fn lemma_rules_first_matching_pattern(p: PlatformConfig, html: Seq<char>)
    ensures
        (rule_outcome(p, html) is Ok) == (exists|k: int| 0 <= k < p.patterns@.len()
            && regex_valid(#[trigger] p.patterns@[k]@) && regex_first(p.patterns@[k]@, html) is Some),
        forall|j: int| 0 <= j < p.patterns@.len()
            && regex_valid(#[trigger] p.patterns@[j]@) && regex_first(p.patterns@[j]@, html) is Some
            && (forall|k: int| 0 <= k < j ==> !(regex_valid(#[trigger] p.patterns@[k]@) && regex_first(p.patterns@[k]@, html) is Some))
            ==> rule_outcome(p, html) == Ok::<Seq<char>, Seq<char>>(unescaped_link(hit_link(regex_first(p.patterns@[j]@, html)->0))),
        (rule_outcome(p, html) is Err) ==> rule_outcome(p, html) == Err::<Seq<char>, Seq<char>>("Rule extraction failed for "@ + p.name@),
{
    let ps = texts(p.patterns@);
    assert forall|j: int| 0 <= j < p.patterns@.len()
        && regex_valid(#[trigger] p.patterns@[j]@) && regex_first(p.patterns@[j]@, html) is Some
        && (forall|k: int| 0 <= k < j ==> !(regex_valid(#[trigger] p.patterns@[k]@) && regex_first(p.patterns@[k]@, html) is Some))
        implies rule_outcome(p, html) == Ok::<Seq<char>, Seq<char>>(unescaped_link(hit_link(regex_first(p.patterns@[j]@, html)->0))) by {
        assert forall|k: int| 0 <= k < j implies !(regex_valid(#[trigger] ps[k]) && regex_first(ps[k], html) is Some) by {
            assert(ps[k] == p.patterns@[k]@);
        }
        assert(ps[j] == p.patterns@[j]@);
        lemma_first_hit_at(ps, html, j);
    }
    if exists|k: int| 0 <= k < p.patterns@.len() && regex_valid(#[trigger] p.patterns@[k]@) && regex_first(p.patterns@[k]@, html) is Some {
        let k0 = choose|k: int| 0 <= k < p.patterns@.len() && regex_valid(#[trigger] p.patterns@[k]@) && regex_first(p.patterns@[k]@, html) is Some;
        lemma_first_matching(p, html, k0);
    } else {
        assert forall|k: int| 0 <= k < ps.len() implies !(regex_valid(#[trigger] ps[k]) && regex_first(ps[k], html) is Some) by {
            assert(ps[k] == p.patterns@[k]@);
        }
        lemma_first_hit_none(ps, html);
    }
}

/// Some pattern up to `k` compiles and matches, so there is a first one, and
/// the rules give its link.
proof fn lemma_first_matching(p: PlatformConfig, html: Seq<char>, k: int)
    requires
        0 <= k < p.patterns@.len(),
        regex_valid(p.patterns@[k]@) && regex_first(p.patterns@[k]@, html) is Some,
    ensures
        rule_outcome(p, html) is Ok,
    decreases k,
{
    let ps = texts(p.patterns@);
    if exists|j: int| 0 <= j < k && regex_valid(#[trigger] p.patterns@[j]@) && regex_first(p.patterns@[j]@, html) is Some {
        let j = choose|j: int| 0 <= j < k && regex_valid(#[trigger] p.patterns@[j]@) && regex_first(p.patterns@[j]@, html) is Some;
        lemma_first_matching(p, html, j);
    } else {
        assert forall|j: int| 0 <= j < k implies !(regex_valid(#[trigger] ps[j]) && regex_first(ps[j], html) is Some) by {
            assert(ps[j] == p.patterns@[j]@);
        }
        assert(ps[k] == p.patterns@[k]@);
        lemma_first_hit_at(ps, html, k);
    }
}

/// The link that a hit yields: capture group 1 when the pattern has groups,
/// else the whole match.
pub open spec fn hit_link(g: Groups) -> Seq<char> {
    if g.len() > 1 {
        g[1]->0
    } else {
        g[0]->0
    }
}

/// A pattern with groups whose group 1 took no part in the first hit: the
/// rule cannot give a link from it.
pub open spec fn hit_lacks_group(patterns: Seq<Seq<char>>, html: Seq<char>) -> bool {
    first_hit(patterns, html) matches Some(g) && g.len() > 1 && g[1] is None
}

/// The characters of each string of a list.
pub open spec fn texts(v: Seq<String>) -> Seq<Seq<char>> {
    v.map_values(|s: String| s@)
}

/// What applying a platform's rules to its page gives: the first hit's link,
/// unescaped, as an indirect link without title; or an error naming the
/// platform when no pattern hits.
pub open spec fn rule_outcome(p: PlatformConfig, html: Seq<char>) -> Result<Seq<char>, Seq<char>> {
    match first_hit(texts(p.patterns@), html) {
        Some(g) => Ok(unescaped_link(hit_link(g))),
        None => Err("Rule extraction failed for "@ + p.name@),
    }
}

/// The media found, as its link; an error as its message.
pub open spec fn media_outcome(r: Result<ExtractedMedia, DownloadError>) -> Result<Seq<char>, Seq<char>> {
    match r {
        Ok(m) => Ok(m.url@),
        Err(DownloadError::Anyhow(e)) => Err(e@),
        Err(_) => Err(Seq::empty()),
    }
}

/// The link of a rule's hit: capture group 1 when the pattern has groups,
/// else the whole match, with escaped `&` and `/` made plain. Group 1 must
/// have taken part in the match.
pub fn rule_link(g: &Vec<Option<String>>) -> (r: String)
    requires
        well_formed_groups(groups_view(g@)),
        !(g@.len() > 1 && g@[1] is None),
    ensures
        r@ == unescaped_link(hit_link(groups_view(g@))),
{
    let link = if g.len() > 1 {
        match &g[1] {
            Some(s) => s.clone(),
            None => String::new(),
        }
    } else {
        match &g[0] {
            Some(s) => s.clone(),
            None => String::new(),
        }
    };
    assert(link@ == hit_link(groups_view(g@)));
    clean_link(link.as_str())
}

/// Applies a platform's rules to its page `html`: the first pattern that
/// compiles and matches gives the link (group 1 if the pattern has groups,
/// else the whole match), with escaped `&` and `/` made plain. The hit must
/// not lack its group 1.
pub fn apply_rules(html: &str, platform: &PlatformConfig) -> (r: Result<ExtractedMedia, DownloadError>)
    requires
        !hit_lacks_group(texts(platform.patterns@), html@),
    ensures
        media_outcome(r) == rule_outcome(*platform, html@),
        r matches Ok(m) ==> m.title is None && !m.is_direct,
        r matches Err(e) ==> e is Anyhow,
{
    let ghost ps = texts(platform.patterns@);
    let mut k: usize = 0;
    assert(ps.skip(0) =~= ps);
    while k < platform.patterns.len()
        invariant
            ps == texts(platform.patterns@),
            k <= ps.len(),
            first_hit(ps, html@) == first_hit(ps.skip(k as int), html@),
            !hit_lacks_group(ps, html@),
        decreases ps.len() - k,
    {
        assert(ps.skip(k as int)[0] == platform.patterns@[k as int]@);
        assert(ps.skip(k as int).skip(1) =~= ps.skip(k + 1));
        match Pattern::compile(platform.patterns[k].as_str()) {
            Some(pat) => match pat.first_match(html) {
                Some(g) => {
                    let cleaned = rule_link(&g);
                    return Ok(ExtractedMedia { url: cleaned, title: None, is_direct: false });
                },
                None => {},
            },
            None => {},
        }
        k = k + 1;
    }
    assert(ps.skip(ps.len() as int) =~= Seq::<Seq<char>>::empty());
    Err(DownloadError::Anyhow(String::from_str("Rule extraction failed for ").concat(platform.name.as_str())))
}

/// `apply_rules` where the first hit has its group 1 or there is no hit;
/// `None` when the hit lacks it (the rules cannot be applied).
pub fn apply_rules_checked(html: &str, platform: &PlatformConfig) -> (r: Option<Result<ExtractedMedia, DownloadError>>)
    ensures
        r is Some == !hit_lacks_group(texts(platform.patterns@), html@),
        r matches Some(res) ==> media_outcome(res) == rule_outcome(*platform, html@),
{
    let ghost ps = texts(platform.patterns@);
    let mut k: usize = 0;
    assert(ps.skip(0) =~= ps);
    while k < platform.patterns.len()
        invariant
            ps == texts(platform.patterns@),
            k <= ps.len(),
            first_hit(ps, html@) == first_hit(ps.skip(k as int), html@),
        decreases ps.len() - k,
    {
        assert(ps.skip(k as int)[0] == platform.patterns@[k as int]@);
        assert(ps.skip(k as int).skip(1) =~= ps.skip(k + 1));
        match Pattern::compile(platform.patterns[k].as_str()) {
            Some(pat) => match pat.first_match(html) {
                Some(g) => {
                    if g.len() > 1 && g[1].is_none() {
                        return None;
                    }
                    return Some(apply_rules(html, platform));
                },
                None => {},
            },
            None => {},
        }
        k = k + 1;
    }
    assert(ps.skip(ps.len() as int) =~= Seq::<Seq<char>>::empty());
    Some(apply_rules(html, platform))
}

/// Makes escaped `&` and `/` in a link plain.
pub fn clean_link(s: &str) -> (r: String)
    ensures
        r@ == unescaped_link(s@),
{
    proof {
        reveal_strlit("\\u0026");
        reveal_strlit("&amp;");
        reveal_strlit("\\/");
    }
    let a = replace_all(chars_of(s).as_slice(), chars_of("\\u0026").as_slice(), chars_of("&").as_slice());
    let b = replace_all(a.as_slice(), chars_of("&amp;").as_slice(), chars_of("&").as_slice());
    let c = replace_all(b.as_slice(), chars_of("\\/").as_slice(), chars_of("/").as_slice());
    string_of(c.as_slice())
}

/// The pattern that finds the media links of a page.
pub open spec fn media_link_pattern() -> Seq<char> {
    "(https?://[^\\s\"'<>]+?\\.(?:mp4|mkv|mp3|zip|rar)[^\\s\"'<>]*)"@
}

/// What the generic search makes of its hit: group 1, or an error when
/// there is no hit or the hit lacks group 1.
pub open spec fn generic_of_hit(hit: Option<Groups>) -> Result<Seq<char>, Seq<char>> {
    let missing = Err("Could not find any media links on the page"@);
    match hit {
        Some(g) => if g.len() > 1 && g[1] is Some {
            Ok(g[1]->0)
        } else {
            missing
        },
        None => missing,
    }
}

/// What the generic search finds in a page: the first media link (capture
/// group 1 of `media_link_pattern`), or an error.
pub open spec fn generic_outcome(html: Seq<char>) -> Result<Seq<char>, Seq<char>> {
    if regex_valid(media_link_pattern()) {
        generic_of_hit(regex_first(media_link_pattern(), html))
    } else {
        generic_of_hit(None)
    }
}

/// The media that the generic search reports for its hit (the first match
/// of `media_link_pattern`): group 1 as an indirect link without title.
pub fn media_link_of(hit: &Option<Vec<Option<String>>>) -> (r: Result<ExtractedMedia, DownloadError>)
    ensures
        media_outcome(r) == generic_of_hit(hit_view(*hit)),
        r matches Ok(m) ==> m.title is None && !m.is_direct,
        r matches Err(e) ==> e is Anyhow,
{
    match hit {
        Some(g) => {
            if g.len() > 1 {
                match &g[1] {
                    Some(link) => {
                        return Ok(ExtractedMedia { url: link.clone(), title: None, is_direct: false });
                    },
                    None => {},
                }
            }
        },
        None => {},
    }
    Err(DownloadError::Anyhow(String::from_str("Could not find any media links on the page")))
}

/// Searches a page for a link to an `mp4`, `mkv`, `mp3`, `zip` or `rar` file
/// and returns the first as an indirect link without title. (The whole
/// pattern is capture group 1, so a match always has it.)
pub fn find_media_link(html: &str) -> (r: Result<ExtractedMedia, DownloadError>)
    ensures
        media_outcome(r) == generic_outcome(html@),
        r matches Ok(m) ==> m.title is None && !m.is_direct,
        r matches Err(e) ==> e is Anyhow,
{
    match Pattern::compile("(https?://[^\\s\"'<>]+?\\.(?:mp4|mkv|mp3|zip|rar)[^\\s\"'<>]*)") {
        Some(pat) => media_link_of(&pat.first_match(html)),
        None => media_link_of(&None),
    }
}


/// One entry of a YouTube player's `streamingData.formats`: its `url` when it
/// is a string, and whether it carries a `signatureCipher`.
#[derive(Debug, Clone)]
pub struct StreamFormat {
    pub url: Option<String>,
    pub ciphered: bool,
}

/// What the YouTube extractor reads of the player JSON: `videoDetails.title`
/// when it is a string, and `streamingData.formats` when it is an array.
#[derive(Debug, Clone)]
pub struct PlayerResponse {
    pub title: Option<String>,
    pub formats: Option<Vec<StreamFormat>>,
}

/// The characters of a player response's fields.
pub struct PlayerFields {
    pub title: Option<Seq<char>>,
    pub formats: Option<Seq<(Option<Seq<char>>, bool)>>,
}

/// The characters of an optional string.
pub open spec fn opt_text(s: Option<String>) -> Option<Seq<char>> {
    match s {
        Some(t) => Some(t@),
        None => None,
    }
}

/// The characters of the formats.
pub open spec fn formats_view(v: Seq<StreamFormat>) -> Seq<(Option<Seq<char>>, bool)> {
    v.map_values(|f: StreamFormat| (opt_text(f.url), f.ciphered))
}

/// The characters of a player response's fields.
pub open spec fn player_fields(p: PlayerResponse) -> PlayerFields {
    PlayerFields {
        title: opt_text(p.title),
        formats: match p.formats {
            Some(v) => Some(formats_view(v@)),
            None => None,
        },
    }
}

/// The characters of a parse outcome.
pub open spec fn player_outcome(r: Result<PlayerResponse, String>) -> Result<PlayerFields, Seq<char>> {
    match r {
        Ok(p) => Ok(player_fields(p)),
        Err(e) => Err(e@),
    }
}

/// What `serde_json::from_str::<Value>` makes of `json`, read as a player
/// response; the error's message when it is not JSON.
pub uninterp spec fn player_json(json: Seq<char>) -> Result<PlayerFields, Seq<char>>;

/// `serde_json::from_str` into a `Value`, then the fields the YouTube
/// extractor reads (`Value` indexing, `as_str`, `as_array`, `get`).
#[verifier::external_body]
fn parse_player_json(json: &str) -> (r: Result<PlayerResponse, String>)
    ensures
        player_outcome(r) == player_json(json@),
{
    let v: serde_json::Value = serde_json::from_str(json).map_err(|e| e.to_string())?;
    let formats = v["streamingData"]["formats"].as_array().map(|a| a.iter().map(|f|
        StreamFormat { url: f["url"].as_str().map(|u| u.to_string()), ciphered: f.get("signatureCipher").is_some() }).collect());
    Ok(PlayerResponse { title: v["videoDetails"]["title"].as_str().map(|t| t.to_string()), formats })
}

/// The pattern that finds the player JSON in a YouTube page.
pub open spec fn player_pattern() -> Seq<char> {
    "var ytInitialPlayerResponse\\s*=\\s*(\\{.+?\\});"@
}

/// The player JSON that a hit of `player_pattern` holds: its group 1.
pub open spec fn json_of_hit(hit: Option<Groups>) -> Option<Seq<char>> {
    match hit {
        Some(g) => if g.len() > 1 {
            g[1]
        } else {
            None
        },
        None => None,
    }
}

/// The player JSON embedded in a YouTube page: group 1 of the first match of
/// `player_pattern`.
pub open spec fn embedded_player(html: Seq<char>) -> Option<Seq<char>> {
    if regex_valid(player_pattern()) {
        json_of_hit(regex_first(player_pattern(), html))
    } else {
        None
    }
}

/// The stream chosen among the formats: the first one with a URL, unless a
/// ciphered one comes before it.
pub open spec fn chosen_stream(formats: Seq<(Option<Seq<char>>, bool)>) -> Result<Seq<char>, Seq<char>>
    decreases formats.len(),
{
    if formats.len() == 0 {
        Err("No valid streaming URL found in JSON"@)
    } else if formats[0].0 is Some {
        Ok(formats[0].0->0)
    } else if formats[0].1 {
        Err("Encrypted signature not supported in lightweight mode"@)
    } else {
        chosen_stream(formats.skip(1))
    }
}

/// The stream that a player response offers: the first unprotected one
/// among its formats, or an error.
pub open spec fn stream_outcome(fields: PlayerFields) -> Result<Seq<char>, Seq<char>> {
    match fields.formats {
        Some(f) => chosen_stream(f),
        None => Err("No valid streaming URL found in JSON"@),
    }
}

/// What the YouTube extractor finds in a page: the player JSON, parsed, and
/// the first unprotected stream in it; an error where any of these fails.
pub open spec fn youtube_outcome(html: Seq<char>) -> Result<Seq<char>, Seq<char>> {
    match embedded_player(html) {
        None => Err("Could not find ytInitialPlayerResponse JSON"@),
        Some(json) => match player_json(json) {
            Err(e) => Err("JSON Parse Error: "@ + e),
            Ok(fields) => stream_outcome(fields),
        },
    }
}

/// The title found alongside the stream.
pub open spec fn youtube_title(html: Seq<char>) -> Option<Seq<char>> {
    match embedded_player(html) {
        Some(json) => match player_json(json) {
            Ok(fields) => fields.title,
            Err(_) => None,
        },
        None => None,
    }
}

/// The player JSON in the hit of `player_pattern` on a YouTube page: its
/// group 1.
pub fn player_json_of(hit: &Option<Vec<Option<String>>>) -> (r: Option<String>)
    ensures
        opt_text(r) == json_of_hit(hit_view(*hit)),
{
    match hit {
        Some(g) => {
            if g.len() > 1 {
                match &g[1] {
                    Some(j) => Some(j.clone()),
                    None => None,
                }
            } else {
                None
            }
        },
        None => None,
    }
}

/// Picks the stream of a parsed player response: the first format that has
/// a plain URL, as a direct link titled with the video's title; a ciphered
/// format before it, or no such format, is an error.
pub fn select_stream(player: &PlayerResponse) -> (r: Result<ExtractedMedia, DownloadError>)
    ensures
        media_outcome(r) == stream_outcome(player_fields(*player)),
        r matches Ok(m) ==> m.is_direct && opt_text(m.title) == opt_text(player.title),
        r matches Err(e) ==> e is Anyhow,
{
    let no_stream = "No valid streaming URL found in JSON";
    match &player.formats {
        Some(formats) => {
            let ghost fv = formats_view(formats@);
            let mut i: usize = 0;
            assert(fv.skip(0) =~= fv);
            while i < formats.len()
                invariant
                    fv == formats_view(formats@),
                    i <= fv.len(),
                    chosen_stream(fv) == chosen_stream(fv.skip(i as int)),
                    stream_outcome(player_fields(*player)) == chosen_stream(fv),
                decreases fv.len() - i,
            {
                assert(fv.skip(i as int)[0] == fv[i as int]);
                assert(fv.skip(i as int).skip(1) =~= fv.skip(i + 1));
                let f = &formats[i];
                match &f.url {
                    Some(u) => {
                        return Ok(ExtractedMedia { url: u.clone(), title: player.title.clone(), is_direct: true });
                    },
                    None => {},
                }
                if f.ciphered {
                    return Err(DownloadError::Anyhow(String::from_str("Encrypted signature not supported in lightweight mode")));
                }
                i = i + 1;
            }
            assert(fv.skip(fv.len() as int) =~= Seq::<(Option<Seq<char>>, bool)>::empty());
            Err(DownloadError::Anyhow(String::from_str(no_stream)))
        },
        None => Err(DownloadError::Anyhow(String::from_str(no_stream))),
    }
}

/// Reads a YouTube page: finds the player JSON, and returns the first stream
/// that has a plain URL, as a direct link titled with the video's title;
/// protected (ciphered) videos and pages without a stream are errors.
pub fn youtube_media(html: &str) -> (r: Result<ExtractedMedia, DownloadError>)
    ensures
        media_outcome(r) == youtube_outcome(html@),
        r matches Ok(m) ==> m.is_direct && opt_text(m.title) == youtube_title(html@),
        r matches Err(e) ==> e is Anyhow,
{
    let hit = match Pattern::compile("var ytInitialPlayerResponse\\s*=\\s*(\\{.+?\\});") {
        Some(pat) => pat.first_match(html),
        None => None,
    };
    let json = match player_json_of(&hit) {
        Some(j) => j,
        None => return Err(DownloadError::Anyhow(String::from_str("Could not find ytInitialPlayerResponse JSON"))),
    };
    let player = match parse_player_json(json.as_str()) {
        Ok(p) => p,
        Err(e) => return Err(DownloadError::Anyhow(String::from_str("JSON Parse Error: ").concat(e.as_str()))),
    };
    select_stream(&player)
}

} // verus!
