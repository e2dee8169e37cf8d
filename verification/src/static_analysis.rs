//! Static analysis of HTML pages: links picked by CSS selectors, texts picked
//! by regular expressions, and simple JavaScript variables.
use vstd::prelude::*;
use crate::error::DownloadError;
use crate::patterns::{Groups, Pattern, groups_view, regex_all, regex_valid, well_formed_groups};
use crate::text::{chars_of, contains, occurs_at, same_chars, seq_contains};
use lol_html::{ElementContentHandlers, HtmlRewriter, Selector, Settings};
use lol_html::html_content::Element;
use std::borrow::Cow;
use std::cell::RefCell;

verus! {

broadcast use vstd::string::group_string_axioms;

/// The analyzer; it holds no settings.
pub struct StaticAnalyzer {}

/// What a regex match contributes: group 1 when it took part, else the whole
/// match.
pub open spec fn group1_or_match(g: Groups) -> Seq<char> {
    if g.len() > 1 && g[1] is Some {
        g[1]->0
    } else if g.len() > 0 && g[0] is Some {
        g[0]->0
    } else {
        Seq::empty()
    }
}

/// The texts that `extract_with_js_patterns` gathers: for each pattern that
/// compiles, in order, what each of its matches contributes.
pub open spec fn js_pattern_texts(html: Seq<char>, patterns: Seq<Seq<char>>) -> Seq<Seq<char>>
    decreases patterns.len(),
{
    if patterns.len() == 0 {
        Seq::empty()
    } else {
        let p = patterns.last();
        js_pattern_texts(html, patterns.drop_last()) + if regex_valid(p) {
            regex_all(p, html).map_values(|g: Groups| group1_or_match(g))
        } else {
            Seq::empty()
        }
    }
}

/// A table of variables: names and values, each name at most once.
pub type VarTable = Seq<(Seq<char>, Seq<char>)>;

/// `t` holds a value for `k`.
pub open spec fn has_key(t: VarTable, k: Seq<char>) -> bool {
    exists|i: int| 0 <= i < t.len() && (#[trigger] t[i]).0 == k
}

/// Each name occurs at most once.
pub open spec fn keys_unique(t: VarTable) -> bool {
    forall|i: int, j: int| 0 <= i < t.len() && 0 <= j < t.len() && (#[trigger] t[i]).0 == (#[trigger] t[j]).0 ==> i == j
}

/// Sets `k` to `v`: an existing entry keeps its place and takes the new
/// value; a new name is added at the end.
pub open spec fn table_insert(t: VarTable, k: Seq<char>, v: Seq<char>) -> VarTable {
    if has_key(t, k) {
        t.update(choose|i: int| 0 <= i < t.len() && (#[trigger] t[i]).0 == k, (k, v))
    } else {
        t.push((k, v))
    }
}

/// The value stored for `k`.
pub open spec fn table_get(t: VarTable, k: Seq<char>) -> Option<Seq<char>> {
    if has_key(t, k) {
        Some(t[choose|i: int| 0 <= i < t.len() && (#[trigger] t[i]).0 == k].1)
    } else {
        None
    }
}

/// The name and value that a match assigns: groups 1 and 2.
pub open spec fn match_assignment(g: Groups) -> Option<(Seq<char>, Seq<char>)> {
    if g.len() > 2 && g[1] is Some && g[2] is Some {
        Some((g[1]->0, g[2]->0))
    } else {
        None
    }
}

/// `t` after the assignments of the matches `ms`, in order.
pub open spec fn assign_all(t: VarTable, ms: Seq<Groups>) -> VarTable
    decreases ms.len(),
{
    if ms.len() == 0 {
        t
    } else {
        let t0 = assign_all(t, ms.drop_last());
        match match_assignment(ms.last()) {
            Some(kv) => table_insert(t0, kv.0, kv.1),
            None => t0,
        }
    }
}

/// Matches `var|let|const name = "value"`.
pub open spec fn var_pattern() -> Seq<char> {
    "(?:var|let|const)\\s+([a-zA-Z0-9_$]+)\\s*=\\s*[\"']([^\"']+)[\"']"@
}

/// Matches `"key": "value"` and `key: "value"`.
pub open spec fn property_pattern() -> Seq<char> {
    "[\"']?([a-zA-Z0-9_$]+)[\"']?\\s*:\\s*[\"']([^\"']+)[\"']"@
}

/// The matches of `pattern` in `html`, none when it does not compile.
pub open spec fn matches_of(pattern: Seq<char>, html: Seq<char>) -> Seq<Groups> {
    if regex_valid(pattern) {
        regex_all(pattern, html)
    } else {
        Seq::empty()
    }
}

/// The variables of a page: the `var`/`let`/`const` assignments, then the
/// object properties, later ones overriding earlier ones of the same name.
pub open spec fn js_vars(html: Seq<char>) -> VarTable {
    assign_all(
        assign_all(Seq::empty(), matches_of(var_pattern(), html)),
        matches_of(property_pattern(), html),
    )
}

/// The first of three names that the table holds a value for.
pub open spec fn first_of(t: VarTable, a: Seq<char>, b: Seq<char>, c: Seq<char>) -> Option<Seq<char>> {
    if table_get(t, a) is Some {
        table_get(t, a)
    } else if table_get(t, b) is Some {
        table_get(t, b)
    } else {
        table_get(t, c)
    }
}

/// The URL rebuilt from a page's variables: the base (`base_url`, `baseUrl`
/// or `host`) followed by the path (`file_path`, `path` or `slug`), with the
/// token (`token`, `k` or `auth`) added as a `token` query parameter.
pub open spec fn rebuilt_url(t: VarTable) -> Option<Seq<char>> {
    let base = first_of(t, "base_url"@, "baseUrl"@, "host"@);
    let path = first_of(t, "file_path"@, "path"@, "slug"@);
    let token = first_of(t, "token"@, "k"@, "auth"@);
    if base is Some && path is Some {
        let url = base->0 + path->0;
        Some(match token {
            Some(tk) => if !seq_contains(url, "?"@) {
                url + "?token="@ + tk
            } else {
                url + "&token="@ + tk
            },
            None => url,
        })
    } else {
        None
    }
}

/// How the URL is rebuilt from a table's base `b`, path `p` and token `k`:
/// the URL is `b` followed by `p`; a token is added as a query parameter,
/// joined with `&` when `b` followed by `p` already has a query (a `?`), and
/// with `?` only when it has none, so no second `?` is added; without a
/// base or a path there is no URL.
pub proof fn lemma_rebuilt_url_query(t: VarTable)
    ensures
        ({
            let base = first_of(t, "base_url"@, "baseUrl"@, "host"@);
            let path = first_of(t, "file_path"@, "path"@, "slug"@);
            let token = first_of(t, "token"@, "k"@, "auth"@);
            &&& (base is None || path is None) ==> rebuilt_url(t) is None
            &&& (base is Some && path is Some && token is None) ==> rebuilt_url(t) == Some(base->0 + path->0)
            &&& (base is Some && path is Some && token is Some && seq_contains(base->0 + path->0, "?"@))
                ==> rebuilt_url(t) == Some(base->0 + path->0 + "&token="@ + token->0)
            &&& (base is Some && path is Some && token is Some && !seq_contains(base->0 + path->0, "?"@))
                ==> rebuilt_url(t) == Some(base->0 + path->0 + "?token="@ + token->0)
            &&& (base is Some && path is Some && token is Some && seq_contains(path->0, "?"@))
                ==> rebuilt_url(t) == Some(base->0 + path->0 + "&token="@ + token->0)
        }),
{
    let base = first_of(t, "base_url"@, "baseUrl"@, "host"@);
    let path = first_of(t, "file_path"@, "path"@, "slug"@);
    if base is Some && path is Some && seq_contains(path->0, "?"@) {
        lemma_contains_in_suffix(base->0, path->0, "?"@);
    }
}

/// What occurs in the second part of a concatenation occurs in the whole.
proof fn lemma_contains_in_suffix(a: Seq<char>, b: Seq<char>, x: Seq<char>)
    requires
        seq_contains(b, x),
    ensures
        seq_contains(a + b, x),
{
    let i = choose|i: int| occurs_at(b, x, i);
    assert((a + b).subrange(a.len() + i, a.len() + i + x.len()) =~= b.subrange(i, i + x.len()));
    assert(occurs_at(a + b, x, a.len() + i));
}

/// The characters of each pair of a variable list.
pub open spec fn pairs_view(v: Seq<(String, String)>) -> VarTable {
    v.map_values(|p: (String, String)| (p.0@, p.1@))
}

/// The characters of each string of a list.
pub open spec fn strings_view(v: Seq<String>) -> Seq<Seq<char>> {
    v.map_values(|s: String| s@)
}

/// The characters of each string slice of a list.
pub open spec fn strs_view(v: Seq<&str>) -> Seq<Seq<char>> {
    v.map_values(|s: &str| s@)
}


/// The link attributes of one element matched by a selector.
pub struct LinkAttrs {
    pub href: Option<String>,
    pub src: Option<String>,
    pub content: Option<String>,
}

/// The characters of an element's `href`, `src` and `content` attributes.
pub type AttrsView = (Option<Seq<char>>, Option<Seq<char>>, Option<Seq<char>>);

/// The characters of an optional string.
pub open spec fn opt_chars(s: Option<String>) -> Option<Seq<char>> {
    match s {
        Some(t) => Some(t@),
        None => None,
    }
}

/// The characters of a list of element attributes.
pub open spec fn attrs_view(v: Seq<LinkAttrs>) -> Seq<AttrsView> {
    v.map_values(|a: LinkAttrs| (opt_chars(a.href), opt_chars(a.src), opt_chars(a.content)))
}

/// The characters of a rewriting outcome.
pub open spec fn attrs_outcome(r: Result<Vec<LinkAttrs>, String>) -> Result<Seq<AttrsView>, Seq<char>> {
    match r {
        Ok(v) => Ok(attrs_view(v@)),
        Err(e) => Err(e@),
    }
}

/// lol_html parses `s` as a CSS selector (`Selector::from_str`).
pub uninterp spec fn selector_valid(s: Seq<char>) -> bool;

/// What one lol_html rewriting pass over `html` reports, with one element
/// handler per selector registered in order: the `href`, `src` and `content`
/// attributes of each element a handler runs on, in the order the handlers
/// run, or the message of the rewriting error.
pub uninterp spec fn selected_elements(html: Seq<char>, selectors: Seq<Seq<char>>) -> Result<Seq<AttrsView>, Seq<char>>;

/// `Selector::from_str`: whether lol_html accepts `s` as a CSS selector.
#[verifier::external_body]
fn selector_parses(s: &str) -> (r: bool)
    ensures
        r == selector_valid(s@),
{
    s.parse::<Selector>().is_ok()
}

/// `HtmlRewriter::write` and `end` over `html`, with an element handler for
/// each selector that records the element's link attributes. The selectors
/// are parsed when the handlers are built, which panics on an invalid one:
/// that is excluded.
#[verifier::external_body]
fn select_elements(html: &str, selectors: &Vec<String>) -> (r: Result<Vec<LinkAttrs>, String>)
    requires
        forall|i: int| 0 <= i < selectors@.len() ==> selector_valid(#[trigger] selectors@[i]@),
    ensures
        attrs_outcome(r) == selected_elements(html@, strings_view(selectors@)),
{
    let found = RefCell::new(Vec::new());
    let handlers = selectors.iter().map(|s| (Cow::Owned(s.parse().unwrap()),
        ElementContentHandlers::default().element(|el: &mut Element| {
            found.borrow_mut().push(LinkAttrs { href: el.get_attribute("href"), src: el.get_attribute("src"), content: el.get_attribute("content") });
            Ok(())
        }))).collect();
    let mut rw = HtmlRewriter::new(Settings { element_content_handlers: handlers, ..Settings::default() }, |_: &[u8]| {});
    rw.write(html.as_bytes()).map_err(|e| e.to_string())?;
    rw.end().map_err(|e| e.to_string())?;
    Ok(found.into_inner())
}

/// The link an element gives: its `href`, else its `src`, else its
/// `content`; none when it has none of them.
pub open spec fn element_link(a: AttrsView) -> Option<Seq<char>> {
    if a.0 is Some {
        a.0
    } else if a.1 is Some {
        a.1
    } else {
        a.2
    }
}

/// The links of a list of elements, in order.
pub open spec fn links_of(v: Seq<AttrsView>) -> Seq<Seq<char>>
    decreases v.len(),
{
    if v.len() == 0 {
        Seq::empty()
    } else {
        links_of(v.drop_last()) + match element_link(v.last()) {
            Some(l) => seq![l],
            None => Seq::empty(),
        }
    }
}

/// What `extract_links` returns: the links of the selected elements, or the
/// rewriting error's message.
pub open spec fn extracted_links(html: Seq<char>, selectors: Seq<Seq<char>>) -> Result<Seq<Seq<char>>, Seq<char>> {
    match selected_elements(html, selectors) {
        Ok(v) => Ok(links_of(v)),
        Err(e) => Err(e),
    }
}

/// The characters of an `extract_links` outcome; an error other than
/// `Anyhow` has no message here.
pub open spec fn links_outcome(r: Result<Vec<String>, DownloadError>) -> Result<Seq<Seq<char>>, Seq<char>> {
    match r {
        Ok(v) => Ok(strings_view(v@)),
        Err(DownloadError::Anyhow(m)) => Err(m@),
        Err(_) => Err(Seq::empty()),
    }
}

/// The groups of each match.
pub open spec fn matches_view(ms: Seq<Vec<Option<String>>>) -> Seq<Groups> {
    ms.map_values(|g: Vec<Option<String>>| groups_view(g@))
}

/// The text that a match contributes: group 1 when it took part, else the
/// whole match.
pub fn match_text(g: &Vec<Option<String>>) -> (r: String)
    requires
        g@.len() >= 1,
    ensures
        r@ == group1_or_match(groups_view(g@)),
{
    if g.len() > 1 {
        match &g[1] {
            Some(s) => {
                return s.clone();
            },
            None => {},
        }
    }
    match &g[0] {
        Some(s) => s.clone(),
        None => String::new(),
    }
}

/// The texts that the matches `ms` contribute, in order.
pub fn match_texts(ms: &Vec<Vec<Option<String>>>) -> (r: Vec<String>)
    requires
        forall|j: int| 0 <= j < ms@.len() ==> (#[trigger] ms@[j])@.len() >= 1,
    ensures
        strings_view(r@) == matches_view(ms@).map_values(|g: Groups| group1_or_match(g)),
{
    let ghost add = matches_view(ms@).map_values(|g: Groups| group1_or_match(g));
    let mut results: Vec<String> = Vec::new();
    let mut i: usize = 0;
    while i < ms.len()
        invariant
            add == matches_view(ms@).map_values(|g: Groups| group1_or_match(g)),
            forall|j: int| 0 <= j < ms@.len() ==> (#[trigger] ms@[j])@.len() >= 1,
            i <= ms.len(),
            strings_view(results@) == add.take(i as int),
        decreases ms.len() - i,
    {
        let t = match_text(&ms[i]);
        assert(add[i as int] == t@);
        let ghost prev = results@;
        results.push(t);
        assert(strings_view(results@) =~= strings_view(prev).push(t@));
        assert(strings_view(results@) =~= add.take(i + 1));
        i = i + 1;
    }
    assert(add.take(ms.len() as int) =~= add);
    results
}

/// Applies the assignments of the matches `ms` to `t`, in order: each match
/// with groups 1 and 2 sets the name in group 1 to the value in group 2.
pub fn assign_from_matches(t: &mut Vec<(String, String)>, ms: &Vec<Vec<Option<String>>>)
    requires
        keys_unique(pairs_view(old(t)@)),
    ensures
        keys_unique(pairs_view(final(t)@)),
        pairs_view(final(t)@) == assign_all(pairs_view(old(t)@), matches_view(ms@)),
{
    let ghost gs = matches_view(ms@);
    let ghost t0 = pairs_view(t@);
    let mut i: usize = 0;
    while i < ms.len()
        invariant
            gs == matches_view(ms@),
            t0 == pairs_view(old(t)@),
            i <= ms.len(),
            keys_unique(pairs_view(t@)),
            pairs_view(t@) == assign_all(t0, gs.take(i as int)),
        decreases ms.len() - i,
    {
        let g = &ms[i];
        assert(gs.take(i + 1).drop_last() =~= gs.take(i as int));
        assert(gs.take(i + 1).last() == groups_view(g@));
        if g.len() > 2 {
            match (&g[1], &g[2]) {
                (Some(k), Some(v)) => {
                    insert_var(t, k.clone(), v.clone());
                },
                _ => {},
            }
        }
        i = i + 1;
    }
    assert(gs.take(ms.len() as int) =~= gs);
}

/// Sets `k` to `v` in the table `t`, in place.
fn insert_var(t: &mut Vec<(String, String)>, k: String, v: String)
    requires
        keys_unique(pairs_view(old(t)@)),
    ensures
        keys_unique(pairs_view(final(t)@)),
        pairs_view(final(t)@) == table_insert(pairs_view(old(t)@), k@, v@),
{
    let ghost tv = pairs_view(t@);
    let kc = chars_of(k.as_str());
    let mut i: usize = 0;
    while i < t.len()
        invariant
            tv == pairs_view(t@),
            keys_unique(tv),
            t@ == old(t)@,
            kc@ == k@,
            i <= t.len(),
            forall|j: int| 0 <= j < i ==> tv[j].0 != k@,
        decreases t.len() - i,
    {
        if same_chars(chars_of(t[i].0.as_str()).as_slice(), kc.as_slice()) {
            assert(tv[i as int].0 == k@);
            assert(has_key(tv, k@));
            let ghost c = choose|j: int| 0 <= j < tv.len() && (#[trigger] tv[j]).0 == k@;
            assert(c == i) by {
                assert(keys_unique(tv));
                assert(tv[c].0 == tv[i as int].0);
            }
            let name = t[i].0.clone();
            t.set(i, (k, v));
            assert(pairs_view(t@) =~= tv.update(i as int, (k@, v@)));
            assert(keys_unique(pairs_view(t@))) by {
                let nt = pairs_view(t@);
                assert forall|a: int, b: int| 0 <= a < nt.len() && 0 <= b < nt.len() && (#[trigger] nt[a]).0 == (#[trigger] nt[b]).0 implies a == b by {
                    if a != i && b != i {
                        assert(nt[a] == tv[a] && nt[b] == tv[b]);
                    } else if a == i && b != i {
                        assert(nt[b] == tv[b]);
                        assert(tv[b].0 == tv[i as int].0);
                    } else if b == i && a != i {
                        assert(nt[a] == tv[a]);
                        assert(tv[a].0 == tv[i as int].0);
                    }
                }
            }
            return;
        }
        i = i + 1;
    }
    assert(!has_key(tv, k@));
    t.push((k, v));
    assert(pairs_view(t@) =~= tv.push((k@, v@)));
    assert(keys_unique(pairs_view(t@))) by {
        let nt = pairs_view(t@);
        assert forall|a: int, b: int| 0 <= a < nt.len() && 0 <= b < nt.len() && (#[trigger] nt[a]).0 == (#[trigger] nt[b]).0 implies a == b by {
            if a < tv.len() && b < tv.len() {
                assert(nt[a] == tv[a] && nt[b] == tv[b]);
            } else if a < tv.len() {
                assert(nt[a] == tv[a]);
            } else if b < tv.len() {
                assert(nt[b] == tv[b]);
            }
        }
    }
}

/// Applies the assignments of every match of `pattern` to `t`.
fn assign_matches(t: &mut Vec<(String, String)>, pattern: &str, html: &str)
    requires
        keys_unique(pairs_view(old(t)@)),
    ensures
        keys_unique(pairs_view(final(t)@)),
        pairs_view(final(t)@) == assign_all(pairs_view(old(t)@), matches_of(pattern@, html@)),
{
    match Pattern::compile(pattern) {
        None => {
            assert(matches_of(pattern@, html@) =~= Seq::<Groups>::empty());
        },
        Some(p) => {
            let ms = p.all_matches(html);
            assert(matches_view(ms@) =~= regex_all(pattern@, html@));
            assign_from_matches(t, &ms);
        },
    }
}

/// The value `t` holds for `k`.
fn lookup_var(t: &Vec<(String, String)>, k: &str) -> (r: Option<String>)
    requires
        keys_unique(pairs_view(t@)),
    ensures
        match r {
            Some(v) => table_get(pairs_view(t@), k@) == Some(v@),
            None => table_get(pairs_view(t@), k@) is None,
        },
{
    let ghost tv = pairs_view(t@);
    let kc = chars_of(k);
    let mut i: usize = 0;
    while i < t.len()
        invariant
            tv == pairs_view(t@),
            keys_unique(tv),
            kc@ == k@,
            i <= t.len(),
            forall|j: int| 0 <= j < i ==> tv[j].0 != k@,
        decreases t.len() - i,
    {
        if same_chars(chars_of(t[i].0.as_str()).as_slice(), kc.as_slice()) {
            assert(tv[i as int].0 == k@);
            assert(has_key(tv, k@));
            let ghost c = choose|j: int| 0 <= j < tv.len() && (#[trigger] tv[j]).0 == k@;
            assert(tv[c].0 == tv[i as int].0);
            return Some(t[i].1.clone());
        }
        i = i + 1;
    }
    assert(!has_key(tv, k@));
    None
}

/// The value of the first of three names that `t` holds.
fn lookup_first(t: &Vec<(String, String)>, a: &str, b: &str, c: &str) -> (r: Option<String>)
    requires
        keys_unique(pairs_view(t@)),
    ensures
        match r {
            Some(v) => first_of(pairs_view(t@), a@, b@, c@) == Some(v@),
            None => first_of(pairs_view(t@), a@, b@, c@) is None,
        },
{
    match lookup_var(t, a) {
        Some(v) => Some(v),
        None => match lookup_var(t, b) {
            Some(v) => Some(v),
            None => lookup_var(t, c),
        },
    }
}

/// The links of the elements a selector pass picked, in order: each
/// element's `href`, else its `src`, else its `content`; an element with none
/// of them gives no link.
pub fn links_of_elements(elements: &Vec<LinkAttrs>) -> (r: Vec<String>)
    ensures
        strings_view(r@) == links_of(attrs_view(elements@)),
{
    let ghost ev = attrs_view(elements@);
    let mut links: Vec<String> = Vec::new();
    let mut k: usize = 0;
    while k < elements.len()
        invariant
            ev == attrs_view(elements@),
            k <= elements.len(),
            strings_view(links@) == links_of(ev.take(k as int)),
        decreases elements.len() - k,
    {
        assert(ev.take(k + 1).drop_last() =~= ev.take(k as int));
        let ghost prev = links@;
        let el = &elements[k];
        let picked = match &el.href {
            Some(h) => Some(h.clone()),
            None => match &el.src {
                Some(s) => Some(s.clone()),
                None => match &el.content {
                    Some(c) => Some(c.clone()),
                    None => None,
                },
            },
        };
        match picked {
            Some(l) => {
                links.push(l);
                assert(strings_view(links@) =~= strings_view(prev).push(l@));
            },
            None => {},
        }
        assert(strings_view(links@) =~= links_of(ev.take(k + 1)));
        k = k + 1;
    }
    assert(ev.take(elements.len() as int) =~= ev);
    links
}

impl StaticAnalyzer {
    pub fn new() -> (r: Self) {
        StaticAnalyzer {}
    }

    /// For each pattern that compiles, in order, the text of every match:
    /// capture group 1 when it took part, else the whole match.
    pub fn extract_with_js_patterns(&self, html: &str, patterns: &[&str]) -> (r: Vec<String>)
        ensures
            strings_view(r@) == js_pattern_texts(html@, strs_view(patterns@)),
    {
        let mut results: Vec<String> = Vec::new();
        let ghost ps = strs_view(patterns@);
        let mut k: usize = 0;
        while k < patterns.len()
            invariant
                ps == strs_view(patterns@),
                k <= patterns.len(),
                strings_view(results@) == js_pattern_texts(html@, ps.take(k as int)),
            decreases patterns.len() - k,
        {
            assert(ps.take(k + 1).drop_last() =~= ps.take(k as int));
            assert(ps.take(k + 1).last() == patterns@[k as int]@);
            let ghost before = strings_view(results@);
            match Pattern::compile(patterns[k]) {
                None => {
                    assert(js_pattern_texts(html@, ps.take(k + 1)) =~= before);
                },
                Some(p) => {
                    let ms = p.all_matches(html);
                    assert(matches_view(ms@) =~= regex_all(p.source(), html@));
                    assert forall|j: int| 0 <= j < ms@.len() implies (#[trigger] ms@[j])@.len() >= 1 by {
                        assert(well_formed_groups(groups_view(ms@[j]@)));
                    }
                    let mut texts = match_texts(&ms);
                    let ghost add = strings_view(texts@);
                    results.append(&mut texts);
                    assert(strings_view(results@) =~= before + add);
                    assert(js_pattern_texts(html@, ps.take(k + 1)) =~= before + add);
                },
            }
            k = k + 1;
        }
        assert(ps.take(patterns.len() as int) =~= ps);
        results
    }

    /// The page's simple JavaScript variables: every `var`/`let`/`const`
    /// assignment of a quoted value, then every quoted object property, a
    /// later one replacing the value of an earlier one with the same name.
    /// Each name occurs once in the result.
    pub fn scrape_js_vars(&self, html: &str) -> (r: Vec<(String, String)>)
        ensures
            keys_unique(pairs_view(r@)),
            pairs_view(r@) == js_vars(html@),
    {
        let mut vars: Vec<(String, String)> = Vec::new();
        assert(pairs_view(vars@) =~= Seq::<(Seq<char>, Seq<char>)>::empty());
        assign_matches(&mut vars, "(?:var|let|const)\\s+([a-zA-Z0-9_$]+)\\s*=\\s*[\"']([^\"']+)[\"']", html);
        assign_matches(&mut vars, "[\"']?([a-zA-Z0-9_$]+)[\"']?\\s*:\\s*[\"']([^\"']+)[\"']", html);
        vars
    }

    /// Rebuilds a URL from the page's variables: base followed by path, with
    /// the token appended as `?token=` (or `&token=` when the URL already has
    /// a `?`); `None` unless both a base and a path are found.
    pub fn reconstruct_url_from_js(&self, html: &str) -> (r: Option<String>)
        ensures
            match r {
                Some(u) => rebuilt_url(js_vars(html@)) == Some(u@),
                None => rebuilt_url(js_vars(html@)) is None,
            },
    {
        let vars = self.scrape_js_vars(html);
        let base = lookup_first(&vars, "base_url", "baseUrl", "host");
        let path = lookup_first(&vars, "file_path", "path", "slug");
        let token = lookup_first(&vars, "token", "k", "auth");
        match (base, path) {
            (Some(b), Some(p)) => {
                let url = b.concat(p.as_str());
                let result = match token {
                    Some(t) => {
                        let q = chars_of("?");
                        if !contains(chars_of(url.as_str()).as_slice(), q.as_slice()) {
                            url.concat("?token=").concat(t.as_str())
                        } else {
                            url.concat("&token=").concat(t.as_str())
                        }
                    },
                    None => url,
                };
                Some(result)
            },
            _ => None,
        }
    }


    /// The links of the elements that the CSS `selectors` pick, in document
    /// order (an element picked by several selectors once per selector):
    /// each element's `href`, else `src`, else `content` attribute. Every
    /// selector must be valid CSS; a rewriting error is returned as
    /// `Anyhow` with its message.
    pub fn extract_links(&self, html: &str, selectors: &[&str]) -> (r: Result<Vec<String>, DownloadError>)
        requires
            forall|i: int| 0 <= i < selectors@.len() ==> selector_valid(#[trigger] selectors@[i]@),
        ensures
            extracted_links(html@, strs_view(selectors@)) == links_outcome(r),
            r matches Err(e) ==> e is Anyhow,
    {
        let mut owned: Vec<String> = Vec::new();
        let mut i: usize = 0;
        while i < selectors.len()
            invariant
                i <= selectors.len(),
                strings_view(owned@) == strs_view(selectors@).take(i as int),
                forall|j: int| 0 <= j < selectors@.len() ==> selector_valid(#[trigger] selectors@[j]@),
            decreases selectors.len() - i,
        {
            let ghost prev = owned@;
            owned.push(String::from_str(selectors[i]));
            assert(strings_view(owned@) =~= strings_view(prev).push(selectors@[i as int]@));
            assert(strs_view(selectors@).take(i + 1) =~= strs_view(selectors@).take(i as int).push(selectors@[i as int]@));
            i = i + 1;
        }
        assert(strs_view(selectors@).take(selectors.len() as int) =~= strs_view(selectors@));
        assert forall|j: int| 0 <= j < owned@.len() implies selector_valid(#[trigger] owned@[j]@) by {
            assert(strings_view(owned@)[j] == owned@[j]@);
            assert(strs_view(selectors@)[j] == selectors@[j]@);
        }
        match select_elements(html, &owned) {
            Err(m) => Err(DownloadError::Anyhow(m)),
            Ok(elements) => {
                let links = links_of_elements(&elements);
                Ok(links)
            },
        }
    }

    /// `extract_links` when every selector is valid CSS; `None` when one is
    /// not (the analyzer would fail on it).
    pub fn extract_links_checked(&self, html: &str, selectors: &[&str]) -> (r: Option<Result<Vec<String>, DownloadError>>)
        ensures
            r is Some == (forall|i: int| 0 <= i < selectors@.len() ==> selector_valid(#[trigger] selectors@[i]@)),
            r matches Some(res) ==> extracted_links(html@, strs_view(selectors@)) == links_outcome(res),
            r matches Some(Err(e)) ==> e is Anyhow,
    {
        let mut i: usize = 0;
        while i < selectors.len()
            invariant
                i <= selectors.len(),
                forall|j: int| 0 <= j < i ==> selector_valid(#[trigger] selectors@[j]@),
            decreases selectors.len() - i,
        {
            if !selector_parses(selectors[i]) {
                return None;
            }
            i = i + 1;
        }
        Some(self.extract_links(html, selectors))
    }

}

} // verus!
