//! Regular-expression matching, through the `regex` crate.
use vstd::prelude::*;
use regex::Regex;

verus! {

#[verifier::external_type_specification]
#[verifier::external_body]
pub struct ExRegex(Regex);

/// The groups of one match: index 0 is the whole match, index `i` the text
/// of capture group `i`, `None` where that group took no part in the match.
pub type Groups = Seq<Option<Seq<char>>>;

/// `regex::Regex::new` accepts `pattern`.
pub uninterp spec fn regex_valid(pattern: Seq<char>) -> bool;

/// The groups of the leftmost-first match of `pattern` in `text`
/// (`Regex::captures`), `None` when it does not match.
pub uninterp spec fn regex_first(pattern: Seq<char>, text: Seq<char>) -> Option<Groups>;

/// The groups of the successive non-overlapping matches of `pattern` in
/// `text` (`Regex::captures_iter`).
pub uninterp spec fn regex_all(pattern: Seq<char>, text: Seq<char>) -> Seq<Groups>;

/// The characters of each group.
pub open spec fn groups_view(g: Seq<Option<String>>) -> Groups {
    g.map_values(|o: Option<String>| match o {
        Some(s) => Some(s@),
        None => None,
    })
}

/// The groups of a match, if there is one.
pub open spec fn hit_view(h: Option<Vec<Option<String>>>) -> Option<Groups> {
    match h {
        Some(g) => Some(groups_view(g@)),
        None => None,
    }
}

/// Every match has a group 0, and it is present.
pub open spec fn well_formed_groups(g: Groups) -> bool {
    g.len() >= 1 && g[0] is Some
}

/// A compiled regular expression, with the text it was compiled from.
pub struct Pattern {
    source: String,
    re: Regex,
}

impl Pattern {
    /// The text this pattern was compiled from.
    pub closed spec fn source(&self) -> Seq<char> {
        self.source@
    }

    /// `regex::Regex::new`: compiles `pattern`, `None` when the regex crate
    /// refuses it.
    #[verifier::external_body]
    pub fn compile(pattern: &str) -> (r: Option<Pattern>)
        ensures
            r is Some == regex_valid(pattern@),
            r matches Some(p) ==> p.source() == pattern@,
    {
        Regex::new(pattern).ok().map(|re| Pattern { source: pattern.to_string(), re })
    }

    /// `Regex::captures`: the groups of the first match in `text`. The regex
    /// crate documents that group 0, the whole match, is always there.
    #[verifier::external_body]
    pub fn first_match(&self, text: &str) -> (r: Option<Vec<Option<String>>>)
        ensures
            r is None ==> regex_first(self.source(), text@) is None,
            r matches Some(g) ==> regex_first(self.source(), text@) == Some(groups_view(g@)),
            r matches Some(g) ==> well_formed_groups(groups_view(g@)),
    {
        self.re.captures(text).map(|c| c.iter().map(|m| m.map(|x| x.as_str().to_string())).collect())
    }

    /// `Regex::captures_iter`: the groups of every match in `text`, in order.
    #[verifier::external_body]
    pub fn all_matches(&self, text: &str) -> (r: Vec<Vec<Option<String>>>)
        ensures
            r@.len() == regex_all(self.source(), text@).len(),
            forall|i: int| 0 <= i < r@.len() ==> groups_view(#[trigger] r@[i]@) == regex_all(self.source(), text@)[i],
            forall|i: int| 0 <= i < r@.len() ==> well_formed_groups(groups_view(#[trigger] r@[i]@)),
    {
        self.re.captures_iter(text).map(|c| c.iter().map(|m| m.map(|x| x.as_str().to_string())).collect()).collect()
    }
}

} // verus!
