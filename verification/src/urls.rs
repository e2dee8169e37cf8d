//! URL parsing, through the `url` crate.
use vstd::prelude::*;

verus! {

/// What the library reads of a parsed URL.
#[derive(Debug, Clone)]
pub struct ParsedUrl {
    /// The serialized URL (`Url::as_str`).
    pub text: String,
    /// The host, as text (`Url::host_str`).
    pub host: Option<String>,
    /// The domain, when the host is a domain name (`Url::domain`).
    pub domain: Option<String>,
}

/// The characters of a parsed URL's parts.
pub struct UrlParts {
    pub text: Seq<char>,
    pub host: Option<Seq<char>>,
    pub domain: Option<Seq<char>>,
}

/// The characters of an optional string.
pub open spec fn opt_view(s: Option<String>) -> Option<Seq<char>> {
    match s {
        Some(t) => Some(t@),
        None => None,
    }
}

impl View for ParsedUrl {
    type V = UrlParts;

    open spec fn view(&self) -> UrlParts {
        UrlParts { text: self.text@, host: opt_view(self.host), domain: opt_view(self.domain) }
    }
}

/// What `url::Url::parse` makes of `s`: `None` when it refuses the text,
/// else the serialization, host and domain of the URL.
pub uninterp spec fn url_parts(s: Seq<char>) -> Option<UrlParts>;

/// `url::Url::parse`, keeping the serialization, host and domain of the
/// result; `None` when the text is not a valid absolute URL.
#[verifier::external_body]
pub fn parse_url(s: &str) -> (r: Option<ParsedUrl>)
    ensures
        r is None ==> url_parts(s@) is None,
        r matches Some(p) ==> url_parts(s@) == Some(p@),
{
    match url::Url::parse(s) {
        Ok(u) => Some(ParsedUrl {
            text: u.as_str().to_string(),
            host: u.host_str().map(|h| h.to_string()),
            domain: u.domain().map(|d| d.to_string()),
        }),
        Err(_) => None,
    }
}

} // verus!
