//! Request headers that make the engine look like an ordinary browser.
use vstd::prelude::*;
use crate::random::{choose_string, random_between};
use crate::static_analysis::{VarTable, keys_unique, pairs_view, strings_view};
use crate::urls::{opt_view, parse_url, url_parts};

verus! {

broadcast use vstd::string::group_string_axioms;

/// Pools of realistic user agents and languages to pick from.
pub struct BypassSystem {
    user_agents: Vec<String>,
    languages: Vec<String>,
}

/// The user agents that `new` offers.
pub open spec fn default_user_agents() -> Seq<Seq<char>> {
    seq![
        "Mozilla/5.0 (Windows NT 10.0; Win64; x64) AppleWebKit/537.36 (KHTML, like Gecko) Chrome/120.0.0.0 Safari/537.36"@,
        "Mozilla/5.0 (Macintosh; Intel Mac OS X 10_15_7) AppleWebKit/537.36 (KHTML, like Gecko) Chrome/119.0.0.0 Safari/537.36"@,
        "Mozilla/5.0 (X11; Linux x86_64) AppleWebKit/537.36 (KHTML, like Gecko) Chrome/120.0.0.0 Safari/537.36"@,
        "Mozilla/5.0 (iPhone; CPU iPhone OS 17_1_1 like Mac OS X) AppleWebKit/605.1.15 (KHTML, like Gecko) Version/17.1 Mobile/15E148 Safari/604.1"@,
    ]
}

/// The languages that `new` offers.
pub open spec fn default_languages() -> Seq<Seq<char>> {
    seq!["en-US,en;q=0.9"@, "en-GB,en;q=0.8"@, "fr-FR,fr;q=0.7"@, "de-DE,de;q=0.6"@]
}

/// The time zones that `get_random_timezone` picks from.
pub open spec fn timezones() -> Seq<Seq<char>> {
    seq!["UTC"@, "America/New_York"@, "Europe/London"@, "Asia/Tokyo"@]
}

/// The location that `get_spoofed_location` reports.
pub open spec fn spoofed_location() -> VarTable {
    seq![("lat"@, "40.7128"@), ("lon"@, "-74.0060"@), ("city"@, "New York"@)]
}

/// The decimal digits of `n`, as `Display` writes them.
pub open spec fn decimal(n: u8) -> Seq<char> {
    if n < 10 {
        seq![digit_char(n as nat)]
    } else if n < 100 {
        seq![digit_char((n / 10) as nat), digit_char((n % 10) as nat)]
    } else {
        seq![digit_char((n / 100) as nat), digit_char(((n / 10) % 10) as nat), digit_char((n % 10) as nat)]
    }
}

/// The character of a decimal digit.
pub open spec fn digit_char(d: nat) -> char {
    ((d + 48) as u32) as char
}

/// A dotted IPv4 address.
pub open spec fn dotted(o: (u8, u8, u8, u8)) -> Seq<char> {
    decimal(o.0) + "."@ + decimal(o.1) + "."@ + decimal(o.2) + "."@ + decimal(o.3)
}

/// The browser-like headers, in the order they are set, for user agent `ua`,
/// language `lang`, the request's host (for a spoofed referer) and the
/// four octets of a forged forwarding address. Names are lower case, as the
/// HTTP client stores them.
pub open spec fn bypass_headers(ua: Seq<char>, lang: Seq<char>, host: Option<Seq<char>>, o: (u8, u8, u8, u8)) -> VarTable {
    seq![
        ("user-agent"@, ua),
        ("accept"@, "text/html,application/xhtml+xml,application/xml;q=0.9,image/avif,image/webp,image/apng,*/*;q=0.8,application/signed-exchange;v=b3;q=0.7"@),
        ("accept-language"@, lang),
    ] + match host {
        Some(h) => seq![("referer"@, "https://"@ + h + "/"@)],
        None => Seq::empty(),
    } + seq![
        ("sec-ch-ua"@, "\"Not_A Brand\";v=\"8\", \"Chromium\";v=\"120\", \"Google Chrome\";v=\"120\""@),
        ("sec-ch-ua-mobile"@, "?0"@),
        ("sec-ch-ua-platform"@, "\"Windows\""@),
        ("sec-fetch-dest"@, "document"@),
        ("sec-fetch-mode"@, "navigate"@),
        ("sec-fetch-site"@, "none"@),
        ("sec-fetch-user"@, "?1"@),
        ("upgrade-insecure-requests"@, "1"@),
        ("x-forwarded-for"@, dotted(o)),
        ("via"@, "1.1 vegur"@),
        ("dnt"@, "1"@),
    ]
}

/// The host of `url` when it parses as a URL.
pub open spec fn host_of(url: Seq<char>) -> Option<Seq<char>> {
    match url_parts(url) {
        Some(p) => p.host,
        None => None,
    }
}

/// A forged forwarding octet: in `1..255`.
pub open spec fn octet_ok(n: u8) -> bool {
    1 <= n < 255
}

/// The character of the decimal digit `d`.
fn digit(d: u8) -> (c: char)
    requires
        d < 10,
    ensures
        c == digit_char(d as nat),
{
    assert(((d + 48) as u32) < 128);
    ((d + 48) as u8) as char
}

/// The decimal digits of `n`.
fn decimal_string(n: u8) -> (r: String)
    ensures
        r@ == decimal(n),
{
    let mut v: Vec<char> = Vec::new();
    if n < 10 {
        v.push(digit(n));
    } else if n < 100 {
        v.push(digit(n / 10));
        v.push(digit(n % 10));
    } else {
        v.push(digit(n / 100));
        v.push(digit((n / 10) % 10));
        v.push(digit(n % 10));
    }
    assert(v@ =~= decimal(n));
    crate::text::string_of(v.as_slice())
}

/// A header name and value.
fn header(name: &str, value: String) -> (r: (String, String))
    ensures
        r.0@ == name@,
        r.1@ == value@,
{
    (String::from_str(name), value)
}

/// A number that tells the header names apart: length, first letter and
/// eleventh letter.
spec fn name_code(s: Seq<char>) -> int {
    s.len() * 100000 + (s[0] as int) * 1000 + if s.len() > 10 { s[10] as int } else { 0 }
}

/// The header names are distinct.
proof fn lemma_header_names_distinct(ua: Seq<char>, lang: Seq<char>, host: Option<Seq<char>>, o: (u8, u8, u8, u8))
    ensures
        keys_unique(bypass_headers(ua, lang, host, o)),
{
    reveal_strlit("user-agent");
    reveal_strlit("accept");
    reveal_strlit("accept-language");
    reveal_strlit("referer");
    reveal_strlit("sec-ch-ua");
    reveal_strlit("sec-ch-ua-mobile");
    reveal_strlit("sec-ch-ua-platform");
    reveal_strlit("sec-fetch-dest");
    reveal_strlit("sec-fetch-mode");
    reveal_strlit("sec-fetch-site");
    reveal_strlit("sec-fetch-user");
    reveal_strlit("upgrade-insecure-requests");
    reveal_strlit("x-forwarded-for");
    reveal_strlit("via");
    reveal_strlit("dnt");
    let t = bypass_headers(ua, lang, host, o);
    assert(name_code("user-agent"@) == 1117000);
    assert(name_code("accept"@) == 697000);
    assert(name_code("accept-language"@) == 1597103);
    assert(name_code("referer"@) == 814000);
    assert(name_code("sec-ch-ua"@) == 1015000);
    assert(name_code("sec-ch-ua-mobile"@) == 1715109);
    assert(name_code("sec-ch-ua-platform"@) == 1915112);
    assert(name_code("sec-fetch-dest"@) == 1515100);
    assert(name_code("sec-fetch-mode"@) == 1515109);
    assert(name_code("sec-fetch-site"@) == 1515115);
    assert(name_code("sec-fetch-user"@) == 1515117);
    assert(name_code("upgrade-insecure-requests"@) == 2617115);
    assert(name_code("x-forwarded-for"@) == 1620100);
    assert(name_code("via"@) == 418000);
    assert(name_code("dnt"@) == 400000);
    assert forall|i: int, j: int| 0 <= i < t.len() && 0 <= j < t.len() && (#[trigger] t[i]).0 == (#[trigger] t[j]).0 implies i == j by {
        assert(name_code(t[i].0) == name_code(t[j].0));
    }
}

/// Builds the browser-like headers from the picks already made: user agent,
/// language, the request's host (none when the URL did not parse or has no
/// host) and the forwarding address. Each name occurs once.
pub fn build_headers(ua: String, lang: String, host: Option<String>, octets: (u8, u8, u8, u8)) -> (r: Vec<(String, String)>)
    ensures
        pairs_view(r@) == bypass_headers(ua@, lang@, opt_view(host), octets),
        keys_unique(pairs_view(r@)),
{
    let ghost hv = opt_view(host);
    let mut h: Vec<(String, String)> = Vec::new();
    h.push(header("user-agent", ua));
    h.push(header("accept", String::from_str("text/html,application/xhtml+xml,application/xml;q=0.9,image/avif,image/webp,image/apng,*/*;q=0.8,application/signed-exchange;v=b3;q=0.7")));
    h.push(header("accept-language", lang));
    match host {
        Some(name) => {
            let value = String::from_str("https://").concat(name.as_str()).concat("/");
            h.push(header("referer", value));
        },
        None => {},
    }
    h.push(header("sec-ch-ua", String::from_str("\"Not_A Brand\";v=\"8\", \"Chromium\";v=\"120\", \"Google Chrome\";v=\"120\"")));
    h.push(header("sec-ch-ua-mobile", String::from_str("?0")));
    h.push(header("sec-ch-ua-platform", String::from_str("\"Windows\"")));
    h.push(header("sec-fetch-dest", String::from_str("document")));
    h.push(header("sec-fetch-mode", String::from_str("navigate")));
    h.push(header("sec-fetch-site", String::from_str("none")));
    h.push(header("sec-fetch-user", String::from_str("?1")));
    h.push(header("upgrade-insecure-requests", String::from_str("1")));
    let forwarded = decimal_string(octets.0).concat(".").concat(decimal_string(octets.1).as_str()).concat(".").concat(
        decimal_string(octets.2).as_str(),
    ).concat(".").concat(decimal_string(octets.3).as_str());
    h.push(header("x-forwarded-for", forwarded));
    h.push(header("via", String::from_str("1.1 vegur")));
    h.push(header("dnt", String::from_str("1")));
    assert(pairs_view(h@) =~= bypass_headers(ua@, lang@, hv, octets));
    proof {
        lemma_header_names_distinct(ua@, lang@, hv, octets);
    }
    h
}

impl BypassSystem {
    /// The user agents offered.
    pub closed spec fn user_agent_pool(&self) -> Seq<Seq<char>> {
        strings_view(self.user_agents@)
    }

    /// The languages offered.
    pub closed spec fn language_pool(&self) -> Seq<Seq<char>> {
        strings_view(self.languages@)
    }

    /// Offers four desktop and mobile browser user agents and four
    /// languages.
    pub fn new() -> (r: Self)
        ensures
            r.user_agent_pool() == default_user_agents(),
            r.language_pool() == default_languages(),
    {
        let mut user_agents: Vec<String> = Vec::new();
        user_agents.push(String::from_str("Mozilla/5.0 (Windows NT 10.0; Win64; x64) AppleWebKit/537.36 (KHTML, like Gecko) Chrome/120.0.0.0 Safari/537.36"));
        user_agents.push(String::from_str("Mozilla/5.0 (Macintosh; Intel Mac OS X 10_15_7) AppleWebKit/537.36 (KHTML, like Gecko) Chrome/119.0.0.0 Safari/537.36"));
        user_agents.push(String::from_str("Mozilla/5.0 (X11; Linux x86_64) AppleWebKit/537.36 (KHTML, like Gecko) Chrome/120.0.0.0 Safari/537.36"));
        user_agents.push(String::from_str("Mozilla/5.0 (iPhone; CPU iPhone OS 17_1_1 like Mac OS X) AppleWebKit/605.1.15 (KHTML, like Gecko) Version/17.1 Mobile/15E148 Safari/604.1"));
        let mut languages: Vec<String> = Vec::new();
        languages.push(String::from_str("en-US,en;q=0.9"));
        languages.push(String::from_str("en-GB,en;q=0.8"));
        languages.push(String::from_str("fr-FR,fr;q=0.7"));
        languages.push(String::from_str("de-DE,de;q=0.6"));
        let r = BypassSystem { user_agents, languages };
        assert(r.user_agent_pool() =~= default_user_agents());
        assert(r.language_pool() =~= default_languages());
        r
    }

    /// Browser-like headers for a request to `url`: a user agent and a
    /// language picked at random from the pools, a referer naming the
    /// URL's host, and a forwarding address of four random octets in
    /// `1..255`.
    pub fn generate_headers(&self, url: &str) -> (r: Vec<(String, String)>)
        requires
            self.user_agent_pool().len() > 0,
            self.language_pool().len() > 0,
        ensures
            keys_unique(pairs_view(r@)),
            exists|ua: Seq<char>, lang: Seq<char>, o: (u8, u8, u8, u8)|
                #![trigger bypass_headers(ua, lang, host_of(url@), o)]
                self.user_agent_pool().contains(ua) && self.language_pool().contains(lang)
                && octet_ok(o.0) && octet_ok(o.1) && octet_ok(o.2) && octet_ok(o.3)
                && pairs_view(r@) == bypass_headers(ua, lang, host_of(url@), o),
    {
        let ua = choose_string(&self.user_agents);
        let lang = choose_string(&self.languages);
        let host = match parse_url(url) {
            Some(p) => p.host,
            None => None,
        };
        let o = (random_between(1, 255), random_between(1, 255), random_between(1, 255), random_between(1, 255));
        let r = build_headers(ua, lang, host, o);
        proof {
            let i = choose|i: int| 0 <= i < self.user_agents@.len() && ua@ == (#[trigger] self.user_agents@[i])@;
            assert(self.user_agent_pool()[i] == ua@);
            let j = choose|j: int| 0 <= j < self.languages@.len() && lang@ == (#[trigger] self.languages@[j])@;
            assert(self.language_pool()[j] == lang@);
        }
        r
    }

    /// One of four time zones, picked at random.
    pub fn get_random_timezone(&self) -> (r: String)
        ensures
            timezones().contains(r@),
    {
        let mut zones: Vec<String> = Vec::new();
        zones.push(String::from_str("UTC"));
        zones.push(String::from_str("America/New_York"));
        zones.push(String::from_str("Europe/London"));
        zones.push(String::from_str("Asia/Tokyo"));
        assert(strings_view(zones@) =~= timezones());
        let r = choose_string(&zones);
        proof {
            let i = choose|i: int| 0 <= i < zones@.len() && r@ == (#[trigger] zones@[i])@;
            assert(timezones()[i] == r@);
        }
        r
    }

    /// A fixed location in New York: latitude, longitude and city.
    pub fn get_spoofed_location(&self) -> (r: Vec<(String, String)>)
        ensures
            pairs_view(r@) == spoofed_location(),
    {
        let mut loc: Vec<(String, String)> = Vec::new();
        loc.push(header("lat", String::from_str("40.7128")));
        loc.push(header("lon", String::from_str("-74.0060")));
        loc.push(header("city", String::from_str("New York")));
        assert(pairs_view(loc@) =~= spoofed_location());
        loc
    }
}

} // verus!
