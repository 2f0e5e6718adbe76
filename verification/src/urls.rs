//! URLs: resolving links against a page, and unwrapping the redirect links of
//! search engines.
use vstd::prelude::*;
use base64::Engine;
use vstd::utf8::{decode_utf8, encode_utf8, valid_utf8};
use crate::text::{
    chars_of, concat, has_prefix, is_infix, slice_chars, str_contains, string_from, utf8_len,
    byte_len, starts_with,
};

verus! {

#[verifier::external_type_specification]
#[verifier::external_body]
pub struct ExUrl(url::Url);

/// What the logic reads of a parsed URL.
pub struct UrlView {
    /// The serialization (`Display` of the URL).
    pub text: Seq<char>,
    /// `host_str`.
    pub host: Option<Seq<char>>,
    /// `path`.
    pub path: Seq<char>,
    /// `query_pairs`, decoded, in order.
    pub query: Seq<(Seq<char>, Seq<char>)>,
}

/// What `url::Url::parse` makes of a string, read as a `UrlView` (`None` where it
/// refuses the string).
pub uninterp spec fn url_parse(s: Seq<char>) -> Option<UrlView>;

/// What `url::Url::join` gives for the URL serialized as `base` and a reference
/// `href`, serialized (`None` where it refuses `href`).
pub uninterp spec fn url_join(base: Seq<char>, href: Seq<char>) -> Option<Seq<char>>;

/// A URL accepted by `url::Url::parse`, with the parts the logic reads.
pub struct ParsedUrl {
    url: url::Url,
    text: String,
    host: Option<String>,
    path: String,
    query: Vec<(String, String)>,
}

/// Views of query pairs.
pub open spec fn pair_views(q: Seq<(String, String)>) -> Seq<(Seq<char>, Seq<char>)> {
    q.map_values(|p: (String, String)| (p.0@, p.1@))
}

impl View for ParsedUrl {
    type V = UrlView;

    closed spec fn view(&self) -> UrlView {
        UrlView {
            text: self.text@,
            host: match self.host {
                Some(h) => Some(h@),
                None => None,
            },
            path: self.path@,
            query: pair_views(self.query@),
        }
    }
}

impl ParsedUrl {
    /// `url::Url::parse`, and the parts of its result: serialization, `host_str`,
    /// `path` and the decoded `query_pairs`. The result is what `url_parse`
    /// names for `s`.
    #[verifier::external_body]
    pub(crate) fn parse(s: &str) -> (r: Option<ParsedUrl>)
        ensures
            match r {
                Some(p) => url_parse(s@) == Some(p@),
                None => url_parse(s@) is None,
            },
    {
        let url = url::Url::parse(s).ok()?;
        let text = url.to_string();
        let host = url.host_str().map(|h| h.to_string());
        let path = url.path().to_string();
        let query = url.query_pairs().map(|(k, v)| (k.into_owned(), v.into_owned())).collect();
        Some(ParsedUrl { url, text, host, path, query })
    }

    /// `url::Url::join` of `href` on this URL, serialized. The result is what
    /// `url_join` names for this URL's serialization and `href`; being a URL's
    /// serialization, it starts with the scheme and `:`, so it is not empty.
    #[verifier::external_body]
    pub(crate) fn join(&self, href: &str) -> (r: Option<String>)
        ensures
            match r {
                Some(t) => url_join(self@.text, href@) == Some(t@),
                None => url_join(self@.text, href@) is None,
            },
            r matches Some(t) ==> t@.len() > 0,
    {
        self.url.join(href).ok().map(|u| u.to_string())
    }

    /// The serialization.
    pub fn text(&self) -> (r: &String)
        ensures
            r@ == self@.text,
    {
        &self.text
    }

    /// The host, if the URL has one.
    pub fn host(&self) -> (r: &Option<String>)
        ensures
            opt_view(*r) == self@.host,
    {
        &self.host
    }

    /// The path.
    pub fn path(&self) -> (r: &String)
        ensures
            r@ == self@.path,
    {
        &self.path
    }

    /// The decoded query pairs.
    pub fn query(&self) -> (r: &Vec<(String, String)>)
        ensures
            pair_views(r@) == self@.query,
    {
        &self.query
    }
}

/// Views of an optional string.
pub open spec fn opt_view(o: Option<String>) -> Option<Seq<char>> {
    match o {
        Some(s) => Some(s@),
        None => None,
    }
}

/// `href` resolved against the page at `base`.
pub open spec fn resolved(base: Seq<char>, href: Seq<char>) -> Option<Seq<char>> {
    match url_parse(base) {
        Some(b) => url_join(b.text, href),
        None => None,
    }
}

/// Resolves `href` against the page at `base`.
pub fn resolve_url(base: &str, href: &str) -> (r: Option<String>)
    ensures
        opt_view(r) == resolved(base@, href@),
        r matches Some(t) ==> t@.len() > 0,
{
    match ParsedUrl::parse(base) {
        Some(b) => b.join(href),
        None => None,
    }
}

/// What `base64`'s standard engine decodes from a string (`None` where it refuses it).
pub uninterp spec fn base64_decoded(s: Seq<char>) -> Option<Seq<u8>>;

/// `base64::engine::general_purpose::STANDARD.decode`; the result is what
/// `base64_decoded` names for `s`.
#[verifier::external_body]
fn base64_decode(s: &str) -> (r: Option<Vec<u8>>)
    ensures
        match r {
            Some(b) => base64_decoded(s@) == Some(b@),
            None => base64_decoded(s@) is None,
        },
{
    base64::engine::general_purpose::STANDARD.decode(s.as_bytes()).ok()
}

/// `String::from_utf8`: a string exactly when the bytes are valid UTF-8, the
/// characters they encode.
#[verifier::external_body]
fn utf8_string(b: Vec<u8>) -> (r: Option<String>)
    ensures
        r is Some <==> valid_utf8(b@),
        r matches Some(s) ==> s@ == decode_utf8(b@),
{
    String::from_utf8(b).ok()
}

/// The first value given to `key` in query pairs.
pub open spec fn query_value(q: Seq<(Seq<char>, Seq<char>)>, key: Seq<char>) -> Option<Seq<char>>
    decreases q.len(),
{
    if q.len() == 0 {
        None
    } else if q[0].0 == key {
        Some(q[0].1)
    } else {
        query_value(q.drop_first(), key)
    }
}

fn first_value(q: &Vec<(String, String)>, key: &str) -> (r: Option<String>)
    ensures
        opt_view(r) == query_value(pair_views(q@), key@),
{
    let k = chars_of(key);
    let mut i: usize = 0;
    assert(pair_views(q@).skip(0) =~= pair_views(q@));
    while i < q.len()
        invariant
            i <= q@.len(),
            k@ == key@,
            query_value(pair_views(q@), key@) == query_value(pair_views(q@).skip(i as int), key@),
        decreases q@.len() - i,
    {
        let c = chars_of(q[i].0.as_str());
        proof {
            assert(pair_views(q@).skip(i as int).drop_first() =~= pair_views(q@).skip(i + 1));
        }
        if c.len() == k.len() && crate::text::matches_at(c.as_slice(), 0, k.as_slice()) {
            assert(c@.subrange(0, k@.len() as int) =~= c@);
            return Some(q[i].1.clone());
        }
        proof {
            if c@ == k@ {
                assert(c@.subrange(0, k@.len() as int) =~= c@);
            }
        }
        i += 1;
    }
    assert(pair_views(q@).skip(q@.len() as int) =~= Seq::<(Seq<char>, Seq<char>)>::empty());
    None
}

/// `n` copies of `=`.
pub open spec fn padding(n: nat) -> Seq<char>
    decreases n,
{
    if n == 0 {
        seq![]
    } else {
        padding((n - 1) as nat).push('=')
    }
}

/// The Bing `u` parameter: base64 of the target, behind an `a1` marker, with its
/// padding restored.
pub open spec fn bing_payload(v: Seq<char>) -> Seq<char> {
    let b = if has_prefix(v, "a1"@) {
        v.skip(2)
    } else {
        v
    };
    b + padding(((4 - utf8_len(b) % 4) % 4) as nat)
}

/// The target of a Bing redirect parameter.
pub open spec fn bing_target(v: Seq<char>) -> Option<Seq<char>> {
    match base64_decoded(bing_payload(v)) {
        Some(bytes) => if valid_utf8(bytes) {
            Some(decode_utf8(bytes))
        } else {
            None
        },
        None => None,
    }
}

/// `href` with `https:` put before a scheme-relative `//…` link.
pub open spec fn with_scheme(href: Seq<char>) -> Seq<char> {
    if has_prefix(href, "//"@) {
        "https:"@ + href
    } else {
        href
    }
}

/// Where a search result link leads: DuckDuckGo's `uddg` and Bing's `u`
/// redirect parameters are unwrapped, other links are kept.
pub open spec fn search_target(href: Seq<char>) -> Option<Seq<char>> {
    if href.len() == 0 {
        None
    } else {
        let w = with_scheme(href);
        match url_parse(w) {
            None => None,
            Some(u) => match u.host {
                None => None,
                Some(host) => if is_infix(host, "duckduckgo.com"@) {
                    query_value(u.query, "uddg"@)
                } else if is_infix(host, "bing.com"@) {
                    match query_value(u.query, "u"@) {
                        Some(v) => bing_target(v),
                        None => None,
                    }
                } else {
                    Some(w)
                },
            },
        }
    }
}

fn add_padding(b: Vec<char>) -> (r: Vec<char>)
    ensures
        r@ == b@ + padding(((4 - utf8_len(b@) % 4) % 4) as nat),
{
    let len = byte_len(b.as_slice());
    let pad = (4 - len % 4) % 4;
    let mut out = b;
    let ghost start = out@;
    let mut k: u128 = 0;
    while k < pad
        invariant
            k <= pad,
            pad == (4 - utf8_len(start) % 4) % 4,
            out@ == start + padding(k as nat),
        decreases pad - k,
    {
        out.push('=');
        k += 1;
    }
    out
}

/// Resolve search-engine redirect URLs to the actual destination.
/// Handles DuckDuckGo (uddg param) and Bing (u param, base64 with a1 prefix).
pub fn resolve_search_url(href: &str) -> (r: Option<String>)
    ensures
        opt_view(r) == search_target(href@),
{
    let h = chars_of(href);
    if h.len() == 0 {
        return None;
    }
    let slashes = chars_of("//");
    let w = if starts_with(h.as_slice(), slashes.as_slice()) {
        let p = chars_of("https:");
        concat(p.as_slice(), h.as_slice())
    } else {
        h
    };
    let ws = string_from(w.as_slice());
    let parsed = match ParsedUrl::parse(ws.as_str()) {
        Some(p) => p,
        None => return None,
    };
    let host = match parsed.host() {
        Some(host) => host,
        None => return None,
    };
    if str_contains(host.as_str(), "duckduckgo.com") {
        return first_value(parsed.query(), "uddg");
    }
    if str_contains(host.as_str(), "bing.com") {
        return match first_value(parsed.query(), "u") {
            Some(v) => {
                let vc = chars_of(v.as_str());
                let a1 = chars_of("a1");
                proof {
                    reveal_strlit("a1");
                }
                let b = if starts_with(vc.as_slice(), a1.as_slice()) {
                    let t = slice_chars(vc.as_slice(), 2, vc.len());
                    assert(t@ =~= vc@.skip(2));
                    t
                } else {
                    vc
                };
                let padded = add_padding(b);
                let text = string_from(padded.as_slice());
                match base64_decode(text.as_str()) {
                    Some(bytes) => utf8_string(bytes),
                    None => None,
                }
            },
            None => None,
        };
    }
    Some(ws)
}

/// ASCII letters, digits and `-`, `.`, `_`, `~` stay as they are in a URL query.
pub open spec fn unreserved(b: u8) -> bool {
    (48 <= b <= 57) || (65 <= b <= 90) || (97 <= b <= 122) || b == 45 || b == 46 || b == 95
        || b == 126
}

/// Upper-case hexadecimal digit.
pub open spec fn hex_upper(d: int) -> char {
    if d < 10 {
        crate::text::digit_char(d)
    } else if d == 10 {
        'A'
    } else if d == 11 {
        'B'
    } else if d == 12 {
        'C'
    } else if d == 13 {
        'D'
    } else if d == 14 {
        'E'
    } else {
        'F'
    }
}

/// Percent-encoding of bytes: unreserved bytes as themselves, every other byte
/// as `%` and two upper-case hexadecimal digits.
pub open spec fn percent_encoded(b: Seq<u8>) -> Seq<char>
    decreases b.len(),
{
    if b.len() == 0 {
        seq![]
    } else {
        let x = b.last();
        percent_encoded(b.drop_last()) + if unreserved(x) {
            seq![x as char]
        } else {
            seq!['%', hex_upper((x / 16) as int), hex_upper((x % 16) as int)]
        }
    }
}

/// `urlencoding::encode`: percent-encodes every UTF-8 byte of `s` except
/// alphanumerics and `-`, `_`, `.`, `~`.
#[verifier::external_body]
pub(crate) fn url_encode(s: &str) -> (r: String)
    ensures
        r@ == percent_encoded(encode_utf8(s@)),
{
    urlencoding::encode(s).into_owned()
}

} // verus!
