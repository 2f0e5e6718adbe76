//! The command line's decisions: what the input asks for, where to search, and
//! how results are listed.
use vstd::prelude::*;
use vstd::utf8::encode_utf8;
use crate::AppMatch;
use crate::search::match_views;
use crate::text::{chars_of, concat, has_prefix, starts_with, string_from, string_views};
use crate::urls::{percent_encoded, url_encode};

verus! {

/// What the command line asks for.
#[derive(Debug, Clone, Copy, PartialEq, Eq, Structural)]
pub enum Request {
    /// Print the version.
    Version,
    /// Replace the program with its latest release.
    Update,
    /// Install from the page at the given URL.
    DirectUrl,
    /// Search for an application by keywords.
    Search,
}

/// What an input asks for.
pub open spec fn request_of(raw: Seq<char>) -> Request {
    if raw == "--version"@ || raw == "-v"@ {
        Request::Version
    } else if raw == "--update"@ || raw == "--upgrade"@ {
        Request::Update
    } else if has_prefix(raw, "http://"@) || has_prefix(raw, "https://"@) {
        Request::DirectUrl
    } else {
        Request::Search
    }
}

fn lit(s: &str) -> (r: Vec<char>)
    ensures
        r@ == s@,
{
    chars_of(s)
}

fn is_lit(s: &[char], l: &str) -> (r: bool)
    ensures
        r == (s@ == l@),
{
    let c = lit(l);
    crate::text::same_chars(s, c.as_slice())
}

/// What the input (the arguments joined, or the line typed) asks for.
pub fn classify_input(raw: &str) -> (r: Request)
    ensures
        r == request_of(raw@),
{
    let c = chars_of(raw);
    let s = c.as_slice();
    if is_lit(s, "--version") || is_lit(s, "-v") {
        Request::Version
    } else if is_lit(s, "--update") || is_lit(s, "--upgrade") {
        Request::Update
    } else if starts_with(s, lit("http://").as_slice()) || starts_with(s, lit("https://").as_slice()) {
        Request::DirectUrl
    } else {
        Request::Search
    }
}

fn around(a: &str, mid: &str, b: &str) -> (r: String)
    ensures
        r@ == a@ + mid@ + b@,
{
    let x = concat(lit(a).as_slice(), lit(mid).as_slice());
    let y = concat(x.as_slice(), lit(b).as_slice());
    string_from(y.as_slice())
}

/// The GitHub API search for repositories named like the query, most starred first.
pub fn github_search_url(query: &str) -> (r: String)
    ensures
        r@ == "https://api.github.com/search/repositories?q="@ + percent_encoded(encode_utf8(query@))
            + "+in:name&sort=stars&order=desc"@,
{
    let q = url_encode(query);
    around("https://api.github.com/search/repositories?q=", q.as_str(), "+in:name&sort=stars&order=desc")
}

/// The Bing search for Linux downloads of the query.
pub fn bing_search_url(query: &str) -> (r: String)
    ensures
        r@ == "https://www.bing.com/search?q="@ + percent_encoded(encode_utf8(query@)) + "+linux+download"@,
{
    let q = url_encode(query);
    around("https://www.bing.com/search?q=", q.as_str(), "+linux+download")
}

/// The DuckDuckGo HTML search for the query.
pub fn ddg_search_url(query: &str) -> (r: String)
    ensures
        r@ == "https://html.duckduckgo.com/html/?q="@ + percent_encoded(encode_utf8(query@)),
{
    let q = url_encode(query);
    let x = concat(lit("https://html.duckduckgo.com/html/?q=").as_slice(), lit(q.as_str()).as_slice());
    string_from(x.as_slice())
}

/// DuckDuckGo is asked when no web result was found.
pub open spec fn needs_fallback(ms: Seq<(Seq<char>, Seq<char>, Seq<char>)>) -> bool {
    !(exists|i: int| 0 <= i < ms.len() && #[trigger] ms[i].1 == "Web"@)
}

/// Whether DuckDuckGo must be asked: no web result among the matches.
pub fn needs_ddg_fallback(matches: &[AppMatch]) -> (r: bool)
    ensures
        r == needs_fallback(match_views(matches@)),
{
    let web = lit("Web");
    let mut i: usize = 0;
    while i < matches.len()
        invariant
            i <= matches@.len(),
            web@ == "Web"@,
            forall|j: int| 0 <= j < i ==> #[trigger] match_views(matches@)[j].1 != "Web"@,
        decreases matches@.len() - i,
    {
        let p = chars_of(matches[i].platform.as_str());
        assert(match_views(matches@)[i as int].1 == matches@[i as int].platform@);
        if crate::text::same_chars(p.as_slice(), web.as_slice()) {
            return false;
        }
        i += 1;
    }
    true
}

/// The line listing a result: a web result as `🌐 name`, any other as
/// `[platform] name`.
pub open spec fn result_line(platform: Seq<char>, name: Seq<char>) -> Seq<char> {
    if platform == "Web"@ {
        "🌐 "@ + name
    } else {
        "["@ + platform + "] "@ + name
    }
}

fn result_line_of(m: &AppMatch) -> (r: String)
    ensures
        r@ == result_line(m.platform@, m.name@),
{
    let p = chars_of(m.platform.as_str());
    let n = chars_of(m.name.as_str());
    let line = if is_lit(p.as_slice(), "Web") {
        concat(lit("🌐 ").as_slice(), n.as_slice())
    } else {
        let a = concat(lit("[").as_slice(), p.as_slice());
        let b = concat(a.as_slice(), lit("] ").as_slice());
        concat(b.as_slice(), n.as_slice())
    };
    string_from(line.as_slice())
}

/// The lines listing the results, in order.
pub fn result_lines(matches: &[AppMatch]) -> (r: Vec<String>)
    ensures
        string_views(r@) == match_views(matches@).map_values(|m: (Seq<char>, Seq<char>, Seq<char>)| result_line(m.1, m.0)),
{
    let mut out: Vec<String> = Vec::new();
    let mut i: usize = 0;
    while i < matches.len()
        invariant
            i <= matches@.len(),
            string_views(out@) == match_views(matches@).take(i as int).map_values(|m: (Seq<char>, Seq<char>, Seq<char>)| result_line(m.1, m.0)),
        decreases matches@.len() - i,
    {
        let line = result_line_of(&matches[i]);
        let ghost prev = out@;
        out.push(line);
        proof {
            let mv = match_views(matches@);
            assert(mv[i as int] == (matches@[i as int].name@, matches@[i as int].platform@, matches@[i as int].url@));
            assert(mv.take(i + 1) =~= mv.take(i as int).push(mv[i as int]));
            assert(string_views(out@) =~= string_views(prev).push(line@));
        }
        i += 1;
    }
    assert(match_views(matches@).take(matches@.len() as int) =~= match_views(matches@));
    out
}

} // verus!
