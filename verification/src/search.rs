//! Reading web search result pages: DuckDuckGo's and Bing's HTML.
use vstd::prelude::*;
use crate::AppMatch;
use crate::assets::capitalised;
use crate::html::{Document, ElementView, HtmlElement, html_select, html_select_within, element_views, opt_element_views, name_views};
use crate::scrape::{attr, selected};
use crate::text::{
    chars_of, concat, contains, eq_ascii_ci, eq_ignore_ascii_case, has_prefix, is_infix, join_with,
    join_strings, lower, lowercase, replace, replace_all, split_char, split_on, starts_with,
    string_from, trim, trimmed, utf8_len, byte_len, words, words_of, views, string_views, same_chars,
};
use crate::urls::{ParsedUrl, UrlView, opt_view, resolve_search_url, search_target, url_parse, with_scheme};

verus! {

/// Known tutorial/blog/aggregator sites — not actual download sources.
pub open spec fn tutorial_sites() -> Seq<Seq<char>> {
    seq![
        "linuxcapable.com"@, "itsfoss.com"@, "linuxconfig.org"@, "pkgs.org"@,
        "libtechnophile.blogspot.com"@, "tecmint.com"@, "fosslinux.com"@,
        "linuxbite.com"@, "debugpoint.com"@, "addictivetips.com"@,
        "cyberpanel.net"@, "support.brave.app"@,
        "alternativeto.net"@, "slant.co"@, "producthunt.com"@, "fosshub.com"@,
    ]
}

/// The text names one of the known tutorial sites.
pub open spec fn names_tutorial_site(s: Seq<char>) -> bool {
    exists|i: int| 0 <= i < tutorial_sites().len() && is_infix(s, #[trigger] tutorial_sites()[i])
}

fn tutorial_site_list() -> (r: Vec<Vec<char>>)
    ensures
        views(r@) == tutorial_sites(),
{
    let mut v: Vec<Vec<char>> = Vec::new();
    v.push(chars_of("linuxcapable.com"));
    v.push(chars_of("itsfoss.com"));
    v.push(chars_of("linuxconfig.org"));
    v.push(chars_of("pkgs.org"));
    v.push(chars_of("libtechnophile.blogspot.com"));
    v.push(chars_of("tecmint.com"));
    v.push(chars_of("fosslinux.com"));
    v.push(chars_of("linuxbite.com"));
    v.push(chars_of("debugpoint.com"));
    v.push(chars_of("addictivetips.com"));
    v.push(chars_of("cyberpanel.net"));
    v.push(chars_of("support.brave.app"));
    v.push(chars_of("alternativeto.net"));
    v.push(chars_of("slant.co"));
    v.push(chars_of("producthunt.com"));
    v.push(chars_of("fosshub.com"));
    assert(views(v@) =~= tutorial_sites());
    v
}

/// Whether any of `needles` occurs in `hay`.
fn contains_any(hay: &[char], needles: &Vec<Vec<char>>) -> (r: bool)
    ensures
        r == exists|i: int| 0 <= i < needles@.len() && is_infix(hay@, #[trigger] views(needles@)[i]),
{
    let mut i: usize = 0;
    while i < needles.len()
        invariant
            i <= needles@.len(),
            forall|j: int| 0 <= j < i ==> !is_infix(hay@, #[trigger] views(needles@)[j]),
        decreases needles@.len() - i,
    {
        if contains(hay, needles[i].as_slice()) {
            assert(is_infix(hay@, views(needles@)[i as int]));
            return true;
        }
        i += 1;
    }
    false
}

fn names_tutorial(s: &[char]) -> (r: bool)
    ensures
        r == names_tutorial_site(s@),
{
    let sites = tutorial_site_list();
    contains_any(s, &sites)
}

/// A result as `(score, shown name, url)`.
pub type Scored = (int, Seq<char>, Seq<char>);

/// Inserts `x` after every element scored at least as high (`s` being sorted).
pub open spec fn insert_by_score(s: Seq<Scored>, x: Scored) -> Seq<Scored>
    decreases s.len(),
{
    if s.len() == 0 {
        seq![x]
    } else if s[0].0 < x.0 {
        seq![x] + s
    } else {
        seq![s[0]] + insert_by_score(s.drop_first(), x)
    }
}

/// Stable sort by descending score.
pub open spec fn sort_by_score(s: Seq<Scored>) -> Seq<Scored>
    decreases s.len(),
{
    if s.len() == 0 {
        seq![]
    } else {
        insert_by_score(sort_by_score(s.drop_last()), s.last())
    }
}

/// Where `insert_by_score` puts `x`: before the first element scored lower.
pub proof fn lemma_insert_at(s: Seq<Scored>, x: Scored, j: int)
    requires
        0 <= j <= s.len(),
        forall|k: int| 0 <= k < j ==> s[k].0 >= x.0,
        j == s.len() || s[j].0 < x.0,
    ensures
        insert_by_score(s, x) == s.take(j) + seq![x] + s.skip(j),
    decreases j,
{
    if j == 0 {
        if s.len() == 0 {
            assert(s.take(0) + seq![x] + s.skip(0) =~= seq![x]);
        } else {
            assert(s.take(0) + seq![x] + s.skip(0) =~= seq![x] + s);
        }
    } else {
        let t = s.drop_first();
        assert forall|k: int| 0 <= k < j - 1 implies t[k].0 >= x.0 by {
            assert(t[k] == s[k + 1]);
        }
        if j - 1 < t.len() {
            assert(t[j - 1] == s[j]);
        }
        lemma_insert_at(t, x, j - 1);
        assert(seq![s[0]] + (t.take(j - 1) + seq![x] + t.skip(j - 1)) =~= s.take(j) + seq![x] + s.skip(j));
    }
}

/// Scored result on the library's values.
pub struct ScoredMatch {
    pub score: i128,
    pub name: String,
    pub url: String,
}

/// Views of scored results.
pub open spec fn scored_views(v: Seq<ScoredMatch>) -> Seq<Scored> {
    v.map_values(|m: ScoredMatch| (m.score as int, m.name@, m.url@))
}

/// Inserts `x` into `v` (sorted by descending score) after every result scored
/// at least as high.
pub fn insert_scored(v: &mut Vec<ScoredMatch>, x: ScoredMatch)
    ensures
        scored_views(final(v)@) == insert_by_score(scored_views(old(v)@), (x.score as int, x.name@, x.url@)),
{
    let ghost s = scored_views(v@);
    let ghost xv = (x.score as int, x.name@, x.url@);
    let mut j: usize = 0;
    while j < v.len() && v[j].score >= x.score
        invariant
            j <= v@.len(),
            s == scored_views(v@),
            xv == (x.score as int, x.name@, x.url@),
            forall|k: int| 0 <= k < j ==> s[k].0 >= xv.0,
        decreases v@.len() - j,
    {
        j += 1;
    }
    proof {
        lemma_insert_at(s, xv, j as int);
    }
    v.insert(j, x);
    assert(scored_views(v@) =~= s.take(j as int) + seq![xv] + s.skip(j as int));
}

/// A web result as the library returns it: its name, `Web`, its URL.
pub open spec fn web_match(s: Scored) -> (Seq<char>, Seq<char>, Seq<char>) {
    (s.1, "Web"@, s.2)
}

/// Views of search results as `(name, platform, url)`.
pub open spec fn match_views(v: Seq<AppMatch>) -> Seq<(Seq<char>, Seq<char>, Seq<char>)> {
    v.map_values(|m: AppMatch| (m.name@, m.platform@, m.url@))
}

/// Links that lead to search engines, code hosts, forums and encyclopedias.
pub open spec fn not_a_download_site(h: Seq<char>) -> bool {
    h.len() == 0 || is_infix(h, "duckduckgo.com"@) || is_infix(h, "bing.com"@) || is_infix(
        h,
        "github.com"@,
    ) || is_infix(h, "youtube.com"@) || is_infix(h, "reddit.com"@) || is_infix(
        h,
        "stackoverflow.com"@,
    ) || is_infix(h, "wikipedia.org"@) || is_infix(h, "searx"@) || is_infix(h, "yacy"@)
}

/// Words of titles of links that are not downloads.
pub open spec fn skip_keywords() -> Seq<Seq<char>> {
    seq![
        "sign in"@, "sign up"@, "login"@, "register"@, "cart"@, "shopping"@, "pricing"@,
        "subscribe"@, "jobs"@, "careers"@, "contact"@,
    ]
}

/// The title holds one of the skip keywords.
pub open spec fn has_skip_keyword(t: Seq<char>) -> bool {
    exists|i: int| 0 <= i < skip_keywords().len() && is_infix(t, #[trigger] skip_keywords()[i])
}

/// Points for the query words found in the title (10 each) and the URL (5 each).
pub open spec fn word_points(ws: Seq<Seq<char>>, title: Seq<char>, href: Seq<char>) -> int
    decreases ws.len(),
{
    if ws.len() == 0 {
        0
    } else {
        word_points(ws.drop_last(), title, href) + (if is_infix(title, ws.last()) {
            10int
        } else {
            0
        }) + (if is_infix(href, ws.last()) {
            5int
        } else {
            0
        })
    }
}

/// Some query word occurs in `s`.
pub open spec fn any_word_in(ws: Seq<Seq<char>>, s: Seq<char>) -> bool {
    exists|i: int| 0 <= i < ws.len() && is_infix(s, #[trigger] ws[i])
}

/// Some query word equals `s` up to ASCII case.
pub open spec fn any_word_is(ws: Seq<Seq<char>>, s: Seq<char>) -> bool {
    exists|i: int| 0 <= i < ws.len() && eq_ascii_ci(#[trigger] ws[i], s)
}

/// The domain's second-level label matches a query word (`x.example.com` → `example`).
pub open spec fn sld_matches(ws: Seq<Seq<char>>, domain: Seq<char>) -> bool {
    let parts = split_char(domain, '.');
    parts.len() >= 2 && any_word_is(ws, parts[parts.len() - 2])
}

/// The score of a web result: query words in title and URL, download and
/// install pages, Linux, the domain named after the query, front and download
/// pages; tutorial sites are pushed down.
pub open spec fn web_score(ws: Seq<Seq<char>>, lower_title: Seq<char>, href: Seq<char>, domain: Seq<char>, path: Seq<char>) -> int {
    word_points(ws, lower_title, lowercase(href)) + (if is_infix(lower_title, "download"@)
        || is_infix(path, "download"@) {
        15int
    } else {
        0
    }) + (if is_infix(lower_title, "install"@) || is_infix(path, "install"@) {
        5int
    } else {
        0
    }) + (if is_infix(lower_title, "linux"@) || is_infix(lowercase(href), "linux"@) {
        5int
    } else {
        0
    }) + (if any_word_in(ws, domain) {
        10int
    } else {
        0
    }) + (if sld_matches(ws, domain) {
        20int
    } else {
        0
    }) + (if path == "/"@ || path == "/download"@ || path == "/downloads"@ {
        5int
    } else {
        0
    }) - (if names_tutorial_site(domain) {
        30int
    } else {
        0
    })
}

/// A title shortened to 52 characters and an ellipsis when longer than 55.
pub open spec fn shortened(t: Seq<char>) -> Seq<char> {
    if t.len() > 55 {
        t.take(52) + "…"@
    } else {
        t
    }
}

/// A domain turned into a name: `.com`, `.org`, `.io` dropped, `-` made a
/// space, each word capitalised.
pub open spec fn domain_name(domain: Seq<char>) -> Seq<char> {
    let clean = trim(
        replace_all(
            replace_all(replace_all(replace_all(domain, ".com"@, seq![]), ".org"@, seq![]), ".io"@, seq![]),
            "-"@,
            " "@,
        ),
    );
    join_with(words(clean).map_values(|w: Seq<char>| capitalised(w)), " "@)
}

/// The name shown for a web result: its title (shortened), or a name made from
/// its domain when the title is 3 bytes or shorter; then the domain.
pub open spec fn web_display(title: Seq<char>, domain: Seq<char>) -> Seq<char> {
    (if title.len() > 0 && utf8_len(title) > 3 {
        shortened(title)
    } else {
        domain_name(domain)
    }) + " ("@ + domain + ")"@
}

/// The link target of a DuckDuckGo result element (`data-href`, else `href`).
pub open spec fn raw_href(e: ElementView) -> Seq<char> {
    match attr(e, 0) {
        Some(h) => h,
        None => match attr(e, 1) {
            Some(h) => h,
            None => seq![],
        },
    }
}

/// Where a result link leads: its search redirect unwrapped, or the link itself.
pub open spec fn result_href(raw: Seq<char>) -> Seq<char> {
    match search_target(raw) {
        Some(h) => h,
        None => with_scheme(raw),
    }
}

/// A DuckDuckGo result element as `(score, name, url)`, or nothing when it is
/// not a download candidate.
pub open spec fn web_candidate(e: ElementView, ws: Seq<Seq<char>>) -> Option<Scored> {
    let href = result_href(raw_href(e));
    if not_a_download_site(href) || !has_prefix(href, "http"@) {
        None
    } else {
        match url_parse(href) {
            None => None,
            Some(u) => {
                let domain = match u.host {
                    Some(h) => h,
                    None => seq![],
                };
                let title = trim(join_with(e.text, " "@));
                let lt = lowercase(title);
                if domain.len() == 0 || has_skip_keyword(lt) {
                    None
                } else {
                    Some(
                        (
                            web_score(ws, lt, href, domain, lowercase(u.path)),
                            web_display(title, domain),
                            href,
                        ),
                    )
                }
            },
        }
    }
}

/// A candidate is kept unless its URL was kept already.
pub open spec fn add_scored(acc: Seq<Scored>, c: Option<Scored>) -> Seq<Scored> {
    match c {
        Some(x) => if exists|i: int| 0 <= i < acc.len() && #[trigger] acc[i].2 == x.2 {
            acc
        } else {
            acc.push(x)
        },
        None => acc,
    }
}

/// The kept results of elements, in the order they were selected.
pub open spec fn web_results(es: Seq<ElementView>, ws: Seq<Seq<char>>) -> Seq<Scored>
    decreases es.len(),
{
    if es.len() == 0 {
        seq![]
    } else {
        add_scored(web_results(es.drop_last(), ws), web_candidate(es.last(), ws))
    }
}

/// The five best results for `query` among result links, best first (ties in
/// the order given).
pub open spec fn ddg_ranked(es: Seq<ElementView>, query: Seq<char>) -> Seq<(Seq<char>, Seq<char>, Seq<char>)> {
    let ranked = sort_by_score(web_results(es, words(lowercase(query))));
    let top = if ranked.len() > 5 {
        ranked.take(5)
    } else {
        ranked
    };
    top.map_values(|s: Scored| web_match(s))
}

/// The five best DuckDuckGo results for `query`, best first (ties in the order selected).
pub open spec fn ddg_results(html: Seq<char>, query: Seq<char>) -> Seq<(Seq<char>, Seq<char>, Seq<char>)> {
    ddg_ranked(selected(html, "a[href]"@, seq!["data-href"@, "href"@]), query)
}


fn word_points_of(ws: &Vec<Vec<char>>, title: &[char], href: &[char]) -> (r: i128)
    ensures
        r == word_points(views(ws@), title@, href@),
        0 <= r <= 15 * ws@.len(),
{
    let mut total: i128 = 0;
    let mut i: usize = 0;
    while i < ws.len()
        invariant
            i <= ws@.len(),
            total == word_points(views(ws@).take(i as int), title@, href@),
            0 <= total <= 15 * i,
        decreases ws@.len() - i,
    {
        assert(views(ws@).take(i + 1).drop_last() =~= views(ws@).take(i as int));
        assert(views(ws@)[i as int] == ws@[i as int]@);
        if contains(title, ws[i].as_slice()) {
            total = total + 10;
        }
        if contains(href, ws[i].as_slice()) {
            total = total + 5;
        }
        i += 1;
    }
    assert(views(ws@).take(ws@.len() as int) =~= views(ws@));
    total
}

fn any_word_in_of(ws: &Vec<Vec<char>>, s: &[char]) -> (r: bool)
    ensures
        r == any_word_in(views(ws@), s@),
{
    let mut i: usize = 0;
    while i < ws.len()
        invariant
            i <= ws@.len(),
            forall|j: int| 0 <= j < i ==> !is_infix(s@, #[trigger] views(ws@)[j]),
        decreases ws@.len() - i,
    {
        if contains(s, ws[i].as_slice()) {
            assert(is_infix(s@, views(ws@)[i as int]));
            return true;
        }
        i += 1;
    }
    false
}

fn any_word_is_of(ws: &Vec<Vec<char>>, s: &[char]) -> (r: bool)
    ensures
        r == any_word_is(views(ws@), s@),
{
    let mut i: usize = 0;
    while i < ws.len()
        invariant
            i <= ws@.len(),
            forall|j: int| 0 <= j < i ==> !eq_ascii_ci(#[trigger] views(ws@)[j], s@),
        decreases ws@.len() - i,
    {
        if eq_ignore_ascii_case(ws[i].as_slice(), s) {
            assert(eq_ascii_ci(views(ws@)[i as int], s@));
            return true;
        }
        i += 1;
    }
    false
}

fn sld_matches_of(ws: &Vec<Vec<char>>, domain: &[char]) -> (r: bool)
    ensures
        r == sld_matches(views(ws@), domain@),
{
    let parts = split_on(domain, '.');
    if parts.len() >= 2 {
        assert(views(parts@)[parts@.len() - 2] == parts@[parts@.len() - 2]@);
        any_word_is_of(ws, parts[parts.len() - 2].as_slice())
    } else {
        false
    }
}

fn lit(s: &str) -> (r: Vec<char>)
    ensures
        r@ == s@,
{
    chars_of(s)
}

fn has_lit(s: &[char], l: &str) -> (r: bool)
    ensures
        r == is_infix(s@, l@),
{
    let c = lit(l);
    contains(s, c.as_slice())
}

fn has_skip_keyword_of(t: &[char]) -> (r: bool)
    ensures
        r == has_skip_keyword(t@),
{
    let mut k: Vec<Vec<char>> = Vec::new();
    k.push(lit("sign in"));
    k.push(lit("sign up"));
    k.push(lit("login"));
    k.push(lit("register"));
    k.push(lit("cart"));
    k.push(lit("shopping"));
    k.push(lit("pricing"));
    k.push(lit("subscribe"));
    k.push(lit("jobs"));
    k.push(lit("careers"));
    k.push(lit("contact"));
    assert(views(k@) =~= skip_keywords());
    contains_any(t, &k)
}

fn not_a_download_site_of(h: &[char]) -> (r: bool)
    ensures
        r == not_a_download_site(h@),
{
    h.len() == 0 || has_lit(h, "duckduckgo.com") || has_lit(h, "bing.com") || has_lit(h, "github.com")
        || has_lit(h, "youtube.com") || has_lit(h, "reddit.com") || has_lit(h, "stackoverflow.com")
        || has_lit(h, "wikipedia.org") || has_lit(h, "searx") || has_lit(h, "yacy")
}

#[verifier::rlimit(40)]
fn web_score_of(ws: &Vec<Vec<char>>, lt: &[char], href: &[char], domain: &[char], path: &[char]) -> (r: i128)
    ensures
        r == web_score(views(ws@), lt@, href@, domain@, path@),
{
    let lh = lower(href);
    let n = ws.len();
    let wp = word_points_of(ws, lt, lh.as_slice());
    let b1: i128 = if has_lit(lt, "download") || has_lit(path, "download") { 15 } else { 0 };
    let b2: i128 = if has_lit(lt, "install") || has_lit(path, "install") { 5 } else { 0 };
    let b3: i128 = if has_lit(lt, "linux") || has_lit(lh.as_slice(), "linux") { 5 } else { 0 };
    let b4: i128 = if any_word_in_of(ws, domain) { 10 } else { 0 };
    let b5: i128 = if sld_matches_of(ws, domain) { 20 } else { 0 };
    let root = lit("/");
    let dl = lit("/download");
    let dls = lit("/downloads");
    let b6: i128 = if same_chars(path, root.as_slice()) || same_chars(path, dl.as_slice()) || same_chars(path, dls.as_slice()) { 5 } else { 0 };
    let b7: i128 = if names_tutorial(domain) { 30 } else { 0 };
    assert(wp <= 15 * n);
    wp + b1 + b2 + b3 + b4 + b5 + b6 - b7
}

fn shortened_of(t: &[char]) -> (r: Vec<char>)
    ensures
        r@ == shortened(t@),
{
    if t.len() > 55 {
        let head = crate::text::slice_chars(t, 0, 52);
        let e = lit("…");
        assert(head@ =~= t@.take(52));
        concat(head.as_slice(), e.as_slice())
    } else {
        crate::text::slice_chars(t, 0, t.len())
    }
}

fn domain_name_of(domain: &[char]) -> (r: Vec<char>)
    ensures
        r@ == domain_name(domain@),
{
    let empty: Vec<char> = Vec::new();
    let com = lit(".com");
    let org = lit(".org");
    let io = lit(".io");
    let dash = lit("-");
    let sp = lit(" ");
    proof {
        reveal_strlit(".com");
        reveal_strlit(".org");
        reveal_strlit(".io");
        reveal_strlit("-");
        assert(empty@ =~= Seq::<char>::empty());
    }
    let a = replace(domain, com.as_slice(), empty.as_slice());
    let b = replace(a.as_slice(), org.as_slice(), empty.as_slice());
    let c = replace(b.as_slice(), io.as_slice(), empty.as_slice());
    let d = replace(c.as_slice(), dash.as_slice(), sp.as_slice());
    let clean = trimmed(d.as_slice());
    let ws = words_of(clean.as_slice());
    let mut caps: Vec<String> = Vec::new();
    let mut i: usize = 0;
    while i < ws.len()
        invariant
            i <= ws@.len(),
            string_views(caps@) == views(ws@).take(i as int).map_values(|w: Seq<char>| capitalised(w)),
        decreases ws@.len() - i,
    {
        let cw = crate::assets::capitalise_chars(ws[i].as_slice());
        let ghost prev = caps@;
        let st = string_from(cw.as_slice());
        assert(views(ws@)[i as int] == ws@[i as int]@);
        assert(views(ws@).take(i + 1) =~= views(ws@).take(i as int).push(ws@[i as int]@));
        caps.push(st);
        assert(string_views(caps@) =~= string_views(prev).push(st@));
        assert(string_views(caps@) =~= views(ws@).take(i + 1).map_values(|w: Seq<char>| capitalised(w)));
        i += 1;
    }
    assert(views(ws@).take(ws@.len() as int) =~= views(ws@));
    join_strings(&caps, " ")
}

fn web_display_of(title: &[char], domain: &[char]) -> (r: Vec<char>)
    ensures
        r@ == web_display(title@, domain@),
{
    let head = if title.len() > 0 && byte_len(title) > 3 {
        shortened_of(title)
    } else {
        domain_name_of(domain)
    };
    let open = lit(" (");
    let close = lit(")");
    let a = concat(head.as_slice(), open.as_slice());
    let b = concat(a.as_slice(), domain);
    concat(b.as_slice(), close.as_slice())
}

/// The value of the `k`-th asked attribute of an element, if it has one.
fn attr_at(e: &crate::html::HtmlElement, k: usize) -> (r: Option<String>)
    ensures
        opt_view(r) == attr(e@, k as int),
{
    if k < e.attrs.len() {
        match &e.attrs[k] {
            Some(v) => Some(v.clone()),
            None => None,
        }
    } else {
        None
    }
}

fn web_candidate_of(e: &crate::html::HtmlElement, ws: &Vec<Vec<char>>) -> (r: Option<ScoredMatch>)
    ensures
        match r {
            Some(m) => web_candidate(e@, views(ws@)) == Some((m.score as int, m.name@, m.url@)),
            None => web_candidate(e@, views(ws@)) is None,
        },
{
    let raw: String = match attr_at(e, 0) {
        Some(h) => h,
        None => match attr_at(e, 1) {
            Some(h) => h,
            None => String::new(),
        },
    };
    assert(raw@ == raw_href(e@));
    let href: String = match resolve_search_url(raw.as_str()) {
        Some(h) => h,
        None => {
            let rc = chars_of(raw.as_str());
            let sl = lit("//");
            if starts_with(rc.as_slice(), sl.as_slice()) {
                let p = lit("https:");
                let w = concat(p.as_slice(), rc.as_slice());
                string_from(w.as_slice())
            } else {
                raw
            }
        },
    };
    let hc = chars_of(href.as_str());
    let http = lit("http");
    if not_a_download_site_of(hc.as_slice()) || !starts_with(hc.as_slice(), http.as_slice()) {
        return None;
    }
    let parsed = match ParsedUrl::parse(href.as_str()) {
        Some(p) => p,
        None => return None,
    };
    let domain: Vec<char> = match parsed.host() {
        Some(h) => chars_of(h.as_str()),
        None => Vec::new(),
    };
    let joined = join_strings(&e.text, " ");
    let title = trimmed(joined.as_slice());
    let lt = lower(title.as_slice());
    if domain.len() == 0 || has_skip_keyword_of(lt.as_slice()) {
        return None;
    }
    let pc = chars_of(parsed.path().as_str());
    let path = lower(pc.as_slice());
    let score = web_score_of(ws, lt.as_slice(), hc.as_slice(), domain.as_slice(), path.as_slice());
    let name = web_display_of(title.as_slice(), domain.as_slice());
    Some(ScoredMatch { score, name: string_from(name.as_slice()), url: href })
}

fn has_url(v: &Vec<ScoredMatch>, url: &String) -> (r: bool)
    ensures
        r == exists|i: int| 0 <= i < v@.len() && #[trigger] scored_views(v@)[i].2 == url@,
{
    let mut i: usize = 0;
    while i < v.len()
        invariant
            i <= v@.len(),
            forall|j: int| 0 <= j < i ==> #[trigger] scored_views(v@)[j].2 != url@,
        decreases v@.len() - i,
    {
        if crate::text::same_string(&v[i].url, url) {
            assert(scored_views(v@)[i as int].2 == url@);
            return true;
        }
        i += 1;
    }
    false
}

/// Parse DuckDuckGo HTML search results (used as fallback): the five best
/// scored download candidates for `query`, best first.
pub fn parse_search_html(html: &str, query: &str) -> (r: Vec<AppMatch>)
    ensures
        match_views(r@) == ddg_results(html@, query@),
{
    let doc = Document::parse(html);
    let names: [&str; 2] = ["data-href", "href"];
    assert(name_views(names@) =~= seq!["data-href"@, "href"@]);
    match doc.select("a[href]", &names) {
        Some(els) => web_results_from(&els, query),
        None => {
            let none: Vec<HtmlElement> = Vec::new();
            assert(element_views(none@) =~= Seq::<ElementView>::empty());
            web_results_from(&none, query)
        },
    }
}

/// The five best scored download candidates for `query` among result links
/// (each read with its `data-href` and `href`), best first.
pub fn web_results_from(els: &Vec<HtmlElement>, query: &str) -> (r: Vec<AppMatch>)
    ensures
        match_views(r@) == ddg_ranked(element_views(els@), query@),
{
    let qc = chars_of(query);
    let ql = lower(qc.as_slice());
    let ws = words_of(ql.as_slice());
    let mut found: Vec<ScoredMatch> = Vec::new();
    let mut i: usize = 0;
    while i < els.len()
        invariant
            i <= els@.len(),
            scored_views(found@) == web_results(element_views(els@).take(i as int), views(ws@)),
        decreases els@.len() - i,
    {
        assert(element_views(els@).take(i + 1).drop_last() =~= element_views(els@).take(i as int));
        let c = web_candidate_of(&els[i], &ws);
        match c {
            Some(m) => {
                if !has_url(&found, &m.url) {
                    let ghost prev = found@;
                    let ghost mv = (m.score as int, m.name@, m.url@);
                    found.push(m);
                    assert(scored_views(found@) =~= scored_views(prev).push(mv));
                }
            },
            None => {},
        }
        i += 1;
    }
    assert(element_views(els@).take(els@.len() as int) =~= element_views(els@));
    let ghost all = scored_views(found@);
    let mut ranked: Vec<ScoredMatch> = Vec::new();
    let n = found.len();
    let mut i: usize = 0;
    assert(all.take(0) =~= Seq::<Scored>::empty());
    while i < n
        invariant
            i <= n == all.len(),
            all == scored_views(found@),
            scored_views(ranked@) == sort_by_score(all.take(i as int)),
        decreases n - i,
    {
        let x = ScoredMatch { score: found[i].score, name: found[i].name.clone(), url: found[i].url.clone() };
        proof {
            assert(all.take(i + 1).drop_last() =~= all.take(i as int));
            assert(all[i as int] == (x.score as int, x.name@, x.url@));
        }
        insert_scored(&mut ranked, x);
        i += 1;
    }
    assert(all.take(n as int) =~= all);
    ranked.truncate(5);
    let mut out: Vec<AppMatch> = Vec::new();
    let mut j: usize = 0;
    while j < ranked.len()
        invariant
            j <= ranked@.len(),
            ranked@.len() <= 5,
            match_views(out@) == scored_views(ranked@).take(j as int).map_values(|s: Scored| web_match(s)),
        decreases ranked@.len() - j,
    {
        let web = lit("Web");
        let m = AppMatch { name: ranked[j].name.clone(), platform: string_from(web.as_slice()), url: ranked[j].url.clone() };
        let ghost prev = out@;
        proof {
            assert(scored_views(ranked@)[j as int] == (ranked@[j as int].score as int, ranked@[j as int].name@, ranked@[j as int].url@));
            assert(scored_views(ranked@).take(j + 1) =~= scored_views(ranked@).take(j as int).push(scored_views(ranked@)[j as int]));
        }
        out.push(m);
        assert(match_views(out@) =~= match_views(prev).push((m.name@, m.platform@, m.url@)));
        j += 1;
        assert(match_views(out@) =~= scored_views(ranked@).take(j as int).map_values(|s: Scored| web_match(s)));
    }
    assert(scored_views(ranked@).take(ranked@.len() as int) =~= scored_views(ranked@));
    out
}


/// A Bing result link as `(shown name, url)`, or nothing when it is not a
/// download candidate.
pub open spec fn bing_candidate(e: ElementView) -> Option<(Seq<char>, Seq<char>)> {
    let raw = match attr(e, 0) {
        Some(h) => h,
        None => seq![],
    };
    let target = match search_target(raw) {
        Some(t) => t,
        None => seq![],
    };
    let title = trim(join_with(e.text, seq![]));
    if target.len() == 0 || !has_prefix(target, "http"@) {
        None
    } else if utf8_len(title) <= 3 || names_tutorial_site(target) {
        None
    } else {
        let domain = match url_parse(target) {
            Some(u) => match u.host {
                Some(h) => h,
                None => seq![],
            },
            None => seq![],
        };
        Some((shortened(title) + " ("@ + domain + ")"@, target))
    }
}

/// A Bing candidate is kept while fewer than five are, unless its URL was kept.
pub open spec fn add_bing(acc: Seq<(Seq<char>, Seq<char>)>, c: Option<ElementView>) -> Seq<(Seq<char>, Seq<char>)> {
    if acc.len() >= 5 {
        acc
    } else {
        match c {
            Some(e) => match bing_candidate(e) {
                Some(x) => if exists|i: int| 0 <= i < acc.len() && #[trigger] acc[i].1 == x.1 {
                    acc
                } else {
                    acc.push(x)
                },
                None => acc,
            },
            None => acc,
        }
    }
}

/// The kept Bing results, in the order selected.
pub open spec fn bing_results(es: Seq<Option<ElementView>>) -> Seq<(Seq<char>, Seq<char>)>
    decreases es.len(),
{
    if es.len() == 0 {
        seq![]
    } else {
        add_bing(bing_results(es.drop_last()), es.last())
    }
}

/// The first five Bing results that are download candidates, as web results.
pub open spec fn bing_listing(es: Seq<Option<ElementView>>) -> Seq<(Seq<char>, Seq<char>, Seq<char>)> {
    bing_results(es).map_values(|x: (Seq<char>, Seq<char>)| (x.0, "Web"@, x.1))
}

/// The first five Bing results of a page that are download candidates.
pub open spec fn bing_matches(html: Seq<char>) -> Seq<(Seq<char>, Seq<char>, Seq<char>)> {
    bing_listing(
        match html_select_within(html, "li.b_algo"@, "h2 a[href]"@, seq!["href"@]) {
            Some(es) => es,
            None => seq![],
        },
    )
}

fn bing_candidate_of(e: &crate::html::HtmlElement) -> (r: Option<(String, String)>)
    ensures
        match r {
            Some(x) => bing_candidate(e@) == Some((x.0@, x.1@)),
            None => bing_candidate(e@) is None,
        },
{
    let raw: String = match attr_at(e, 0) {
        Some(h) => h,
        None => String::new(),
    };
    let target: String = match resolve_search_url(raw.as_str()) {
        Some(t) => t,
        None => String::new(),
    };
    let tc = chars_of(target.as_str());
    let joined = join_strings(&e.text, "");
    proof {
        reveal_strlit("");
        assert(""@ =~= Seq::<char>::empty());
    }
    let title = trimmed(joined.as_slice());
    let http = lit("http");
    if tc.len() == 0 || !starts_with(tc.as_slice(), http.as_slice()) {
        return None;
    }
    if byte_len(title.as_slice()) <= 3 || names_tutorial(tc.as_slice()) {
        return None;
    }
    let domain: Vec<char> = match ParsedUrl::parse(target.as_str()) {
        Some(u) => match u.host() {
            Some(h) => chars_of(h.as_str()),
            None => Vec::new(),
        },
        None => Vec::new(),
    };
    let head = shortened_of(title.as_slice());
    let open = lit(" (");
    let close = lit(")");
    let a = concat(head.as_slice(), open.as_slice());
    let b = concat(a.as_slice(), domain.as_slice());
    let name = concat(b.as_slice(), close.as_slice());
    Some((string_from(name.as_slice()), target))
}

/// Parse Bing search results from `<li class="b_algo">` elements: the first five
/// result links that are download candidates, without repeats.
pub fn parse_bing_search(html: &str) -> (r: Vec<AppMatch>)
    ensures
        match_views(r@) == bing_matches(html@),
{
    let doc = Document::parse(html);
    let names: [&str; 1] = ["href"];
    assert(name_views(names@) =~= seq!["href"@]);
    match doc.select_within("li.b_algo", "h2 a[href]", &names) {
        Some(els) => bing_results_from(&els),
        None => {
            let none: Vec<Option<HtmlElement>> = Vec::new();
            assert(opt_element_views(none@) =~= Seq::<Option<ElementView>>::empty());
            bing_results_from(&none)
        },
    }
}

/// The first five Bing result links (each the first `h2 a[href]` of a result,
/// read with its `href`) that are download candidates, without repeats.
pub fn bing_results_from(els: &Vec<Option<HtmlElement>>) -> (r: Vec<AppMatch>)
    ensures
        match_views(r@) == bing_listing(opt_element_views(els@)),
{
    let mut found: Vec<(String, String)> = Vec::new();
    let mut i: usize = 0;
    while i < els.len()
        invariant
            i <= els@.len(),
            crate::urls::pair_views(found@) == bing_results(opt_element_views(els@).take(i as int)),
        decreases els@.len() - i,
    {
        assert(opt_element_views(els@).take(i + 1).drop_last() =~= opt_element_views(els@).take(i as int));
        if found.len() < 5 {
            match &els[i] {
                Some(e) => {
                    match bing_candidate_of(e) {
                        Some(x) => {
                            let mut seen = false;
                            let mut k: usize = 0;
                            while k < found.len()
                                invariant
                                    k <= found@.len(),
                                    seen == exists|j: int| 0 <= j < k && #[trigger] crate::urls::pair_views(found@)[j].1 == x.1@,
                                decreases found@.len() - k,
                            {
                                proof {
                                    assert(crate::urls::pair_views(found@)[k as int].1 == found@[k as int].1@);
                                }
                                if crate::text::same_string(&found[k].1, &x.1) {
                                    seen = true;
                                }
                                k += 1;
                                assert(seen == exists|j: int| 0 <= j < k && #[trigger] crate::urls::pair_views(found@)[j].1 == x.1@);
                            }
                            if !seen {
                                let ghost prev = found@;
                                let ghost xv = (x.0@, x.1@);
                                found.push(x);
                                assert(crate::urls::pair_views(found@) =~= crate::urls::pair_views(prev).push(xv));
                            }
                        },
                        None => {},
                    }
                },
                None => {},
            }
        }
        i += 1;
    }
    assert(opt_element_views(els@).take(els@.len() as int) =~= opt_element_views(els@));
    let ghost fv = crate::urls::pair_views(found@);
    let mut out: Vec<AppMatch> = Vec::new();
    let mut j: usize = 0;
    while j < found.len()
        invariant
            j <= found@.len(),
            fv == crate::urls::pair_views(found@),
            match_views(out@) == fv.take(j as int).map_values(|x: (Seq<char>, Seq<char>)| (x.0, "Web"@, x.1)),
        decreases found@.len() - j,
    {
        let web = lit("Web");
        let m = AppMatch { name: found[j].0.clone(), platform: string_from(web.as_slice()), url: found[j].1.clone() };
        let ghost prev = out@;
        proof {
            assert(fv.take(j + 1) =~= fv.take(j as int).push(fv[j as int]));
        }
        out.push(m);
        assert(match_views(out@) =~= match_views(prev).push((m.name@, m.platform@, m.url@)));
        j += 1;
    }
    assert(fv.take(found@.len() as int) =~= fv);
    out
}

} // verus!
