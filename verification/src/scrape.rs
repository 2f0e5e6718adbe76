//! Finding what a web page offers to install: package files, install scripts,
//! and the GitHub repository it points to.
use vstd::prelude::*;
use crate::{CurlInstall, Distro};
use crate::assets::{file_name, valid_asset, extract_fname, is_valid_asset};
use crate::html::{Document, ElementView, HtmlElement, html_select, element_views, name_views};
use crate::pattern::{Pattern, regex_captures, regex_compiles, capture_views, group_views};
use crate::text::{
    chars_of, concat, ends_with, has_prefix, has_suffix, is_infix, lines, lines_of, lower,
    lowercase, starts_with, string_from, trim, trimmed, contains, join_with, join_strings,
    string_views, same_string,
};
use crate::urls::{opt_view, pair_views, resolve_url, resolved};

verus! {

/// The GitHub repository references in a page.
pub const GITHUB_REPO_PATTERN: &'static str = r#"github\.com/([A-Za-z0-9_.-]+/[A-Za-z0-9_.-]+)"#;

/// Package URLs written in `onclick` handlers.
pub const ONCLICK_PACKAGE_PATTERN: &'static str = r#"https?://[^\s'"\)]+\.(?i:AppImage|deb|rpm|tar\.gz|tar\.xz|tar\.bz2|zip)"#;

/// Package URLs anywhere in a page.
pub const PAGE_PACKAGE_PATTERN: &'static str = r#"https?://[^\s"'<>]+\.(?i:AppImage|deb|rpm|tar\.gz|tar\.xz|tar\.bz2|zip)"#;

/// Any URL, up to a space, pipe, bracket or quote.
pub const URL_PATTERN: &'static str = r#"https?://[^\s|<>"']+"#;

/// `curl … URL | [sudo] [ba]sh` install commands.
pub const PIPE_INSTALL_PATTERN: &'static str = r#"(?:curl|wget)\s+(?:-[a-zA-Z0-9\s]+\s+)?https?://[^\s|<>"']+(?:\s*\|[^\s<>"']*)*\s*\|\s*(?:sudo\s+)?(?:ba)?sh"#;

/// `[ba]sh <(curl … URL)` install commands.
pub const PROCESS_INSTALL_PATTERN: &'static str = r#"(?:ba)?sh\s*<\s*\(\s*(?:curl|wget)\s+(?:-[a-zA-Z0-9\s]+)?(https?://[^\s)|"']+)"#;

/// `[ba]sh -c "$(curl … URL)"` install commands.
pub const SHELL_C_INSTALL_PATTERN: &'static str = r#"(?:ba)?sh\s+-c\s*["']\s*(?:\$)?\(?(?:curl|wget)\s+(?:-[a-zA-Z0-9\s]+)?(https?://[^\s)"'|]+)"#;

/// The selector of elements that may carry a download URL.
pub const LINK_SELECTOR: &'static str = "[href],[data-href],[data-url],[data-download],[data-src],[data-download-url],[onclick]";

/// Group `i` of one match, if it took part.
pub open spec fn group(c: Seq<Option<Seq<char>>>, i: int) -> Option<Seq<char>> {
    if 0 <= i < c.len() {
        c[i]
    } else {
        None
    }
}

/// The whole text of a match.
pub open spec fn whole(c: Seq<Option<Seq<char>>>) -> Seq<char> {
    match group(c, 0) {
        Some(m) => m,
        None => seq![],
    }
}

/// The matches of pattern `p` in `text` (none where `p` does not compile).
pub open spec fn matches_of(p: Seq<char>, text: Seq<char>) -> Seq<Seq<Option<Seq<char>>>> {
    if regex_compiles(p) {
        regex_captures(p, text)
    } else {
        seq![]
    }
}

/// The first match of `p` in `text` (`Regex::captures`, group 0).
pub open spec fn first_match(p: Seq<char>, text: Seq<char>) -> Option<Seq<char>> {
    let m = matches_of(p, text);
    if m.len() > 0 {
        group(m[0], 0)
    } else {
        None
    }
}

/// The texts of all matches of `p` in `text`.
pub open spec fn all_matches(p: Seq<char>, text: Seq<char>) -> Seq<Seq<char>> {
    matches_of(p, text).map_values(|c: Seq<Option<Seq<char>>>| whole(c))
}

/// `p` is `src` compiled, or `src` does not compile and `p` is `None`.
pub open spec fn compiled_as(p: Option<Pattern>, src: Seq<char>) -> bool {
    match p {
        Some(q) => q@ == src && regex_compiles(src),
        None => !regex_compiles(src),
    }
}

/// Compiles one of the library's patterns.
fn compile(p: &str) -> (r: Option<Pattern>)
    ensures
        compiled_as(r, p@),
{
    Pattern::new(p)
}

/// All matches of a compiled pattern (none where it did not compile).
fn captures_of(p: &Option<Pattern>, Ghost(src): Ghost<Seq<char>>, text: &str) -> (r: Vec<Vec<Option<String>>>)
    requires
        compiled_as(*p, src),
    ensures
        capture_views(r@) == matches_of(src, text@),
        forall|i: int| 0 <= i < r@.len() ==> r@[i]@.len() > 0 && (#[trigger] r@[i]@)[0] is Some,
        src == URL_PATTERN@ ==> forall|i: int|
            0 <= i < r@.len() ==> ((#[trigger] r@[i]@)[0] matches Some(m) && has_prefix(m@, "http"@)),
{
    match p {
        Some(q) => q.captures_all(text),
        None => {
            let r: Vec<Vec<Option<String>>> = Vec::new();
            assert(capture_views(r@) =~= Seq::<Seq<Option<Seq<char>>>>::empty());
            r
        },
    }
}

/// The text of the first match of a compiled pattern.
fn find_first(p: &Option<Pattern>, Ghost(src): Ghost<Seq<char>>, text: &str) -> (r: Option<String>)
    requires
        compiled_as(*p, src),
    ensures
        opt_view(r) == first_match(src, text@),
        src == URL_PATTERN@ ==> (r matches Some(u) ==> has_prefix(u@, "http"@)),
{
    let caps = captures_of(p, Ghost(src), text);
    if caps.len() > 0 {
        proof {
            assert(capture_views(caps@)[0] == group_views(caps@[0]@));
        }
        caps[0][0].clone()
    } else {
        None
    }
}

/// The texts of all matches of a compiled pattern.
fn find_all(p: &Option<Pattern>, Ghost(src): Ghost<Seq<char>>, text: &str) -> (r: Vec<String>)
    requires
        compiled_as(*p, src),
    ensures
        string_views(r@) == all_matches(src, text@),
{
    let caps = captures_of(p, Ghost(src), text);
    let mut out: Vec<String> = Vec::new();
    let mut i: usize = 0;
    while i < caps.len()
        invariant
            i <= caps@.len(),
            capture_views(caps@) == matches_of(src, text@),
            forall|k: int| 0 <= k < caps@.len() ==> caps@[k]@.len() > 0 && (#[trigger] caps@[k]@)[0] is Some,
            string_views(out@) == all_matches(src, text@).take(i as int),
        decreases caps@.len() - i,
    {
        let ghost g = group_views(caps@[i as int]@);
        proof {
            assert(capture_views(caps@)[i as int] == g);
            assert(all_matches(src, text@).len() == caps@.len());
            assert(all_matches(src, text@)[i as int] == whole(g));
        }
        let m = match &caps[i][0] {
            Some(m) => {
                assert(g[0] == Some(m@));
                m.clone()
            },
            None => String::new(),
        };
        assert(m@ == whole(g));
        let ghost prev = out@;
        out.push(m);
        assert(string_views(out@) =~= string_views(prev).push(m@));
        i += 1;
        assert(string_views(out@) =~= all_matches(src, text@).take(i as int));
    }
    out
}


/// Repository paths that are not a project's own: GitHub's own pages, topics,
/// sponsors and clone URLs.
pub open spec fn not_a_repo(r: Seq<char>) -> bool {
    has_prefix(r, "github/"@) || is_infix(r, "topics/"@) || is_infix(r, "sponsors/"@)
        || has_suffix(r, ".git"@)
}

/// The first repository path (group 1) among the matches that is a project's own.
pub open spec fn first_repo(caps: Seq<Seq<Option<Seq<char>>>>) -> Option<Seq<char>>
    decreases caps.len(),
{
    if caps.len() == 0 {
        None
    } else {
        match group(caps[0], 1) {
            Some(r) => if !not_a_repo(r) {
                Some(r)
            } else {
                first_repo(caps.drop_first())
            },
            None => first_repo(caps.drop_first()),
        }
    }
}

/// The GitHub repository a page points to.
pub open spec fn github_repo_in(html: Seq<char>) -> Option<Seq<char>> {
    first_repo(matches_of(GITHUB_REPO_PATTERN@, html))
}

fn str_has_prefix(s: &String, p: &str) -> (r: bool)
    ensures
        r == has_prefix(s@, p@),
{
    let a = chars_of(s.as_str());
    let b = chars_of(p);
    starts_with(a.as_slice(), b.as_slice())
}

fn str_has_suffix(s: &String, p: &str) -> (r: bool)
    ensures
        r == has_suffix(s@, p@),
{
    let a = chars_of(s.as_str());
    let b = chars_of(p);
    ends_with(a.as_slice(), b.as_slice())
}

fn str_has(s: &String, p: &str) -> (r: bool)
    ensures
        r == is_infix(s@, p@),
{
    crate::text::str_contains(s.as_str(), p)
}

/// The first repository path among matches of `GITHUB_REPO_PATTERN`.
pub fn first_github_repo(caps: &Vec<Vec<Option<String>>>) -> (r: Option<String>)
    ensures
        opt_view(r) == first_repo(capture_views(caps@)),
{
    let mut i: usize = 0;
    assert(capture_views(caps@).skip(0) =~= capture_views(caps@));
    while i < caps.len()
        invariant
            i <= caps@.len(),
            first_repo(capture_views(caps@)) == first_repo(capture_views(caps@).skip(i as int)),
        decreases caps@.len() - i,
    {
        let ghost c = capture_views(caps@).skip(i as int);
        proof {
            assert(c.drop_first() =~= capture_views(caps@).skip(i + 1));
            assert(c[0] == group_views(caps@[i as int]@));
        }
        if caps[i].len() > 1 {
            match &caps[i][1] {
                Some(repo) => {
                    if !(str_has_prefix(repo, "github/") || str_has(repo, "topics/") || str_has(
                        repo,
                        "sponsors/",
                    ) || str_has_suffix(repo, ".git")) {
                        return Some(repo.clone());
                    }
                },
                None => {},
            }
        }
        i += 1;
    }
    None
}

/// The GitHub repository a page points to: the first `github.com/owner/name`
/// in it that is a project's own.
pub fn extract_github_repo(html: &str) -> (r: Option<String>)
    ensures
        opt_view(r) == github_repo_in(html@),
{
    let p = compile(GITHUB_REPO_PATTERN);
    let caps = captures_of(&p, Ghost(GITHUB_REPO_PATTERN@), html);
    first_github_repo(&caps)
}

/// A download `(file name, url)` is added for `abs` unless its file name is not
/// an installable asset or already present.
pub open spec fn add_link(links: Seq<(Seq<char>, Seq<char>)>, abs: Seq<char>, d: Distro) -> Seq<(Seq<char>, Seq<char>)> {
    let f = file_name(abs);
    if valid_asset(lowercase(f), d) && !(exists|i: int| 0 <= i < links.len() && #[trigger] links[i].0 == f) {
        links.push((f, abs))
    } else {
        links
    }
}

/// `add_link` for each candidate URL in turn.
pub open spec fn add_links(links: Seq<(Seq<char>, Seq<char>)>, cands: Seq<Seq<char>>, d: Distro) -> Seq<(Seq<char>, Seq<char>)>
    decreases cands.len(),
{
    if cands.len() == 0 {
        links
    } else {
        add_link(add_links(links, cands.drop_last(), d), cands.last(), d)
    }
}

/// Adding two runs of candidates is adding their concatenation.
pub proof fn lemma_add_links_concat(links: Seq<(Seq<char>, Seq<char>)>, a: Seq<Seq<char>>, b: Seq<Seq<char>>, d: Distro)
    ensures
        add_links(links, a + b, d) == add_links(add_links(links, a, d), b, d),
    decreases b.len(),
{
    if b.len() == 0 {
        assert(a + b =~= a);
    } else {
        assert((a + b).drop_last() =~= a + b.drop_last());
        lemma_add_links_concat(links, a, b.drop_last(), d);
    }
}

fn has_file_name(links: &Vec<(String, String)>, f: &String) -> (r: bool)
    ensures
        r == exists|i: int| 0 <= i < links@.len() && #[trigger] pair_views(links@)[i].0 == f@,
{
    let mut i: usize = 0;
    while i < links.len()
        invariant
            i <= links@.len(),
            forall|j: int| 0 <= j < i ==> #[trigger] pair_views(links@)[j].0 != f@,
        decreases links@.len() - i,
    {
        if same_string(&links[i].0, f) {
            assert(pair_views(links@)[i as int].0 == f@);
            return true;
        }
        i += 1;
    }
    false
}

/// `add_link` on the library's vectors.
pub fn push_link(links: &mut Vec<(String, String)>, abs: String, distro: &Distro)
    ensures
        pair_views(final(links)@) == add_link(pair_views(old(links)@), abs@, *distro),
{
    let f = extract_fname(abs.as_str());
    if is_valid_asset(f.as_str(), distro) && !has_file_name(links, &f) {
        let ghost prev = links@;
        links.push((f, abs));
        assert(pair_views(links@) =~= pair_views(prev).push((f@, abs@)));
    }
}

/// `add_links` on the library's vectors.
pub fn push_links(links: &mut Vec<(String, String)>, cands: Vec<String>, distro: &Distro)
    ensures
        pair_views(final(links)@) == add_links(pair_views(old(links)@), string_views(cands@), *distro),
{
    let ghost start = pair_views(links@);
    let mut i: usize = 0;
    assert(string_views(cands@).take(0) =~= Seq::<Seq<char>>::empty());
    while i < cands.len()
        invariant
            i <= cands@.len(),
            pair_views(links@) == add_links(start, string_views(cands@).take(i as int), *distro),
        decreases cands@.len() - i,
    {
        assert(string_views(cands@).take(i + 1).drop_last() =~= string_views(cands@).take(i as int));
        push_link(links, cands[i].clone(), distro);
        i += 1;
    }
    assert(string_views(cands@).take(cands@.len() as int) =~= string_views(cands@));
}

/// Value of the `k`-th asked attribute of an element.
pub open spec fn attr(e: ElementView, k: int) -> Option<Seq<char>> {
    if 0 <= k < e.attrs.len() {
        e.attrs[k]
    } else {
        None
    }
}

/// The attributes read on download candidates: the target system first, then
/// the URL-carrying attributes (`href` first), then `onclick`.
pub open spec fn link_attr_names() -> Seq<Seq<char>> {
    seq!["data-os"@, "href"@, "data-href"@, "data-url"@, "data-download"@, "data-src"@, "data-download-url"@, "onclick"@]
}

/// An element without a `data-os`, or whose `data-os` names Linux.
pub open spec fn for_linux(e: ElementView) -> bool {
    match attr(e, 0) {
        Some(v) => is_infix(lowercase(v), "linux"@),
        None => true,
    }
}

/// An optional value as a sequence of zero or one.
pub open spec fn opt_seq(o: Option<Seq<char>>) -> Seq<Seq<char>> {
    match o {
        Some(v) => seq![v],
        None => seq![],
    }
}

/// The resolved URL in the `k`-th asked attribute, if any.
pub open spec fn resolved_attr(e: ElementView, k: int, page: Seq<char>) -> Seq<Seq<char>> {
    match attr(e, k) {
        Some(v) => opt_seq(resolved(page, v)),
        None => seq![],
    }
}

/// The download URLs an element offers: its resolved `href`; its other URL
/// attributes unless it is marked for another system; the package URL in its
/// `onclick`.
pub open spec fn element_links(e: ElementView, page: Seq<char>) -> Seq<Seq<char>> {
    resolved_attr(e, 1, page) + (if for_linux(e) {
        resolved_attr(e, 2, page) + resolved_attr(e, 3, page) + resolved_attr(e, 4, page)
            + resolved_attr(e, 5, page) + resolved_attr(e, 6, page)
    } else {
        seq![]
    }) + match attr(e, 7) {
        Some(v) => opt_seq(first_match(ONCLICK_PACKAGE_PATTERN@, v)),
        None => seq![],
    }
}

/// The download URLs of elements, in the order they were selected.
pub open spec fn elements_links(es: Seq<ElementView>, page: Seq<char>) -> Seq<Seq<char>>
    decreases es.len(),
{
    if es.len() == 0 {
        seq![]
    } else {
        elements_links(es.drop_last(), page) + element_links(es.last(), page)
    }
}

/// Every candidate download URL of a page: those of its elements, then every
/// package URL written in its text.
pub open spec fn page_link_candidates(html: Seq<char>, page: Seq<char>) -> Seq<Seq<char>> {
    (match html_select(html, LINK_SELECTOR@, link_attr_names()) {
        Some(es) => elements_links(es, page),
        None => seq![],
    }) + all_matches(PAGE_PACKAGE_PATTERN@, html)
}

/// The installable downloads of a page, first occurrence of each file name.
pub open spec fn download_links(html: Seq<char>, page: Seq<char>, d: Distro) -> Seq<(Seq<char>, Seq<char>)> {
    add_links(seq![], page_link_candidates(html, page), d)
}

fn push_resolved(out: &mut Vec<String>, e: &HtmlElement, k: usize, page_url: &str)
    requires
        k < 8,
        e.attrs@.len() == 8,
    ensures
        string_views(final(out)@) == string_views(old(out)@) + resolved_attr(e@, k as int, page_url@),
{
    let ghost prev = out@;
    match &e.attrs[k] {
        Some(v) => {
            assert(attr(e@, k as int) == Some(v@));
            match resolve_url(page_url, v.as_str()) {
                Some(abs) => {
                    out.push(abs);
                    assert(string_views(out@) =~= string_views(prev) + seq![abs@]);
                },
                None => {
                    assert(string_views(out@) =~= string_views(prev) + Seq::<Seq<char>>::empty());
                },
            }
        },
        None => {
            assert(string_views(out@) =~= string_views(prev) + Seq::<Seq<char>>::empty());
        },
    }
}

#[verifier::rlimit(60)]
fn element_link_candidates(e: &HtmlElement, page_url: &str, onclick: &Option<Pattern>) -> (r: Vec<String>)
    requires
        e.attrs@.len() == 8,
        compiled_as(*onclick, ONCLICK_PACKAGE_PATTERN@),
    ensures
        string_views(r@) == element_links(e@, page_url@),
{
    let mut out: Vec<String> = Vec::new();
    push_resolved(&mut out, e, 1, page_url);
    let os_ok = match &e.attrs[0] {
        Some(v) => {
            let vc = chars_of(v.as_str());
            let l = lower(vc.as_slice());
            let linux = chars_of("linux");
            contains(l.as_slice(), linux.as_slice())
        },
        None => true,
    };
    let ghost after_href = string_views(out@);
    if os_ok {
        push_resolved(&mut out, e, 2, page_url);
        push_resolved(&mut out, e, 3, page_url);
        push_resolved(&mut out, e, 4, page_url);
        push_resolved(&mut out, e, 5, page_url);
        push_resolved(&mut out, e, 6, page_url);
    }
    let ghost after_attrs = string_views(out@);
    match &e.attrs[7] {
        Some(v) => {
            match find_first(onclick, Ghost(ONCLICK_PACKAGE_PATTERN@), v.as_str()) {
                Some(m) => {
                    out.push(m);
                    assert(string_views(out@) =~= after_attrs + seq![m@]);
                },
                None => {
                    assert(string_views(out@) =~= after_attrs + Seq::<Seq<char>>::empty());
                },
            }
        },
        None => {
            assert(string_views(out@) =~= after_attrs + Seq::<Seq<char>>::empty());
        },
    }
    proof {
        if !for_linux(e@) {
            assert(after_attrs =~= after_href + Seq::<Seq<char>>::empty());
        }
        assert(string_views(out@) =~= element_links(e@, page_url@));
    }
    out
}

/// The installable downloads of a page: package links of its elements and
/// package URLs in its text, resolved against `page_url`, the first occurrence
/// of each file name kept.
pub fn scrape_download_links(html: &str, page_url: &str, distro: &Distro) -> (r: Vec<(String, String)>)
    ensures
        pair_views(r@) == download_links(html@, page_url@, *distro),
{
    let doc = Document::parse(html);
    let mut links: Vec<(String, String)> = Vec::new();
    let names: [&str; 8] = ["data-os", "href", "data-href", "data-url", "data-download", "data-src", "data-download-url", "onclick"];
    proof {
        assert(name_views(names@) =~= link_attr_names());
    }
    let ghost part1: Seq<Seq<char>>;
    match doc.select(LINK_SELECTOR, &names) {
        Some(els) => {
            let onclick = compile(ONCLICK_PACKAGE_PATTERN);
            let mut i: usize = 0;
            while i < els.len()
                invariant
                    i <= els@.len(),
                    compiled_as(onclick, ONCLICK_PACKAGE_PATTERN@),
                    html_select(html@, LINK_SELECTOR@, link_attr_names()) == Some(element_views(els@)),
                    forall|k: int| 0 <= k < els@.len() ==> (#[trigger] els@[k]).attrs@.len() == 8,
                    pair_views(links@) == add_links(seq![], elements_links(element_views(els@).take(i as int), page_url@), *distro),
                decreases els@.len() - i,
            {
                proof {
                    assert(element_views(els@).take(i + 1).drop_last() =~= element_views(els@).take(i as int));
                }
                let cands = element_link_candidates(&els[i], page_url, &onclick);
                proof {
                    lemma_add_links_concat(seq![], elements_links(element_views(els@).take(i as int), page_url@), string_views(cands@), *distro);
                }
                push_links(&mut links, cands, distro);
                i += 1;
            }
            assert(element_views(els@).take(els@.len() as int) =~= element_views(els@));
            proof { part1 = elements_links(element_views(els@), page_url@); }
        },
        None => {
            proof {
                part1 = seq![];
                assert(pair_views(links@) =~= Seq::<(Seq<char>, Seq<char>)>::empty());
            }
        },
    }
    assert(pair_views(links@) == add_links(seq![], part1, *distro));
    assert(part1 + all_matches(PAGE_PACKAGE_PATTERN@, html@) == page_link_candidates(html@, page_url@));
    let url_re = compile(PAGE_PACKAGE_PATTERN);
    let found = find_all(&url_re, Ghost(PAGE_PACKAGE_PATTERN@), html);
    proof {
        lemma_add_links_concat(seq![], part1, string_views(found@), *distro);
    }
    push_links(&mut links, found, distro);
    links
}


/// An install command as `(script url, shown command)`.
pub open spec fn install_view(c: CurlInstall) -> (Seq<char>, Seq<char>) {
    (c.url@, c.display_name@)
}

/// Views of install commands.
pub open spec fn install_views(v: Seq<CurlInstall>) -> Seq<(Seq<char>, Seq<char>)> {
    v.map_values(|c: CurlInstall| install_view(c))
}

/// A candidate `(url, command)` is added unless its URL is already offered.
pub open spec fn add_install(acc: Seq<(Seq<char>, Seq<char>)>, c: (Seq<char>, Seq<char>)) -> Seq<(Seq<char>, Seq<char>)> {
    if exists|i: int| 0 <= i < acc.len() && #[trigger] acc[i].0 == c.0 {
        acc
    } else {
        acc.push(c)
    }
}

/// `add_install` for each candidate in turn.
pub open spec fn add_installs(acc: Seq<(Seq<char>, Seq<char>)>, cands: Seq<(Seq<char>, Seq<char>)>) -> Seq<(Seq<char>, Seq<char>)>
    decreases cands.len(),
{
    if cands.len() == 0 {
        acc
    } else {
        add_install(add_installs(acc, cands.drop_last()), cands.last())
    }
}

/// Every entry has a non-empty URL.
pub open spec fn urls_nonempty(v: Seq<(Seq<char>, Seq<char>)>) -> bool {
    forall|i: int| 0 <= i < v.len() ==> (#[trigger] v[i]).0.len() > 0
}

/// Adding candidates with non-empty URLs keeps every URL non-empty.
pub proof fn lemma_add_installs_nonempty(acc: Seq<(Seq<char>, Seq<char>)>, cands: Seq<(Seq<char>, Seq<char>)>)
    requires
        urls_nonempty(acc),
        urls_nonempty(cands),
    ensures
        urls_nonempty(add_installs(acc, cands)),
    decreases cands.len(),
{
    if cands.len() > 0 {
        let t = cands.drop_last();
        assert forall|i: int| 0 <= i < t.len() implies (#[trigger] t[i]).0.len() > 0 by {
            assert(t[i] == cands[i]);
        }
        lemma_add_installs_nonempty(acc, t);
        assert(cands[cands.len() - 1] == cands.last());
    }
}

/// Two runs of entries with non-empty URLs, joined, have non-empty URLs.
proof fn lemma_urls_nonempty_concat(a: Seq<(Seq<char>, Seq<char>)>, b: Seq<(Seq<char>, Seq<char>)>)
    requires
        urls_nonempty(a),
        urls_nonempty(b),
    ensures
        urls_nonempty(a + b),
{
    assert forall|i: int| 0 <= i < (a + b).len() implies (#[trigger] (a + b)[i]).0.len() > 0 by {
        if i >= a.len() {
            assert((a + b)[i] == b[i - a.len()]);
        }
    }
}

/// Adding two runs of candidates is adding their concatenation.
pub proof fn lemma_add_installs_concat(acc: Seq<(Seq<char>, Seq<char>)>, a: Seq<(Seq<char>, Seq<char>)>, b: Seq<(Seq<char>, Seq<char>)>)
    ensures
        add_installs(acc, a + b) == add_installs(add_installs(acc, a), b),
    decreases b.len(),
{
    if b.len() == 0 {
        assert(a + b =~= a);
    } else {
        assert((a + b).drop_last() =~= a + b.drop_last());
        lemma_add_installs_concat(acc, a, b.drop_last());
    }
}

fn offers_url(installs: &Vec<CurlInstall>, url: &String) -> (r: bool)
    ensures
        r == exists|i: int| 0 <= i < installs@.len() && #[trigger] install_views(installs@)[i].0 == url@,
{
    let mut i: usize = 0;
    while i < installs.len()
        invariant
            i <= installs@.len(),
            forall|j: int| 0 <= j < i ==> #[trigger] install_views(installs@)[j].0 != url@,
        decreases installs@.len() - i,
    {
        if same_string(&installs[i].url, url) {
            assert(install_views(installs@)[i as int].0 == url@);
            return true;
        }
        i += 1;
    }
    false
}

/// `add_installs` on the library's vectors.
pub fn push_installs(installs: &mut Vec<CurlInstall>, cands: Vec<(String, String)>)
    ensures
        install_views(final(installs)@) == add_installs(install_views(old(installs)@), pair_views(cands@)),
{
    let ghost start = install_views(installs@);
    let mut i: usize = 0;
    assert(pair_views(cands@).take(0) =~= Seq::<(Seq<char>, Seq<char>)>::empty());
    while i < cands.len()
        invariant
            i <= cands@.len(),
            install_views(installs@) == add_installs(start, pair_views(cands@).take(i as int)),
        decreases cands@.len() - i,
    {
        assert(pair_views(cands@).take(i + 1).drop_last() =~= pair_views(cands@).take(i as int));
        let url = cands[i].0.clone();
        if !offers_url(installs, &url) {
            let ghost prev = installs@;
            installs.push(CurlInstall { url, display_name: cands[i].1.clone() });
            assert(install_views(installs@) =~= install_views(prev).push(pair_views(cands@)[i as int]));
        }
        i += 1;
    }
    assert(pair_views(cands@).take(cands@.len() as int) =~= pair_views(cands@));
}

/// An optional candidate as a sequence of zero or one.
pub open spec fn opt_cand(o: Option<(Seq<char>, Seq<char>)>) -> Seq<(Seq<char>, Seq<char>)> {
    match o {
        Some(c) => seq![c],
        None => seq![],
    }
}

/// A link to a `.sh` or `.bash` script, resolved, offered as `curl -fsSL … | bash`.
pub open spec fn script_link(e: ElementView, base: Seq<char>) -> Option<(Seq<char>, Seq<char>)> {
    match attr(e, 0) {
        Some(h) => if has_suffix(lowercase(h), ".sh"@) || has_suffix(lowercase(h), ".bash"@) {
            match resolved(base, h) {
                Some(abs) => Some((abs, "curl -fsSL "@ + abs + " | bash"@)),
                None => None,
            }
        } else {
            None
        },
        None => None,
    }
}

/// Script links of elements, in order.
pub open spec fn script_links(es: Seq<ElementView>, base: Seq<char>) -> Seq<(Seq<char>, Seq<char>)>
    decreases es.len(),
{
    if es.len() == 0 {
        seq![]
    } else {
        script_links(es.drop_last(), base) + opt_cand(script_link(es.last(), base))
    }
}

/// An install command matched in the page: the script URL is the pattern's
/// group 1, or else the first URL in the trimmed command; none if empty.
pub open spec fn command_candidate(c: Seq<Option<Seq<char>>>) -> Option<(Seq<char>, Seq<char>)> {
    let full = trim(whole(c));
    let url = match group(c, 1) {
        Some(u) => u,
        None => match first_match(URL_PATTERN@, full) {
            Some(u) => u,
            None => seq![],
        },
    };
    if url.len() > 0 {
        Some((url, full))
    } else {
        None
    }
}

/// Install commands of matches, in order.
pub open spec fn command_candidates(caps: Seq<Seq<Option<Seq<char>>>>) -> Seq<(Seq<char>, Seq<char>)>
    decreases caps.len(),
{
    if caps.len() == 0 {
        seq![]
    } else {
        command_candidates(caps.drop_last()) + opt_cand(command_candidate(caps.last()))
    }
}

/// The command shown for a code block: the first line of its trimmed text, trimmed.
pub open spec fn block_display(text: Seq<char>) -> Seq<char> {
    let ls = lines(trim(text));
    trim(
        if ls.len() > 0 {
            ls[0]
        } else {
            text
        },
    )
}

/// A code block that mentions `curl` or `wget` and `bash` or `sh`, offered with
/// the first URL in it.
pub open spec fn block_candidate(e: ElementView) -> Option<(Seq<char>, Seq<char>)> {
    let text = join_with(e.text, seq![]);
    if !(is_infix(text, "curl"@) || is_infix(text, "wget"@)) {
        None
    } else if !(is_infix(text, "bash"@) || is_infix(text, "sh"@)) {
        None
    } else {
        match first_match(URL_PATTERN@, text) {
            Some(u) => Some((u, block_display(text))),
            None => None,
        }
    }
}

/// Install commands of code blocks, in order.
pub open spec fn block_candidates(es: Seq<ElementView>) -> Seq<(Seq<char>, Seq<char>)>
    decreases es.len(),
{
    if es.len() == 0 {
        seq![]
    } else {
        block_candidates(es.drop_last()) + opt_cand(block_candidate(es.last()))
    }
}

/// The elements a selector finds, or none where it is refused.
pub open spec fn selected(html: Seq<char>, sel: Seq<char>, attrs: Seq<Seq<char>>) -> Seq<ElementView> {
    match html_select(html, sel, attrs) {
        Some(es) => es,
        None => seq![],
    }
}

/// Every candidate install command of a page, in the order they are looked for:
/// script links, the three command forms, then `code`, `pre` and `samp` blocks.
pub open spec fn page_install_candidates(html: Seq<char>, base: Seq<char>) -> Seq<(Seq<char>, Seq<char>)> {
    script_links(selected(html, "a[href]"@, seq!["href"@]), base)
        + command_candidates(matches_of(PIPE_INSTALL_PATTERN@, html))
        + command_candidates(matches_of(PROCESS_INSTALL_PATTERN@, html))
        + command_candidates(matches_of(SHELL_C_INSTALL_PATTERN@, html))
        + block_candidates(selected(html, "code"@, seq![]))
        + block_candidates(selected(html, "pre"@, seq![]))
        + block_candidates(selected(html, "samp"@, seq![]))
}

/// The install commands of a page, first occurrence of each script URL.
pub open spec fn curl_installs(html: Seq<char>, base: Seq<char>) -> Seq<(Seq<char>, Seq<char>)> {
    add_installs(seq![], page_install_candidates(html, base))
}

fn push_opt(out: &mut Vec<(String, String)>, c: Option<(String, String)>)
    ensures
        pair_views(final(out)@) == pair_views(old(out)@) + opt_cand(match c {
            Some(p) => Some((p.0@, p.1@)),
            None => None,
        }),
        urls_nonempty(pair_views(old(out)@)) && (c matches Some(p) ==> p.0@.len() > 0) ==> urls_nonempty(pair_views(final(out)@)),
{
    let ghost prev = out@;
    match c {
        Some(p) => {
            out.push(p);
            assert(pair_views(out@) =~= pair_views(prev) + seq![(p.0@, p.1@)]);
            assert(pair_views(out@)[prev.len() as int] == (p.0@, p.1@));
        },
        None => {
            assert(pair_views(out@) =~= pair_views(prev) + Seq::<(Seq<char>, Seq<char>)>::empty());
        },
    }
}

fn str_of(v: &Vec<char>) -> (r: String)
    ensures
        r@ == v@,
{
    string_from(v.as_slice())
}

fn script_candidates(doc: &Document, base_url: &str) -> (r: Vec<(String, String)>)
    ensures
        pair_views(r@) == script_links(selected(doc@, "a[href]"@, seq!["href"@]), base_url@),
        urls_nonempty(pair_views(r@)),
{
    let names: [&str; 1] = ["href"];
    assert(name_views(names@) =~= seq!["href"@]);
    let mut out: Vec<(String, String)> = Vec::new();
    match doc.select("a[href]", &names) {
        Some(els) => {
            let mut i: usize = 0;
            while i < els.len()
                invariant
                    i <= els@.len(),
                    html_select(doc@, "a[href]"@, seq!["href"@]) == Some(element_views(els@)),
                    forall|k: int| 0 <= k < els@.len() ==> (#[trigger] els@[k]).attrs@.len() == 1,
                    pair_views(out@) == script_links(element_views(els@).take(i as int), base_url@),
                    urls_nonempty(pair_views(out@)),
                decreases els@.len() - i,
            {
                assert(element_views(els@).take(i + 1).drop_last() =~= element_views(els@).take(i as int));
                let ghost e = element_views(els@)[i as int];
                let c: Option<(String, String)> = match &els[i].attrs[0] {
                    Some(h) => {
                        assert(attr(e, 0) == Some(h@));
                        let hc = chars_of(h.as_str());
                        let l = lower(hc.as_slice());
                        let sh = chars_of(".sh");
                        let bash = chars_of(".bash");
                        if ends_with(l.as_slice(), sh.as_slice()) || ends_with(l.as_slice(), bash.as_slice()) {
                            match resolve_url(base_url, h.as_str()) {
                                Some(abs) => {
                                    let a = chars_of(abs.as_str());
                                    let pre = chars_of("curl -fsSL ");
                                    let post = chars_of(" | bash");
                                    let x = concat(pre.as_slice(), a.as_slice());
                                    let y = concat(x.as_slice(), post.as_slice());
                                    Some((abs, str_of(&y)))
                                },
                                None => None,
                            }
                        } else {
                            None
                        }
                    },
                    None => None,
                };
                push_opt(&mut out, c);
                i += 1;
            }
            assert(element_views(els@).take(els@.len() as int) =~= element_views(els@));
        },
        None => {
            assert(pair_views(out@) =~= Seq::<(Seq<char>, Seq<char>)>::empty());
        },
    }
    out
}

fn command_candidates_of(p: &str, html: &str, url_re: &Option<Pattern>) -> (r: Vec<(String, String)>)
    requires
        compiled_as(*url_re, URL_PATTERN@),
    ensures
        pair_views(r@) == command_candidates(matches_of(p@, html@)),
        urls_nonempty(pair_views(r@)),
{
    let re = compile(p);
    let caps = captures_of(&re, Ghost(p@), html);
    let mut out: Vec<(String, String)> = Vec::new();
    let mut i: usize = 0;
    while i < caps.len()
        invariant
            i <= caps@.len(),
            compiled_as(*url_re, URL_PATTERN@),
            capture_views(caps@) == matches_of(p@, html@),
            forall|k: int| 0 <= k < caps@.len() ==> caps@[k]@.len() > 0 && (#[trigger] caps@[k]@)[0] is Some,
            pair_views(out@) == command_candidates(capture_views(caps@).take(i as int)),
            urls_nonempty(pair_views(out@)),
        decreases caps@.len() - i,
    {
        let ghost c = capture_views(caps@)[i as int];
        proof {
            assert(capture_views(caps@).take(i + 1).drop_last() =~= capture_views(caps@).take(i as int));
            assert(c == group_views(caps@[i as int]@));
        }
        let whole_text: Vec<char> = match &caps[i][0] {
            Some(m) => chars_of(m.as_str()),
            None => Vec::new(),
        };
        assert(whole_text@ == whole(c));
        let full = trimmed(whole_text.as_slice());
        let full_s = str_of(&full);
        let g1: Option<String> = if caps[i].len() > 1 {
            caps[i][1].clone()
        } else {
            None
        };
        assert(opt_view(g1) == group(c, 1));
        let url: String = match g1 {
            Some(u) => u,
            None => match find_first(url_re, Ghost(URL_PATTERN@), full_s.as_str()) {
                Some(u) => u,
                None => String::new(),
            },
        };
        let uc = chars_of(url.as_str());
        let cand = if uc.len() > 0 {
            Some((url, full_s))
        } else {
            None
        };
        push_opt(&mut out, cand);
        i += 1;
    }
    assert(capture_views(caps@).take(caps@.len() as int) =~= capture_views(caps@));
    out
}

fn block_candidates_of(doc: &Document, tag: &str, url_re: &Option<Pattern>) -> (r: Vec<(String, String)>)
    requires
        compiled_as(*url_re, URL_PATTERN@),
    ensures
        pair_views(r@) == block_candidates(selected(doc@, tag@, seq![])),
        urls_nonempty(pair_views(r@)),
{
    let names: [&str; 0] = [];
    assert(name_views(names@) =~= Seq::<Seq<char>>::empty());
    let mut out: Vec<(String, String)> = Vec::new();
    match doc.select(tag, &names) {
        Some(els) => {
            let mut i: usize = 0;
            while i < els.len()
                invariant
                    i <= els@.len(),
                    compiled_as(*url_re, URL_PATTERN@),
                    html_select(doc@, tag@, seq![]) == Some(element_views(els@)),
                    pair_views(out@) == block_candidates(element_views(els@).take(i as int)),
                    urls_nonempty(pair_views(out@)),
                decreases els@.len() - i,
            {
                assert(element_views(els@).take(i + 1).drop_last() =~= element_views(els@).take(i as int));
                let text = join_strings(&els[i].text, "");
                proof {
                    reveal_strlit("");
                    assert(""@ =~= Seq::<char>::empty());
                }
                let text_s = str_of(&text);
                let curl = chars_of("curl");
                let wget = chars_of("wget");
                let bash = chars_of("bash");
                let sh = chars_of("sh");
                let c: Option<(String, String)> = if !(contains(text.as_slice(), curl.as_slice()) || contains(text.as_slice(), wget.as_slice())) {
                    None
                } else if !(contains(text.as_slice(), bash.as_slice()) || contains(text.as_slice(), sh.as_slice())) {
                    None
                } else {
                    match find_first(url_re, Ghost(URL_PATTERN@), text_s.as_str()) {
                        Some(u) => {
                            proof {
                                reveal_strlit("http");
                            }
                            assert(u@.len() > 0);
                            let t = trimmed(text.as_slice());
                            let ls = lines_of(t.as_slice());
                            let first = if ls.len() > 0 {
                                assert(crate::text::views(ls@)[0] == ls@[0]@);
                                trimmed(ls[0].as_slice())
                            } else {
                                trimmed(text.as_slice())
                            };
                            Some((u, str_of(&first)))
                        },
                        None => None,
                    }
                };
                push_opt(&mut out, c);
                i += 1;
            }
            assert(element_views(els@).take(els@.len() as int) =~= element_views(els@));
        },
        None => {
            assert(pair_views(out@) =~= Seq::<(Seq<char>, Seq<char>)>::empty());
        },
    }
    out
}

/// The install commands a page offers: linked `.sh`/`.bash` scripts, `curl`
/// and `wget` pipelines written in it, and commands in code blocks, the first
/// occurrence of each script URL kept.
pub fn extract_curl_installs(html: &str, base_url: &str) -> (r: Vec<CurlInstall>)
    ensures
        install_views(r@) == curl_installs(html@, base_url@),
        forall|i: int| 0 <= i < r@.len() ==> (#[trigger] r@[i]).url@.len() > 0,
{
    let mut installs: Vec<CurlInstall> = Vec::new();
    let doc = Document::parse(html);
    let url_re = compile(URL_PATTERN);
    let a = script_candidates(&doc, base_url);
    let b = command_candidates_of(PIPE_INSTALL_PATTERN, html, &url_re);
    let c = command_candidates_of(PROCESS_INSTALL_PATTERN, html, &url_re);
    let d = command_candidates_of(SHELL_C_INSTALL_PATTERN, html, &url_re);
    let e = block_candidates_of(&doc, "code", &url_re);
    let f = block_candidates_of(&doc, "pre", &url_re);
    let g = block_candidates_of(&doc, "samp", &url_re);
    let ghost (va, vb, vc, vd, ve, vf, vg) = (pair_views(a@), pair_views(b@), pair_views(c@), pair_views(d@), pair_views(e@), pair_views(f@), pair_views(g@));
    assert(install_views(installs@) =~= Seq::<(Seq<char>, Seq<char>)>::empty());
    push_installs(&mut installs, a);
    push_installs(&mut installs, b);
    push_installs(&mut installs, c);
    push_installs(&mut installs, d);
    push_installs(&mut installs, e);
    push_installs(&mut installs, f);
    push_installs(&mut installs, g);
    proof {
        let z: Seq<(Seq<char>, Seq<char>)> = seq![];
        lemma_add_installs_concat(z, va, vb);
        lemma_add_installs_concat(z, va + vb, vc);
        lemma_add_installs_concat(z, va + vb + vc, vd);
        lemma_add_installs_concat(z, va + vb + vc + vd, ve);
        lemma_add_installs_concat(z, va + vb + vc + vd + ve, vf);
        lemma_add_installs_concat(z, va + vb + vc + vd + ve + vf, vg);
        lemma_urls_nonempty_concat(va, vb);
        lemma_urls_nonempty_concat(va + vb, vc);
        lemma_urls_nonempty_concat(va + vb + vc, vd);
        lemma_urls_nonempty_concat(va + vb + vc + vd, ve);
        lemma_urls_nonempty_concat(va + vb + vc + vd + ve, vf);
        lemma_urls_nonempty_concat(va + vb + vc + vd + ve + vf, vg);
        lemma_add_installs_nonempty(z, va + vb + vc + vd + ve + vf + vg);
        assert forall|i: int| 0 <= i < installs@.len() implies (#[trigger] installs@[i]).url@.len() > 0 by {
            assert(install_views(installs@)[i].0 == installs@[i].url@);
        }
    }
    installs
}

} // verus!
