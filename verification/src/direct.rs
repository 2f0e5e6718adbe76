//! Installing from a page given by URL: what to fetch next and what to offer,
//! as a machine that is handed each fetched page and answers with the next
//! action.
use vstd::prelude::*;
use crate::{CurlInstall, Distro};
use crate::html::{Document, ElementView, html_select, element_views, name_views};
use crate::scrape::{
    add_installs, attr, compiled_as, curl_installs, download_links, extract_curl_installs,
    extract_github_repo, first_match, github_repo_in, install_view, install_views, matches_of,
    push_installs, scrape_download_links, selected, whole, URL_PATTERN,
};
use crate::pattern::{Pattern, capture_views, group_views};
use crate::text::{
    chars_of, concat, contains, has_prefix, is_infix, join_strings, join_with, lower, lowercase,
    starts_with, string_from, trim, trim_start, trimmed, trimmed_start, string_views,
};
use crate::urls::{ParsedUrl, opt_view, pair_views, resolve_url, resolved, url_parse};

verus! {

/// Shell commands that fetch something with `curl`, anywhere in a page.
pub const CURL_COMMAND_PATTERN: &'static str = r#"curl\s+(?:-[a-zA-Z0-9\s]+)?https?://[^\s<>"']+"#;

/// Where the session is.
#[derive(Debug, Clone, Copy, PartialEq, Eq, Structural)]
pub enum Phase {
    /// Waiting for the page itself.
    Main,
    /// Waiting for the page's download sub-page.
    SubPage,
    /// Waiting for the `i`-th common download path.
    CommonPath(u8),
    /// Finished.
    Done,
}

/// A fetched page: the URL it came from after redirects, its content type and body.
pub struct FetchedPage {
    pub final_url: String,
    pub content_type: String,
    pub body: String,
}

/// What to do next.
pub enum DirectAction {
    /// Fetch this URL and hand the page back.
    Fetch(String),
    /// Offer the install script at this URL.
    RunScript(CurlInstall),
    /// Install from the latest release of a GitHub repository.
    OpenGitHub { releases_url: String, repo: String },
    /// Offer these downloads and install commands.
    Install { links: Vec<(String, String)>, curls: Vec<CurlInstall> },
    /// Nothing more to do.
    Done,
}

/// What to tell the user along the way.
pub enum DirectNote {
    FetchFailed(String),
    ScriptDetected,
    Fetched(String),
    LookingForDownloadPage,
    TryingCommonPaths,
    CurlCommandsFound(usize),
    VsCodeDetected,
    FirefoxDetected,
    GitHubRepoFound(String),
    NothingFound,
}

/// A list of downloads or install commands, as `(first, second)` texts.
pub type Pairs = Seq<(Seq<char>, Seq<char>)>;

/// `DirectAction` as values.
pub enum ActionView {
    Fetch(Seq<char>),
    RunScript((Seq<char>, Seq<char>)),
    OpenGitHub(Seq<char>, Seq<char>),
    Install(Pairs, Pairs),
    Done,
}

/// `DirectNote` as values.
pub enum NoteView {
    FetchFailed(Seq<char>),
    ScriptDetected,
    Fetched(Seq<char>),
    LookingForDownloadPage,
    TryingCommonPaths,
    CurlCommandsFound(nat),
    VsCodeDetected,
    FirefoxDetected,
    GitHubRepoFound(Seq<char>),
    NothingFound,
}

/// The state of a session as values.
pub struct SessionView {
    pub url: Seq<char>,
    pub distro: Distro,
    pub phase: Phase,
    pub pending: Seq<char>,
    pub final_url: Seq<char>,
    pub html: Seq<char>,
    pub links: Pairs,
    pub curls: Pairs,
}

/// Installing from a page given by URL.
pub struct DirectUrlSession {
    url: String,
    distro: Distro,
    phase: Phase,
    pending: String,
    final_url: String,
    html: String,
    links: Vec<(String, String)>,
    curls: Vec<CurlInstall>,
}

impl View for DirectUrlSession {
    type V = SessionView;

    closed spec fn view(&self) -> SessionView {
        SessionView {
            url: self.url@,
            distro: self.distro,
            phase: self.phase,
            pending: self.pending@,
            final_url: self.final_url@,
            html: self.html@,
            links: pair_views(self.links@),
            curls: install_views(self.curls@),
        }
    }
}

/// Views of an action.
pub open spec fn action_view(a: DirectAction) -> ActionView {
    match a {
        DirectAction::Fetch(u) => ActionView::Fetch(u@),
        DirectAction::RunScript(c) => ActionView::RunScript(install_view(c)),
        DirectAction::OpenGitHub { releases_url, repo } => ActionView::OpenGitHub(releases_url@, repo@),
        DirectAction::Install { links, curls } => ActionView::Install(pair_views(links@), install_views(curls@)),
        DirectAction::Done => ActionView::Done,
    }
}

/// Views of a note.
pub open spec fn note_view(n: DirectNote) -> NoteView {
    match n {
        DirectNote::FetchFailed(u) => NoteView::FetchFailed(u@),
        DirectNote::ScriptDetected => NoteView::ScriptDetected,
        DirectNote::Fetched(u) => NoteView::Fetched(u@),
        DirectNote::LookingForDownloadPage => NoteView::LookingForDownloadPage,
        DirectNote::TryingCommonPaths => NoteView::TryingCommonPaths,
        DirectNote::CurlCommandsFound(k) => NoteView::CurlCommandsFound(k as nat),
        DirectNote::VsCodeDetected => NoteView::VsCodeDetected,
        DirectNote::FirefoxDetected => NoteView::FirefoxDetected,
        DirectNote::GitHubRepoFound(r) => NoteView::GitHubRepoFound(r@),
        DirectNote::NothingFound => NoteView::NothingFound,
    }
}

/// Views of notes.
pub open spec fn note_views(v: Seq<DirectNote>) -> Seq<NoteView> {
    v.map_values(|n: DirectNote| note_view(n))
}

/// A fetched page as `(final url, content type, body)`.
pub open spec fn page_view(p: Option<FetchedPage>) -> Option<(Seq<char>, Seq<char>, Seq<char>)> {
    match p {
        Some(q) => Some((q.final_url@, q.content_type@, q.body@)),
        None => None,
    }
}

/// A non-HTML answer that is a shell script (`#!/…` or `# …` first).
pub open spec fn script_body(content_type: Seq<char>, body: Seq<char>) -> bool {
    !is_infix(content_type, "text/html"@) && trim(body).len() > 0 && (has_prefix(trim_start(body), "#!/"@) || has_prefix(trim_start(body), "# "@))
}

/// An `a` element that looks like a link to a download page (not Reddit or YouTube).
pub open spec fn download_page_link(e: ElementView) -> bool {
    match attr(e, 0) {
        Some(h) => {
            let text = lowercase(join_with(e.text, seq![]));
            let hl = lowercase(h);
            (is_infix(text, "download"@) || is_infix(hl, "download"@) || is_infix(hl, "releases"@))
                && !is_infix(hl, "reddit"@) && !is_infix(hl, "youtube"@)
        },
        None => false,
    }
}

/// The resolved URL of a download-page link on the same host as the page.
pub open spec fn same_host_target(e: ElementView, page: Seq<char>) -> Option<Seq<char>> {
    match attr(e, 0) {
        Some(h) => match resolved(page, h) {
            Some(abs) => match (url_parse(page), url_parse(abs)) {
                (Some(b), Some(l)) => if b.host == l.host {
                    Some(abs)
                } else {
                    None
                },
                _ => None,
            },
            None => None,
        },
        None => None,
    }
}

/// The first download-page link of the elements that leads to the same host.
pub open spec fn first_download_page(es: Seq<ElementView>, page: Seq<char>) -> Option<Seq<char>>
    decreases es.len(),
{
    if es.len() == 0 {
        None
    } else if download_page_link(es[0]) && same_host_target(es[0], page) is Some {
        same_host_target(es[0], page)
    } else {
        first_download_page(es.drop_first(), page)
    }
}

/// The download sub-page a page links to.
pub open spec fn download_subpage(html: Seq<char>, page: Seq<char>) -> Option<Seq<char>> {
    first_download_page(selected(html, "a[href]"@, seq!["href"@]), page)
}

/// `s` without trailing `c`s (`trim_end_matches`).
pub open spec fn strip_trailing(s: Seq<char>, c: char) -> Seq<char>
    decreases s.len(),
{
    if s.len() > 0 && s.last() == c {
        strip_trailing(s.drop_last(), c)
    } else {
        s
    }
}

/// The common download paths, in the order they are tried.
pub open spec fn common_suffix(i: int) -> Seq<char> {
    if i == 0 {
        "/download"@
    } else if i == 1 {
        "/downloads"@
    } else {
        "/Download"@
    }
}

/// The `i`-th common download path of a page.
pub open spec fn common_path(page: Seq<char>, i: int) -> Seq<char> {
    strip_trailing(page, '/') + common_suffix(i)
}

/// A `curl` command found in the page text, with the first URL in it.
pub open spec fn scanned_command(c: Seq<Option<Seq<char>>>) -> Option<(Seq<char>, Seq<char>)> {
    let cmd = trim(whole(c));
    match first_match(URL_PATTERN@, cmd) {
        Some(u) => Some((u, cmd)),
        None => None,
    }
}

/// Scanned commands of matches, in order.
pub open spec fn scanned_commands(caps: Seq<Seq<Option<Seq<char>>>>) -> Pairs
    decreases caps.len(),
{
    if caps.len() == 0 {
        seq![]
    } else {
        scanned_commands(caps.drop_last()) + crate::scrape::opt_cand(scanned_command(caps.last()))
    }
}

/// The `curl` install commands written anywhere in a page's text.
pub open spec fn text_curl_commands(html: Seq<char>) -> Pairs {
    add_installs(seq![], scanned_commands(matches_of(CURL_COMMAND_PATTERN@, html)))
}

/// The VS Code download for a distribution.
pub open spec fn vscode_link(d: Distro) -> (Seq<char>, Seq<char>) {
    match d {
        Distro::Ubuntu => ("code.deb"@, "https://update.code.visualstudio.com/latest/linux-deb-x64/stable"@),
        Distro::Fedora => ("code.rpm"@, "https://update.code.visualstudio.com/latest/linux-rpm-x64/stable"@),
        Distro::Unknown => ("code.tar.gz"@, "https://update.code.visualstudio.com/latest/linux-x64/stable"@),
    }
}

/// The Firefox download.
pub open spec fn firefox_link() -> (Seq<char>, Seq<char>) {
    ("firefox.tar.xz"@, "https://download.mozilla.org/?product=firefox-latest-ssl&os=linux64&lang=en-US"@)
}

/// Nothing found yet.
pub open spec fn nothing(s: SessionView) -> bool {
    s.links.len() == 0 && s.curls.len() == 0
}

/// The last resorts, then the answer: `curl` commands in the page text, the
/// known VS Code and Firefox downloads, the GitHub repository the page names;
/// or what was found.
pub open spec fn conclude(s: SessionView) -> (SessionView, Seq<NoteView>, ActionView) {
    let scanned = if nothing(s) {
        text_curl_commands(s.html)
    } else {
        s.curls
    };
    let n1 = if nothing(s) && scanned.len() > 0 {
        seq![NoteView::CurlCommandsFound(scanned.len())]
    } else {
        seq![]
    };
    let s1 = SessionView { curls: scanned, ..s };
    let vscode = nothing(s1) && (is_infix(s.final_url, "code.visualstudio.com"@) || is_infix(s.url, "code.visualstudio.com"@));
    let s2 = if vscode {
        SessionView { links: seq![vscode_link(s.distro)], ..s1 }
    } else {
        s1
    };
    let n2 = if vscode {
        seq![NoteView::VsCodeDetected]
    } else {
        seq![]
    };
    let firefox = nothing(s2) && (is_infix(s.final_url, "firefox.com"@) || is_infix(s.final_url, "mozilla.org"@));
    let s3 = if firefox {
        SessionView { links: seq![firefox_link()], phase: Phase::Done, ..s2 }
    } else {
        SessionView { phase: Phase::Done, ..s2 }
    };
    let n3 = if firefox {
        seq![NoteView::FirefoxDetected]
    } else {
        seq![]
    };
    let notes = n1 + n2 + n3;
    if nothing(s3) {
        match github_repo_in(s.html) {
            Some(r) => (
                s3,
                notes + seq![NoteView::GitHubRepoFound(r)],
                ActionView::OpenGitHub("https://api.github.com/repos/"@ + r + "/releases/latest"@, r),
            ),
            None => (s3, notes + seq![NoteView::NothingFound], ActionView::Done),
        }
    } else {
        (s3, notes, ActionView::Install(s3.links, s3.curls))
    }
}

/// After the sub-page: the common download paths, unless something was found
/// or the page is a download page already.
pub open spec fn after_subpage(s: SessionView) -> (SessionView, Seq<NoteView>, ActionView) {
    if nothing(s) && !is_infix(lowercase(s.final_url), "download"@) {
        let next = common_path(s.final_url, 0);
        (
            SessionView { phase: Phase::CommonPath(0), pending: next, ..s },
            seq![NoteView::TryingCommonPaths],
            ActionView::Fetch(next),
        )
    } else {
        conclude(s)
    }
}

/// After the page: its download sub-page when nothing was found on it.
pub open spec fn after_main(s: SessionView) -> (SessionView, Seq<NoteView>, ActionView) {
    if !nothing(s) {
        conclude(s)
    } else {
        match download_subpage(s.html, s.final_url) {
            Some(sub) => (
                SessionView { phase: Phase::SubPage, pending: sub, ..s },
                seq![NoteView::LookingForDownloadPage],
                ActionView::Fetch(sub),
            ),
            None => {
                let r = after_subpage(s);
                (r.0, seq![NoteView::LookingForDownloadPage] + r.1, r.2)
            },
        }
    }
}

/// What a fetched page at `at` offers, replacing what was found.
pub open spec fn with_page(s: SessionView, at: Seq<char>, body: Seq<char>) -> SessionView {
    SessionView { links: download_links(body, at, s.distro), curls: curl_installs(body, at), ..s }
}

/// One step: the session handed the page it asked for (`None` where the fetch
/// failed) answers with its new state, the notes to show and the next action.
pub open spec fn direct_step(s: SessionView, page: Option<(Seq<char>, Seq<char>, Seq<char>)>) -> (SessionView, Seq<NoteView>, ActionView) {
    match s.phase {
        Phase::Main => match page {
            None => (SessionView { phase: Phase::Done, ..s }, seq![NoteView::FetchFailed(s.url)], ActionView::Done),
            Some((f, ct, body)) => if script_body(ct, body) {
                (
                    SessionView { phase: Phase::Done, ..s },
                    seq![NoteView::ScriptDetected],
                    ActionView::RunScript((f, "curl -fsSL "@ + f + " | bash"@)),
                )
            } else {
                let s1 = with_page(SessionView { final_url: f, html: body, ..s }, f, body);
                let r = after_main(s1);
                (r.0, seq![NoteView::Fetched(f)] + r.1, r.2)
            },
        },
        Phase::SubPage => after_subpage(
            match page {
                Some((_, _, body)) => with_page(s, s.pending, body),
                None => s,
            },
        ),
        Phase::CommonPath(i) => {
            let s1 = match page {
                Some((_, _, body)) => with_page(s, s.pending, body),
                None => s,
            };
            if !nothing(s1) || i >= 2 {
                conclude(s1)
            } else {
                let next = common_path(s.final_url, i + 1);
                (SessionView { phase: Phase::CommonPath((i + 1) as u8), pending: next, ..s1 }, seq![], ActionView::Fetch(next))
            }
        },
        Phase::Done => (s, seq![], ActionView::Done),
    }
}


fn lit(s: &str) -> (r: Vec<char>)
    ensures
        r@ == s@,
{
    chars_of(s)
}

fn str_has(s: &str, l: &str) -> (r: bool)
    ensures
        r == is_infix(s@, l@),
{
    crate::text::str_contains(s, l)
}

/// Whether a fetched answer is a shell script rather than a page.
pub fn is_script_body(content_type: &str, body: &str) -> (r: bool)
    ensures
        r == script_body(content_type@, body@),
{
    let b = chars_of(body);
    let t = trimmed(b.as_slice());
    let ts = trimmed_start(b.as_slice());
    let shebang = lit("#!/");
    let comment = lit("# ");
    !str_has(content_type, "text/html") && t.len() > 0 && (starts_with(ts.as_slice(), shebang.as_slice())
        || starts_with(ts.as_slice(), comment.as_slice()))
}

fn download_page_link_of(e: &crate::html::HtmlElement) -> (r: bool)
    requires
        e.attrs@.len() == 1,
    ensures
        r == download_page_link(e@),
{
    match &e.attrs[0] {
        Some(h) => {
            let joined = join_strings(&e.text, "");
            proof {
                reveal_strlit("");
                assert(""@ =~= Seq::<char>::empty());
            }
            let text = lower(joined.as_slice());
            let hc = chars_of(h.as_str());
            let hl = lower(hc.as_slice());
            let dl = lit("download");
            let rel = lit("releases");
            let rd = lit("reddit");
            let yt = lit("youtube");
            (contains(text.as_slice(), dl.as_slice()) || contains(hl.as_slice(), dl.as_slice())
                || contains(hl.as_slice(), rel.as_slice())) && !contains(hl.as_slice(), rd.as_slice())
                && !contains(hl.as_slice(), yt.as_slice())
        },
        None => false,
    }
}

fn same_opt_string(a: &Option<String>, b: &Option<String>) -> (r: bool)
    ensures
        r == (opt_view(*a) == opt_view(*b)),
{
    match (a, b) {
        (Some(x), Some(y)) => crate::text::same_string(x, y),
        (None, None) => true,
        _ => false,
    }
}

fn same_host_target_of(e: &crate::html::HtmlElement, page: &str) -> (r: Option<String>)
    requires
        e.attrs@.len() == 1,
    ensures
        opt_view(r) == same_host_target(e@, page@),
{
    match &e.attrs[0] {
        Some(h) => match resolve_url(page, h.as_str()) {
            Some(abs) => match (ParsedUrl::parse(page), ParsedUrl::parse(abs.as_str())) {
                (Some(b), Some(l)) => if same_opt_string(b.host(), l.host()) {
                    Some(abs)
                } else {
                    None
                },
                _ => None,
            },
            None => None,
        },
        None => None,
    }
}

/// The download sub-page a page links to: the first link that mentions
/// downloads or releases (and is not Reddit or YouTube) on the page's own host.
pub fn find_download_subpage(html: &str, page: &str) -> (r: Option<String>)
    ensures
        opt_view(r) == download_subpage(html@, page@),
{
    let doc = Document::parse(html);
    let names: [&str; 1] = ["href"];
    assert(name_views(names@) =~= seq!["href"@]);
    match doc.select("a[href]", &names) {
        Some(els) => {
            let mut i: usize = 0;
            assert(element_views(els@).skip(0) =~= element_views(els@));
            while i < els.len()
                invariant
                    i <= els@.len(),
                    html_select(html@, "a[href]"@, seq!["href"@]) == Some(element_views(els@)),
                    forall|k: int| 0 <= k < els@.len() ==> (#[trigger] els@[k]).attrs@.len() == 1,
                    download_subpage(html@, page@) == first_download_page(element_views(els@).skip(i as int), page@),
                decreases els@.len() - i,
            {
                proof {
                    let t = element_views(els@).skip(i as int);
                    assert(t.drop_first() =~= element_views(els@).skip(i + 1));
                    assert(t[0] == els@[i as int]@);
                }
                if download_page_link_of(&els[i]) {
                    let t = same_host_target_of(&els[i], page);
                    if t.is_some() {
                        return t;
                    }
                }
                i += 1;
            }
            None
        },
        None => None,
    }
}

/// The `i`-th common download path of a page.
pub fn common_path_of(page: &str, i: u8) -> (r: String)
    ensures
        r@ == common_path(page@, i as int),
{
    let p = chars_of(page);
    let mut k = p.len();
    proof {
        assert(p@.take(k as int) =~= p@);
    }
    while k > 0 && p[k - 1] == '/'
        invariant
            k <= p@.len(),
            strip_trailing(p@, '/') == strip_trailing(p@.take(k as int), '/'),
        decreases k,
    {
        assert(p@.take(k as int).drop_last() =~= p@.take(k - 1));
        k -= 1;
    }
    let head = crate::text::slice_chars(p.as_slice(), 0, k);
    assert(head@ =~= p@.take(k as int));
    let suffix = if i == 0 {
        lit("/download")
    } else if i == 1 {
        lit("/downloads")
    } else {
        lit("/Download")
    };
    let r = concat(head.as_slice(), suffix.as_slice());
    string_from(r.as_slice())
}

/// The `curl` install commands written anywhere in a page's text.
pub fn scan_curl_commands(html: &str) -> (r: Vec<CurlInstall>)
    ensures
        install_views(r@) == text_curl_commands(html@),
{
    let scan = Pattern::new(CURL_COMMAND_PATTERN);
    let url_re = Pattern::new(URL_PATTERN);
    let caps: Vec<Vec<Option<String>>> = match &scan {
        Some(q) => q.captures_all(html),
        None => Vec::new(),
    };
    assert(capture_views(caps@) == matches_of(CURL_COMMAND_PATTERN@, html@)) by {
        if scan is None {
            assert(capture_views(caps@) =~= Seq::<Seq<Option<Seq<char>>>>::empty());
        }
    }
    let mut cands: Vec<(String, String)> = Vec::new();
    let mut i: usize = 0;
    while i < caps.len()
        invariant
            i <= caps@.len(),
            compiled_as(url_re, URL_PATTERN@),
            capture_views(caps@) == matches_of(CURL_COMMAND_PATTERN@, html@),
            forall|k: int| 0 <= k < caps@.len() ==> caps@[k]@.len() > 0 && (#[trigger] caps@[k]@)[0] is Some,
            pair_views(cands@) == scanned_commands(capture_views(caps@).take(i as int)),
        decreases caps@.len() - i,
    {
        let ghost c = capture_views(caps@)[i as int];
        proof {
            assert(capture_views(caps@).take(i + 1).drop_last() =~= capture_views(caps@).take(i as int));
            assert(c == group_views(caps@[i as int]@));
        }
        let w: Vec<char> = match &caps[i][0] {
            Some(m) => chars_of(m.as_str()),
            None => Vec::new(),
        };
        assert(w@ == whole(c));
        let cmd = trimmed(w.as_slice());
        let cmd_s = string_from(cmd.as_slice());
        let found: Option<String> = match &url_re {
            Some(q) => {
                let uc = q.captures_all(cmd_s.as_str());
                if uc.len() > 0 {
                    assert(capture_views(uc@)[0] == group_views(uc@[0]@));
                    uc[0][0].clone()
                } else {
                    None
                }
            },
            None => None,
        };
        let ghost prev = cands@;
        match found {
            Some(u) => {
                cands.push((u, cmd_s));
                assert(pair_views(cands@) =~= pair_views(prev) + seq![(u@, cmd_s@)]);
            },
            None => {
                assert(pair_views(cands@) =~= pair_views(prev) + Seq::<(Seq<char>, Seq<char>)>::empty());
            },
        }
        i += 1;
    }
    assert(capture_views(caps@).take(caps@.len() as int) =~= capture_views(caps@));
    let mut out: Vec<CurlInstall> = Vec::new();
    assert(install_views(out@) =~= Seq::<(Seq<char>, Seq<char>)>::empty());
    push_installs(&mut out, cands);
    out
}

fn copy_pairs(v: &Vec<(String, String)>) -> (r: Vec<(String, String)>)
    ensures
        pair_views(r@) == pair_views(v@),
{
    let mut out: Vec<(String, String)> = Vec::new();
    let mut i: usize = 0;
    while i < v.len()
        invariant
            i <= v@.len(),
            pair_views(out@) == pair_views(v@).take(i as int),
        decreases v@.len() - i,
    {
        let ghost prev = out@;
        let x = (v[i].0.clone(), v[i].1.clone());
        out.push(x);
        assert(pair_views(out@) =~= pair_views(prev).push((x.0@, x.1@)));
        assert(pair_views(v@).take(i + 1) =~= pair_views(v@).take(i as int).push(pair_views(v@)[i as int]));
        i += 1;
    }
    assert(pair_views(v@).take(v@.len() as int) =~= pair_views(v@));
    out
}

/// A copy of an install command.
pub fn copy_install(c: &CurlInstall) -> (r: CurlInstall)
    ensures
        install_view(r) == install_view(*c),
{
    CurlInstall { url: c.url.clone(), display_name: c.display_name.clone() }
}

fn copy_installs(v: &Vec<CurlInstall>) -> (r: Vec<CurlInstall>)
    ensures
        install_views(r@) == install_views(v@),
{
    let mut out: Vec<CurlInstall> = Vec::new();
    let mut i: usize = 0;
    while i < v.len()
        invariant
            i <= v@.len(),
            install_views(out@) == install_views(v@).take(i as int),
        decreases v@.len() - i,
    {
        let ghost prev = out@;
        let x = copy_install(&v[i]);
        out.push(x);
        assert(install_views(out@) =~= install_views(prev).push(install_view(x)));
        assert(install_views(v@).take(i + 1) =~= install_views(v@).take(i as int).push(install_views(v@)[i as int]));
        i += 1;
    }
    assert(install_views(v@).take(v@.len() as int) =~= install_views(v@));
    out
}

/// The result of a step: new state, notes, action.
pub open spec fn step_view(r: (DirectUrlSession, Vec<DirectNote>, DirectAction)) -> (SessionView, Seq<NoteView>, ActionView) {
    (r.0@, note_views(r.1@), action_view(r.2))
}

impl DirectUrlSession {
    /// A session for the page at `url`, and its first action: fetching the page.
    pub fn new(url: &str, distro: &Distro) -> (r: (DirectUrlSession, DirectAction))
        ensures
            r.0@ == (SessionView {
                url: url@,
                distro: *distro,
                phase: Phase::Main,
                pending: url@,
                final_url: url@,
                html: seq![],
                links: seq![],
                curls: seq![],
            }),
            action_view(r.1) == ActionView::Fetch(url@),
    {
        let s = DirectUrlSession {
            url: string_from(chars_of(url).as_slice()),
            distro: *distro,
            phase: Phase::Main,
            pending: string_from(chars_of(url).as_slice()),
            final_url: string_from(chars_of(url).as_slice()),
            html: String::new(),
            links: Vec::new(),
            curls: Vec::new(),
        };
        assert(pair_views(s.links@) =~= Seq::<(Seq<char>, Seq<char>)>::empty());
        assert(install_views(s.curls@) =~= Seq::<(Seq<char>, Seq<char>)>::empty());
        (s, DirectAction::Fetch(string_from(chars_of(url).as_slice())))
    }

    /// The state of the session.
    pub fn phase(&self) -> (r: Phase)
        ensures
            r == self@.phase,
    {
        self.phase
    }

    #[verifier::rlimit(60)]
    fn conclude(self) -> (r: (DirectUrlSession, Vec<DirectNote>, DirectAction))
        ensures
            step_view(r) == conclude(self@),
    {
        let ghost s = self@;
        let mut me = self;
        let mut notes: Vec<DirectNote> = Vec::new();
        if me.links.len() == 0 && me.curls.len() == 0 {
            let scanned = scan_curl_commands(me.html.as_str());
            if scanned.len() > 0 {
                notes.push(DirectNote::CurlCommandsFound(scanned.len()));
            }
            me.curls = scanned;
        }
        let ghost s1 = me@;
        assert(s1 == SessionView { curls: s1.curls, ..s });
        let vscode = me.links.len() == 0 && me.curls.len() == 0 && (str_has(me.final_url.as_str(), "code.visualstudio.com") || str_has(me.url.as_str(), "code.visualstudio.com"));
        if vscode {
            notes.push(DirectNote::VsCodeDetected);
            let (name, dl) = match me.distro {
                Distro::Ubuntu => ("code.deb", "https://update.code.visualstudio.com/latest/linux-deb-x64/stable"),
                Distro::Fedora => ("code.rpm", "https://update.code.visualstudio.com/latest/linux-rpm-x64/stable"),
                Distro::Unknown => ("code.tar.gz", "https://update.code.visualstudio.com/latest/linux-x64/stable"),
            };
            let mut l: Vec<(String, String)> = Vec::new();
            l.push((string_from(lit(name).as_slice()), string_from(lit(dl).as_slice())));
            assert(pair_views(l@) =~= seq![vscode_link(s.distro)]);
            me.links = l;
        }
        let firefox = me.links.len() == 0 && me.curls.len() == 0 && (str_has(me.final_url.as_str(), "firefox.com") || str_has(me.final_url.as_str(), "mozilla.org"));
        if firefox {
            notes.push(DirectNote::FirefoxDetected);
            let mut l: Vec<(String, String)> = Vec::new();
            l.push((string_from(lit("firefox.tar.xz").as_slice()), string_from(lit("https://download.mozilla.org/?product=firefox-latest-ssl&os=linux64&lang=en-US").as_slice())));
            assert(pair_views(l@) =~= seq![firefox_link()]);
            me.links = l;
        }
        me.phase = Phase::Done;
        let ghost r = conclude(s);
        assert(me@ == r.0);
        if me.links.len() == 0 && me.curls.len() == 0 {
            match extract_github_repo(me.html.as_str()) {
                Some(repo) => {
                    let a = lit("https://api.github.com/repos/");
                    let rc = chars_of(repo.as_str());
                    let b = lit("/releases/latest");
                    let x = concat(a.as_slice(), rc.as_slice());
                    let y = concat(x.as_slice(), b.as_slice());
                    let repo2 = repo.clone();
                    notes.push(DirectNote::GitHubRepoFound(repo));
                    (me, notes, DirectAction::OpenGitHub { releases_url: string_from(y.as_slice()), repo: repo2 })
                },
                None => {
                    notes.push(DirectNote::NothingFound);
                    (me, notes, DirectAction::Done)
                },
            }
        } else {
            let links = copy_pairs(&me.links);
            let curls = copy_installs(&me.curls);
            (me, notes, DirectAction::Install { links, curls })
        }
    }

    fn after_subpage(self) -> (r: (DirectUrlSession, Vec<DirectNote>, DirectAction))
        ensures
            step_view(r) == after_subpage(self@),
    {
        let fc = chars_of(self.final_url.as_str());
        let fl = lower(fc.as_slice());
        let dl = lit("download");
        if self.links.len() == 0 && self.curls.len() == 0 && !contains(fl.as_slice(), dl.as_slice()) {
            let next = common_path_of(self.final_url.as_str(), 0);
            let mut me = self;
            me.phase = Phase::CommonPath(0);
            me.pending = next.clone();
            let mut notes: Vec<DirectNote> = Vec::new();
            notes.push(DirectNote::TryingCommonPaths);
            assert(note_views(notes@) =~= seq![NoteView::TryingCommonPaths]);
            (me, notes, DirectAction::Fetch(next))
        } else {
            self.conclude()
        }
    }

    fn after_main(self) -> (r: (DirectUrlSession, Vec<DirectNote>, DirectAction))
        ensures
            step_view(r) == after_main(self@),
    {
        if self.links.len() > 0 || self.curls.len() > 0 {
            return self.conclude();
        }
        match find_download_subpage(self.html.as_str(), self.final_url.as_str()) {
            Some(sub) => {
                let mut me = self;
                me.phase = Phase::SubPage;
                me.pending = sub.clone();
                let mut notes: Vec<DirectNote> = Vec::new();
                notes.push(DirectNote::LookingForDownloadPage);
                assert(note_views(notes@) =~= seq![NoteView::LookingForDownloadPage]);
                (me, notes, DirectAction::Fetch(sub))
            },
            None => {
                let (me, rest, action) = self.after_subpage();
                let mut notes: Vec<DirectNote> = Vec::new();
                notes.push(DirectNote::LookingForDownloadPage);
                let ghost first = note_views(notes@);
                let mut rest = rest;
                notes.append(&mut rest);
                assert(note_views(notes@) =~= seq![NoteView::LookingForDownloadPage] + after_main(self@).1.skip(1));
                (me, notes, action)
            },
        }
    }

    fn with_page(self, at: &str, body: &str) -> (r: DirectUrlSession)
        ensures
            r@ == with_page(self@, at@, body@),
    {
        let mut me = self;
        me.links = scrape_download_links(body, at, &me.distro);
        me.curls = extract_curl_installs(body, at);
        me
    }

    /// One step: hands the session the page it asked for (`None` where the
    /// fetch failed); answers with its new state, the notes to show and the
    /// next action.
    pub fn step(self, page: Option<FetchedPage>) -> (r: (DirectUrlSession, Vec<DirectNote>, DirectAction))
        ensures
            step_view(r) == direct_step(self@, page_view(page)),
    {
        let ghost s = self@;
        match self.phase {
            Phase::Main => match page {
                None => {
                    let mut me = self;
                    me.phase = Phase::Done;
                    let mut notes: Vec<DirectNote> = Vec::new();
                    let u = me.url.clone();
                    notes.push(DirectNote::FetchFailed(u));
                    assert(note_views(notes@) =~= seq![NoteView::FetchFailed(s.url)]);
                    (me, notes, DirectAction::Done)
                },
                Some(p) => {
                    if is_script_body(p.content_type.as_str(), p.body.as_str()) {
                        let mut me = self;
                        me.phase = Phase::Done;
                        let mut notes: Vec<DirectNote> = Vec::new();
                        notes.push(DirectNote::ScriptDetected);
                        assert(note_views(notes@) =~= seq![NoteView::ScriptDetected]);
                        let a = lit("curl -fsSL ");
                        let f = chars_of(p.final_url.as_str());
                        let b = lit(" | bash");
                        let x = concat(a.as_slice(), f.as_slice());
                        let y = concat(x.as_slice(), b.as_slice());
                        let c = CurlInstall { url: p.final_url, display_name: string_from(y.as_slice()) };
                        (me, notes, DirectAction::RunScript(c))
                    } else {
                        let mut me = self;
                        let f = p.final_url;
                        me.final_url = f.clone();
                        me.html = p.body;
                        let body = me.html.clone();
                        let me = me.with_page(f.as_str(), body.as_str());
                        let (me, rest, action) = me.after_main();
                        let mut notes: Vec<DirectNote> = Vec::new();
                        notes.push(DirectNote::Fetched(f));
                        let mut rest = rest;
                        notes.append(&mut rest);
                        assert(note_views(notes@) =~= direct_step(s, page_view(page)).1);
                        (me, notes, action)
                    }
                },
            },
            Phase::SubPage => {
                let me = match page {
                    Some(p) => {
                        let at = self.pending.clone();
                        self.with_page(at.as_str(), p.body.as_str())
                    },
                    None => self,
                };
                me.after_subpage()
            },
            Phase::CommonPath(i) => {
                let me = match page {
                    Some(p) => {
                        let at = self.pending.clone();
                        self.with_page(at.as_str(), p.body.as_str())
                    },
                    None => self,
                };
                if me.links.len() > 0 || me.curls.len() > 0 || i >= 2 {
                    me.conclude()
                } else {
                    let next = common_path_of(me.final_url.as_str(), i + 1);
                    let mut me = me;
                    me.phase = Phase::CommonPath(i + 1);
                    me.pending = next.clone();
                    let notes: Vec<DirectNote> = Vec::new();
                    assert(note_views(notes@) =~= Seq::<NoteView>::empty());
                    (me, notes, DirectAction::Fetch(next))
                }
            },
            Phase::Done => {
                let notes: Vec<DirectNote> = Vec::new();
                assert(note_views(notes@) =~= Seq::<NoteView>::empty());
                (self, notes, DirectAction::Done)
            },
        }
    }
}

} // verus!
