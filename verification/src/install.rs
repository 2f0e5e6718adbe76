//! Installing a chosen download: the menu of choices, where files go, how a
//! package is recognised and checked, and which file of an archive is the
//! program.
use vstd::prelude::*;
use sha2::Digest;
use crate::{CurlInstall, Distro};
use crate::assets::{
    auto_select_best_package, first_max_index, link_scores, sort_assets, sorted_by_rank, as_ints,
    best_score_index, ends,
};
use crate::scrape::{install_view, install_views};
use crate::text::{
    before_char, chars_of, concat, contains, ends_with, has_prefix, has_suffix, hex_lower, hex_of,
    is_infix, lines, lines_of, lower, lowercase, prefix_before, starts_with, string_from, trim,
    trimmed, utf8_len, byte_len, views, after_last, suffix_after_last, find_char, find_char_from,
    slice_chars,
};
use crate::urls::pair_views;

verus! {

/// One way to install: a file to download, or a script to run.
pub enum InstallChoice {
    Download { file_name: String, url: String },
    Script(CurlInstall),
}

/// `InstallChoice` as values: `(is a download, name, url)`.
pub open spec fn choice_view(c: InstallChoice) -> (bool, Seq<char>, Seq<char>) {
    match c {
        InstallChoice::Download { file_name, url } => (true, file_name@, url@),
        InstallChoice::Script(ci) => (false, ci.display_name@, ci.url@),
    }
}

/// Views of choices.
pub open spec fn choice_views(v: Seq<InstallChoice>) -> Seq<(bool, Seq<char>, Seq<char>)> {
    v.map_values(|c: InstallChoice| choice_view(c))
}

/// The menu of ways to install.
pub struct InstallMenu {
    /// The lines shown.
    pub names: Vec<String>,
    /// The choice behind each line.
    pub choices: Vec<InstallChoice>,
    /// The line selected at first: the best package, if any.
    pub default: usize,
}

/// The line shown for a download: a `✓` before the best one (the others
/// indented to match), then its kind: 🐧 for an AppImage, 📦 for a package.
pub open spec fn download_line(name: Seq<char>, best: bool) -> Seq<char> {
    (if best {
        "✓ "@
    } else {
        "   "@
    }) + name + if has_suffix(lowercase(name), ".appimage"@) {
        " 🐧"@
    } else {
        " 📦"@
    }
}

/// The downloads in menu order (by rank), then the scripts.
pub open spec fn menu_choices(links: Seq<(String, String)>, curls: Seq<(Seq<char>, Seq<char>)>, d: Distro) -> Seq<(bool, Seq<char>, Seq<char>)> {
    sorted_by_rank(links, d).map_values(|l: (String, String)| (true, l.0@, l.1@))
        + curls.map_values(|c: (Seq<char>, Seq<char>)| (false, c.1, c.0))
}

/// The menu's lines.
pub open spec fn menu_names(links: Seq<(String, String)>, curls: Seq<(Seq<char>, Seq<char>)>, d: Distro) -> Seq<Seq<char>> {
    let sorted = sorted_by_rank(links, d);
    let best = first_max_index(link_scores(sorted, d));
    sorted.map(|i: int, l: (String, String)| download_line(l.0@, i == best))
        + curls.map_values(|c: (Seq<char>, Seq<char>)| "  "@ + c.1)
}

/// The first selected line: the best download, or the first line.
pub open spec fn menu_default(links: Seq<(String, String)>, d: Distro) -> int {
    if links.len() == 0 {
        0
    } else {
        first_max_index(link_scores(sorted_by_rank(links, d), d))
    }
}

fn lit(s: &str) -> (r: Vec<char>)
    ensures
        r@ == s@,
{
    chars_of(s)
}

fn download_line_of(name: &String, best: bool) -> (r: String)
    ensures
        r@ == download_line(name@, best),
{
    let mark = if best {
        lit("✓ ")
    } else {
        lit("   ")
    };
    let n = chars_of(name.as_str());
    let l = lower(n.as_slice());
    let app = lit(".appimage");
    let kind = if ends_with(l.as_slice(), app.as_slice()) {
        lit(" 🐧")
    } else {
        lit(" 📦")
    };
    let a = concat(mark.as_slice(), n.as_slice());
    let b = concat(a.as_slice(), kind.as_slice());
    string_from(b.as_slice())
}

/// The menu of ways to install: the downloads in rank order, the best one
/// marked and selected first, then the install scripts.
pub fn install_menu(links: &[(String, String)], curl_installs: &[CurlInstall], distro: &Distro) -> (r: InstallMenu)
    ensures
        choice_views(r.choices@) == menu_choices(links@, install_views(curl_installs@), *distro),
        crate::text::string_views(r.names@) == menu_names(links@, install_views(curl_installs@), *distro),
        r.default == menu_default(links@, *distro),
{
    let mut sorted: Vec<(String, String)> = Vec::new();
    let mut k: usize = 0;
    while k < links.len()
        invariant
            k <= links@.len(),
            sorted@ == links@.take(k as int),
        decreases links@.len() - k,
    {
        sorted.push((links[k].0.clone(), links[k].1.clone()));
        k += 1;
        assert(sorted@ =~= links@.take(k as int));
    }
    assert(links@.take(links@.len() as int) =~= links@);
    sort_assets(&mut sorted, distro);
    let ghost srt = sorted@;
    let best = auto_select_best_package(sorted.as_slice(), distro);
    let mut names: Vec<String> = Vec::new();
    let mut choices: Vec<InstallChoice> = Vec::new();
    let mut i: usize = 0;
    while i < sorted.len()
        invariant
            i <= sorted@.len(),
            sorted@ == srt,
            srt == sorted_by_rank(links@, *distro),
            best == first_max_index(link_scores(srt, *distro)),
            crate::text::string_views(names@) == srt.take(i as int).map(|j: int, l: (String, String)| download_line(l.0@, j == best)),
            choice_views(choices@) == srt.take(i as int).map_values(|l: (String, String)| (true, l.0@, l.1@)),
        decreases srt.len() - i,
    {
        let line = download_line_of(&sorted[i].0, i == best);
        let c = InstallChoice::Download { file_name: sorted[i].0.clone(), url: sorted[i].1.clone() };
        let ghost pn = names@;
        let ghost pc = choices@;
        names.push(line);
        choices.push(c);
        proof {
            assert(crate::text::string_views(names@) =~= crate::text::string_views(pn).push(line@));
            assert(choice_views(choices@) =~= choice_views(pc).push(choice_view(c)));
            assert(srt.take(i + 1) =~= srt.take(i as int).push(srt[i as int]));
            assert(srt.take(i + 1).map(|j: int, l: (String, String)| download_line(l.0@, j == best)) =~= srt.take(i as int).map(|j: int, l: (String, String)| download_line(l.0@, j == best)).push(download_line(srt[i as int].0@, i == best)));
        }
        i += 1;
    }
    assert(srt.take(srt.len() as int) =~= srt);
    let ghost nd = crate::text::string_views(names@);
    let ghost cd = choice_views(choices@);
    let mut j: usize = 0;
    while j < curl_installs.len()
        invariant
            j <= curl_installs@.len(),
            crate::text::string_views(names@) == nd + install_views(curl_installs@).take(j as int).map_values(|c: (Seq<char>, Seq<char>)| "  "@ + c.1),
            choice_views(choices@) == cd + install_views(curl_installs@).take(j as int).map_values(|c: (Seq<char>, Seq<char>)| (false, c.1, c.0)),
        decreases curl_installs@.len() - j,
    {
        let sp = lit("  ");
        let dn = chars_of(curl_installs[j].display_name.as_str());
        let line = concat(sp.as_slice(), dn.as_slice());
        let ls = string_from(line.as_slice());
        let c = InstallChoice::Script(crate::direct::copy_install(&curl_installs[j]));
        let ghost pn = names@;
        let ghost pc = choices@;
        names.push(ls);
        choices.push(c);
        proof {
            let iv = install_views(curl_installs@);
            assert(iv.take(j + 1) =~= iv.take(j as int).push(iv[j as int]));
            assert(crate::text::string_views(names@) =~= crate::text::string_views(pn).push(ls@));
            assert(choice_views(choices@) =~= choice_views(pc).push(choice_view(c)));
            assert(crate::text::string_views(names@) =~= nd + iv.take(j + 1).map_values(|c: (Seq<char>, Seq<char>)| "  "@ + c.1));
            assert(choice_views(choices@) =~= cd + iv.take(j + 1).map_values(|c: (Seq<char>, Seq<char>)| (false, c.1, c.0)));
        }
        j += 1;
    }
    assert(install_views(curl_installs@).take(curl_installs@.len() as int) =~= install_views(curl_installs@));
    proof {
        crate::assets::lemma_first_max_bound(link_scores(srt, *distro));
    }
    let default = if sorted.len() == 0 {
        0
    } else {
        best
    };
    proof {
        if links@.len() == 0 {
            assert(srt.len() == 0) by {
                assert(srt =~= Seq::<(String, String)>::empty());
            }
        }
    }
    InstallMenu { names, choices, default }
}


/// The short name of an application from a package file name: up to the first
/// `_`, then up to the first `-`.
pub open spec fn app_name_of(file_name: Seq<char>) -> Seq<char> {
    before_char(before_char(file_name, '_'), '-')
}

/// The short name of an application from a package file name.
pub fn app_name_from_file(file_name: &str) -> (r: String)
    ensures
        r@ == app_name_of(file_name@),
{
    let f = chars_of(file_name);
    let a = prefix_before(f.as_slice(), '_');
    let b = prefix_before(a.as_slice(), '-');
    string_from(b.as_slice())
}

/// The short name of an application from a repository label: after its last `/`.
pub fn app_name_from_repo(repo_label: &str) -> (r: String)
    ensures
        r@ == after_last(repo_label@, '/'),
{
    let f = chars_of(repo_label);
    let a = suffix_after_last(f.as_slice(), '/');
    string_from(a.as_slice())
}

/// How a downloaded file is installed.
#[derive(Debug, Clone, Copy, PartialEq, Eq, Structural)]
pub enum PackageKind {
    AppImage,
    Deb,
    Rpm,
    Archive,
    Other,
}

/// The kind of a package, from its lower-cased name.
pub open spec fn kind_of(n: Seq<char>) -> PackageKind {
    if ends(n, ".appimage") {
        PackageKind::AppImage
    } else if ends(n, ".deb") {
        PackageKind::Deb
    } else if ends(n, ".rpm") {
        PackageKind::Rpm
    } else if ends(n, ".tar.gz") || ends(n, ".tar.xz") || ends(n, ".tar.bz2") || ends(n, ".zip") {
        PackageKind::Archive
    } else {
        PackageKind::Other
    }
}

fn ends_lit(n: &[char], s: &str) -> (r: bool)
    ensures
        r == ends(n@, s),
{
    let l = lit(s);
    ends_with(n, l.as_slice())
}

/// The kind of a package, judged on its lower-cased file name.
pub fn package_kind(name: &str) -> (r: PackageKind)
    ensures
        r == kind_of(lowercase(name@)),
{
    let c = chars_of(name);
    let n = lower(c.as_slice());
    if ends_lit(n.as_slice(), ".appimage") {
        PackageKind::AppImage
    } else if ends_lit(n.as_slice(), ".deb") {
        PackageKind::Deb
    } else if ends_lit(n.as_slice(), ".rpm") {
        PackageKind::Rpm
    } else if ends_lit(n.as_slice(), ".tar.gz") || ends_lit(n.as_slice(), ".tar.xz") || ends_lit(
        n.as_slice(),
        ".tar.bz2",
    ) || ends_lit(n.as_slice(), ".zip") {
        PackageKind::Archive
    } else {
        PackageKind::Other
    }
}

fn join2(a: &str, b: &str) -> (r: String)
    ensures
        r@ == a@ + b@,
{
    let x = chars_of(a);
    let y = chars_of(b);
    let z = concat(x.as_slice(), y.as_slice());
    string_from(z.as_slice())
}

/// The directory downloads are kept in.
pub open spec fn download_dir() -> Seq<char> {
    "/tmp/sit-downloads"@
}

/// Where a file of this name is downloaded to.
pub fn download_path(name: &str) -> (r: String)
    ensures
        r@ == download_dir() + "/"@ + name@,
{
    let a = join2("/tmp/sit-downloads", "/");
    join2(a.as_str(), name)
}

/// Where programs are linked for the user: `~/.local/bin`.
pub fn local_bin_dir(home: &str) -> (r: String)
    ensures
        r@ == home@ + "/.local/bin"@,
{
    join2(home, "/.local/bin")
}

/// Where launchers are written: `~/.local/share/applications`.
pub fn applications_dir(home: &str) -> (r: String)
    ensures
        r@ == home@ + "/.local/share/applications"@,
{
    join2(home, "/.local/share/applications")
}

/// Where an archive is unpacked: `~/.local/opt/<app>`.
pub fn archive_dir(home: &str, app: &str) -> (r: String)
    ensures
        r@ == home@ + "/.local/opt/"@ + app@,
{
    let a = join2(home, "/.local/opt/");
    join2(a.as_str(), app)
}

/// `dir/name`.
pub fn path_in(dir: &str, name: &str) -> (r: String)
    ensures
        r@ == dir@ + "/"@ + name@,
{
    let a = join2(dir, "/");
    join2(a.as_str(), name)
}

/// What `sha2::Sha256::digest` computes of the bytes.
pub uninterp spec fn sha256(data: Seq<u8>) -> Seq<u8>;

/// `sha2::Sha256::digest`: the digest `sha256` names, 32 bytes long.
#[verifier::external_body]
fn sha256_digest(data: &[u8]) -> (r: Vec<u8>)
    ensures
        r@ == sha256(data@),
        r@.len() == 32,
{
    sha2::Sha256::digest(data).to_vec()
}

/// The hash a checksum line starts with: the line trimmed, its part before the
/// first space when that part is 64 bytes long, lower-cased.
pub open spec fn line_hash(l: Seq<char>) -> Option<Seq<char>> {
    let t = trim(l);
    let head = before_char(t, ' ');
    if find_char(t, ' ') < t.len() && utf8_len(head) == 64 {
        Some(lowercase(head))
    } else {
        None
    }
}

/// The hash of the first line that holds one.
pub open spec fn first_hash(ls: Seq<Seq<char>>) -> Option<Seq<char>>
    decreases ls.len(),
{
    if ls.len() == 0 {
        None
    } else {
        match line_hash(ls[0]) {
            Some(h) => Some(h),
            None => first_hash(ls.drop_first()),
        }
    }
}

/// The expected hash in a checksum file.
pub open spec fn expected_hash(text: Seq<char>) -> Option<Seq<char>> {
    first_hash(lines(text))
}

fn line_hash_of(l: &[char]) -> (r: Option<Vec<char>>)
    ensures
        match r {
            Some(h) => line_hash(l@) == Some(h@),
            None => line_hash(l@) is None,
        },
{
    let t = trimmed(l);
    let k = find_char_from(t.as_slice(), 0, ' ');
    assert(t@.subrange(0, t@.len() as int) =~= t@);
    let head = slice_chars(t.as_slice(), 0, k);
    assert(head@ =~= before_char(t@, ' '));
    if k < t.len() && byte_len(head.as_slice()) == 64 {
        Some(lower(head.as_slice()))
    } else {
        None
    }
}

/// The expected hash in a checksum file: from the first line of the form
/// `<64-byte hash> <anything>`, lower-cased.
pub fn parse_checksum(text: &str) -> (r: Option<String>)
    ensures
        crate::urls::opt_view(r) == expected_hash(text@),
{
    let c = chars_of(text);
    let ls = lines_of(c.as_slice());
    let mut i: usize = 0;
    assert(views(ls@).skip(0) =~= views(ls@));
    while i < ls.len()
        invariant
            i <= ls@.len(),
            expected_hash(text@) == first_hash(views(ls@).skip(i as int)),
            views(ls@) == lines(c@),
            c@ == text@,
        decreases ls@.len() - i,
    {
        proof {
            let t = views(ls@).skip(i as int);
            assert(t.drop_first() =~= views(ls@).skip(i + 1));
            assert(t[0] == ls@[i as int]@);
        }
        match line_hash_of(ls[i].as_slice()) {
            Some(h) => {
                return Some(string_from(h.as_slice()));
            },
            None => {},
        }
        i += 1;
    }
    None
}

/// What a checksum check found.
pub enum ChecksumOutcome {
    /// No line of the checksum file holds a hash.
    Unrecognised,
    /// The file's digest is the expected hash.
    Verified,
    /// The file's digest differs from the expected hash.
    Mismatch { expected: String, actual: String },
}

/// `ChecksumOutcome` as values: `(unrecognised, verified, expected, actual)`.
pub open spec fn outcome_view(o: ChecksumOutcome) -> (bool, bool, Seq<char>, Seq<char>) {
    match o {
        ChecksumOutcome::Unrecognised => (true, false, seq![], seq![]),
        ChecksumOutcome::Verified => (false, true, seq![], seq![]),
        ChecksumOutcome::Mismatch { expected, actual } => (false, false, expected@, actual@),
    }
}

/// The outcome of checking `data` against a checksum file: the SHA-256 digest
/// of the data, in lower-case hex, compared with the expected hash.
pub open spec fn checksum_outcome(text: Seq<char>, data: Seq<u8>) -> (bool, bool, Seq<char>, Seq<char>) {
    match expected_hash(text) {
        None => (true, false, seq![], seq![]),
        Some(e) => {
            let actual = hex_lower(sha256(data));
            if actual == e {
                (false, true, seq![], seq![])
            } else {
                (false, false, e, actual)
            }
        },
    }
}

/// Checks downloaded `data` against the text of a checksum file.
pub fn check_checksum(text: &str, data: &[u8]) -> (r: ChecksumOutcome)
    ensures
        outcome_view(r) == checksum_outcome(text@, data@),
{
    match parse_checksum(text) {
        None => ChecksumOutcome::Unrecognised,
        Some(expected) => {
            let digest = sha256_digest(data);
            let hex = hex_of(digest.as_slice());
            let e = chars_of(expected.as_str());
            if crate::text::same_chars(hex.as_slice(), e.as_slice()) {
                ChecksumOutcome::Verified
            } else {
                ChecksumOutcome::Mismatch { expected, actual: string_from(hex.as_slice()) }
            }
        },
    }
}

/// The first path component of each line of an archive listing, empty ones left out.
pub open spec fn top_entries(ls: Seq<Seq<char>>) -> Seq<Seq<char>> {
    ls.map_values(|l: Seq<char>| before_char(l, '/')).filter(|t: Seq<char>| t.len() > 0)
}

/// The listing has exactly one distinct top-level entry.
pub open spec fn single_top_level(listing: Seq<char>) -> bool {
    let t = top_entries(lines(listing));
    t.len() > 0 && forall|i: int| 0 <= i < t.len() ==> #[trigger] t[i] == t[0]
}

/// Whether an archive listing (`tar -tf`) has a single top-level directory.
pub fn has_single_top_level(listing: &str) -> (r: bool)
    ensures
        r == single_top_level(listing@),
{
    let c = chars_of(listing);
    let ls = lines_of(c.as_slice());
    let ghost all = views(ls@);
    let mut first: Option<Vec<char>> = None;
    let mut same = true;
    let mut i: usize = 0;
    while i < ls.len()
        invariant
            i <= ls@.len(),
            all == views(ls@),
            all == lines(listing@),
            match first {
                None => top_entries(all.take(i as int)).len() == 0,
                Some(f) => top_entries(all.take(i as int)).len() > 0 && f@ == top_entries(all.take(i as int))[0],
            },
            same == forall|k: int| 0 <= k < top_entries(all.take(i as int)).len() ==> #[trigger] top_entries(all.take(i as int))[k] == top_entries(all.take(i as int))[0],
        decreases ls@.len() - i,
    {
        let head = prefix_before(ls[i].as_slice(), '/');
        let ghost t0 = top_entries(all.take(i as int));
        let ghost t1 = top_entries(all.take(i + 1));
        proof {
            assert(all.take(i + 1) =~= all.take(i as int).push(all[i as int]));
            assert(all[i as int] == ls@[i as int]@);
            let m = |l: Seq<char>| before_char(l, '/');
            let f = |t: Seq<char>| t.len() > 0;
            assert(all.take(i + 1).map_values(m) =~= all.take(i as int).map_values(m).push(head@));
            reveal_with_fuel(Seq::filter, 1);
            assert(all.take(i as int).map_values(m).push(head@).drop_last() =~= all.take(i as int).map_values(m));
            if head@.len() > 0 {
                assert(t1 == t0.push(head@));
            } else {
                assert(t1 == t0);
            }
        }
        let ghost same0 = same;
        if head.len() > 0 {
            match &first {
                None => {
                    first = Some(head);
                    assert(t1 =~= seq![t1[0]]);
                },
                Some(f) => {
                    if !crate::text::same_chars(f.as_slice(), head.as_slice()) {
                        same = false;
                        assert(t1[t1.len() - 1] != t1[0]);
                    } else {
                        proof {
                            if same0 {
                                assert forall|k: int| 0 <= k < t1.len() implies #[trigger] t1[k] == t1[0] by {
                                    if k < t0.len() {
                                        assert(t1[k] == t0[k]);
                                    }
                                }
                            }
                        }
                        assert(same0 ==> (forall|k: int| 0 <= k < t1.len() ==> #[trigger] t1[k] == t1[0]));
                        assert(!same0 ==> !(forall|k: int| 0 <= k < t1.len() ==> #[trigger] t1[k] == t1[0])) by {
                            if !same0 {
                                let k = choose|k: int| 0 <= k < t0.len() && #[trigger] t0[k] != t0[0];
                                assert(t1[k] == t0[k]);
                            }
                        }
                    }
                },
            }
        }
        i += 1;
    }
    assert(all.take(ls@.len() as int) =~= all);
    first.is_some() && same
}

/// Whether a package is a zip archive (unpacked with `unzip`), judged on its
/// lower-cased name.
pub fn is_zip(name: &str) -> (r: bool)
    ensures
        r == has_suffix(lowercase(name@), ".zip"@),
{
    let c = chars_of(name);
    let n = lower(c.as_slice());
    ends_lit(n.as_slice(), ".zip")
}

/// Whether unpacking drops the archive's top directory: never for a zip; for a
/// tarball, when its listing has a single top-level entry, or when no listing
/// could be had.
pub fn strip_top_dir(name: &str, listing: Option<&str>) -> (r: bool)
    ensures
        r == if has_suffix(lowercase(name@), ".zip"@) {
            false
        } else {
            match listing {
                Some(l) => single_top_level(l@),
                None => true,
            }
        },
{
    let c = chars_of(name);
    let n = lower(c.as_slice());
    if ends_lit(n.as_slice(), ".zip") {
        false
    } else {
        match listing {
            Some(l) => has_single_top_level(l),
            None => true,
        }
    }
}

/// The `tar` flag that unpacks an archive of this (lower-cased) name.
pub open spec fn tar_flag_of(n: Seq<char>) -> Seq<char> {
    if ends(n, ".tar.gz") {
        "-xzf"@
    } else if ends(n, ".tar.xz") {
        "-xJf"@
    } else {
        "-xjf"@
    }
}

/// The `tar` flag that unpacks an archive, judged on its lower-cased name.
pub fn tar_flag(name: &str) -> (r: &'static str)
    ensures
        r@ == tar_flag_of(lowercase(name@)),
{
    let c = chars_of(name);
    let n = lower(c.as_slice());
    if ends_lit(n.as_slice(), ".tar.gz") {
        "-xzf"
    } else if ends_lit(n.as_slice(), ".tar.xz") {
        "-xJf"
    } else {
        "-xjf"
    }
}

/// Files that are not the program: libraries, launchers, text and scripts.
pub open spec fn not_a_program(fname: Seq<char>) -> bool {
    has_prefix(fname, "lib"@) || has_suffix(fname, ".so"@) || has_suffix(fname, ".so."@)
        || has_suffix(fname, ".desktop"@) || has_suffix(fname, ".txt"@) || has_suffix(fname, ".md"@)
        || has_suffix(fname, ".sh"@) || has_suffix(fname, ".py"@) || has_suffix(fname, ".rb"@)
}

/// The score of an executable file as the program of `app`: 2 for a `/bin/`
/// directory, 1 for the app's name in its path; none when it is not a program.
pub open spec fn program_score(path: Seq<char>, fname: Seq<char>, app: Seq<char>) -> Option<int> {
    if not_a_program(fname) {
        None
    } else {
        Some((if is_infix(path, "/bin/"@) {
            2int
        } else {
            0
        }) + if is_infix(path, "/"@ + app) {
            1int
        } else {
            0
        })
    }
}

fn has_prefix_lit(s: &[char], p: &str) -> (r: bool)
    ensures
        r == has_prefix(s@, p@),
{
    let l = lit(p);
    starts_with(s, l.as_slice())
}

/// The score of an executable file found in an unpacked archive.
pub fn executable_score(path: &str, fname: &str, app_name: &str) -> (r: Option<i32>)
    ensures
        match r {
            Some(x) => program_score(path@, fname@, app_name@) == Some(x as int),
            None => program_score(path@, fname@, app_name@) is None,
        },
{
    let f = chars_of(fname);
    let fs = f.as_slice();
    if has_prefix_lit(fs, "lib") || ends_lit(fs, ".so") || ends_lit(fs, ".so.") || ends_lit(fs, ".desktop")
        || ends_lit(fs, ".txt") || ends_lit(fs, ".md") || ends_lit(fs, ".sh") || ends_lit(fs, ".py")
        || ends_lit(fs, ".rb") {
        return None;
    }
    let p = chars_of(path);
    let bin = lit("/bin/");
    let slash = lit("/");
    let a = chars_of(app_name);
    let sa = concat(slash.as_slice(), a.as_slice());
    let mut score: i32 = 0;
    if contains(p.as_slice(), bin.as_slice()) {
        score = score + 2;
    }
    if contains(p.as_slice(), sa.as_slice()) {
        score = score + 1;
    }
    Some(score)
}

/// The best candidate program: the first with the highest score.
pub open spec fn best_program(c: Seq<(i32, String)>) -> Option<Seq<char>> {
    if c.len() == 0 {
        None
    } else {
        Some(c[first_max_index(c.map_values(|x: (i32, String)| x.0 as int))].1@)
    }
}

/// The program among scored candidates: the first with the highest score.
pub fn best_executable(candidates: &Vec<(i32, String)>) -> (r: Option<String>)
    ensures
        crate::urls::opt_view(r) == best_program(candidates@),
{
    if candidates.len() == 0 {
        return None;
    }
    let mut scores: Vec<i32> = Vec::new();
    let mut i: usize = 0;
    while i < candidates.len()
        invariant
            i <= candidates@.len(),
            scores@ == candidates@.take(i as int).map_values(|x: (i32, String)| x.0),
        decreases candidates@.len() - i,
    {
        scores.push(candidates[i].0);
        i += 1;
        assert(scores@ =~= candidates@.take(i as int).map_values(|x: (i32, String)| x.0));
    }
    assert(candidates@.take(candidates@.len() as int) =~= candidates@);
    let k = best_score_index(scores.as_slice());
    proof {
        assert(as_ints(scores@) =~= candidates@.map_values(|x: (i32, String)| x.0 as int));
        crate::assets::lemma_first_max_bound(as_ints(scores@));
    }
    Some(candidates[k].1.clone())
}


fn words_vec(a: &str, b: &str, c: &str, d: &str) -> (r: Vec<String>)
    ensures
        crate::text::string_views(r@) == seq![a@, b@, c@, d@],
{
    let mut v: Vec<String> = Vec::new();
    v.push(string_from(lit(a).as_slice()));
    v.push(string_from(lit(b).as_slice()));
    v.push(string_from(lit(c).as_slice()));
    v.push(string_from(lit(d).as_slice()));
    assert(crate::text::string_views(v@) =~= seq![a@, b@, c@, d@]);
    v
}

fn words_vec3(a: &str, b: &str, c: &str) -> (r: Vec<String>)
    ensures
        crate::text::string_views(r@) == seq![a@, b@, c@],
{
    let mut v: Vec<String> = Vec::new();
    v.push(string_from(lit(a).as_slice()));
    v.push(string_from(lit(b).as_slice()));
    v.push(string_from(lit(c).as_slice()));
    assert(crate::text::string_views(v@) =~= seq![a@, b@, c@]);
    v
}

/// The command (run with `sudo`) that installs a `.deb`: `apt` on Ubuntu and
/// Debian, `dpkg` elsewhere.
pub open spec fn deb_command_of(d: Distro, file: Seq<char>) -> Seq<Seq<char>> {
    match d {
        Distro::Ubuntu => seq!["apt"@, "install"@, "-y"@, file],
        _ => seq!["dpkg"@, "-i"@, file],
    }
}

/// The command that installs a `.deb` file.
pub fn deb_command(distro: &Distro, file: &str) -> (r: Vec<String>)
    ensures
        crate::text::string_views(r@) == deb_command_of(*distro, file@),
{
    match distro {
        Distro::Ubuntu => words_vec("apt", "install", "-y", file),
        _ => words_vec3("dpkg", "-i", file),
    }
}

/// Whether a failed `dpkg` install is followed by `apt -f install -y` to repair
/// dependencies: where `dpkg` was used.
pub fn deb_repair_after_failure(distro: &Distro) -> (r: bool)
    ensures
        r == (*distro != Distro::Ubuntu),
{
    match distro {
        Distro::Ubuntu => false,
        _ => true,
    }
}

/// The command (run with `sudo`) that installs an `.rpm`: `dnf` on Fedora and
/// RHEL, `rpm` elsewhere.
pub open spec fn rpm_command_of(d: Distro, file: Seq<char>) -> Seq<Seq<char>> {
    match d {
        Distro::Fedora => seq!["dnf"@, "install"@, "-y"@, file],
        _ => seq!["rpm"@, "-i"@, file],
    }
}

/// The command that installs an `.rpm` file.
pub fn rpm_command(distro: &Distro, file: &str) -> (r: Vec<String>)
    ensures
        crate::text::string_views(r@) == rpm_command_of(*distro, file@),
{
    match distro {
        Distro::Fedora => words_vec("dnf", "install", "-y", file),
        _ => words_vec3("rpm", "-i", file),
    }
}

/// The directory an unpacked zip is used from: its only entry when that is a
/// directory, else the directory it was unpacked into.
pub fn unpacked_root(opt_dir: &str, entries: &Vec<(String, bool)>) -> (r: String)
    ensures
        r@ == if entries@.len() == 1 && entries@[0].1 {
            entries@[0].0@
        } else {
            opt_dir@
        },
{
    if entries.len() == 1 && entries[0].1 {
        entries[0].0.clone()
    } else {
        string_from(chars_of(opt_dir).as_slice())
    }
}

/// The question asked before an operation that needs `sudo`.
pub fn sudo_prompt(action: &str) -> (r: String)
    ensures
        r@ == "Are you sure you want to "@ + action@ + "?"@,
{
    let a = concat(lit("Are you sure you want to ").as_slice(), lit(action).as_slice());
    let b = concat(a.as_slice(), lit("?").as_slice());
    string_from(b.as_slice())
}

} // verus!
