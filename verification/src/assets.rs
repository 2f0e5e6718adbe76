//! Choosing among downloadable files: which suit the distribution, in which
//! order they are offered, and which one is picked by default.
use vstd::prelude::*;
use crate::Distro;
use crate::text::{
    after_last, ascii_lowered, before_char, chars_of, is_ascii_text, concat, contains, ends_with, has_suffix, is_infix, lower,
    lowercase, prefix_before, string_from, suffix_after_last, to_uppercase, uppercase_of,
};

verus! {

/// Whether the lower-cased `n` holds `lit`.
pub open spec fn has(n: Seq<char>, lit: &str) -> bool {
    is_infix(n, lit@)
}

/// Whether the lower-cased `n` ends with `lit`.
pub open spec fn ends(n: Seq<char>, lit: &str) -> bool {
    has_suffix(n, lit@)
}

fn has_lit(n: &[char], lit: &str) -> (r: bool)
    ensures
        r == has(n@, lit),
{
    let l = chars_of(lit);
    contains(n, l.as_slice())
}

fn ends_lit(n: &[char], lit: &str) -> (r: bool)
    ensures
        r == ends(n@, lit),
{
    let l = chars_of(lit);
    ends_with(n, l.as_slice())
}

/// The label shown for a distribution.
pub open spec fn distro_text(d: Distro) -> Seq<char> {
    match d {
        Distro::Fedora => "Fedora/RHEL (dnf)"@,
        Distro::Ubuntu => "Ubuntu/Debian (apt)"@,
        Distro::Unknown => "Unknown (generic)"@,
    }
}

/// The label shown for a distribution.
pub fn distro_label(distro: &Distro) -> (r: &'static str)
    ensures
        r@ == distro_text(*distro),
{
    match distro {
        Distro::Fedora => "Fedora/RHEL (dnf)",
        Distro::Ubuntu => "Ubuntu/Debian (apt)",
        Distro::Unknown => "Unknown (generic)",
    }
}

/// Names (lower-cased) that are never offered: other architectures and systems,
/// checksums, signatures and metadata.
pub open spec fn foreign_asset(n: Seq<char>, d: Distro) -> bool {
    ||| has(n, "arm64") || has(n, "aarch64") || has(n, "armv7") || has(n, "armhf")
    ||| has(n, "darwin") || has(n, "macos") || has(n, "mac")
    ||| has(n, "win") || has(n, ".exe") || has(n, ".msi") || has(n, ".dmg") || has(n, ".pkg")
    ||| has(n, "musl") && (d == Distro::Fedora || d == Distro::Ubuntu)
    ||| has(n, "i686") || has(n, "i386")
    ||| ends(n, ".sha256") || ends(n, ".sha512") || ends(n, ".sig")
    ||| ends(n, ".asc") || ends(n, ".json") || ends(n, ".txt")
    ||| ends(n, ".blockmap") || ends(n, ".zsync")
}

/// The name says it is for 64-bit x86 Linux.
pub open spec fn says_linux_x64(n: Seq<char>) -> bool {
    has(n, "linux") || has(n, "x64") || has(n, "amd64")
}

/// The package formats accepted on a distribution.
pub open spec fn accepted_format(n: Seq<char>, d: Distro) -> bool {
    ||| d == Distro::Fedora && ends(n, ".rpm")
    ||| d == Distro::Ubuntu && ends(n, ".deb")
    ||| ends(n, ".appimage") || ends(n, ".tar.gz") || ends(n, ".tar.xz") || ends(n, ".tar.bz2")
    ||| ends(n, ".zip")
}

/// Whether a lower-cased file name is an installable asset on `d`.
pub open spec fn valid_asset(n: Seq<char>, d: Distro) -> bool {
    if foreign_asset(n, d) {
        false
    } else if ends(n, ".zip") {
        says_linux_x64(n)
    } else if (has(n, "setup") || has(n, "installer")) && !says_linux_x64(n) {
        false
    } else {
        accepted_format(n, d)
    }
}

/// `valid_asset` on an already lower-cased name.
pub fn is_valid_lowered_asset(n: &[char], distro: &Distro) -> (r: bool)
    ensures
        r == valid_asset(n@, *distro),
{
    let d = distro;
    let musl_matters = match d {
        Distro::Fedora => true,
        Distro::Ubuntu => true,
        Distro::Unknown => false,
    };
    if has_lit(n, "arm64") || has_lit(n, "aarch64") || has_lit(n, "armv7") || has_lit(n, "armhf")
        || has_lit(n, "darwin") || has_lit(n, "macos") || has_lit(n, "mac") || has_lit(n, "win")
        || has_lit(n, ".exe") || has_lit(n, ".msi") || has_lit(n, ".dmg") || has_lit(n, ".pkg")
        || (has_lit(n, "musl") && musl_matters) || has_lit(n, "i686") || has_lit(n, "i386")
        || ends_lit(n, ".sha256") || ends_lit(n, ".sha512") || ends_lit(n, ".sig") || ends_lit(
        n,
        ".asc",
    ) || ends_lit(n, ".json") || ends_lit(n, ".txt") || ends_lit(n, ".blockmap") || ends_lit(
        n,
        ".zsync",
    ) {
        return false;
    }
    let linux_x64 = has_lit(n, "linux") || has_lit(n, "x64") || has_lit(n, "amd64");
    if ends_lit(n, ".zip") {
        return linux_x64;
    }
    if (has_lit(n, "setup") || has_lit(n, "installer")) && !linux_x64 {
        return false;
    }
    let native = match d {
        Distro::Fedora => ends_lit(n, ".rpm"),
        Distro::Ubuntu => ends_lit(n, ".deb"),
        Distro::Unknown => false,
    };
    native || ends_lit(n, ".appimage") || ends_lit(n, ".tar.gz") || ends_lit(n, ".tar.xz")
        || ends_lit(n, ".tar.bz2") || ends_lit(n, ".zip")
}

/// Whether a file name is an installable asset on `distro`, judged on its
/// lower-cased form.
pub fn is_valid_asset(name: &str, distro: &Distro) -> (r: bool)
    ensures
        r == valid_asset(lowercase(name@), *distro),
        is_ascii_text(name@) ==> r == valid_asset(ascii_lowered(name@), *distro),
{
    let n = chars_of(name);
    let l = lower(n.as_slice());
    is_valid_lowered_asset(l.as_slice(), distro)
}

/// Rank of a lower-cased name in the offered order: native package first,
/// then AppImage, then the rest.
pub open spec fn asset_rank(n: Seq<char>, d: Distro) -> int {
    match d {
        Distro::Fedora => if ends(n, ".rpm") {
            0
        } else if ends(n, ".appimage") {
            1
        } else {
            2
        },
        Distro::Ubuntu => if ends(n, ".deb") {
            0
        } else if ends(n, ".appimage") {
            1
        } else {
            2
        },
        Distro::Unknown => if ends(n, ".appimage") {
            0
        } else {
            1
        },
    }
}

/// `asset_rank` on an already lower-cased name.
pub fn rank_of_lowered(n: &[char], distro: &Distro) -> (r: u8)
    ensures
        r == asset_rank(n@, *distro),
{
    match distro {
        Distro::Fedora => if ends_lit(n, ".rpm") {
            0
        } else if ends_lit(n, ".appimage") {
            1
        } else {
            2
        },
        Distro::Ubuntu => if ends_lit(n, ".deb") {
            0
        } else if ends_lit(n, ".appimage") {
            1
        } else {
            2
        },
        Distro::Unknown => if ends_lit(n, ".appimage") {
            0
        } else {
            1
        },
    }
}

/// Rank of an asset `(name, url)`, on its lower-cased name.
pub open spec fn rank_of(a: (String, String), d: Distro) -> int {
    asset_rank(lowercase(a.0@), d)
}

/// The assets of rank `k`, in their order.
pub open spec fn of_rank(s: Seq<(String, String)>, d: Distro, k: int) -> Seq<(String, String)> {
    s.filter(|a: (String, String)| rank_of(a, d) == k)
}

/// The stable sort of `s` by rank: every rank's assets, in the order given.
pub open spec fn sorted_by_rank(s: Seq<(String, String)>, d: Distro) -> Seq<(String, String)> {
    of_rank(s, d, 0) + of_rank(s, d, 1) + of_rank(s, d, 2)
}

/// Rank of an asset `(name, url)`.
pub fn asset_rank_of(name: &String, distro: &Distro) -> (r: u8)
    ensures
        r == asset_rank(lowercase(name@), *distro),
{
    let n = chars_of(name.as_str());
    let l = lower(n.as_slice());
    rank_of_lowered(l.as_slice(), distro)
}

/// Orders assets by rank, keeping the order of assets of equal rank.
pub fn sort_assets(assets: &mut Vec<(String, String)>, distro: &Distro)
    ensures
        final(assets)@ == sorted_by_rank(old(assets)@, *distro),
{
    let ghost s = assets@;
    let d = *distro;
    let mut first: Vec<(String, String)> = Vec::new();
    let mut second: Vec<(String, String)> = Vec::new();
    let mut third: Vec<(String, String)> = Vec::new();
    let mut i: usize = 0;
    while i < assets.len()
        invariant
            assets@ == s,
            i <= s.len(),
            d == *distro,
            first@ == of_rank(s.take(i as int), d, 0),
            second@ == of_rank(s.take(i as int), d, 1),
            third@ == of_rank(s.take(i as int), d, 2),
        decreases s.len() - i,
    {
        let a = (assets[i].0.clone(), assets[i].1.clone());
        let r = asset_rank_of(&a.0, distro);
        proof {
            assert(s.take(i + 1).drop_last() =~= s.take(i as int));
            reveal_with_fuel(Seq::filter, 1);
        }
        if r == 0 {
            first.push(a);
        } else if r == 1 {
            second.push(a);
        } else {
            third.push(a);
        }
        i += 1;
    }
    assert(s.take(s.len() as int) =~= s);
    first.append(&mut second);
    first.append(&mut third);
    *assets = first;
}


/// The system a download is for, judged on its lower-cased URL and name.
pub open spec fn os_text(s: Seq<char>) -> Seq<char> {
    if has(s, "windows") || has(s, ".exe") || has(s, ".msi") {
        "Windows"@
    } else if has(s, "macos") || has(s, "darwin") || has(s, ".dmg") {
        "macOS"@
    } else {
        "Linux"@
    }
}

/// `os_text` on an already lower-cased text.
pub fn os_of_lowered(s: &[char]) -> (r: &'static str)
    ensures
        r@ == os_text(s@),
{
    if has_lit(s, "windows") || has_lit(s, ".exe") || has_lit(s, ".msi") {
        "Windows"
    } else if has_lit(s, "macos") || has_lit(s, "darwin") || has_lit(s, ".dmg") {
        "macOS"
    } else {
        "Linux"
    }
}

/// Guess download OS platform from URL / filename.
pub fn detect_os(url: &str, name: &str) -> (r: &'static str)
    ensures
        r@ == os_text(lowercase(url@ + " "@ + name@)),
{
    let u = chars_of(url);
    let sp = chars_of(" ");
    let n = chars_of(name);
    let a = concat(u.as_slice(), sp.as_slice());
    let both = concat(a.as_slice(), n.as_slice());
    let l = lower(both.as_slice());
    os_of_lowered(l.as_slice())
}

/// Score of a lower-cased package name when picking the best one.
pub open spec fn package_score(n: Seq<char>, d: Distro) -> int {
    (if match d {
        Distro::Fedora => ends(n, ".rpm"),
        Distro::Ubuntu => ends(n, ".deb"),
        Distro::Unknown => ends(n, ".appimage"),
    } {
        10int
    } else {
        0
    }) + (if has(n, "stable") {
        5int
    } else {
        0
    }) + (if has(n, "latest") {
        3int
    } else {
        0
    }) + (if has(n, "release") {
        3int
    } else {
        0
    }) + (if has(n, "x64") || has(n, "x86_64") || has(n, "amd64") {
        2int
    } else {
        0
    }) - (if has(n, "alpha") || has(n, "beta") || has(n, "rc") || has(n, "dev") {
        5int
    } else {
        0
    })
}

/// `package_score` on an already lower-cased name.
pub fn score_of_lowered(n: &[char], distro: &Distro) -> (r: i32)
    ensures
        r == package_score(n@, *distro),
{
    let mut s: i32 = 0;
    let native = match distro {
        Distro::Fedora => ends_lit(n, ".rpm"),
        Distro::Ubuntu => ends_lit(n, ".deb"),
        Distro::Unknown => ends_lit(n, ".appimage"),
    };
    if native {
        s += 10;
    }
    if has_lit(n, "stable") {
        s += 5;
    }
    if has_lit(n, "latest") {
        s += 3;
    }
    if has_lit(n, "release") {
        s += 3;
    }
    if has_lit(n, "x64") || has_lit(n, "x86_64") || has_lit(n, "amd64") {
        s += 2;
    }
    if has_lit(n, "alpha") || has_lit(n, "beta") || has_lit(n, "rc") || has_lit(n, "dev") {
        s -= 5;
    }
    s
}

/// Index of the first greatest element of `s` (0 for an empty `s`).
pub open spec fn first_max_index(s: Seq<int>) -> int
    decreases s.len(),
{
    if s.len() <= 1 {
        0
    } else {
        let j = first_max_index(s.drop_last());
        if s.last() > s[j] {
            s.len() - 1
        } else {
            j
        }
    }
}

/// Scores as integers.
pub open spec fn as_ints(s: Seq<i32>) -> Seq<int> {
    s.map_values(|x: i32| x as int)
}

/// Index of the first highest score (0 when there is none).
pub fn best_score_index(scores: &[i32]) -> (r: usize)
    ensures
        r == first_max_index(as_ints(scores@)),
{
    if scores.len() == 0 {
        return 0;
    }
    let mut best: usize = 0;
    let mut i: usize = 1;
    while i < scores.len()
        invariant
            1 <= i <= scores@.len(),
            best < i,
            best == first_max_index(as_ints(scores@.take(i as int))),
        decreases scores@.len() - i,
    {
        proof {
            assert(as_ints(scores@.take(i + 1)).drop_last() =~= as_ints(scores@.take(i as int)));
            lemma_first_max_bound(as_ints(scores@.take(i as int)));
        }
        if scores[i] > scores[best] {
            best = i;
        }
        i += 1;
    }
    assert(scores@.take(scores@.len() as int) =~= scores@);
    best
}

/// `first_max_index` points into a non-empty sequence.
pub proof fn lemma_first_max_bound(s: Seq<int>)
    ensures
        s.len() > 0 ==> 0 <= first_max_index(s) < s.len(),
        s.len() == 0 ==> first_max_index(s) == 0,
    decreases s.len(),
{
    if s.len() > 1 {
        lemma_first_max_bound(s.drop_last());
    }
}

/// Scores of the links' lower-cased names.
pub open spec fn link_scores(links: Seq<(String, String)>, d: Distro) -> Seq<int> {
    links.map_values(|l: (String, String)| package_score(lowercase(l.0@), d))
}

/// Index of the best package to offer: the first with the highest score (0 when
/// there are none).
pub fn auto_select_best_package(links: &[(String, String)], distro: &Distro) -> (r: usize)
    ensures
        r == first_max_index(link_scores(links@, *distro)),
{
    let mut scores: Vec<i32> = Vec::new();
    let mut i: usize = 0;
    while i < links.len()
        invariant
            i <= links@.len(),
            as_ints(scores@) == link_scores(links@.take(i as int), *distro),
        decreases links@.len() - i,
    {
        let n = chars_of(links[i].0.as_str());
        let l = lower(n.as_slice());
        let sc = score_of_lowered(l.as_slice(), distro);
        let ghost prev = scores@;
        scores.push(sc);
        proof {
            assert(links@.take(i + 1) =~= links@.take(i as int).push(links@[i as int]));
            assert(as_ints(scores@) =~= as_ints(prev).push(sc as int));
            assert(link_scores(links@.take(i + 1), *distro) =~= link_scores(links@.take(i as int), *distro).push(package_score(lowercase(links@[i as int].0@), *distro)));
        }
        i += 1;
    }
    assert(links@.take(links@.len() as int) =~= links@);
    best_score_index(scores.as_slice())
}

/// The file name at the end of a URL: after the last `/`, before the first `?`.
pub open spec fn file_name(url: Seq<char>) -> Seq<char> {
    before_char(after_last(url, '/'), '?')
}

/// The file name at the end of a URL.
pub fn extract_fname(url: &str) -> (r: String)
    ensures
        r@ == file_name(url@),
{
    let u = chars_of(url);
    let tail = suffix_after_last(u.as_slice(), '/');
    let f = prefix_before(tail.as_slice(), '?');
    string_from(f.as_slice())
}

/// The page is DuckDuckGo's anomaly (CAPTCHA) challenge.
pub open spec fn ddg_captcha(html: Seq<char>) -> bool {
    has(html, "anomaly-modal") && has(html, "challenge")
}

/// Whether a DuckDuckGo answer is its CAPTCHA page.
pub fn is_ddg_captcha(html: &str) -> (r: bool)
    ensures
        r == ddg_captcha(html@),
{
    let h = chars_of(html);
    has_lit(h.as_slice(), "anomaly-modal") && has_lit(h.as_slice(), "challenge")
}

/// `s` with its first character upper-cased.
pub open spec fn capitalised(s: Seq<char>) -> Seq<char> {
    if s.len() == 0 {
        seq![]
    } else {
        uppercase_of(s[0]) + s.drop_first()
    }
}

/// `capitalised` on characters.
pub fn capitalise_chars(s: &[char]) -> (r: Vec<char>)
    ensures
        r@ == capitalised(s@),
{
    if s.len() == 0 {
        return Vec::new();
    }
    let up = to_uppercase(s[0]);
    let u = chars_of(up.as_str());
    let rest = crate::text::slice_chars(s, 1, s.len());
    assert(rest@ =~= s@.drop_first());
    concat(u.as_slice(), rest.as_slice())
}

/// The string with its first character upper-cased.
pub fn capitalise(s: &str) -> (r: String)
    ensures
        r@ == capitalised(s@),
{
    let c = chars_of(s);
    let r = capitalise_chars(c.as_slice());
    string_from(r.as_slice())
}

/// The launcher entry written for an installed application.
pub open spec fn desktop_entry_text(app_name: Seq<char>, exec_path: Seq<char>) -> Seq<char> {
    let n = capitalised(app_name);
    "[Desktop Entry]\nVersion=1.0\nType=Application\nName="@ + n + "\nComment="@ + n
        + " (installed by sit)\nExec="@ + exec_path + "\nIcon="@ + n
        + "\nTerminal=false\nCategories=Utility;\n"@
}

fn push_str(v: Vec<char>, s: &str) -> (r: Vec<char>)
    ensures
        r@ == v@ + s@,
{
    let c = chars_of(s);
    concat(v.as_slice(), c.as_slice())
}

/// The launcher entry written for an installed application.
pub fn desktop_entry(app_name: &str, exec_path: &str) -> (r: String)
    ensures
        r@ == desktop_entry_text(app_name@, exec_path@),
{
    let n = capitalise(app_name);
    let mut v: Vec<char> = Vec::new();
    v = push_str(v, "[Desktop Entry]\nVersion=1.0\nType=Application\nName=");
    v = push_str(v, n.as_str());
    v = push_str(v, "\nComment=");
    v = push_str(v, n.as_str());
    v = push_str(v, " (installed by sit)\nExec=");
    v = push_str(v, exec_path);
    v = push_str(v, "\nIcon=");
    v = push_str(v, n.as_str());
    v = push_str(v, "\nTerminal=false\nCategories=Utility;\n");
    assert(v@ =~= desktop_entry_text(app_name@, exec_path@));
    string_from(v.as_slice())
}

/// Where the launcher entry of an application is written.
pub fn desktop_file_path(apps_dir: &str, app_name: &str) -> (r: String)
    ensures
        r@ == apps_dir@ + "/"@ + app_name@ + ".desktop"@,
{
    let mut v: Vec<char> = chars_of(apps_dir);
    v = push_str(v, "/");
    v = push_str(v, app_name);
    v = push_str(v, ".desktop");
    string_from(v.as_slice())
}


/// The distribution family an (lower-cased) `/etc/os-release` describes.
pub open spec fn distro_of(c: Seq<char>) -> Distro {
    if has(c, "id_like=\"fedora\"") || has(c, "id_like=fedora") || has(c, "id=\"fedora\"") || has(c, "id=fedora")
        || has(c, "rhel") || has(c, "centos") || has(c, "rocky") {
        Distro::Fedora
    } else if has(c, "id_like=\"debian\"") || has(c, "id_like=debian") || has(c, "id=\"ubuntu\"")
        || has(c, "id=ubuntu") || has(c, "id=\"debian\"") || has(c, "id=debian") || has(c, "ubuntu")
        || has(c, "debian") || has(c, "mint") || has(c, "pop!_os") || has(c, "element") || has(c, "kali") {
        Distro::Ubuntu
    } else {
        Distro::Unknown
    }
}

/// `distro_of` on an already lower-cased text.
pub fn distro_of_lowered(c: &[char]) -> (r: Distro)
    ensures
        r == distro_of(c@),
{
    if has_lit(c, "id_like=\"fedora\"") || has_lit(c, "id_like=fedora") || has_lit(c, "id=\"fedora\"")
        || has_lit(c, "id=fedora") || has_lit(c, "rhel") || has_lit(c, "centos") || has_lit(c, "rocky") {
        Distro::Fedora
    } else if has_lit(c, "id_like=\"debian\"") || has_lit(c, "id_like=debian") || has_lit(c, "id=\"ubuntu\"")
        || has_lit(c, "id=ubuntu") || has_lit(c, "id=\"debian\"") || has_lit(c, "id=debian") || has_lit(c, "ubuntu")
        || has_lit(c, "debian") || has_lit(c, "mint") || has_lit(c, "pop!_os") || has_lit(c, "element")
        || has_lit(c, "kali") {
        Distro::Ubuntu
    } else {
        Distro::Unknown
    }
}

/// The distribution family that the text of `/etc/os-release` describes
/// (empty when it cannot be read), judged on its lower-cased form.
pub fn distro_from_os_release(content: &str) -> (r: Distro)
    ensures
        r == distro_of(lowercase(content@)),
{
    let c = chars_of(content);
    let l = lower(c.as_slice());
    distro_of_lowered(l.as_slice())
}

} // verus!
