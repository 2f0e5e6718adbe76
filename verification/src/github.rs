//! GitHub's API answers: repositories found by a search, and the assets of a
//! release.
use vstd::prelude::*;
use crate::{AppMatch, Distro};
use crate::assets::{is_valid_asset, sort_assets, sorted_by_rank, valid_asset};
use crate::search::match_views;
use crate::text::{
    chars_of, concat, decimal, decimal_of, has_suffix, lowercase, string_from, string_views,
    ends_with, same_string,
};
use crate::urls::{opt_view, pair_views};

verus! {

/// A JSON value as the installer reads it: numbers only as far as they are
/// unsigned 64-bit integers.
pub enum Json {
    Null,
    Bool(bool),
    /// A number; `Some` when it is a `u64`.
    Number(Option<u64>),
    Str(String),
    Array(Vec<Json>),
    /// Members in order; keys are distinct.
    Object(Vec<(String, Json)>),
}

/// The value of the first member named `key`, or `Null`.
pub open spec fn member(kv: Seq<(String, Json)>, key: Seq<char>) -> Json
    decreases kv.len(),
{
    if kv.len() == 0 {
        Json::Null
    } else if kv[0].0@ == key {
        kv[0].1
    } else {
        member(kv.drop_first(), key)
    }
}

/// `value[key]`: the member of an object, `Null` for anything else.
pub open spec fn field(j: Json, key: Seq<char>) -> Json {
    match j {
        Json::Object(kv) => member(kv@, key),
        _ => Json::Null,
    }
}

/// `as_str`.
pub open spec fn json_str(j: Json) -> Option<Seq<char>> {
    match j {
        Json::Str(s) => Some(s@),
        _ => None,
    }
}

/// `as_u64`.
pub open spec fn json_u64(j: Json) -> Option<u64> {
    match j {
        Json::Number(n) => n,
        _ => None,
    }
}

/// `as_array`.
pub open spec fn json_array(j: Json) -> Option<Seq<Json>> {
    match j {
        Json::Array(a) => Some(a@),
        _ => None,
    }
}

fn lit(s: &str) -> (r: Vec<char>)
    ensures
        r@ == s@,
{
    chars_of(s)
}

fn same_key(a: &String, key: &str) -> (r: bool)
    ensures
        r == (a@ == key@),
{
    let x = chars_of(a.as_str());
    let y = chars_of(key);
    crate::text::same_chars(x.as_slice(), y.as_slice())
}

/// `value[key]`.
pub fn get_field<'a>(j: &'a Json, key: &str) -> (r: Option<&'a Json>)
    ensures
        match r {
            Some(v) => *v == field(*j, key@),
            None => field(*j, key@) == Json::Null,
        },
{
    match j {
        Json::Object(kv) => {
            let mut i: usize = 0;
            assert(*j == Json::Object(*kv));
            assert(kv@.skip(0) =~= kv@);
            while i < kv.len()
                invariant
                    i <= kv@.len(),
                    member(kv@, key@) == member(kv@.skip(i as int), key@),
                    field(*j, key@) == member(kv@, key@),
                decreases kv@.len() - i,
            {
                assert(kv@.skip(i as int).drop_first() =~= kv@.skip(i + 1));
                assert(kv@.skip(i as int)[0] == kv@[i as int]);
                if same_key(&kv[i].0, key) {
                    assert(member(kv@.skip(i as int), key@) == kv@[i as int].1);
                    assert(field(*j, key@) == member(kv@, key@));
                    return Some(&kv[i].1);
                }
                i += 1;
            }
            None
        },
        _ => None,
    }
}

/// `value[key].as_str()`.
pub fn field_str(j: &Json, key: &str) -> (r: Option<String>)
    ensures
        opt_view(r) == json_str(field(*j, key@)),
{
    match get_field(j, key) {
        Some(Json::Str(s)) => Some(s.clone()),
        _ => None,
    }
}

/// `value[key].as_u64()`.
pub fn field_u64(j: &Json, key: &str) -> (r: Option<u64>)
    ensures
        r == json_u64(field(*j, key@)),
{
    match get_field(j, key) {
        Some(Json::Number(n)) => *n,
        _ => None,
    }
}

/// A repository found by the search, offered as its latest release.
pub open spec fn repo_match(item: Json) -> Option<(Seq<char>, Seq<char>, Seq<char>)> {
    let name = match json_str(field(item, "full_name"@)) {
        Some(n) => n,
        None => seq![],
    };
    let stars = match json_u64(field(item, "stargazers_count"@)) {
        Some(s) => s,
        None => 0,
    };
    if name.len() == 0 {
        None
    } else {
        Some(
            (
                name + " (★"@ + decimal(stars as nat) + ")"@,
                "GitHub"@,
                "https://api.github.com/repos/"@ + name + "/releases/latest"@,
            ),
        )
    }
}

/// The matches of search items, in order.
pub open spec fn repo_matches(items: Seq<Json>) -> Seq<(Seq<char>, Seq<char>, Seq<char>)>
    decreases items.len(),
{
    if items.len() == 0 {
        seq![]
    } else {
        repo_matches(items.drop_last()) + match repo_match(items.last()) {
            Some(m) => seq![m],
            None => seq![],
        }
    }
}

/// The repositories of a GitHub search answer: of its first five items, those
/// with a name.
pub open spec fn github_matches(json: Json) -> Seq<(Seq<char>, Seq<char>, Seq<char>)> {
    match json_array(field(json, "items"@)) {
        Some(items) => repo_matches(
            if items.len() > 5 {
                items.take(5)
            } else {
                items
            },
        ),
        None => seq![],
    }
}

fn cat3(a: &[char], b: &[char], c: &[char]) -> (r: Vec<char>)
    ensures
        r@ == a@ + b@ + c@,
{
    let x = concat(a, b);
    concat(x.as_slice(), c)
}

/// The repositories of a GitHub search answer, offered as their latest releases.
pub fn github_search_matches(json: &Json) -> (r: Vec<AppMatch>)
    ensures
        match_views(r@) == github_matches(*json),
{
    let mut out: Vec<AppMatch> = Vec::new();
    match get_field(json, "items") {
        Some(Json::Array(items)) => {
            let n = if items.len() > 5 {
                5
            } else {
                items.len()
            };
            let ghost taken = if items@.len() > 5 {
                items@.take(5)
            } else {
                items@
            };
            assert(taken =~= items@.take(n as int));
            let mut i: usize = 0;
            while i < n
                invariant
                    i <= n <= items@.len(),
                    taken == items@.take(n as int),
                    match_views(out@) == repo_matches(taken.take(i as int)),
                decreases n - i,
            {
                assert(taken.take(i + 1).drop_last() =~= taken.take(i as int));
                assert(taken.take(i + 1).last() == items@[i as int]);
                let item = &items[i];
                let name = match field_str(item, "full_name") {
                    Some(s) => s,
                    None => String::new(),
                };
                let stars = match field_u64(item, "stargazers_count") {
                    Some(s) => s,
                    None => 0,
                };
                let nc = chars_of(name.as_str());
                if nc.len() > 0 {
                    let digits = decimal_of(stars);
                    let a = cat3(nc.as_slice(), lit(" (★").as_slice(), digits.as_slice());
                    let shown = concat(a.as_slice(), lit(")").as_slice());
                    let url = cat3(lit("https://api.github.com/repos/").as_slice(), nc.as_slice(), lit("/releases/latest").as_slice());
                    let m = AppMatch { name: string_from(shown.as_slice()), platform: string_from(lit("GitHub").as_slice()), url: string_from(url.as_slice()) };
                    let ghost prev = out@;
                    out.push(m);
                    assert(match_views(out@) =~= match_views(prev).push((m.name@, m.platform@, m.url@)));
                } else {
                    assert(repo_match(items@[i as int]) is None);
                }
                i += 1;
            }
            assert(taken.take(n as int) =~= taken);
        },
        _ => {
            assert(match_views(out@) =~= Seq::<(Seq<char>, Seq<char>, Seq<char>)>::empty());
        },
    }
    out
}


/// The release in an answer: the first of a list, or the answer itself.
pub open spec fn release_of(json: Json) -> Json {
    match json {
        Json::Array(a) => if a@.len() > 0 {
            a@[0]
        } else {
            Json::Null
        },
        _ => json,
    }
}

/// The assets of the release in an answer.
pub open spec fn assets_of(json: Json) -> Seq<Json> {
    match json_array(field(release_of(json), "assets"@)) {
        Some(a) => a,
        None => seq![],
    }
}

/// `s` without any number of trailing `pat`s (`trim_end_matches`).
pub open spec fn strip_suffixes(s: Seq<char>, pat: Seq<char>) -> Seq<char>
    decreases s.len(),
{
    if pat.len() > 0 && has_suffix(s, pat) {
        strip_suffixes(s.take(s.len() - pat.len()), pat)
    } else {
        s
    }
}

/// The file a checksum file is for: its name without `.sha256`/`.sha512`.
pub open spec fn checksum_target(name: Seq<char>) -> Seq<char> {
    strip_suffixes(strip_suffixes(name, ".sha256"@), ".sha512"@)
}

/// A name of a checksum file.
pub open spec fn is_checksum_name(name: Seq<char>) -> bool {
    has_suffix(name, ".sha256"@) || has_suffix(name, ".sha512"@)
}

/// An asset as `(name, download url)`, when it has both.
pub open spec fn asset_entry(a: Json) -> Option<(Seq<char>, Seq<char>)> {
    match (json_str(field(a, "name"@)), json_str(field(a, "browser_download_url"@))) {
        (Some(n), Some(u)) => Some((n, u)),
        _ => None,
    }
}

/// The checksum files of a release, as `(file they are for, url)`, in order.
pub open spec fn checksum_files(assets: Seq<Json>) -> Seq<(Seq<char>, Seq<char>)>
    decreases assets.len(),
{
    if assets.len() == 0 {
        seq![]
    } else {
        checksum_files(assets.drop_last()) + match asset_entry(assets.last()) {
            Some((n, u)) => if is_checksum_name(n) {
                seq![(checksum_target(n), u)]
            } else {
                seq![]
            },
            None => seq![],
        }
    }
}

/// The installable assets of a release on `d`, in release order.
pub open spec fn installable_assets(assets: Seq<Json>, d: Distro) -> Seq<(Seq<char>, Seq<char>)>
    decreases assets.len(),
{
    if assets.len() == 0 {
        seq![]
    } else {
        installable_assets(assets.drop_last(), d) + match asset_entry(assets.last()) {
            Some((n, u)) => if !is_checksum_name(n) && valid_asset(lowercase(n), d) {
                seq![(n, u)]
            } else {
                seq![]
            },
            None => seq![],
        }
    }
}

/// The checksum URL recorded last for a file.
pub open spec fn checksum_for(cs: Seq<(Seq<char>, Seq<char>)>, name: Seq<char>) -> Option<Seq<char>>
    decreases cs.len(),
{
    if cs.len() == 0 {
        None
    } else if cs.last().0 == name {
        Some(cs.last().1)
    } else {
        checksum_for(cs.drop_last(), name)
    }
}

/// The line shown for a release asset: its name, and `✓sha256` when a checksum
/// file comes with it.
pub open spec fn asset_line(name: Seq<char>, cs: Seq<(Seq<char>, Seq<char>)>) -> Seq<char> {
    if checksum_for(cs, name) is Some {
        name + " ✓sha256"@
    } else {
        name
    }
}

/// What a release offers.
pub enum ReleaseAssets {
    /// The release has no assets.
    NoAssets,
    /// None of its assets can be installed here.
    NoCompatible,
    /// Its installable assets, best format first, with their menu lines and the
    /// checksum files of the release.
    Choose { assets: Vec<(String, String)>, names: Vec<String>, checksums: Vec<(String, String)> },
}

/// `ReleaseAssets` as values: `(tag, assets, lines, checksums)` with tag 0 for
/// no assets, 1 for none compatible, 2 for a choice.
pub open spec fn release_view(r: ReleaseAssets) -> (int, Seq<(Seq<char>, Seq<char>)>, Seq<Seq<char>>, Seq<(Seq<char>, Seq<char>)>) {
    match r {
        ReleaseAssets::NoAssets => (0, seq![], seq![], seq![]),
        ReleaseAssets::NoCompatible => (1, seq![], seq![], seq![]),
        ReleaseAssets::Choose { assets, names, checksums } => (2, pair_views(assets@), string_views(names@), pair_views(checksums@)),
    }
}

/// What the release in an answer offers on `d`.
pub open spec fn release_assets_of(json: Json, d: Distro) -> (int, Seq<(Seq<char>, Seq<char>)>, Seq<Seq<char>>, Seq<(Seq<char>, Seq<char>)>) {
    let assets = assets_of(json);
    if assets.len() == 0 {
        (0, seq![], seq![], seq![])
    } else {
        let valid = installable_assets(assets, d);
        if valid.len() == 0 {
            (1, seq![], seq![], seq![])
        } else {
            let cs = checksum_files(assets);
            let sorted = sorted_by_rank_pairs(valid, d);
            (2, sorted, sorted.map_values(|a: (Seq<char>, Seq<char>)| asset_line(a.0, cs)), cs)
        }
    }
}

/// The rank order of assets given as values.
pub open spec fn sorted_by_rank_pairs(s: Seq<(Seq<char>, Seq<char>)>, d: Distro) -> Seq<(Seq<char>, Seq<char>)> {
    s.filter(|a: (Seq<char>, Seq<char>)| crate::assets::asset_rank(lowercase(a.0), d) == 0)
        + s.filter(|a: (Seq<char>, Seq<char>)| crate::assets::asset_rank(lowercase(a.0), d) == 1)
        + s.filter(|a: (Seq<char>, Seq<char>)| crate::assets::asset_rank(lowercase(a.0), d) == 2)
}


/// Filtering commutes with taking views, for a predicate that reads views.
pub proof fn lemma_filter_views(v: Seq<(String, String)>, k: int, d: Distro)
    ensures
        pair_views(v.filter(|a: (String, String)| crate::assets::rank_of(a, d) == k))
            == pair_views(v).filter(|a: (Seq<char>, Seq<char>)| crate::assets::asset_rank(lowercase(a.0), d) == k),
    decreases v.len(),
{
    reveal_with_fuel(Seq::filter, 1);
    if v.len() > 0 {
        lemma_filter_views(v.drop_last(), k, d);
        assert(pair_views(v).drop_last() =~= pair_views(v.drop_last()));
        let f = |a: (String, String)| crate::assets::rank_of(a, d) == k;
        if f(v.last()) {
            assert(pair_views(v.filter(f)) =~= pair_views(v.drop_last().filter(f)).push((v.last().0@, v.last().1@)));
        }
    } else {
        assert(pair_views(v.filter(|a: (String, String)| crate::assets::rank_of(a, d) == k)) =~= Seq::<(Seq<char>, Seq<char>)>::empty());
    }
}

fn strip_suffixes_of(s: &[char], pat: &str) -> (r: Vec<char>)
    ensures
        r@ == strip_suffixes(s@, pat@),
{
    let p = lit(pat);
    let mut k = s.len();
    assert(s@.take(k as int) =~= s@);
    while p.len() > 0 && k >= p.len() && crate::text::matches_at(s, k - p.len(), p.as_slice())
        invariant
            k <= s@.len(),
            p@ == pat@,
            strip_suffixes(s@, pat@) == strip_suffixes(s@.take(k as int), pat@),
        decreases k,
    {
        proof {
            let t = s@.take(k as int);
            assert(t.subrange(t.len() - p@.len(), t.len() as int) =~= s@.subrange(k - p@.len(), k as int));
            assert(t.take(t.len() - p@.len()) =~= s@.take(k - p@.len()));
        }
        k = k - p.len();
    }
    proof {
        let t = s@.take(k as int);
        if p@.len() > 0 && k >= p@.len() {
            assert(t.subrange(t.len() - p@.len(), t.len() as int) =~= s@.subrange(k - p@.len(), k as int));
        }
    }
    let r = crate::text::slice_chars(s, 0, k);
    assert(r@ =~= s@.take(k as int));
    r
}

fn lookup_checksum(cs: &Vec<(String, String)>, name: &String) -> (r: Option<String>)
    ensures
        opt_view(r) == checksum_for(pair_views(cs@), name@),
{
    let mut k = cs.len();
    assert(pair_views(cs@).take(k as int) =~= pair_views(cs@));
    while k > 0
        invariant
            k <= cs@.len(),
            checksum_for(pair_views(cs@), name@) == checksum_for(pair_views(cs@).take(k as int), name@),
        decreases k,
    {
        let ghost t = pair_views(cs@).take(k as int);
        assert(t.last() == (cs@[k - 1].0@, cs@[k - 1].1@));
        if same_string(&cs[k - 1].0, name) {
            return Some(cs[k - 1].1.clone());
        }
        assert(t.drop_last() =~= pair_views(cs@).take(k - 1));
        k -= 1;
    }
    None
}

/// What the release in a GitHub answer offers on `distro`: its installable
/// assets in rank order with their menu lines, and its checksum files.
pub fn release_assets(json: &Json, distro: &Distro) -> (r: ReleaseAssets)
    ensures
        release_view(r) == release_assets_of(*json, *distro),
{
    let release: &Json = match json {
        Json::Array(a) => if a.len() > 0 {
            &a[0]
        } else {
            &Json::Null
        },
        _ => json,
    };
    assert(*release == release_of(*json));
    let assets: &Vec<Json> = match get_field(release, "assets") {
        Some(Json::Array(a)) => a,
        _ => {
            assert(assets_of(*json) =~= Seq::<Json>::empty());
            return ReleaseAssets::NoAssets;
        },
    };
    assert(assets@ == assets_of(*json));
    if assets.len() == 0 {
        return ReleaseAssets::NoAssets;
    }
    let mut valid: Vec<(String, String)> = Vec::new();
    let mut checksums: Vec<(String, String)> = Vec::new();
    let mut i: usize = 0;
    while i < assets.len()
        invariant
            i <= assets@.len(),
            pair_views(valid@) == installable_assets(assets@.take(i as int), *distro),
            pair_views(checksums@) == checksum_files(assets@.take(i as int)),
        decreases assets@.len() - i,
    {
        assert(assets@.take(i + 1).drop_last() =~= assets@.take(i as int));
        assert(assets@.take(i + 1).last() == assets@[i as int]);
        let a = &assets[i];
        let ghost pv = valid@;
        let ghost pc = checksums@;
        match (field_str(a, "name"), field_str(a, "browser_download_url")) {
            (Some(n), Some(u)) => {
                let nc = chars_of(n.as_str());
                let s256 = lit(".sha256");
                let s512 = lit(".sha512");
                if ends_with(nc.as_slice(), s256.as_slice()) || ends_with(nc.as_slice(), s512.as_slice()) {
                    let t1 = strip_suffixes_of(nc.as_slice(), ".sha256");
                    let t2 = strip_suffixes_of(t1.as_slice(), ".sha512");
                    let t = string_from(t2.as_slice());
                    checksums.push((t, u));
                    assert(pair_views(checksums@) =~= pair_views(pc).push((t@, u@)));
                    assert(pair_views(valid@) =~= pair_views(pv) + Seq::<(Seq<char>, Seq<char>)>::empty());
                } else {
                    assert(pair_views(checksums@) =~= pair_views(pc) + Seq::<(Seq<char>, Seq<char>)>::empty());
                    if is_valid_asset(n.as_str(), distro) {
                        let ghost nv = n@;
                        let ghost uv = u@;
                        valid.push((n, u));
                        assert(pair_views(valid@) =~= pair_views(pv).push((nv, uv)));
                    } else {
                        assert(pair_views(valid@) =~= pair_views(pv) + Seq::<(Seq<char>, Seq<char>)>::empty());
                    }
                }
            },
            _ => {
                assert(pair_views(checksums@) =~= pair_views(pc) + Seq::<(Seq<char>, Seq<char>)>::empty());
                assert(pair_views(valid@) =~= pair_views(pv) + Seq::<(Seq<char>, Seq<char>)>::empty());
            },
        }
        i += 1;
    }
    assert(assets@.take(assets@.len() as int) =~= assets@);
    if valid.len() == 0 {
        return ReleaseAssets::NoCompatible;
    }
    let ghost unsorted = valid@;
    sort_assets(&mut valid, distro);
    proof {
        lemma_filter_views(unsorted, 0, *distro);
        lemma_filter_views(unsorted, 1, *distro);
        lemma_filter_views(unsorted, 2, *distro);
        let a = unsorted.filter(|x: (String, String)| crate::assets::rank_of(x, *distro) == 0);
        let b = unsorted.filter(|x: (String, String)| crate::assets::rank_of(x, *distro) == 1);
        let c = unsorted.filter(|x: (String, String)| crate::assets::rank_of(x, *distro) == 2);
        assert(pair_views(a + b + c) =~= pair_views(a) + pair_views(b) + pair_views(c));
    }
    let ghost cs = pair_views(checksums@);
    let mut names: Vec<String> = Vec::new();
    let mut j: usize = 0;
    while j < valid.len()
        invariant
            j <= valid@.len(),
            cs == pair_views(checksums@),
            string_views(names@) == pair_views(valid@).take(j as int).map_values(|a: (Seq<char>, Seq<char>)| asset_line(a.0, cs)),
        decreases valid@.len() - j,
    {
        let has = lookup_checksum(&checksums, &valid[j].0);
        let line: String = if has.is_some() {
            let nc = chars_of(valid[j].0.as_str());
            let mark = lit(" ✓sha256");
            let l = concat(nc.as_slice(), mark.as_slice());
            string_from(l.as_slice())
        } else {
            valid[j].0.clone()
        };
        let ghost prev = names@;
        names.push(line);
        proof {
            assert(pair_views(valid@)[j as int] == (valid@[j as int].0@, valid@[j as int].1@));
            assert(pair_views(valid@).take(j + 1) =~= pair_views(valid@).take(j as int).push(pair_views(valid@)[j as int]));
            assert(string_views(names@) =~= string_views(prev).push(line@));
        }
        j += 1;
    }
    assert(pair_views(valid@).take(valid@.len() as int) =~= pair_views(valid@));
    ReleaseAssets::Choose { assets: valid, names, checksums }
}

/// What is installed from a release: the chosen asset, the application's short
/// name (the last part of the repository label) and its checksum file.
pub struct ReleaseInstall {
    pub file_name: String,
    pub url: String,
    pub app_name: String,
    pub checksum_url: Option<String>,
}

/// The install of the `sel`-th offered asset of a release.
pub fn release_install(assets: &Vec<(String, String)>, checksums: &Vec<(String, String)>, sel: usize, repo_label: &str) -> (r: ReleaseInstall)
    requires
        sel < assets@.len(),
    ensures
        r.file_name@ == assets@[sel as int].0@,
        r.url@ == assets@[sel as int].1@,
        r.app_name@ == crate::text::after_last(repo_label@, '/'),
        opt_view(r.checksum_url) == checksum_for(pair_views(checksums@), assets@[sel as int].0@),
{
    let file_name = assets[sel].0.clone();
    let url = assets[sel].1.clone();
    let app_name = crate::install::app_name_from_repo(repo_label);
    let checksum_url = lookup_checksum(checksums, &file_name);
    ReleaseInstall { file_name, url, app_name, checksum_url }
}

} // verus!
