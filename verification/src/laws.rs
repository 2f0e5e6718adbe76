//! Properties of the library as a whole, proved over the specifications its
//! functions are held to.
use vstd::prelude::*;
use crate::Distro;
use crate::assets::{
    accepted_format, asset_rank, file_name, first_max_index, of_rank, rank_of, sorted_by_rank,
    valid_asset,
};
use crate::direct::{direct_step, ActionView, Phase, SessionView};
use crate::scrape::{
    add_install, add_installs, add_link, add_links, attr, block_candidate, block_candidates,
    command_candidate, command_candidates, curl_installs, download_links, first_match, group,
    matches_of, opt_cand, page_install_candidates, script_link, script_links, selected, whole,
    PIPE_INSTALL_PATTERN, PROCESS_INSTALL_PATTERN, SHELL_C_INSTALL_PATTERN, URL_PATTERN,
};
use crate::urls::resolved;
use crate::search::{
    insert_by_score, sort_by_score, Scored, bing_results, add_bing, add_scored, ddg_results,
    web_candidate, web_results, web_score, names_tutorial_site, any_word_in, sld_matches,
};
use crate::html::ElementView;
use crate::github::{assets_of, installable_assets, is_checksum_name, release_assets_of, sorted_by_rank_pairs, Json};
use crate::text::{has_prefix, join_with, trim, is_infix, ascii_lowered, is_ascii_text, after_last, before_char, find_char, has_suffix, hex_lower, lemma_find_char, lowercase};
use crate::assets::{ends, link_scores};
use crate::install::{download_line, menu_choices, menu_default, menu_names};

verus! {

/// Every installable asset is in a format that installs on the distribution.
pub proof fn law_valid_assets_install_here(n: Seq<char>, d: Distro)
    requires
        valid_asset(n, d),
    ensures
        accepted_format(n, d),
{
}

/// A name that ends with `p` ends with `p`'s last character.
proof fn lemma_suffix_last(n: Seq<char>, p: Seq<char>)
    requires
        has_suffix(n, p),
        p.len() > 0,
    ensures
        n.last() == p.last(),
{
    assert(n.subrange(n.len() - p.len(), n.len() as int)[p.len() - 1] == n.last());
}

/// The other distribution's native package is never offered: no `.rpm` on
/// Ubuntu, no `.deb` on Fedora, neither where the distribution is unknown.
pub proof fn law_no_foreign_package_format(n: Seq<char>)
    ensures
        valid_asset(n, Distro::Ubuntu) ==> !ends(n, ".rpm"),
        valid_asset(n, Distro::Fedora) ==> !ends(n, ".deb"),
        valid_asset(n, Distro::Unknown) ==> !ends(n, ".deb") && !ends(n, ".rpm"),
{
    reveal_strlit(".rpm");
    reveal_strlit(".deb");
    reveal_strlit(".appimage");
    reveal_strlit(".tar.gz");
    reveal_strlit(".tar.xz");
    reveal_strlit(".tar.bz2");
    reveal_strlit(".zip");
    let lits = seq![".rpm"@, ".deb"@, ".appimage"@, ".tar.gz"@, ".tar.xz"@, ".tar.bz2"@, ".zip"@];
    assert forall|k: int| 0 <= k < lits.len() && has_suffix(n, #[trigger] lits[k]) implies n.last() == lits[k].last() by {
        lemma_suffix_last(n, lits[k]);
    }
    assert(lits[0] == ".rpm"@ && lits[1] == ".deb"@ && lits[2] == ".appimage"@ && lits[3] == ".tar.gz"@);
    assert(lits[4] == ".tar.xz"@ && lits[5] == ".tar.bz2"@ && lits[6] == ".zip"@);
}

/// Asset validity ignores letter case for ASCII names: the lower-cased form of
/// an ASCII name is ASCII, and lower-casing it again changes nothing, so a name
/// and its lower-cased form are judged on the same text.
pub proof fn law_asset_validity_ignores_ascii_case(n: Seq<char>, d: Distro)
    requires
        is_ascii_text(n),
    ensures
        is_ascii_text(ascii_lowered(n)),
        ascii_lowered(ascii_lowered(n)) == ascii_lowered(n),
        valid_asset(ascii_lowered(ascii_lowered(n)), d) == valid_asset(ascii_lowered(n), d),
{
    assert forall|i: int| 0 <= i < n.len() implies (#[trigger] ascii_lowered(n)[i] as u32) < 128 by {
        assert((n[i] as u32) < 128);
    }
    assert(ascii_lowered(ascii_lowered(n)) =~= ascii_lowered(n));
}

/// Ranks are 0, 1 or 2.
pub proof fn lemma_rank_range(n: Seq<char>, d: Distro)
    ensures
        0 <= asset_rank(n, d) <= 2,
{
}

/// Sorting by rank puts native packages first, then AppImages, then the rest:
/// ranks never decrease along the result.
pub proof fn law_sorted_assets_in_rank_order(s: Seq<(String, String)>, d: Distro, i: int, j: int)
    requires
        0 <= i < j < sorted_by_rank(s, d).len(),
    ensures
        rank_of(sorted_by_rank(s, d)[i], d) <= rank_of(sorted_by_rank(s, d)[j], d),
{
    let a = of_rank(s, d, 0);
    let b = of_rank(s, d, 1);
    let c = of_rank(s, d, 2);
    let r = sorted_by_rank(s, d);
    assert(r == a + b + c);
    let rank_at = |k: int|
        if k < a.len() {
            0int
        } else if k < a.len() + b.len() {
            1int
        } else {
            2int
        };
    assert forall|k: int| 0 <= k < r.len() implies rank_of(#[trigger] r[k], d) == rank_at(k) by {
        if k < a.len() {
            assert(r[k] == a[k]);
            assert(a.contains(a[k]));
        } else if k < a.len() + b.len() {
            assert(r[k] == b[k - a.len()]);
            assert(b.contains(b[k - a.len()]));
        } else {
            assert(r[k] == c[k - a.len() - b.len()]);
            assert(c.contains(c[k - a.len() - b.len()]));
        }
    }
    assert(rank_of(r[i], d) == rank_at(i));
    assert(rank_of(r[j], d) == rank_at(j));
}

/// Filtering twice by the same rank changes nothing; by two ranks, leaves nothing.
proof fn lemma_filter_rank_twice(s: Seq<(String, String)>, d: Distro, k: int, m: int)
    ensures
        of_rank(of_rank(s, d, k), d, m) == if k == m {
            of_rank(s, d, k)
        } else {
            Seq::<(String, String)>::empty()
        },
    decreases s.len(),
{
    reveal_with_fuel(Seq::filter, 1);
    if s.len() > 0 {
        lemma_filter_rank_twice(s.drop_last(), d, k, m);
        let f = |a: (String, String)| rank_of(a, d) == k;
        if f(s.last()) {
            assert(s.filter(f).drop_last() =~= s.drop_last().filter(f));
        }
    } else {
        assert(of_rank(of_rank(s, d, k), d, m) =~= Seq::<(String, String)>::empty());
        assert(of_rank(s, d, k) =~= Seq::<(String, String)>::empty());
    }
}

/// Filtering the rank order by one rank gives that rank's assets.
proof fn lemma_rank_of_sorted(s: Seq<(String, String)>, d: Distro, m: int)
    requires
        0 <= m <= 2,
    ensures
        of_rank(sorted_by_rank(s, d), d, m) == of_rank(s, d, m),
{
    let a = of_rank(s, d, 0);
    let b = of_rank(s, d, 1);
    let c = of_rank(s, d, 2);
    let f = |x: (String, String)| rank_of(x, d) == m;
    Seq::filter_distributes_over_add(a + b, c, f);
    Seq::filter_distributes_over_add(a, b, f);
    lemma_filter_rank_twice(s, d, 0, m);
    lemma_filter_rank_twice(s, d, 1, m);
    lemma_filter_rank_twice(s, d, 2, m);
    assert(sorted_by_rank(s, d) == a + b + c);
    if m == 0 {
        assert(of_rank(a + b + c, d, m) =~= a);
    } else if m == 1 {
        assert(of_rank(a + b + c, d, m) =~= b);
    } else {
        assert(of_rank(a + b + c, d, m) =~= c);
    }
}

/// Ordering by rank again changes nothing.
pub proof fn law_sort_assets_idempotent(s: Seq<(String, String)>, d: Distro)
    ensures
        sorted_by_rank(sorted_by_rank(s, d), d) == sorted_by_rank(s, d),
{
    lemma_rank_of_sorted(s, d, 0);
    lemma_rank_of_sorted(s, d, 1);
    lemma_rank_of_sorted(s, d, 2);
}

/// Ordering by rank keeps every asset, and adds none: the result holds each
/// asset as many times as the input.
pub proof fn law_sort_assets_permutes(s: Seq<(String, String)>, d: Distro)
    ensures
        sorted_by_rank(s, d).to_multiset() == s.to_multiset(),
    decreases s.len(),
{
    broadcast use vstd::multiset::group_multiset_axioms, vstd::seq_lib::group_to_multiset_ensures;
    reveal_with_fuel(Seq::filter, 1);
    if s.len() == 0 {
        assert(sorted_by_rank(s, d) =~= s);
    } else {
        let t = s.drop_last();
        let x = s.last();
        law_sort_assets_permutes(t, d);
        assert(s =~= t.push(x));
        lemma_rank_range(lowercase(x.0@), d);
        let a = of_rank(t, d, 0);
        let b = of_rank(t, d, 1);
        let c = of_rank(t, d, 2);
        vstd::seq_lib::lemma_multiset_commutative(a, b);
        vstd::seq_lib::lemma_multiset_commutative(a + b, c);
        if rank_of(x, d) == 0 {
            assert(sorted_by_rank(s, d) == a.push(x) + b + c);
            vstd::seq_lib::lemma_multiset_commutative(a.push(x), b);
            vstd::seq_lib::lemma_multiset_commutative(a.push(x) + b, c);
        } else if rank_of(x, d) == 1 {
            assert(sorted_by_rank(s, d) == a + b.push(x) + c);
            vstd::seq_lib::lemma_multiset_commutative(a, b.push(x));
            vstd::seq_lib::lemma_multiset_commutative(a + b.push(x), c);
        } else {
            assert(sorted_by_rank(s, d) == a + b + c.push(x));
            vstd::seq_lib::lemma_multiset_commutative(a + b, c.push(x));
        }
    }
}

/// The package picked by default scores highest, and every package before it
/// scores lower.
pub proof fn law_best_package_is_first_highest(s: Seq<int>)
    requires
        s.len() > 0,
    ensures
        0 <= first_max_index(s) < s.len(),
        forall|j: int| 0 <= j < s.len() ==> #[trigger] s[j] <= s[first_max_index(s)],
        forall|j: int| 0 <= j < first_max_index(s) ==> #[trigger] s[j] < s[first_max_index(s)],
    decreases s.len(),
{
    crate::assets::lemma_first_max_bound(s);
    if s.len() > 1 {
        let t = s.drop_last();
        law_best_package_is_first_highest(t);
        let j0 = first_max_index(t);
        assert(first_max_index(s) == if s.last() > s[j0] { s.len() - 1 } else { j0 });
        assert forall|j: int| 0 <= j < s.len() implies #[trigger] s[j] <= s[first_max_index(s)] by {
            if j < t.len() {
                assert(s[j] == t[j]);
                assert(t[j] <= t[j0]);
            }
        }
        assert forall|j: int| 0 <= j < first_max_index(s) implies #[trigger] s[j] < s[first_max_index(s)] by {
            assert(s[j] == t[j]);
            if first_max_index(s) == j0 {
                assert(t[j] < t[j0]);
            } else {
                assert(t[j] <= t[j0]);
            }
        }
    }
}

/// What every element of a sequence meets, every element of a filtering of it meets.
proof fn lemma_filter_keeps<A>(s: Seq<A>, f: spec_fn(A) -> bool, p: spec_fn(A) -> bool)
    requires
        forall|i: int| 0 <= i < s.len() ==> p(#[trigger] s[i]),
    ensures
        forall|i: int| 0 <= i < s.filter(f).len() ==> p(#[trigger] s.filter(f)[i]),
    decreases s.len(),
{
    reveal_with_fuel(Seq::filter, 1);
    if s.len() > 0 {
        let t = s.drop_last();
        assert forall|i: int| 0 <= i < t.len() implies p(#[trigger] t[i]) by {
            assert(t[i] == s[i]);
        }
        lemma_filter_keeps(t, f, p);
        assert forall|i: int| 0 <= i < s.filter(f).len() implies p(#[trigger] s.filter(f)[i]) by {
            if f(s.last()) {
                assert(s.filter(f) == t.filter(f).push(s.last()));
                if i < t.filter(f).len() {
                    assert(s.filter(f)[i] == t.filter(f)[i]);
                } else {
                    assert(s[s.len() - 1] == s.last());
                }
            } else {
                assert(s.filter(f) == t.filter(f));
            }
        }
    }
}

/// The installable assets of a release are valid here and no checksum files.
proof fn lemma_installable_ok(assets: Seq<Json>, d: Distro)
    ensures
        forall|i: int|
            0 <= i < installable_assets(assets, d).len() ==> valid_asset(lowercase((#[trigger] installable_assets(assets, d)[i]).0), d)
                && !is_checksum_name(installable_assets(assets, d)[i].0),
    decreases assets.len(),
{
    if assets.len() > 0 {
        lemma_installable_ok(assets.drop_last(), d);
        let prev = installable_assets(assets.drop_last(), d);
        let all = installable_assets(assets, d);
        assert forall|i: int| 0 <= i < all.len() implies valid_asset(lowercase((#[trigger] all[i]).0), d) && !is_checksum_name(all[i].0) by {
            if i < prev.len() {
                assert(all[i] == prev[i]);
            }
        }
    }
}

/// A release offers something only where it has installable assets: each is
/// valid on the distribution and no checksum file, native packages come first,
/// then AppImages, then the rest, and each has its menu line.
pub proof fn law_release_offers_installable(json: Json, d: Distro)
    ensures
        release_assets_of(json, d).0 == 2 ==> {
            let r = release_assets_of(json, d);
            &&& r.1.len() > 0
            &&& r.2.len() == r.1.len()
            &&& forall|i: int| 0 <= i < r.1.len() ==> valid_asset(lowercase((#[trigger] r.1[i]).0), d) && !is_checksum_name(r.1[i].0)
            &&& forall|i: int, j: int|
                0 <= i < j < r.1.len() ==> asset_rank(lowercase((#[trigger] r.1[i]).0), d) <= asset_rank(lowercase((#[trigger] r.1[j]).0), d)
        },
{
    broadcast use vstd::seq_lib::group_filter_ensures;

    if release_assets_of(json, d).0 == 2 {
        let valid = installable_assets(assets_of(json), d);
        lemma_installable_ok(assets_of(json), d);
        let p = |a: (Seq<char>, Seq<char>)| valid_asset(lowercase(a.0), d) && !is_checksum_name(a.0);
        assert forall|i: int| 0 <= i < valid.len() implies p(#[trigger] valid[i]) by {}
        let f0 = |a: (Seq<char>, Seq<char>)| asset_rank(lowercase(a.0), d) == 0;
        let f1 = |a: (Seq<char>, Seq<char>)| asset_rank(lowercase(a.0), d) == 1;
        let f2 = |a: (Seq<char>, Seq<char>)| asset_rank(lowercase(a.0), d) == 2;
        let a = valid.filter(f0);
        let b = valid.filter(f1);
        let c = valid.filter(f2);
        lemma_filter_keeps(valid, f0, p);
        lemma_filter_keeps(valid, f1, p);
        lemma_filter_keeps(valid, f2, p);
        let r = sorted_by_rank_pairs(valid, d);
        assert(r == a + b + c);
        let x = valid.last();
        lemma_rank_range(lowercase(x.0), d);
        assert(valid[valid.len() - 1] == x);
        if f0(x) {
            valid.lemma_filter_contains(f0, valid.len() - 1);
        } else if f1(x) {
            valid.lemma_filter_contains(f1, valid.len() - 1);
        } else {
            valid.lemma_filter_contains(f2, valid.len() - 1);
        }
        let rank_at = |k: int|
            if k < a.len() {
                0int
            } else if k < a.len() + b.len() {
                1int
            } else {
                2int
            };
        assert forall|k: int| 0 <= k < r.len() implies p(#[trigger] r[k]) && asset_rank(lowercase(r[k].0), d) == rank_at(k) by {
            if k < a.len() {
                assert(r[k] == a[k]);
                valid.lemma_filter_pred(f0, k);
            } else if k < a.len() + b.len() {
                assert(r[k] == b[k - a.len()]);
                valid.lemma_filter_pred(f1, k - a.len());
            } else {
                assert(r[k] == c[k - a.len() - b.len()]);
                valid.lemma_filter_pred(f2, k - a.len() - b.len());
            }
        }
        assert forall|i: int, j: int| 0 <= i < j < r.len() implies asset_rank(lowercase((#[trigger] r[i]).0), d) <= asset_rank(lowercase((#[trigger] r[j]).0), d) by {
            assert(p(r[i]) && p(r[j]));
        }
    }
}

/// The menu offers one choice per line; when there are downloads, the line
/// selected first is a download, the one marked as the best.
pub proof fn law_menu_default_is_best_download(links: Seq<(String, String)>, curls: Seq<(Seq<char>, Seq<char>)>, d: Distro)
    ensures
        menu_names(links, curls, d).len() == menu_choices(links, curls, d).len(),
        menu_choices(links, curls, d).len() == links.len() + curls.len(),
        links.len() > 0 ==> {
            let k = menu_default(links, d);
            &&& 0 <= k < links.len()
            &&& menu_choices(links, curls, d)[k].0
            &&& menu_names(links, curls, d)[k] == download_line(sorted_by_rank(links, d)[k].0@, true)
        },
{
    broadcast use vstd::seq_lib::group_to_multiset_ensures;
    law_sort_assets_permutes(links, d);
    let sorted = sorted_by_rank(links, d);
    assert(sorted.len() == links.len()) by {
        vstd::seq_lib::to_multiset_len(sorted);
        vstd::seq_lib::to_multiset_len(links);
    }
    crate::assets::lemma_first_max_bound(link_scores(sorted, d));
}

/// A file name taken from a URL holds no `/` and no `?`.
pub proof fn law_file_name_is_plain(url: Seq<char>)
    ensures
        forall|i: int| 0 <= i < file_name(url).len() ==> file_name(url)[i] != '/' && file_name(url)[i] != '?',
{
    lemma_after_last_no(url, '/');
    let t = after_last(url, '/');
    lemma_find_char(t, '?');
}

/// `after_last` holds no `c`.
pub proof fn lemma_after_last_no(s: Seq<char>, c: char)
    ensures
        forall|i: int| 0 <= i < after_last(s, c).len() ==> after_last(s, c)[i] != c,
    decreases s.len(),
{
    if s.len() > 0 && s.last() != c {
        lemma_after_last_no(s.drop_last(), c);
        let r = after_last(s.drop_last(), c);
        assert forall|i: int| 0 <= i < r.push(s.last()).len() implies r.push(s.last())[i] != c by {
            if i < r.len() {
                assert(r.push(s.last())[i] == r[i]);
            }
        }
    }
}

/// No two downloads found on a page share a file name, each is named after
/// its URL, and each is an installable asset.
pub proof fn law_download_links_distinct(links: Seq<(Seq<char>, Seq<char>)>, cands: Seq<Seq<char>>, d: Distro)
    requires
        links.len() == 0,
    ensures
        forall|i: int, j: int|
            0 <= i < j < add_links(links, cands, d).len() ==> #[trigger] add_links(links, cands, d)[i].0
                != #[trigger] add_links(links, cands, d)[j].0,
        forall|i: int|
            0 <= i < add_links(links, cands, d).len() ==> (#[trigger] add_links(links, cands, d)[i]).0
                == file_name(add_links(links, cands, d)[i].1) && valid_asset(lowercase(add_links(links, cands, d)[i].0), d),
    decreases cands.len(),
{
    if cands.len() > 0 {
        law_download_links_distinct(links, cands.drop_last(), d);
        let prev = add_links(links, cands.drop_last(), d);
        let next = add_link(prev, cands.last(), d);
        assert(add_links(links, cands, d) == next);
        assert forall|i: int, j: int| 0 <= i < j < next.len() implies #[trigger] next[i].0 != #[trigger] next[j].0 by {
            if j == prev.len() && next.len() > prev.len() {
                assert(next[i] == prev[i]);
            } else {
                assert(next[i] == prev[i]);
                assert(next[j] == prev[j]);
            }
        }
        assert forall|i: int| 0 <= i < next.len() implies (#[trigger] next[i]).0 == file_name(next[i].1) && valid_asset(lowercase(next[i].0), d) by {
            if i < prev.len() {
                assert(next[i] == prev[i]);
            }
        }
    }
}

/// No two install commands found on a page share a script URL.
pub proof fn law_install_commands_distinct(cands: Seq<(Seq<char>, Seq<char>)>)
    ensures
        forall|i: int, j: int|
            0 <= i < j < add_installs(seq![], cands).len() ==> #[trigger] add_installs(seq![], cands)[i].0
                != #[trigger] add_installs(seq![], cands)[j].0,
    decreases cands.len(),
{
    if cands.len() > 0 {
        law_install_commands_distinct(cands.drop_last());
        let prev = add_installs(seq![], cands.drop_last());
        let next = add_install(prev, cands.last());
        assert forall|i: int, j: int| 0 <= i < j < next.len() implies #[trigger] next[i].0 != #[trigger] next[j].0 by {
            assert(next[i] == prev[i]);
            if j < prev.len() {
                assert(next[j] == prev[j]);
            }
        }
    }
}

/// Inserting into a list sorted by descending score keeps it sorted.
proof fn lemma_insert_sorted(s: Seq<Scored>, x: Scored)
    requires
        forall|i: int, j: int| 0 <= i < j < s.len() ==> #[trigger] s[i].0 >= #[trigger] s[j].0,
    ensures
        forall|i: int, j: int| 0 <= i < j < insert_by_score(s, x).len() ==> #[trigger] insert_by_score(s, x)[i].0 >= #[trigger] insert_by_score(s, x)[j].0,
        insert_by_score(s, x).len() == s.len() + 1,
    decreases s.len(),
{
    if s.len() > 0 && !(s[0].0 < x.0) {
        let t = s.drop_first();
        assert forall|i: int, j: int| 0 <= i < j < t.len() implies #[trigger] t[i].0 >= #[trigger] t[j].0 by {
            assert(t[i] == s[i + 1]);
            assert(t[j] == s[j + 1]);
        }
        lemma_insert_sorted(t, x);
        let r = insert_by_score(s, x);
        let rt = insert_by_score(t, x);
        assert(r == seq![s[0]] + rt);
        assert forall|i: int, j: int| 0 <= i < j < r.len() implies #[trigger] r[i].0 >= #[trigger] r[j].0 by {
            if i == 0 {
                if rt.len() > 0 {
                    lemma_insert_members(t, x, j - 1);
                }
                assert(r[j] == rt[j - 1]);
            } else {
                assert(r[i] == rt[i - 1]);
                assert(r[j] == rt[j - 1]);
            }
        }
    } else if s.len() > 0 {
        let r = insert_by_score(s, x);
        assert(r == seq![x] + s);
        assert forall|i: int, j: int| 0 <= i < j < r.len() implies #[trigger] r[i].0 >= #[trigger] r[j].0 by {
            if i == 0 {
                assert(r[j] == s[j - 1]);
                assert(s[0].0 >= s[j - 1].0 || j - 1 == 0);
            } else {
                assert(r[i] == s[i - 1]);
                assert(r[j] == s[j - 1]);
            }
        }
    }
}

/// What is in an insertion: `x` or an element of the list.
proof fn lemma_insert_members(s: Seq<Scored>, x: Scored, k: int)
    requires
        0 <= k < insert_by_score(s, x).len(),
        insert_by_score(s, x).len() == s.len() + 1,
    ensures
        insert_by_score(s, x)[k] == x || exists|m: int| 0 <= m < s.len() && insert_by_score(s, x)[k] == #[trigger] s[m],
    decreases s.len(),
{
    if s.len() > 0 && !(s[0].0 < x.0) {
        let t = s.drop_first();
        if k > 0 {
            lemma_insert_len(t, x);
            lemma_insert_members(t, x, k - 1);
            if insert_by_score(t, x)[k - 1] != x {
                let m = choose|m: int| 0 <= m < t.len() && insert_by_score(t, x)[k - 1] == #[trigger] t[m];
                assert(t[m] == s[m + 1]);
            }
        } else {
            assert(insert_by_score(s, x)[0] == s[0]);
        }
    } else if s.len() > 0 {
        if k > 0 {
            assert(insert_by_score(s, x)[k] == s[k - 1]);
        }
    }
}

/// An insertion is one longer.
proof fn lemma_insert_len(s: Seq<Scored>, x: Scored)
    ensures
        insert_by_score(s, x).len() == s.len() + 1,
    decreases s.len(),
{
    if s.len() > 0 && !(s[0].0 < x.0) {
        lemma_insert_len(s.drop_first(), x);
    }
}

/// Search results come best first: scores never increase along them.
pub proof fn law_results_best_first(s: Seq<Scored>)
    ensures
        forall|i: int, j: int| 0 <= i < j < sort_by_score(s).len() ==> #[trigger] sort_by_score(s)[i].0 >= #[trigger] sort_by_score(s)[j].0,
        sort_by_score(s).len() == s.len(),
    decreases s.len(),
{
    if s.len() > 0 {
        law_results_best_first(s.drop_last());
        lemma_insert_sorted(sort_by_score(s.drop_last()), s.last());
    }
}

/// Where `insert_by_score` puts `x`: at some position, the rest kept in order.
proof fn lemma_insert_split(s: Seq<Scored>, x: Scored) -> (j: int)
    ensures
        0 <= j <= s.len(),
        insert_by_score(s, x) == s.take(j) + seq![x] + s.skip(j),
    decreases s.len(),
{
    if s.len() == 0 || s[0].0 < x.0 {
        assert(s.take(0) + seq![x] + s.skip(0) =~= seq![x] + s);
        0
    } else {
        let t = s.drop_first();
        let k = lemma_insert_split(t, x);
        assert(seq![s[0]] + (t.take(k) + seq![x] + t.skip(k)) =~= s.take(k + 1) + seq![x] + s.skip(k + 1));
        k + 1
    }
}

/// Inserting a result with a new URL into results with distinct URLs keeps
/// them distinct.
proof fn lemma_insert_distinct(s: Seq<Scored>, x: Scored)
    requires
        forall|i: int, j: int| 0 <= i < j < s.len() ==> #[trigger] s[i].2 != #[trigger] s[j].2,
        forall|i: int| 0 <= i < s.len() ==> #[trigger] s[i].2 != x.2,
    ensures
        forall|i: int, j: int|
            0 <= i < j < insert_by_score(s, x).len() ==> #[trigger] insert_by_score(s, x)[i].2
                != #[trigger] insert_by_score(s, x)[j].2,
{
    let k = lemma_insert_split(s, x);
    let r = insert_by_score(s, x);
    assert forall|i: int, j: int| 0 <= i < j < r.len() implies #[trigger] r[i].2 != #[trigger] r[j].2 by {
        if i < k {
            assert(r[i] == s[i]);
        } else if i > k {
            assert(r[i] == s[i - 1]);
        }
        if j < k {
            assert(r[j] == s[j]);
        } else if j > k {
            assert(r[j] == s[j - 1]);
        }
    }
}

/// Every result in the ranking is one of the results ranked.
proof fn lemma_sort_members(s: Seq<Scored>, k: int)
    requires
        0 <= k < sort_by_score(s).len(),
    ensures
        exists|m: int| 0 <= m < s.len() && sort_by_score(s)[k] == #[trigger] s[m],
    decreases s.len(),
{
    let t = s.drop_last();
    law_results_best_first(t);
    lemma_insert_len(sort_by_score(t), s.last());
    lemma_insert_members(sort_by_score(t), s.last(), k);
    if sort_by_score(s)[k] == s.last() {
        assert(s[s.len() - 1] == s.last());
    } else {
        let m = choose|m: int| 0 <= m < sort_by_score(t).len() && sort_by_score(s)[k] == #[trigger] sort_by_score(t)[m];
        lemma_sort_members(t, m);
        let m2 = choose|m2: int| 0 <= m2 < t.len() && sort_by_score(t)[m] == #[trigger] t[m2];
        assert(t[m2] == s[m2]);
    }
}

/// Ranking results with distinct URLs keeps them distinct.
proof fn lemma_sort_distinct(s: Seq<Scored>)
    requires
        forall|i: int, j: int| 0 <= i < j < s.len() ==> #[trigger] s[i].2 != #[trigger] s[j].2,
    ensures
        forall|i: int, j: int|
            0 <= i < j < sort_by_score(s).len() ==> #[trigger] sort_by_score(s)[i].2 != #[trigger] sort_by_score(s)[j].2,
    decreases s.len(),
{
    if s.len() > 0 {
        let t = s.drop_last();
        assert forall|i: int, j: int| 0 <= i < j < t.len() implies #[trigger] t[i].2 != #[trigger] t[j].2 by {
            assert(t[i] == s[i] && t[j] == s[j]);
        }
        lemma_sort_distinct(t);
        law_results_best_first(t);
        let st = sort_by_score(t);
        assert forall|i: int| 0 <= i < st.len() implies #[trigger] st[i].2 != s.last().2 by {
            lemma_sort_members(t, i);
            let m = choose|m: int| 0 <= m < t.len() && st[i] == #[trigger] t[m];
            assert(t[m] == s[m]);
            assert(s[s.len() - 1] == s.last());
        }
        lemma_insert_distinct(st, s.last());
    }
}

/// The kept web results have distinct URLs.
proof fn lemma_web_results_distinct(es: Seq<ElementView>, ws: Seq<Seq<char>>)
    ensures
        forall|i: int, j: int|
            0 <= i < j < web_results(es, ws).len() ==> #[trigger] web_results(es, ws)[i].2 != #[trigger] web_results(es, ws)[j].2,
    decreases es.len(),
{
    if es.len() > 0 {
        lemma_web_results_distinct(es.drop_last(), ws);
        let prev = web_results(es.drop_last(), ws);
        let next = add_scored(prev, web_candidate(es.last(), ws));
        assert(web_results(es, ws) == next);
        assert forall|i: int, j: int| 0 <= i < j < next.len() implies #[trigger] next[i].2 != #[trigger] next[j].2 by {
            assert(next[i] == prev[i]);
            if j < prev.len() {
                assert(next[j] == prev[j]);
            }
        }
    }
}

/// At most five results are kept from a DuckDuckGo page, all web results, with
/// distinct URLs.
pub proof fn law_ddg_results_few_and_distinct(html: Seq<char>, query: Seq<char>)
    ensures
        ddg_results(html, query).len() <= 5,
        forall|i: int| 0 <= i < ddg_results(html, query).len() ==> (#[trigger] ddg_results(html, query)[i]).1 == "Web"@,
        forall|i: int, j: int|
            0 <= i < j < ddg_results(html, query).len() ==> #[trigger] ddg_results(html, query)[i].2
                != #[trigger] ddg_results(html, query)[j].2,
{
    let es = crate::scrape::selected(html, "a[href]"@, seq!["data-href"@, "href"@]);
    let ws = crate::text::words(lowercase(query));
    let kept = web_results(es, ws);
    lemma_web_results_distinct(es, ws);
    lemma_sort_distinct(kept);
    let ranked = sort_by_score(kept);
    let top = if ranked.len() > 5 {
        ranked.take(5)
    } else {
        ranked
    };
    let r = ddg_results(html, query);
    assert(r == top.map_values(|s: Scored| crate::search::web_match(s)));
    assert forall|i: int, j: int| 0 <= i < j < r.len() implies #[trigger] r[i].2 != #[trigger] r[j].2 by {
        assert(r[i].2 == ranked[i].2);
        assert(r[j].2 == ranked[j].2);
    }
}

/// At most five results are kept from a Bing page, with distinct URLs.
pub proof fn law_bing_results_few_and_distinct(es: Seq<Option<crate::html::ElementView>>)
    ensures
        bing_results(es).len() <= 5,
        forall|i: int, j: int| 0 <= i < j < bing_results(es).len() ==> #[trigger] bing_results(es)[i].1 != #[trigger] bing_results(es)[j].1,
    decreases es.len(),
{
    if es.len() > 0 {
        law_bing_results_few_and_distinct(es.drop_last());
        let prev = bing_results(es.drop_last());
        let next = add_bing(prev, es.last());
        assert forall|i: int, j: int| 0 <= i < j < next.len() implies #[trigger] next[i].1 != #[trigger] next[j].1 by {
            assert(next[i] == prev[i]);
            if j < prev.len() {
                assert(next[j] == prev[j]);
            }
        }
    }
}

/// The order in which a session waits for pages; it falls at each fetch.
pub open spec fn pages_left(p: Phase) -> int {
    match p {
        Phase::Main => 5,
        Phase::SubPage => 4,
        Phase::CommonPath(i) => 3 - i,
        Phase::Done => 0,
    }
}

/// A session installing from a URL fetches at most five pages, and once it
/// answers with anything but a fetch it is done.
pub proof fn law_direct_session_ends(s: SessionView, page: Option<(Seq<char>, Seq<char>, Seq<char>)>)
    requires
        s.phase matches Phase::CommonPath(i) ==> i <= 2,
    ensures
        direct_step(s, page).2 is Fetch ==> 0 <= pages_left(direct_step(s, page).0.phase) < pages_left(s.phase),
        direct_step(s, page).2 is Fetch ==> (direct_step(s, page).0.phase matches Phase::CommonPath(i) ==> i <= 2),
        !(direct_step(s, page).2 is Fetch) ==> direct_step(s, page).0.phase == Phase::Done,
{
}

/// A SHA-256 digest in hex is 64 characters, two per byte.
pub proof fn law_hex_length(b: Seq<u8>)
    ensures
        hex_lower(b).len() == 2 * b.len(),
    decreases b.len(),
{
    if b.len() > 0 {
        law_hex_length(b.drop_last());
    }
}


/// Builds for other systems and architectures, installers for other systems,
/// checksums, signatures and metadata are never offered, on any distribution:
/// a lower-cased name holding any of their markers is not an installable asset.
pub proof fn law_foreign_names_never_offered(n: Seq<char>, d: Distro)
    requires
        is_infix(n, "arm64"@) || is_infix(n, "aarch64"@) || is_infix(n, "armv7"@) || is_infix(n, "armhf"@)
            || is_infix(n, "darwin"@) || is_infix(n, "macos"@) || is_infix(n, "mac"@)
            || is_infix(n, "win"@) || is_infix(n, ".exe"@) || is_infix(n, ".msi"@)
            || is_infix(n, ".dmg"@) || is_infix(n, ".pkg"@) || is_infix(n, "i686"@)
            || is_infix(n, "i386"@) || has_suffix(n, ".sha256"@) || has_suffix(n, ".sha512"@)
            || has_suffix(n, ".sig"@) || has_suffix(n, ".asc"@) || has_suffix(n, ".json"@)
            || has_suffix(n, ".txt"@) || has_suffix(n, ".blockmap"@) || has_suffix(n, ".zsync"@)
            || (is_infix(n, "musl"@) && d != Distro::Unknown),
    ensures
        !valid_asset(n, d),
{
}

/// The markers a package name is scored on: native format for the
/// distribution, "stable", "latest", "release", an x86-64 marker, a pre-release
/// marker.
pub open spec fn score_markers(n: Seq<char>, d: Distro) -> (bool, bool, bool, bool, bool, bool) {
    (
        match d {
            Distro::Fedora => has_suffix(n, ".rpm"@),
            Distro::Ubuntu => has_suffix(n, ".deb"@),
            Distro::Unknown => has_suffix(n, ".appimage"@),
        },
        is_infix(n, "stable"@),
        is_infix(n, "latest"@),
        is_infix(n, "release"@),
        is_infix(n, "x64"@) || is_infix(n, "x86_64"@) || is_infix(n, "amd64"@),
        is_infix(n, "alpha"@) || is_infix(n, "beta"@) || is_infix(n, "rc"@) || is_infix(n, "dev"@),
    )
}

/// The scoring table, as differences: of two names alike in every marker but
/// one, the one with the native format scores 10 more, "stable" 5 more,
/// "latest" 3 more, "release" 3 more, an x86-64 marker 2 more, and a
/// pre-release marker (alpha, beta, rc, dev) 5 less; names alike in every
/// marker score the same. So of two otherwise equal names the pre-release one
/// is never picked first.
pub proof fn law_scoring_table(n1: Seq<char>, n2: Seq<char>, d: Distro)
    ensures
        ({
            let (a1, b1, c1, e1, f1, g1) = score_markers(n1, d);
            let (a2, b2, c2, e2, f2, g2) = score_markers(n2, d);
            let s1 = crate::assets::package_score(n1, d);
            let s2 = crate::assets::package_score(n2, d);
            &&& (a1 == a2 && b1 == b2 && c1 == c2 && e1 == e2 && f1 == f2 && g1 == g2) ==> s1 == s2
            &&& (a1 && !a2 && b1 == b2 && c1 == c2 && e1 == e2 && f1 == f2 && g1 == g2) ==> s1 == s2 + 10
            &&& (a1 == a2 && b1 && !b2 && c1 == c2 && e1 == e2 && f1 == f2 && g1 == g2) ==> s1 == s2 + 5
            &&& (a1 == a2 && b1 == b2 && c1 && !c2 && e1 == e2 && f1 == f2 && g1 == g2) ==> s1 == s2 + 3
            &&& (a1 == a2 && b1 == b2 && c1 == c2 && e1 && !e2 && f1 == f2 && g1 == g2) ==> s1 == s2 + 3
            &&& (a1 == a2 && b1 == b2 && c1 == c2 && e1 == e2 && f1 && !f2 && g1 == g2) ==> s1 == s2 + 2
            &&& (a1 == a2 && b1 == b2 && c1 == c2 && e1 == e2 && f1 == f2 && g1 && !g2) ==> s1 == s2 - 5
            &&& (a1 == a2 && b1 == b2 && c1 == c2 && e1 == e2 && f1 == f2 && g1 && !g2) ==> first_max_index(
                seq![s1, s2],
            ) == 1
        }),
{
    let s1 = crate::assets::package_score(n1, d);
    let s2 = crate::assets::package_score(n2, d);
    let s = seq![s1, s2];
    assert(s.drop_last() =~= seq![s1]);
    assert(first_max_index(s.drop_last()) == 0);
    assert(s.last() == s2 && s[0] == s1);
    assert(s2 > s1 ==> first_max_index(s) == 1);
}

/// Tutorial and aggregator sites are pushed down: a result whose domain names
/// one of the known tutorial sites scores exactly 30 less than the same title,
/// URL and path on a domain that names none of them and matches the query
/// words alike.
pub proof fn law_tutorial_sites_pushed_down(
    ws: Seq<Seq<char>>,
    title: Seq<char>,
    href: Seq<char>,
    tutorial: Seq<char>,
    other: Seq<char>,
    path: Seq<char>,
)
    requires
        names_tutorial_site(tutorial),
        !names_tutorial_site(other),
        any_word_in(ws, tutorial) == any_word_in(ws, other),
        sld_matches(ws, tutorial) == sld_matches(ws, other),
    ensures
        web_score(ws, title, href, tutorial, path) == web_score(ws, title, href, other, path) - 30,
{
}

/// Of two results found on a page, the one scored higher comes first: a
/// tutorial site never outranks an otherwise equal download site.
pub proof fn law_higher_score_ranks_first(s: Seq<Scored>, i: int, j: int)
    requires
        0 <= i < sort_by_score(s).len(),
        0 <= j < sort_by_score(s).len(),
        sort_by_score(s)[i].0 > sort_by_score(s)[j].0,
    ensures
        i < j,
{
    law_results_best_first(s);
    if j < i {
        assert(sort_by_score(s)[j].0 >= sort_by_score(s)[i].0);
    }
}

/// When a step asks for a page, the session then waits for that page: the
/// URL it fetches is the one it reads the next page at.
pub proof fn law_fetch_target_is_awaited(s: SessionView, page: Option<(Seq<char>, Seq<char>, Seq<char>)>)
    ensures
        direct_step(s, page).2 matches ActionView::Fetch(u) ==> direct_step(s, page).0.pending == u,
{
}

/// A download sub-page or common download path handed to the session is read
/// at the URL that was fetched: when its body offers downloads there, the
/// session offers exactly those downloads and install commands, resolved
/// against that URL.
pub proof fn law_later_pages_read_where_fetched(s: SessionView, f: Seq<char>, ct: Seq<char>, body: Seq<char>)
    requires
        s.phase == Phase::SubPage || s.phase is CommonPath,
        download_links(body, s.pending, s.distro).len() > 0,
    ensures
        direct_step(s, Some((f, ct, body))).2 == ActionView::Install(
            download_links(body, s.pending, s.distro),
            curl_installs(body, s.pending),
        ),
{
}

/// Following a download sub-page: when the first page leads the session to a
/// sub-page at `u`, and the sub-page's body offers downloads resolved against
/// `u`, the session offers exactly those, with the install commands of that
/// body resolved against `u`.
pub proof fn law_subpage_read_at_fetched_url(
    s: SessionView,
    first: (Seq<char>, Seq<char>, Seq<char>),
    sub: (Seq<char>, Seq<char>, Seq<char>),
    u: Seq<char>,
)
    requires
        direct_step(s, Some(first)).2 == ActionView::Fetch(u),
        direct_step(s, Some(first)).0.phase == Phase::SubPage,
        download_links(sub.2, u, s.distro).len() > 0,
    ensures
        direct_step(direct_step(s, Some(first)).0, Some(sub)).2 == ActionView::Install(
            download_links(sub.2, u, s.distro),
            curl_installs(sub.2, u),
        ),
{
    let s1 = direct_step(s, Some(first)).0;
    law_fetch_target_is_awaited(s, Some(first));
    assert(s1.distro == s.distro);
    law_later_pages_read_where_fetched(s1, sub.0, sub.1, sub.2);
}

/// `u` is the script URL of one of the install commands.
pub open spec fn offers_script(installs: Seq<(Seq<char>, Seq<char>)>, u: Seq<char>) -> bool {
    exists|i: int| 0 <= i < installs.len() && (#[trigger] installs[i]).0 == u
}

/// Adding candidates keeps what was offered and offers every candidate's URL.
proof fn lemma_add_installs_offers(acc: Seq<(Seq<char>, Seq<char>)>, cands: Seq<(Seq<char>, Seq<char>)>, u: Seq<char>)
    requires
        offers_script(acc, u) || exists|k: int| 0 <= k < cands.len() && (#[trigger] cands[k]).0 == u,
    ensures
        offers_script(add_installs(acc, cands), u),
    decreases cands.len(),
{
    if cands.len() > 0 {
        let t = cands.drop_last();
        let prev = add_installs(acc, t);
        let x = cands.last();
        if offers_script(acc, u) || exists|k: int| 0 <= k < t.len() && (#[trigger] t[k]).0 == u {
            lemma_add_installs_offers(acc, t, u);
            let i = choose|i: int| 0 <= i < prev.len() && (#[trigger] prev[i]).0 == u;
            assert(add_install(prev, x)[i] == prev[i]);
        } else {
            let k = choose|k: int| 0 <= k < cands.len() && (#[trigger] cands[k]).0 == u;
            if k < t.len() {
                assert(t[k] == cands[k]);
            }
            assert(x.0 == u);
            if exists|i: int| 0 <= i < prev.len() && #[trigger] prev[i].0 == x.0 {
                let i = choose|i: int| 0 <= i < prev.len() && #[trigger] prev[i].0 == x.0;
                assert(add_install(prev, x)[i] == prev[i]);
            } else {
                assert(add_install(prev, x)[prev.len() as int] == x);
            }
        }
    }
}

/// Every candidate of a page has its script URL offered.
proof fn lemma_candidate_offered(html: Seq<char>, base: Seq<char>, k: int)
    requires
        0 <= k < page_install_candidates(html, base).len(),
    ensures
        offers_script(curl_installs(html, base), page_install_candidates(html, base)[k].0),
{
    let z: Seq<(Seq<char>, Seq<char>)> = seq![];
    let c = page_install_candidates(html, base);
    assert(c[k].0 == c[k].0);
    lemma_add_installs_offers(z, c, c[k].0);
}

/// The `j`-th element of `b` is at `a.len() + j` in `a + b`, and `a`'s stay put.
proof fn lemma_index_concat(a: Seq<(Seq<char>, Seq<char>)>, b: Seq<(Seq<char>, Seq<char>)>)
    ensures
        forall|j: int| 0 <= j < b.len() ==> (a + b)[a.len() + j] == #[trigger] b[j],
        forall|j: int| 0 <= j < a.len() ==> (a + b)[j] == #[trigger] a[j],
{
}

/// A command candidate of the `j`-th match is in the candidates of all matches.
proof fn lemma_command_candidate_in(caps: Seq<Seq<Option<Seq<char>>>>, j: int)
    requires
        0 <= j < caps.len(),
        command_candidate(caps[j]) is Some,
    ensures
        exists|k: int| 0 <= k < command_candidates(caps).len()
            && #[trigger] command_candidates(caps)[k] == command_candidate(caps[j])->0,
    decreases caps.len(),
{
    let t = caps.drop_last();
    let prev = command_candidates(t);
    let tail = opt_cand(command_candidate(caps.last()));
    assert(command_candidates(caps) == prev + tail);
    lemma_index_concat(prev, tail);
    if j < caps.len() - 1 {
        assert(t[j] == caps[j]);
        lemma_command_candidate_in(t, j);
        let k = choose|k: int| 0 <= k < prev.len() && #[trigger] prev[k] == command_candidate(t[j])->0;
        assert(command_candidates(caps)[k] == prev[k]);
    } else {
        assert(caps[j] == caps.last());
        assert(command_candidates(caps)[prev.len() as int] == tail[0]);
    }
}

/// A script link of the `j`-th element is among the script links of all.
proof fn lemma_script_link_in(es: Seq<ElementView>, base: Seq<char>, j: int)
    requires
        0 <= j < es.len(),
        script_link(es[j], base) is Some,
    ensures
        exists|k: int| 0 <= k < script_links(es, base).len()
            && #[trigger] script_links(es, base)[k] == script_link(es[j], base)->0,
    decreases es.len(),
{
    let t = es.drop_last();
    let prev = script_links(t, base);
    let tail = opt_cand(script_link(es.last(), base));
    assert(script_links(es, base) == prev + tail);
    lemma_index_concat(prev, tail);
    if j < es.len() - 1 {
        assert(t[j] == es[j]);
        lemma_script_link_in(t, base, j);
        let k = choose|k: int| 0 <= k < prev.len() && #[trigger] prev[k] == script_link(t[j], base)->0;
        assert(script_links(es, base)[k] == prev[k]);
    } else {
        assert(es[j] == es.last());
        assert(script_links(es, base)[prev.len() as int] == tail[0]);
    }
}

/// A code-block candidate of the `j`-th element is among those of all.
proof fn lemma_block_candidate_in(es: Seq<ElementView>, j: int)
    requires
        0 <= j < es.len(),
        block_candidate(es[j]) is Some,
    ensures
        exists|k: int| 0 <= k < block_candidates(es).len()
            && #[trigger] block_candidates(es)[k] == block_candidate(es[j])->0,
    decreases es.len(),
{
    let t = es.drop_last();
    let prev = block_candidates(t);
    let tail = opt_cand(block_candidate(es.last()));
    assert(block_candidates(es) == prev + tail);
    lemma_index_concat(prev, tail);
    if j < es.len() - 1 {
        assert(t[j] == es[j]);
        lemma_block_candidate_in(t, j);
        let k = choose|k: int| 0 <= k < prev.len() && #[trigger] prev[k] == block_candidate(t[j])->0;
        assert(block_candidates(es)[k] == prev[k]);
    } else {
        assert(es[j] == es.last());
        assert(block_candidates(es)[prev.len() as int] == tail[0]);
    }
}

/// The parts of a page's candidates, in order.
proof fn lemma_candidate_parts(html: Seq<char>, base: Seq<char>)
    ensures
        ({
            let p0 = script_links(selected(html, "a[href]"@, seq!["href"@]), base);
            let p1 = command_candidates(matches_of(PIPE_INSTALL_PATTERN@, html));
            let p2 = command_candidates(matches_of(PROCESS_INSTALL_PATTERN@, html));
            let p3 = command_candidates(matches_of(SHELL_C_INSTALL_PATTERN@, html));
            let p4 = block_candidates(selected(html, "code"@, seq![]));
            let p5 = block_candidates(selected(html, "pre"@, seq![]));
            let p6 = block_candidates(selected(html, "samp"@, seq![]));
            let all = page_install_candidates(html, base);
            &&& forall|j: int| 0 <= j < p0.len() ==> all[j] == #[trigger] p0[j]
            &&& forall|j: int| 0 <= j < p1.len() ==> all[p0.len() + j] == #[trigger] p1[j]
            &&& forall|j: int| 0 <= j < p2.len() ==> all[p0.len() + p1.len() + j] == #[trigger] p2[j]
            &&& forall|j: int| 0 <= j < p3.len() ==> all[p0.len() + p1.len() + p2.len() + j] == #[trigger] p3[j]
            &&& forall|j: int| 0 <= j < p4.len() ==> all[p0.len() + p1.len() + p2.len() + p3.len() + j] == #[trigger] p4[j]
            &&& forall|j: int| 0 <= j < p5.len() ==> all[p0.len() + p1.len() + p2.len() + p3.len() + p4.len() + j] == #[trigger] p5[j]
            &&& forall|j: int| 0 <= j < p6.len() ==> all[p0.len() + p1.len() + p2.len() + p3.len() + p4.len() + p5.len() + j] == #[trigger] p6[j]
            &&& all.len() == p0.len() + p1.len() + p2.len() + p3.len() + p4.len() + p5.len() + p6.len()
        }),
{
    let p0 = script_links(selected(html, "a[href]"@, seq!["href"@]), base);
    let p1 = command_candidates(matches_of(PIPE_INSTALL_PATTERN@, html));
    let p2 = command_candidates(matches_of(PROCESS_INSTALL_PATTERN@, html));
    let p3 = command_candidates(matches_of(SHELL_C_INSTALL_PATTERN@, html));
    let p4 = block_candidates(selected(html, "code"@, seq![]));
    let p5 = block_candidates(selected(html, "pre"@, seq![]));
    let p6 = block_candidates(selected(html, "samp"@, seq![]));
    lemma_index_concat(p0, p1);
    lemma_index_concat(p0 + p1, p2);
    lemma_index_concat(p0 + p1 + p2, p3);
    lemma_index_concat(p0 + p1 + p2 + p3, p4);
    lemma_index_concat(p0 + p1 + p2 + p3 + p4, p5);
    lemma_index_concat(p0 + p1 + p2 + p3 + p4 + p5, p6);
}

/// Every install command written in a page in one of the three forms — a
/// `curl`/`wget` pipeline into a shell, `[ba]sh <(curl … URL)`, or
/// `[ba]sh -c "$(curl … URL)"` — is offered: its script URL (the URL the
/// pattern captures, or else the first URL in the command) is the URL of one
/// of the page's install commands.
pub proof fn law_install_commands_offered(html: Seq<char>, base: Seq<char>, p: Seq<char>, j: int, u: Seq<char>)
    requires
        p == PIPE_INSTALL_PATTERN@ || p == PROCESS_INSTALL_PATTERN@ || p == SHELL_C_INSTALL_PATTERN@,
        0 <= j < matches_of(p, html).len(),
        u.len() > 0,
        group(matches_of(p, html)[j], 1) == Some(u) || (group(matches_of(p, html)[j], 1) is None
            && first_match(URL_PATTERN@, trim(whole(matches_of(p, html)[j]))) == Some(u)),
    ensures
        offers_script(curl_installs(html, base), u),
{
    let caps = matches_of(p, html);
    assert(command_candidate(caps[j]) == Some((u, trim(whole(caps[j])))));
    lemma_command_candidate_in(caps, j);
    let cs = command_candidates(caps);
    let k = choose|k: int| 0 <= k < cs.len() && #[trigger] cs[k] == command_candidate(caps[j])->0;
    lemma_candidate_parts(html, base);
    let p0 = script_links(selected(html, "a[href]"@, seq!["href"@]), base);
    let p1 = command_candidates(matches_of(PIPE_INSTALL_PATTERN@, html));
    let p2 = command_candidates(matches_of(PROCESS_INSTALL_PATTERN@, html));
    let all = page_install_candidates(html, base);
    let at = if p == PIPE_INSTALL_PATTERN@ {
        p0.len() + k
    } else if p == PROCESS_INSTALL_PATTERN@ {
        p0.len() + p1.len() + k
    } else {
        p0.len() + p1.len() + p2.len() + k
    };
    assert(all[at] == cs[k]);
    lemma_candidate_offered(html, base, at);
}

/// Every link to a `.sh` or `.bash` script on a page is offered, resolved
/// against the page.
pub proof fn law_script_links_offered(html: Seq<char>, base: Seq<char>, j: int, h: Seq<char>, abs: Seq<char>)
    requires
        0 <= j < selected(html, "a[href]"@, seq!["href"@]).len(),
        attr(selected(html, "a[href]"@, seq!["href"@])[j], 0) == Some(h),
        has_suffix(lowercase(h), ".sh"@) || has_suffix(lowercase(h), ".bash"@),
        resolved(base, h) == Some(abs),
    ensures
        offers_script(curl_installs(html, base), abs),
{
    let es = selected(html, "a[href]"@, seq!["href"@]);
    lemma_script_link_in(es, base, j);
    let p0 = script_links(es, base);
    let k = choose|k: int| 0 <= k < p0.len() && #[trigger] p0[k] == script_link(es[j], base)->0;
    lemma_candidate_parts(html, base);
    assert(page_install_candidates(html, base)[k] == p0[k]);
    lemma_candidate_offered(html, base, k);
}

/// Every `code`, `pre` or `samp` block that mentions `curl` or `wget` and a
/// shell, and holds a URL, has its first URL offered.
pub proof fn law_code_block_commands_offered(html: Seq<char>, base: Seq<char>, tag: Seq<char>, j: int, u: Seq<char>)
    requires
        tag == "code"@ || tag == "pre"@ || tag == "samp"@,
        0 <= j < selected(html, tag, seq![]).len(),
        ({
            let text = join_with(selected(html, tag, seq![])[j].text, seq![]);
            &&& is_infix(text, "curl"@) || is_infix(text, "wget"@)
            &&& is_infix(text, "bash"@) || is_infix(text, "sh"@)
            &&& first_match(URL_PATTERN@, text) == Some(u)
        }),
    ensures
        offers_script(curl_installs(html, base), u),
{
    let es = selected(html, tag, seq![]);
    lemma_block_candidate_in(es, j);
    let bs = block_candidates(es);
    let k = choose|k: int| 0 <= k < bs.len() && #[trigger] bs[k] == block_candidate(es[j])->0;
    lemma_candidate_parts(html, base);
    let p0 = script_links(selected(html, "a[href]"@, seq!["href"@]), base);
    let p1 = command_candidates(matches_of(PIPE_INSTALL_PATTERN@, html));
    let p2 = command_candidates(matches_of(PROCESS_INSTALL_PATTERN@, html));
    let p3 = command_candidates(matches_of(SHELL_C_INSTALL_PATTERN@, html));
    let p4 = block_candidates(selected(html, "code"@, seq![]));
    let p5 = block_candidates(selected(html, "pre"@, seq![]));
    let all = page_install_candidates(html, base);
    let at = if tag == "code"@ {
        p0.len() + p1.len() + p2.len() + p3.len() + k
    } else if tag == "pre"@ {
        p0.len() + p1.len() + p2.len() + p3.len() + p4.len() + k
    } else {
        p0.len() + p1.len() + p2.len() + p3.len() + p4.len() + p5.len() + k
    };
    assert(all[at] == bs[k]);
    lemma_candidate_offered(html, base, at);
}

/// No marker of another system, architecture or side file in a lower-cased name.
pub open spec fn clean_name(n: Seq<char>) -> bool {
    !(is_infix(n, "arm64"@) || is_infix(n, "aarch64"@) || is_infix(n, "armv7"@) || is_infix(n, "armhf"@)
        || is_infix(n, "darwin"@) || is_infix(n, "macos"@) || is_infix(n, "mac"@)
        || is_infix(n, "win"@) || is_infix(n, ".exe"@) || is_infix(n, ".msi"@)
        || is_infix(n, ".dmg"@) || is_infix(n, ".pkg"@) || is_infix(n, "musl"@) || is_infix(n, "i686"@)
        || is_infix(n, "i386"@) || has_suffix(n, ".sha256"@) || has_suffix(n, ".sha512"@)
        || has_suffix(n, ".sig"@) || has_suffix(n, ".asc"@) || has_suffix(n, ".json"@)
        || has_suffix(n, ".txt"@) || has_suffix(n, ".blockmap"@) || has_suffix(n, ".zsync"@))
}

/// Which clean names are offered: AppImages and tarballs everywhere, `.deb`
/// on Ubuntu, `.rpm` on Fedora, zips only when marked Linux or x86-64, and
/// setups or installers only when marked Linux or x86-64.
pub proof fn law_clean_packages_offered(n: Seq<char>, d: Distro)
    requires
        clean_name(n),
    ensures
        ({
            let marked = is_infix(n, "linux"@) || is_infix(n, "x64"@) || is_infix(n, "amd64"@);
            let installer = is_infix(n, "setup"@) || is_infix(n, "installer"@);
            &&& has_suffix(n, ".zip"@) ==> (valid_asset(n, d) <==> marked)
            &&& (installer && !marked) ==> !valid_asset(n, d)
            &&& (!installer || marked) ==> ((has_suffix(n, ".appimage"@) || has_suffix(n, ".tar.gz"@)
                || has_suffix(n, ".tar.xz"@) || has_suffix(n, ".tar.bz2"@)) ==> valid_asset(n, d))
            &&& (!installer || marked) ==> (d == Distro::Ubuntu && has_suffix(n, ".deb"@) ==> valid_asset(n, d))
            &&& (!installer || marked) ==> (d == Distro::Fedora && has_suffix(n, ".rpm"@) ==> valid_asset(n, d))
        }),
{
    reveal_strlit(".zip");
    reveal_strlit(".appimage");
    reveal_strlit(".tar.gz");
    reveal_strlit(".tar.xz");
    reveal_strlit(".tar.bz2");
    reveal_strlit(".deb");
    reveal_strlit(".rpm");
    let lits = seq![".zip"@, ".appimage"@, ".tar.gz"@, ".tar.xz"@, ".tar.bz2"@, ".deb"@, ".rpm"@];
    assert forall|k: int| 0 <= k < lits.len() && has_suffix(n, #[trigger] lits[k]) implies n.last() == lits[k].last() by {
        lemma_suffix_last(n, lits[k]);
    }
    assert(lits[0] == ".zip"@ && lits[1] == ".appimage"@ && lits[2] == ".tar.gz"@ && lits[3] == ".tar.xz"@);
    assert(lits[4] == ".tar.bz2"@ && lits[5] == ".deb"@ && lits[6] == ".rpm"@);
}

/// Every package URL written in a page whose file name is installable is
/// offered: some download has that file name.
pub proof fn law_page_package_urls_offered(html: Seq<char>, page: Seq<char>, d: Distro, j: int)
    requires
        0 <= j < crate::scrape::all_matches(crate::scrape::PAGE_PACKAGE_PATTERN@, html).len(),
        valid_asset(lowercase(file_name(crate::scrape::all_matches(crate::scrape::PAGE_PACKAGE_PATTERN@, html)[j])), d),
    ensures
        exists|i: int| 0 <= i < download_links(html, page, d).len()
            && (#[trigger] download_links(html, page, d)[i]).0 == file_name(crate::scrape::all_matches(crate::scrape::PAGE_PACKAGE_PATTERN@, html)[j]),
{
    let ms = crate::scrape::all_matches(crate::scrape::PAGE_PACKAGE_PATTERN@, html);
    let first = match crate::html::html_select(html, crate::scrape::LINK_SELECTOR@, crate::scrape::link_attr_names()) {
        Some(es) => crate::scrape::elements_links(es, page),
        None => seq![],
    };
    let all = crate::scrape::page_link_candidates(html, page);
    assert(all == first + ms);
    assert(all[first.len() + j] == ms[j]);
    let z: Seq<(Seq<char>, Seq<char>)> = seq![];
    assert(download_links(html, page, d) == add_links(z, all, d));
    lemma_add_links_keeps(z, all, d, first.len() + j);
    let r = add_links(z, all, d);
    let i = choose|i: int| 0 <= i < r.len() && (#[trigger] r[i]).0 == file_name(all[first.len() + j]);
    assert(download_links(html, page, d)[i].0 == file_name(ms[j]));
}

/// Adding candidate URLs names a download after every installable candidate.
proof fn lemma_add_links_keeps(links: Seq<(Seq<char>, Seq<char>)>, cands: Seq<Seq<char>>, d: Distro, k: int)
    requires
        0 <= k < cands.len(),
        valid_asset(lowercase(file_name(cands[k])), d),
    ensures
        exists|i: int| 0 <= i < add_links(links, cands, d).len()
            && (#[trigger] add_links(links, cands, d)[i]).0 == file_name(cands[k]),
    decreases cands.len(),
{
    let t = cands.drop_last();
    let prev = add_links(links, t, d);
    let f = file_name(cands[k]);
    assert(add_links(links, cands, d) == add_link(prev, cands.last(), d));
    if k < t.len() {
        assert(t[k] == cands[k]);
        lemma_add_links_keeps(links, t, d, k);
        let i = choose|i: int| 0 <= i < prev.len() && (#[trigger] prev[i]).0 == f;
        assert(add_link(prev, cands.last(), d)[i] == prev[i]);
    } else {
        assert(cands[k] == cands.last());
        if exists|i: int| 0 <= i < prev.len() && #[trigger] prev[i].0 == f {
            let i = choose|i: int| 0 <= i < prev.len() && #[trigger] prev[i].0 == f;
            assert(add_link(prev, cands.last(), d)[i] == prev[i]);
        } else {
            assert(add_link(prev, cands.last(), d)[prev.len() as int].0 == f);
        }
    }
}

/// The distribution read from `/etc/os-release` (lower-cased): Fedora when it
/// names Fedora, RHEL, CentOS or Rocky; else Ubuntu when it names Ubuntu,
/// Debian, Mint, Pop!_OS, elementary or Kali; else unknown.
pub proof fn law_distro_detection(c: Seq<char>)
    ensures
        (is_infix(c, "id=fedora"@) || is_infix(c, "id=\"fedora\""@) || is_infix(c, "id_like=fedora"@)
            || is_infix(c, "rhel"@) || is_infix(c, "centos"@) || is_infix(c, "rocky"@)) ==> crate::assets::distro_of(c) == Distro::Fedora,
        (is_infix(c, "ubuntu"@) || is_infix(c, "debian"@) || is_infix(c, "mint"@) || is_infix(c, "pop!_os"@)
            || is_infix(c, "element"@) || is_infix(c, "kali"@)) && crate::assets::distro_of(c) != Distro::Fedora
            ==> crate::assets::distro_of(c) == Distro::Ubuntu,
        crate::assets::distro_of(c) == Distro::Ubuntu ==> (is_infix(c, "ubuntu"@) || is_infix(c, "debian"@)
            || is_infix(c, "mint"@) || is_infix(c, "pop!_os"@) || is_infix(c, "element"@) || is_infix(c, "kali"@)),
{
    assert(is_infix(c, "id=\"ubuntu\""@) ==> is_infix(c, "ubuntu"@)) by {
        reveal_strlit("id=\"ubuntu\"");
        reveal_strlit("ubuntu");
        assert(("id=\"ubuntu\""@).subrange(4, 4 + "ubuntu"@.len() as int) =~= "ubuntu"@);
        lemma_infix_within(c, "id=\"ubuntu\""@, "ubuntu"@, 4);
    }
    assert(is_infix(c, "id=ubuntu"@) ==> is_infix(c, "ubuntu"@)) by {
        reveal_strlit("id=ubuntu");
        reveal_strlit("ubuntu");
        assert(("id=ubuntu"@).subrange(3, 3 + "ubuntu"@.len() as int) =~= "ubuntu"@);
        lemma_infix_within(c, "id=ubuntu"@, "ubuntu"@, 3);
    }
    assert(is_infix(c, "id=\"debian\""@) ==> is_infix(c, "debian"@)) by {
        reveal_strlit("id=\"debian\"");
        reveal_strlit("debian");
        assert(("id=\"debian\""@).subrange(4, 4 + "debian"@.len() as int) =~= "debian"@);
        lemma_infix_within(c, "id=\"debian\""@, "debian"@, 4);
    }
    assert(is_infix(c, "id=debian"@) ==> is_infix(c, "debian"@)) by {
        reveal_strlit("id=debian");
        reveal_strlit("debian");
        assert(("id=debian"@).subrange(3, 3 + "debian"@.len() as int) =~= "debian"@);
        lemma_infix_within(c, "id=debian"@, "debian"@, 3);
    }
    assert(is_infix(c, "id_like=\"debian\""@) ==> is_infix(c, "debian"@)) by {
        reveal_strlit("id_like=\"debian\"");
        reveal_strlit("debian");
        assert(("id_like=\"debian\""@).subrange(9, 9 + "debian"@.len() as int) =~= "debian"@);
        lemma_infix_within(c, "id_like=\"debian\""@, "debian"@, 9);
    }
    assert(is_infix(c, "id_like=debian"@) ==> is_infix(c, "debian"@)) by {
        reveal_strlit("id_like=debian");
        reveal_strlit("debian");
        assert(("id_like=debian"@).subrange(8, 8 + "debian"@.len() as int) =~= "debian"@);
        lemma_infix_within(c, "id_like=debian"@, "debian"@, 8);
    }
}

/// A text holding `a`, where `b` sits inside `a` at `at`, holds `b`.
proof fn lemma_infix_within(c: Seq<char>, a: Seq<char>, b: Seq<char>, at: int)
    requires
        0 <= at && at + b.len() <= a.len(),
        a.subrange(at, at + b.len()) == b,
    ensures
        is_infix(c, a) ==> is_infix(c, b),
{
    assert(a.subrange(at, at + b.len()) =~= b);
    if is_infix(c, a) {
        let i = choose|i: int| 0 <= i && i + a.len() <= c.len() && #[trigger] c.subrange(i, i + a.len()) == a;
        assert(c.subrange(i + at, i + at + b.len()) =~= a.subrange(at, at + b.len()));
        assert(c.subrange(i + at, i + at + b.len()) == b);
    }
}

/// What the command line asks for: the version for `--version` or `-v`, an
/// update for `--update` or `--upgrade`, an install from the page for any
/// other input starting with `http://` or `https://`, and a search otherwise.
pub proof fn law_requests(raw: Seq<char>)
    ensures
        (raw == "--version"@ || raw == "-v"@) ==> crate::cli::request_of(raw) == crate::cli::Request::Version,
        (raw == "--update"@ || raw == "--upgrade"@) ==> crate::cli::request_of(raw) == crate::cli::Request::Update,
        crate::cli::request_of(raw) == crate::cli::Request::DirectUrl <==> (
            (has_prefix(raw, "http://"@) || has_prefix(raw, "https://"@)) && raw != "--version"@ && raw != "-v"@
                && raw != "--update"@ && raw != "--upgrade"@),
{
    reveal_strlit("--version");
    reveal_strlit("-v");
    reveal_strlit("--update");
    reveal_strlit("--upgrade");
    reveal_strlit("http://");
    reveal_strlit("https://");
    assert("--upgrade"@[2] != "--version"@[2]);
    assert("--update"@.len() != "--version"@.len());
    assert("--update"@.len() != "-v"@.len() && "--upgrade"@.len() != "-v"@.len());
}

/// A session whose first fetch fails ends, naming the URL; a first answer that
/// is a shell script rather than a page is offered to run as
/// `curl -fsSL <url> | bash`, at the URL it came from.
pub proof fn law_first_answer(s: SessionView, f: Seq<char>, ct: Seq<char>, body: Seq<char>)
    requires
        s.phase == Phase::Main,
    ensures
        direct_step(s, None).2 == ActionView::Done,
        direct_step(s, None).0.phase == Phase::Done,
        direct_step(s, None).1 =~= seq![crate::direct::NoteView::FetchFailed(s.url)],
        (!is_infix(ct, "text/html"@) && has_prefix(trim(body), "#!/"@)) ==> direct_step(s, Some((f, ct, body))).2
            == ActionView::RunScript((f, "curl -fsSL "@ + f + " | bash"@)),
{
    if has_prefix(trim(body), "#!/"@) {
        lemma_trim_prefix(body);
    }
}

/// A trimmed text starting with `#!/` comes from a text whose leading
/// whitespace is followed by `#!/`, and is not empty.
proof fn lemma_trim_prefix(body: Seq<char>)
    requires
        has_prefix(trim(body), "#!/"@),
    ensures
        trim(body).len() > 0,
        has_prefix(crate::text::trim_start(body), "#!/"@),
{
    reveal_strlit("#!/");
    let t = crate::text::trim_start(body);
    lemma_trim_end_prefix(t);
}

/// Trimming the end keeps a non-empty start.
proof fn lemma_trim_end_prefix(t: Seq<char>)
    requires
        has_prefix(crate::text::trim_end(t), "#!/"@),
    ensures
        has_prefix(t, "#!/"@),
    decreases t.len(),
{
    reveal_strlit("#!/");
    if t.len() > 0 && crate::text::is_ws(t.last()) {
        lemma_trim_end_prefix(t.drop_last());
        assert(t.subrange(0, 3) =~= t.drop_last().subrange(0, 3));
    }
}

/// A GitHub search offers at most five repositories, each named with its
/// stars and offered as its latest release.
pub proof fn law_github_matches(json: Json)
    ensures
        crate::github::github_matches(json).len() <= 5,
        forall|i: int| 0 <= i < crate::github::github_matches(json).len() ==> (#[trigger] crate::github::github_matches(json)[i]).1 == "GitHub"@,
{
    match crate::github::json_array(crate::github::field(json, "items"@)) {
        Some(items) => {
            let t = if items.len() > 5 { items.take(5) } else { items };
            lemma_repo_matches(t);
        },
        None => {},
    }
}

/// Repositories found among items: no more than the items, all on GitHub.
proof fn lemma_repo_matches(items: Seq<Json>)
    ensures
        crate::github::repo_matches(items).len() <= items.len(),
        forall|i: int| 0 <= i < crate::github::repo_matches(items).len() ==> (#[trigger] crate::github::repo_matches(items)[i]).1 == "GitHub"@,
    decreases items.len(),
{
    if items.len() > 0 {
        lemma_repo_matches(items.drop_last());
        let prev = crate::github::repo_matches(items.drop_last());
        let all = crate::github::repo_matches(items);
        assert forall|i: int| 0 <= i < all.len() implies (#[trigger] all[i]).1 == "GitHub"@ by {
            if i < prev.len() {
                assert(all[i] == prev[i]);
            }
        }
    }
}

/// The native package format comes first, then AppImages, then the rest: on
/// Ubuntu a `.deb` ranks before anything else, on Fedora an `.rpm`, and where
/// the distribution is unknown an AppImage; on Ubuntu and Fedora an AppImage
/// ranks before anything but the native format.
pub proof fn law_native_format_first(a: Seq<char>, b: Seq<char>, d: Distro)
    ensures
        (d == Distro::Ubuntu && has_suffix(a, ".deb"@) && !has_suffix(b, ".deb"@)) ==> asset_rank(a, d) < asset_rank(b, d),
        (d == Distro::Fedora && has_suffix(a, ".rpm"@) && !has_suffix(b, ".rpm"@)) ==> asset_rank(a, d) < asset_rank(b, d),
        (has_suffix(a, ".appimage"@) && !has_suffix(b, ".appimage"@) && !(d == Distro::Ubuntu && has_suffix(b, ".deb"@))
            && !(d == Distro::Fedora && has_suffix(b, ".rpm"@))) ==> asset_rank(a, d) < asset_rank(b, d),
        (d == Distro::Ubuntu && has_suffix(a, ".deb"@) && has_suffix(b, ".deb"@)) ==> asset_rank(a, d) == asset_rank(b, d),
{
    reveal_strlit(".deb");
    reveal_strlit(".rpm");
    reveal_strlit(".appimage");
    if has_suffix(a, ".appimage"@) {
        lemma_suffix_last(a, ".appimage"@);
        if has_suffix(a, ".deb"@) {
            lemma_suffix_last(a, ".deb"@);
        }
        if has_suffix(a, ".rpm"@) {
            lemma_suffix_last(a, ".rpm"@);
        }
    }
    if has_suffix(a, ".deb"@) && has_suffix(a, ".appimage"@) {
        lemma_suffix_last(a, ".deb"@);
    }
}

/// DuckDuckGo results never lead to search engines, code hosts, forums or
/// encyclopedias, and every one is an `http` link.
pub proof fn law_web_results_are_download_sites(es: Seq<ElementView>, ws: Seq<Seq<char>>)
    ensures
        forall|i: int| 0 <= i < web_results(es, ws).len() ==> {
            let u = (#[trigger] web_results(es, ws)[i]).2;
            &&& has_prefix(u, "http"@)
            &&& !is_infix(u, "duckduckgo.com"@) && !is_infix(u, "bing.com"@) && !is_infix(u, "github.com"@)
            &&& !is_infix(u, "youtube.com"@) && !is_infix(u, "reddit.com"@) && !is_infix(u, "stackoverflow.com"@)
            &&& !is_infix(u, "wikipedia.org"@)
        },
    decreases es.len(),
{
    if es.len() > 0 {
        law_web_results_are_download_sites(es.drop_last(), ws);
        let prev = web_results(es.drop_last(), ws);
        let all = web_results(es, ws);
        assert forall|i: int| 0 <= i < all.len() implies {
            let u = (#[trigger] all[i]).2;
            &&& has_prefix(u, "http"@)
            &&& !is_infix(u, "duckduckgo.com"@) && !is_infix(u, "bing.com"@) && !is_infix(u, "github.com"@)
            &&& !is_infix(u, "youtube.com"@) && !is_infix(u, "reddit.com"@) && !is_infix(u, "stackoverflow.com"@)
            &&& !is_infix(u, "wikipedia.org"@)
        } by {
            if i < prev.len() {
                assert(all[i] == prev[i]);
            }
        }
    }
}

/// Bing results never come from a known tutorial site, and each has a title
/// longer than three bytes and an `http` URL.
pub proof fn law_bing_results_skip_tutorials(es: Seq<Option<ElementView>>)
    ensures
        forall|i: int| 0 <= i < bing_results(es).len() ==> !names_tutorial_site((#[trigger] bing_results(es)[i]).1)
            && has_prefix(bing_results(es)[i].1, "http"@),
    decreases es.len(),
{
    if es.len() > 0 {
        law_bing_results_skip_tutorials(es.drop_last());
        let prev = bing_results(es.drop_last());
        let all = bing_results(es);
        assert forall|i: int| 0 <= i < all.len() implies !names_tutorial_site((#[trigger] all[i]).1)
            && has_prefix(all[i].1, "http"@) by {
            if i < prev.len() {
                assert(all[i] == prev[i]);
            }
        }
    }
}

/// Download pages are favoured: a result whose lower-cased title mentions
/// "download" scores exactly 15 more than one alike in everything but that
/// (on a path without "download"); a domain whose second-level label is a
/// query word scores exactly 20 more than one alike in everything else.
pub proof fn law_download_and_named_domain_favoured(
    ws: Seq<Seq<char>>,
    t1: Seq<char>,
    t2: Seq<char>,
    href: Seq<char>,
    domain: Seq<char>,
    other: Seq<char>,
    path: Seq<char>,
)
    ensures
        (is_infix(t1, "download"@) && !is_infix(t2, "download"@) && !is_infix(path, "download"@)
            && crate::search::word_points(ws, t1, lowercase(href)) == crate::search::word_points(ws, t2, lowercase(href))
            && is_infix(t1, "install"@) == is_infix(t2, "install"@) && is_infix(t1, "linux"@) == is_infix(t2, "linux"@))
            ==> web_score(ws, t1, href, domain, path) == web_score(ws, t2, href, domain, path) + 15,
        (sld_matches(ws, domain) && !sld_matches(ws, other) && any_word_in(ws, domain) == any_word_in(ws, other)
            && names_tutorial_site(domain) == names_tutorial_site(other))
            ==> web_score(ws, t1, href, domain, path) == web_score(ws, t1, href, other, path) + 20,
{
}

/// After the last `c` of `a`, `c`, `b` comes `b`, when `b` holds no `c`.
proof fn lemma_after_last_of(a: Seq<char>, c: char, b: Seq<char>)
    requires
        !b.contains(c),
    ensures
        after_last(a + seq![c] + b, c) == b,
    decreases b.len(),
{
    let s = a + seq![c] + b;
    if b.len() == 0 {
        assert(s.last() == c);
    } else {
        assert(s.last() == b.last());
        assert(b.last() == b[b.len() - 1]);
        assert(s.drop_last() =~= a + seq![c] + b.drop_last());
        assert forall|k: int| 0 <= k < b.drop_last().len() implies b.drop_last()[k] != c by {
            assert(b.drop_last()[k] == b[k]);
        }
        lemma_after_last_of(a, c, b.drop_last());
        assert(b.drop_last().push(b.last()) =~= b);
    }
}

/// The part before the first `c` of `f`, then `c` or nothing, and more, is
/// `f`, when `f` holds no `c`.
proof fn lemma_before_char_of(f: Seq<char>, c: char, rest: Seq<char>)
    requires
        !f.contains(c),
        rest.len() == 0 || rest[0] == c,
    ensures
        before_char(f + rest, c) == f,
{
    let s = f + rest;
    assert forall|j: int| 0 <= j < f.len() implies s[j] != c by {
        assert(s[j] == f[j]);
    }
    if rest.len() > 0 {
        assert(s[f.len() as int] == rest[0]);
    }
    crate::text::lemma_find_char_at(s, c, f.len() as int);
    assert(s.take(f.len() as int) =~= f);
}

/// The file name of a URL is its last path part, without the query: for a
/// part `f` holding no `/` or `?`, after anything and a `/`, and before
/// nothing or a `?` and a query without `/`, the file name is `f`.
pub proof fn law_file_name_is_last_part(prefix: Seq<char>, f: Seq<char>, query: Seq<char>)
    requires
        !f.contains('/'),
        !f.contains('?'),
        !query.contains('/'),
    ensures
        file_name(prefix + seq!['/'] + f) == f,
        file_name(prefix + seq!['/'] + f + seq!['?'] + query) == f,
{
    lemma_after_last_of(prefix, '/', f);
    lemma_before_char_of(f, '?', seq![]);
    assert(f + Seq::<char>::empty() =~= f);
    let fq = f + seq!['?'] + query;
    assert(!fq.contains('/')) by {
        assert forall|k: int| 0 <= k < fq.len() implies fq[k] != '/' by {
            if k < f.len() {
                assert(fq[k] == f[k]);
            } else if k > f.len() {
                assert(fq[k] == query[k - f.len() - 1]);
            }
        }
    }
    assert(prefix + seq!['/'] + f + seq!['?'] + query =~= prefix + seq!['/'] + fq);
    lemma_after_last_of(prefix, '/', fq);
    assert(fq =~= f + (seq!['?'] + query));
    lemma_before_char_of(f, '?', seq!['?'] + query);
}

/// When a page and the pages it led to offer nothing, and its text holds no
/// `curl` command: VS Code pages get the VS Code package for the distribution,
/// Firefox pages the Firefox tarball, other pages naming a GitHub repository
/// that repository's latest release; otherwise the session ends with nothing.
pub proof fn law_last_resorts(s: SessionView)
    requires
        s.links.len() == 0,
        s.curls.len() == 0,
        crate::direct::text_curl_commands(s.html).len() == 0,
    ensures
        ({
            let r = crate::direct::conclude(s);
            let vscode = is_infix(s.final_url, "code.visualstudio.com"@) || is_infix(s.url, "code.visualstudio.com"@);
            let firefox = is_infix(s.final_url, "firefox.com"@) || is_infix(s.final_url, "mozilla.org"@);
            &&& r.0.phase == Phase::Done
            &&& (vscode && s.distro == Distro::Ubuntu) ==> r.2 == ActionView::Install(
                seq![("code.deb"@, "https://update.code.visualstudio.com/latest/linux-deb-x64/stable"@)], seq![])
            &&& (vscode && s.distro == Distro::Fedora) ==> r.2 == ActionView::Install(
                seq![("code.rpm"@, "https://update.code.visualstudio.com/latest/linux-rpm-x64/stable"@)], seq![])
            &&& (vscode && s.distro == Distro::Unknown) ==> r.2 == ActionView::Install(
                seq![("code.tar.gz"@, "https://update.code.visualstudio.com/latest/linux-x64/stable"@)], seq![])
            &&& (!vscode && firefox) ==> r.2 == ActionView::Install(
                seq![("firefox.tar.xz"@, "https://download.mozilla.org/?product=firefox-latest-ssl&os=linux64&lang=en-US"@)], seq![])
            &&& (!vscode && !firefox && crate::scrape::github_repo_in(s.html) is Some) ==> r.2 == ActionView::OpenGitHub(
                "https://api.github.com/repos/"@ + crate::scrape::github_repo_in(s.html)->0 + "/releases/latest"@,
                crate::scrape::github_repo_in(s.html)->0)
            &&& (!vscode && !firefox && crate::scrape::github_repo_in(s.html) is None) ==> r.2 == ActionView::Done
        }),
{
}

/// A downloaded file is accepted exactly when the checksum file holds a hash
/// equal to the lower-case hex SHA-256 digest of its bytes; with no hash the
/// check is skipped, and on a mismatch both hashes are reported.
pub proof fn law_checksum_accepts_only_matching(text: Seq<char>, data: Seq<u8>)
    ensures
        ({
            let o = crate::install::checksum_outcome(text, data);
            let e = crate::install::expected_hash(text);
            let actual = hex_lower(crate::install::sha256(data));
            &&& o.0 <==> e is None
            &&& o.1 <==> e == Some(actual)
            &&& (!o.0 && !o.1) ==> (Some(o.2) == e && o.3 == actual && o.2 != o.3)
            &&& !(o.0 && o.1)
        }),
{
}

} // verus!
