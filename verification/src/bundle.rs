use vstd::prelude::*;

use crate::addr2line::views_of_strings;
use crate::config::bundle::{config_name, Build, BundleConfig, IconSet, Metadata, PlatformTarget};

verus! {

/// The name of the archive the bundler produces.
pub fn bundle_name() -> (r: &'static str)
    ensures
        r@ == "bundle.zip"@,
{
    "bundle.zip"
}

/// The name of the optional ignore file at the project root.
pub fn ignore_name() -> (r: &'static str)
    ensures
        r@ == ".bundleignore"@,
{
    ".bundleignore"
}

/// The entry names the tree walk never descends into or archives.
pub open spec fn ignored_name(s: Seq<char>) -> bool {
    ||| s == ".git"@
    ||| s == ".gitignore"@
    ||| s == ".gitattributes"@
    ||| s == ".gitmodules"@
    ||| s == ".hg"@
    ||| s == ".svn"@
    ||| s == "bundle.zip"@
}

/// Whether a directory entry with this file name is excluded from the
/// bundle.
pub fn is_ignored(name: &str) -> (r: bool)
    ensures
        r == ignored_name(name@),
{
    let owned = name.to_owned();
    if owned == ".git".to_owned() {
        true
    } else if owned == ".gitignore".to_owned() {
        true
    } else if owned == ".gitattributes".to_owned() {
        true
    } else if owned == ".gitmodules".to_owned() {
        true
    } else if owned == ".hg".to_owned() {
        true
    } else if owned == ".svn".to_owned() {
        true
    } else if owned == "bundle.zip".to_owned() {
        true
    } else {
        false
    }
}

/// Where a file of the project tree goes inside the archive: root files
/// keep their relative path, everything else moves under the game source
/// directory.
pub open spec fn archive_path_spec(rel: Seq<char>, is_root_file: bool, game_dir: Seq<char>) -> Seq<
    char,
> {
    if is_root_file {
        rel
    } else {
        game_dir + "/"@ + rel
    }
}

/// Computes the archive path for one entry of the project tree.
pub fn archive_path(rel: &String, is_root_file: bool, game_dir: &String) -> (r: String)
    ensures
        r@ == archive_path_spec(rel@, is_root_file, game_dir@),
{
    if is_root_file {
        rel.clone()
    } else {
        let mut s = game_dir.clone();
        s.append("/");
        s.append(rel.as_str());
        s
    }
}

/// There is an entry of `xs` whose view is `s`.
pub open spec fn view_contains(xs: Seq<String>, s: Seq<char>) -> bool {
    exists|i: int| 0 <= i < xs.len() && (#[trigger] xs[i])@ == s
}

/// No two entries of `xs` have the same view.
pub open spec fn no_dup_views(xs: Seq<String>) -> bool {
    forall|i: int, j: int|
        0 <= i < j < xs.len() ==> (#[trigger] xs[i])@ != (#[trigger] xs[j])@
}

proof fn lemma_view_contains(xs: Seq<String>, s: Seq<char>)
    ensures
        view_contains(xs, s) <==> views_of_strings(xs).contains(s),
{
    if view_contains(xs, s) {
        let i = choose|i: int| 0 <= i < xs.len() && (#[trigger] xs[i])@ == s;
        assert(views_of_strings(xs)[i] == s);
    }
    if views_of_strings(xs).contains(s) {
        let i = choose|i: int|
            0 <= i < views_of_strings(xs).len() && views_of_strings(xs)[i] == s;
        assert(xs[i]@ == s);
    }
}

/// Whether some entry of `v` has the same characters as `s`.
fn contains_string(v: &Vec<String>, s: &String) -> (r: bool)
    ensures
        r == view_contains(v@, s@),
{
    let mut i: usize = 0;
    while i < v.len()
        invariant
            0 <= i <= v@.len(),
            forall|l: int| 0 <= l < i ==> (#[trigger] v@[l])@ != s@,
        decreases v@.len() - i,
    {
        if v[i] == *s {
            proof {
                assert((v@[i as int])@ == s@);
            }
            return true;
        }
        i = i + 1;
    }
    false
}

/// The icon path as a one-entry list when it is set and its file exists,
/// else an empty list.
pub open spec fn icon_entry(icon: Option<String>, exists_on_disk: bool) -> Seq<Seq<char>> {
    match icon {
        Some(p) => if exists_on_disk {
            seq![p@]
        } else {
            Seq::<Seq<char>>::empty()
        },
        None => Seq::<Seq<char>>::empty(),
    }
}

/// The files that belong at the archive root, in order and possibly with
/// repetitions: the bundle configuration itself, the ignore file when the
/// project has one, and every chosen icon whose file exists.
pub open spec fn include_candidates(
    config: BundleConfig,
    have_ignore_file: bool,
    ctr_icon_exists: bool,
    hac_icon_exists: bool,
    cafe_icon_exists: bool,
) -> Seq<Seq<char>> {
    seq!["lovebrew.toml"@] + (if have_ignore_file {
        seq![".bundleignore"@]
    } else {
        Seq::<Seq<char>>::empty()
    }) + icon_entry(config.metadata.icons.ctr, ctr_icon_exists) + icon_entry(
        config.metadata.icons.hac,
        hac_icon_exists,
    ) + icon_entry(config.metadata.icons.cafe, cafe_icon_exists)
}

/// Lexicographic order on names, by code point: `a` sorts at or before
/// `b`.
pub open spec fn str_le(a: Seq<char>, b: Seq<char>) -> bool
    decreases a.len(),
{
    if a.len() == 0 {
        true
    } else if b.len() == 0 {
        false
    } else if a[0] != b[0] {
        (a[0] as int) < (b[0] as int)
    } else {
        str_le(a.skip(1), b.skip(1))
    }
}

/// The entries stand in lexicographic order.
pub open spec fn sorted_views(xs: Seq<Seq<char>>) -> bool {
    forall|i: int, j: int| 0 <= i < j < xs.len() ==> str_le(#[trigger] xs[i], #[trigger] xs[j])
}

/// Any two names are ordered one way or the other.
proof fn lemma_str_le_total(a: Seq<char>, b: Seq<char>)
    ensures
        str_le(a, b) || str_le(b, a),
    decreases a.len(),
{
    if a.len() > 0 && b.len() > 0 && a[0] == b[0] {
        lemma_str_le_total(a.skip(1), b.skip(1));
    }
}

/// The order is transitive.
proof fn lemma_str_le_trans(a: Seq<char>, b: Seq<char>, c: Seq<char>)
    requires
        str_le(a, b),
        str_le(b, c),
    ensures
        str_le(a, c),
    decreases a.len(),
{
    if a.len() > 0 {
        assert(b.len() > 0);
        assert(c.len() > 0);
        if a[0] == b[0] && b[0] == c[0] {
            lemma_str_le_trans(a.skip(1), b.skip(1), c.skip(1));
        }
    }
}

/// Dropping an equal prefix from both names leaves their order unchanged.
proof fn lemma_str_le_common_prefix(a: Seq<char>, b: Seq<char>, i: int)
    requires
        0 <= i <= a.len(),
        i <= b.len(),
        forall|l: int| 0 <= l < i ==> a[l] == b[l],
    ensures
        str_le(a, b) == str_le(a.skip(i), b.skip(i)),
    decreases i,
{
    if i == 0 {
        assert(a.skip(0) =~= a);
        assert(b.skip(0) =~= b);
    } else {
        assert(a[0] == b[0]);
        assert forall|l: int| 0 <= l < i - 1 implies a.skip(1)[l] == b.skip(1)[l] by {
            assert(a[l + 1] == b[l + 1]);
        }
        lemma_str_le_common_prefix(a.skip(1), b.skip(1), i - 1);
        assert(a.skip(1).skip(i - 1) =~= a.skip(i));
        assert(b.skip(1).skip(i - 1) =~= b.skip(i));
    }
}

/// Compares two names in lexicographic order.
fn string_le(a: &String, b: &String) -> (r: bool)
    ensures
        r == str_le(a@, b@),
{
    let a_str = a.as_str();
    let b_str = b.as_str();
    let a_len = a_str.unicode_len();
    let b_len = b_str.unicode_len();
    let mut i: usize = 0;
    while i < a_len && i < b_len
        invariant
            0 <= i <= a_len,
            i <= b_len,
            a_len == a@.len(),
            b_len == b@.len(),
            a_str@ == a@,
            b_str@ == b@,
            forall|l: int| 0 <= l < i ==> a@[l] == b@[l],
        decreases a_len - i,
    {
        let ca = a_str.get_char(i);
        let cb = b_str.get_char(i);
        if ca != cb {
            proof {
                lemma_str_le_common_prefix(a@, b@, i as int);
                assert(a@.skip(i as int)[0] == ca);
                assert(b@.skip(i as int)[0] == cb);
            }
            return (ca as u32) < (cb as u32);
        }
        i = i + 1;
    }
    proof {
        lemma_str_le_common_prefix(a@, b@, i as int);
    }
    a_len <= b_len
}

/// Inserts a name into a sorted list, at the place that keeps the list
/// sorted.
fn insert_sorted(v: &mut Vec<String>, x: String)
    requires
        sorted_views(views_of_strings(old(v)@)),
    ensures
        sorted_views(views_of_strings(final(v)@)),
        exists|p: int|
            0 <= p <= old(v)@.len() && views_of_strings(final(v)@) =~= views_of_strings(
                old(v)@,
            ).insert(p, x@),
{
    let mut p: usize = 0;
    while p < v.len() && !string_le(&x, &v[p])
        invariant
            0 <= p <= v@.len(),
            v@ == old(v)@,
            forall|l: int| 0 <= l < p ==> !str_le(x@, (#[trigger] v@[l])@),
        decreases v@.len() - p,
    {
        p = p + 1;
    }
    let ghost old_seq = v@;
    let ghost pp = p as int;
    let ghost hit_end = p == v.len();
    proof {
        if !hit_end {
            assert(str_le(x@, old_seq[pp]@));
        }
    }
    v.insert(p, x);
    proof {
        let ov = views_of_strings(old_seq);
        let nv = views_of_strings(v@);
        old_seq.insert_ensures(pp, x);
        ov.insert_ensures(pp, x@);
        assert forall|l: int| 0 <= l < ov.len() implies #[trigger] ov[l] == old_seq[l]@ by {}
        assert forall|l: int| 0 <= l < nv.len() implies #[trigger] nv[l] == ov.insert(pp, x@)[l] by {
            assert(nv[l] == v@[l]@);
            if l < pp {
                assert(v@[l] == old_seq[l]);
                assert(ov[l] == old_seq[l]@);
            } else if l == pp {
                assert(v@[l] == x);
            } else {
                assert(v@[l] == old_seq[l - 1]);
                assert(ov[l - 1] == old_seq[l - 1]@);
            }
        }
        assert(nv =~= ov.insert(pp, x@));
        assert forall|a: int, b: int| 0 <= a < b < nv.len() implies str_le(
            #[trigger] nv[a],
            #[trigger] nv[b],
        ) by {
            if a < pp && b < pp {
                assert(str_le(ov[a], ov[b]));
            } else if a < pp && b == pp {
                assert(!str_le(x@, ov[a]));
                lemma_str_le_total(x@, ov[a]);
            } else if a < pp && b > pp {
                if a < b - 1 {
                    assert(str_le(ov[a], ov[b - 1]));
                }
            } else if a == pp {
                assert(str_le(x@, ov[pp]));
                if b - 1 > pp {
                    assert(str_le(ov[pp], ov[b - 1]));
                    lemma_str_le_trans(x@, ov[pp], ov[b - 1]);
                }
            } else {
                assert(str_le(ov[a - 1], ov[b - 1]));
            }
        }
    }
}

/// The root-include list of the archive: the candidate files sorted by
/// name, each exactly once.  The `*_exists` flags answer whether the
/// named file is present in the project directory.
pub fn root_includes(
    config: &BundleConfig,
    have_ignore_file: bool,
    ctr_icon_exists: bool,
    hac_icon_exists: bool,
    cafe_icon_exists: bool,
) -> (r: Vec<String>)
    ensures
        no_dup_views(r@),
        forall|s: Seq<char>|
            #![trigger view_contains(r@, s)]
            #![trigger include_candidates(*config, have_ignore_file, ctr_icon_exists, hac_icon_exists, cafe_icon_exists).contains(s)]
            view_contains(r@, s) <==> include_candidates(
                *config,
                have_ignore_file,
                ctr_icon_exists,
                hac_icon_exists,
                cafe_icon_exists,
            ).contains(s),
        sorted_views(views_of_strings(r@)),
{
    let ghost cand_spec = include_candidates(
        *config,
        have_ignore_file,
        ctr_icon_exists,
        hac_icon_exists,
        cafe_icon_exists,
    );
    let mut cands: Vec<String> = Vec::new();
    cands.push(config_name().to_owned());
    if have_ignore_file {
        cands.push(ignore_name().to_owned());
    }
    match &config.metadata.icons.ctr {
        Some(p) => {
            if ctr_icon_exists {
                cands.push(p.clone());
            }
        },
        None => {},
    }
    match &config.metadata.icons.hac {
        Some(p) => {
            if hac_icon_exists {
                cands.push(p.clone());
            }
        },
        None => {},
    }
    match &config.metadata.icons.cafe {
        Some(p) => {
            if cafe_icon_exists {
                cands.push(p.clone());
            }
        },
        None => {},
    }
    proof {
        assert(views_of_strings(cands@) =~= cand_spec);
    }
    let mut out: Vec<String> = Vec::new();
    let mut i: usize = 0;
    while i < cands.len()
        invariant
            0 <= i <= cands@.len(),
            no_dup_views(out@),
            sorted_views(views_of_strings(out@)),
            cand_spec == views_of_strings(cands@),
            forall|s: Seq<char>|
                #![trigger view_contains(out@, s)]
                view_contains(out@, s) <==> view_contains(cands@.take(i as int), s),
        decreases cands@.len() - i,
    {
        let ghost out_prev = out@;
        let present = contains_string(&out, &cands[i]);
        if !present {
            insert_sorted(&mut out, cands[i].clone());
        }
        proof {
            let ci = cands@[i as int]@;
            if !present {
                let ov = views_of_strings(out_prev);
                let nv = views_of_strings(out@);
                let p = choose|p: int| 0 <= p <= out_prev.len() && nv =~= ov.insert(p, ci);
                ov.insert_ensures(p, ci);
                assert forall|l: int| 0 <= l < ov.len() implies #[trigger] ov[l] == out_prev[l]@ by {}
                assert forall|l: int| 0 <= l < nv.len() implies #[trigger] nv[l] == out@[l]@ by {}
                assert(out@.len() == out_prev.len() + 1);
                // which entry stands at each slot of the grown list
                assert forall|l: int| 0 <= l < out@.len() implies (#[trigger] out@[l])@ == (if l
                    < p {
                    out_prev[l]@
                } else if l == p {
                    ci
                } else {
                    out_prev[l - 1]@
                }) by {
                    assert(nv[l] == ov.insert(p, ci)[l]);
                }
                // the new list holds the old entries and the new candidate
                assert forall|s: Seq<char>| #![trigger view_contains(out@, s)]
                    view_contains(out@, s) <==> (view_contains(out_prev, s) || s == ci) by {
                    if view_contains(out@, s) {
                        let l = choose|l: int|
                            0 <= l < out@.len() && (#[trigger] out@[l])@ == s;
                        if l < p {
                            assert(out_prev[l]@ == s);
                            assert(view_contains(out_prev, s));
                        } else if l > p {
                            assert(out_prev[l - 1]@ == s);
                            assert(view_contains(out_prev, s));
                        }
                    }
                    if view_contains(out_prev, s) {
                        let l = choose|l: int|
                            0 <= l < out_prev.len() && (#[trigger] out_prev[l])@ == s;
                        if l < p {
                            assert(out@[l]@ == s);
                        } else {
                            assert(out@[l + 1]@ == s);
                        }
                        assert(view_contains(out@, s));
                    }
                    if s == ci {
                        assert(out@[p]@ == s);
                        assert(view_contains(out@, s));
                    }
                }
                // no two entries share a view
                assert forall|a: int, b: int| 0 <= a < b < out@.len() implies (#[trigger] out@[
                a])@ != (#[trigger] out@[b])@ by {
                    if a == p {
                        if out_prev[b - 1]@ == ci {
                            assert(view_contains(out_prev, ci));
                        }
                    } else if b == p {
                        if out_prev[a]@ == ci {
                            assert(view_contains(out_prev, ci));
                        }
                    } else {
                        let a0 = if a < p {
                            a
                        } else {
                            a - 1
                        };
                        let b0 = if b < p {
                            b
                        } else {
                            b - 1
                        };
                        assert(out_prev[a0]@ != out_prev[b0]@);
                    }
                }
            }
            // the list now answers for one more candidate
            assert forall|s: Seq<char>| #![trigger view_contains(out@, s)]
                view_contains(out@, s) <==> view_contains(cands@.take(i + 1), s) by {
                if view_contains(out@, s) {
                    if view_contains(out_prev, s) {
                        let m = choose|m: int|
                            0 <= m < i && (#[trigger] cands@.take(i as int)[m])@ == s;
                        assert(cands@.take(i + 1)[m]@ == s);
                    } else {
                        assert(s == ci);
                        assert(cands@.take(i + 1)[i as int]@ == s);
                    }
                    assert(view_contains(cands@.take(i + 1), s));
                }
                if view_contains(cands@.take(i + 1), s) {
                    let m = choose|m: int|
                        0 <= m <= i && (#[trigger] cands@.take(i + 1)[m])@ == s;
                    if m < i {
                        assert(cands@.take(i as int)[m]@ == s);
                        assert(view_contains(cands@.take(i as int), s));
                        assert(view_contains(out_prev, s));
                    } else {
                        assert(s == ci);
                    }
                    assert(view_contains(out@, s));
                }
            }
        }
        i = i + 1;
    }
    proof {
        assert(cands@.take(cands@.len() as int) =~= cands@);
        assert(cand_spec.take(cands@.len() as int) =~= cand_spec);
        assert forall|s: Seq<char>|
            #![trigger view_contains(out@, s)]
            #![trigger cand_spec.contains(s)]
            view_contains(out@, s) <==> cand_spec.contains(s) by {
            lemma_view_contains(cands@, s);
        }
    }
    out
}

/// Builds the bundle configuration from the answers the user gave: the
/// metadata fields and build settings verbatim, and, for each platform
/// actually selected as a target, its icon path.
pub fn assemble_bundle_config(
    name: &str,
    author: &str,
    description: &str,
    version: &str,
    targets: Vec<PlatformTarget>,
    source: &str,
    packaged: bool,
    ctr_icon: &str,
    hac_icon: &str,
    cafe_icon: &str,
) -> (r: BundleConfig)
    ensures
        r.metadata.name@ == name@,
        r.metadata.author@ == author@,
        r.metadata.description@ == description@,
        r.metadata.version@ == version@,
        r.build.targets@ == targets@,
        r.build.source@ == source@,
        r.build.packaged == packaged,
        targets@.contains(PlatformTarget::Ctr) ==> (r.metadata.icons.ctr matches Some(p)
            && p@ == ctr_icon@),
        !targets@.contains(PlatformTarget::Ctr) ==> r.metadata.icons.ctr is None,
        targets@.contains(PlatformTarget::Hac) ==> (r.metadata.icons.hac matches Some(p)
            && p@ == hac_icon@),
        !targets@.contains(PlatformTarget::Hac) ==> r.metadata.icons.hac is None,
        targets@.contains(PlatformTarget::Cafe) ==> (r.metadata.icons.cafe matches Some(p)
            && p@ == cafe_icon@),
        !targets@.contains(PlatformTarget::Cafe) ==> r.metadata.icons.cafe is None,
{
    let mut metadata = Metadata {
        name: name.to_owned(),
        author: author.to_owned(),
        description: description.to_owned(),
        version: version.to_owned(),
        icons: IconSet::empty(),
    };
    let build = Build { targets, source: source.to_owned(), packaged };
    if build.has_target(PlatformTarget::Ctr) {
        metadata.set_icon(PlatformTarget::Ctr, ctr_icon);
    }
    if build.has_target(PlatformTarget::Hac) {
        metadata.set_icon(PlatformTarget::Hac, hac_icon);
    }
    if build.has_target(PlatformTarget::Cafe) {
        metadata.set_icon(PlatformTarget::Cafe, cafe_icon);
    }
    proof {
        assert(metadata.icons.icon(PlatformTarget::Ctr) == metadata.icons.ctr);
        assert(metadata.icons.icon(PlatformTarget::Hac) == metadata.icons.hac);
        assert(metadata.icons.icon(PlatformTarget::Cafe) == metadata.icons.cafe);
    }
    BundleConfig { metadata, build }
}

} // verus!
