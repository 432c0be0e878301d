//! The properties one sweep obeys, stated over the model and proved.
//!
//! The structural-match property needs no separate statement: it is the
//! `ensures` of [`crate::paths::dir_matches`] together with that of
//! [`crate::sweep::find_candidates`], which says a path is selected exactly
//! when a directory stands at it, the pattern matches, and nothing pruned it.

use vstd::prelude::*;

use crate::model::{
    count_matching, lemma_count_monotone, lemma_count_zero, lemma_filter_subset, spec_after_sweep,
    spec_candidate, spec_counted, spec_deleted, spec_dir_at, spec_is_fresh, spec_log_removed,
    spec_pruned, spec_removed_entry, spec_total_count, spec_under_candidate, wf_listing, EntryV,
};
use crate::paths::{spec_is_dxf_name, spec_is_prefix, spec_is_strict_prefix};

verus! {

/// Two prefixes of one path are comparable: the shorter is a prefix of the
/// longer.
proof fn lemma_prefixes_comparable(a: Seq<Seq<char>>, b: Seq<Seq<char>>, p: Seq<Seq<char>>)
    requires
        spec_is_prefix(a, p),
        spec_is_prefix(b, p),
        a.len() <= b.len(),
    ensures
        spec_is_prefix(a, b),
{
    assert(a =~= b.take(a.len() as int));
}

/// Age pruning: no path at or beneath a directory modified within the
/// retention window is ever selected as a candidate, however well its own
/// segments match and however old it is itself.
pub proof fn lemma_age_pruning(l: Seq<EntryV>, k: int, p: Seq<Seq<char>>)
    requires
        0 <= k < l.len(),
        spec_is_fresh(l[k]),
        spec_is_prefix(l[k].path, p),
    ensures
        !spec_candidate(l, p),
{
    assert(spec_pruned(l, p));
}

/// No premature deletion: no `.dxf` file at or beneath a fresh directory is
/// removed, as long as no candidate directory stands strictly above that
/// fresh directory. (When one does, its scan reaches every `.dxf` beneath
/// it, the fresh directory included: directory ages gate the traversal, not
/// the scan.)
pub proof fn lemma_no_premature_deletion(l: Seq<EntryV>, k: int, p: Seq<Seq<char>>)
    requires
        0 <= k < l.len(),
        spec_is_fresh(l[k]),
        spec_is_prefix(l[k].path, p),
        forall|q: Seq<Seq<char>>|
            spec_is_strict_prefix(q, l[k].path) ==> !#[trigger] spec_candidate(l, q),
    ensures
        !spec_deleted(l, p),
{
    if spec_deleted(l, p) {
        let j = choose|j: int|
            0 <= j < l.len() && spec_candidate(l, (#[trigger] l[j]).path)
                && spec_is_strict_prefix(l[j].path, p);
        let c = l[j].path;
        let d = l[k].path;
        if c.len() < d.len() {
            lemma_prefixes_comparable(c, d, p);
            assert(!spec_candidate(l, c));
        } else {
            lemma_prefixes_comparable(d, c, p);
            assert(spec_pruned(l, c));
        }
    }
}

/// Deletion pairing: a pair counts exactly when both the `.dxf` file and its
/// companion log are removed, and the count never exceeds the number of
/// `.dxf` files initially present in the listing.
pub proof fn lemma_deletion_pairing(l: Seq<EntryV>)
    requires
        wf_listing(l),
    ensures
        forall|p: Seq<Seq<char>>|
            #[trigger] spec_counted(l, p) <==> spec_deleted(l, p) && spec_log_removed(l, p),
        spec_total_count(l) <= count_matching(
            l,
            |e: EntryV| !e.is_dir && e.path.len() > 0 && spec_is_dxf_name(e.path.last()),
        ),
{
    let f = |e: EntryV| spec_counted(l, e.path);
    let g = |e: EntryV| !e.is_dir && e.path.len() > 0 && spec_is_dxf_name(e.path.last());
    assert forall|k: int| 0 <= k < l.len() implies (f(#[trigger] l[k]) ==> g(l[k])) by {
        if f(l[k]) {
            let j = choose|j: int|
                0 <= j < l.len() && !(#[trigger] l[j]).is_dir && l[j].path == l[k].path;
            assert(j == k);
        }
    }
    lemma_count_monotone(l, f, g);
}

/// Idempotent convergence: a second sweep over the listing one run leaves
/// behind removes nothing and counts zero.
pub proof fn lemma_idempotent_convergence(l: Seq<EntryV>)
    ensures
        forall|p: Seq<Seq<char>>| !#[trigger] spec_deleted(spec_after_sweep(l), p),
        spec_total_count(spec_after_sweep(l)) == 0,
{
    let l2 = spec_after_sweep(l);
    let keep = |e: EntryV| !spec_removed_entry(l, e);
    assert(l2 == l.filter(keep));
    assert forall|p: Seq<Seq<char>>| !#[trigger] spec_deleted(l2, p) by {
        if spec_deleted(l2, p) {
            // The file the second run would remove ...
            let i2 = choose|i: int|
                0 <= i < l2.len() && !(#[trigger] l2[i]).is_dir && l2[i].path == p;
            let e = l2[i2];
            lemma_filter_subset(l, keep, i2);
            l.lemma_filter_pred(keep, i2);
            let ie = choose|i: int| 0 <= i < l.len() && l[i] == e;
            // ... lies beneath a directory the second run selects ...
            let k2 = choose|k: int|
                0 <= k < l2.len() && spec_candidate(l2, (#[trigger] l2[k]).path)
                    && spec_is_strict_prefix(l2[k].path, p);
            let c = l2[k2];
            lemma_filter_subset(l, keep, k2);
            let kc = choose|i: int| 0 <= i < l.len() && l[i] == c;
            // ... which the first run already selected: the directory stands
            // in the original listing ...
            let kd2 = choose|k: int|
                0 <= k < l2.len() && (#[trigger] l2[k]).is_dir && l2[k].path == c.path;
            lemma_filter_subset(l, keep, kd2);
            let kd = choose|i: int| 0 <= i < l.len() && l[i] == l2[kd2];
            assert(spec_dir_at(l, c.path));
            // ... and nothing pruned it there either, since pruning entries
            // are directories and the sweep removes only files.
            if spec_pruned(l, c.path) {
                let kf = choose|k: int|
                    0 <= k < l.len() && spec_is_fresh(#[trigger] l[k]) && spec_is_prefix(
                        l[k].path,
                        c.path,
                    );
                l.lemma_filter_contains(keep, kf);
                let kf2 = choose|i: int| 0 <= i < l2.len() && l2[i] == l[kf];
                assert(spec_pruned(l2, c.path));
            }
            assert(spec_candidate(l, c.path));
            assert(spec_under_candidate(l, p));
            // So the first run removed the file already: it cannot stand in
            // the swept listing.
            assert(spec_deleted(l, p));
            assert(spec_removed_entry(l, e));
        }
    }
    let f2 = |e: EntryV| spec_counted(l2, e.path);
    assert forall|k: int| 0 <= k < l2.len() implies !f2(#[trigger] l2[k]) by {
        assert(!spec_deleted(l2, l2[k].path));
    }
    lemma_count_zero(l2, f2);
}

} // verus!
