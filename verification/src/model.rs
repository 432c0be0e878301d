//! The snapshot model of the job tree, and the specification of one sweep
//! over it.
//!
//! A run works on a listing: one [`Entry`] per filesystem object under the
//! root, carrying its root-relative segment path, whether it is a directory,
//! and the seconds elapsed since its last modification (`None` when the
//! metadata could not be read). Over such a listing the specifications below
//! say which directories are pruned, which are candidates for the file scan,
//! which `.dxf` files are removed, which removals count as fully successful
//! pairs, and what the listing looks like afterwards.

use vstd::prelude::*;

use crate::paths::{
    spec_dir_matches, spec_is_dxf_name, spec_is_prefix, spec_is_strict_prefix, spec_sibling_path,
};

verus! {

/// The retention window, in seconds: entries are eligible only once 60 days
/// have elapsed since their last modification.
pub const RETENTION_SECS: u64 = 60 * 24 * 60 * 60;

/// One filesystem object in the snapshot listing.
pub struct Entry {
    /// Root-relative path, as its segments; never empty.
    pub path: Vec<String>,
    /// Whether the object is a directory.
    pub is_dir: bool,
    /// Seconds elapsed since the last modification, or `None` when the
    /// metadata (or the elapsed time) could not be read.
    pub elapsed_secs: Option<u64>,
}

/// The mathematical value of an [`Entry`].
pub struct EntryV {
    pub path: Seq<Seq<char>>,
    pub is_dir: bool,
    pub elapsed_secs: Option<u64>,
}

impl View for Entry {
    type V = EntryV;

    open spec fn view(&self) -> EntryV {
        EntryV { path: self.path.deep_view(), is_dir: self.is_dir, elapsed_secs: self.elapsed_secs }
    }
}

impl DeepView for Entry {
    type V = EntryV;

    open spec fn deep_view(&self) -> EntryV {
        self.view()
    }
}

/// A listing is well formed when every path is nonempty and no two entries
/// share a path — what any one scan of a real tree yields.
pub open spec fn wf_listing(l: Seq<EntryV>) -> bool {
    &&& forall|k: int| 0 <= k < l.len() ==> (#[trigger] l[k].path).len() > 0
    &&& forall|j: int, k: int| 0 <= j < k < l.len() ==> l[j].path != l[k].path
}

/// A directory modified within the retention window: the traversal prunes its
/// whole subtree. An entry whose elapsed time is unreadable gives no pruning
/// signal.
pub open spec fn spec_is_fresh(e: EntryV) -> bool {
    e.is_dir && match e.elapsed_secs {
        Some(s) => s < RETENTION_SECS,
        None => false,
    }
}

/// A path is pruned when a fresh directory stands at it or above it: neither
/// it nor anything beneath it is visited, matched or scanned.
pub open spec fn spec_pruned(l: Seq<EntryV>, p: Seq<Seq<char>>) -> bool {
    exists|k: int|
        0 <= k < l.len() && spec_is_fresh(#[trigger] l[k]) && spec_is_prefix(l[k].path, p)
}

/// A directory entry stands at the path.
pub open spec fn spec_dir_at(l: Seq<EntryV>, p: Seq<Seq<char>>) -> bool {
    exists|k: int| 0 <= k < l.len() && (#[trigger] l[k]).is_dir && l[k].path == p
}

/// A file (non-directory) entry stands at the path.
pub open spec fn spec_file_at(l: Seq<EntryV>, p: Seq<Seq<char>>) -> bool {
    exists|k: int| 0 <= k < l.len() && !(#[trigger] l[k]).is_dir && l[k].path == p
}

/// A candidate directory: a directory stands at the path, the path matches
/// the structural pattern, and no fresh directory at or above it pruned it.
/// The file scan runs exactly on the candidates.
pub open spec fn spec_candidate(l: Seq<EntryV>, p: Seq<Seq<char>>) -> bool {
    spec_dir_at(l, p) && spec_dir_matches(p) && !spec_pruned(l, p)
}

/// A `.dxf` file stands at the path.
pub open spec fn spec_dxf_file_at(l: Seq<EntryV>, p: Seq<Seq<char>>) -> bool {
    spec_file_at(l, p) && p.len() > 0 && spec_is_dxf_name(p.last())
}

/// The path lies strictly beneath some candidate directory, at any depth.
pub open spec fn spec_under_candidate(l: Seq<EntryV>, p: Seq<Seq<char>>) -> bool {
    exists|k: int|
        0 <= k < l.len() && spec_candidate(l, (#[trigger] l[k]).path) && spec_is_strict_prefix(
            l[k].path,
            p,
        )
}

/// The `.dxf` file at this path is removed by the sweep: the scan of some
/// candidate directory finds it. Removal does not ask for a companion log
/// first — a `.dxf` without one is removed all the same, only not counted.
pub open spec fn spec_deleted(l: Seq<EntryV>, p: Seq<Seq<char>>) -> bool {
    spec_dxf_file_at(l, p) && spec_under_candidate(l, p)
}

/// Removing the companion log of the `.dxf` file at this path succeeds: a
/// file stands at the sibling path.
pub open spec fn spec_log_removed(l: Seq<EntryV>, p: Seq<Seq<char>>) -> bool {
    spec_file_at(l, spec_sibling_path(p))
}

/// The pair at this path counts as fully successful: the `.dxf` file is
/// removed and so is its companion log.
pub open spec fn spec_counted(l: Seq<EntryV>, p: Seq<Seq<char>>) -> bool {
    spec_deleted(l, p) && spec_log_removed(l, p)
}

/// How many entries of the listing satisfy a predicate.
pub open spec fn count_matching(l: Seq<EntryV>, f: spec_fn(EntryV) -> bool) -> nat
    decreases l.len(),
{
    if l.len() == 0 {
        0
    } else {
        count_matching(l.drop_last(), f) + if f(l.last()) {
            1nat
        } else {
            0
        }
    }
}

/// The count of fully successful pairs reported by one sweep of the listing.
pub open spec fn spec_total_count(l: Seq<EntryV>) -> nat {
    count_matching(l, |e: EntryV| spec_counted(l, e.path))
}

/// The candidate directories of one run, in listing order: the path of every
/// entry at which a candidate directory stands.
pub open spec fn spec_candidate_paths(l: Seq<EntryV>) -> Seq<Seq<Seq<char>>> {
    l.filter(|e: EntryV| spec_candidate(l, e.path)).map_values(|e: EntryV| e.path)
}

/// The deletion plan of one run, in listing order: the path of every entry
/// at which a swept `.dxf` file stands.
pub open spec fn spec_deletion_plan(l: Seq<EntryV>) -> Seq<Seq<Seq<char>>> {
    l.filter(|e: EntryV| spec_deleted(l, e.path)).map_values(|e: EntryV| e.path)
}

/// An entry the sweep removes: a swept `.dxf` file, or the companion log of
/// one.
pub open spec fn spec_removed_entry(l: Seq<EntryV>, e: EntryV) -> bool {
    !e.is_dir && (spec_deleted(l, e.path) || exists|k: int|
        0 <= k < l.len() && spec_deleted(l, (#[trigger] l[k]).path) && spec_sibling_path(
            l[k].path,
        ) == e.path)
}

/// The listing after one sweep: every entry the sweep removed is gone, all
/// others stand unchanged.
pub open spec fn spec_after_sweep(l: Seq<EntryV>) -> Seq<EntryV> {
    l.filter(|e: EntryV| !spec_removed_entry(l, e))
}

/// A pointwise-weaker predicate never matches more entries.
pub proof fn lemma_count_monotone(l: Seq<EntryV>, f: spec_fn(EntryV) -> bool, g: spec_fn(
    EntryV,
) -> bool)
    requires
        forall|k: int| 0 <= k < l.len() ==> (f(#[trigger] l[k]) ==> g(l[k])),
    ensures
        count_matching(l, f) <= count_matching(l, g),
    decreases l.len(),
{
    if l.len() > 0 {
        assert(l.last() == l[l.len() - 1]);
        assert(forall|k: int| 0 <= k < l.drop_last().len() ==> l.drop_last()[k] == l[k]);
        lemma_count_monotone(l.drop_last(), f, g);
    }
}

/// When no entry matches, the count is zero.
pub proof fn lemma_count_zero(l: Seq<EntryV>, f: spec_fn(EntryV) -> bool)
    requires
        forall|k: int| 0 <= k < l.len() ==> !f(#[trigger] l[k]),
    ensures
        count_matching(l, f) == 0,
    decreases l.len(),
{
    if l.len() > 0 {
        assert(l.last() == l[l.len() - 1]);
        assert(forall|k: int| 0 <= k < l.drop_last().len() ==> l.drop_last()[k] == l[k]);
        lemma_count_zero(l.drop_last(), f);
    }
}

/// Taking one more entry adds one to the count exactly when that entry
/// matches.
pub proof fn lemma_count_take_step(l: Seq<EntryV>, f: spec_fn(EntryV) -> bool, i: int)
    requires
        0 <= i < l.len(),
    ensures
        count_matching(l.take(i + 1), f) == count_matching(l.take(i), f) + if f(l[i]) {
            1nat
        } else {
            0
        },
{
    assert(l.take(i + 1).drop_last() =~= l.take(i));
    assert(l.take(i + 1).last() == l[i]);
}

/// Every element of a filtered sequence comes from the sequence itself.
pub proof fn lemma_filter_subset(l: Seq<EntryV>, pred: spec_fn(EntryV) -> bool, i: int)
    requires
        0 <= i < l.filter(pred).len(),
    ensures
        l.contains(l.filter(pred)[i]),
    decreases l.len(),
{
    reveal(Seq::filter);
    if l.len() > 0 {
        let sub = l.drop_last().filter(pred);
        if i < sub.len() {
            lemma_filter_subset(l.drop_last(), pred, i);
            assert(l.drop_last()[choose|k: int|
                0 <= k < l.drop_last().len() && l.drop_last()[k] == sub[i]] == l[choose|k: int|
                0 <= k < l.drop_last().len() && l.drop_last()[k] == sub[i]]);
        } else {
            assert(l.filter(pred)[i] == l.last());
            assert(l[l.len() - 1] == l.last());
        }
    }
}

} // verus!
