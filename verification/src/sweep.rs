//! The executable sweep over a snapshot listing.
//!
//! Everything here is proved against the specifications in [`crate::model`]:
//! the per-entry walk decision, candidate selection, the per-directory pair
//! count, the deletion plan for a whole run, the run's success count, and the
//! listing left behind.

use vstd::prelude::*;

use crate::model::{
    count_matching, spec_after_sweep, spec_candidate, spec_counted, spec_deleted, spec_dir_at,
    spec_dxf_file_at, spec_file_at, spec_is_fresh, spec_log_removed, spec_pruned,
    spec_removed_entry, spec_total_count, spec_under_candidate, wf_listing, Entry, EntryV,
    RETENTION_SECS,
};
use crate::paths::{
    clone_path, dir_matches, is_dxf_file_name, is_path_prefix, log_sibling_path, paths_equal,
    spec_is_dxf_name, spec_is_prefix, spec_is_strict_prefix, spec_sibling_path,
};

verus! {

/// What the traversal does with one entry it is about to visit.
#[derive(Clone, Copy, PartialEq, Eq, Debug, Structural)]
pub enum WalkDecision {
    /// A non-directory: it can never be a candidate, but it has no subtree to
    /// prune either.
    SkipEntry,
    /// A directory modified within the retention window: do not enter it, and
    /// do not consider it a candidate.
    SkipSubtree,
    /// Visit normally and try the structural match on it.
    Visit,
}

/// The walk decision for an entry with the given metadata.
pub open spec fn spec_walk_decision(is_dir: bool, elapsed_secs: Option<u64>) -> WalkDecision {
    if !is_dir {
        WalkDecision::SkipEntry
    } else if match elapsed_secs {
        Some(s) => s < RETENTION_SECS,
        None => false,
    } {
        WalkDecision::SkipSubtree
    } else {
        WalkDecision::Visit
    }
}

/// Decides, before descending, what the traversal does with one entry.
///
/// Non-directories are skipped as entries only. A directory whose elapsed
/// time since modification is under the retention window has its whole
/// subtree skipped. A directory whose elapsed time could not be read gives
/// no pruning signal and is visited normally.
pub fn filter_dxf_folders(is_dir: bool, elapsed_secs: Option<u64>) -> (d: WalkDecision)
    ensures
        d == spec_walk_decision(is_dir, elapsed_secs),
        forall|e: EntryV|
            e.is_dir == is_dir && e.elapsed_secs == elapsed_secs ==> ((d
                == WalkDecision::SkipSubtree) == spec_is_fresh(e)),
{
    if !is_dir {
        WalkDecision::SkipEntry
    } else {
        match elapsed_secs {
            Some(s) => if s < RETENTION_SECS {
                WalkDecision::SkipSubtree
            } else {
                WalkDecision::Visit
            },
            None => WalkDecision::Visit,
        }
    }
}

/// Decides whether an entry is a fresh directory, the pruning signal.
pub fn is_fresh_entry(e: &Entry) -> (r: bool)
    ensures
        r == spec_is_fresh(e@),
{
    e.is_dir && match e.elapsed_secs {
        Some(s) => s < RETENTION_SECS,
        None => false,
    }
}

/// Decides whether a path is pruned: some fresh directory stands at it or
/// above it.
pub fn is_pruned(entries: &Vec<Entry>, p: &Vec<String>) -> (r: bool)
    ensures
        r == spec_pruned(entries.deep_view(), p.deep_view()),
{
    let n = entries.len();
    let mut k: usize = 0;
    while k < n
        invariant
            n == entries.deep_view().len(),
            k <= n,
            forall|j: int|
                0 <= j < k ==> !(spec_is_fresh(#[trigger] entries.deep_view()[j])
                    && spec_is_prefix(entries.deep_view()[j].path, p.deep_view())),
        decreases n - k,
    {
        if is_fresh_entry(&entries[k]) && is_path_prefix(&entries[k].path, p) {
            assert(spec_is_fresh(entries.deep_view()[k as int]));
            return true;
        }
        k = k + 1;
    }
    false
}

/// Decides whether a directory entry stands at the path.
pub fn has_dir_at(entries: &Vec<Entry>, p: &Vec<String>) -> (r: bool)
    ensures
        r == spec_dir_at(entries.deep_view(), p.deep_view()),
{
    let n = entries.len();
    let mut k: usize = 0;
    while k < n
        invariant
            n == entries.deep_view().len(),
            k <= n,
            forall|j: int|
                0 <= j < k ==> !((#[trigger] entries.deep_view()[j]).is_dir
                    && entries.deep_view()[j].path == p.deep_view()),
        decreases n - k,
    {
        if entries[k].is_dir && paths_equal(&entries[k].path, p) {
            assert((entries.deep_view()[k as int]).is_dir);
            return true;
        }
        k = k + 1;
    }
    false
}

/// Decides whether a file (non-directory) entry stands at the path.
pub fn has_file_at(entries: &Vec<Entry>, p: &Vec<String>) -> (r: bool)
    ensures
        r == spec_file_at(entries.deep_view(), p.deep_view()),
{
    let n = entries.len();
    let mut k: usize = 0;
    while k < n
        invariant
            n == entries.deep_view().len(),
            k <= n,
            forall|j: int|
                0 <= j < k ==> !(!(#[trigger] entries.deep_view()[j]).is_dir
                    && entries.deep_view()[j].path == p.deep_view()),
        decreases n - k,
    {
        if !entries[k].is_dir && paths_equal(&entries[k].path, p) {
            assert(!(entries.deep_view()[k as int]).is_dir);
            return true;
        }
        k = k + 1;
    }
    false
}

/// Decides whether a path is a candidate directory: a directory stands
/// there, the structural pattern matches, and nothing pruned it.
pub fn is_candidate(entries: &Vec<Entry>, p: &Vec<String>) -> (r: bool)
    ensures
        r == spec_candidate(entries.deep_view(), p.deep_view()),
{
    has_dir_at(entries, p) && dir_matches(p) && !is_pruned(entries, p)
}

/// Decides whether a path lies strictly beneath some candidate directory.
pub fn is_under_candidate(entries: &Vec<Entry>, p: &Vec<String>) -> (r: bool)
    ensures
        r == spec_under_candidate(entries.deep_view(), p.deep_view()),
{
    let n = entries.len();
    let mut k: usize = 0;
    while k < n
        invariant
            n == entries.deep_view().len(),
            k <= n,
            forall|j: int|
                0 <= j < k ==> !(spec_candidate(
                    entries.deep_view(),
                    (#[trigger] entries.deep_view()[j]).path,
                ) && spec_is_strict_prefix(entries.deep_view()[j].path, p.deep_view())),
        decreases n - k,
    {
        if entries[k].path.len() < p.len() && is_candidate(entries, &entries[k].path)
            && is_path_prefix(&entries[k].path, p) {
            assert(spec_candidate(entries.deep_view(), entries.deep_view()[k as int].path));
            return true;
        }
        k = k + 1;
    }
    false
}

/// Decides whether the sweep removes the `.dxf` file at this path.
pub fn is_deleted_path(entries: &Vec<Entry>, p: &Vec<String>) -> (r: bool)
    ensures
        r == spec_deleted(entries.deep_view(), p.deep_view()),
{
    let m = p.len();
    if m == 0 {
        return false;
    }
    has_file_at(entries, p) && is_dxf_file_name(&p[m - 1]) && is_under_candidate(entries, p)
}

/// The paired removal at one `.dxf` path: whether removing the file and then
/// its companion log would both succeed on this listing. The primary file is
/// removed whenever it is found; only the pair's full success is reported.
pub fn remove_file(entries: &Vec<Entry>, p: &Vec<String>) -> (ok: bool)
    requires
        p.deep_view().len() > 0,
        spec_is_dxf_name(p.deep_view().last()),
    ensures
        ok == (spec_file_at(entries.deep_view(), p.deep_view()) && spec_log_removed(
            entries.deep_view(),
            p.deep_view(),
        )),
{
    if !has_file_at(entries, p) {
        return false;
    }
    let sibling = log_sibling_path(p);
    has_file_at(entries, &sibling)
}

/// What the scan of one directory counts at one entry: a `.dxf` file
/// strictly beneath the directory whose companion log is present too. The
/// scan runs at every depth and never looks at file ages.
pub open spec fn spec_scan_counted(
    l: Seq<EntryV>,
    dir: Seq<Seq<char>>,
    p: Seq<Seq<char>>,
) -> bool {
    spec_dxf_file_at(l, p) && spec_is_strict_prefix(dir, p) && spec_log_removed(l, p)
}

/// Scans one directory of the listing and counts the `.dxf` files beneath it
/// whose paired removal fully succeeds.
pub fn remove_files(entries: &Vec<Entry>, dir: &Vec<String>) -> (n: usize)
    ensures
        n == count_matching(
            entries.deep_view(),
            |e: EntryV| spec_scan_counted(entries.deep_view(), dir.deep_view(), e.path),
        ),
{
    let ghost l = entries.deep_view();
    let ghost f = |e: EntryV| spec_scan_counted(l, dir.deep_view(), e.path);
    let len = entries.len();
    let mut n: usize = 0;
    let mut i: usize = 0;
    while i < len
        invariant
            len == l.len(),
            l == entries.deep_view(),
            f == (|e: EntryV| spec_scan_counted(l, dir.deep_view(), e.path)),
            i <= len,
            n == count_matching(l.take(i as int), f),
            n <= i,
        decreases len - i,
    {
        let e = &entries[i];
        let m = e.path.len();
        let hit = m > 0 && dir.len() < m && has_file_at(entries, &e.path) && is_dxf_file_name(
            &e.path[m - 1],
        ) && is_path_prefix(dir, &e.path) && {
            let sibling = log_sibling_path(&e.path);
            has_file_at(entries, &sibling)
        };
        proof {
            assert(l[i as int] == e@);
            assert(hit == f(l[i as int]));
            crate::model::lemma_count_take_step(l, f, i as int);
        }
        if hit {
            n = n + 1;
        }
        i = i + 1;
    }
    proof {
        assert(l.take(len as int) =~= l);
    }
    n
}

/// Lists every candidate directory of the listing: each path at which a
/// directory stands, whose segments match the structural pattern, and which
/// no fresh directory pruned.
pub fn find_candidates(entries: &Vec<Entry>) -> (r: Vec<Vec<String>>)
    ensures
        r.deep_view() == crate::model::spec_candidate_paths(entries.deep_view()),
        forall|p: Seq<Seq<char>>|
            #[trigger] r.deep_view().contains(p) ==> spec_candidate(entries.deep_view(), p),
        forall|p: Seq<Seq<char>>|
            #[trigger] spec_candidate(entries.deep_view(), p) ==> r.deep_view().contains(p),
        wf_listing(entries.deep_view()) ==> forall|j1: int, j2: int|
            0 <= j1 < j2 < r.deep_view().len() ==> r.deep_view()[j1] != r.deep_view()[j2],
{
    let ghost l = entries.deep_view();
    let ghost pred = |e: EntryV| spec_candidate(l, e.path);
    let ghost pf = |e: EntryV| e.path;
    let len = entries.len();
    let mut r: Vec<Vec<String>> = Vec::new();
    let mut k: usize = 0;
    while k < len
        invariant
            len == l.len(),
            l == entries.deep_view(),
            pred == (|e: EntryV| spec_candidate(l, e.path)),
            pf == (|e: EntryV| e.path),
            k <= len,
            r.deep_view() == l.take(k as int).filter(pred).map_values(pf),
            forall|j: int|
                0 <= j < r.deep_view().len() ==> spec_candidate(l, #[trigger] r.deep_view()[j]),
            forall|kk: int|
                0 <= kk < k && spec_candidate(l, (#[trigger] l[kk]).path) ==> r.deep_view()
                    .contains(l[kk].path),
            wf_listing(l) ==> forall|j: int, kk: int|
                0 <= j < r.deep_view().len() && k <= kk < len ==> #[trigger] r.deep_view()[j]
                    != (#[trigger] l[kk]).path,
            wf_listing(l) ==> forall|j1: int, j2: int|
                0 <= j1 < j2 < r.deep_view().len() ==> r.deep_view()[j1] != r.deep_view()[j2],
        decreases len - k,
    {
        let hit = is_candidate(entries, &entries[k].path);
        proof {
            reveal(Seq::filter);
            assert(l.take(k as int + 1).drop_last() =~= l.take(k as int));
            assert(l.take(k as int + 1).last() == l[k as int]);
            assert(hit == pred(l[k as int]));
        }
        if hit {
            let ghost old_r = r.deep_view();
            r.push(clone_path(&entries[k].path));
            proof {
                assert(r.deep_view() =~= old_r.push(l[k as int].path));
                assert(forall|j: int|
                    0 <= j < old_r.len() ==> r.deep_view()[j] == #[trigger] old_r[j]);
                assert(r.deep_view()[old_r.len() as int] == l[k as int].path);
                assert(forall|p: Seq<Seq<char>>|
                    old_r.contains(p) ==> #[trigger] r.deep_view().contains(p));
            }
        }
        proof {
            assert(r.deep_view() =~= l.take(k as int + 1).filter(pred).map_values(pf));
        }
        k = k + 1;
    }
    proof {
        assert(l.take(len as int) =~= l);
        assert forall|p: Seq<Seq<char>>| #[trigger] r.deep_view().contains(p) implies spec_candidate(
            l,
            p,
        ) by {
            let j = choose|j: int| 0 <= j < r.deep_view().len() && r.deep_view()[j] == p;
        }
        assert forall|p: Seq<Seq<char>>| #[trigger] spec_candidate(l, p) implies r.deep_view()
            .contains(p) by {
            let kk = choose|kk: int| 0 <= kk < l.len() && (#[trigger] l[kk]).is_dir && l[kk].path == p;
        }
    }
    r
}

/// Plans one run: every `.dxf` path the sweep removes, each exactly once.
pub fn plan_deletions(entries: &Vec<Entry>) -> (plan: Vec<Vec<String>>)
    ensures
        plan.deep_view() == crate::model::spec_deletion_plan(entries.deep_view()),
        forall|p: Seq<Seq<char>>|
            #[trigger] plan.deep_view().contains(p) ==> spec_deleted(entries.deep_view(), p),
        forall|p: Seq<Seq<char>>|
            #[trigger] spec_deleted(entries.deep_view(), p) ==> plan.deep_view().contains(p),
        wf_listing(entries.deep_view()) ==> forall|j1: int, j2: int|
            0 <= j1 < j2 < plan.deep_view().len() ==> plan.deep_view()[j1] != plan.deep_view()[j2],
{
    let ghost l = entries.deep_view();
    let ghost pred = |e: EntryV| spec_deleted(l, e.path);
    let ghost pf = |e: EntryV| e.path;
    let len = entries.len();
    let mut plan: Vec<Vec<String>> = Vec::new();
    let mut k: usize = 0;
    while k < len
        invariant
            len == l.len(),
            l == entries.deep_view(),
            pred == (|e: EntryV| spec_deleted(l, e.path)),
            pf == (|e: EntryV| e.path),
            k <= len,
            plan.deep_view() == l.take(k as int).filter(pred).map_values(pf),
            forall|j: int|
                0 <= j < plan.deep_view().len() ==> spec_deleted(
                    l,
                    #[trigger] plan.deep_view()[j],
                ),
            forall|kk: int|
                0 <= kk < k && spec_deleted(l, (#[trigger] l[kk]).path) ==> plan.deep_view()
                    .contains(l[kk].path),
            wf_listing(l) ==> forall|j: int, kk: int|
                0 <= j < plan.deep_view().len() && k <= kk < len ==> #[trigger] plan.deep_view()[j]
                    != (#[trigger] l[kk]).path,
            wf_listing(l) ==> forall|j1: int, j2: int|
                0 <= j1 < j2 < plan.deep_view().len() ==> plan.deep_view()[j1]
                    != plan.deep_view()[j2],
        decreases len - k,
    {
        let hit = is_deleted_path(entries, &entries[k].path);
        proof {
            reveal(Seq::filter);
            assert(l.take(k as int + 1).drop_last() =~= l.take(k as int));
            assert(l.take(k as int + 1).last() == l[k as int]);
            assert(hit == pred(l[k as int]));
        }
        if hit {
            let ghost old_p = plan.deep_view();
            plan.push(clone_path(&entries[k].path));
            proof {
                assert(plan.deep_view() =~= old_p.push(l[k as int].path));
                assert(forall|j: int|
                    0 <= j < old_p.len() ==> plan.deep_view()[j] == #[trigger] old_p[j]);
                assert(plan.deep_view()[old_p.len() as int] == l[k as int].path);
                assert(forall|p: Seq<Seq<char>>|
                    old_p.contains(p) ==> #[trigger] plan.deep_view().contains(p));
            }
        }
        proof {
            assert(plan.deep_view() =~= l.take(k as int + 1).filter(pred).map_values(pf));
        }
        k = k + 1;
    }
    proof {
        assert(l.take(len as int) =~= l);
        assert forall|p: Seq<Seq<char>>| #[trigger] plan.deep_view().contains(p) implies spec_deleted(
            l,
            p,
        ) by {
            let j = choose|j: int| 0 <= j < plan.deep_view().len() && plan.deep_view()[j] == p;
        }
        assert forall|p: Seq<Seq<char>>| #[trigger] spec_deleted(l, p) implies plan.deep_view()
            .contains(p) by {
            let kk = choose|kk: int|
                0 <= kk < l.len() && !(#[trigger] l[kk]).is_dir && l[kk].path == p;
        }
    }
    plan
}

/// Counts the fully successful pairs of one run over the whole listing: the
/// `.dxf` files the sweep removes whose companion log is removed too. Each
/// file counts once, whatever number of candidate scans reach it.
pub fn sweep_count(entries: &Vec<Entry>) -> (n: usize)
    ensures
        n == spec_total_count(entries.deep_view()),
{
    let ghost l = entries.deep_view();
    let ghost f = |e: EntryV| spec_counted(l, e.path);
    let len = entries.len();
    let mut n: usize = 0;
    let mut i: usize = 0;
    while i < len
        invariant
            len == l.len(),
            l == entries.deep_view(),
            f == (|e: EntryV| spec_counted(l, e.path)),
            i <= len,
            n == count_matching(l.take(i as int), f),
            n <= i,
        decreases len - i,
    {
        let e = &entries[i];
        let hit = is_deleted_path(entries, &e.path) && {
            let sibling = log_sibling_path(&e.path);
            has_file_at(entries, &sibling)
        };
        proof {
            assert(l[i as int] == e@);
            assert(hit == f(l[i as int]));
            crate::model::lemma_count_take_step(l, f, i as int);
        }
        if hit {
            n = n + 1;
        }
        i = i + 1;
    }
    proof {
        assert(l.take(len as int) =~= l);
    }
    n
}

/// Decides whether one run removes this entry: a swept `.dxf` file, or the
/// companion log of one.
pub fn is_removed_entry(entries: &Vec<Entry>, e: &Entry) -> (r: bool)
    ensures
        r == spec_removed_entry(entries.deep_view(), e@),
{
    let ghost l = entries.deep_view();
    if e.is_dir {
        return false;
    }
    if is_deleted_path(entries, &e.path) {
        return true;
    }
    let len = entries.len();
    let mut k: usize = 0;
    while k < len
        invariant
            len == l.len(),
            l == entries.deep_view(),
            k <= len,
            !e@.is_dir,
            forall|j: int|
                0 <= j < k ==> !(spec_deleted(l, (#[trigger] l[j]).path) && spec_sibling_path(
                    l[j].path,
                ) == e@.path),
        decreases len - k,
    {
        if is_deleted_path(entries, &entries[k].path) {
            let sibling = log_sibling_path(&entries[k].path);
            if paths_equal(&sibling, &e.path) {
                assert(spec_deleted(l, l[k as int].path));
                assert(spec_sibling_path(l[k as int].path) == e@.path);
                return true;
            }
        }
        k = k + 1;
    }
    false
}

/// Copies one entry.
pub fn clone_entry(e: &Entry) -> (r: Entry)
    ensures
        r@ == e@,
{
    let r = Entry { path: clone_path(&e.path), is_dir: e.is_dir, elapsed_secs: e.elapsed_secs };
    proof {
        assert(r@ =~= e@);
    }
    r
}

/// The listing one run leaves behind: every removed entry gone, all others
/// kept in order.
pub fn after_sweep(entries: &Vec<Entry>) -> (r: Vec<Entry>)
    ensures
        r.deep_view() == spec_after_sweep(entries.deep_view()),
{
    let ghost l = entries.deep_view();
    let ghost pred = |e: EntryV| !spec_removed_entry(l, e);
    let len = entries.len();
    let mut r: Vec<Entry> = Vec::new();
    let mut i: usize = 0;
    proof {
        reveal(Seq::filter);
    }
    while i < len
        invariant
            len == l.len(),
            l == entries.deep_view(),
            pred == (|e: EntryV| !spec_removed_entry(l, e)),
            i <= len,
            r.deep_view() == l.take(i as int).filter(pred),
        decreases len - i,
    {
        let e = &entries[i];
        let removed = is_removed_entry(entries, e);
        proof {
            reveal(Seq::filter);
            assert(l.take(i as int + 1).drop_last() =~= l.take(i as int));
            assert(l.take(i as int + 1).last() == l[i as int]);
            assert(l[i as int] == e@);
        }
        if !removed {
            let ghost old_r = r.deep_view();
            r.push(clone_entry(e));
            proof {
                assert(r.deep_view() =~= old_r.push(e@));
            }
        }
        proof {
            assert(r.deep_view() =~= l.take(i as int + 1).filter(pred));
        }
        i = i + 1;
    }
    proof {
        assert(l.take(len as int) =~= l);
    }
    r
}

/// Checks that a listing is well formed: nonempty paths, no path twice.
pub fn check_listing(entries: &Vec<Entry>) -> (r: bool)
    ensures
        r == wf_listing(entries.deep_view()),
{
    let ghost l = entries.deep_view();
    let len = entries.len();
    let mut k: usize = 0;
    while k < len
        invariant
            len == l.len(),
            l == entries.deep_view(),
            k <= len,
            forall|j: int| 0 <= j < k ==> (#[trigger] l[j].path).len() > 0,
            forall|j1: int, j2: int| 0 <= j1 < j2 < k ==> l[j1].path != l[j2].path,
        decreases len - k,
    {
        if entries[k].path.len() == 0 {
            assert(l[k as int].path.len() == 0);
            return false;
        }
        let mut j: usize = 0;
        while j < k
            invariant
                len == l.len(),
                l == entries.deep_view(),
                j <= k < len,
                forall|jj: int| 0 <= jj < j ==> (#[trigger] l[jj]).path != l[k as int].path,
            decreases k - j,
        {
            if paths_equal(&entries[j].path, &entries[k].path) {
                assert(l[j as int].path == l[k as int].path);
                return false;
            }
            j = j + 1;
        }
        k = k + 1;
    }
    true
}

} // verus!
