//! Path-segment predicates: the structural match pattern for candidate
//! directories, the `.dxf` file-name test, and the `.log` sibling name.
//!
//! A path is kept as its segments, root-relative: `Vec<String>` in executable
//! code, `Seq<Seq<char>>` in specifications.

use vstd::prelude::*;

verus! {

/// A directory path matches the structural pattern when its final segment is
/// `DXF` and some earlier segment is `Fab` (any number of segments, including
/// none, may stand between the two).
pub open spec fn spec_dir_matches(p: Seq<Seq<char>>) -> bool {
    &&& p.len() >= 2
    &&& p.last() == "DXF"@
    &&& exists|i: int| 0 <= i < p.len() - 1 && p[i] == "Fab"@
}

/// Decides the structural match pattern on a segment path.
pub fn dir_matches(path: &Vec<String>) -> (r: bool)
    ensures
        r == spec_dir_matches(path.deep_view()),
{
    let n = path.len();
    if n < 2 {
        return false;
    }
    let dxf = String::from_str("DXF");
    if !path[n - 1].eq(&dxf) {
        return false;
    }
    let fab = String::from_str("Fab");
    let mut i: usize = 0;
    while i < n - 1
        invariant
            n == path.deep_view().len(),
            2 <= n,
            i <= n - 1,
            fab@ == "Fab"@,
            path.deep_view().last() == "DXF"@,
            forall|j: int| 0 <= j < i ==> path.deep_view()[j] != "Fab"@,
        decreases n - 1 - i,
    {
        if path[i].eq(&fab) {
            assert(path.deep_view()[i as int] == "Fab"@);
            return true;
        }
        i = i + 1;
    }
    false
}

/// A file name carries the `.dxf` extension: at least four characters, the
/// last four being `.dxf`.
pub open spec fn spec_is_dxf_name(n: Seq<char>) -> bool {
    n.len() >= 4 && n.subrange(n.len() - 4, n.len() as int) == ".dxf"@
}

/// Decides the `.dxf` file-name test.
pub fn is_dxf_file_name(name: &String) -> (r: bool)
    ensures
        r == spec_is_dxf_name(name@),
{
    let s = name.as_str();
    let n = s.unicode_len();
    if n < 4 {
        return false;
    }
    proof {
        reveal_strlit(".dxf");
    }
    let r = s.get_char(n - 4) == '.' && s.get_char(n - 3) == 'd' && s.get_char(n - 2) == 'x'
        && s.get_char(n - 1) == 'f';
    proof {
        if r {
            assert(name@.subrange(n - 4, n as int) =~= ".dxf"@);
        } else {
            if name@.subrange(n - 4, n as int) == ".dxf"@ {
                assert(name@[n - 4] == ".dxf"@[0]);
                assert(name@[n - 3] == ".dxf"@[1]);
                assert(name@[n - 2] == ".dxf"@[2]);
                assert(name@[n - 1] == ".dxf"@[3]);
            }
        }
    }
    r
}

/// The name of the companion log file: the `.dxf` extension replaced by
/// `.log`.
pub open spec fn spec_log_name(n: Seq<char>) -> Seq<char> {
    n.take(n.len() - 4) + ".log"@
}

/// Builds the companion log file's name from a `.dxf` file's name.
pub fn log_sibling_name(name: &String) -> (r: String)
    requires
        spec_is_dxf_name(name@),
    ensures
        r@ == spec_log_name(name@),
{
    let s = name.as_str();
    let n = s.unicode_len();
    let stem = s.substring_char(0, n - 4);
    stem.to_owned().concat(".log")
}

/// The path of the companion log file: the final segment's `.dxf` extension
/// replaced by `.log`, every other segment kept.
pub open spec fn spec_sibling_path(p: Seq<Seq<char>>) -> Seq<Seq<char>> {
    p.update(p.len() - 1, spec_log_name(p.last()))
}

/// Builds the companion log file's path from a `.dxf` file's path.
pub fn log_sibling_path(path: &Vec<String>) -> (r: Vec<String>)
    requires
        path.deep_view().len() > 0,
        spec_is_dxf_name(path.deep_view().last()),
    ensures
        r.deep_view() == spec_sibling_path(path.deep_view()),
{
    let n = path.len();
    let mut r: Vec<String> = Vec::new();
    let mut i: usize = 0;
    while i < n - 1
        invariant
            n == path.deep_view().len(),
            1 <= n,
            i <= n - 1,
            r.deep_view().len() == i,
            forall|j: int| 0 <= j < i ==> r.deep_view()[j] == path.deep_view()[j],
        decreases n - 1 - i,
    {
        r.push(path[i].clone());
        i = i + 1;
    }
    r.push(log_sibling_name(&path[n - 1]));
    proof {
        assert(r.deep_view() =~= spec_sibling_path(path.deep_view()));
    }
    r
}

/// One segment path is a prefix of another (the two may be equal).
pub open spec fn spec_is_prefix(p: Seq<Seq<char>>, q: Seq<Seq<char>>) -> bool {
    p.len() <= q.len() && p == q.take(p.len() as int)
}

/// One segment path is a proper prefix of another: the second lies strictly
/// beneath the first.
pub open spec fn spec_is_strict_prefix(p: Seq<Seq<char>>, q: Seq<Seq<char>>) -> bool {
    spec_is_prefix(p, q) && p.len() < q.len()
}

/// Decides whether `a` is a prefix of `b`.
pub fn is_path_prefix(a: &Vec<String>, b: &Vec<String>) -> (r: bool)
    ensures
        r == spec_is_prefix(a.deep_view(), b.deep_view()),
{
    let n = a.len();
    if n > b.len() {
        assert(a.deep_view().len() > b.deep_view().len());
        return false;
    }
    let mut i: usize = 0;
    while i < n
        invariant
            n == a.deep_view().len(),
            n <= b.deep_view().len(),
            i <= n,
            forall|j: int| 0 <= j < i ==> a.deep_view()[j] == b.deep_view()[j],
        decreases n - i,
    {
        if !a[i].eq(&b[i]) {
            proof {
                let ad = a.deep_view();
                let bd = b.deep_view();
                if ad == bd.take(ad.len() as int) {
                    assert(ad[i as int] == bd.take(ad.len() as int)[i as int]);
                }
            }
            return false;
        }
        i = i + 1;
    }
    proof {
        assert(a.deep_view() =~= b.deep_view().take(a.deep_view().len() as int));
    }
    true
}

/// Decides whether two segment paths are equal.
pub fn paths_equal(a: &Vec<String>, b: &Vec<String>) -> (r: bool)
    ensures
        r == (a.deep_view() == b.deep_view()),
{
    if a.len() != b.len() {
        assert(a.deep_view().len() != b.deep_view().len());
        return false;
    }
    let r = is_path_prefix(a, b);
    proof {
        if r {
            assert(b.deep_view().take(a.deep_view().len() as int) =~= b.deep_view());
        } else {
            if a.deep_view() == b.deep_view() {
                assert(b.deep_view().take(a.deep_view().len() as int) =~= b.deep_view());
            }
        }
    }
    r
}

/// Copies a segment path.
pub fn clone_path(p: &Vec<String>) -> (r: Vec<String>)
    ensures
        r.deep_view() == p.deep_view(),
{
    let n = p.len();
    let mut r: Vec<String> = Vec::new();
    let mut i: usize = 0;
    while i < n
        invariant
            n == p.deep_view().len(),
            i <= n,
            r.deep_view().len() == i,
            forall|j: int| 0 <= j < i ==> r.deep_view()[j] == p.deep_view()[j],
        decreases n - i,
    {
        r.push(p[i].clone());
        i = i + 1;
    }
    proof {
        assert(r.deep_view() =~= p.deep_view());
    }
    r
}

} // verus!
