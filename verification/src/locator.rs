//! Workspace discovery over a model of a scanned directory tree.
//!
//! The application walks the filesystem and reports every directory that
//! directly contains the marker file, each as a [`DirPath`]: the sequence
//! of path components, each component a byte string. [`find_workspaces`]
//! then keeps exactly the reported directories that have no reported
//! proper ancestor — once a workspace root is found, nothing nested below
//! it counts as an independent workspace — and returns them sorted
//! lexicographically on path components, without duplicates.

use vstd::prelude::*;

use crate::order::bytes_eq;
use crate::order::bytes_lt_exec;
use crate::order::is_strict_prefix;
use crate::order::lemma_path_lt_trans;
use crate::order::lemma_path_lt_trichotomy;
use crate::order::path_lt;

verus! {

/// A directory path as a sequence of components, each a byte string.
/// The view is the sequence of component byte sequences.
#[derive(Debug, PartialEq, Eq)]
pub struct DirPath {
    pub parts: Vec<Vec<u8>>,
}

impl View for DirPath {
    type V = Seq<Seq<u8>>;

    open spec fn view(&self) -> Seq<Seq<u8>> {
        Seq::new(self.parts@.len(), |i: int| self.parts@[i]@)
    }
}

/// The file name that marks a directory as a workspace root.
pub open spec fn marker_name() -> Seq<u8> {
    seq![83u8, 99u8, 97u8, 114u8, 98u8, 46u8, 116u8, 111u8, 109u8, 108u8]
}

/// Whether `name` is exactly the marker file name.
pub fn is_marker_file_name(name: &Vec<u8>) -> (r: bool)
    ensures
        r == (name@ == marker_name()),
{
    proof {
        assert(marker_name().len() == 10);
        assert(marker_name()[0] == 83u8 && marker_name()[1] == 99u8 && marker_name()[2] == 97u8
            && marker_name()[3] == 114u8 && marker_name()[4] == 98u8 && marker_name()[5] == 46u8
            && marker_name()[6] == 116u8 && marker_name()[7] == 111u8 && marker_name()[8] == 109u8
            && marker_name()[9] == 108u8);
    }
    if name.len() != 10 {
        return false;
    }
    let r = name[0] == 83u8 && name[1] == 99u8 && name[2] == 97u8 && name[3] == 114u8 && name[4]
        == 98u8 && name[5] == 46u8 && name[6] == 116u8 && name[7] == 111u8 && name[8] == 109u8
        && name[9] == 108u8;
    proof {
        if r {
            assert(name@ =~= marker_name());
        }
    }
    r
}

/// Whether some entry of `s` has view `p`.
pub open spec fn contains_path(s: Seq<DirPath>, p: Seq<Seq<u8>>) -> bool {
    exists|k: int| 0 <= k < s.len() && s[k]@ == p
}

/// Whether some entry of `marked` is a proper ancestor of `p`.
pub open spec fn has_marked_strict_ancestor(marked: Seq<DirPath>, p: Seq<Seq<u8>>) -> bool {
    exists|k: int| 0 <= k < marked.len() && is_strict_prefix(marked[k]@, p)
}

/// `p` is a workspace of the report `marked`: it was reported as directly
/// containing the marker file, and no reported directory is a proper
/// ancestor of it.
pub open spec fn is_workspace(marked: Seq<DirPath>, p: Seq<Seq<u8>>) -> bool {
    contains_path(marked, p) && !has_marked_strict_ancestor(marked, p)
}

/// The entries are strictly increasing in the component-wise
/// lexicographic order, hence also pairwise distinct.
pub open spec fn strictly_sorted(s: Seq<DirPath>) -> bool {
    forall|i: int, j: int| 0 <= i < j < s.len() ==> path_lt(s[i]@, s[j]@)
}

/// Copies a byte string.
fn copy_bytes(a: &Vec<u8>) -> (r: Vec<u8>)
    ensures
        r@ == a@,
{
    let mut r: Vec<u8> = Vec::new();
    let mut i: usize = 0;
    while i < a.len()
        invariant
            0 <= i <= a@.len(),
            r@ =~= a@.subrange(0, i as int),
        decreases a@.len() - i,
    {
        r.push(a[i]);
        i = i + 1;
    }
    proof {
        assert(r@ =~= a@);
    }
    r
}

/// Copies a path.
fn copy_path(p: &DirPath) -> (r: DirPath)
    ensures
        r@ == p@,
{
    let mut parts: Vec<Vec<u8>> = Vec::new();
    let mut i: usize = 0;
    while i < p.parts.len()
        invariant
            0 <= i <= p.parts@.len(),
            parts@.len() == i,
            forall|k: int| 0 <= k < i ==> #[trigger] parts@[k]@ == p.parts@[k]@,
        decreases p.parts@.len() - i,
    {
        parts.push(copy_bytes(&p.parts[i]));
        i = i + 1;
    }
    let r = DirPath { parts };
    proof {
        assert(r@ =~= p@);
    }
    r
}

/// Whether two paths hold the same components.
pub fn path_eq(p: &DirPath, q: &DirPath) -> (r: bool)
    ensures
        r == (p@ == q@),
{
    if p.parts.len() != q.parts.len() {
        return false;
    }
    let mut i: usize = 0;
    while i < p.parts.len()
        invariant
            p@.len() == q@.len(),
            0 <= i <= p@.len(),
            forall|k: int| 0 <= k < i ==> p@[k] == q@[k],
        decreases p@.len() - i,
    {
        if !bytes_eq(&p.parts[i], &q.parts[i]) {
            proof {
                assert(p@[i as int] == p.parts@[i as int]@);
                assert(q@[i as int] == q.parts@[i as int]@);
            }
            return false;
        }
        i = i + 1;
    }
    proof {
        assert(p@ =~= q@);
    }
    true
}

/// Decides [`path_lt`] on paths.
pub fn path_lt_exec(p: &DirPath, q: &DirPath) -> (r: bool)
    ensures
        r == path_lt(p@, q@),
{
    let mut i: usize = 0;
    let n: usize = if p.parts.len() < q.parts.len() {
        p.parts.len()
    } else {
        q.parts.len()
    };
    proof {
        assert(p@.skip(0) =~= p@);
        assert(q@.skip(0) =~= q@);
    }
    while i < n
        invariant
            n == if p@.len() < q@.len() {
                p@.len()
            } else {
                q@.len()
            },
            0 <= i <= n,
            path_lt(p@, q@) == path_lt(p@.skip(i as int), q@.skip(i as int)),
        decreases n - i,
    {
        proof {
            let sp = p@.skip(i as int);
            let sq = q@.skip(i as int);
            assert(sp[0] == p@[i as int]);
            assert(sq[0] == q@[i as int]);
            if p@[i as int] == q@[i as int] {
                assert(sp.drop_first() =~= p@.skip(i as int + 1));
                assert(sq.drop_first() =~= q@.skip(i as int + 1));
            }
        }
        if bytes_eq(&p.parts[i], &q.parts[i]) {
            i = i + 1;
        } else {
            return bytes_lt_exec(&p.parts[i], &q.parts[i]);
        }
    }
    proof {
        let sp = p@.skip(i as int);
        let sq = q@.skip(i as int);
        if p@.len() < q@.len() {
            assert(sp.len() == 0);
            assert(sq.len() > 0);
        } else if p@.len() > q@.len() {
            assert(sq.len() == 0);
        } else {
            assert(sp.len() == 0);
            assert(sq.len() == 0);
        }
    }
    p.parts.len() < q.parts.len()
}

/// Decides whether `p` is a proper ancestor of `q`.
pub fn is_strict_prefix_exec(p: &DirPath, q: &DirPath) -> (r: bool)
    ensures
        r == is_strict_prefix(p@, q@),
{
    if p.parts.len() >= q.parts.len() {
        return false;
    }
    let mut i: usize = 0;
    while i < p.parts.len()
        invariant
            p@.len() < q@.len(),
            0 <= i <= p@.len(),
            forall|k: int| 0 <= k < i ==> p@[k] == q@[k],
        decreases p@.len() - i,
    {
        if !bytes_eq(&p.parts[i], &q.parts[i]) {
            proof {
                assert(q@.subrange(0, p@.len() as int)[i as int] == q@[i as int]);
            }
            return false;
        }
        i = i + 1;
    }
    proof {
        assert(q@.subrange(0, p@.len() as int) =~= p@);
    }
    true
}

/// Extending the inspected prefix of the report by one entry extends the
/// paths it contains by exactly that entry's path.
proof fn lemma_contains_path_extend(s: Seq<DirPath>, i: int, p: Seq<Seq<u8>>)
    requires
        0 <= i < s.len(),
    ensures
        contains_path(s.subrange(0, i + 1), p) <==> (contains_path(s.subrange(0, i), p) || s[i]@
            == p),
{
    let a = s.subrange(0, i);
    let b = s.subrange(0, i + 1);
    if contains_path(b, p) {
        let k = choose|k: int| 0 <= k < b.len() && b[k]@ == p;
        if k < i {
            assert(a[k]@ == p);
        } else {
            assert(s[i]@ == p);
        }
    }
    if contains_path(a, p) {
        let k = choose|k: int| 0 <= k < a.len() && a[k]@ == p;
        assert(b[k]@ == p);
    }
    if s[i]@ == p {
        assert(b[i]@ == p);
    }
}

/// Inserts `p` into the sorted workspace list, keeping it strictly
/// sorted; a path already present is not duplicated.
fn insert_sorted(result: &mut Vec<DirPath>, p: DirPath)
    requires
        strictly_sorted(old(result)@),
    ensures
        strictly_sorted(final(result)@),
        forall|q: Seq<Seq<u8>>| #[trigger] contains_path(final(result)@, q) <==> (contains_path(
            old(result)@,
            q,
        ) || q == p@),
{
    let ghost s0 = result@;
    let mut k: usize = 0;
    while k < result.len() && path_lt_exec(&result[k], &p)
        invariant
            result@ == s0,
            strictly_sorted(result@),
            0 <= k <= result@.len(),
            forall|t: int| 0 <= t < k ==> path_lt(#[trigger] result@[t]@, p@),
        decreases result@.len() - k,
    {
        k = k + 1;
    }
    if k < result.len() && path_eq(&result[k], &p) {
        // Already present: the list stays as it is.
        proof {
            assert forall|q: Seq<Seq<u8>>| #[trigger] contains_path(result@, q) <==> (
            contains_path(s0, q) || q == p@) by {
                if q == p@ {
                    assert(result@[k as int]@ == q);
                }
            }
        }
    } else {
        proof {
            if k < s0.len() {
                lemma_path_lt_trichotomy(s0[k as int]@, p@);
            }
            assert forall|t: int| k <= t < s0.len() implies path_lt(p@, #[trigger] s0[t]@) by {
                if t > k {
                    assert(path_lt(s0[k as int]@, s0[t]@));
                    lemma_path_lt_trans(p@, s0[k as int]@, s0[t]@);
                }
            }
        }
        result.insert(k, p);
        proof {
            let s1 = result@;
            assert(s1 == s0.insert(k as int, p));
            s0.insert_ensures(k as int, p);
            assert forall|i: int, j: int| 0 <= i < j < s1.len() implies path_lt(
                s1[i]@,
                s1[j]@,
            ) by {
                if j < k {
                    assert(s1[i] == s0[i] && s1[j] == s0[j]);
                } else if j == k {
                    assert(s1[i] == s0[i]);
                    assert(path_lt(s0[i]@, p@));
                } else {
                    assert(s1[j] == s0[j - 1]);
                    if i < k {
                        assert(s1[i] == s0[i]);
                        assert(path_lt(s0[i]@, s0[j - 1]@));
                    } else if i == k {
                        assert(path_lt(p@, s0[j - 1]@));
                    } else {
                        assert(s1[i] == s0[i - 1]);
                        assert(path_lt(s0[i - 1]@, s0[j - 1]@));
                    }
                }
            }
            assert forall|q: Seq<Seq<u8>>| #[trigger] contains_path(s1, q) <==> (contains_path(
                s0,
                q,
            ) || q == p@) by {
                if contains_path(s1, q) {
                    let t = choose|t: int| 0 <= t < s1.len() && s1[t]@ == q;
                    if t < k {
                        assert(s0[t]@ == q);
                    } else if t == k {
                        assert(q == p@);
                    } else {
                        assert(s0[t - 1]@ == q);
                    }
                }
                if contains_path(s0, q) {
                    let t = choose|t: int| 0 <= t < s0.len() && s0[t]@ == q;
                    if t < k {
                        assert(s1[t]@ == q);
                    } else {
                        assert(s1[t + 1]@ == q);
                    }
                }
                if q == p@ {
                    assert(s1[k as int]@ == q);
                }
            }
        }
    }
}

/// Finds the workspaces in a report of marked directories.
///
/// `marked` lists every directory of the scanned tree that directly
/// contains the marker file, in any order and possibly with duplicates.
/// The result holds exactly the reported directories with no reported
/// proper ancestor, strictly sorted lexicographically on path
/// components — so each workspace appears exactly once, and nothing
/// below a workspace root is reported independently.
pub fn find_workspaces(marked: &Vec<DirPath>) -> (r: Vec<DirPath>)
    ensures
        strictly_sorted(r@),
        forall|p: Seq<Seq<u8>>| #[trigger] contains_path(r@, p) <==> is_workspace(marked@, p),
{
    let mut result: Vec<DirPath> = Vec::new();
    let mut i: usize = 0;
    while i < marked.len()
        invariant
            0 <= i <= marked@.len(),
            strictly_sorted(result@),
            forall|p: Seq<Seq<u8>>| #[trigger] contains_path(result@, p) <==> (is_workspace(
                marked@,
                p,
            ) && contains_path(marked@.subrange(0, i as int), p)),
        decreases marked@.len() - i,
    {
        let mut has_anc = false;
        let mut j: usize = 0;
        while j < marked.len() && !has_anc
            invariant
                0 <= j <= marked@.len(),
                i < marked@.len(),
                has_anc ==> has_marked_strict_ancestor(marked@, marked@[i as int]@),
                !has_anc ==> forall|t: int| 0 <= t < j ==> !is_strict_prefix(
                    #[trigger] marked@[t]@,
                    marked@[i as int]@,
                ),
            decreases marked@.len() - j,
        {
            if is_strict_prefix_exec(&marked[j], &marked[i]) {
                has_anc = true;
            }
            j = j + 1;
        }
        let ghost r0 = result@;
        if !has_anc {
            proof {
                let cur = marked@[i as int]@;
                assert(contains_path(marked@, cur));
                assert(is_workspace(marked@, cur));
            }
            insert_sorted(&mut result, copy_path(&marked[i]));
        }
        proof {
            let cur = marked@[i as int]@;
            assert forall|p: Seq<Seq<u8>>| #[trigger] contains_path(result@, p) <==> (
            is_workspace(marked@, p) && contains_path(marked@.subrange(0, i as int + 1), p)) by {
                lemma_contains_path_extend(marked@, i as int, p);
                if has_anc && p == cur && contains_path(result@, p) {
                    // the list is unchanged, so whatever it holds was
                    // already a workspace of the full report
                    assert(is_workspace(marked@, p));
                }
            }
        }
        i = i + 1;
    }
    proof {
        assert(marked@.subrange(0, marked@.len() as int) =~= marked@);
        assert forall|p: Seq<Seq<u8>>| #[trigger] contains_path(result@, p) <==> is_workspace(
            marked@,
            p,
        ) by {
            if is_workspace(marked@, p) {
                assert(contains_path(marked@.subrange(0, marked@.len() as int), p));
            }
        }
    }
    result
}

/// Pruning: once a directory is reported as containing the marker file,
/// no directory strictly below it is a workspace — whether or not the
/// nested directory was itself reported. With the membership contract of
/// [`find_workspaces`], no descendant of a reported directory appears in
/// the result.
pub proof fn lemma_pruning(marked: Seq<DirPath>, d: Seq<Seq<u8>>, w: Seq<Seq<u8>>)
    requires
        contains_path(marked, d),
        is_strict_prefix(d, w),
    ensures
        !is_workspace(marked, w),
{
    let k = choose|k: int| 0 <= k < marked.len() && marked[k]@ == d;
    assert(is_strict_prefix(marked[k]@, w));
}

/// Completeness: every reported directory that has no reported proper
/// ancestor is a workspace. With the membership contract of
/// [`find_workspaces`] it appears in the result, and by
/// [`lemma_strictly_sorted_distinct`] it appears there exactly once.
pub proof fn lemma_completeness(marked: Seq<DirPath>, p: Seq<Seq<u8>>)
    requires
        contains_path(marked, p),
        !has_marked_strict_ancestor(marked, p),
    ensures
        is_workspace(marked, p),
{
}

/// The discovered set is ancestor-free: among the workspaces of a
/// report — hence among the entries of what [`find_workspaces`]
/// returns — no path is a proper ancestor of another.
pub proof fn lemma_result_ancestor_free(marked: Seq<DirPath>, r: Seq<DirPath>)
    requires
        forall|p: Seq<Seq<u8>>| #[trigger] contains_path(r, p) <==> is_workspace(marked, p),
    ensures
        forall|i: int, j: int|
            0 <= i < r.len() && 0 <= j < r.len() ==> !is_strict_prefix(r[i]@, r[j]@),
{
    assert forall|i: int, j: int|
        0 <= i < r.len() && 0 <= j < r.len() implies !is_strict_prefix(r[i]@, r[j]@) by {
        if is_strict_prefix(r[i]@, r[j]@) {
            assert(contains_path(r, r[i]@));
            assert(contains_path(r, r[j]@));
            assert(is_workspace(marked, r[i]@));
            assert(is_workspace(marked, r[j]@));
            lemma_pruning(marked, r[i]@, r[j]@);
        }
    }
}

/// A strictly sorted list holds each path at most once: entries at
/// distinct positions have distinct views.
pub proof fn lemma_strictly_sorted_distinct(s: Seq<DirPath>)
    requires
        strictly_sorted(s),
    ensures
        forall|i: int, j: int| 0 <= i < j < s.len() ==> s[i]@ != s[j]@,
{
    assert forall|i: int, j: int| 0 <= i < j < s.len() implies s[i]@ != s[j]@ by {
        lemma_path_lt_trichotomy(s[i]@, s[j]@);
    }
}

/// Two strictly sorted lists holding the same set of paths are equal
/// position by position: with the membership contract of
/// [`find_workspaces`], two runs over reports of the same marked
/// directories — in whatever order the filesystem yielded them — produce
/// identical, identically ordered output.
pub proof fn lemma_sorted_output_deterministic(r1: Seq<DirPath>, r2: Seq<DirPath>)
    requires
        strictly_sorted(r1),
        strictly_sorted(r2),
        forall|p: Seq<Seq<u8>>| contains_path(r1, p) <==> contains_path(r2, p),
    ensures
        r1.len() == r2.len(),
        forall|i: int| 0 <= i < r1.len() ==> r1[i]@ == r2[i]@,
    decreases r1.len() + r2.len(),
{
    if r1.len() == 0 && r2.len() == 0 {
    } else if r1.len() == 0 {
        assert(r2[0]@ == r2[0]@);
        assert(contains_path(r2, r2[0]@));
        assert(contains_path(r1, r2[0]@));
        assert(false);
    } else if r2.len() == 0 {
        assert(r1[0]@ == r1[0]@);
        assert(contains_path(r1, r1[0]@));
        assert(contains_path(r2, r1[0]@));
        assert(false);
    } else {
        assert(contains_path(r1, r1[0]@));
        assert(contains_path(r2, r2[0]@));
        assert(contains_path(r2, r1[0]@));
        assert(contains_path(r1, r2[0]@));
        let j = choose|j: int| 0 <= j < r2.len() && r2[j]@ == r1[0]@;
        let k = choose|k: int| 0 <= k < r1.len() && r1[k]@ == r2[0]@;
        if r1[0]@ != r2[0]@ {
            assert(j > 0);
            assert(k > 0);
            assert(path_lt(r2[0]@, r2[j]@));
            assert(path_lt(r1[0]@, r1[k]@));
            lemma_path_lt_trichotomy(r1[0]@, r2[0]@);
            assert(false);
        }
        let t1 = r1.drop_first();
        let t2 = r2.drop_first();
        assert forall|a: int, b: int| 0 <= a < b < t1.len() implies path_lt(t1[a]@, t1[b]@) by {
            assert(t1[a] == r1[a + 1] && t1[b] == r1[b + 1]);
        }
        assert forall|a: int, b: int| 0 <= a < b < t2.len() implies path_lt(t2[a]@, t2[b]@) by {
            assert(t2[a] == r2[a + 1] && t2[b] == r2[b + 1]);
        }
        assert forall|p: Seq<Seq<u8>>| contains_path(t1, p) <==> contains_path(t2, p) by {
            lemma_tail_membership(r1, p);
            lemma_tail_membership(r2, p);
        }
        lemma_sorted_output_deterministic(t1, t2);
        assert forall|i: int| 0 <= i < r1.len() implies r1[i]@ == r2[i]@ by {
            if i > 0 {
                assert(t1[i - 1]@ == t2[i - 1]@);
            }
        }
    }
}

/// Membership in the tail of a strictly sorted list is membership in the
/// list minus its head.
proof fn lemma_tail_membership(s: Seq<DirPath>, p: Seq<Seq<u8>>)
    requires
        strictly_sorted(s),
        s.len() > 0,
    ensures
        contains_path(s.drop_first(), p) <==> (contains_path(s, p) && p != s[0]@),
{
    let t = s.drop_first();
    if contains_path(t, p) {
        let k = choose|k: int| 0 <= k < t.len() && t[k]@ == p;
        assert(s[k + 1]@ == p);
        assert(path_lt(s[0]@, s[k + 1]@));
        lemma_path_lt_trichotomy(s[0]@, s[k + 1]@);
    }
    if contains_path(s, p) && p != s[0]@ {
        let k = choose|k: int| 0 <= k < s.len() && s[k]@ == p;
        assert(k > 0);
        assert(t[k - 1]@ == p);
    }
}

} // verus!
