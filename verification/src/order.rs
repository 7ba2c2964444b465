//! Lexicographic ordering of paths.
//!
//! A path is modelled as a sequence of components, each component a byte
//! string. Workspaces are ordered lexicographically on path components
//! (components themselves compare bytewise), which makes the discovered
//! workspace list reproducible regardless of filesystem iteration order.

use vstd::prelude::*;

verus! {

/// Strict bytewise lexicographic order on byte strings: a proper prefix
/// precedes its extensions, otherwise the first differing byte decides.
pub open spec fn bytes_lt(a: Seq<u8>, b: Seq<u8>) -> bool
    decreases a.len(),
{
    if b.len() == 0 {
        false
    } else if a.len() == 0 {
        true
    } else if a[0] < b[0] {
        true
    } else if a[0] > b[0] {
        false
    } else {
        bytes_lt(a.drop_first(), b.drop_first())
    }
}

/// Strict lexicographic order on component sequences: a proper ancestor
/// precedes its descendants, otherwise the first differing component
/// decides by [`bytes_lt`].
pub open spec fn path_lt(p: Seq<Seq<u8>>, q: Seq<Seq<u8>>) -> bool
    decreases p.len(),
{
    if q.len() == 0 {
        false
    } else if p.len() == 0 {
        true
    } else if p[0] == q[0] {
        path_lt(p.drop_first(), q.drop_first())
    } else {
        bytes_lt(p[0], q[0])
    }
}

/// `p` is an ancestor of `q` or `q` itself: a prefix of its component
/// sequence.
pub open spec fn is_prefix(p: Seq<Seq<u8>>, q: Seq<Seq<u8>>) -> bool {
    p.len() <= q.len() && q.subrange(0, p.len() as int) == p
}

/// `p` is a proper ancestor of `q`: a strictly shorter prefix of its
/// component sequence.
pub open spec fn is_strict_prefix(p: Seq<Seq<u8>>, q: Seq<Seq<u8>>) -> bool {
    p.len() < q.len() && q.subrange(0, p.len() as int) == p
}

/// `bytes_lt` is a strict total order: for any two byte strings exactly
/// one of `a < b`, `a == b`, `b < a` holds.
pub proof fn lemma_bytes_lt_trichotomy(a: Seq<u8>, b: Seq<u8>)
    ensures
        bytes_lt(a, b) || bytes_lt(b, a) || a == b,
        bytes_lt(a, b) ==> !bytes_lt(b, a),
        bytes_lt(a, b) ==> a != b,
    decreases a.len() + b.len(),
{
    if a.len() == 0 && b.len() == 0 {
        assert(a =~= b);
    } else if a.len() == 0 || b.len() == 0 {
    } else if a[0] == b[0] {
        lemma_bytes_lt_trichotomy(a.drop_first(), b.drop_first());
        if a.drop_first() == b.drop_first() {
            assert(a.len() == b.len());
            assert forall|i: int| 0 <= i < a.len() implies a[i] == b[i] by {
                if i > 0 {
                    assert(a.drop_first()[i - 1] == b.drop_first()[i - 1]);
                }
            }
            assert(a =~= b);
        }
        if a == b {
            assert(a.drop_first() =~= b.drop_first());
        }
    } else {
        if a == b {
            assert(a[0] == b[0]);
        }
    }
}

/// `bytes_lt` is transitive.
pub proof fn lemma_bytes_lt_trans(a: Seq<u8>, b: Seq<u8>, c: Seq<u8>)
    requires
        bytes_lt(a, b),
        bytes_lt(b, c),
    ensures
        bytes_lt(a, c),
    decreases a.len() + b.len() + c.len(),
{
    if a.len() == 0 {
    } else {
        // b and c are nonempty because something precedes them.
        if a[0] == b[0] && b[0] == c[0] {
            lemma_bytes_lt_trans(a.drop_first(), b.drop_first(), c.drop_first());
        }
    }
}

/// `path_lt` is a strict total order on component sequences.
pub proof fn lemma_path_lt_trichotomy(p: Seq<Seq<u8>>, q: Seq<Seq<u8>>)
    ensures
        path_lt(p, q) || path_lt(q, p) || p == q,
        path_lt(p, q) ==> !path_lt(q, p),
        path_lt(p, q) ==> p != q,
    decreases p.len() + q.len(),
{
    if p.len() == 0 && q.len() == 0 {
        assert(p =~= q);
    } else if p.len() == 0 || q.len() == 0 {
    } else if p[0] == q[0] {
        lemma_path_lt_trichotomy(p.drop_first(), q.drop_first());
        if p.drop_first() == q.drop_first() {
            assert(p.len() == q.len());
            assert forall|i: int| 0 <= i < p.len() implies p[i] == q[i] by {
                if i > 0 {
                    assert(p.drop_first()[i - 1] == q.drop_first()[i - 1]);
                }
            }
            assert(p =~= q);
        }
        if p == q {
            assert(p.drop_first() =~= q.drop_first());
        }
    } else {
        lemma_bytes_lt_trichotomy(p[0], q[0]);
        if p == q {
            assert(p[0] == q[0]);
        }
    }
}

/// `path_lt` is transitive.
pub proof fn lemma_path_lt_trans(p: Seq<Seq<u8>>, q: Seq<Seq<u8>>, r: Seq<Seq<u8>>)
    requires
        path_lt(p, q),
        path_lt(q, r),
    ensures
        path_lt(p, r),
    decreases p.len() + q.len() + r.len(),
{
    if p.len() == 0 {
    } else {
        if p[0] == q[0] && q[0] == r[0] {
            lemma_path_lt_trans(p.drop_first(), q.drop_first(), r.drop_first());
        } else if p[0] == q[0] {
            // p[0] == q[0], bytes_lt(q[0], r[0])
        } else if q[0] == r[0] {
            // bytes_lt(p[0], q[0]), q[0] == r[0]
        } else {
            lemma_bytes_lt_trans(p[0], q[0], r[0]);
            lemma_bytes_lt_trichotomy(p[0], r[0]);
        }
    }
}

/// Whether two byte strings hold the same bytes.
pub fn bytes_eq(a: &Vec<u8>, b: &Vec<u8>) -> (r: bool)
    ensures
        r == (a@ == b@),
{
    if a.len() != b.len() {
        return false;
    }
    let mut i: usize = 0;
    while i < a.len()
        invariant
            a@.len() == b@.len(),
            0 <= i <= a@.len(),
            forall|j: int| 0 <= j < i ==> a@[j] == b@[j],
        decreases a@.len() - i,
    {
        if a[i] != b[i] {
            return false;
        }
        i = i + 1;
    }
    proof {
        assert(a@ =~= b@);
    }
    true
}

/// Decides [`bytes_lt`] on byte vectors.
pub fn bytes_lt_exec(a: &Vec<u8>, b: &Vec<u8>) -> (r: bool)
    ensures
        r == bytes_lt(a@, b@),
{
    let mut i: usize = 0;
    let n: usize = if a.len() < b.len() {
        a.len()
    } else {
        b.len()
    };
    proof {
        assert(a@.skip(0) =~= a@);
        assert(b@.skip(0) =~= b@);
    }
    while i < n
        invariant
            n == if a@.len() < b@.len() {
                a@.len()
            } else {
                b@.len()
            },
            0 <= i <= n,
            bytes_lt(a@, b@) == bytes_lt(a@.skip(i as int), b@.skip(i as int)),
        decreases n - i,
    {
        proof {
            let sa = a@.skip(i as int);
            let sb = b@.skip(i as int);
            assert(sa[0] == a@[i as int]);
            assert(sb[0] == b@[i as int]);
            if a@[i as int] == b@[i as int] {
                assert(sa.drop_first() =~= a@.skip(i + 1 as int));
                assert(sb.drop_first() =~= b@.skip(i + 1 as int));
            }
        }
        if a[i] < b[i] {
            return true;
        }
        if a[i] > b[i] {
            return false;
        }
        i = i + 1;
    }
    proof {
        let sa = a@.skip(i as int);
        let sb = b@.skip(i as int);
        if a@.len() < b@.len() {
            assert(sa.len() == 0);
            assert(sb.len() > 0);
        } else if a@.len() > b@.len() {
            assert(sb.len() == 0);
        } else {
            assert(sa.len() == 0);
            assert(sb.len() == 0);
        }
    }
    a.len() < b.len()
}

} // verus!
