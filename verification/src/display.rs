//! Rendering a workspace path for the discovery listing.
//!
//! A workspace under the starting directory is shown relative to it; the
//! starting directory itself is shown as `.`; anything else is shown in
//! full. Components are joined with `/`.

use vstd::prelude::*;

use crate::locator::DirPath;
use crate::order::bytes_eq;
use crate::order::is_prefix;

verus! {

/// The components joined with `/` between them.
pub open spec fn join_components(p: Seq<Seq<u8>>) -> Seq<u8>
    decreases p.len(),
{
    if p.len() == 0 {
        Seq::empty()
    } else if p.len() == 1 {
        p[0]
    } else {
        join_components(p.drop_last()) + seq![47u8] + p.last()
    }
}

/// How a path is listed against the starting directory `base`: `.` for
/// the base itself, the components below the base joined when the path
/// lies under it, the whole path joined otherwise.
pub open spec fn display_path_spec(path: Seq<Seq<u8>>, base: Seq<Seq<u8>>) -> Seq<u8> {
    if is_prefix(base, path) {
        if path.len() == base.len() {
            seq![46u8]
        } else {
            join_components(path.skip(base.len() as int))
        }
    } else {
        join_components(path)
    }
}

/// Appends the bytes of `a` to `out`.
fn append_bytes(out: &mut Vec<u8>, a: &Vec<u8>)
    ensures
        final(out)@ == old(out)@ + a@,
{
    let mut i: usize = 0;
    while i < a.len()
        invariant
            0 <= i <= a@.len(),
            out@ =~= old(out)@ + a@.subrange(0, i as int),
        decreases a@.len() - i,
    {
        out.push(a[i]);
        i = i + 1;
    }
    proof {
        assert(out@ =~= old(out)@ + a@);
    }
}

/// Joins the components of `path` from `start` on with `/`.
fn join_from(path: &DirPath, start: usize) -> (r: Vec<u8>)
    requires
        start <= path.parts@.len(),
    ensures
        r@ == join_components(path@.skip(start as int)),
{
    let mut out: Vec<u8> = Vec::new();
    let mut i: usize = start;
    proof {
        assert(path@.subrange(start as int, start as int) =~= Seq::<Seq<u8>>::empty());
    }
    while i < path.parts.len()
        invariant
            start <= i <= path@.len(),
            out@ == join_components(path@.subrange(start as int, i as int)),
        decreases path@.len() - i,
    {
        if i > start {
            out.push(47);
        }
        append_bytes(&mut out, &path.parts[i]);
        proof {
            let s1 = path@.subrange(start as int, i as int + 1);
            assert(s1.drop_last() =~= path@.subrange(start as int, i as int));
            assert(s1.last() == path@[i as int]);
            assert(path@[i as int] == path.parts@[i as int]@);
            if i == start {
                assert(out@ =~= s1[0]);
            } else {
                assert(out@ =~= join_components(s1.drop_last()) + seq![47u8] + s1.last());
            }
        }
        i = i + 1;
    }
    proof {
        assert(path@.subrange(start as int, path@.len() as int) =~= path@.skip(start as int));
    }
    out
}

/// Decides whether `p`'s components are a prefix of `q`'s.
fn is_prefix_exec(p: &DirPath, q: &DirPath) -> (r: bool)
    ensures
        r == is_prefix(p@, q@),
{
    if p.parts.len() > q.parts.len() {
        return false;
    }
    let mut i: usize = 0;
    while i < p.parts.len()
        invariant
            p@.len() <= q@.len(),
            0 <= i <= p@.len(),
            forall|k: int| 0 <= k < i ==> p@[k] == q@[k],
        decreases p@.len() - i,
    {
        if !bytes_eq(&p.parts[i], &q.parts[i]) {
            proof {
                assert(p@[i as int] == p.parts@[i as int]@);
                assert(q@[i as int] == q.parts@[i as int]@);
                assert(q@.subrange(0, p@.len() as int)[i as int] == q@[i as int]);
            }
            return false;
        }
        i = i + 1;
    }
    proof {
        assert(q@.subrange(0, p@.len() as int) =~= p@);
    }
    true
}

/// Renders `path` for the listing, relative to the starting directory
/// `base` where possible.
pub fn display_path(path: &DirPath, base: &DirPath) -> (r: Vec<u8>)
    ensures
        r@ == display_path_spec(path@, base@),
{
    if is_prefix_exec(base, path) {
        if path.parts.len() == base.parts.len() {
            let mut out: Vec<u8> = Vec::new();
            out.push(46);
            proof {
                assert(out@ =~= seq![46u8]);
            }
            out
        } else {
            join_from(path, base.parts.len())
        }
    } else {
        let r = join_from(path, 0);
        proof {
            assert(path@.skip(0) =~= path@);
        }
        r
    }
}

} // verus!
