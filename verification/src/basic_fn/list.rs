//! The list-comprehension builder: for each element of the source on which
//! the predicate holds, emit the mapper's image, in source order, into a
//! fresh vector.

use vstd::prelude::*;

use crate::basic_fn::model::{decides, mask_keep, maps_to};

verus! {

/// `r` is a comprehension run over `s`: some answer sequence of the
/// predicate `p` selects a subsequence of `s`, and `r` is its image under
/// the mapper `f`.
pub open spec fn comprehends<T, U, F: Fn(T) -> U, P: Fn(&T) -> bool>(
    f: F,
    p: P,
    s: Seq<T>,
    r: Seq<U>,
) -> bool {
    exists|keep: Seq<bool>| #[trigger] decides(p, s, keep) && maps_to(f, mask_keep(s, keep), r)
}

/// List comprehension: keeps the elements on which `p` answers true and
/// emits `f` of each, preserving source order.
pub fn ls<T, U, F: Fn(T) -> U, P: Fn(&T) -> bool>(f: F, v: Vec<T>, p: P) -> (r: Vec<U>)
    requires
        forall|i: int| 0 <= i < v@.len() ==> call_requires(p, (&v@[i],)),
        forall|i: int| 0 <= i < v@.len() ==> call_requires(f, (v@[i],)),
    ensures
        comprehends(f, p, v@, r@),
{
    let ghost vs = v@;
    let ghost mut keep: Seq<bool> = Seq::empty();
    let ghost mut kept: Seq<T> = Seq::empty();
    let mut r: Vec<U> = Vec::new();
    for x in it: v.into_iter()
        invariant
            it.seq() == vs,
            keep.len() == it.index(),
            decides(p, vs.take(it.index() as int), keep),
            kept == mask_keep(vs.take(it.index() as int), keep),
            maps_to(f, kept, r@),
            forall|i: int| 0 <= i < vs.len() ==> call_requires(p, (&vs[i],)),
            forall|i: int| 0 <= i < vs.len() ==> call_requires(f, (vs[i],)),
    {
        let ghost j = it.index() as int;
        let b = p(&x);
        if b {
            let ghost x0 = x;
            let y = f(x);
            r.push(y);
            proof {
                kept = kept.push(x0);
            }
        }
        proof {
            let keep0 = keep;
            keep = keep.push(b);
            assert(vs.take(j + 1).drop_last() =~= vs.take(j));
            assert(keep.drop_last() =~= keep0);
        }
    }
    proof {
        assert(vs.take(vs.len() as int) =~= vs);
    }
    r
}

} // verus!
