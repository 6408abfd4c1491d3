//! The mathematical model shared by the combinator contracts: which
//! subsequence a predicate keeps, how a fold walks its accumulator through a
//! sequence, and what it means for a comparator to order a sequence stably.

use vstd::prelude::*;

use vstd::std_specs::cmp::PartialEqSpec;

verus! {

use core::cmp::Ordering;

/// The subsequence of `s` at the positions where `keep` is true, in order.
pub open spec fn mask_keep<T>(s: Seq<T>, keep: Seq<bool>) -> Seq<T>
    recommends
        keep.len() == s.len(),
    decreases s.len(),
{
    if s.len() == 0 {
        Seq::empty()
    } else if keep.last() {
        mask_keep(s.drop_last(), keep.drop_last()).push(s.last())
    } else {
        mask_keep(s.drop_last(), keep.drop_last())
    }
}

/// The subsequence of `s` at the positions where `keep` is false, in order.
pub open spec fn mask_drop<T>(s: Seq<T>, keep: Seq<bool>) -> Seq<T>
    recommends
        keep.len() == s.len(),
    decreases s.len(),
{
    if s.len() == 0 {
        Seq::empty()
    } else if !keep.last() {
        mask_drop(s.drop_last(), keep.drop_last()).push(s.last())
    } else {
        mask_drop(s.drop_last(), keep.drop_last())
    }
}

/// `keep` records, element by element, an answer that the predicate `f`
/// can give on `s`.
pub open spec fn decides<T, F: Fn(&T) -> bool>(f: F, s: Seq<T>, keep: Seq<bool>) -> bool {
    &&& keep.len() == s.len()
    &&& forall|i: int| 0 <= i < s.len() ==> call_ensures(f, (&s[i],), #[trigger] keep[i])
}

/// `r` is a run of `f` over `s`: it keeps exactly the elements for which
/// `f` answered true, in their original order.
pub open spec fn filters_to<T, F: Fn(&T) -> bool>(f: F, s: Seq<T>, r: Seq<T>) -> bool {
    exists|keep: Seq<bool>| #[trigger] decides(f, s, keep) && r == mask_keep(s, keep)
}

/// `r` is a run of `f` over `s` that keeps exactly the elements for which
/// `f` answered false, in their original order.
pub open spec fn filters_out_to<T, F: Fn(&T) -> bool>(f: F, s: Seq<T>, r: Seq<T>) -> bool {
    exists|keep: Seq<bool>| #[trigger] decides(f, s, keep) && r == mask_drop(s, keep)
}

/// `r` is an element-by-element image of `s` under the mapper `f`.
pub open spec fn maps_to<T, U, F: Fn(T) -> U>(f: F, s: Seq<T>, r: Seq<U>) -> bool {
    &&& r.len() == s.len()
    &&& forall|i: int| 0 <= i < s.len() ==> call_ensures(f, (s[i],), #[trigger] r[i])
}

/// `states` is the run of accumulators that folding `f` over `s` walks
/// through: it starts at `init`, and each step is an answer `f` can give on
/// the previous accumulator and the next element.
pub open spec fn fold_chain<T, R, F: Fn(R, T) -> R>(
    f: F,
    init: R,
    s: Seq<T>,
    states: Seq<R>,
) -> bool {
    &&& states.len() == s.len() + 1
    &&& states[0] == init
    &&& forall|i: int| 0 <= i < s.len() ==> call_ensures(f, (states[i], s[i]), #[trigger] states[i + 1])
}

/// `r` is a result that folding `f` over `s` from `init` can produce.
pub open spec fn folds_to<T, R, F: Fn(R, T) -> R>(f: F, init: R, s: Seq<T>, r: R) -> bool {
    exists|states: Seq<R>| #[trigger] fold_chain(f, init, s, states) && r == states.last()
}

/// The sum of a sequence of machine integers, as a mathematical integer.
pub open spec fn sum_int(s: Seq<i64>) -> int
    decreases s.len(),
{
    if s.len() == 0 {
        0
    } else {
        sum_int(s.drop_last()) + s.last()
    }
}

/// The product of a sequence of machine integers, as a mathematical integer.
pub open spec fn product_int(s: Seq<i64>) -> int
    decreases s.len(),
{
    if s.len() == 0 {
        1
    } else {
        product_int(s.drop_last()) * s.last()
    }
}

/// `r` is the outcome of looking `key` up among the pairs of `s`: the
/// first pair whose key equals `key`, or nothing when no pair matches.
/// The exact clause holds when equality on `K` obeys its specification;
/// a returned pair is in any case one of the pairs of `s`.
pub open spec fn finds_key<K: PartialEq, V>(key: K, s: Seq<(K, V)>, r: Option<(K, V)>) -> bool {
    &&& (K::obeys_eq_spec() ==> match r {
        Option::Some(p) => exists|i: int|
            0 <= i < s.len() && p == s[i] && key.eq_spec(&(#[trigger] s[i]).0) && forall|j: int|
                0 <= j < i ==> !key.eq_spec(&(#[trigger] s[j]).0),
        Option::None => forall|j: int| 0 <= j < s.len() ==> !key.eq_spec(&(#[trigger] s[j]).0),
    })
    &&& match r {
        Option::Some(p) => exists|i: int| 0 <= i < s.len() && p == #[trigger] s[i],
        Option::None => true,
    }
}

/// Division truncating toward zero, the semantics of the machine's signed
/// division (spec-mode `/` rounds toward negative infinity on mixed signs).
pub open spec fn div_trunc(x: int, y: int) -> int
    recommends
        y != 0,
{
    let a = if x < 0 {
        -x
    } else {
        x
    };
    let b = if y < 0 {
        -y
    } else {
        y
    };
    if (x < 0) != (y < 0) {
        -(a / b)
    } else {
        a / b
    }
}

/// The remainder left by truncating division: it carries the sign of the
/// dividend.
pub open spec fn rem_trunc(x: int, y: int) -> int
    recommends
        y != 0,
{
    x - div_trunc(x, y) * y
}

/// The comparator `cmp` never answers `Greater` on `(x, y)`: under a
/// well-behaved comparator this is "x sorts at or before y".
pub open spec fn cmp_le<T, F: Fn(&T, &T) -> Ordering>(cmp: F, x: T, y: T) -> bool {
    forall|o: Ordering| call_ensures(cmp, (&x, &y), o) ==> o != Ordering::Greater
}

/// `cmp` behaves as a total preorder on `T`: it can be asked about any pair,
/// gives one answer per pair, answers opposite pairs consistently, and its
/// at-or-before relation is transitive.
pub open spec fn valid_cmp<T, F: Fn(&T, &T) -> Ordering>(cmp: F) -> bool {
    &&& forall|x: T, y: T| #[trigger] call_requires(cmp, (&x, &y))
    &&& forall|x: T, y: T, o1: Ordering, o2: Ordering|
        call_ensures(cmp, (&x, &y), o1) && call_ensures(cmp, (&x, &y), o2) ==> o1 == o2
    &&& forall|x: T, y: T, o1: Ordering, o2: Ordering|
        call_ensures(cmp, (&x, &y), o1) && call_ensures(cmp, (&y, &x), o2) ==> ((o1
            == Ordering::Less <==> o2 == Ordering::Greater) && (o1 == Ordering::Equal <==> o2
            == Ordering::Equal))
    &&& forall|x: T, y: T, z: T|
        #![trigger cmp_le(cmp, x, y), cmp_le(cmp, y, z)]
        cmp_le(cmp, x, y) && cmp_le(cmp, y, z) ==> cmp_le(cmp, x, z)
}

/// `perm` lists distinct positions of a sequence of length `n`.
pub open spec fn is_permutation(perm: Seq<int>, n: int) -> bool {
    &&& perm.len() == n
    &&& forall|i: int| 0 <= i < n ==> 0 <= #[trigger] perm[i] < n
    &&& forall|i: int, j: int| 0 <= i < j < n ==> perm[i] != perm[j]
}

/// `r` is the stable sort of `s` under `cmp`, witnessed by the permutation
/// `perm`: `r` rearranges `s`, is ordered by `cmp`, and elements tied under
/// `cmp` keep their original relative order.
pub open spec fn stable_sort_of<T, F: Fn(&T, &T) -> Ordering>(
    cmp: F,
    s: Seq<T>,
    r: Seq<T>,
    perm: Seq<int>,
) -> bool {
    &&& is_permutation(perm, s.len() as int)
    &&& r.len() == s.len()
    &&& forall|i: int| 0 <= i < r.len() ==> r[i] == s[#[trigger] perm[i]]
    &&& forall|i: int, j: int| 0 <= i < j < r.len() ==> cmp_le(cmp, #[trigger] r[i], #[trigger] r[j])
    &&& forall|i: int, j: int|
        0 <= i < j < r.len() && cmp_le(cmp, r[j], r[i]) ==> #[trigger] perm[i] < #[trigger] perm[j]
}

} // verus!
