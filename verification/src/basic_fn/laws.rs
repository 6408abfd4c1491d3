//! The library's laws: statements that relate several combinators, proved
//! once and for all over the model. The exactness lemmas turn the
//! relational contracts of the higher-order combinators into equations
//! whenever the supplied function answers deterministically.

use vstd::prelude::*;

use vstd::seq_lib::group_to_multiset_ensures;
use vstd::seq_lib::lemma_multiset_commutative;

use crate::basic_fn::list::comprehends;
use crate::basic_fn::model::{
    decides, filters_to, filters_out_to, folds_to, fold_chain, mask_drop, mask_keep, maps_to,
};

verus! {

/// Reversing twice gives back the sequence: the round trip through
/// `reverse` is the identity.
pub proof fn lemma_reverse_round_trip<T>(s: Seq<T>)
    ensures
        s.reverse().reverse() == s,
{
    assert(s.reverse().reverse() =~= s);
}

/// Taking the first `n` elements and skipping them partition the sequence:
/// their concatenation is the sequence itself.
pub proof fn lemma_take_skip_concat<T>(s: Seq<T>, n: int)
    requires
        0 <= n <= s.len(),
    ensures
        s.take(n) + s.skip(n) == s,
{
    assert(s.take(n) + s.skip(n) =~= s);
}

proof fn lemma_mask_partition<T>(s: Seq<T>, keep: Seq<bool>)
    requires
        keep.len() == s.len(),
    ensures
        mask_keep(s, keep).to_multiset().add(mask_drop(s, keep).to_multiset())
            == s.to_multiset(),
    decreases s.len(),
{
    broadcast use group_to_multiset_ensures;
    broadcast use vstd::multiset::group_multiset_axioms;

    if s.len() == 0 {
        assert(mask_keep(s, keep).to_multiset().add(mask_drop(s, keep).to_multiset())
            =~= s.to_multiset());
    } else {
        let s0 = s.drop_last();
        let k0 = keep.drop_last();
        let x = s.last();
        lemma_mask_partition(s0, k0);
        assert(s0.push(x) =~= s);
        assert(s0.push(x).to_multiset() == s0.to_multiset().insert(x));
        if keep.last() {
            assert(mask_keep(s, keep) == mask_keep(s0, k0).push(x));
            assert(mask_keep(s0, k0).push(x).to_multiset() == mask_keep(s0, k0).to_multiset().insert(x));
            assert(mask_keep(s, keep).to_multiset().add(mask_drop(s, keep).to_multiset())
                =~= s.to_multiset());
        } else {
            assert(mask_drop(s, keep) == mask_drop(s0, k0).push(x));
            assert(mask_drop(s0, k0).push(x).to_multiset() == mask_drop(s0, k0).to_multiset().insert(x));
            assert(mask_keep(s, keep).to_multiset().add(mask_drop(s, keep).to_multiset())
                =~= s.to_multiset());
        }
    }
}

/// Partition completeness: what a deterministic predicate keeps and what
/// it drops, taken together and with order ignored, are exactly the input.
pub proof fn lemma_partition_complete<T, F: Fn(&T) -> bool>(
    f: F,
    s: Seq<T>,
    r1: Seq<T>,
    r2: Seq<T>,
)
    requires
        forall|x: T, b1: bool, b2: bool|
            call_ensures(f, (&x,), b1) && call_ensures(f, (&x,), b2) ==> b1 == b2,
        filters_to(f, s, r1),
        filters_out_to(f, s, r2),
    ensures
        (r1 + r2).to_multiset() == s.to_multiset(),
{
    let keep1 = choose|keep: Seq<bool>| #[trigger] decides(f, s, keep) && r1 == mask_keep(s, keep);
    let keep2 = choose|keep: Seq<bool>| #[trigger] decides(f, s, keep) && r2 == mask_drop(s, keep);
    assert forall|i: int| 0 <= i < s.len() implies keep1[i] == keep2[i] by {
        assert(call_ensures(f, (&s[i],), keep1[i]));
        assert(call_ensures(f, (&s[i],), keep2[i]));
    }
    assert(keep1 =~= keep2);
    lemma_mask_partition(s, keep1);
    lemma_multiset_commutative(r1, r2);
}

proof fn lemma_mask_keep_is_filter<T>(s: Seq<T>, keep: Seq<bool>, p: spec_fn(T) -> bool)
    requires
        keep.len() == s.len(),
        forall|i: int| 0 <= i < s.len() ==> #[trigger] keep[i] == p(s[i]),
    ensures
        mask_keep(s, keep) == s.filter(p),
    decreases s.len(),
{
    reveal(Seq::filter);
    if s.len() == 0 {
        assert(s =~= Seq::<T>::empty());
    } else {
        assert(keep[s.len() - 1] == p(s[s.len() - 1]));
        lemma_mask_keep_is_filter(s.drop_last(), keep.drop_last(), p);
        assert(keep.last() == p(s.last()));
        if keep.last() {
            assert(mask_keep(s, keep) == mask_keep(s.drop_last(), keep.drop_last()).push(s.last()));
            assert(s.filter(p) == s.drop_last().filter(p).push(s.last()));
        } else {
            assert(mask_keep(s, keep) == mask_keep(s.drop_last(), keep.drop_last()));
            assert(s.filter(p) == s.drop_last().filter(p));
        }
    }
}

/// A deterministic predicate makes the filter contract an equation: the
/// run keeps exactly the elements satisfying `p`, in order.
pub proof fn lemma_filter_exact<T, F: Fn(&T) -> bool>(
    f: F,
    s: Seq<T>,
    r: Seq<T>,
    p: spec_fn(T) -> bool,
)
    requires
        forall|x: T, b: bool| call_ensures(f, (&x,), b) ==> b == p(x),
        filters_to(f, s, r),
    ensures
        r == s.filter(p),
{
    let keep = choose|keep: Seq<bool>| #[trigger] decides(f, s, keep) && r == mask_keep(s, keep);
    assert forall|i: int| 0 <= i < s.len() implies #[trigger] keep[i] == p(s[i]) by {
        assert(call_ensures(f, (&s[i],), keep[i]));
    }
    lemma_mask_keep_is_filter(s, keep, p);
}

proof fn lemma_mask_drop_is_filter<T>(s: Seq<T>, keep: Seq<bool>, p: spec_fn(T) -> bool)
    requires
        keep.len() == s.len(),
        forall|i: int| 0 <= i < s.len() ==> #[trigger] keep[i] == p(s[i]),
    ensures
        mask_drop(s, keep) == s.filter(|x: T| !p(x)),
    decreases s.len(),
{
    reveal(Seq::filter);
    if s.len() == 0 {
        assert(s =~= Seq::<T>::empty());
    } else {
        assert(keep[s.len() - 1] == p(s[s.len() - 1]));
        lemma_mask_drop_is_filter(s.drop_last(), keep.drop_last(), p);
        assert(keep.last() == p(s.last()));
        let np = |x: T| !p(x);
        if !keep.last() {
            assert(mask_drop(s, keep) == mask_drop(s.drop_last(), keep.drop_last()).push(s.last()));
            assert(s.filter(np) == s.drop_last().filter(np).push(s.last()));
        } else {
            assert(mask_drop(s, keep) == mask_drop(s.drop_last(), keep.drop_last()));
            assert(s.filter(np) == s.drop_last().filter(np));
        }
        assert(s.filter(np) == s.filter(|x: T| !p(x)));
    }
}

/// A deterministic predicate makes the filter-complement contract an
/// equation: the run keeps exactly the elements refuting `p`, in order.
pub proof fn lemma_filter_not_exact<T, F: Fn(&T) -> bool>(
    f: F,
    s: Seq<T>,
    r: Seq<T>,
    p: spec_fn(T) -> bool,
)
    requires
        forall|x: T, b: bool| call_ensures(f, (&x,), b) ==> b == p(x),
        filters_out_to(f, s, r),
    ensures
        r == s.filter(|x: T| !p(x)),
{
    let keep = choose|keep: Seq<bool>| #[trigger] decides(f, s, keep) && r == mask_drop(s, keep);
    assert forall|i: int| 0 <= i < s.len() implies #[trigger] keep[i] == p(s[i]) by {
        assert(call_ensures(f, (&s[i],), keep[i]));
    }
    lemma_mask_drop_is_filter(s, keep, p);
}

/// A deterministic mapper makes the map contract an equation: the result
/// is the element-by-element image of the input under `g`.
pub proof fn lemma_map_exact<T, U, F: Fn(T) -> U>(f: F, s: Seq<T>, r: Seq<U>, g: spec_fn(T) -> U)
    requires
        forall|x: T, y: U| call_ensures(f, (x,), y) ==> y == g(x),
        maps_to(f, s, r),
    ensures
        r == s.map_values(g),
{
    assert forall|i: int| 0 <= i < s.len() implies #[trigger] r[i] == g(s[i]) by {
        assert(call_ensures(f, (s[i],), r[i]));
    }
    assert(r =~= s.map_values(g));
}

proof fn lemma_fold_chain_exact<T, R, F: Fn(R, T) -> R>(
    f: F,
    init: R,
    s: Seq<T>,
    states: Seq<R>,
    g: spec_fn(R, T) -> R,
)
    requires
        forall|a: R, x: T, b: R| call_ensures(f, (a, x), b) ==> b == g(a, x),
        fold_chain(f, init, s, states),
    ensures
        states.last() == s.fold_left(init, g),
    decreases s.len(),
{
    if s.len() == 0 {
    } else {
        assert(fold_chain(f, init, s.drop_last(), states.drop_last()));
        lemma_fold_chain_exact(f, init, s.drop_last(), states.drop_last(), g);
        assert(call_ensures(f, (states[s.len() - 1], s[s.len() - 1]), states[s.len() as int]));
    }
}

/// A deterministic folding function makes the left-fold contract an
/// equation: the result is the mathematical left fold of `g` over the
/// sequence.
pub proof fn lemma_foldl_exact<T, R, F: Fn(R, T) -> R>(
    f: F,
    init: R,
    s: Seq<T>,
    r: R,
    g: spec_fn(R, T) -> R,
)
    requires
        forall|a: R, x: T, b: R| call_ensures(f, (a, x), b) ==> b == g(a, x),
        folds_to(f, init, s, r),
    ensures
        r == s.fold_left(init, g),
{
    let states = choose|states: Seq<R>|
        #[trigger] fold_chain(f, init, s, states) && r == states.last();
    lemma_fold_chain_exact(f, init, s, states, g);
}

/// A deterministic folding function makes the right-fold contract an
/// equation: the result is the left fold of `g` over the reversed
/// sequence.
pub proof fn lemma_foldr_exact<T, R, F: Fn(R, T) -> R>(
    f: F,
    init: R,
    s: Seq<T>,
    r: R,
    g: spec_fn(R, T) -> R,
)
    requires
        forall|a: R, x: T, b: R| call_ensures(f, (a, x), b) ==> b == g(a, x),
        folds_to(f, init, s.reverse(), r),
    ensures
        r == s.reverse().fold_left(init, g),
{
    lemma_foldl_exact(f, init, s.reverse(), r, g);
}

/// Deterministic mapper and predicate make the comprehension contract an
/// equation: the run is the image under `g` of the elements satisfying
/// `q`, in order.
pub proof fn lemma_ls_exact<T, U, F: Fn(T) -> U, P: Fn(&T) -> bool>(
    f: F,
    p: P,
    s: Seq<T>,
    r: Seq<U>,
    g: spec_fn(T) -> U,
    q: spec_fn(T) -> bool,
)
    requires
        forall|x: T, y: U| call_ensures(f, (x,), y) ==> y == g(x),
        forall|x: T, b: bool| call_ensures(p, (&x,), b) ==> b == q(x),
        comprehends(f, p, s, r),
    ensures
        r == s.filter(q).map_values(g),
{
    let keep = choose|keep: Seq<bool>|
        #[trigger] decides(p, s, keep) && maps_to(f, mask_keep(s, keep), r);
    assert forall|i: int| 0 <= i < s.len() implies #[trigger] keep[i] == q(s[i]) by {
        assert(call_ensures(p, (&s[i],), keep[i]));
    }
    lemma_mask_keep_is_filter(s, keep, q);
    lemma_map_exact(f, s.filter(q), r, g);
}

} // verus!
