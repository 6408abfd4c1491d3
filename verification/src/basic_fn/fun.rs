//! The sequence combinators. Every combinator consumes its input vector and
//! returns a fresh one, or a scalar; the contract of each pins the result
//! down over the sequence view of its input.

use vstd::prelude::*;

use vstd::std_specs::cmp::PartialEqSpec;

use crate::basic_fn::model::{
    cmp_le, decides, div_trunc, filters_to, filters_out_to, fold_chain, folds_to, mask_keep,
    mask_drop, finds_key, maps_to, product_int, rem_trunc, stable_sort_of, sum_int, valid_cmp,
};

verus! {

use core::cmp::Ordering;

/// Return what you pass to this function.
pub fn id<T>(x: T) -> (r: T)
    ensures
        r == x,
{
    x
}

/// Data projection: applies `f` to every element, keeping order and length.
pub fn map<T, U, F: Fn(T) -> U>(f: F, v: Vec<T>) -> (r: Vec<U>)
    requires
        forall|i: int| 0 <= i < v@.len() ==> call_requires(f, (v@[i],)),
    ensures
        maps_to(f, v@, r@),
{
    let ghost vs = v@;
    let mut r: Vec<U> = Vec::new();
    for x in it: v.into_iter()
        invariant
            it.seq() == vs,
            r@.len() == it.index(),
            forall|i: int| 0 <= i < r@.len() ==> call_ensures(f, (vs[i],), #[trigger] r@[i]),
            forall|i: int| 0 <= i < vs.len() ==> call_requires(f, (vs[i],)),
    {
        r.push(f(x));
    }
    r
}

/// Keeps the elements on which the predicate `f` answers true, in order.
pub fn filter<T, F: Fn(&T) -> bool>(f: F, v: Vec<T>) -> (r: Vec<T>)
    requires
        forall|i: int| 0 <= i < v@.len() ==> call_requires(f, (&v@[i],)),
    ensures
        filters_to(f, v@, r@),
{
    let ghost vs = v@;
    let ghost mut keep: Seq<bool> = Seq::empty();
    let mut r: Vec<T> = Vec::new();
    for x in it: v.into_iter()
        invariant
            it.seq() == vs,
            keep.len() == it.index(),
            decides(f, vs.take(it.index() as int), keep),
            r@ == mask_keep(vs.take(it.index() as int), keep),
            forall|i: int| 0 <= i < vs.len() ==> call_requires(f, (&vs[i],)),
    {
        let ghost j = it.index() as int;
        let b = f(&x);
        if b {
            r.push(x);
        }
        proof {
            let keep0 = keep;
            keep = keep.push(b);
            assert(vs.take(j + 1).drop_last() =~= vs.take(j));
            assert(keep.drop_last() =~= keep0);
        }
    }
    proof {
        assert(vs.take(vs.len() as int) =~= vs);
    }
    r
}

/// Keeps the elements on which the predicate `f` answers false, in order.
pub fn filter_not<T, F: Fn(&T) -> bool>(f: F, v: Vec<T>) -> (r: Vec<T>)
    requires
        forall|i: int| 0 <= i < v@.len() ==> call_requires(f, (&v@[i],)),
    ensures
        filters_out_to(f, v@, r@),
{
    let ghost vs = v@;
    let ghost mut keep: Seq<bool> = Seq::empty();
    let mut r: Vec<T> = Vec::new();
    for x in it: v.into_iter()
        invariant
            it.seq() == vs,
            keep.len() == it.index(),
            decides(f, vs.take(it.index() as int), keep),
            r@ == mask_drop(vs.take(it.index() as int), keep),
            forall|i: int| 0 <= i < vs.len() ==> call_requires(f, (&vs[i],)),
    {
        let ghost j = it.index() as int;
        let b = f(&x);
        if !b {
            r.push(x);
        }
        proof {
            let keep0 = keep;
            keep = keep.push(b);
            assert(vs.take(j + 1).drop_last() =~= vs.take(j));
            assert(keep.drop_last() =~= keep0);
        }
    }
    proof {
        assert(vs.take(vs.len() as int) =~= vs);
    }
    r
}

/// Folds `v` from the front: the accumulator starts at `init` and `f` is
/// applied once per element, left to right.
pub fn foldl<T, R, F: Fn(R, T) -> R>(init: R, f: F, v: Vec<T>) -> (r: R)
    requires
        forall|a: R, i: int| 0 <= i < v@.len() ==> call_requires(f, (a, v@[i])),
    ensures
        folds_to(f, init, v@, r),
{
    let ghost vs = v@;
    let ghost ini = init;
    let ghost mut states: Seq<R> = seq![init];
    let mut acc = init;
    for x in it: v.into_iter()
        invariant
            it.seq() == vs,
            states.len() == it.index() + 1,
            states[0] == ini,
            forall|i: int|
                0 <= i < it.index() ==> call_ensures(f, (states[i], vs[i]), #[trigger] states[i + 1]),
            acc == states.last(),
            forall|a: R, i: int| 0 <= i < vs.len() ==> call_requires(f, (a, vs[i])),
    {
        acc = f(acc, x);
        proof {
            states = states.push(acc);
        }
    }
    proof {
        assert(fold_chain(f, ini, vs, states));
    }
    acc
}

/// Folds `v` from the back: the elements are visited in reverse order, the
/// accumulator starts at `init` and `f` is applied once per element.
pub fn foldr<T, R, F: Fn(R, T) -> R>(init: R, f: F, v: Vec<T>) -> (r: R)
    requires
        forall|a: R, i: int| 0 <= i < v@.len() ==> call_requires(f, (a, v@[i])),
    ensures
        folds_to(f, init, v@.reverse(), r),
{
    let ghost vs = v@;
    let ghost ini = init;
    let ghost mut states: Seq<R> = seq![init];
    let mut acc = init;
    for x in it: v.into_iter().rev()
        invariant
            it.seq() == vs.reverse(),
            states.len() == it.index() + 1,
            states[0] == ini,
            forall|i: int|
                0 <= i < it.index() ==> call_ensures(
                    f,
                    (states[i], vs.reverse()[i]),
                    #[trigger] states[i + 1],
                ),
            acc == states.last(),
            forall|a: R, i: int| 0 <= i < vs.len() ==> call_requires(f, (a, vs[i])),
    {
        acc = f(acc, x);
        proof {
            states = states.push(acc);
        }
    }
    proof {
        assert(fold_chain(f, ini, vs.reverse(), states));
    }
    acc
}

/// The first element, or nothing when the input is empty.
pub fn head<T>(v: Vec<T>) -> (r: Option<T>)
    ensures
        match r {
            Option::Some(x) => v@.len() > 0 && x == v@[0],
            Option::None => v@.len() == 0,
        },
{
    let mut v = v;
    if v.len() == 0 {
        None
    } else {
        Some(v.remove(0))
    }
}

/// Everything but the first element, or nothing when the input is empty.
pub fn tail<T>(v: Vec<T>) -> (r: Option<Vec<T>>)
    ensures
        match r {
            Option::Some(w) => v@.len() > 0 && w@ == v@.skip(1),
            Option::None => v@.len() == 0,
        },
{
    let ghost vs = v@;
    let mut v = v;
    if v.len() == 0 {
        None
    } else {
        v.remove(0);
        proof {
            assert(v@ =~= vs.skip(1));
        }
        Some(v)
    }
}

/// The last element, or nothing when the input is empty.
pub fn last<T>(v: Vec<T>) -> (r: Option<T>)
    ensures
        match r {
            Option::Some(x) => v@.len() > 0 && x == v@.last(),
            Option::None => v@.len() == 0,
        },
{
    let mut v = v;
    match v.pop() {
        Option::Some(x) => Some(x),
        Option::None => None,
    }
}

/// Everything but the last element, or nothing when the input is empty.
pub fn init<T>(v: Vec<T>) -> (r: Option<Vec<T>>)
    ensures
        match r {
            Option::Some(w) => v@.len() > 0 && w@ == v@.drop_last(),
            Option::None => v@.len() == 0,
        },
{
    let mut v = v;
    match v.pop() {
        Option::Some(_) => Some(v),
        Option::None => None,
    }
}

/// Drops the first `n` elements; dropping more than there are leaves an
/// empty vector, never an error.
pub fn skip<T>(n: usize, v: Vec<T>) -> (r: Vec<T>)
    ensures
        n <= v@.len() ==> r@ == v@.skip(n as int),
        n > v@.len() ==> r@ == Seq::<T>::empty(),
{
    let ghost vs = v@;
    let len = v.len();
    let mut r: Vec<T> = Vec::new();
    let mut c: usize = 0;
    for x in it: v.into_iter()
        invariant
            it.seq() == vs,
            len == vs.len(),
            c == it.index(),
            c <= len,
            c <= n ==> r@ == Seq::<T>::empty(),
            c > n ==> r@ == vs.subrange(n as int, c as int),
    {
        if c >= n {
            r.push(x);
        }
        c += 1;
        proof {
            if c > n {
                assert(r@ =~= vs.subrange(n as int, c as int));
            }
        }
    }
    proof {
        if n <= vs.len() {
            assert(r@ =~= vs.skip(n as int));
        }
    }
    r
}

/// Takes the first `n` elements; asking for more than there are returns all
/// available elements, never an error.
pub fn take<T>(n: usize, v: Vec<T>) -> (r: Vec<T>)
    ensures
        n <= v@.len() ==> r@ == v@.take(n as int),
        n > v@.len() ==> r@ == v@,
{
    let ghost vs = v@;
    let len = v.len();
    let mut r: Vec<T> = Vec::new();
    let mut c: usize = 0;
    for x in it: v.into_iter()
        invariant
            it.seq() == vs,
            len == vs.len(),
            c == it.index(),
            c <= len,
            c <= n ==> r@ == vs.take(c as int),
            c > n ==> r@ == vs.take(n as int),
    {
        if c < n {
            r.push(x);
            proof {
                assert(r@ =~= vs.take(c as int + 1));
            }
        }
        c += 1;
    }
    proof {
        assert(vs.take(vs.len() as int) =~= vs);
    }
    r
}

/// The elements of `v` in the opposite order.
pub fn reverse<T>(v: Vec<T>) -> (r: Vec<T>)
    ensures
        r@ == v@.reverse(),
{
    let ghost vs = v@;
    let mut r: Vec<T> = Vec::new();
    for x in it: v.into_iter().rev()
        invariant
            it.seq() == vs.reverse(),
            r@.len() == it.index(),
            forall|i: int| 0 <= i < r@.len() ==> r@[i] == vs.reverse()[i],
    {
        r.push(x);
    }
    proof {
        assert(r@ =~= vs.reverse());
    }
    r
}

/// All of the first vector, then all of the second, in one vector.
pub fn concat<T>(v1: Vec<T>, v2: Vec<T>) -> (r: Vec<T>)
    ensures
        r@ == v1@ + v2@,
{
    let ghost vs1 = v1@;
    let ghost vs2 = v2@;
    let mut r: Vec<T> = Vec::new();
    for x in it: v1.into_iter()
        invariant
            it.seq() == vs1,
            r@ == vs1.take(it.index() as int),
    {
        r.push(x);
        proof {
            assert(r@ =~= vs1.take(it.index() as int + 1));
        }
    }
    proof {
        assert(vs1.take(vs1.len() as int) =~= vs1);
    }
    for x in it: v2.into_iter()
        invariant
            it.seq() == vs2,
            r@ == vs1 + vs2.take(it.index() as int),
    {
        r.push(x);
        proof {
            assert(r@ =~= vs1 + vs2.take(it.index() as int + 1));
        }
    }
    proof {
        assert(vs1 + vs2.take(vs2.len() as int) =~= vs1 + vs2);
    }
    r
}

/// The number of elements, draining the whole input.
pub fn length<T>(v: Vec<T>) -> (r: usize)
    ensures
        r == v@.len(),
{
    v.len()
}

/// The sum of the elements; the empty sum is 0, the additive identity.
pub fn sum(v: Vec<i64>) -> (r: i64)
    requires
        forall|i: int|
            0 <= i <= v@.len() ==> i64::MIN <= sum_int(#[trigger] v@.take(i)) <= i64::MAX,
    ensures
        r == sum_int(v@),
        v@.len() == 0 ==> r == 0,
{
    let ghost vs = v@;
    let mut acc: i64 = 0;
    let mut i: usize = 0;
    let n = v.len();
    while i < n
        invariant
            n == vs.len(),
            v@ == vs,
            0 <= i <= n,
            acc == sum_int(vs.take(i as int)),
            forall|k: int| 0 <= k <= vs.len() ==> i64::MIN <= sum_int(#[trigger] vs.take(k)) <= i64::MAX,
        decreases n - i,
    {
        proof {
            assert(vs.take(i as int + 1).drop_last() =~= vs.take(i as int));
            assert(vs.take(i as int + 1).last() == vs[i as int]);
        }
        acc = acc + v[i];
        i += 1;
    }
    proof {
        assert(vs.take(vs.len() as int) =~= vs);
    }
    acc
}

/// The product of the elements; the empty product is 1, the multiplicative
/// identity.
pub fn product(v: Vec<i64>) -> (r: i64)
    requires
        forall|i: int|
            0 <= i <= v@.len() ==> i64::MIN <= product_int(#[trigger] v@.take(i)) <= i64::MAX,
    ensures
        r == product_int(v@),
        v@.len() == 0 ==> r == 1,
{
    let ghost vs = v@;
    let mut acc: i64 = 1;
    let mut i: usize = 0;
    let n = v.len();
    while i < n
        invariant
            n == vs.len(),
            v@ == vs,
            0 <= i <= n,
            acc == product_int(vs.take(i as int)),
            forall|k: int|
                0 <= k <= vs.len() ==> i64::MIN <= product_int(#[trigger] vs.take(k)) <= i64::MAX,
        decreases n - i,
    {
        proof {
            assert(vs.take(i as int + 1).drop_last() =~= vs.take(i as int));
            assert(vs.take(i as int + 1).last() == vs[i as int]);
        }
        acc = acc * v[i];
        i += 1;
    }
    proof {
        assert(vs.take(vs.len() as int) =~= vs);
    }
    acc
}

/// The least element, or nothing when the input is empty.
pub fn min(v: Vec<i64>) -> (r: Option<i64>)
    ensures
        match r {
            Option::Some(m) => v@.len() > 0 && v@.contains(m) && forall|i: int|
                0 <= i < v@.len() ==> m <= #[trigger] v@[i],
            Option::None => v@.len() == 0,
        },
{
    if v.len() == 0 {
        return None;
    }
    let mut m = v[0];
    let mut i: usize = 1;
    let n = v.len();
    while i < n
        invariant
            n == v@.len(),
            1 <= i <= n,
            v@.contains(m),
            forall|k: int| 0 <= k < i ==> m <= #[trigger] v@[k],
        decreases n - i,
    {
        if v[i] < m {
            m = v[i];
        }
        i += 1;
    }
    Some(m)
}

/// The greatest element, or nothing when the input is empty.
pub fn max(v: Vec<i64>) -> (r: Option<i64>)
    ensures
        match r {
            Option::Some(m) => v@.len() > 0 && v@.contains(m) && forall|i: int|
                0 <= i < v@.len() ==> m >= #[trigger] v@[i],
            Option::None => v@.len() == 0,
        },
{
    if v.len() == 0 {
        return None;
    }
    let mut m = v[0];
    let mut i: usize = 1;
    let n = v.len();
    while i < n
        invariant
            n == v@.len(),
            1 <= i <= n,
            v@.contains(m),
            forall|k: int| 0 <= k < i ==> m >= #[trigger] v@[k],
        decreases n - i,
    {
        if v[i] > m {
            m = v[i];
        }
        i += 1;
    }
    Some(m)
}

/// Sorts under the natural order of the integers: the result is the one
/// nondecreasing rearrangement of the input.
pub fn sorted(v: Vec<i64>) -> (r: Vec<i64>)
    ensures
        r@.len() == v@.len(),
        forall|i: int, j: int| 0 <= i < j < r@.len() ==> #[trigger] r@[i] <= #[trigger] r@[j],
        r@.to_multiset() == v@.to_multiset(),
{
    broadcast use vstd::seq_lib::group_to_multiset_ensures;

    let ghost vs = v@;
    let mut r: Vec<i64> = Vec::new();
    let n = v.len();
    let mut i: usize = 0;
    while i < n
        invariant
            n == vs.len(),
            v@ == vs,
            0 <= i <= n,
            r@.len() == i,
            forall|a: int, b: int| 0 <= a < b < r@.len() ==> #[trigger] r@[a] <= #[trigger] r@[b],
            r@.to_multiset() == vs.take(i as int).to_multiset(),
        decreases n - i,
    {
        let x = v[i];
        let mut j: usize = r.len();
        while j > 0 && r[j - 1] > x
            invariant
                0 <= j <= r@.len(),
                forall|a: int, b: int|
                    0 <= a < b < r@.len() ==> #[trigger] r@[a] <= #[trigger] r@[b],
                forall|k: int| j <= k < r@.len() ==> #[trigger] r@[k] > x,
            decreases j,
        {
            j -= 1;
        }
        let ghost r0 = r@;
        r.insert(j, x);
        proof {
            broadcast use vstd::seq_lib::group_to_multiset_ensures;

            assert forall|a: int, b: int| 0 <= a < b < r@.len() implies #[trigger] r@[a]
                <= #[trigger] r@[b] by {
                if b < j {
                } else if a > j {
                } else if a == j {
                    assert(r@[b] == r0[b - 1]);
                } else if b == j {
                    assert(r@[a] == r0[a]);
                    assert(r0[a] <= r0[j - 1]);
                } else {
                    assert(r@[a] == r0[a] && r@[b] == r0[b - 1]);
                }
            }
            assert(r@ == r0.insert(j as int, x));
            assert(r0.insert(j as int, x).to_multiset() == r0.to_multiset().insert(x));
            assert(vs.take(i + 1).drop_last() =~= vs.take(i as int));
            assert(vs.take(i + 1) =~= vs.take(i as int).push(vs[i as int]));
            assert(vs.take(i as int).push(vs[i as int]).to_multiset() == vs.take(
                i as int,
            ).to_multiset().insert(vs[i as int]));
            assert(r@.to_multiset() == vs.take(i + 1).to_multiset());
        }
        i += 1;
    }
    proof {
        assert(vs.take(vs.len() as int) =~= vs);
    }
    r
}

/// Sorts under the supplied comparator, stably: the result is ordered by
/// `cmp`, and elements tied under `cmp` keep their original relative
/// order. The comparator must behave as a total preorder (see
/// [`valid_cmp`]).
pub fn sorted_by<T, F: Fn(&T, &T) -> Ordering>(cmp: F, v: Vec<T>) -> (r: Vec<T>)
    requires
        valid_cmp::<T, F>(cmp),
    ensures
        exists|perm: Seq<int>| #[trigger] stable_sort_of(cmp, v@, r@, perm),
{
    let ghost vs = v@;
    let ghost mut perm: Seq<int> = Seq::empty();
    let mut r: Vec<T> = Vec::new();
    for x in it: v.into_iter()
        invariant
            it.seq() == vs,
            valid_cmp::<T, F>(cmp),
            perm.len() == it.index(),
            r@.len() == it.index(),
            forall|k: int| 0 <= k < perm.len() ==> 0 <= #[trigger] perm[k] < it.index(),
            forall|a: int, b: int| 0 <= a < b < perm.len() ==> perm[a] != perm[b],
            forall|k: int| 0 <= k < r@.len() ==> r@[k] == vs[#[trigger] perm[k]],
            forall|a: int, b: int|
                0 <= a < b < r@.len() ==> cmp_le(cmp, #[trigger] r@[a], #[trigger] r@[b]),
            forall|a: int, b: int|
                0 <= a < b < r@.len() && cmp_le(cmp, r@[b], r@[a]) ==> #[trigger] perm[a]
                    < #[trigger] perm[b],
    {
        let ghost i = it.index() as int;
        let mut j: usize = r.len();
        let mut scanning = true;
        while j > 0 && scanning
            invariant
                valid_cmp::<T, F>(cmp),
                0 <= j <= r@.len(),
                forall|k: int|
                    j <= k < r@.len() ==> !cmp_le(cmp, #[trigger] r@[k], x) && cmp_le(
                        cmp,
                        x,
                        r@[k],
                    ),
                !scanning ==> j > 0 && cmp_le(cmp, r@[j - 1], x),
            decreases j, (if scanning { 1int } else { 0int }),
        {
            let o = cmp(&r[j - 1], &x);
            proof {
                let ghost prev = r@[j - 1];
                if o == Ordering::Greater {
                    assert(!cmp_le(cmp, prev, x));
                    assert forall|o2: Ordering| call_ensures(cmp, (&x, &prev), o2) implies o2
                        != Ordering::Greater by {
                        assert(call_ensures(cmp, (&prev, &x), o));
                    }
                    assert(cmp_le(cmp, x, prev));
                } else {
                    assert forall|o2: Ordering| call_ensures(cmp, (&prev, &x), o2) implies o2
                        != Ordering::Greater by {
                        assert(call_ensures(cmp, (&prev, &x), o));
                    }
                    assert(cmp_le(cmp, prev, x));
                }
            }
            if matches!(o, Ordering::Greater) {
                j -= 1;
            } else {
                scanning = false;
            }
        }
        let ghost r0 = r@;
        let ghost perm0 = perm;
        r.insert(j, x);
        proof {
            perm = perm.insert(j as int, i);
            let jj = j as int;
            assert forall|a: int, b: int| 0 <= a < b < r@.len() implies cmp_le(
                cmp,
                #[trigger] r@[a],
                #[trigger] r@[b],
            ) by {
                if b < jj {
                } else if a > jj {
                } else if a == jj {
                    assert(r@[b] == r0[b - 1]);
                } else if b == jj {
                    assert(r@[a] == r0[a]);
                    if jj > 0 {
                        assert(cmp_le(cmp, r0[jj - 1], x));
                        if a < jj - 1 {
                            assert(cmp_le(cmp, r0[a], r0[jj - 1]));
                        }
                    }
                } else {
                    assert(r@[a] == r0[a] && r@[b] == r0[b - 1]);
                }
            }
            assert forall|a: int, b: int|
                0 <= a < b < r@.len() && cmp_le(cmp, r@[b], r@[a]) implies #[trigger] perm[a]
                < #[trigger] perm[b] by {
                if b == jj {
                    assert(perm[b] == i && perm[a] == perm0[a]);
                } else if a == jj {
                    assert(r@[b] == r0[b - 1]);
                    assert(!cmp_le(cmp, r0[b - 1], x));
                } else if b < jj {
                    assert(r@[a] == r0[a] && r@[b] == r0[b]);
                    assert(perm[a] == perm0[a] && perm[b] == perm0[b]);
                } else if a > jj {
                    assert(r@[a] == r0[a - 1] && r@[b] == r0[b - 1]);
                    assert(perm[a] == perm0[a - 1] && perm[b] == perm0[b - 1]);
                } else {
                    assert(r@[a] == r0[a] && r@[b] == r0[b - 1]);
                    assert(perm[a] == perm0[a] && perm[b] == perm0[b - 1]);
                }
            }
        }
    }
    proof {
        assert(stable_sort_of(cmp, vs, r@, perm));
    }
    r
}

/// Pairs the two inputs position by position, stopping at the shorter one.
pub fn zip<T: Copy, U: Copy>(v1: Vec<T>, v2: Vec<U>) -> (r: Vec<(T, U)>)
    ensures
        r@.len() == if v1@.len() <= v2@.len() {
            v1@.len()
        } else {
            v2@.len()
        },
        forall|i: int| 0 <= i < r@.len() ==> r@[i] == (v1@[i], v2@[i]),
{
    let n = if v1.len() <= v2.len() {
        v1.len()
    } else {
        v2.len()
    };
    let mut r: Vec<(T, U)> = Vec::new();
    let mut i: usize = 0;
    while i < n
        invariant
            n <= v1@.len(),
            n <= v2@.len(),
            0 <= i <= n,
            r@.len() == i,
            forall|j: int| 0 <= j < i ==> r@[j] == (v1@[j], v2@[j]),
        decreases n - i,
    {
        r.push((v1[i], v2[i]));
        i += 1;
    }
    r
}

/// Combines the two inputs position by position through `f`, stopping at
/// the shorter one.
pub fn zip_with<T: Copy, U: Copy, W, F: Fn((T, U)) -> W>(f: F, v1: Vec<T>, v2: Vec<U>) -> (r: Vec<
    W,
>)
    requires
        forall|i: int|
            0 <= i < v1@.len() && i < v2@.len() ==> call_requires(f, ((v1@[i], v2@[i]),)),
    ensures
        r@.len() == if v1@.len() <= v2@.len() {
            v1@.len()
        } else {
            v2@.len()
        },
        forall|i: int| 0 <= i < r@.len() ==> call_ensures(f, ((v1@[i], v2@[i]),), #[trigger] r@[i]),
{
    let n = if v1.len() <= v2.len() {
        v1.len()
    } else {
        v2.len()
    };
    let mut r: Vec<W> = Vec::new();
    let mut i: usize = 0;
    while i < n
        invariant
            n <= v1@.len(),
            n <= v2@.len(),
            0 <= i <= n,
            r@.len() == i,
            forall|j: int|
                0 <= j < v1@.len() && j < v2@.len() ==> call_requires(f, ((v1@[j], v2@[j]),)),
            forall|j: int| 0 <= j < i ==> call_ensures(f, ((v1@[j], v2@[j]),), #[trigger] r@[j]),
        decreases n - i,
    {
        r.push(f((v1[i], v2[i])));
        i += 1;
    }
    r
}

/// Looks `key` up among the pairs and hands back the first pair carrying
/// it, or nothing when no pair does.
pub fn find<K: PartialEq, V>(key: &K, v: Vec<(K, V)>) -> (r: Option<(K, V)>)
    ensures
        finds_key(*key, v@, r),
{
    let mut w = v;
    let mut i: usize = 0;
    let n = w.len();
    while i < n
        invariant
            w@ == v@,
            n == v@.len(),
            0 <= i <= n,
            K::obeys_eq_spec() ==> forall|j: int| 0 <= j < i ==> !key.eq_spec(&(#[trigger] v@[j]).0),
        decreases n - i,
    {
        if *key == w[i].0 {
            let p = w.remove(i);
            proof {
                let wi = i as int;
                assert(0 <= wi < v@.len() && p == v@[wi]);
                if K::obeys_eq_spec() {
                    assert(key.eq_spec(&v@[wi].0));
                }
            }
            return Some(p);
        }
        i += 1;
    }
    None
}

/// Unary minus.
pub fn neg(x: i64) -> (r: i64)
    requires
        x != i64::MIN,
    ensures
        r == -x,
{
    -x
}

/// x + y.
pub fn add(x: i64, y: i64) -> (r: i64)
    requires
        i64::MIN <= x + y <= i64::MAX,
    ensures
        r == x + y,
{
    x + y
}

/// x - y.
pub fn sub(x: i64, y: i64) -> (r: i64)
    requires
        i64::MIN <= x - y <= i64::MAX,
    ensures
        r == x - y,
{
    x - y
}

/// x * y.
pub fn mul(x: i64, y: i64) -> (r: i64)
    requires
        i64::MIN <= x * y <= i64::MAX,
    ensures
        r == x * y,
{
    x * y
}

/// x / y, truncating toward zero; division by zero is left out, as is the
/// one overflowing pair.
pub fn div(x: i64, y: i64) -> (r: i64)
    requires
        y != 0,
        !(x == i64::MIN && y == -1),
    ensures
        r == div_trunc(x as int, y as int),
{
    if y > 0 {
        x / y
    } else if y == i64::MIN {
        proof {
            vstd::arithmetic::div_mod::lemma_div_by_self(-(i64::MIN as int));
            if x != i64::MIN {
                vstd::arithmetic::div_mod::lemma_basic_div(
                    if x < 0 { -(x as int) } else { x as int },
                    -(i64::MIN as int),
                );
            }
        }
        if x == i64::MIN {
            1
        } else {
            0
        }
    } else {
        let yp = -y;
        let q = x / yp;
        proof {
            let a = if x < 0 { -(x as int) } else { x as int };
            vstd::arithmetic::div_mod::lemma_div_basics(a);
            if yp >= 2 {
                vstd::arithmetic::div_mod::lemma_div_is_ordered_by_denominator(a, 2, yp as int);
                assert(a / 2 < 0x8000_0000_0000_0000);
            }
            assert(q != i64::MIN);
        }
        -q
    }
}

proof fn lemma_rem_trunc_pos(x: int, y: int)
    requires
        y > 0,
    ensures
        rem_trunc(x, y) == if x < 0 {
            -((-x) % y)
        } else {
            x % y
        },
{
    let a = if x < 0 {
        -x
    } else {
        x
    };
    vstd::arithmetic::div_mod::lemma_fundamental_div_mod(a, y);
    if x < 0 {
        assert((-(a / y)) * y == -(y * (a / y))) by (nonlinear_arith);
    } else {
        assert((a / y) * y == y * (a / y)) by (nonlinear_arith);
    }
}

proof fn lemma_rem_trunc_neg(x: int, y: int)
    requires
        y < 0,
    ensures
        rem_trunc(x, y) == rem_trunc(x, -y),
{
    let b = -y;
    assert(div_trunc(x, y) == -div_trunc(x, b));
    assert((-div_trunc(x, b)) * y == div_trunc(x, b) * b) by (nonlinear_arith)
        requires
            y == -b,
    ;
}

/// The remainder of x / y; it carries the sign of the dividend, as the
/// machine's `%` does. Division by zero is left out, as is the one
/// overflowing pair.
pub fn rem(x: i64, y: i64) -> (r: i64)
    requires
        y != 0,
        !(x == i64::MIN && y == -1),
    ensures
        r == rem_trunc(x as int, y as int),
{
    if y > 0 {
        proof {
            lemma_rem_trunc_pos(x as int, y as int);
        }
        x % y
    } else if y == i64::MIN {
        proof {
            lemma_rem_trunc_neg(x as int, y as int);
            lemma_rem_trunc_pos(x as int, -(i64::MIN as int));
            vstd::arithmetic::div_mod::lemma_div_by_self(-(i64::MIN as int));
            if x != i64::MIN {
                vstd::arithmetic::div_mod::lemma_basic_div(
                    if x < 0 { -(x as int) } else { x as int },
                    -(i64::MIN as int),
                );
                vstd::arithmetic::div_mod::lemma_fundamental_div_mod(
                    if x < 0 { -(x as int) } else { x as int },
                    -(i64::MIN as int),
                );
            }
        }
        if x == i64::MIN {
            0
        } else {
            x
        }
    } else {
        let yp = -y;
        proof {
            lemma_rem_trunc_neg(x as int, y as int);
            lemma_rem_trunc_pos(x as int, yp as int);
        }
        x % yp
    }
}

} // verus!
