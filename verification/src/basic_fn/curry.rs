//! The curry layer: for each combinator, fixing every parameter but the
//! final sequence one yields a function over sequences that behaves exactly
//! as the combinator does on the same arguments.

use vstd::prelude::*;

use crate::basic_fn::fun;
use vstd::std_specs::cmp::PartialEqSpec;

use crate::basic_fn::model::{
    filters_to, filters_out_to, finds_key, folds_to, maps_to, stable_sort_of, valid_cmp,
};

verus! {

/// Curried [`fun::map`]: fixes the mapper, leaving the sequence open.
pub fn map<T, U, F: Fn(T) -> U + Copy>(f: F) -> (g: impl Fn(Vec<T>) -> Vec<U>)
    ensures
        forall|v: Vec<T>|
            (forall|i: int| 0 <= i < v@.len() ==> call_requires(f, (v@[i],)))
                ==> #[trigger] call_requires(g, (v,)),
        forall|v: Vec<T>, r: Vec<U>| #[trigger] call_ensures(g, (v,), r) ==> maps_to(f, v@, r@),
{
    let g = move |v: Vec<T>| -> (r: Vec<U>)
        requires
            forall|i: int| 0 <= i < v@.len() ==> call_requires(f, (v@[i],)),
        ensures
            maps_to(f, v@, r@),
        {
            fun::map(f, v)
        };
    g
}

/// Curried [`fun::filter`]: fixes the predicate, leaving the sequence open.
pub fn filter<T, F: Fn(&T) -> bool + Copy>(f: F) -> (g: impl Fn(Vec<T>) -> Vec<T>)
    ensures
        forall|v: Vec<T>|
            (forall|i: int| 0 <= i < v@.len() ==> call_requires(f, (&v@[i],)))
                ==> #[trigger] call_requires(g, (v,)),
        forall|v: Vec<T>, r: Vec<T>| #[trigger] call_ensures(g, (v,), r) ==> filters_to(f, v@, r@),
{
    let g = move |v: Vec<T>| -> (r: Vec<T>)
        requires
            forall|i: int| 0 <= i < v@.len() ==> call_requires(f, (&v@[i],)),
        ensures
            filters_to(f, v@, r@),
        {
            fun::filter(f, v)
        };
    g
}

/// Curried [`fun::filter_not`]: fixes the predicate, leaving the sequence
/// open.
pub fn filter_not<T, F: Fn(&T) -> bool + Copy>(f: F) -> (g: impl Fn(Vec<T>) -> Vec<T>)
    ensures
        forall|v: Vec<T>|
            (forall|i: int| 0 <= i < v@.len() ==> call_requires(f, (&v@[i],)))
                ==> #[trigger] call_requires(g, (v,)),
        forall|v: Vec<T>, r: Vec<T>|
            #[trigger] call_ensures(g, (v,), r) ==> filters_out_to(f, v@, r@),
{
    let g = move |v: Vec<T>| -> (r: Vec<T>)
        requires
            forall|i: int| 0 <= i < v@.len() ==> call_requires(f, (&v@[i],)),
        ensures
            filters_out_to(f, v@, r@),
        {
            fun::filter_not(f, v)
        };
    g
}

/// Curried [`fun::foldl`]: fixes the start value and the folding function.
/// The returned function is single-use: invoking it consumes the fixed
/// start value.
pub fn foldl<T, R, F: Fn(R, T) -> R>(init: R, f: F) -> (g: impl FnOnce(Vec<T>) -> R)
    ensures
        forall|v: Vec<T>|
            (forall|a: R, i: int| 0 <= i < v@.len() ==> call_requires(f, (a, v@[i])))
                ==> #[trigger] call_requires(g, (v,)),
        forall|v: Vec<T>, r: R| #[trigger] call_ensures(g, (v,), r) ==> folds_to(f, init, v@, r),
{
    let g = move |v: Vec<T>| -> (r: R)
        requires
            forall|a: R, i: int| 0 <= i < v@.len() ==> call_requires(f, (a, v@[i])),
        ensures
            folds_to(f, init, v@, r),
        {
            fun::foldl(init, f, v)
        };
    g
}

/// Curried [`fun::foldr`]: fixes the start value and the folding function.
/// The returned function is single-use: invoking it consumes the fixed
/// start value.
pub fn foldr<T, R, F: Fn(R, T) -> R>(init: R, f: F) -> (g: impl FnOnce(Vec<T>) -> R)
    ensures
        forall|v: Vec<T>|
            (forall|a: R, i: int| 0 <= i < v@.len() ==> call_requires(f, (a, v@[i])))
                ==> #[trigger] call_requires(g, (v,)),
        forall|v: Vec<T>, r: R|
            #[trigger] call_ensures(g, (v,), r) ==> folds_to(f, init, v@.reverse(), r),
{
    let g = move |v: Vec<T>| -> (r: R)
        requires
            forall|a: R, i: int| 0 <= i < v@.len() ==> call_requires(f, (a, v@[i])),
        ensures
            folds_to(f, init, v@.reverse(), r),
        {
            fun::foldr(init, f, v)
        };
    g
}

/// The first stage of the fold curry: only the start value is fixed.
pub struct FoldFrom<R> {
    /// The start value of the fold.
    pub init: R,
}

/// Fixes a fold's start value alone; the folding function and the sequence
/// are supplied in two further steps.
pub fn fold_from<R>(init: R) -> (s: FoldFrom<R>)
    ensures
        s.init == init,
{
    FoldFrom { init }
}

impl<R> FoldFrom<R> {
    /// The second stage of the left-fold curry: supplies the folding
    /// function, yielding the unary function over sequences.
    pub fn foldl_with<T, F: Fn(R, T) -> R>(self, f: F) -> (g: impl FnOnce(Vec<T>) -> R)
        ensures
            forall|v: Vec<T>|
                (forall|a: R, i: int| 0 <= i < v@.len() ==> call_requires(f, (a, v@[i])))
                    ==> #[trigger] call_requires(g, (v,)),
            forall|v: Vec<T>, r: R|
                #[trigger] call_ensures(g, (v,), r) ==> folds_to(f, self.init, v@, r),
    {
        let g = move |v: Vec<T>| -> (r: R)
            requires
                forall|a: R, i: int| 0 <= i < v@.len() ==> call_requires(f, (a, v@[i])),
            ensures
                folds_to(f, self.init, v@, r),
            {
                fun::foldl(self.init, f, v)
            };
        g
    }

    /// The second stage of the right-fold curry: supplies the folding
    /// function, yielding the unary function over sequences.
    pub fn foldr_with<T, F: Fn(R, T) -> R>(self, f: F) -> (g: impl FnOnce(Vec<T>) -> R)
        ensures
            forall|v: Vec<T>|
                (forall|a: R, i: int| 0 <= i < v@.len() ==> call_requires(f, (a, v@[i])))
                    ==> #[trigger] call_requires(g, (v,)),
            forall|v: Vec<T>, r: R|
                #[trigger] call_ensures(g, (v,), r) ==> folds_to(f, self.init, v@.reverse(), r),
    {
        let g = move |v: Vec<T>| -> (r: R)
            requires
                forall|a: R, i: int| 0 <= i < v@.len() ==> call_requires(f, (a, v@[i])),
            ensures
                folds_to(f, self.init, v@.reverse(), r),
            {
                fun::foldr(self.init, f, v)
            };
        g
    }
}

/// Curried [`fun::skip`]: fixes the count, leaving the sequence open.
pub fn skip<T>(n: usize) -> (g: impl Fn(Vec<T>) -> Vec<T>)
    ensures
        forall|v: Vec<T>| #[trigger] call_requires(g, (v,)),
        forall|v: Vec<T>, r: Vec<T>|
            #[trigger] call_ensures(g, (v,), r) ==> (n <= v@.len() ==> r@ == v@.skip(n as int)) && (
            n > v@.len() ==> r@ == Seq::<T>::empty()),
{
    let g = move |v: Vec<T>| -> (r: Vec<T>)
        ensures
            n <= v@.len() ==> r@ == v@.skip(n as int),
            n > v@.len() ==> r@ == Seq::<T>::empty(),
        {
            fun::skip(n, v)
        };
    g
}

/// Curried [`fun::take`]: fixes the count, leaving the sequence open.
pub fn take<T>(n: usize) -> (g: impl Fn(Vec<T>) -> Vec<T>)
    ensures
        forall|v: Vec<T>| #[trigger] call_requires(g, (v,)),
        forall|v: Vec<T>, r: Vec<T>|
            #[trigger] call_ensures(g, (v,), r) ==> (n <= v@.len() ==> r@ == v@.take(n as int)) && (
            n > v@.len() ==> r@ == v@),
{
    let g = move |v: Vec<T>| -> (r: Vec<T>)
        ensures
            n <= v@.len() ==> r@ == v@.take(n as int),
            n > v@.len() ==> r@ == v@,
        {
            fun::take(n, v)
        };
    g
}

/// Curried [`fun::add`]: fixes the left operand.
pub fn add(x: i64) -> (g: impl Fn(i64) -> i64)
    ensures
        forall|y: i64| i64::MIN <= x + y <= i64::MAX ==> #[trigger] call_requires(g, (y,)),
        forall|y: i64, r: i64| #[trigger] call_ensures(g, (y,), r) ==> r == x + y,
{
    let g = move |y: i64| -> (r: i64)
        requires
            i64::MIN <= x + y <= i64::MAX,
        ensures
            r == x + y,
        {
            x + y
        };
    g
}

/// Curried [`fun::sub`]: fixes the left operand.
pub fn sub(x: i64) -> (g: impl Fn(i64) -> i64)
    ensures
        forall|y: i64| i64::MIN <= x - y <= i64::MAX ==> #[trigger] call_requires(g, (y,)),
        forall|y: i64, r: i64| #[trigger] call_ensures(g, (y,), r) ==> r == x - y,
{
    let g = move |y: i64| -> (r: i64)
        requires
            i64::MIN <= x - y <= i64::MAX,
        ensures
            r == x - y,
        {
            x - y
        };
    g
}

/// Curried [`fun::mul`]: fixes the left operand.
pub fn mul(x: i64) -> (g: impl Fn(i64) -> i64)
    ensures
        forall|y: i64| i64::MIN <= x * y <= i64::MAX ==> #[trigger] call_requires(g, (y,)),
        forall|y: i64, r: i64| #[trigger] call_ensures(g, (y,), r) ==> r == x * y,
{
    let g = move |y: i64| -> (r: i64)
        requires
            i64::MIN <= x * y <= i64::MAX,
        ensures
            r == x * y,
        {
            x * y
        };
    g
}

/// Curried [`fun::div`]: fixes the dividend.
pub fn div(x: i64) -> (g: impl Fn(i64) -> i64)
    ensures
        forall|y: i64|
            y != 0 && !(x == i64::MIN && y == -1) ==> #[trigger] call_requires(g, (y,)),
        forall|y: i64, r: i64|
            #[trigger] call_ensures(g, (y,), r) ==> r == crate::basic_fn::model::div_trunc(
                x as int,
                y as int,
            ),
{
    let g = move |y: i64| -> (r: i64)
        requires
            y != 0,
            !(x == i64::MIN && y == -1),
        ensures
            r == crate::basic_fn::model::div_trunc(x as int, y as int),
        {
            fun::div(x, y)
        };
    g
}

/// Curried [`fun::rem`]: fixes the dividend.
pub fn rem(x: i64) -> (g: impl Fn(i64) -> i64)
    ensures
        forall|y: i64|
            y != 0 && !(x == i64::MIN && y == -1) ==> #[trigger] call_requires(g, (y,)),
        forall|y: i64, r: i64|
            #[trigger] call_ensures(g, (y,), r) ==> r == crate::basic_fn::model::rem_trunc(
                x as int,
                y as int,
            ),
{
    let g = move |y: i64| -> (r: i64)
        requires
            y != 0,
            !(x == i64::MIN && y == -1),
        ensures
            r == crate::basic_fn::model::rem_trunc(x as int, y as int),
        {
            fun::rem(x, y)
        };
    g
}

/// Curried [`fun::zip`]: fixes the first sequence, leaving the second
/// open. The returned function is single-use: invoking it consumes the
/// fixed sequence.
pub fn zip<T: Copy, U: Copy>(v1: Vec<T>) -> (g: impl FnOnce(Vec<U>) -> Vec<(T, U)>)
    ensures
        forall|v2: Vec<U>| #[trigger] call_requires(g, (v2,)),
        forall|v2: Vec<U>, r: Vec<(T, U)>|
            #[trigger] call_ensures(g, (v2,), r) ==> r@.len() == (if v1@.len() <= v2@.len() {
                v1@.len()
            } else {
                v2@.len()
            }) && forall|i: int| 0 <= i < r@.len() ==> r@[i] == (v1@[i], v2@[i]),
{
    let g = move |v2: Vec<U>| -> (r: Vec<(T, U)>)
        ensures
            r@.len() == (if v1@.len() <= v2@.len() {
                v1@.len()
            } else {
                v2@.len()
            }),
            forall|i: int| 0 <= i < r@.len() ==> r@[i] == (v1@[i], v2@[i]),
        {
            fun::zip(v1, v2)
        };
    g
}

/// Curried [`fun::zip_with`]: fixes the combining function, leaving both
/// sequences open.
pub fn zip_with<T: Copy, U: Copy, W, F: Fn((T, U)) -> W + Copy>(f: F) -> (g: impl Fn(
    Vec<T>,
    Vec<U>,
) -> Vec<W>)
    ensures
        forall|v1: Vec<T>, v2: Vec<U>|
            (forall|i: int|
                0 <= i < v1@.len() && i < v2@.len() ==> call_requires(f, ((v1@[i], v2@[i]),)))
                ==> #[trigger] call_requires(g, (v1, v2)),
        forall|v1: Vec<T>, v2: Vec<U>, r: Vec<W>|
            #[trigger] call_ensures(g, (v1, v2), r) ==> r@.len() == (if v1@.len() <= v2@.len() {
                v1@.len()
            } else {
                v2@.len()
            }) && forall|i: int|
                0 <= i < r@.len() ==> call_ensures(f, ((v1@[i], v2@[i]),), #[trigger] r@[i]),
{
    let g = move |v1: Vec<T>, v2: Vec<U>| -> (r: Vec<W>)
        requires
            forall|i: int|
                0 <= i < v1@.len() && i < v2@.len() ==> call_requires(f, ((v1@[i], v2@[i]),)),
        ensures
            r@.len() == (if v1@.len() <= v2@.len() {
                v1@.len()
            } else {
                v2@.len()
            }),
            forall|i: int| 0 <= i < r@.len() ==> call_ensures(f, ((v1@[i], v2@[i]),), #[trigger] r@[i]),
        {
            fun::zip_with(f, v1, v2)
        };
    g
}

/// Curried [`fun::find`]: fixes the key to look up, leaving the sequence
/// of pairs open.
pub fn find<K: PartialEq + Copy, V>(key: K) -> (g: impl Fn(Vec<(K, V)>) -> Option<(K, V)>)
    ensures
        forall|v: Vec<(K, V)>| #[trigger] call_requires(g, (v,)),
        forall|v: Vec<(K, V)>, r: Option<(K, V)>|
            #[trigger] call_ensures(g, (v,), r) ==> finds_key(key, v@, r),
{
    let g = move |v: Vec<(K, V)>| -> (r: Option<(K, V)>)
        ensures
            finds_key(key, v@, r),
        {
            fun::find(&key, v)
        };
    g
}

/// Curried [`fun::sorted_by`]: fixes the comparator, leaving the sequence
/// open.
pub fn sorted_by<T, F: Fn(&T, &T) -> core::cmp::Ordering + Copy>(cmp: F) -> (g: impl Fn(
    Vec<T>,
) -> Vec<T>)
    ensures
        valid_cmp::<T, F>(cmp) ==> forall|v: Vec<T>| #[trigger] call_requires(g, (v,)),
        forall|v: Vec<T>, r: Vec<T>|
            #[trigger] call_ensures(g, (v,), r) ==> exists|perm: Seq<int>|
                #[trigger] stable_sort_of(cmp, v@, r@, perm),
{
    let g = move |v: Vec<T>| -> (r: Vec<T>)
        requires
            valid_cmp::<T, F>(cmp),
        ensures
            exists|perm: Seq<int>| #[trigger] stable_sort_of(cmp, v@, r@, perm),
        {
            fun::sorted_by(cmp, v)
        };
    g
}

/// Curried [`crate::basic_fn::scalar::always`]: fixes the value to return, yielding a
/// constant function that discards its argument.
pub fn always<T: Copy, U>(x: T) -> (g: impl Fn(U) -> T)
    ensures
        forall|y: U| #[trigger] call_requires(g, (y,)),
        forall|y: U, r: T| #[trigger] call_ensures(g, (y,), r) ==> r == x,
{
    let g = move |y: U| -> (r: T)
        ensures
            r == x,
        {
            x
        };
    g
}

} // verus!
