//! The composition layer: forward pipe and mathematical composition, built
//! by repeated binary composition. Constructing a chain does no work; each
//! invocation of the returned function re-runs the whole chain.

use vstd::prelude::*;

verus! {

/// Forward pipe of two functions: the returned function applies `f` first,
/// then `g` to what `f` produced.
pub fn pipe2<A, B, C, F: Fn(A) -> B + Copy, G: Fn(B) -> C + Copy>(f: F, g: G) -> (h: impl Fn(
    A,
) -> C)
    ensures
        forall|x: A|
            call_requires(f, (x,)) && (forall|m: B| call_ensures(f, (x,), m) ==> call_requires(
                g,
                (m,),
            )) ==> #[trigger] call_requires(h, (x,)),
        forall|x: A, r: C|
            #[trigger] call_ensures(h, (x,), r) ==> exists|m: B|
                call_ensures(f, (x,), m) && call_ensures(g, (m,), r),
{
    let h = move |x: A| -> (r: C)
        requires
            call_requires(f, (x,)),
            forall|m: B| call_ensures(f, (x,), m) ==> call_requires(g, (m,)),
        ensures
            exists|m: B| call_ensures(f, (x,), m) && call_ensures(g, (m,), r),
        {
            g(f(x))
        };
    h
}

/// Forward pipe of three functions, applied left to right.
pub fn pipe3<A, B, C, D, F: Fn(A) -> B + Copy, G: Fn(B) -> C + Copy, H: Fn(C) -> D + Copy>(
    f: F,
    g: G,
    h: H,
) -> (p: impl Fn(A) -> D)
    ensures
        forall|x: A|
            call_requires(f, (x,)) && (forall|m: B| call_ensures(f, (x,), m) ==> call_requires(
                g,
                (m,),
            )) && (forall|m: B, n: C|
                call_ensures(f, (x,), m) && call_ensures(g, (m,), n) ==> call_requires(
                    h,
                    (n,),
                )) ==> #[trigger] call_requires(p, (x,)),
        forall|x: A, r: D|
            #[trigger] call_ensures(p, (x,), r) ==> exists|m: B, n: C|
                call_ensures(f, (x,), m) && call_ensures(g, (m,), n) && call_ensures(h, (n,), r),
{
    let p = move |x: A| -> (r: D)
        requires
            call_requires(f, (x,)),
            forall|m: B| call_ensures(f, (x,), m) ==> call_requires(g, (m,)),
            forall|m: B, n: C|
                call_ensures(f, (x,), m) && call_ensures(g, (m,), n) ==> call_requires(h, (n,)),
        ensures
            exists|m: B, n: C|
                call_ensures(f, (x,), m) && call_ensures(g, (m,), n) && call_ensures(h, (n,), r),
        {
            h(g(f(x)))
        };
    p
}

/// Mathematical composition of two functions: the returned function applies
/// the last argument first, so `compose2(f, g)` computes `f` of `g`.
pub fn compose2<A, B, C, G: Fn(A) -> B + Copy, F: Fn(B) -> C + Copy>(f: F, g: G) -> (h: impl Fn(
    A,
) -> C)
    ensures
        forall|x: A|
            call_requires(g, (x,)) && (forall|m: B| call_ensures(g, (x,), m) ==> call_requires(
                f,
                (m,),
            )) ==> #[trigger] call_requires(h, (x,)),
        forall|x: A, r: C|
            #[trigger] call_ensures(h, (x,), r) ==> exists|m: B|
                call_ensures(g, (x,), m) && call_ensures(f, (m,), r),
{
    pipe2(g, f)
}

/// Mathematical composition of three functions, applied right to left.
pub fn compose3<A, B, C, D, H: Fn(A) -> B + Copy, G: Fn(B) -> C + Copy, F: Fn(C) -> D + Copy>(
    f: F,
    g: G,
    h: H,
) -> (p: impl Fn(A) -> D)
    ensures
        forall|x: A|
            call_requires(h, (x,)) && (forall|m: B| call_ensures(h, (x,), m) ==> call_requires(
                g,
                (m,),
            )) && (forall|m: B, n: C|
                call_ensures(h, (x,), m) && call_ensures(g, (m,), n) ==> call_requires(
                    f,
                    (n,),
                )) ==> #[trigger] call_requires(p, (x,)),
        forall|x: A, r: D|
            #[trigger] call_ensures(p, (x,), r) ==> exists|m: B, n: C|
                call_ensures(h, (x,), m) && call_ensures(g, (m,), n) && call_ensures(f, (n,), r),
{
    pipe3(h, g, f)
}

/// The forward-pipe law: when `f` and `g` answer exactly as the functions
/// `sf` and `sg`, anything `pipe2(f, g)` can return on `x` is exactly
/// `sg(sf(x))`.
pub proof fn lemma_pipe2_exact<A, B, C, F: Fn(A) -> B, G: Fn(B) -> C, H: Fn(A) -> C>(
    f: F,
    g: G,
    h: H,
    x: A,
    r: C,
    sf: spec_fn(A) -> B,
    sg: spec_fn(B) -> C,
)
    requires
        forall|a: A, b: B| call_ensures(f, (a,), b) ==> b == sf(a),
        forall|b: B, c: C| call_ensures(g, (b,), c) ==> c == sg(b),
        forall|a: A, c: C|
            #[trigger] call_ensures(h, (a,), c) ==> exists|m: B|
                call_ensures(f, (a,), m) && call_ensures(g, (m,), c),
        call_ensures(h, (x,), r),
    ensures
        r == sg(sf(x)),
{
    let m = choose|m: B| call_ensures(f, (x,), m) && call_ensures(g, (m,), r);
    assert(m == sf(x));
}

/// The three-stage forward-pipe law: when `f`, `g` and `h` answer exactly
/// as `sf`, `sg` and `sh`, anything `pipe3(f, g, h)` can return on `x` is
/// exactly `sh(sg(sf(x)))`.
pub proof fn lemma_pipe3_exact<
    A,
    B,
    C,
    D,
    F: Fn(A) -> B,
    G: Fn(B) -> C,
    H: Fn(C) -> D,
    P: Fn(A) -> D,
>(
    f: F,
    g: G,
    h: H,
    p: P,
    x: A,
    r: D,
    sf: spec_fn(A) -> B,
    sg: spec_fn(B) -> C,
    sh: spec_fn(C) -> D,
)
    requires
        forall|a: A, b: B| call_ensures(f, (a,), b) ==> b == sf(a),
        forall|b: B, c: C| call_ensures(g, (b,), c) ==> c == sg(b),
        forall|c: C, d: D| call_ensures(h, (c,), d) ==> d == sh(c),
        forall|a: A, d: D|
            #[trigger] call_ensures(p, (a,), d) ==> exists|m: B, n: C|
                call_ensures(f, (a,), m) && call_ensures(g, (m,), n) && call_ensures(h, (n,), d),
        call_ensures(p, (x,), r),
    ensures
        r == sh(sg(sf(x))),
{
    let (m, n) = choose|m: B, n: C|
        call_ensures(f, (x,), m) && call_ensures(g, (m,), n) && call_ensures(h, (n,), r);
    assert(m == sf(x));
    assert(n == sg(sf(x)));
}


/// The composition law: when `f` and `g` answer exactly as `sf` and `sg`,
/// anything `compose2(f, g)` can return on `x` is exactly `sf(sg(x))`.
pub proof fn lemma_compose2_exact<A, B, C, G: Fn(A) -> B, F: Fn(B) -> C, H: Fn(A) -> C>(
    f: F,
    g: G,
    h: H,
    x: A,
    r: C,
    sf: spec_fn(B) -> C,
    sg: spec_fn(A) -> B,
)
    requires
        forall|b: B, c: C| call_ensures(f, (b,), c) ==> c == sf(b),
        forall|a: A, b: B| call_ensures(g, (a,), b) ==> b == sg(a),
        forall|a: A, c: C|
            #[trigger] call_ensures(h, (a,), c) ==> exists|m: B|
                call_ensures(g, (a,), m) && call_ensures(f, (m,), c),
        call_ensures(h, (x,), r),
    ensures
        r == sf(sg(x)),
{
    lemma_pipe2_exact(g, f, h, x, r, sg, sf);
}

/// The three-stage composition law: when `f`, `g` and `h` answer exactly
/// as `sf`, `sg` and `sh`, anything `compose3(f, g, h)` can return on `x`
/// is exactly `sf(sg(sh(x)))`.
pub proof fn lemma_compose3_exact<
    A,
    B,
    C,
    D,
    H: Fn(A) -> B,
    G: Fn(B) -> C,
    F: Fn(C) -> D,
    P: Fn(A) -> D,
>(
    f: F,
    g: G,
    h: H,
    p: P,
    x: A,
    r: D,
    sf: spec_fn(C) -> D,
    sg: spec_fn(B) -> C,
    sh: spec_fn(A) -> B,
)
    requires
        forall|c: C, d: D| call_ensures(f, (c,), d) ==> d == sf(c),
        forall|b: B, c: C| call_ensures(g, (b,), c) ==> c == sg(b),
        forall|a: A, b: B| call_ensures(h, (a,), b) ==> b == sh(a),
        forall|a: A, d: D|
            #[trigger] call_ensures(p, (a,), d) ==> exists|m: B, n: C|
                call_ensures(h, (a,), m) && call_ensures(g, (m,), n) && call_ensures(f, (n,), d),
        call_ensures(p, (x,), r),
    ensures
        r == sf(sg(sh(x))),
{
    lemma_pipe3_exact(h, g, f, p, x, r, sh, sg, sf);
}

} // verus!
