use kaguya_rs::compose as fcomp;
use kaguya_rs::curry;
use kaguya_rs::fun;
use kaguya_rs::list;
use kaguya_rs::scalar;
use std::cmp::Ordering;
#[test]
fn compose() {
    let f = fcomp::compose2(|x: i64| x + 1, |x: i64| x * 2);
    assert_eq!(f(3), 7);
    assert_eq!(f(-1), -1);

    fn add_one(x: i64) -> i64 {
        x + 1
    }
    fn multi_two(x: i64) -> i64 {
        x * 2
    }
    let f2 = fcomp::compose2(add_one, multi_two);

    assert_eq!(f2(3), 7);
    assert_eq!(f2(-1), -1);
}

#[test]
fn compose_type_projection() {
    let f = fcomp::compose2(
        |x: Vec<&str>| x.len(),
        |x: &'static str| x.split(' ').collect::<Vec<&str>>(),
    );
    assert_eq!(f("Houraisan Kaguya"), 2);
}

#[test]
fn pipe() {
    let f = fcomp::pipe2(|x: i64| x + 1, |x: i64| x * 2);
    assert_eq!(f(3), 8);
    assert_eq!(f(-1), 0);

    fn add_one(x: i64) -> i64 {
        x + 1
    }
    fn multi_two(x: i64) -> i64 {
        x * 2
    }
    let f2 = fcomp::pipe2(add_one, multi_two);

    assert_eq!(f2(3), 8);
    assert_eq!(f2(-1), 0);
}

#[test]
fn pipe_type_projection() {
    let f = fcomp::pipe2(
        |x: &'static str| x.split(' ').collect::<Vec<&str>>(),
        |x: Vec<&str>| x.len(),
    );
    assert_eq!(f("Houraisan Kaguya"), 2);
}

#[test]
fn map() {
    let v = vec![1i64, 2, 3];
    let result: Vec<i64> = fun::map(|x: i64| x + 1, v.clone());
    assert_eq!(result, vec![2, 3, 4]);

    let curry = curry::map(|x: i64| x + 1);
    let result2: Vec<i64> = curry(v);
    assert_eq!(result2, vec![2, 3, 4]);
}

#[test]
fn filter() {
    let v = vec![1i64, 2, 3];
    let odd_ones = fun::filter(|x: &i64| x & 1 == 1, v.clone());
    assert_eq!(odd_ones, vec![1, 3]);

    let curry = curry::filter(|x: &i64| x & 1 == 0);
    let even_ones = curry(v);
    assert_eq!(even_ones, vec![2]);
}

#[test]
fn filter_not() {
    let v = vec![1i64, 2, 3];
    let even_ones = fun::filter_not(|x: &i64| x & 1 == 1, v.clone());
    assert_eq!(even_ones, vec![2]);

    let curry = curry::filter_not(|x: &i64| x & 1 == 0);
    let odd_ones = curry(v);
    assert_eq!(odd_ones, vec![1, 3]);
}

#[test]
fn foldl() {
    let v = vec![1i64, 2, 3];
    let result = fun::foldl(4, |x: i64, y: i64| x * y, v.clone());
    assert_eq!(result, 24);

    let curry1 = curry::fold_from(5i64);
    let c_result1 = curry1.foldl_with(|x: i64, y: i64| x * y)(v.clone());
    assert_eq!(c_result1, 30);

    let curry2 = curry::foldl(6i64, |x: i64, y: i64| x - y);
    let c_result2 = curry2(v.clone());
    assert_eq!(c_result2, 0);

    let step_curry = curry::fold_from(0i64);
    let step_curry_2 = step_curry.foldl_with(|x: i64, y: i64| x + y);
    assert_eq!(step_curry_2(v), 6);
}

#[test]
fn foldr() {
    let v = vec!["Houraisan", "Kaguya"];
    let result = fun::foldr("".to_string(), |x: String, y: &str| x + "<|>" + y, v.clone());
    assert_eq!(result, "<|>Kaguya<|>Houraisan");

    let curry1 = curry::fold_from("This is:".to_string());
    let c_result1 = curry1.foldr_with(|x: String, y: &str| x + " " + y)(v.clone());
    assert_eq!(c_result1, "This is: Kaguya Houraisan");

    let curry2 = curry::foldr("すごい！".to_string(), |x: String, y: &str| x + " " + y);
    let c_result2 = curry2(v.clone());
    assert_eq!(c_result2, "すごい！ Kaguya Houraisan");

    let step_curry = curry::fold_from("楽しい〜".to_string());
    let step_curry_2 = step_curry.foldr_with(|x: String, y: &str| x + " " + y);
    assert_eq!(step_curry_2(v), "楽しい〜 Kaguya Houraisan");
}

#[test]
fn sum() {
    let result = 10i64;
    assert_eq!(fun::sum((1..=4).collect::<Vec<i64>>()), result);
    assert_eq!(fun::sum(vec![1, 2, 3, 4]), result);
    assert_eq!(1 + 2 + 3 + 4, result);
}

#[test]
fn ls() {
    // 1. function on item; source => condition on item
    assert_eq!(
        list::ls(|x: i64| x + 1, (1..=5).collect::<Vec<i64>>(), |x: &i64| x & 1 == 0),
        vec![3, 5]
    );
    // 2. source => condition on item
    assert_eq!(
        list::ls(|x: i64| x, (0..=4).collect::<Vec<i64>>(), |x: &i64| x & 1 == 0),
        vec![0, 2, 4]
    );
    // 3. function on item; source
    assert_eq!(
        list::ls(|x: i64| x * x, (0..=4).collect::<Vec<i64>>(), |_: &i64| true),
        vec![0, 1, 4, 9, 16]
    );
    // 4. source alone
    assert_eq!(
        list::ls(|x: i64| x, (0..=4).collect::<Vec<i64>>(), |_: &i64| true),
        vec![0, 1, 2, 3, 4]
    );
}

#[test]
fn head() {
    let empty_vec = Vec::new() as Vec<i8>;
    let vec = vec![1, 2, 3];

    assert_eq!(None, fun::head(empty_vec));
    assert_eq!(Some(1), fun::head(vec));
}

#[test]
fn tail() {
    let empty_vec = Vec::new() as Vec<i8>;
    let vec = vec![1, 2, 3];

    assert_eq!(None, fun::tail(empty_vec));
    assert_eq!(Some(vec![2, 3]), fun::tail(vec));
}

#[test]
fn last() {
    let empty_vec = Vec::new() as Vec<i8>;
    let vec = vec![1, 2, 3];

    assert_eq!(None, fun::last(empty_vec));
    assert_eq!(Some(3), fun::last(vec));
}

#[test]
fn init() {
    let empty_vec = Vec::new() as Vec<i8>;
    let vec = vec![1, 2, 3];

    assert_eq!(None, fun::init(empty_vec));
    assert_eq!(Some(vec![1, 2]), fun::init(vec));
}

#[test]
fn skip() {
    let empty_vec = Vec::new() as Vec<i8>;
    let vec = vec![1, 2, 3];

    assert_eq!(Vec::new() as Vec<i8>, fun::skip(1, empty_vec.clone()));
    assert_eq!(vec![2, 3], fun::skip(1, vec.clone()));

    let curry = curry::skip(1);
    assert_eq!(Vec::new() as Vec<i8>, curry(empty_vec));
    assert_eq!(vec![2, 3], curry(vec));
}

#[test]
fn take() {
    let empty_rec = Vec::new() as Vec<i8>;
    let vec = vec![1, 2, 3];

    assert_eq!(Vec::new() as Vec<i8>, fun::take(2, empty_rec.clone()));
    assert_eq!(vec![1, 2], fun::take(2, vec.clone()));

    let curry = curry::take(2);
    assert_eq!(Vec::new() as Vec<i8>, curry(empty_rec));
    assert_eq!(vec![1, 2], curry(vec));
}

#[test]
fn product() {
    assert_eq!(fun::product((1..=5).collect::<Vec<i64>>()), 120);
    assert_eq!(fun::product(vec![1, 2, 3, 4, 5]), 120);
    assert_eq!(1 * 2 * 3 * 4 * 5, 120);
}

#[test]
fn length() {
    assert_eq!(fun::length(vec![1, 2, 3, 4, 5]), 5);
    assert_eq!(fun::length((0..0).collect::<Vec<i64>>()), 0);
}

#[test]
fn reverse() {
    assert_eq!(fun::reverse((1..=5).collect::<Vec<i64>>()), vec![5, 4, 3, 2, 1]);
}

#[test]
fn concat() {
    assert_eq!(
        fun::concat((0..1).collect::<Vec<i64>>(), (1..2).collect::<Vec<i64>>()),
        vec![0, 1]
    );
    assert_eq!(
        fun::concat(
            fun::concat(
                fun::concat(
                    fun::concat((0..1).collect::<Vec<i64>>(), (1..2).collect::<Vec<i64>>()),
                    (2..3).collect::<Vec<i64>>()
                ),
                (3..=4).collect::<Vec<i64>>()
            ),
            vec![5, 6]
        ),
        vec![0, 1, 2, 3, 4, 5, 6]
    );
}

#[test]
fn id() {
    let vec = vec![1, 2, 3];
    assert_eq!(fun::id(vec.clone()), vec);
}

#[test]
fn fst() {
    assert_eq!(scalar::fst(("a", 1)), "a");
    let f = |x: (i8, f32, char)| x.0;
    assert_eq!(f((1, 1.2, '3')), 1);
    let a = (1, 1.2, '3');
    assert_eq!(f(a), 1);
}

#[test]
fn snd() {
    assert_eq!(scalar::snd((1.1, "Bravo")), "Bravo");
    let f = |x: (String, String, String)| x.1;
    assert_eq!(
        f((
            "Houraisan".to_string(),
            "Kaguya".to_string(),
            "美しい".to_string()
        )),
        "Kaguya"
    );
    let a = (1, 3, 2.5);
    let g = |x: (i32, i32, f64)| x.1;
    assert_eq!(g(a), 3);
}

#[test]
fn neg() {
    assert_eq!(fun::neg(1), -1);
    assert_eq!(fun::neg(-1), 1);
}

#[test]
fn abs() {
    assert_eq!(scalar::abs(-1), 1);
    assert_eq!(scalar::abs(1), 1);

    let f = scalar::abs;
    assert_eq!(f(-1), 1);
    assert_eq!(f(1), 1);
}

#[test]
fn signum() {
    assert_eq!(scalar::signum(-100), -1);
    assert_eq!(scalar::signum(0), 0);
    assert_eq!(scalar::signum(5), 1);

    let f = scalar::signum;
    assert_eq!(f(-100), -1);
    assert_eq!(f(0), 0);
    assert_eq!(f(5), 1);
}

#[test]
fn rem() {
    assert_eq!(fun::rem(3, 2), 1);
    assert_eq!(fun::rem(3, 2), 1);
    let f = curry::rem(3);
    assert_eq!(f(2), 1);
}

#[test]
fn odd_and_even() {
    assert!(scalar::even(2));
    assert!(scalar::odd(1));

    let f1 = scalar::even;
    let f2 = scalar::odd;
    assert!(f1(2));
    assert!(f2(1));
}

#[test]
fn always() {
    assert_eq!(scalar::always(1, 'a'), 1);
    assert_eq!(curry::always::<i32, char>(1)('a'), 1);

    let f = scalar::always::<i32, char>;
    assert_eq!(f(1, 'a'), 1);

    let f2 = curry::always::<i32, char>;
    assert_eq!(f2(1)('a'), 1);
}

#[test]
fn add_sub_mul_div() {
    // add
    assert_eq!(fun::add(1, 2), 1 + 2);
    assert_eq!(fun::add(1, 2), 1 + 2);
    assert_eq!(curry::add(1)(2), 1 + 2);

    // sub
    assert_eq!(fun::sub(9, 1), 9 - 1);
    assert_eq!(fun::sub(9, 1), 9 - 1);
    assert_eq!(curry::sub(9)(1), 9 - 1);

    // mul
    assert_eq!(fun::mul(2, 3), 2 * 3);
    assert_eq!(fun::mul(2, 3), 2 * 3);
    assert_eq!(curry::mul(2)(3), 2 * 3);

    // div
    assert_eq!(fun::div(10, 5), 10 / 5);
    assert_eq!(fun::div(10, 5), 10 / 5);
    assert_eq!(curry::div(10)(5), 10 / 5);
}

#[test]
fn find() {
    let m = vec![('a', 1i64), ('b', 2), ('c', 3)];
    assert_eq!(fun::find(&'a', m.clone()), Some(('a', 1)));
    let f = curry::find('b');
    assert_eq!(f(m.clone()), Some(('b', 2)));
    assert_eq!(fun::find(&'d', m), None);
}

#[test]
fn sorted() {
    let vec = vec![1i64, 5, 3, 7, 8, 3, 9, 3, 2];
    assert_eq!(fun::sorted(vec), vec![1, 2, 3, 3, 3, 5, 7, 8, 9]);
}

#[test]
fn sorted_by() {
    let vec = vec![1i64, 5, 3, 4, 2];
    assert_eq!(
        vec![5, 4, 3, 2, 1],
        fun::sorted_by(|x: &i64, y: &i64| y.cmp(x), vec.clone())
    );

    fn cmp<T: Ord>(x: &T, y: &T) -> Ordering {
        x.cmp(y)
    }
    let f = curry::sorted_by(cmp::<i64>);
    assert_eq!(vec![1, 2, 3, 4, 5], f(vec));
}

#[test]
fn zip() {
    let ls1 = vec![1i64, 2, 3];
    let ls2 = vec!['a', 'b', 'c'];
    assert_eq!(
        fun::zip(ls1.clone(), ls2.clone()),
        vec![(1, 'a'), (2, 'b'), (3, 'c')]
    );

    let mac = curry::zip(ls1);
    assert_eq!(mac(ls2), vec![(1, 'a'), (2, 'b'), (3, 'c')]);
}

#[test]
fn zip_with() {
    let ls1 = vec![1i64, 2, 3];
    let ls2 = vec![1i64, 0, 1];
    assert_eq!(
        fun::zip_with(move |(x, y): (i64, i64)| x & y == 0, ls1.clone(), ls2.clone()),
        vec![false, true, false]
    );

    let mac1 = curry::zip_with(move |(x, y): (i64, i64)| x & y == 0);
    let g = curry::zip_with(move |(x, y): (i64, i64)| x & y == 0);
    let mac2 = move |v1: Vec<i64>| move |v2: Vec<i64>| g(v1.clone(), v2);
    let it = ls1.clone();
    let h = curry::zip_with(move |(x, y): (i64, i64)| x & y == 0);
    let mac3 = move |v2: Vec<i64>| h(it.clone(), v2);
    assert_eq!(mac1(ls1.clone(), ls2.clone()), vec![false, true, false]);
    assert_eq!(mac2(ls1.clone())(ls2.clone()), vec![false, true, false]);
    assert_eq!(mac3(ls2), vec![false, true, false]);
}
