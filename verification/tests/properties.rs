use kaguya_rs::compose as fcomp;
use kaguya_rs::fun;
use kaguya_rs::scalar;
#[test]
fn pipe_three_stages_runs_left_to_right() {
    let f = fcomp::pipe3(|x: i64| x + 1, |x: i64| x * 2, |x: i64| x - 3);
    assert_eq!(f(3), 5);
    let g = fcomp::compose3(|x: i64| x + 1, |x: i64| x * 2, |x: i64| x - 3);
    assert_eq!(g(3), 1);
}

#[test]
fn reverse_twice_is_identity() {
    let v = vec![4i64, 7, 7, 1, 0, -3];
    assert_eq!(fun::reverse(fun::reverse(v.clone())), v);
    assert_eq!(fun::reverse(fun::reverse(Vec::<i64>::new())), Vec::<i64>::new());
}

#[test]
fn filter_partition_is_complete() {
    let v = vec![5i64, 2, 9, 2, 8, 11, 4];
    let p = |x: &i64| x % 2 == 0;
    let kept = fun::filter(p, v.clone());
    let dropped = fun::filter_not(p, v.clone());
    let together = fun::concat(kept, dropped);
    assert_eq!(fun::sorted(together), fun::sorted(v));
}

#[test]
fn empty_sum_and_product_are_identities() {
    assert_eq!(fun::sum(Vec::new()), 0);
    assert_eq!(fun::product(Vec::new()), 1);
}

#[test]
fn sorted_by_is_stable_on_ties() {
    let pairs = vec![(1i64, 'a'), (1i64, 'b')];
    let by_first = |x: &(i64, char), y: &(i64, char)| x.0.cmp(&y.0);
    assert_eq!(fun::sorted_by(by_first, pairs.clone()), pairs);

    let more = vec![(1i64, 'b'), (2i64, 'x'), (1i64, 'a'), (0i64, 'z')];
    assert_eq!(
        fun::sorted_by(by_first, more),
        vec![(0, 'z'), (1, 'b'), (1, 'a'), (2, 'x')]
    );
}

#[test]
fn take_then_skip_reconstructs() {
    let v = vec![3i64, 1, 4, 1, 5];
    for n in 0..=v.len() {
        let front = fun::take(n, v.clone());
        let back = fun::skip(n, v.clone());
        assert_eq!(fun::concat(front, back), v);
    }
}

#[test]
fn division_truncates_toward_zero() {
    assert_eq!(fun::div(-7, 2), -3);
    assert_eq!(fun::div(7, -2), -3);
    assert_eq!(fun::div(-7, -2), 3);
    assert_eq!(fun::div(i64::MIN, 1), i64::MIN);
    assert_eq!(fun::div(5, i64::MIN), 0);
    assert_eq!(fun::div(i64::MIN, i64::MIN), 1);
}

#[test]
fn remainder_carries_the_dividend_sign() {
    assert_eq!(fun::rem(-7, 2), -1);
    assert_eq!(fun::rem(7, -2), 1);
    assert_eq!(fun::rem(-7, -2), -1);
    assert_eq!(fun::rem(6, 3), 0);
    assert_eq!(fun::rem(i64::MIN, i64::MIN), 0);
    assert_eq!(fun::rem(5, i64::MIN), 5);
}

#[test]
fn reciprocal_of_units_and_larger() {
    assert_eq!(scalar::recip(1), 1);
    assert_eq!(scalar::recip(-1), -1);
    assert_eq!(scalar::recip(2), 0);
    assert_eq!(scalar::recip(-2), 0);
}

#[test]
fn parity_of_negatives() {
    assert!(scalar::even(-2));
    assert!(scalar::even(0));
    assert!(!scalar::odd(-3));
    assert!(!scalar::even(-1));
}

#[test]
fn min_and_max_of_values_and_empty() {
    assert_eq!(fun::min(vec![3, 1, 2]), Some(1));
    assert_eq!(fun::max(vec![3, 1, 2]), Some(3));
    assert_eq!(fun::min(Vec::new()), None);
    assert_eq!(fun::max(Vec::new()), None);
}

#[test]
fn singletons_have_trivial_ends() {
    assert_eq!(fun::head(vec![9i64]), Some(9));
    assert_eq!(fun::last(vec![9i64]), Some(9));
    assert_eq!(fun::tail(vec![9i64]), Some(Vec::new()));
    assert_eq!(fun::init(vec![9i64]), Some(Vec::new()));
}

#[test]
fn sorting_edge_cases() {
    assert_eq!(fun::sorted(Vec::new()), Vec::<i64>::new());
    assert_eq!(fun::sorted(vec![5i64]), vec![5]);
    assert_eq!(fun::sorted(vec![2i64, 1]), vec![1, 2]);
}

#[test]
fn zip_stops_at_the_shorter_input() {
    assert_eq!(fun::zip(vec![1i64, 2, 3], vec!['a']), vec![(1, 'a')]);
    assert_eq!(fun::zip(Vec::<i64>::new(), vec!['a']), Vec::new());
}

#[test]
fn composition_does_no_caching_across_calls() {
    let f = fcomp::pipe2(|x: i64| x + 1, |x: i64| x * 2);
    assert_eq!(f(0), 2);
    assert_eq!(f(1), 4);
    assert_eq!(f(0), 2);
    let g = fcomp::compose2(|x: i64| x + 1, |x: i64| x * 2);
    assert_eq!(g(0), 1);
    assert_eq!(g(0), 1);
}
