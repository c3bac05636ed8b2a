use core::cmp::Ordering;

use iter_merge::comparators::tie_breaker::{
    InsertionOrder, ReverseInsertionOrder, TieBreaker, Unspecified,
};
use iter_merge::comparators::{ByFunc, ByKey, ByOrd, Chain, Comparator, MaxFirst};

#[test]
fn comparators() {
    let [a, b] = [1_i32, 2];
    assert!(Comparator::compare(&ByOrd, &a, &b).is_lt());
    assert!(Comparator::compare(&MaxFirst::new::<i32>(ByOrd), &a, &b).is_gt());
    assert!(Comparator::compare(
        &ByFunc::new(|a: &i32, b: &i32| {
            assert!(*a == 1);
            assert!(*b == 2);
            Ordering::Equal
        }),
        &a,
        &b
    )
    .is_eq());
    assert!(Comparator::compare(
        &MaxFirst::new::<i32>(ByFunc::new(|a: &i32, b: &i32| {
            assert!(*a == 2);
            assert!(*b == 1);
            Ordering::Equal
        })),
        &a,
        &b
    )
    .is_eq());

    assert!(Comparator::compare(
        &ByKey::new(|v: &i32| {
            assert!(*v == 1 || *v == 2);
            0
        }),
        &a,
        &b
    )
    .is_eq());
}

#[test]
fn tie_breaker() {
    // A slot's position is its insertion rank, so the rank tie-breakers
    // compare positions where the original inputs sat.
    assert!(InsertionOrder.break_tie(0, 1).is_lt());
    assert!(InsertionOrder.break_tie(1, 0).is_gt());
    assert!(ReverseInsertionOrder.break_tie(0, 1).is_gt());
    assert!(ReverseInsertionOrder.break_tie(1, 0).is_lt());
    assert!(Unspecified.break_tie(0, 1).is_eq());
    assert!(Unspecified.break_tie(1, 0).is_eq());
}

#[test]
fn chained_comparators() {
    let by_parity = ByFunc::new(|a: &i32, b: &i32| (a % 2).cmp(&(b % 2)));
    let chained = Chain::new::<i32>(by_parity, ByOrd);
    assert!(chained.compare(&4, &3).is_lt());
    assert!(chained.compare(&2, &4).is_lt());
    assert!(chained.compare(&4, &4).is_eq());
    assert!(chained.compare(&5, &2).is_gt());
}
