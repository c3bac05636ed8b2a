use iter_merge::source::LooseHint;
use iter_merge::storage::ArrayCapacityOverflow;
use iter_merge::{ArrayStorage, RangeSource, Source, VecSource};

fn vs(v: Vec<i32>) -> VecSource<i32> {
    VecSource::new(v)
}

fn drain_source<S: Source>(mut s: S) -> Vec<S::Item> {
    let mut out = Vec::new();
    while let Some(v) = s.next() {
        out.push(v);
    }
    out
}

#[test]
fn peek() {
    let s = ArrayStorage::<3, VecSource<i32>>::from_arr(vec![
        vs(vec![3, 2]),
        vs(vec![2, 6]),
        vs(vec![3, 4]),
    ]);
    let mut m = s.build();
    assert_eq!(m.peek(), Some(&2));
    assert_eq!(m.next(), Some(2));
    assert_eq!(m.peek(), Some(&3));
}

#[test]
fn next_if() {
    let s = ArrayStorage::<3, VecSource<i32>>::from_arr(vec![
        vs(vec![3, 6]),
        vs(vec![1, 4]),
        vs(vec![2, 5]),
    ]);
    let mut m = s.build();
    assert_eq!(m.next_if(|&el| el <= 2), Some(1));
    assert_eq!(m.next_if(|&el| el <= 2), Some(2));
    for _ in 0..11 {
        let _ = m.next();
    }
    assert_eq!(m.next_if(|_el| true), None);
}

#[test]
fn next_if_eq() {
    let s = ArrayStorage::<3, VecSource<i32>>::from_arr(vec![
        vs(vec![3, 6]),
        vs(vec![1, 4]),
        vs(vec![2, 5]),
    ]);
    let mut m = s.build();
    assert_eq!(m.next_if_eq(&1), Some(1));
    assert_eq!(m.next_if_eq(&200), None);
    for _ in 0..4 {
        let _ = m.next();
    }
    assert_eq!(m.next_if_eq(&6), Some(6));
    assert_eq!(m.next_if_eq(&7), None);
}

#[test]
fn count() {
    let s = ArrayStorage::<3, VecSource<i32>>::from_arr(vec![
        vs(vec![3, 6]),
        vs(vec![1, 4]),
        vs(vec![2, 5]),
    ]);
    let m = s.build();
    assert_eq!(m.count(), 6);
}

#[test]
fn size_hint() {
    let s = ArrayStorage::<3, VecSource<i32>>::from_arr(vec![
        vs(vec![3, 6]),
        vs(vec![1, 4]),
        vs(vec![2, 5]),
    ]);
    let m = s.build();
    assert_eq!(m.size_hint(), (6, Some(6)));

    // Two endless-looking inputs: the lower bound saturates and no upper
    // bound survives.
    let s = ArrayStorage::<2, LooseHint<RangeSource>>::from_arr(vec![
        LooseHint::new(RangeSource::new(0, usize::MAX), 0, false),
        LooseHint::new(RangeSource::new(0, usize::MAX), 0, false),
    ]);
    let m = s.build();
    assert_eq!(m.size_hint(), (usize::MAX, None));

    // One small exact input and one huge input whose upper bound overflows
    // the sum.
    let s = ArrayStorage::<2, LooseHint<RangeSource>>::from_arr(vec![
        LooseHint::new(RangeSource::new(0, 3), 0, true),
        LooseHint::new(RangeSource::new(0, usize::MAX), usize::MAX, true),
    ]);
    let m = s.build();
    assert_eq!(m.size_hint(), (4, None));
}

#[test]
fn unordered() {
    let s = ArrayStorage::<4, VecSource<i32>>::from_arr(vec![
        vs(vec![5, 2]),
        vs(vec![2, 6]),
        vs(vec![3, 4]),
        vs(vec![0, 2]),
    ]);
    let m = s.build();
    let mut iters_iter = m.as_unordered_iters();
    let mut popped = Vec::new();
    for _ in 0..4 {
        popped.push(iters_iter.next().unwrap().0);
    }
    popped.sort();
    assert_eq!(popped, vec![0, 2, 3, 5]);
    assert!(iters_iter.next().is_none());
    let mut m = iters_iter.into_merge_iter();
    assert!(m.next().is_none());
}

#[test]
fn ordered() {
    let s = ArrayStorage::<4, VecSource<i32>>::from_arr(vec![
        vs(vec![5, 2]),
        vs(vec![2, 6]),
        vs(vec![3, 4]),
        vs(vec![0, 2]),
    ]);
    let m = s.build();
    let mut iters_iter = m.as_iters();
    let (item, iter) = iters_iter.next().unwrap();
    assert_eq!(item, 0);
    assert_eq!(drain_source(iter), vec![2]);
    let (item, iter) = iters_iter.next().unwrap();
    assert_eq!(item, 2);
    assert_eq!(drain_source(iter), vec![6]);
    let mut m = iters_iter.into_merge_iter();
    assert_eq!(m.peek(), Some(&3));
    let mut iters_iter = m.as_iters();
    let (item, iter) = iters_iter.next().unwrap();
    assert_eq!(item, 3);
    assert_eq!(drain_source(iter), vec![4]);
    let (item, iter) = iters_iter.next().unwrap();
    assert_eq!(item, 5);
    assert_eq!(drain_source(iter), vec![2]);
    assert!(iters_iter.next().is_none());
}

#[test]
fn capacity_overflow() {
    let mut s: ArrayStorage<1, VecSource<i32>> = ArrayStorage::new();
    assert_eq!(s.len(), 0);
    assert!(s.is_empty());
    s.push(vs(vec![1, 2, 3]));
    assert_eq!(s.len(), 1);
    assert!(!s.is_empty());
    assert!(matches!(
        s.try_push(vs(vec![4, 5, 6])),
        Err(ArrayCapacityOverflow)
    ));
}

#[test]
fn debug_formatters() {
    let m = iter_merge::merge(vec![vs(vec![31415])]);
    assert!(format!("{m:?}").contains("31415"));
    let mut s = ArrayStorage::<0, VecSource<i32>>::with_capacity::<5>();
    s.push(vs(vec![31415]));
    let m = s.build();
    assert!(format!("{m:?}").contains("31415"));
}

#[test]
fn heap_engine_clone_matches() {
    // A clone of the heap engine taken mid-consumption continues exactly
    // as the original does.
    let mut orig = iter_merge::merge(vec![vs(vec![1, 4, 7]), vs(vec![2, 5, 8])]);
    assert_eq!(orig.next(), Some(1));
    let mut copy = orig.clone();
    loop {
        let a = orig.next();
        let b = copy.next();
        assert_eq!(a, b);
        if a.is_none() {
            break;
        }
    }
}

#[test]
fn capacity_is_reported() {
    let s: ArrayStorage<7, VecSource<i32>> = ArrayStorage::new();
    assert_eq!(s.capacity(), 7);
    let s2 = ArrayStorage::<0, VecSource<i32>>::with_capacity::<5>();
    assert_eq!(s2.capacity(), 5);
}
