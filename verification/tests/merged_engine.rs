use iter_merge::source::LooseHint;
use iter_merge::comparators::ByFunc;
use iter_merge::{Merged, RangeSource, Source, VecSource};

fn vs(v: Vec<i32>) -> VecSource<i32> {
    VecSource::new(v)
}

#[test]
fn test_peek_basic() {
    let mut merged = Merged::new(vec![vs(vec![1, 3, 5]), vs(vec![2, 4, 6])]).build();

    assert_eq!(merged.peek(), Some(&1));
    assert_eq!(merged.next(), Some(1));

    assert_eq!(merged.peek(), Some(&2));
    assert_eq!(merged.next(), Some(2));

    assert_eq!(merged.peek(), Some(&3));
    assert_eq!(merged.next(), Some(3));
}

#[test]
fn test_peek_empty() {
    let mut merged = Merged::new(Vec::<VecSource<i32>>::new()).build();
    assert_eq!(merged.peek(), None);
    assert_eq!(merged.next(), None);
}

#[test]
fn test_peek_after_consumption() {
    let mut merged = Merged::new(vec![vs(vec![1, 2]), vs(vec![3, 4])]).build();

    // Consume all elements
    assert_eq!(merged.next(), Some(1));
    assert_eq!(merged.next(), Some(2));
    assert_eq!(merged.next(), Some(3));
    assert_eq!(merged.next(), Some(4));

    // Should be empty now
    assert_eq!(merged.peek(), None);
    assert_eq!(merged.next(), None);
}

#[test]
fn test_peek_with_duplicates() {
    let mut merged = Merged::new(vec![vs(vec![1, 1, 2]), vs(vec![1, 3, 3])]).build();

    assert_eq!(merged.peek(), Some(&1));
    assert_eq!(merged.next(), Some(1));

    assert_eq!(merged.peek(), Some(&1));
    assert_eq!(merged.next(), Some(1));

    assert_eq!(merged.peek(), Some(&1));
    assert_eq!(merged.next(), Some(1));

    assert_eq!(merged.peek(), Some(&2));
    assert_eq!(merged.next(), Some(2));
}

#[test]
fn test_next_if_basic() {
    let mut merged = Merged::new(vec![vs(vec![1, 1, 2, 3]), vs(vec![1, 4])]).build();

    // Consume all 1s
    assert_eq!(merged.next_if(|&x| x == 1), Some(1));
    assert_eq!(merged.next_if(|&x| x == 1), Some(1));
    assert_eq!(merged.next_if(|&x| x == 1), Some(1));

    // Should not consume 2
    assert_eq!(merged.next_if(|&x| x == 1), None);
    assert_eq!(merged.next(), Some(2));
}

#[test]
fn test_next_if_predicate() {
    let mut merged = Merged::new(vec![vs(vec![1, 2, 3, 4]), vs(vec![2, 5])]).build();

    // The first element is 1 (from the first input), which is odd
    assert_eq!(merged.next_if(|&x| x % 2 == 0), None);
    assert_eq!(merged.next(), Some(1));

    // Now the next element is 2 (from the second input), which is even
    assert_eq!(merged.next_if(|&x| x % 2 == 0), Some(2));
}

#[test]
fn test_next_if_empty() {
    let mut merged = Merged::new(Vec::<VecSource<i32>>::new()).build();
    assert_eq!(merged.next_if(|&x| x == 1), None);
}

#[test]
fn test_next_if_after_consumption() {
    let mut merged = Merged::new(vec![vs(vec![1, 2]), vs(vec![3])]).build();

    // Consume all elements
    assert_eq!(merged.next(), Some(1));
    assert_eq!(merged.next(), Some(2));
    assert_eq!(merged.next(), Some(3));

    // Should be empty
    assert_eq!(merged.next_if(|&x| x == 1), None);
}

#[test]
fn test_next_if_eq_basic() {
    let mut merged = Merged::new(vec![vs(vec![1, 1, 2, 3]), vs(vec![1, 4])]).build();

    // Consume all 1s
    assert_eq!(merged.next_if_eq(&1), Some(1));
    assert_eq!(merged.next_if_eq(&1), Some(1));
    assert_eq!(merged.next_if_eq(&1), Some(1));

    // Should not consume 2
    assert_eq!(merged.next_if_eq(&1), None);
    assert_eq!(merged.next(), Some(2));
}

#[test]
fn test_next_if_eq_different_types() {
    let mut merged = Merged::new(vec![vs(vec![1, 2, 3]), vs(vec![2, 4])]).build();

    // The first element is 1, not 2
    let target: i32 = 2;
    assert_eq!(merged.next_if_eq(&target), None);
    assert_eq!(merged.next(), Some(1));

    // Now the next element is 2
    assert_eq!(merged.next_if_eq(&target), Some(2));
}

#[test]
fn test_next_if_eq_empty() {
    let mut merged = Merged::new(Vec::<VecSource<i32>>::new()).build();
    assert_eq!(merged.next_if_eq(&1), None);
}

#[test]
fn test_break_up_basic() {
    let iter1 = vs(vec![1, 3]);
    let iter2 = vs(vec![2, 4]);
    let mut merged = Merged::new(vec![iter1, iter2]).build();

    assert_eq!(merged.next(), Some(1));

    let mut storage = merged.break_up();

    // Check the remaining elements
    assert_eq!(storage[0].0, 3); // First input's peeked value
    assert_eq!(storage[0].1.next(), None); // First input is exhausted

    assert_eq!(storage[1].0, 2); // Second input's peeked value
    assert_eq!(storage[1].1.next(), Some(4)); // Second input has more elements
    assert_eq!(storage[1].1.next(), None);
}

#[test]
fn test_break_up_empty() {
    let merged = Merged::new(Vec::<VecSource<i32>>::new()).build();
    let storage = merged.break_up();
    assert_eq!(storage.len(), 0);
}

#[test]
fn test_break_up_after_full_consumption() {
    let iter1 = vs(vec![1]);
    let iter2 = vs(vec![2]);
    let mut merged = Merged::new(vec![iter1, iter2]).build();

    // Consume all elements
    assert_eq!(merged.next(), Some(1));
    assert_eq!(merged.next(), Some(2));

    let storage = merged.break_up();
    assert_eq!(storage.len(), 0); // All inputs should be exhausted
}

#[test]
fn test_size_hint() {
    let merged = Merged::new(Vec::<VecSource<i32>>::new()).build();
    assert_eq!(merged.size_hint(), (0, Some(0)));

    let merged = Merged::new(vec![vs(vec![1, 2, 3]), vs(vec![4, 5])]).build();
    assert_eq!(merged.size_hint(), (5, Some(5)));

    // Three elements, but a coarse hint that only promises one and allows
    // three, the way a filtering adapter reports.
    let iter = LooseHint::new(RangeSource::new(0, 3), 3, true);
    let merged = Merged::new(vec![iter]).build();
    assert_eq!(merged.size_hint(), (1, Some(3)));

    // A huge input with no usable bounds at all.
    let iter = LooseHint::new(RangeSource::new(0, usize::MAX), usize::MAX, false);
    let merged = Merged::new(vec![iter]).build();
    assert_eq!(merged.size_hint(), (1, None));

    let iter = RangeSource::new(0, 5);
    let merged = Merged::new(vec![iter]).build();
    assert_eq!(merged.size_hint(), (5, Some(5)));

    // A five-element promise in front of an unbounded remainder.
    let iter = LooseHint::new(RangeSource::new(0, 1000), 995, false);
    let merged = Merged::new(vec![iter]).build();
    assert_eq!(merged.size_hint(), (5, None));

    // Size hint overflow
    let merged = Merged::new(vec![
        RangeSource::new(0, usize::MAX),
        RangeSource::new(0, usize::MAX),
    ])
    .build();
    assert_eq!(merged.size_hint(), (usize::MAX, None));
}

#[test]
fn test_add_iter() {
    let mut merged = Merged::new(vec![vs(vec![1, 3, 5])]).build();
    merged.add_iter(vs(vec![2, 4, 6]));
    assert_eq!(merged.into_vec(), vec![1, 2, 3, 4, 5, 6]);
    merged.add_iter(vs(vec![7, 8, 9]));
    assert_eq!(merged.into_vec(), vec![7, 8, 9]);
    merged.add_iter(vs(vec![]));
    assert_eq!(merged.into_vec(), vec![]);
    merged.add_iter(vs(vec![11, 14, 17]));
    merged.add_iter(vs(vec![12, 15, 18]));
    merged.add_iter(vs(vec![10, 13, 16]));
    assert_eq!(
        merged.into_vec(),
        vec![10, 11, 12, 13, 14, 15, 16, 17, 18]
    );
}

#[test]
fn test_add_iters() {
    let mut merged = Merged::new(vec![vs(vec![7, 8, 9])]).build();
    merged.add_iters(vec![vs(vec![2, 4, 6]), vs(vec![1, 3, 5])]);
    assert_eq!(merged.into_vec(), vec![1, 2, 3, 4, 5, 6, 7, 8, 9]);
}

#[test]
fn test_replace_cmp() {
    let mut merged = Merged::new(vec![vs(vec![1, 4]), vs(vec![2, 5]), vs(vec![3, 6])]).build();

    assert_eq!(merged.next(), Some(1));
    assert_eq!(merged.next(), Some(2));
    assert_eq!(merged.next(), Some(3));
    // Reverse the ordering
    let mut merged = merged.replace_cmp(ByFunc::new(|a: &i32, b: &i32| b.cmp(a)));
    assert_eq!(merged.next(), Some(6));
    assert_eq!(merged.next(), Some(5));
    assert_eq!(merged.next(), Some(4));
}

#[test]
fn test_with_cmp() {
    let merged = Merged::new(vec![vs(vec![5, 3, 1]), vs(vec![6, 4, 2])])
        .with_cmp(|a, b| b.cmp(a))
        .build();
    let mut merged = merged;
    assert_eq!(merged.into_vec(), vec![6, 5, 4, 3, 2, 1]);
}

#[test]
fn test_arbitrary_tie_breaking() {
    let merged = Merged::new(vec![vs(vec![1, 3, 5]), vs(vec![2, 4, 6])])
        .arbitrary_tie_breaking()
        .build();
    let mut merged = merged;
    let mut out = merged.into_vec();
    out.sort();
    assert_eq!(out, vec![1, 2, 3, 4, 5, 6]);
}

#[test]
fn test_stable_tie_breaking_round_trip() {
    let merged = Merged::new(vec![vs(vec![1, 1]), vs(vec![1, 2])])
        .arbitrary_tie_breaking()
        .stable_tie_breaking()
        .build();
    let mut merged = merged;
    assert_eq!(merged.into_vec(), vec![1, 1, 1, 2]);
}
