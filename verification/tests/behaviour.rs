use iter_merge::comparators::tie_breaker::ReverseInsertionOrder;
use iter_merge::source::LooseHint;
use iter_merge::{merge, ArrayStorage, Merged, RangeSource, Source, VecSource, VecStorage};

fn vs(v: Vec<i32>) -> VecSource<i32> {
    VecSource::new(v)
}

#[test]
fn vec_source_yields_in_order() {
    let mut s = vs(vec![4, 7, 7, 9]);
    assert_eq!(s.size_hint(), (4, Some(4)));
    assert_eq!(s.next(), Some(4));
    assert_eq!(s.next(), Some(7));
    assert_eq!(s.size_hint(), (2, Some(2)));
    assert_eq!(s.next(), Some(7));
    assert_eq!(s.next(), Some(9));
    assert_eq!(s.next(), None);
    assert_eq!(s.next(), None);
}

#[test]
fn range_source_yields_in_order() {
    let mut s = RangeSource::new(3, 6);
    assert_eq!(s.size_hint(), (3, Some(3)));
    assert_eq!(s.next(), Some(3));
    assert_eq!(s.next(), Some(4));
    assert_eq!(s.next(), Some(5));
    assert_eq!(s.next(), None);
    let mut empty = RangeSource::new(6, 3);
    assert_eq!(empty.size_hint(), (0, Some(0)));
    assert_eq!(empty.next(), None);
}

#[test]
fn loose_hint_yields_the_same_elements() {
    // The adapter only coarsens the hint; the elements come through
    // untouched.
    let mut s = LooseHint::new(RangeSource::new(0, 3), 2, false);
    assert_eq!(s.size_hint(), (1, None));
    assert_eq!(s.next(), Some(0));
    assert_eq!(s.next(), Some(1));
    assert_eq!(s.next(), Some(2));
    assert_eq!(s.next(), None);
}

#[test]
fn vec_storage_reserves_keep_contents() {
    // Reserving touches capacity only; the stored inputs and the merge
    // they build are unchanged.
    let mut s = VecStorage::new();
    s.push(vs(vec![1, 4]));
    s.push(vs(vec![2, 3]));
    s.reserve(10);
    assert!(s.try_reserve(10).is_ok());
    s.reserve_exact(10);
    assert!(s.try_reserve_exact(10).is_ok());
    assert_eq!(s.build().into_vec(), vec![1, 2, 3, 4]);
}

#[test]
fn try_into_builder_accepts() {
    // The fallible conversion succeeds in ordinary conditions and builds
    // the same merge the infallible one does.
    let mut s = VecStorage::new();
    s.push(vs(vec![2, 3]));
    s.push(vs(vec![1, 4]));
    let b = s.try_into_builder().unwrap();
    assert_eq!(b.build().into_vec(), vec![1, 2, 3, 4]);
}

#[test]
fn vec_storage_try_push_accepts() {
    let mut s = VecStorage::new();
    assert!(s.try_push(vs(vec![2])).is_ok());
    assert!(s.try_push(vs(vec![])).is_ok());
    assert!(s.try_push(vs(vec![1])).is_ok());
    assert_eq!(s.build().into_vec(), vec![1, 2]);
}

#[test]
fn reverse_insertion_order_tie_breaking() {
    // Equal heads under the reverse tie-breaker come from the
    // latest-inserted input first.
    let mut s = VecStorage::new();
    s.push(vs(vec![0, 7]));
    s.push(vs(vec![0, 8]));
    let m = s
        .into_builder()
        .tie_breaker(ReverseInsertionOrder)
        .build();
    assert_eq!(m.into_vec(), vec![0, 0, 7, 8]);
}

#[test]
fn merged_engine_matches_heap_engine() {
    // The same inputs drained through both engines give the same output.
    let inputs = vec![vec![1, 5, 9], vec![2, 6], vec![3, 4, 8], vec![7]];
    let a = Merged::new(inputs.iter().map(|v| vs(v.clone())).collect::<Vec<_>>())
        .build()
        .into_vec();
    let b = merge(inputs.iter().map(|v| vs(v.clone())).collect::<Vec<_>>()).into_vec();
    assert_eq!(a, b);
    assert_eq!(a, vec![1, 2, 3, 4, 5, 6, 7, 8, 9]);
}

#[test]
fn fusion_after_exhaustion() {
    let mut m = merge(vec![vs(vec![1]), vs(vec![2])]);
    assert_eq!(m.next(), Some(1));
    assert_eq!(m.next(), Some(2));
    assert_eq!(m.next(), None);
    assert_eq!(m.next(), None);
    assert_eq!(m.next(), None);
}

#[test]
fn merged_fusion_after_exhaustion() {
    let mut m = Merged::new(vec![vs(vec![4])]).build();
    assert_eq!(m.next(), Some(4));
    assert_eq!(m.next(), None);
    assert_eq!(m.next(), None);
}

#[test]
fn permutation_on_every_drain_path() {
    // Whatever path the elements leave through, none is lost or invented.
    let build = || merge(vec![vs(vec![5, 1]), vs(vec![2, 2]), vs(vec![9])]);

    let mut by_next = Vec::new();
    let mut m = build();
    while let Some(v) = m.next() {
        by_next.push(v);
    }
    let mut in_one_go = build().into_vec();
    assert_eq!(by_next, in_one_go);

    let mut unordered = Vec::new();
    let mut it = build().as_unordered_iters();
    while let Some((head, rest)) = it.next() {
        unordered.push(head);
        let mut rest = rest;
        while let Some(v) = rest.next() {
            unordered.push(v);
        }
    }
    unordered.sort();
    in_one_go.sort();
    assert_eq!(unordered, in_one_go);
}

#[test]
fn break_up_returns_every_remaining_element() {
    let mut m = Merged::new(vec![vs(vec![1, 3, 5]), vs(vec![2, 4])]).build();
    let mut emitted = Vec::new();
    emitted.push(m.next().unwrap());
    emitted.push(m.next().unwrap());
    let storage = m.break_up();
    for (head, rest) in storage {
        emitted.push(head);
        let mut rest = rest;
        while let Some(v) = rest.next() {
            emitted.push(v);
        }
    }
    emitted.sort();
    assert_eq!(emitted, vec![1, 2, 3, 4, 5]);
}

#[test]
fn add_iter_mid_stream_keeps_order() {
    let mut m = Merged::new(vec![vs(vec![2, 5, 8])]).build();
    assert_eq!(m.next(), Some(2));
    m.add_iter(vs(vec![1, 4, 7]));
    assert_eq!(m.next(), Some(1));
    m.add_iter(vs(vec![3, 6, 9]));
    assert_eq!(m.into_vec(), vec![3, 4, 5, 6, 7, 8, 9]);
}

#[test]
fn count_saturates_nothing_small() {
    let m = merge(vec![vs(vec![1, 2, 3]), vs(vec![])]);
    assert_eq!(m.count(), 3);
    let m = merge(Vec::<VecSource<i32>>::new());
    assert_eq!(m.count(), 0);
}

#[test]
fn clone_mid_consumption_matches() {
    // A clone taken mid-consumption continues exactly as the original
    // does from that point on.
    let mut orig = Merged::new(vec![vs(vec![1, 4, 7]), vs(vec![2, 5, 8])]).build();
    assert_eq!(orig.next(), Some(1));
    assert_eq!(orig.next(), Some(2));
    let mut copy = orig.clone();
    loop {
        let a = orig.next();
        let b = copy.next();
        assert_eq!(a, b);
        if a.is_none() {
            break;
        }
    }
}

#[test]
fn array_push_into_free_space() {
    let mut s: ArrayStorage<3, VecSource<i32>> = ArrayStorage::new();
    s.push(vs(vec![2]));
    s.push(vs(vec![]));
    s.push(vs(vec![1]));
    assert_eq!(s.len(), 2);
    assert!(s.try_push(vs(vec![0])).is_ok());
    assert_eq!(s.build().into_vec(), vec![0, 1, 2]);
}
