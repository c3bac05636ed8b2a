use iter_merge::comparators::ByOrd;
use iter_merge::{merge, merge_by, merge_by_key, VecSource};

fn vs(v: Vec<i32>) -> VecSource<i32> {
    VecSource::new(v)
}

#[test]
fn merge_works() {
    let m = merge(vec![vs(vec![3, 6]), vs(vec![1, 4]), vs(vec![2, 5])]);
    assert_eq!(m.into_vec(), vec![1, 2, 3, 4, 5, 6]);
}

#[test]
fn merge_by_works() {
    let m = merge_by(vec![vs(vec![3, 6]), vs(vec![1, 4]), vs(vec![2, 5])], |a, b| {
        b.cmp(a)
    });
    assert_eq!(m.into_vec(), vec![3, 6, 2, 5, 1, 4]);
}

#[test]
fn merge_by_key_works() {
    let m = merge_by_key(
        vec![vs(vec![-3_i32, 6]), vs(vec![-1, 4]), vs(vec![2, -5])],
        |val| val.abs(),
    );
    assert_eq!(m.into_vec(), vec![-1, 2, -3, 4, -5, 6]);
}

#[test]
fn two_interleaved_inputs() {
    let m = merge(vec![vs(vec![1, 3, 5]), vs(vec![2, 4, 6])]);
    assert_eq!(m.into_vec(), vec![1, 2, 3, 4, 5, 6]);
}

#[test]
fn max_first_natural_order() {
    let s = iter_merge::VecStorage::new();
    let mut s = s;
    s.push(vs(vec![3, 6]));
    s.push(vs(vec![1, 4]));
    s.push(vs(vec![2, 5]));
    let m = s.into_builder().max_by(ByOrd).build();
    // The inputs are ascending, so under the max-first order only the heads
    // drive: each input drains before a smaller head wins.
    assert_eq!(m.into_vec(), vec![3, 6, 2, 5, 1, 4]);
}

#[test]
fn min_by_absolute_key() {
    let m = merge_by_key(
        vec![vs(vec![-3, 6]), vs(vec![-1, 4]), vs(vec![2, -5])],
        |v: &i32| v.abs(),
    );
    assert_eq!(m.into_vec(), vec![-1, 2, -3, 4, -5, 6]);
}

#[test]
fn equal_heads_keep_insertion_order() {
    let m = merge(vec![vs(vec![1, 1, 2]), vs(vec![1, 3])]);
    assert_eq!(m.into_vec(), vec![1, 1, 1, 2, 3]);
}

#[test]
fn unsorted_inputs_pass_through() {
    // The engine only compares heads: inputs that are not sorted come out
    // in head order, not fully sorted.
    let m = merge(vec![vs(vec![2, 1, 5]), vs(vec![4, 3, 6])]);
    assert_eq!(m.into_vec(), vec![2, 1, 4, 3, 5, 6]);
}

#[test]
fn zero_runs_tie_break_and_exhaustion() {
    let m = merge(vec![
        vs(vec![0, 0, -1]),
        vs(vec![0, 0, 1]),
        vs(vec![0, 0, 0]),
    ]);
    // The first input's third element is -1; once it becomes that input's
    // head it is the minimum and must come out before the remaining zeros.
    assert_eq!(m.into_vec(), vec![0, 0, -1, 0, 0, 0, 0, 0, 1]);
}

#[test]
fn heads_drive_the_merge() {
    let m = merge(vec![vs(vec![10, 8, 6, 4, 2]), vs(vec![1, 3, 5, 7, 9])]);
    // The second input's ascending run stays below the first input's head
    // of 10, so it drains completely before the first input starts.
    assert_eq!(m.into_vec(), vec![1, 3, 5, 7, 9, 10, 8, 6, 4, 2]);
}

#[test]
fn empty_inputs_are_skipped() {
    let m = merge(vec![vs(vec![]), vs(vec![2]), vs(vec![]), vs(vec![1])]);
    assert_eq!(m.into_vec(), vec![1, 2]);
}
