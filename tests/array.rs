use open_hypergraphs::array::VecArray;

#[test]
fn cumulative_sum_of_one_to_four() {
    let input = VecArray(vec![1usize, 2, 3, 4]);
    let expected = VecArray(vec![0usize, 1, 3, 6, 10]);
    let out = input.cumulative_sum();
    assert_eq!(out, expected);
    assert_eq!(out.len(), 5);
    assert_eq!(out.0[4], 10);
}

#[test]
fn cumulative_sum_of_empty_is_zero() {
    let input: VecArray<usize> = VecArray(vec![]);
    assert_eq!(input.cumulative_sum(), VecArray(vec![0usize]));
}

#[test]
fn quot_rem_by_three() {
    let x = VecArray(vec![0usize, 1, 2, 3, 4, 5]);
    let (q, r) = x.quot_rem(3);
    assert_eq!(q, VecArray(vec![0usize, 0, 0, 1, 1, 1]));
    assert_eq!(r, VecArray(vec![0usize, 1, 2, 0, 1, 2]));
}

#[test]
fn repeat_expands_values() {
    let repeats = VecArray(vec![1usize, 2, 0, 3]);
    let values: &[usize] = &[5, 6, 7, 8];
    assert_eq!(repeats.repeat(values), VecArray(vec![5usize, 6, 6, 8, 8, 8]));
}

#[test]
fn arange_counts_up() {
    assert_eq!(VecArray::arange(3, 7), VecArray(vec![3usize, 4, 5, 6]));
    assert_eq!(VecArray::arange(4, 4), VecArray(Vec::<usize>::new()));
}

#[test]
fn pointwise_arithmetic() {
    let a = VecArray(vec![1usize, 5, 9]);
    let b = VecArray(vec![1usize, 2, 3]);
    assert_eq!(a.add(&b), VecArray(vec![2usize, 7, 12]));
    assert_eq!(a.sub(&b), VecArray(vec![0usize, 3, 6]));
    assert_eq!(b.add_scalar(10), VecArray(vec![11usize, 12, 13]));
    assert_eq!(a.mul_constant_add(3, &b), VecArray(vec![4usize, 17, 30]));
}

#[test]
fn max_of_array() {
    assert_eq!(VecArray(vec![3usize, 9, 2]).max(), Some(9));
    assert_eq!(VecArray(Vec::<usize>::new()).max(), None);
}

#[test]
fn checked_sum_detects_overflow() {
    assert_eq!(VecArray(vec![1usize, 2, 3]).checked_sum(), Some(6));
    assert_eq!(VecArray(vec![usize::MAX, 1]).checked_sum(), None);
    assert_eq!(VecArray(Vec::<usize>::new()).checked_sum(), Some(0));
}

#[test]
fn segmented_sum_sums_each_piece() {
    let sizes = VecArray(vec![2usize, 0, 3]);
    let x = VecArray(vec![1usize, 2, 3, 4, 5]);
    assert_eq!(sizes.segmented_sum(&x), VecArray(vec![3usize, 0, 12]));
}

#[test]
fn generic_array_operations() {
    let a = VecArray(vec!['a', 'b', 'c']);
    let b = VecArray(vec!['d']);
    assert_eq!(a.concatenate(&b), VecArray(vec!['a', 'b', 'c', 'd']));
    assert_eq!(VecArray::fill('z', 3), VecArray(vec!['z', 'z', 'z']));
    assert_eq!(a.get(1), 'b');
    assert_eq!(a.get_range(1, 3), &['b', 'c']);
    assert_eq!(a.gather(&[2, 0, 2]), VecArray(vec!['c', 'a', 'c']));
    assert_eq!(VecArray::<char>::empty().len(), 0);
}

#[test]
fn set_range_overwrites_a_window() {
    let mut a = VecArray(vec![0usize, 1, 2, 3, 4]);
    a.set_range(1, 3, &VecArray(vec![9usize, 8]));
    assert_eq!(a, VecArray(vec![0usize, 9, 8, 3, 4]));
}

#[test]
fn scatter_reads_values_at_the_target_position() {
    let mut a = VecArray(vec![0usize, 0, 0, 0]);
    let v = VecArray(vec![10usize, 11, 12, 13]);
    a.scatter(&[3, 1], &v);
    assert_eq!(a, VecArray(vec![0usize, 11, 0, 13]));
}

#[test]
fn duplicate_and_concat() {
    let a = VecArray(vec![1usize, 2]);
    let b = VecArray(vec![3usize]);
    assert_eq!(a.duplicate(), a);
    assert_eq!(a.concat(&b), VecArray(vec![1usize, 2, 3]));
}
