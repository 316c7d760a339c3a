use akashi::order::ascending_positions;

#[test]
fn positions_ascend_by_key() {
    assert_eq!(ascending_positions(&vec![]), Vec::<usize>::new());
    assert_eq!(ascending_positions(&vec![5]), vec![0]);
    assert_eq!(ascending_positions(&vec![3, 1, 2]), vec![1, 2, 0]);
    assert_eq!(ascending_positions(&vec![i64::MAX, i64::MIN, 0]), vec![1, 2, 0]);
}

#[test]
fn equal_keys_keep_their_order() {
    assert_eq!(ascending_positions(&vec![2, 1, 2, 1, 2]), vec![1, 3, 0, 2, 4]);
}

#[test]
fn greatest_key_comes_last() {
    let mut keys = vec![4, 0, 9, 3];
    let before = ascending_positions(&keys);
    keys.push(10);
    let mut expected = before.clone();
    expected.push(4);
    assert_eq!(ascending_positions(&keys), expected);
}
