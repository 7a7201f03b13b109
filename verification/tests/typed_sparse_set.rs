use termpipe::containers::typed_sparse_set::SparseSet;

const SPARSE_SET_TEST_SIZE: usize = 100;

#[test]
fn sparse_set_test_push() {
    let mut set = SparseSet::new(SPARSE_SET_TEST_SIZE);
    for i in 0..SPARSE_SET_TEST_SIZE {
        set.push(i, 2 * i);
        assert_eq!(set.dense[i], i);
        assert_eq!(set.dense_objects[i], 2 * i);
    }
}

#[test]
fn sparse_set_test_remove() {
    let mut set = SparseSet::new(SPARSE_SET_TEST_SIZE);
    for i in 0..SPARSE_SET_TEST_SIZE {
        set.push(i, i);
    }

    for i in (SPARSE_SET_TEST_SIZE / 2)..(SPARSE_SET_TEST_SIZE) {
        assert_eq!(set.remove(i), (i, Some(i)));
    }

    assert_eq!(set.dense.len(), SPARSE_SET_TEST_SIZE / 2);
    assert_eq!(set.remove(SPARSE_SET_TEST_SIZE + 1), (set.tombstone, None));
}

#[test]
fn sparse_set_test_contains() {
    let mut set = SparseSet::new(SPARSE_SET_TEST_SIZE);
    for i in 0..SPARSE_SET_TEST_SIZE / 2 {
        set.push(2 * i, 4 * i);
    }

    assert_eq!(set.contains(1), false);
    assert_eq!(set.contains(98), true);
    assert_eq!(set.contains(SPARSE_SET_TEST_SIZE + 1), false);
}

#[test]
fn test_get() {
    let mut set = SparseSet::new(SPARSE_SET_TEST_SIZE);
    for i in 0..SPARSE_SET_TEST_SIZE {
        set.push(i, 3 * i);
    }

    for i in 0..SPARSE_SET_TEST_SIZE {
        assert_eq!(*set.get(i).unwrap(), 3 * i);
    }

    for i in 0..SPARSE_SET_TEST_SIZE {
        *set.get_mut(i).unwrap() *= 2;
    }

    for i in 0..SPARSE_SET_TEST_SIZE {
        assert_eq!(*set.get(i).unwrap(), i * 6);
    }
}

#[test]
fn test_get_all_elements() {
    let mut set = SparseSet::new(10);
    set.push(7, 'a');
    set.push(2, 'b');
    set.push(5, 'c');
    assert_eq!(set.get_all_elements(), vec![2, 5, 7]);
    set.remove(5);
    assert_eq!(set.get_all_elements(), vec![2, 7]);
}
