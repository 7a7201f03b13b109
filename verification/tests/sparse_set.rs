use termpipe::containers::sparse_set::SparseSet;

const SPARSE_SET_TEST_SIZE: usize = 100;

#[test]
fn test_push() {
    let mut set = SparseSet::new(SPARSE_SET_TEST_SIZE);
    for i in 0..SPARSE_SET_TEST_SIZE {
        set.push(i);
        assert_eq!(set.dense[i], i);
    }
}

#[test]
fn test_remove() {
    let mut set = SparseSet::new(SPARSE_SET_TEST_SIZE);
    for i in 0..SPARSE_SET_TEST_SIZE {
        set.push(i);
    }

    for i in (SPARSE_SET_TEST_SIZE / 2)..(SPARSE_SET_TEST_SIZE) {
        assert_eq!(set.remove(i), i);
    }

    assert_eq!(set.dense.len(), SPARSE_SET_TEST_SIZE / 2);
    assert_eq!(set.remove(SPARSE_SET_TEST_SIZE + 1), set.tombstone);
}

#[test]
fn test_contains() {
    let mut set = SparseSet::new(SPARSE_SET_TEST_SIZE);
    for i in 0..SPARSE_SET_TEST_SIZE / 2 {
        set.push(2 * i);
    }

    assert_eq!(set.contains(1), false);
    assert_eq!(set.contains(98), true);
    assert_eq!(set.contains(SPARSE_SET_TEST_SIZE + 1), false);
}

#[test]
fn test_clear() {
    let mut set = SparseSet::new(SPARSE_SET_TEST_SIZE);
    for i in 0..SPARSE_SET_TEST_SIZE {
        set.push(i);
    }
    set.clear();
    assert_eq!(set.dense.len(), 0);
    for i in 0..SPARSE_SET_TEST_SIZE {
        assert_eq!(set.contains(i), false);
    }
}
