use termpipe::containers::bit_set::BitSet;

#[test]
fn bitset_covers_requested_bytes() {
    let set = BitSet::new(100);
    // 100 bytes round up to 7 words of 16 bytes.
    assert_eq!(set.bits.len(), 7);
    for i in 0..7 * 128 {
        assert!(!set.get(i));
    }
}

#[test]
fn set_unset_and_flip_one_bit() {
    let mut set = BitSet::new(32);
    set.set(200);
    assert!(set.get(200));
    assert!(!set.get(199));
    assert!(!set.get(201));
    set.unset(200);
    assert!(!set.get(200));
    set.flip(77);
    assert!(set.get(77));
    set.flip(77);
    assert!(!set.get(77));
}

#[test]
fn intersection_keeps_common_bits() {
    let mut a = BitSet::new(32);
    let mut b = BitSet::new(32);
    a.set(3);
    a.set(140);
    a.set(7);
    b.set(140);
    b.set(7);
    b.set(9);
    let both = a.and(&b);
    assert_eq!(both.get_set_indices(), vec![7, 140]);
}

#[test]
fn union_and_symmetric_difference() {
    let mut a = BitSet::new(16);
    let mut b = BitSet::new(32);
    a.set(1);
    a.set(2);
    b.set(2);
    b.set(130);
    let either = a.or(&b);
    assert_eq!(either.bits.len(), 2);
    assert_eq!(either.get_set_indices(), vec![1, 2, 130]);
    let exactly_one = a.xor(&b);
    assert_eq!(exactly_one.get_set_indices(), vec![1, 130]);
}
