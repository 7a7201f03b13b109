//! A bitset of arbitrary length, allocated in 128-bit words.

use vstd::prelude::*;

verus! {

/// The effect of OR-ing one set bit into a word, bit by bit.
proof fn lemma_or_bit(x: u128, s: u128)
    requires
        s < 128,
    ensures
        forall|j: u128|
            j < 128 ==> #[trigger] (((x | (1u128 << s)) >> j) & 1) == (if j == s {
                1u128
            } else {
                (x >> j) & 1
            }),
{
    assert(forall|j: u128|
        j < 128 ==> #[trigger] (((x | (1u128 << s)) >> j) & 1) == (if j == s {
            1u128
        } else {
            (x >> j) & 1
        })) by (bit_vector)
        requires
            s < 128,
    ;
}

/// The effect of clearing one bit of a word, bit by bit.
proof fn lemma_clear_bit(x: u128, s: u128)
    requires
        s < 128,
    ensures
        forall|j: u128|
            j < 128 ==> #[trigger] (((x & !(1u128 << s)) >> j) & 1) == (if j == s {
                0u128
            } else {
                (x >> j) & 1
            }),
{
    assert(forall|j: u128|
        j < 128 ==> #[trigger] (((x & !(1u128 << s)) >> j) & 1) == (if j == s {
            0u128
        } else {
            (x >> j) & 1
        })) by (bit_vector)
        requires
            s < 128,
    ;
}

/// The effect of flipping one bit of a word, bit by bit.
proof fn lemma_flip_bit(x: u128, s: u128)
    requires
        s < 128,
    ensures
        forall|j: u128|
            j < 128 ==> #[trigger] (((x ^ (1u128 << s)) >> j) & 1) == (if j == s {
                1u128 - ((x >> j) & 1)
            } else {
                ((x >> j) & 1) as int
            }),
{
    assert(forall|j: u128|
        j < 128 ==> (((x >> j) & 1) == 0 || ((x >> j) & 1) == 1)) by (bit_vector);
    assert(forall|j: u128|
        j < 128 ==> #[trigger] (((x ^ (1u128 << s)) >> j) & 1) == (if j == s {
            1u128 - ((x >> j) & 1)
        } else {
            ((x >> j) & 1) as int
        })) by (bit_vector)
        requires
            s < 128,
    ;
}

/// AND-ing two words ANDs every bit.
proof fn lemma_and_word_bits(x: u128, y: u128)
    ensures
        forall|j: u128|
            j < 128 ==> ((#[trigger] (((x & y) >> j) & 1)) == 1 <==> ((x >> j) & 1) == 1 && ((y
                >> j) & 1) == 1),
{
    assert(forall|j: u128|
        j < 128 ==> ((#[trigger] (((x & y) >> j) & 1)) == 1 <==> ((x >> j) & 1) == 1 && ((y >> j)
            & 1) == 1)) by (bit_vector);
}

/// A bitset of arbitrary length. Internally allocates one `u128` word per
/// sixteen bytes of requested capacity, rounded up.
#[derive(Debug)]
pub struct BitSet {
    pub bits: Vec<u128>,
}

impl BitSet {
    /// How many bits the set holds.
    pub open spec fn capacity(&self) -> int {
        128 * (self.bits@.len() as int)
    }

    /// Whether bit `i` is set.
    pub open spec fn bit(&self, i: int) -> bool {
        ((self.bits@[i / 128] >> ((i % 128) as u128)) & 1) == 1
    }

    /// A bitset covering at least `byte_count` bytes of bits, all clear.
    pub fn new(byte_count: usize) -> (r: BitSet)
        ensures
            r.bits@.len() == byte_count / 16 + (if byte_count % 16 == 0 {
                0int
            } else {
                1int
            }),
            r.capacity() >= 8 * byte_count,
            forall|i: int| 0 <= i < r.capacity() ==> !r.bit(i),
    {
        let word_count = byte_count / 16 + (if byte_count % 16 == 0 {
            0
        } else {
            1
        });
        proof {
            assert(128 * (byte_count / 16 + (if byte_count % 16 == 0 {
                0int
            } else {
                1int
            })) >= 8 * byte_count) by (nonlinear_arith);
        }
        let mut bits: Vec<u128> = Vec::new();
        let mut i: usize = 0;
        while i < word_count
            invariant
                i <= word_count,
                bits@.len() == i,
                forall|k: int| 0 <= k < i ==> (#[trigger] bits@[k]) == 0,
            decreases word_count - i,
        {
            bits.push(0);
            i = i + 1;
        }
        let r = BitSet { bits };
        proof {
            assert(forall|s: u128| ((0u128 >> s) & 1) == 0) by (bit_vector);
            assert forall|i2: int| 0 <= i2 < r.capacity() implies !r.bit(i2) by {
                assert(r.bits@[i2 / 128] == 0);
            }
        }
        r
    }

    /// The word a bit lives in, and its position inside the word.
    fn get_index(bit_index: usize) -> (r: (usize, usize))
        ensures
            r.0 == bit_index / 128,
            r.1 == bit_index % 128,
    {
        (bit_index / 128, bit_index % 128)
    }

    /// Whether bit `bit_index` is set.
    pub fn get(&self, bit_index: usize) -> (r: bool)
        requires
            bit_index < self.capacity(),
        ensures
            r == self.bit(bit_index as int),
    {
        let (word, sub) = Self::get_index(bit_index);
        (self.bits[word] >> (sub as u32)) & 1 == 1
    }

    /// Set the bit at `bit_index` to 1.
    pub fn set(&mut self, bit_index: usize)
        requires
            bit_index < old(self).capacity(),
        ensures
            final(self).bits@.len() == old(self).bits@.len(),
            forall|j: int|
                0 <= j < final(self).capacity() ==> (final(self).bit(j) <==> (old(self).bit(j) || j
                    == bit_index)),
    {
        let (word, sub) = Self::get_index(bit_index);
        let x = self.bits[word];
        self.bits[word] = x | (1u128 << (sub as u32));
        proof {
            lemma_or_bit(x, (bit_index % 128) as u128);
            assert forall|j: int|
                0 <= j < self.capacity() implies (self.bit(j) <==> (old(self).bit(j) || j
                == bit_index)) by {
                vstd::arithmetic::div_mod::lemma_fundamental_div_mod(j, 128);
                vstd::arithmetic::div_mod::lemma_fundamental_div_mod(bit_index as int, 128);
            }
        }
    }

    /// Set the bit at `bit_index` to 0.
    pub fn unset(&mut self, bit_index: usize)
        requires
            bit_index < old(self).capacity(),
        ensures
            final(self).bits@.len() == old(self).bits@.len(),
            forall|j: int|
                0 <= j < final(self).capacity() ==> (final(self).bit(j) <==> (old(self).bit(j) && j
                    != bit_index)),
    {
        let (word, sub) = Self::get_index(bit_index);
        let x = self.bits[word];
        self.bits[word] = x & !(1u128 << (sub as u32));
        proof {
            lemma_clear_bit(x, (bit_index % 128) as u128);
            assert forall|j: int|
                0 <= j < self.capacity() implies (self.bit(j) <==> (old(self).bit(j) && j
                != bit_index)) by {
                vstd::arithmetic::div_mod::lemma_fundamental_div_mod(j, 128);
                vstd::arithmetic::div_mod::lemma_fundamental_div_mod(bit_index as int, 128);
            }
        }
    }

    /// Flip the bit at `bit_index`.
    pub fn flip(&mut self, bit_index: usize)
        requires
            bit_index < old(self).capacity(),
        ensures
            final(self).bits@.len() == old(self).bits@.len(),
            forall|j: int|
                0 <= j < final(self).capacity() ==> (final(self).bit(j) <==> (if j == bit_index {
                    !old(self).bit(j)
                } else {
                    old(self).bit(j)
                })),
    {
        let (word, sub) = Self::get_index(bit_index);
        let x = self.bits[word];
        self.bits[word] = x ^ (1u128 << (sub as u32));
        proof {
            lemma_flip_bit(x, (bit_index % 128) as u128);
            assert forall|j: int|
                0 <= j < self.capacity() implies (self.bit(j) <==> (if j == bit_index {
                !old(self).bit(j)
            } else {
                old(self).bit(j)
            })) by {
                vstd::arithmetic::div_mod::lemma_fundamental_div_mod(j, 128);
                vstd::arithmetic::div_mod::lemma_fundamental_div_mod(bit_index as int, 128);
            }
        }
    }

    /// The intersection with `rhs`, over the words both sets have.
    pub fn and(&self, rhs: &BitSet) -> (r: BitSet)
        ensures
            r.bits@.len() == (if self.bits@.len() <= rhs.bits@.len() {
                self.bits@.len()
            } else {
                rhs.bits@.len()
            }),
            forall|w: int| 0 <= w < r.bits@.len() ==> r.bits@[w] == self.bits@[w] & rhs.bits@[w],
            forall|j: int|
                0 <= j < r.capacity() ==> (r.bit(j) <==> self.bit(j) && rhs.bit(j)),
    {
        let min_size = if self.bits.len() <= rhs.bits.len() {
            self.bits.len()
        } else {
            rhs.bits.len()
        };
        let mut new_bits: Vec<u128> = Vec::new();
        let mut i: usize = 0;
        while i < min_size
            invariant
                i <= min_size,
                min_size <= self.bits@.len(),
                min_size <= rhs.bits@.len(),
                new_bits@.len() == i,
                forall|w: int|
                    0 <= w < i ==> (#[trigger] new_bits@[w]) == self.bits@[w] & rhs.bits@[w],
            decreases min_size - i,
        {
            new_bits.push(self.bits[i] & rhs.bits[i]);
            i = i + 1;
        }
        let r = BitSet { bits: new_bits };
        proof {
            assert forall|j: int| 0 <= j < r.capacity() implies (r.bit(j) <==> self.bit(j)
                && rhs.bit(j)) by {
                vstd::arithmetic::div_mod::lemma_fundamental_div_mod(j, 128);
                lemma_and_word_bits(self.bits@[j / 128], rhs.bits@[j / 128]);
            }
        }
        r
    }

    /// The union with `rhs`: words both sets have are OR-ed; the longer
    /// set's remaining words are kept as they are.
    pub fn or(&self, rhs: &BitSet) -> (r: BitSet)
        ensures
            r.bits@.len() == (if self.bits@.len() <= rhs.bits@.len() {
                rhs.bits@.len()
            } else {
                self.bits@.len()
            }),
            forall|w: int|
                0 <= w < self.bits@.len() && w < rhs.bits@.len() ==> (#[trigger] r.bits@[w])
                    == self.bits@[w] | rhs.bits@[w],
            forall|w: int|
                rhs.bits@.len() <= w < self.bits@.len() ==> (#[trigger] r.bits@[w])
                    == self.bits@[w],
            forall|w: int|
                self.bits@.len() <= w < rhs.bits@.len() ==> (#[trigger] r.bits@[w])
                    == rhs.bits@[w],
    {
        let max_size = if self.bits.len() <= rhs.bits.len() {
            rhs.bits.len()
        } else {
            self.bits.len()
        };
        let min_size = if self.bits.len() <= rhs.bits.len() {
            self.bits.len()
        } else {
            rhs.bits.len()
        };
        let mut new_bits: Vec<u128> = Vec::new();
        let mut i: usize = 0;
        while i < max_size
            invariant
                i <= max_size,
                min_size <= self.bits@.len() <= max_size,
                min_size <= rhs.bits@.len() <= max_size,
                min_size == self.bits@.len() || min_size == rhs.bits@.len(),
                max_size == self.bits@.len() || max_size == rhs.bits@.len(),
                new_bits@.len() == i,
                forall|w: int|
                    0 <= w < i && w < min_size ==> (#[trigger] new_bits@[w]) == self.bits@[w]
                        | rhs.bits@[w],
                forall|w: int|
                    min_size <= w < i && w < self.bits@.len() ==> (#[trigger] new_bits@[w])
                        == self.bits@[w],
                forall|w: int|
                    min_size <= w < i && w < rhs.bits@.len() ==> (#[trigger] new_bits@[w])
                        == rhs.bits@[w],
            decreases max_size - i,
        {
            if i >= min_size {
                new_bits.push(
                    if i < self.bits.len() {
                        self.bits[i]
                    } else {
                        rhs.bits[i]
                    },
                );
            } else {
                new_bits.push(self.bits[i] | rhs.bits[i]);
            }
            i = i + 1;
        }
        BitSet { bits: new_bits }
    }

    /// The symmetric difference with `rhs`: words both sets have are
    /// XOR-ed; the longer set's remaining words are kept as they are.
    pub fn xor(&self, rhs: &BitSet) -> (r: BitSet)
        ensures
            r.bits@.len() == (if self.bits@.len() <= rhs.bits@.len() {
                rhs.bits@.len()
            } else {
                self.bits@.len()
            }),
            forall|w: int|
                0 <= w < self.bits@.len() && w < rhs.bits@.len() ==> (#[trigger] r.bits@[w])
                    == self.bits@[w] ^ rhs.bits@[w],
            forall|w: int|
                rhs.bits@.len() <= w < self.bits@.len() ==> (#[trigger] r.bits@[w])
                    == self.bits@[w],
            forall|w: int|
                self.bits@.len() <= w < rhs.bits@.len() ==> (#[trigger] r.bits@[w])
                    == rhs.bits@[w],
    {
        let max_size = if self.bits.len() <= rhs.bits.len() {
            rhs.bits.len()
        } else {
            self.bits.len()
        };
        let min_size = if self.bits.len() <= rhs.bits.len() {
            self.bits.len()
        } else {
            rhs.bits.len()
        };
        let mut new_bits: Vec<u128> = Vec::new();
        let mut i: usize = 0;
        while i < max_size
            invariant
                i <= max_size,
                min_size <= self.bits@.len() <= max_size,
                min_size <= rhs.bits@.len() <= max_size,
                min_size == self.bits@.len() || min_size == rhs.bits@.len(),
                max_size == self.bits@.len() || max_size == rhs.bits@.len(),
                new_bits@.len() == i,
                forall|w: int|
                    0 <= w < i && w < min_size ==> (#[trigger] new_bits@[w]) == self.bits@[w]
                        ^ rhs.bits@[w],
                forall|w: int|
                    min_size <= w < i && w < self.bits@.len() ==> (#[trigger] new_bits@[w])
                        == self.bits@[w],
                forall|w: int|
                    min_size <= w < i && w < rhs.bits@.len() ==> (#[trigger] new_bits@[w])
                        == rhs.bits@[w],
            decreases max_size - i,
        {
            if i >= min_size {
                new_bits.push(
                    if i < self.bits.len() {
                        self.bits[i]
                    } else {
                        rhs.bits[i]
                    },
                );
            } else {
                new_bits.push(self.bits[i] ^ rhs.bits[i]);
            }
            i = i + 1;
        }
        BitSet { bits: new_bits }
    }

    /// The indices of the set bits, in ascending order.
    pub fn get_set_indices(&self) -> (r: Vec<usize>)
        requires
            self.capacity() <= usize::MAX,
        ensures
            forall|a: int, b: int| 0 <= a < b < r@.len() ==> r@[a] < r@[b],
            forall|k: int|
                0 <= k < r@.len() ==> (#[trigger] r@[k]) < self.capacity() && self.bit(
                    r@[k] as int,
                ),
            forall|j: int| 0 <= j < self.capacity() ==> (self.bit(j) <==> r@.contains(j as usize)),
    {
        let mut r: Vec<usize> = Vec::new();
        let mut i: usize = 0;
        let word_count = self.bits.len();
        while i < 128 * word_count
            invariant
                word_count == self.bits@.len(),
                128 * word_count <= usize::MAX,
                i <= 128 * word_count,
                forall|a: int, b: int| 0 <= a < b < r@.len() ==> r@[a] < r@[b],
                forall|k: int|
                    0 <= k < r@.len() ==> (#[trigger] r@[k]) < i && self.bit(r@[k] as int),
                forall|j: int| 0 <= j < i ==> (self.bit(j) <==> r@.contains(j as usize)),
            decreases 128 * word_count - i,
        {
            let ghost before = r@;
            if self.get(i) {
                r.push(i);
            }
            proof {
                assert forall|j: int| 0 <= j < i + 1 implies (self.bit(j) <==> r@.contains(
                    j as usize,
                )) by {
                    if r@.contains(j as usize) {
                        let k = choose|k: int| 0 <= k < r@.len() && r@[k] == j as usize;
                        assert(self.bit(r@[k] as int));
                    }
                    if self.bit(j) {
                        if j < i {
                            assert(before.contains(j as usize));
                            let k = choose|k: int|
                                0 <= k < before.len() && before[k] == j as usize;
                            assert(r@[k] == j as usize);
                        } else {
                            assert(r@.last() == (j as usize));
                        }
                    }
                }
            }
            i = i + 1;
        }
        r
    }
}

} // verus!
