//! The render system: picks out, for one frame, the entities that carry
//! both a transform and a sprite, by bitset intersection.

use vstd::prelude::*;
use crate::containers::bit_set::BitSet;
use crate::fence::FenceRC;

verus! {

/// Mark every entity of `entities` in a fresh bitset sized for
/// `entity_count` entities.
fn mark_entities(entities: &Vec<usize>, entity_count: usize) -> (r: BitSet)
    requires
        8 * entity_count + 128 <= usize::MAX,
        forall|k: int| 0 <= k < entities@.len() ==> (#[trigger] entities@[k]) < entity_count,
    ensures
        r.capacity() >= entity_count,
        r.capacity() <= 8 * entity_count + 128,
        forall|j: int| 0 <= j < r.capacity() ==> (r.bit(j) <==> entities@.contains(j as usize)),
{
    proof {
        assert(128 * ((entity_count as int) / 16 + (if entity_count % 16 == 0 {
            0int
        } else {
            1int
        })) <= 8 * entity_count + 128) by (nonlinear_arith);
    }
    let mut bits = BitSet::new(entity_count);
    let ghost cap = bits.capacity();
    let mut i: usize = 0;
    while i < entities.len()
        invariant
            i <= entities@.len(),
            bits.capacity() == cap,
            8 * entity_count + 128 <= usize::MAX,
            cap >= 8 * entity_count,
            cap <= 8 * entity_count + 128,
            forall|k: int| 0 <= k < entities@.len() ==> (#[trigger] entities@[k]) < entity_count,
            forall|j: int| 0 <= j < cap ==> (bits.bit(j) <==> entities@.take(i as int).contains(
                j as usize,
            )),
        decreases entities@.len() - i,
    {
        let ghost before = bits;
        bits.set(entities[i]);
        proof {
            assert forall|j: int| 0 <= j < cap implies (bits.bit(j) <==> entities@.take(
                i as int + 1,
            ).contains(j as usize)) by {
                let t0 = entities@.take(i as int);
                let t1 = entities@.take(i as int + 1);
                assert(before.bit(j) <==> t0.contains(j as usize));
                assert(bits.bit(j) <==> (before.bit(j) || j == entities@[i as int]));
                if bits.bit(j) {
                    if before.bit(j) {
                        let k = choose|k: int| 0 <= k < t0.len() && t0[k] == j as usize;
                        assert(t1[k] == j as usize);
                    } else {
                        assert(t1[i as int] == j as usize);
                    }
                } else {
                    if t1.contains(j as usize) {
                        let k = choose|k: int| 0 <= k < t1.len() && t1[k] == j as usize;
                        if k < i {
                            assert(t0[k] == j as usize);
                        }
                    }
                }
            }
        }
        i = i + 1;
    }
    proof {
        assert(entities@.take(entities@.len() as int) =~= entities@);
    }
    bits
}

/// Operates on all entities which can be rendered: those that have both a
/// position and something to draw. Holds the fence the renderer uses to
/// synchronise with the simulation.
pub struct RenderSystem {
    pub sync_fence: FenceRC,
}

impl RenderSystem {
    pub fn new(fence: FenceRC) -> RenderSystem {
        RenderSystem { sync_fence: fence }
    }

    /// The entities to draw this frame: exactly those that appear both in
    /// the transform list and in the sprite list, in ascending order.
    pub fn update(
        &self,
        transform_entities: &Vec<usize>,
        sprite_entities: &Vec<usize>,
        entity_count: usize,
    ) -> (r: Vec<usize>)
        requires
            8 * entity_count + 128 <= usize::MAX,
            forall|k: int|
                0 <= k < transform_entities@.len() ==> (#[trigger] transform_entities@[k])
                    < entity_count,
            forall|k: int|
                0 <= k < sprite_entities@.len() ==> (#[trigger] sprite_entities@[k])
                    < entity_count,
        ensures
            forall|a: int, b: int| 0 <= a < b < r@.len() ==> r@[a] < r@[b],
            forall|e: int|
                0 <= e < entity_count ==> ((#[trigger] r@.contains(e as usize)) <==> (
                transform_entities@.contains(e as usize) && sprite_entities@.contains(
                    e as usize,
                ))),
            forall|k: int| 0 <= k < r@.len() ==> (#[trigger] r@[k]) < entity_count,
    {
        let transform_bits = mark_entities(transform_entities, entity_count);
        let sprite_bits = mark_entities(sprite_entities, entity_count);
        let both = transform_bits.and(&sprite_bits);
        let indices = both.get_set_indices();
        proof {
            assert forall|e: int| 0 <= e < entity_count implies ((#[trigger] indices@.contains(
                e as usize,
            )) <==> (transform_entities@.contains(e as usize) && sprite_entities@.contains(
                e as usize,
            ))) by {
                assert(both.bit(e) <==> transform_bits.bit(e) && sprite_bits.bit(e));
                assert(transform_bits.bit(e) <==> transform_entities@.contains(e as usize));
                assert(sprite_bits.bit(e) <==> sprite_entities@.contains(e as usize));
                assert(indices@.contains(e as usize) <==> both.bit(e));
            }
            assert forall|k: int| 0 <= k < indices@.len() implies (#[trigger] indices@[k])
                < entity_count by {
                assert(both.bit(indices@[k] as int));
                assert(transform_bits.bit(indices@[k] as int));
                assert(transform_entities@.contains(indices@[k]));
                let w = choose|w: int|
                    0 <= w < transform_entities@.len() && transform_entities@[w] == indices@[k];
                assert(transform_entities@[w] < entity_count);
            }
        }
        indices
    }
}

} // verus!
