//! An entity: an index into the world's component stores.

use vstd::prelude::*;

verus! {

/// A handle to one entity, identified by its index.
#[derive(Clone, Copy, Debug, PartialEq, Eq, Structural)]
pub struct Entity {
    pub index: usize,
}

impl Entity {
    pub fn new(index: usize) -> (r: Entity)
        ensures
            r.index == index,
    {
        Entity { index }
    }
}

} // verus!
