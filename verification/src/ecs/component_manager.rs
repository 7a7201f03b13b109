//! One store of components of a single type, keyed by entity index.

use vstd::prelude::*;
use crate::containers::typed_sparse_set::SparseSet;
use crate::ecs::component::Component;
use crate::ecs::entity::Entity;

verus! {

/// The components of type `T`, one per entity that carries one, backed by a
/// sparse set keyed by entity index.
#[derive(Debug)]
pub struct ComponentManager<T: Component> {
    pub entity_component_set: SparseSet<T>,
}

impl<T: Component> ComponentManager<T> {
    /// Well-formedness of the backing set.
    pub open spec fn wf(&self) -> bool {
        self.entity_component_set.wf()
    }

    /// How many entities the store can hold components for.
    pub open spec fn spec_capacity(&self) -> int {
        self.entity_component_set.tombstone as int
    }

    /// Whether entity `e` carries a component.
    pub open spec fn spec_has(&self, e: int) -> bool {
        self.entity_component_set.spec_contains(e)
    }

    /// The component of entity `e`.
    pub open spec fn spec_component(&self, e: int) -> T {
        self.entity_component_set.spec_object(e)
    }

    /// An empty store for up to `count` entities.
    pub fn new(count: usize) -> (r: ComponentManager<T>)
        requires
            count < usize::MAX,
        ensures
            r.wf(),
            r.spec_capacity() == count,
            forall|e: int| 0 <= e < count ==> !r.spec_has(e),
    {
        ComponentManager { entity_component_set: SparseSet::new(count) }
    }

    /// Attach a fresh component to `entity` and hand it back for setup; an
    /// entity that already carries one keeps it, and that one comes back.
    pub fn create(&mut self, entity: &Entity) -> (ret: &mut T)
        requires
            old(self).wf(),
            entity.index < old(self).spec_capacity(),
        ensures
            final(self).wf(),
            final(self).spec_capacity() == old(self).spec_capacity(),
            final(self).spec_has(entity.index as int),
            forall|e: int|
                0 <= e < old(self).spec_capacity() && e != entity.index ==> (final(self).spec_has(e)
                    <==> old(self).spec_has(e)),
            old(self).spec_has(entity.index as int) ==> *ret == old(self).spec_component(
                entity.index as int,
            ),
            final(self).spec_component(entity.index as int) == *final(ret),
            forall|e: int|
                0 <= e < old(self).spec_capacity() && e != entity.index && old(self).spec_has(e)
                    ==> final(self).spec_component(e) == old(self).spec_component(e),
    {
        self.entity_component_set.push(entity.index, T::new())
    }

    /// Detach `entity`'s component, if it carries one.
    pub fn remove(&mut self, entity: &Entity)
        requires
            old(self).wf(),
        ensures
            final(self).wf(),
            final(self).spec_capacity() == old(self).spec_capacity(),
            !final(self).spec_has(entity.index as int),
            forall|e: int|
                0 <= e < old(self).spec_capacity() && e != entity.index ==> (final(self).spec_has(e)
                    <==> old(self).spec_has(e)),
            forall|e: int|
                0 <= e < old(self).spec_capacity() && e != entity.index && old(self).spec_has(e)
                    ==> final(self).spec_component(e) == old(self).spec_component(e),
    {
        let _ = self.entity_component_set.remove(entity.index);
    }

    /// The component of `entity`, when it carries one.
    pub fn get(&self, entity: &Entity) -> (r: Option<&T>)
        requires
            self.wf(),
        ensures
            self.spec_has(entity.index as int) <==> r is Some,
            r matches Some(v) ==> *v == self.spec_component(entity.index as int),
    {
        self.entity_component_set.get(entity.index)
    }

    /// The component of `entity`, for changing, when it carries one.
    pub fn get_mut(&mut self, entity: &Entity) -> (r: Option<&mut T>)
        requires
            old(self).wf(),
        ensures
            final(self).wf(),
            final(self).spec_capacity() == old(self).spec_capacity(),
            old(self).spec_has(entity.index as int) <==> r is Some,
            forall|e: int|
                0 <= e < old(self).spec_capacity() ==> (final(self).spec_has(e) <==> old(
                    self,
                ).spec_has(e)),
            r is None ==> final(self).entity_component_set.dense_objects@ == old(
                self,
            ).entity_component_set.dense_objects@,
            r matches Some(p) ==> *p == old(self).spec_component(entity.index as int) && final(self).spec_component(entity.index as int) == *final(p),
            forall|e: int|
                0 <= e < old(self).spec_capacity() && e != entity.index && old(self).spec_has(e)
                    ==> final(self).spec_component(e) == old(self).spec_component(e),
    {
        self.entity_component_set.get_mut(entity.index)
    }

    /// The indices of the entities that carry a component, ascending.
    pub fn entities_with_components(&self) -> (r: Vec<usize>)
        requires
            self.wf(),
        ensures
            forall|a: int, b: int| 0 <= a < b < r@.len() ==> r@[a] < r@[b],
            forall|k: int| 0 <= k < r@.len() ==> self.spec_has((#[trigger] r@[k]) as int),
            forall|e: int|
                0 <= e < self.spec_capacity() ==> (self.spec_has(e) <==> r@.contains(e as usize)),
    {
        self.entity_component_set.get_all_elements()
    }
}

} // verus!
