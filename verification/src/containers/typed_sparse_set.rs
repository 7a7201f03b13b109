//! A sparse set that carries an object for each member: constant-time
//! membership, insertion, removal and lookup, with members and their
//! objects packed densely.

use vstd::prelude::*;
use crate::containers::sparse_set::{lemma_bounded_distinct, lemma_bounded_distinct_missing};

verus! {

/// A sparse set of identifiers below a fixed capacity, with one object of
/// type `T` per member. The `sparse` array maps an identifier to its slot
/// in `dense`; the capacity itself serves as the tombstone value marking an
/// absent identifier.
#[derive(Debug)]
pub struct SparseSet<T> {
    /// For each identifier, its slot in `dense`, or the tombstone.
    pub sparse: Vec<usize>,
    /// The member identifiers, packed.
    pub dense: Vec<usize>,
    /// The members' objects: `dense_objects[i]` belongs to `dense[i]`.
    pub dense_objects: Vec<T>,
    /// The capacity: members are the identifiers below it.
    pub tombstone: usize,
}

impl<T> SparseSet<T> {
    /// Well-formedness: `sparse` covers every identifier, objects and
    /// members line up, each dense slot holds an identifier pointing back at
    /// it, and every identifier either carries the tombstone or points at a
    /// dense slot holding it.
    pub open spec fn wf(&self) -> bool {
        &&& self.sparse@.len() == self.tombstone + 1
        &&& self.dense@.len() <= self.tombstone
        &&& self.dense_objects@.len() == self.dense@.len()
        &&& forall|i: int|
            0 <= i < self.dense@.len() ==> (#[trigger] self.dense@[i]) < self.tombstone
                && self.sparse@[self.dense@[i] as int] == i
        &&& forall|e: int|
            0 <= e < self.tombstone ==> ((#[trigger] self.sparse@[e]) == self.tombstone || (
            self.sparse@[e] < self.dense@.len() && self.dense@[self.sparse@[e] as int] == e))
    }

    /// Whether `e` is a member.
    pub open spec fn spec_contains(&self, e: int) -> bool {
        0 <= e < self.tombstone && self.sparse@[e] != self.tombstone
    }

    /// The object carried for member `e`.
    pub open spec fn spec_object(&self, e: int) -> T {
        self.dense_objects@[self.sparse@[e] as int]
    }

    /// An empty set over the identifiers `0 .. length`.
    pub fn new(length: usize) -> (r: SparseSet<T>)
        requires
            length < usize::MAX,
        ensures
            r.wf(),
            r.tombstone == length,
            r.dense@ == Seq::<usize>::empty(),
            r.dense_objects@ == Seq::<T>::empty(),
            forall|e: int| 0 <= e < length ==> !r.spec_contains(e),
    {
        let mut sparse: Vec<usize> = Vec::new();
        let mut i: usize = 0;
        while i < length + 1
            invariant
                length < usize::MAX,
                i <= length + 1,
                sparse@.len() == i,
                forall|k: int| 0 <= k < i ==> (#[trigger] sparse@[k]) == length,
            decreases length + 1 - i,
        {
            sparse.push(length);
            i = i + 1;
        }
        SparseSet { sparse, dense: Vec::new(), dense_objects: Vec::new(), tombstone: length }
    }

    /// Whether `element` is a member. Identifiers at or above the capacity
    /// are never members.
    pub fn contains(&self, element: usize) -> (r: bool)
        requires
            self.wf(),
        ensures
            r == self.spec_contains(element as int),
    {
        element < self.tombstone && self.sparse[element] < self.dense.len()
            && self.sparse[element] != self.tombstone
    }

    /// The member list after inserting `id`: unchanged for a member.
    pub open spec fn pushed_dense(self, id: int) -> Seq<usize> {
        if self.spec_contains(id) {
            self.dense@
        } else {
            self.dense@.push(id as usize)
        }
    }

    /// The sparse map after inserting `id`: unchanged for a member.
    pub open spec fn pushed_sparse(self, id: int) -> Seq<usize> {
        if self.spec_contains(id) {
            self.sparse@
        } else {
            self.sparse@.update(id, self.dense@.len() as usize)
        }
    }

    /// The object list after inserting `id` with object `obj`: unchanged
    /// for a member, whose old object stays.
    pub open spec fn pushed_objects(self, id: int, obj: T) -> Seq<T> {
        if self.spec_contains(id) {
            self.dense_objects@
        } else {
            self.dense_objects@.push(obj)
        }
    }

    /// Insert `element_id` carrying `element`, and hand back the member's
    /// object for further setup. Inserting a member again keeps its old
    /// object and hands that back instead.
    pub fn push(&mut self, element_id: usize, element: T) -> (ret: &mut T)
        requires
            old(self).wf(),
            element_id < old(self).tombstone,
        ensures
            final(self).wf(),
            final(self).tombstone == old(self).tombstone,
            final(self).spec_contains(element_id as int),
            final(self).dense@ == old(self).pushed_dense(element_id as int),
            final(self).sparse@ == old(self).pushed_sparse(element_id as int),
            *ret == old(self).pushed_objects(element_id as int, element)[old(self).pushed_sparse(
                element_id as int,
            )[element_id as int] as int],
            final(self).dense_objects@ == old(self).pushed_objects(element_id as int, element).update(
                old(self).pushed_sparse(element_id as int)[element_id as int] as int,
                *final(ret),
            ),
    {
        if !self.contains(element_id) {
            proof {
                // The members are distinct identifiers below the capacity,
                // and `element_id` is not among them, so there is room.
                assert forall|i: int, j: int|
                    0 <= i < j < self.dense@.len() implies self.dense@[i] != self.dense@[j] by {
                    assert(self.sparse@[self.dense@[i] as int] == i);
                    assert(self.sparse@[self.dense@[j] as int] == j);
                }
                lemma_bounded_distinct(self.dense@, self.tombstone as int);
                assert forall|i: int|
                    0 <= i < self.dense@.len() implies (#[trigger] self.dense@[i]) as int
                    != element_id as int by {
                    assert(self.sparse@[self.dense@[i] as int] == i);
                }
                lemma_bounded_distinct_missing(
                    self.dense@,
                    self.tombstone as int,
                    element_id as int,
                );
            }
            let pos = self.dense.len();
            self.dense.push(element_id);
            self.dense_objects.push(element);
            self.sparse[element_id] = pos;
        }
        let idx = self.sparse[element_id];
        &mut self.dense_objects[idx]
    }

    /// The object of member `element`, when it is one.
    pub fn get(&self, element: usize) -> (r: Option<&T>)
        requires
            self.wf(),
        ensures
            self.spec_contains(element as int) <==> r is Some,
            r matches Some(v) ==> *v == self.spec_object(element as int),
    {
        if !self.contains(element) {
            return None;
        }
        let idx = self.sparse[element];
        Some(&self.dense_objects[idx])
    }

    /// The object of member `element`, for changing, when it is one.
    pub fn get_mut(&mut self, element: usize) -> (r: Option<&mut T>)
        requires
            old(self).wf(),
        ensures
            old(self).spec_contains(element as int) <==> r is Some,
            r is None ==> final(self).sparse@ == old(self).sparse@ && final(self).dense@ == old(
                self,
            ).dense@ && final(self).dense_objects@ == old(self).dense_objects@ && final(self).tombstone == old(self).tombstone,
            r matches Some(p) ==> *p == old(self).spec_object(element as int) && final(self).sparse@ == old(self).sparse@ && final(self).dense@ == old(self).dense@ && final(self).tombstone == old(self).tombstone && final(self).dense_objects@ == old(
                self,
            ).dense_objects@.update(old(self).sparse@[element as int] as int, *final(p)),
            final(self).wf(),
    {
        if !self.contains(element) {
            return None;
        }
        let idx = self.sparse[element];
        Some(&mut self.dense_objects[idx])
    }

    /// The dense list after removing member `e`.
    pub open spec fn removed_dense(self, e: int) -> Seq<usize> {
        self.dense@.update(self.sparse@[e] as int, self.dense@.last()).drop_last()
    }

    /// The object list after removing member `e`.
    pub open spec fn removed_objects(self, e: int) -> Seq<T> {
        self.dense_objects@.update(self.sparse@[e] as int, self.dense_objects@.last()).drop_last()
    }

    /// The sparse map after removing member `e`.
    pub open spec fn removed_sparse(self, e: int) -> Seq<usize> {
        self.sparse@.update(self.dense@.last() as int, self.sparse@[e]).update(
            e,
            self.tombstone as usize,
        )
    }

    /// Remove `element`, returning it with its object; removing a
    /// non-member returns the tombstone and no object, and changes nothing.
    /// The last member and its object move into the freed slots.
    pub fn remove(&mut self, element: usize) -> (r: (usize, Option<T>))
        requires
            old(self).wf(),
        ensures
            final(self).wf(),
            final(self).tombstone == old(self).tombstone,
            !final(self).spec_contains(element as int),
            !old(self).spec_contains(element as int) ==> r.0 == old(self).tombstone && r.1 is None
                && final(self).dense@ == old(self).dense@ && final(self).sparse@ == old(
                self,
            ).sparse@ && final(self).dense_objects@ == old(self).dense_objects@,
            old(self).spec_contains(element as int) ==> r.0 == element && r.1 == Some(
                old(self).spec_object(element as int),
            ) && final(self).dense@ == old(self).removed_dense(element as int) && final(self).sparse@ == old(self).removed_sparse(element as int) && final(self).dense_objects@
                == old(self).removed_objects(element as int),
            forall|e: int|
                0 <= e < old(self).tombstone && e != element ==> (final(self).spec_contains(e)
                    <==> old(self).spec_contains(e)),
            forall|e: int|
                0 <= e < old(self).tombstone && e != element && old(self).spec_contains(e)
                    ==> final(self).spec_object(e) == old(self).spec_object(e),
    {
        if !self.contains(element) {
            return (self.tombstone, None);
        }
        let size = self.dense.len() - 1;
        let last = self.dense[size];
        let pos = self.sparse[element];

        let moved = self.dense[size];
        self.dense[size] = self.dense[pos];
        self.dense[pos] = moved;

        let obj_last = self.dense_objects.swap_remove(pos);
        proof {
            assert(self.dense_objects@ =~= old(self).dense_objects@.update(
                pos as int,
                old(self).dense_objects@.last(),
            ).drop_last());
        }

        let sp_last = self.sparse[last];
        let sp_elem = self.sparse[element];
        self.sparse[last] = sp_elem;
        self.sparse[element] = sp_last;
        self.sparse[element] = self.tombstone;

        let r = self.dense.pop().unwrap();
        proof {
            assert(self.dense@ =~= old(self).removed_dense(element as int));
            assert(self.sparse@ =~= old(self).removed_sparse(element as int));
            assert(self.dense_objects@ =~= old(self).removed_objects(element as int));
            assert forall|e: int|
                0 <= e < old(self).tombstone && e != element && old(self).spec_contains(e) implies (
            self.spec_contains(e) && self.spec_object(e) == old(self).spec_object(e)) by {
                assert(old(self).dense@[old(self).sparse@[e] as int] == e);
                if e == last as int {
                    assert(self.sparse@[e] == old(self).sparse@[element as int]);
                } else {
                    assert(self.sparse@[e] == old(self).sparse@[e]);
                }
            }
            assert forall|e: int|
                0 <= e < old(self).tombstone && e != element && !old(self).spec_contains(e) implies
                !self.spec_contains(e) by {
                if e == last as int {
                } else {
                    assert(self.sparse@[e] == old(self).sparse@[e]);
                }
            }
        }
        (r, Some(obj_last))
    }

    /// Empty the set; the capacity stays.
    pub fn clear(&mut self)
        requires
            old(self).wf(),
        ensures
            final(self).wf(),
            final(self).tombstone == old(self).tombstone,
            final(self).dense@ == Seq::<usize>::empty(),
            final(self).dense_objects@ == Seq::<T>::empty(),
            forall|e: int| 0 <= e < final(self).tombstone ==> !final(self).spec_contains(e),
    {
        self.dense.clear();
        self.dense_objects.clear();
        let mut i: usize = 0;
        while i < self.sparse.len()
            invariant
                i <= self.sparse@.len(),
                self.sparse@.len() == old(self).sparse@.len(),
                self.tombstone == old(self).tombstone,
                self.dense@ == Seq::<usize>::empty(),
                self.dense_objects@ == Seq::<T>::empty(),
                forall|k: int| 0 <= k < i ==> (#[trigger] self.sparse@[k]) == self.tombstone,
            decreases self.sparse@.len() - i,
        {
            let t = self.tombstone;
            self.sparse[i] = t;
            i = i + 1;
        }
    }

    /// The member identifiers, in ascending identifier order: exactly the
    /// identifiers the set contains.
    pub fn get_all_elements(&self) -> (r: Vec<usize>)
        requires
            self.wf(),
        ensures
            forall|a: int, b: int| 0 <= a < b < r@.len() ==> r@[a] < r@[b],
            forall|k: int| 0 <= k < r@.len() ==> self.spec_contains((#[trigger] r@[k]) as int),
            forall|e: int|
                0 <= e < self.tombstone ==> (self.spec_contains(e) <==> r@.contains(e as usize)),
    {
        let mut r: Vec<usize> = Vec::new();
        let mut i: usize = 0;
        while i < self.tombstone
            invariant
                i <= self.tombstone,
                self.wf(),
                forall|a: int, b: int| 0 <= a < b < r@.len() ==> r@[a] < r@[b],
                forall|k: int|
                    0 <= k < r@.len() ==> self.spec_contains((#[trigger] r@[k]) as int) && r@[k]
                        < i,
                forall|e: int| 0 <= e < i ==> (self.spec_contains(e) <==> r@.contains(e as usize)),
            decreases self.tombstone - i,
        {
            let ghost before = r@;
            if self.sparse[i] != self.tombstone {
                r.push(i);
            }
            proof {
                assert forall|e: int| 0 <= e < i + 1 implies (self.spec_contains(e)
                    <==> r@.contains(e as usize)) by {
                    if r@.contains(e as usize) {
                        let k = choose|k: int| 0 <= k < r@.len() && r@[k] == e as usize;
                        assert(self.spec_contains(r@[k] as int));
                    }
                    if self.spec_contains(e) {
                        if e < i {
                            assert(before.contains(e as usize));
                            let k = choose|k: int|
                                0 <= k < before.len() && before[k] == e as usize;
                            assert(r@[k] == e as usize);
                        } else {
                            assert(r@.last() == (e as usize));
                        }
                    }
                }
            }
            i = i + 1;
        }
        r
    }
}

} // verus!
