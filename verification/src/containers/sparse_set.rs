//! A sparse set over the identifiers `0 .. capacity`: constant-time
//! membership, insertion and removal, with the members packed densely.

use vstd::prelude::*;
use vstd::set_lib::{set_int_range, lemma_int_range, lemma_len_subset};

verus! {

/// Distinct identifiers all below `bound` number at most `bound`.
pub proof fn lemma_bounded_distinct(d: Seq<usize>, bound: int)
    requires
        bound >= 0,
        forall|i: int, j: int| 0 <= i < j < d.len() ==> d[i] != d[j],
        forall|i: int| 0 <= i < d.len() ==> (#[trigger] d[i]) < bound,
    ensures
        d.len() <= bound,
{
    broadcast use vstd::set::group_set_axioms;

    let di = d.map_values(|x: usize| x as int);
    assert forall|i: int, j: int|
        (0 <= i < di.len() && 0 <= j < di.len() && i != j) implies di[i] != di[j] by {
        if i < j {
            assert(d[i] != d[j]);
        } else {
            assert(d[j] != d[i]);
        }
    }
    di.unique_seq_to_set();
    lemma_int_range(0, bound);
    assert(di.to_set().subset_of(set_int_range(0, bound)));
    lemma_len_subset(di.to_set(), set_int_range(0, bound));
}

/// Distinct identifiers all below `bound`, none of them `e`, which is also
/// below `bound`, number fewer than `bound`.
pub proof fn lemma_bounded_distinct_missing(d: Seq<usize>, bound: int, e: int)
    requires
        forall|i: int, j: int| 0 <= i < j < d.len() ==> d[i] != d[j],
        forall|i: int| 0 <= i < d.len() ==> (#[trigger] d[i]) < bound,
        0 <= e < bound,
        forall|i: int| 0 <= i < d.len() ==> (#[trigger] d[i]) as int != e,
    ensures
        d.len() < bound,
{
    broadcast use vstd::set::group_set_axioms;

    let di = d.map_values(|x: usize| x as int);
    assert forall|i: int, j: int|
        (0 <= i < di.len() && 0 <= j < di.len() && i != j) implies di[i] != di[j] by {
        if i < j {
            assert(d[i] != d[j]);
        } else {
            assert(d[j] != d[i]);
        }
    }
    di.unique_seq_to_set();
    lemma_int_range(0, bound);
    let range = set_int_range(0, bound);
    assert(range.contains(e));
    assert(range.remove(e).len() == bound - 1);
    assert(di.to_set().subset_of(range.remove(e)));
    lemma_len_subset(di.to_set(), range.remove(e));
}

/// A sparse set of identifiers below a fixed capacity. The `sparse` array
/// maps an identifier to its slot in `dense`; the capacity itself serves as
/// the tombstone value marking an absent identifier.
#[derive(Debug)]
pub struct SparseSet {
    /// For each identifier, its slot in `dense`, or the tombstone.
    pub sparse: Vec<usize>,
    /// The members, packed; order is the order of insertion, disturbed only
    /// by removals, which move the last member into the freed slot.
    pub dense: Vec<usize>,
    /// The capacity: members are the identifiers below it.
    pub tombstone: usize,
}

impl SparseSet {
    /// Well-formedness: `sparse` covers every identifier, each dense slot
    /// holds an identifier pointing back at it, and every identifier either
    /// carries the tombstone or points at a dense slot holding it.
    pub open spec fn wf(&self) -> bool {
        &&& self.sparse@.len() == self.tombstone + 1
        &&& self.dense@.len() <= self.tombstone
        &&& forall|i: int|
            0 <= i < self.dense@.len() ==> (#[trigger] self.dense@[i]) < self.tombstone
                && self.sparse@[self.dense@[i] as int] == i
        &&& forall|e: int|
            0 <= e < self.tombstone ==> ((#[trigger] self.sparse@[e]) == self.tombstone || (
            self.sparse@[e] < self.dense@.len() && self.dense@[self.sparse@[e] as int] == e))
    }

    /// Whether `e` is a member.
    pub open spec fn spec_contains(&self, e: int) -> bool {
        0 <= e < self.tombstone && self.sparse@[e] != self.tombstone
    }

    /// An empty set over the identifiers `0 .. length`.
    pub fn new(length: usize) -> (r: SparseSet)
        requires
            length < usize::MAX,
        ensures
            r.wf(),
            r.tombstone == length,
            r.dense@ == Seq::<usize>::empty(),
            forall|e: int| 0 <= e < length ==> !r.spec_contains(e),
    {
        let mut sparse: Vec<usize> = Vec::new();
        let mut i: usize = 0;
        while i < length + 1
            invariant
                length < usize::MAX,
                i <= length + 1,
                sparse@.len() == i,
                forall|k: int| 0 <= k < i ==> (#[trigger] sparse@[k]) == length,
            decreases length + 1 - i,
        {
            sparse.push(length);
            i = i + 1;
        }
        SparseSet { sparse, dense: Vec::new(), tombstone: length }
    }

    /// Whether `element` is a member. Identifiers at or above the capacity
    /// are never members.
    pub fn contains(&self, element: usize) -> (r: bool)
        requires
            self.wf(),
        ensures
            r == self.spec_contains(element as int),
    {
        element < self.tombstone && self.sparse[element] < self.dense.len()
            && self.sparse[element] != self.tombstone
    }

    /// Insert `element`; inserting a member again changes nothing.
    pub fn push(&mut self, element: usize)
        requires
            old(self).wf(),
            element < old(self).tombstone,
        ensures
            final(self).wf(),
            final(self).tombstone == old(self).tombstone,
            final(self).spec_contains(element as int),
            old(self).spec_contains(element as int) ==> final(self).dense@ == old(self).dense@
                && final(self).sparse@ == old(self).sparse@,
            !old(self).spec_contains(element as int) ==> final(self).dense@ == old(
                self,
            ).dense@.push(element) && final(self).sparse@ == old(self).sparse@.update(
                element as int,
                old(self).dense@.len() as usize,
            ),
    {
        if !self.contains(element) {
            proof {
                // The members are distinct identifiers below the capacity,
                // and `element` is not among them, so there is room.
                assert forall|i: int, j: int|
                    0 <= i < j < self.dense@.len() implies self.dense@[i] != self.dense@[j] by {
                    assert(self.sparse@[self.dense@[i] as int] == i);
                    assert(self.sparse@[self.dense@[j] as int] == j);
                }
                lemma_bounded_distinct(self.dense@, self.tombstone as int);
                assert forall|i: int|
                    0 <= i < self.dense@.len() implies (#[trigger] self.dense@[i]) as int
                    != element as int by {
                    assert(self.sparse@[self.dense@[i] as int] == i);
                }
                lemma_bounded_distinct_missing(
                    self.dense@,
                    self.tombstone as int,
                    element as int,
                );
            }
            let pos = self.dense.len();
            self.dense.push(element);
            self.sparse[element] = pos;
        }
    }

    /// The dense list after removing member `e`: the last member moves into
    /// `e`'s slot, and the list shortens by one.
    pub open spec fn removed_dense(self, e: int) -> Seq<usize> {
        self.dense@.update(self.sparse@[e] as int, self.dense@.last()).drop_last()
    }

    /// The sparse map after removing member `e`: the moved member points at
    /// its new slot, and `e` carries the tombstone.
    pub open spec fn removed_sparse(self, e: int) -> Seq<usize> {
        self.sparse@.update(self.dense@.last() as int, self.sparse@[e]).update(
            e,
            self.tombstone as usize,
        )
    }

    /// Remove `element` and return it; removing a non-member returns the
    /// tombstone and changes nothing. The last member moves into the freed
    /// dense slot.
    pub fn remove(&mut self, element: usize) -> (r: usize)
        requires
            old(self).wf(),
        ensures
            final(self).wf(),
            final(self).tombstone == old(self).tombstone,
            !final(self).spec_contains(element as int),
            !old(self).spec_contains(element as int) ==> r == old(self).tombstone
                && final(self).dense@ == old(self).dense@ && final(self).sparse@ == old(
                self,
            ).sparse@,
            old(self).spec_contains(element as int) ==> r == element
                && final(self).dense@ == old(self).removed_dense(element as int)
                && final(self).sparse@ == old(self).removed_sparse(element as int),
    {
        if !self.contains(element) {
            return self.tombstone;
        }
        let size = self.dense.len() - 1;
        let last = self.dense[size];
        let pos = self.sparse[element];
        let moved = self.dense[size];
        self.dense[size] = self.dense[pos];
        self.dense[pos] = moved;
        let sp_last = self.sparse[last];
        let sp_elem = self.sparse[element];
        self.sparse[last] = sp_elem;
        self.sparse[element] = sp_last;
        self.sparse[element] = self.tombstone;
        let r = self.dense.pop().unwrap();
        proof {
            assert(self.dense@ =~= old(self).removed_dense(element as int));
            assert(self.sparse@ =~= old(self).removed_sparse(element as int));
        }
        r
    }

    /// Empty the set; the capacity stays.
    pub fn clear(&mut self)
        requires
            old(self).wf(),
        ensures
            final(self).wf(),
            final(self).tombstone == old(self).tombstone,
            final(self).dense@ == Seq::<usize>::empty(),
            forall|e: int| 0 <= e < final(self).tombstone ==> !final(self).spec_contains(e),
    {
        self.dense.clear();
        let mut i: usize = 0;
        while i < self.sparse.len()
            invariant
                i <= self.sparse@.len(),
                self.sparse@.len() == old(self).sparse@.len(),
                self.tombstone == old(self).tombstone,
                self.dense@ == Seq::<usize>::empty(),
                forall|k: int| 0 <= k < i ==> (#[trigger] self.sparse@[k]) == self.tombstone,
            decreases self.sparse@.len() - i,
        {
            let t = self.tombstone;
            self.sparse[i] = t;
            i = i + 1;
        }
    }
}

} // verus!
