use vstd::prelude::*;

verus! {

/// A mutable collection with set semantics and as small an API as possible.
///
/// Two elements are the same member exactly when their views are equal; the
/// contents of the collection are modelled by `members`.
pub trait BasicSet<V: View> {
    /// The views of the elements held by the collection.
    spec fn members(&self) -> Set<V::V>;

    /// The internal invariant of the implementing type.
    spec fn well_formed(&self) -> bool;

    /// Returns true if the collection holds no element.
    fn is_empty(&self) -> (r: bool)
        requires
            self.well_formed(),
        ensures
            r == (self.members() == Set::<V::V>::empty()),
    ;

    /// Returns true if the collection holds an element equal to `item`.
    fn contains(&self, item: &V) -> (r: bool)
        requires
            self.well_formed(),
        ensures
            r == self.members().contains(item@),
    ;

    /// Adds `item`; returns true if it was not a member before.
    fn insert(&mut self, item: V) -> (r: bool)
        requires
            old(self).well_formed(),
        ensures
            final(self).well_formed(),
            final(self).members() == old(self).members().insert(item@),
            r == !old(self).members().contains(item@),
    ;
}

/// Inserting the same element twice: the second insertion leaves the members
/// as the first one left them, and reports that nothing was added.
pub proof fn lemma_insert_twice<V: View, S: BasicSet<V>>(
    before: S,
    once: S,
    twice: S,
    item: V,
    second: bool,
)
    requires
        once.members() == before.members().insert(item@),
        twice.members() == once.members().insert(item@),
        second == !once.members().contains(item@),
    ensures
        twice.members() == once.members(),
        once.members().contains(item@),
        !second,
{
    assert(twice.members() =~= once.members());
}

} // verus!
