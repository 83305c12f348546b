//! Provides a sorted [`Vec`].
//!
//! Backed by a [`SortedVecSet<T>`] for use in PBC smart contracts. [`SortedVec`]
//! provides amortized `O(n)` insert and `O(log(n))` lookup.
use vstd::prelude::*;

use super::set::{
    elements_set, lemma_elements_len, lemma_sorted_elements_distinct, sorted_elements, SortedVecSet,
};
use crate::key_order::OrderedKey;
use crate::traits::{ReadWriteState, StateCanonical};

verus! {

/// A sorted [`Vec`], with the elements of a [`SortedVecSet`].
///
/// ### Fields:
/// * `elements`: [`SortedVecSet<T>`], the elements in [`SortedVec`].
#[derive(Debug, Clone)]
pub struct SortedVec<T> {
    elements: SortedVecSet<T>,
}

impl<T> View for SortedVec<T> {
    type V = Seq<T>;

    /// The elements, in increasing order.
    closed spec fn view(&self) -> Seq<T> {
        self.elements@
    }
}

impl<T: OrderedKey> SortedVec<T> {
    /// The views of the elements strictly increase.
    pub open spec fn wf(&self) -> bool {
        sorted_elements(self@)
    }

    /// The set of the views of the elements.
    pub open spec fn set(&self) -> Set<T::V> {
        elements_set(self@)
    }

    /// Constructor for [`SortedVec`].
    pub fn new() -> (res: Self)
        ensures
            res@ == Seq::<T>::empty(),
            res.wf(),
            res.set() == Set::<T::V>::empty(),
    {
        let res = SortedVec { elements: SortedVecSet::new() };
        assert(res.set() =~= Set::<T::V>::empty());
        res
    }

    /// Clears [`SortedVec`], removing all elements.
    pub fn clear(&mut self)
        ensures
            final(self)@ == Seq::<T>::empty(),
            final(self).wf(),
            final(self).set() == Set::<T::V>::empty(),
    {
        self.elements.clear();
        assert(self.set() =~= Set::<T::V>::empty());
    }

    /// Returns a reference to the element in [`SortedVec`], if any, that is equal to the given
    /// value.
    pub fn get(&self, element: &T) -> (res: Option<&T>)
        requires
            self.wf(),
        ensures
            match res {
                Some(r) => self.set().contains(element@) && r@ == element@ && self@.contains(*r),
                None => !self.set().contains(element@),
            },
    {
        self.elements.get(element)
    }

    /// Removes and returns the last element in [`SortedVec`]; it is the greatest one.
    pub fn pop_last(&mut self) -> (res: Option<T>)
        requires
            old(self).wf(),
        ensures
            final(self).wf(),
            old(self)@.len() == 0 ==> res is None && final(self)@ == old(self)@,
            old(self)@.len() > 0 ==> res == Some(old(self)@.last()) && final(self)@ == old(
                self,
            )@.drop_last(),
            old(self)@.len() > 0 ==> final(self).set() == old(self).set().remove(
                old(self)@.last()@,
            ),
    {
        self.elements.pop_last()
    }

    /// Returns `true` if [`SortedVec`] contains an element equal to the value.
    pub fn contains(&self, element: &T) -> (res: bool)
        requires
            self.wf(),
        ensures
            res == self.set().contains(element@),
    {
        self.elements.contains(element)
    }

    /// Adds a value to [`SortedVec`], replacing the existing element, if any, that is equal
    /// to the value. Returns the replaced element.
    pub fn insert(&mut self, element: T) -> (res: Option<T>)
        requires
            old(self).wf(),
        ensures
            final(self).wf(),
            final(self).set() == old(self).set().insert(element@),
            !old(self).set().contains(element@) ==> res is None,
            res is Some <==> old(self).set().contains(element@),
            !old(self).set().contains(element@) ==> final(self)@.len() == old(self)@.len() + 1,
            old(self).set().contains(element@) ==> exists|i: int|
                0 <= i < old(self)@.len() && old(self)@[i]@ == element@ && res == Some(
                    old(self)@[i],
                ) && final(self)@ == old(self)@.update(i, element),
    {
        let ghost s0 = self.elements@;
        let res = self.elements.insert(element);
        proof {
            if old(self).set().contains(element@) {
                let i = choose|i: int|
                    0 <= i < s0.len() && s0[i]@ == element@ && res == Some(s0[i])
                        && self.elements@ == s0.update(i, element);
                assert(old(self)@[i] == s0[i]);
            }
        }
        res
    }

    /// If [`SortedVec`] contains an element equal to the value, removes it and returns it.
    pub fn remove(&mut self, element: &T) -> (res: Option<T>)
        requires
            old(self).wf(),
        ensures
            final(self).wf(),
            final(self).set() == old(self).set().remove(element@),
            old(self).set().contains(element@) ==> (res matches Some(r) && r@ == element@
                && old(self)@.contains(r)),
            old(self).set().contains(element@) ==> final(self)@.len() + 1 == old(self)@.len(),
            !old(self).set().contains(element@) ==> res is None && final(self)@ == old(self)@,
    {
        self.elements.remove(element)
    }

    /// The elements, in sorted order.
    pub fn iter(&self) -> (res: Vec<&T>)
        ensures
            res@.map_values(|r: &T| *r) == self@,
    {
        self.elements.iter()
    }

    /// Returns the number of elements in [`SortedVec`].
    pub fn len(&self) -> (res: usize)
        ensures
            res == self@.len(),
    {
        self.elements.len()
    }

    /// Returns `true` if [`SortedVec`] contains no elements.
    pub fn is_empty(&self) -> (res: bool)
        ensures
            res == (self@.len() == 0),
    {
        self.elements.is_empty()
    }
}

impl<T: DeepView> DeepView for SortedVec<T> {
    type V = Seq<T::V>;

    closed spec fn deep_view(&self) -> Seq<T::V> {
        self.elements.deep_view()
    }
}

impl<T: ReadWriteState> ReadWriteState for SortedVec<T> {
    closed spec fn state_bytes(&self) -> Seq<u8> {
        self.elements.state_bytes()
    }

    closed spec fn state_representable(&self) -> bool {
        self.elements.state_representable()
    }

    open spec fn state_parse(data: Seq<u8>) -> Option<(Seq<T::V>, nat)> {
        <SortedVecSet<T> as ReadWriteState>::state_parse(data)
    }

    fn state_read_from(reader: &mut &[u8]) -> (res: Self) {
        let elements = <SortedVecSet<T> as ReadWriteState>::state_read_from(reader);
        SortedVec { elements }
    }

    fn state_write_to(&self, writer: &mut Vec<u8>) {
        self.elements.state_write_to(writer);
    }

    proof fn lemma_state_roundtrip(&self, rest: Seq<u8>) {
        self.elements.lemma_state_roundtrip(rest);
    }
}

/// The elements of a sorted vector appear in increasing order, each once.
pub proof fn law_sorted_vec_elements_increase<T: OrderedKey>(v: SortedVec<T>, i: int, j: int)
    requires
        v.wf(),
        0 <= i < j < v@.len(),
    ensures
        T::lt_view(v@[i]@, v@[j]@),
        v@[i]@ != v@[j]@,
{
    lemma_sorted_elements_distinct(v@, i, j);
}

/// A sorted vector holds exactly as many elements as distinct views, so its
/// length grows by one exactly when an insert adds a new element.
pub proof fn law_sorted_vec_len_is_element_count<T: OrderedKey>(v: SortedVec<T>)
    requires
        v.wf(),
    ensures
        v.set().finite(),
        v.set().len() == v@.len(),
{
    lemma_elements_len(v@);
}

impl<T: StateCanonical> StateCanonical for SortedVec<T> {
    open spec fn view_state_bytes(v: Seq<T::V>) -> Seq<u8> {
        <SortedVecSet<T> as StateCanonical>::view_state_bytes(v)
    }

    proof fn lemma_bytes_follow_view(&self) {
        self.elements.lemma_bytes_follow_view();
    }

    proof fn lemma_read_bytes_are_canonical(data: Seq<u8>) {
        <SortedVecSet<T> as StateCanonical>::lemma_read_bytes_are_canonical(data);
    }
}

} // verus!
