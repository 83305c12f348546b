//! Provides a sorted [`Vec`]-based set.
//!
//! Backed by a simple [`Vec<T>`] for use in PBC smart contracts.
//! [`SortedVecSet`] provides amortized `O(n)` insert and `O(log(n))` lookup.
use vstd::prelude::*;

use crate::key_order::{after_start, before_end, in_range, KeyBound, KeyOrder, OrderedKey};
use crate::traits::{ReadWriteState, StateCanonical};

verus! {

/// The views of the elements of `s` strictly increase.
pub open spec fn sorted_elements<T: OrderedKey>(s: Seq<T>) -> bool {
    forall|i: int, j: int| 0 <= i < j < s.len() ==> #[trigger] T::lt_view(s[i]@, s[j]@)
}

/// The set of the views of the elements of `s`.
pub open spec fn elements_set<T: View>(s: Seq<T>) -> Set<T::V> {
    Set::new(|v: T::V| exists|i: int| 0 <= i < s.len() && s[i]@ == v)
}

/// Distinct indices of a sorted sequence hold distinct views.
pub proof fn lemma_sorted_elements_distinct<T: OrderedKey>(s: Seq<T>, i: int, j: int)
    requires
        sorted_elements(s),
        0 <= i < s.len(),
        0 <= j < s.len(),
        i != j,
    ensures
        s[i]@ != s[j]@,
{
    if i < j {
        assert(T::lt_view(s[i]@, s[j]@));
    } else {
        assert(T::lt_view(s[j]@, s[i]@));
    }
    T::lemma_order(s[i]@, s[j]@, s[i]@);
    T::lemma_order(s[j]@, s[i]@, s[j]@);
}

/// Removing an index keeps a sequence sorted, and takes its view out of the set.
proof fn lemma_elements_remove<T: OrderedKey>(s: Seq<T>, idx: int)
    requires
        sorted_elements(s),
        0 <= idx < s.len(),
    ensures
        sorted_elements(s.remove(idx)),
        elements_set(s.remove(idx)) == elements_set(s).remove(s[idx]@),
{
    let r = s.remove(idx);
    assert forall|i: int, j: int| 0 <= i < j < r.len() implies #[trigger] T::lt_view(
        r[i]@,
        r[j]@,
    ) by {
        let i2 = if i < idx {
            i
        } else {
            i + 1
        };
        let j2 = if j < idx {
            j
        } else {
            j + 1
        };
        assert(r[i] == s[i2] && r[j] == s[j2]);
        assert(T::lt_view(s[i2]@, s[j2]@));
    }
    assert forall|v: T::V| #[trigger] elements_set(r).contains(v) <==> elements_set(s).remove(
        s[idx]@,
    ).contains(v) by {
        if elements_set(r).contains(v) {
            let i = choose|i: int| 0 <= i < r.len() && r[i]@ == v;
            let i2 = if i < idx {
                i
            } else {
                i + 1
            };
            assert(r[i] == s[i2]);
            lemma_sorted_elements_distinct(s, i2, idx);
        }
        if elements_set(s).remove(s[idx]@).contains(v) {
            let i = choose|i: int| 0 <= i < s.len() && s[i]@ == v;
            assert(i != idx);
            let i2 = if i < idx {
                i
            } else {
                i - 1
            };
            assert(r[i2] == s[i]);
        }
    }
    assert(elements_set(r) =~= elements_set(s).remove(s[idx]@));
}

/// Inserting an element at its place keeps a sequence sorted, and adds its view
/// to the set.
proof fn lemma_elements_insert<T: OrderedKey>(s: Seq<T>, idx: int, x: T)
    requires
        sorted_elements(s),
        0 <= idx <= s.len(),
        forall|j: int| 0 <= j < idx ==> #[trigger] T::lt_view(s[j]@, x@),
        forall|j: int| idx <= j < s.len() ==> #[trigger] T::lt_view(x@, s[j]@),
    ensures
        sorted_elements(s.insert(idx, x)),
        elements_set(s.insert(idx, x)) == elements_set(s).insert(x@),
        !elements_set(s).contains(x@),
{
    let r = s.insert(idx, x);
    assert forall|i: int, j: int| 0 <= i < j < r.len() implies #[trigger] T::lt_view(
        r[i]@,
        r[j]@,
    ) by {
        if i < idx && j < idx {
            assert(r[i] == s[i] && r[j] == s[j]);
        } else if i < idx && j == idx {
            assert(r[i] == s[i]);
        } else if i < idx {
            assert(r[i] == s[i] && r[j] == s[j - 1]);
            T::lemma_order(s[i]@, x@, s[j - 1]@);
        } else if i == idx {
            assert(r[j] == s[j - 1]);
        } else {
            assert(r[i] == s[i - 1] && r[j] == s[j - 1]);
        }
    }
    if elements_set(s).contains(x@) {
        let j = choose|j: int| 0 <= j < s.len() && s[j]@ == x@;
        if j < idx {
            assert(T::lt_view(s[j]@, x@));
        } else {
            assert(T::lt_view(x@, s[j]@));
        }
        T::lemma_order(x@, x@, x@);
    }
    assert forall|v: T::V| #[trigger] elements_set(r).contains(v) <==> elements_set(s).insert(
        x@,
    ).contains(v) by {
        if elements_set(r).contains(v) {
            let i = choose|i: int| 0 <= i < r.len() && r[i]@ == v;
            if i < idx {
                assert(r[i] == s[i]);
            } else if i > idx {
                assert(r[i] == s[i - 1]);
            }
        }
        if elements_set(s).contains(v) {
            let i = choose|i: int| 0 <= i < s.len() && s[i]@ == v;
            if i < idx {
                assert(r[i] == s[i]);
            } else {
                assert(r[i + 1] == s[i]);
            }
        }
        if v == x@ {
            assert(r[idx] == x);
        }
    }
    assert(elements_set(r) =~= elements_set(s).insert(x@));
}

/// Replacing an element by one with the same view keeps the sequence sorted and
/// its set unchanged.
proof fn lemma_elements_update<T: OrderedKey>(s: Seq<T>, idx: int, x: T)
    requires
        sorted_elements(s),
        0 <= idx < s.len(),
        s[idx]@ == x@,
    ensures
        sorted_elements(s.update(idx, x)),
        elements_set(s.update(idx, x)) == elements_set(s),
{
    let r = s.update(idx, x);
    assert forall|i: int, j: int| 0 <= i < j < r.len() implies #[trigger] T::lt_view(
        r[i]@,
        r[j]@,
    ) by {
        assert(r[i]@ == s[i]@ && r[j]@ == s[j]@);
        assert(T::lt_view(s[i]@, s[j]@));
    }
    assert forall|v: T::V| #[trigger] elements_set(r).contains(v) <==> elements_set(s).contains(
        v,
    ) by {
        if elements_set(r).contains(v) {
            let i = choose|i: int| 0 <= i < r.len() && r[i]@ == v;
            assert(s[i]@ == v);
        }
        if elements_set(s).contains(v) {
            let i = choose|i: int| 0 <= i < s.len() && s[i]@ == v;
            assert(r[i]@ == v);
        }
    }
    assert(elements_set(r) =~= elements_set(s));
}

/// The view of each element of a sorted sequence is in its set, at that index
/// alone.
pub proof fn lemma_elements_at<T: OrderedKey>(s: Seq<T>, i: int)
    requires
        sorted_elements(s),
        0 <= i < s.len(),
    ensures
        elements_set(s).contains(s[i]@),
        forall|j: int| 0 <= j < s.len() && s[j]@ == s[i]@ ==> j == i,
{
    assert forall|j: int| 0 <= j < s.len() && s[j]@ == s[i]@ implies j == i by {
        if j != i {
            lemma_sorted_elements_distinct(s, i, j);
        }
    }
}

/// The views of a sorted sequence make a set as large as the sequence.
pub proof fn lemma_elements_len<T: OrderedKey>(s: Seq<T>)
    requires
        sorted_elements(s),
    ensures
        elements_set(s).finite(),
        elements_set(s).len() == s.len(),
    decreases s.len(),
{
    if s.len() == 0 {
        assert(elements_set(s) =~= Set::<T::V>::empty());
    } else {
        let t = s.drop_last();
        assert(t =~= s.remove(s.len() - 1));
        lemma_elements_remove(s, s.len() - 1);
        lemma_elements_len(t);
        lemma_elements_at(s, s.len() - 1);
        assert(elements_set(s) =~= elements_set(t).insert(s.last()@));
    }
}

/// A [`Vec`]-based set.
/// [`SortedVecSet`] provides amortized `O(n)` insert and `O(log(n))` lookup.
///
/// ### Fields:
/// * `elements`: [`Vec<T>`], the elements in [`SortedVecSet`].
#[derive(PartialEq, Debug, Clone, Eq)]
pub struct SortedVecSet<T> {
    elements: Vec<T>,
}

impl<T> View for SortedVecSet<T> {
    type V = Seq<T>;

    /// The elements, in the order in which they are stored.
    closed spec fn view(&self) -> Seq<T> {
        self.elements@
    }
}

impl<T: OrderedKey> SortedVecSet<T> {
    /// The views of the elements strictly increase.
    pub open spec fn wf(&self) -> bool {
        sorted_elements(self@)
    }

    /// The set of the views of the elements.
    pub open spec fn set(&self) -> Set<T::V> {
        elements_set(self@)
    }

    fn get_index_of(&self, element: &T) -> (res: Result<usize, usize>)
        requires
            self.wf(),
        ensures
            match res {
                Ok(i) => i < self@.len() && self@[i as int]@ == element@,
                Err(i) => i <= self@.len() && (forall|j: int|
                    0 <= j < i ==> #[trigger] T::lt_view(self@[j]@, element@)) && (forall|j: int|
                    i <= j < self@.len() ==> #[trigger] T::lt_view(element@, self@[j]@)),
            },
    {
        let mut lo: usize = 0;
        let mut hi: usize = self.elements.len();
        while lo < hi
            invariant
                self.wf(),
                lo <= hi <= self@.len(),
                self@ == self.elements@,
                forall|j: int| 0 <= j < lo ==> #[trigger] T::lt_view(self@[j]@, element@),
                forall|j: int| hi <= j < self@.len() ==> #[trigger] T::lt_view(element@, self@[j]@),
            decreases hi - lo,
        {
            let mid = lo + (hi - lo) / 2;
            match self.elements[mid].compare_keys(element) {
                KeyOrder::Less => {
                    assert forall|j: int| 0 <= j < mid + 1 implies #[trigger] T::lt_view(
                        self@[j]@,
                        element@,
                    ) by {
                        if j < mid {
                            assert(T::lt_view(self@[j]@, self@[mid as int]@));
                            T::lemma_order(self@[j]@, self@[mid as int]@, element@);
                        }
                    }
                    lo = mid + 1;
                },
                KeyOrder::Equal => {
                    return Ok(mid);
                },
                KeyOrder::Greater => {
                    assert forall|j: int| mid <= j < self@.len() implies #[trigger] T::lt_view(
                        element@,
                        self@[j]@,
                    ) by {
                        if j > mid {
                            assert(T::lt_view(self@[mid as int]@, self@[j]@));
                            T::lemma_order(element@, self@[mid as int]@, self@[j]@);
                        }
                    }
                    hi = mid;
                },
            }
        }
        Err(lo)
    }

    /// An element that the binary search placed between stored elements is not
    /// stored.
    proof fn lemma_absent(&self, v: T::V, i: int)
        requires
            self.wf(),
            0 <= i <= self@.len(),
            forall|j: int| 0 <= j < i ==> #[trigger] T::lt_view(self@[j]@, v),
            forall|j: int| i <= j < self@.len() ==> #[trigger] T::lt_view(v, self@[j]@),
        ensures
            !self.set().contains(v),
    {
        if self.set().contains(v) {
            let j = choose|j: int| 0 <= j < self@.len() && self@[j]@ == v;
            if j < i {
                assert(T::lt_view(self@[j]@, v));
            } else {
                assert(T::lt_view(v, self@[j]@));
            }
            T::lemma_order(v, v, v);
        }
    }

    /// Constructor for [`SortedVecSet`].
    pub fn new() -> (res: Self)
        ensures
            res@ == Seq::<T>::empty(),
            res.wf(),
    {
        SortedVecSet { elements: Vec::new() }
    }

    /// Clears [`SortedVecSet`], removing all elements.
    pub fn clear(&mut self)
        ensures
            final(self)@ == Seq::<T>::empty(),
            final(self).wf(),
    {
        self.elements.clear();
    }

    /// Returns a reference to the element in [`SortedVecSet`], if any, that is equal to the given
    /// value.
    pub fn get(&self, element: &T) -> (res: Option<&T>)
        requires
            self.wf(),
        ensures
            match res {
                Some(r) => self.set().contains(element@) && r@ == element@ && self@.contains(*r),
                None => !self.set().contains(element@),
            },
    {
        match self.get_index_of(element) {
            Ok(i) => {
                proof {
                    lemma_elements_at(self@, i as int);
                }
                Some(&self.elements[i])
            },
            Err(i) => {
                proof {
                    self.lemma_absent(element@, i as int);
                }
                None
            },
        }
    }

    /// Removes and returns the first element in [`SortedVecSet`]; it is the least one.
    pub fn pop_first(&mut self) -> (res: Option<T>)
        requires
            old(self).wf(),
        ensures
            final(self).wf(),
            old(self)@.len() == 0 ==> res is None && final(self)@ == old(self)@,
            old(self)@.len() > 0 ==> res == Some(old(self)@[0]) && final(self)@ == old(
                self,
            )@.drop_first(),
            old(self)@.len() > 0 ==> final(self).set() == old(self).set().remove(old(self)@[0]@),
    {
        if !self.elements.is_empty() {
            proof {
                lemma_elements_remove(self@, 0);
            }
            let e = self.elements.remove(0);
            assert(self@ =~= old(self)@.drop_first());
            Some(e)
        } else {
            None
        }
    }

    /// Removes and returns the last element in [`SortedVecSet`]; it is the greatest one.
    pub fn pop_last(&mut self) -> (res: Option<T>)
        requires
            old(self).wf(),
        ensures
            final(self).wf(),
            old(self)@.len() == 0 ==> res is None && final(self)@ == old(self)@,
            old(self)@.len() > 0 ==> res == Some(old(self)@.last()) && final(self)@ == old(
                self,
            )@.drop_last(),
            old(self)@.len() > 0 ==> final(self).set() == old(self).set().remove(
                old(self)@.last()@,
            ),
    {
        proof {
            if self@.len() > 0 {
                lemma_elements_remove(self@, self@.len() - 1);
                assert(self@.remove(self@.len() - 1) =~= self@.drop_last());
            }
        }
        self.elements.pop()
    }

    /// Returns `true` if [`SortedVecSet`] contains an element equal to the value.
    pub fn contains(&self, element: &T) -> (res: bool)
        requires
            self.wf(),
        ensures
            res == self.set().contains(element@),
    {
        self.get(element).is_some()
    }

    /// Adds a value to [`SortedVecSet`], replacing the existing element, if any, that is equal
    /// to the value. Returns the replaced element.
    pub fn insert(&mut self, element: T) -> (res: Option<T>)
        requires
            old(self).wf(),
        ensures
            final(self).wf(),
            final(self).set() == old(self).set().insert(element@),
            !old(self).set().contains(element@) ==> res is None,
            res is Some <==> old(self).set().contains(element@),
            !old(self).set().contains(element@) ==> final(self)@.len() == old(self)@.len() + 1,
            old(self).set().contains(element@) ==> exists|i: int|
                0 <= i < old(self)@.len() && old(self)@[i]@ == element@ && res == Some(
                    old(self)@[i],
                ) && final(self)@ == old(self)@.update(i, element),
    {
        match self.get_index_of(&element) {
            Ok(idx) => {
                proof {
                    lemma_elements_at(self@, idx as int);
                    lemma_elements_update(self@, idx as int, element);
                }
                let ghost s0 = self@;
                let ghost e = element;
                self.elements.push(element);
                let replaced = self.elements.swap_remove(idx);
                assert(self@ =~= s0.update(idx as int, e));
                assert(elements_set(s0).insert(e@) =~= elements_set(s0));
                Some(replaced)
            },
            Err(idx) => {
                proof {
                    lemma_elements_insert(self@, idx as int, element);
                }
                let ghost s0 = self@;
                let ghost e = element;
                self.elements.insert(idx, element);
                assert(self@ =~= s0.insert(idx as int, e));
                None
            },
        }
    }

    /// If [`SortedVecSet`] contains an element equal to the value, removes it and returns it.
    pub fn remove(&mut self, element: &T) -> (res: Option<T>)
        requires
            old(self).wf(),
        ensures
            final(self).wf(),
            final(self).set() == old(self).set().remove(element@),
            old(self).set().contains(element@) ==> (res matches Some(r) && r@ == element@
                && old(self)@.contains(r)),
            old(self).set().contains(element@) ==> final(self)@.len() + 1 == old(self)@.len(),
            !old(self).set().contains(element@) ==> res is None && final(self)@ == old(self)@,
    {
        match self.get_index_of(element) {
            Ok(idx) => {
                proof {
                    lemma_elements_at(self@, idx as int);
                    lemma_elements_remove(self@, idx as int);
                }
                let ghost s0 = self@;
                let r = self.elements.remove(idx);
                assert(self@ =~= s0.remove(idx as int));
                assert(s0[idx as int] == r);
                Some(r)
            },
            Err(idx) => {
                proof {
                    self.lemma_absent(element@, idx as int);
                    assert(old(self).set().remove(element@) =~= old(self).set());
                }
                None
            },
        }
    }

    /// Retains only the elements specified by the predicate.
    ///
    /// In other words, remove all elements `e` for which `f(&e)` returns `false`.
    pub fn retain<F: Fn(&T) -> bool>(&mut self, f: F)
        requires
            old(self).wf(),
            forall|e: &T| #[trigger] f.requires((e,)),
        ensures
            final(self).wf(),
            final(self).set().subset_of(old(self).set()),
            forall|i: int|
                0 <= i < old(self)@.len() ==> {
                    let e = #[trigger] old(self)@[i];
                    &&& final(self).set().contains(e@) ==> f.ensures((&e,), true)
                    &&& !final(self).set().contains(e@) ==> f.ensures((&e,), false)
                },
    {
        let mut old_elements: Vec<T> = Vec::new();
        std::mem::swap(&mut old_elements, &mut self.elements);
        let ghost s0 = old(self)@;
        let ghost n = s0.len();
        // Walk the old elements back to front, keeping those that pass.
        let mut kept_rev: Vec<T> = Vec::new();
        let ghost mut kept_idx: Seq<int> = Seq::empty();
        while old_elements.len() > 0
            invariant
                sorted_elements(s0),
                n == s0.len(),
                forall|e: &T| #[trigger] f.requires((e,)),
                old_elements@.len() <= n,
                forall|i: int| 0 <= i < old_elements@.len() ==> #[trigger] old_elements@[i] == s0[i],
                kept_idx.len() == kept_rev@.len(),
                forall|a: int|
                    0 <= a < kept_idx.len() ==> old_elements@.len() <= #[trigger] kept_idx[a] < n
                        && kept_rev@[a] == s0[kept_idx[a]],
                forall|a: int, b: int|
                    0 <= a < b < kept_idx.len() ==> #[trigger] kept_idx[a] > #[trigger] kept_idx[b],
                forall|i: int|
                    old_elements@.len() <= i < n ==> {
                        let e = #[trigger] s0[i];
                        &&& (exists|a: int| 0 <= a < kept_idx.len() && kept_idx[a] == i)
                            ==> f.ensures((&e,), true)
                        &&& !(exists|a: int| 0 <= a < kept_idx.len() && kept_idx[a] == i)
                            ==> f.ensures((&e,), false)
                    },
            decreases old_elements@.len(),
        {
            let ghost i = old_elements@.len() - 1;
            let ghost old_kept = kept_idx;
            let e = old_elements.pop().unwrap();
            let keep = f(&e);
            if keep {
                kept_rev.push(e);
                proof {
                    kept_idx = kept_idx.push(i);
                }
            }
            assert forall|j: int| old_elements@.len() <= j < n implies {
                let x = #[trigger] s0[j];
                &&& (exists|a: int| 0 <= a < kept_idx.len() && kept_idx[a] == j) ==> f.ensures(
                    (&x,),
                    true,
                )
                &&& !(exists|a: int| 0 <= a < kept_idx.len() && kept_idx[a] == j) ==> f.ensures(
                    (&x,),
                    false,
                )
            } by {
                if j == i {
                    assert forall|a: int| 0 <= a < old_kept.len() implies old_kept[a] != j by {}
                    if keep {
                        assert(kept_idx[kept_idx.len() - 1] == j);
                    }
                } else {
                    let in_old = exists|a: int| 0 <= a < old_kept.len() && old_kept[a] == j;
                    let in_new = exists|a: int| 0 <= a < kept_idx.len() && kept_idx[a] == j;
                    if in_old {
                        let a = choose|a: int| 0 <= a < old_kept.len() && old_kept[a] == j;
                        assert(kept_idx[a] == j);
                    }
                    if in_new {
                        let a = choose|a: int| 0 <= a < kept_idx.len() && kept_idx[a] == j;
                        if keep {
                            assert(a < kept_idx.len() - 1);
                        }
                        assert(old_kept[a] == j);
                    }
                    assert(in_old == in_new);
                }
            }
        }
        // Put the kept elements back in their original order.
        let ghost m = kept_rev@.len();
        while kept_rev.len() > 0
            invariant
                sorted_elements(s0),
                kept_idx.len() == m,
                kept_rev@.len() <= m,
                forall|a: int| 0 <= a < m ==> 0 <= #[trigger] kept_idx[a] < s0.len(),
                forall|a: int|
                    0 <= a < kept_rev@.len() ==> kept_rev@[a] == s0[#[trigger] kept_idx[a]],
                forall|a: int, b: int|
                    0 <= a < b < m ==> #[trigger] kept_idx[a] > #[trigger] kept_idx[b],
                self.elements@.len() == m - kept_rev@.len(),
                forall|c: int|
                    0 <= c < self.elements@.len() ==> #[trigger] self.elements@[c] == s0[kept_idx[m
                        - 1 - c]],
            decreases kept_rev@.len(),
        {
            let e = kept_rev.pop().unwrap();
            self.elements.push(e);
        }
        proof {
            let r = self@;
            assert forall|i: int, j: int| 0 <= i < j < r.len() implies #[trigger] T::lt_view(
                r[i]@,
                r[j]@,
            ) by {
                assert(kept_idx[m - 1 - j] > kept_idx[m - 1 - i]);
                assert(r[i] == s0[kept_idx[m - 1 - i]]);
                assert(r[j] == s0[kept_idx[m - 1 - j]]);
            }
            assert forall|v: T::V| #[trigger] elements_set(r).contains(v) implies elements_set(
                s0,
            ).contains(v) by {
                let c = choose|c: int| 0 <= c < r.len() && r[c]@ == v;
                assert(r[c] == s0[kept_idx[m - 1 - c]]);
            }
            assert forall|i: int| 0 <= i < s0.len() implies {
                let e = #[trigger] s0[i];
                &&& elements_set(r).contains(e@) ==> f.ensures((&e,), true)
                &&& !elements_set(r).contains(e@) ==> f.ensures((&e,), false)
            } by {
                let e = s0[i];
                if elements_set(r).contains(e@) {
                    let c = choose|c: int| 0 <= c < r.len() && r[c]@ == e@;
                    assert(r[c] == s0[kept_idx[m - 1 - c]]);
                    if kept_idx[m - 1 - c] != i {
                        lemma_sorted_elements_distinct(s0, kept_idx[m - 1 - c], i);
                    }
                    assert(kept_idx[m - 1 - c] == i);
                } else {
                    if exists|a: int| 0 <= a < kept_idx.len() && kept_idx[a] == i {
                        let a = choose|a: int| 0 <= a < kept_idx.len() && kept_idx[a] == i;
                        assert(r[m - 1 - a] == s0[i]);
                    }
                }
            }
        }
    }

    /// Moves all elements from other into self, leaving other empty.
    pub fn append(&mut self, other: &mut Self)
        requires
            old(self).wf(),
            old(other).wf(),
        ensures
            final(self).wf(),
            final(other).wf(),
            final(self).set() == old(self).set().union(old(other).set()),
            final(other)@ == Seq::<T>::empty(),
    {
        let ghost target = old(self).set().union(old(other).set());
        loop
            invariant
                self.wf(),
                other.wf(),
                self.set().union(other.set()) == target,
            ensures
                self.wf(),
                other.wf(),
                self.set().union(other.set()) == target,
                other@ == Seq::<T>::empty(),
            decreases other@.len(),
        {
            let ghost other0 = *other;
            match other.pop_last() {
                None => {
                    break;
                },
                Some(element) => {
                    proof {
                        lemma_elements_at(other0@, other0@.len() - 1);
                    }
                    self.insert(element);
                    assert(self.set().union(other.set()) =~= target);
                },
            }
        }
        assert(elements_set(other@) =~= Set::<T::V>::empty());
        assert(self.set() =~= self.set().union(other.set()));
    }

    /// The elements that lie in `range`: from `range.start` (inclusive) to `range.end`
    /// (exclusive), in sorted order.
    pub fn range(&self, range: core::ops::Range<T>) -> (res: Vec<&T>)
        ensures
            res@.map_values(|r: &T| *r) == self@.filter(
                |e: T| !T::lt_view(e@, range.start@) && T::lt_view(e@, range.end@),
            ),
    {
        let ghost pred = |e: T| !T::lt_view(e@, range.start@) && T::lt_view(e@, range.end@);
        let mut res: Vec<&T> = Vec::new();
        let mut i: usize = 0;
        while i < self.elements.len()
            invariant
                i <= self@.len(),
                self@ == self.elements@,
                pred == (|e: T| !T::lt_view(e@, range.start@) && T::lt_view(e@, range.end@)),
                res@.map_values(|r: &T| *r) == self@.take(i as int).filter(pred),
            decreases self@.len() - i,
        {
            let e = &self.elements[i];
            let above_start = match e.compare_keys(&range.start) {
                KeyOrder::Less => false,
                _ => true,
            };
            let below_end = match e.compare_keys(&range.end) {
                KeyOrder::Less => true,
                _ => false,
            };
            if above_start && below_end {
                res.push(e);
            }
            proof {
                let s = self@.take(i + 1);
                assert(s.drop_last() =~= self@.take(i as int));
                assert(s.last() == *e);
                reveal(Seq::filter);
                assert(res@.map_values(|r: &T| *r) =~= s.filter(pred));
            }
            i = i + 1;
        }
        assert(self@.take(self@.len() as int) =~= self@);
        res
    }

    /// The elements that lie between the bounds `start` and `end`, each of
    /// which includes its element, excludes it, or is open; in sorted order.
    /// Empty where no element can lie between them.
    pub fn range_bounds(&self, start: &KeyBound<T>, end: &KeyBound<T>) -> (res: Vec<&T>)
        ensures
            res@.map_values(|r: &T| *r) == self@.filter(
                |e: T| after_start(*start, e@) && before_end(*end, e@),
            ),
    {
        let ghost pred = |e: T| after_start(*start, e@) && before_end(*end, e@);
        let mut res: Vec<&T> = Vec::new();
        let mut i: usize = 0;
        while i < self.elements.len()
            invariant
                i <= self@.len(),
                self@ == self.elements@,
                pred == (|e: T| after_start(*start, e@) && before_end(*end, e@)),
                res@.map_values(|r: &T| *r) == self@.take(i as int).filter(pred),
            decreases self@.len() - i,
        {
            let e = &self.elements[i];
            if in_range(start, end, e) {
                res.push(e);
            }
            proof {
                let s = self@.take(i + 1);
                assert(s.drop_last() =~= self@.take(i as int));
                assert(s.last() == *e);
                reveal(Seq::filter);
                assert(res@.map_values(|r: &T| *r) =~= s.filter(pred));
            }
            i = i + 1;
        }
        assert(self@.take(self@.len() as int) =~= self@);
        res
    }

    /// The elements, in sorted order.
    pub fn iter(&self) -> (res: Vec<&T>)
        ensures
            res@.map_values(|r: &T| *r) == self@,
    {
        let mut res: Vec<&T> = Vec::new();
        let mut i: usize = 0;
        while i < self.elements.len()
            invariant
                i <= self@.len(),
                self@ == self.elements@,
                res@.map_values(|r: &T| *r) == self@.take(i as int),
            decreases self@.len() - i,
        {
            let ghost before = res@;
            res.push(&self.elements[i]);
            assert(self@.take(i + 1) =~= self@.take(i as int).push(self@[i as int]));
            assert(res@.map_values(|r: &T| *r) =~= before.map_values(|r: &T| *r).push(
                self@[i as int],
            ));
            i = i + 1;
        }
        assert(self@.take(self@.len() as int) =~= self@);
        res
    }

    /// The elements, taken out of the set in sorted order.
    pub fn into_vec(self) -> (res: Vec<T>)
        ensures
            res@ == self@,
    {
        self.elements
    }

    /// Builds a set from values; equal values are kept once.
    pub fn from_vec(values: Vec<T>) -> (res: Self)
        ensures
            res.wf(),
            res.set() == elements_set(values@),
    {
        let ghost s0 = values@;
        let mut values = values;
        let mut res = Self::new();
        assert(res.set() =~= Set::<T::V>::empty());
        assert(s0.skip(s0.len() as int) =~= Seq::<T>::empty());
        assert(elements_set(Seq::<T>::empty()) =~= Set::<T::V>::empty());
        while values.len() > 0
            invariant
                res.wf(),
                values@.len() <= s0.len(),
                forall|i: int| 0 <= i < values@.len() ==> #[trigger] values@[i] == s0[i],
                res.set() == elements_set(s0.skip(values@.len() as int)),
            decreases values@.len(),
        {
            let v = values.pop().unwrap();
            let ghost at = values@.len() as int;
            let ghost rest = s0.skip(at + 1);
            assert(s0.skip(at) =~= seq![v] + rest);
            assert(elements_set(s0.skip(at)) =~= elements_set(rest).insert(v@)) by {
                assert forall|x: T::V| elements_set(s0.skip(at)).contains(x) implies elements_set(
                    rest,
                ).insert(v@).contains(x) by {
                    let i = choose|i: int| 0 <= i < s0.skip(at).len() && s0.skip(at)[i]@ == x;
                    if i > 0 {
                        assert(rest[i - 1] == s0.skip(at)[i]);
                    }
                }
                assert forall|x: T::V| elements_set(rest).insert(v@).contains(x) implies elements_set(
                    s0.skip(at),
                ).contains(x) by {
                    if x == v@ {
                        assert(s0.skip(at)[0] == v);
                    } else {
                        let i = choose|i: int| 0 <= i < rest.len() && rest[i]@ == x;
                        assert(s0.skip(at)[i + 1] == rest[i]);
                    }
                }
            }
            res.insert(v);
        }
        assert(s0.skip(0) =~= s0);
        res
    }

    /// Returns the number of elements in [`SortedVecSet`].
    pub fn len(&self) -> (res: usize)
        ensures
            res == self@.len(),
    {
        self.elements.len()
    }

    /// Returns `true` if [`SortedVecSet`] contains no elements.
    pub fn is_empty(&self) -> (res: bool)
        ensures
            res == (self@.len() == 0),
    {
        self.elements.is_empty()
    }
}

impl<T: DeepView> DeepView for SortedVecSet<T> {
    type V = Seq<T::V>;

    closed spec fn deep_view(&self) -> Seq<T::V> {
        self.elements.deep_view()
    }
}

impl<T: ReadWriteState> ReadWriteState for SortedVecSet<T> {
    closed spec fn state_bytes(&self) -> Seq<u8> {
        self.elements.state_bytes()
    }

    closed spec fn state_representable(&self) -> bool {
        self.elements.state_representable()
    }

    open spec fn state_parse(data: Seq<u8>) -> Option<(Seq<T::V>, nat)> {
        <Vec<T> as ReadWriteState>::state_parse(data)
    }

    fn state_read_from(reader: &mut &[u8]) -> (res: Self) {
        let elements = <Vec<T> as ReadWriteState>::state_read_from(reader);
        SortedVecSet { elements }
    }

    fn state_write_to(&self, writer: &mut Vec<u8>) {
        self.elements.state_write_to(writer);
    }

    proof fn lemma_state_roundtrip(&self, rest: Seq<u8>) {
        self.elements.lemma_state_roundtrip(rest);
    }
}

/// A sorted set has exactly as many elements as distinct views.
pub proof fn law_set_len_is_element_count<T: OrderedKey>(s: SortedVecSet<T>)
    requires
        s.wf(),
    ensures
        s.set().finite(),
        s.set().len() == s@.len(),
{
    lemma_elements_len(s@);
}

/// An inserted element is in the set; a removed one is not; other elements
/// are untouched by either.
pub proof fn law_set_insert_remove<T: OrderedKey>(s: SortedVecSet<T>, x: T::V, other: T::V)
    requires
        other != x,
    ensures
        s.set().insert(x).contains(x),
        !s.set().remove(x).contains(x),
        s.set().insert(x).contains(other) == s.set().contains(other),
        s.set().remove(x).contains(other) == s.set().contains(other),
{
}

/// The elements of a sorted set appear in increasing order, each once.
pub proof fn law_set_elements_increase<T: OrderedKey>(s: SortedVecSet<T>, i: int, j: int)
    requires
        s.wf(),
        0 <= i < j < s@.len(),
    ensures
        T::lt_view(s@[i]@, s@[j]@),
        s@[i]@ != s@[j]@,
{
    lemma_sorted_elements_distinct(s@, i, j);
}

impl<T: StateCanonical> StateCanonical for SortedVecSet<T> {
    open spec fn view_state_bytes(v: Seq<T::V>) -> Seq<u8> {
        <Vec<T> as StateCanonical>::view_state_bytes(v)
    }

    proof fn lemma_bytes_follow_view(&self) {
        self.elements.lemma_bytes_follow_view();
    }

    proof fn lemma_read_bytes_are_canonical(data: Seq<u8>) {
        <Vec<T> as StateCanonical>::lemma_read_bytes_are_canonical(data);
    }
}

} // verus!
