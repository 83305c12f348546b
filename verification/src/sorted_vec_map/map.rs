//! Provides a sorted [`Vec`]-based map.
//!
//! Backed by a simple [`Vec<Entry<K,V>>`] for use in PBC smart contracts.
//! [`SortedVecMap`] provides amortized `O(n)` insert and `O(log(n))` lookup.
use vstd::prelude::*;

use crate::key_order::{after_start, before_end, in_range, KeyBound, KeyOrder, OrderedKey};
use crate::sorted_vec_map::entry::Entry;
use crate::traits::vec::{deep_views, state_concat};
use crate::traits::{ReadWriteState, StateCanonical};

verus! {

/// The keys of `s` strictly increase.
pub open spec fn sorted_by_key<K: OrderedKey, V>(s: Seq<(K, V)>) -> bool {
    forall|i: int, j: int| 0 <= i < j < s.len() ==> #[trigger] K::lt_view(s[i].0@, s[j].0@)
}

/// Some index of `s` whose key has view `k`.
pub open spec fn index_of_key<K: View, V>(s: Seq<(K, V)>, k: K::V) -> int {
    choose|i: int| 0 <= i < s.len() && s[i].0@ == k
}

/// The map from key views to values that a sequence of pairs stands for.
pub open spec fn pairs_map<K: View, V>(s: Seq<(K, V)>) -> Map<K::V, V> {
    Map::new(
        |k: K::V| exists|i: int| 0 <= i < s.len() && s[i].0@ == k,
        |k: K::V| s[index_of_key(s, k)].1,
    )
}

/// The map that a sequence of pairs stands for when the first pair of each key
/// is kept.
pub open spec fn first_wins_map<K: View, V>(s: Seq<(K, V)>) -> Map<K::V, V>
    decreases s.len(),
{
    if s.len() == 0 {
        Map::empty()
    } else {
        let m = first_wins_map(s.drop_last());
        if m.contains_key(s.last().0@) {
            m
        } else {
            m.insert(s.last().0@, s.last().1)
        }
    }
}

/// In a sorted sequence an earlier key is less than a later one.
pub proof fn lemma_sorted_lt<K: OrderedKey, V>(s: Seq<(K, V)>, i: int, j: int)
    requires
        sorted_by_key(s),
        0 <= i < j < s.len(),
    ensures
        K::lt_view(s[i].0@, s[j].0@),
{
}

/// Distinct indices of a sorted sequence hold distinct keys.
pub proof fn lemma_sorted_distinct<K: OrderedKey, V>(s: Seq<(K, V)>, i: int, j: int)
    requires
        sorted_by_key(s),
        0 <= i < s.len(),
        0 <= j < s.len(),
        i != j,
    ensures
        s[i].0@ != s[j].0@,
{
    if i < j {
        assert(K::lt_view(s[i].0@, s[j].0@));
    } else {
        assert(K::lt_view(s[j].0@, s[i].0@));
    }
    K::lemma_order(s[i].0@, s[j].0@, s[i].0@);
    K::lemma_order(s[j].0@, s[i].0@, s[j].0@);
}

/// The map of a sorted sequence maps each key to the value beside it.
pub proof fn lemma_pairs_map_at<K: OrderedKey, V>(s: Seq<(K, V)>, i: int)
    requires
        sorted_by_key(s),
        0 <= i < s.len(),
    ensures
        pairs_map(s).contains_key(s[i].0@),
        pairs_map(s)[s[i].0@] == s[i].1,
        index_of_key(s, s[i].0@) == i,
{
    let k = s[i].0@;
    assert(exists|j: int| 0 <= j < s.len() && s[j].0@ == k);
    let j = index_of_key(s, k);
    if j != i {
        lemma_sorted_distinct(s, i, j);
    }
}

/// Removing an index keeps a sequence sorted.
pub(crate) proof fn lemma_sorted_remove<K: OrderedKey, V>(s: Seq<(K, V)>, idx: int)
    requires
        sorted_by_key(s),
        0 <= idx < s.len(),
    ensures
        sorted_by_key(s.remove(idx)),
{
    let r = s.remove(idx);
    assert forall|i: int, j: int| 0 <= i < j < r.len() implies #[trigger] K::lt_view(
        r[i].0@,
        r[j].0@,
    ) by {
        let i2 = if i < idx {
            i
        } else {
            i + 1
        };
        let j2 = if j < idx {
            j
        } else {
            j + 1
        };
        assert(r[i] == s[i2] && r[j] == s[j2]);
        assert(K::lt_view(s[i2].0@, s[j2].0@));
    }
}

/// The map of a sorted sequence with an index removed.
pub(crate) proof fn lemma_pairs_map_remove<K: OrderedKey, V>(s: Seq<(K, V)>, idx: int)
    requires
        sorted_by_key(s),
        0 <= idx < s.len(),
    ensures
        pairs_map(s.remove(idx)) == pairs_map(s).remove(s[idx].0@),
        sorted_by_key(s.remove(idx)),
{
    let r = s.remove(idx);
    let k0 = s[idx].0@;
    lemma_sorted_remove(s, idx);
    assert forall|k: K::V| #[trigger] pairs_map(r).contains_key(k) <==> pairs_map(
        s,
    ).remove(k0).contains_key(k) by {
        if pairs_map(r).contains_key(k) {
            let i = choose|i: int| 0 <= i < r.len() && r[i].0@ == k;
            let i2 = if i < idx {
                i
            } else {
                i + 1
            };
            assert(r[i] == s[i2]);
            lemma_sorted_distinct(s, i2, idx);
        }
        if pairs_map(s).remove(k0).contains_key(k) {
            let i = choose|i: int| 0 <= i < s.len() && s[i].0@ == k;
            assert(i != idx);
            let i2 = if i < idx {
                i
            } else {
                i - 1
            };
            assert(r[i2] == s[i]);
        }
    }
    assert forall|k: K::V| #[trigger] pairs_map(r).contains_key(k) implies pairs_map(r)[k]
        == pairs_map(s)[k] by {
        let i = index_of_key(r, k);
        let i2 = if i < idx {
            i
        } else {
            i + 1
        };
        assert(r[i] == s[i2]);
        lemma_pairs_map_at(r, i);
        lemma_pairs_map_at(s, i2);
    }
    assert(pairs_map(r) =~= pairs_map(s).remove(k0));
}

/// Inserting a new key at its place keeps a sequence sorted, and adds the key to
/// its map.
pub(crate) proof fn lemma_pairs_map_insert<K: OrderedKey, V>(s: Seq<(K, V)>, idx: int, key: K, value: V)
    requires
        sorted_by_key(s),
        0 <= idx <= s.len(),
        forall|j: int| 0 <= j < idx ==> #[trigger] K::lt_view(s[j].0@, key@),
        forall|j: int| idx <= j < s.len() ==> #[trigger] K::lt_view(key@, s[j].0@),
    ensures
        sorted_by_key(s.insert(idx, (key, value))),
        pairs_map(s.insert(idx, (key, value))) == pairs_map(s).insert(key@, value),
{
    let r = s.insert(idx, (key, value));
    assert forall|i: int, j: int| 0 <= i < j < r.len() implies #[trigger] K::lt_view(
        r[i].0@,
        r[j].0@,
    ) by {
        if i < idx && j < idx {
            assert(r[i] == s[i] && r[j] == s[j]);
        } else if i < idx && j == idx {
            assert(r[i] == s[i]);
        } else if i < idx {
            assert(r[i] == s[i] && r[j] == s[j - 1]);
            assert(K::lt_view(s[i].0@, key@));
            assert(K::lt_view(key@, s[j - 1].0@));
            K::lemma_order(s[i].0@, key@, s[j - 1].0@);
        } else if i == idx {
            assert(r[j] == s[j - 1]);
        } else {
            assert(r[i] == s[i - 1] && r[j] == s[j - 1]);
        }
    }
    assert forall|j: int| 0 <= j < s.len() implies s[j].0@ != key@ by {
        if j < idx {
            assert(K::lt_view(s[j].0@, key@));
        } else {
            assert(K::lt_view(key@, s[j].0@));
        }
        K::lemma_order(s[j].0@, key@, s[j].0@);
    }
    assert forall|k: K::V| #[trigger] pairs_map(r).contains_key(k) <==> pairs_map(s).insert(
        key@,
        value,
    ).contains_key(k) by {
        if pairs_map(r).contains_key(k) && k != key@ {
            let i = choose|i: int| 0 <= i < r.len() && r[i].0@ == k;
            if i < idx {
                assert(r[i] == s[i]);
            } else {
                assert(i != idx);
                assert(r[i] == s[i - 1]);
            }
        }
        if k == key@ {
            assert(r[idx].0@ == k);
        } else if pairs_map(s).contains_key(k) {
            let i = choose|i: int| 0 <= i < s.len() && s[i].0@ == k;
            if i < idx {
                assert(r[i] == s[i]);
            } else {
                assert(r[i + 1] == s[i]);
            }
        }
    }
    assert forall|k: K::V| #[trigger] pairs_map(r).contains_key(k) implies pairs_map(r)[k]
        == pairs_map(s).insert(key@, value)[k] by {
        let i = index_of_key(r, k);
        lemma_pairs_map_at(r, i);
        if i < idx {
            assert(r[i] == s[i]);
            lemma_pairs_map_at(s, i);
        } else if i > idx {
            assert(r[i] == s[i - 1]);
            lemma_pairs_map_at(s, i - 1);
        }
    }
    assert(pairs_map(r) =~= pairs_map(s).insert(key@, value));
}

/// Replacing the pair at an index by one with an equal key keeps a sequence
/// sorted and updates its map.
pub(crate) proof fn lemma_pairs_map_update<K: OrderedKey, V>(s: Seq<(K, V)>, idx: int, key: K, value: V)
    requires
        sorted_by_key(s),
        0 <= idx < s.len(),
        s[idx].0@ == key@,
    ensures
        sorted_by_key(s.update(idx, (key, value))),
        pairs_map(s.update(idx, (key, value))) == pairs_map(s).insert(key@, value),
{
    let r = s.update(idx, (key, value));
    assert forall|i: int, j: int| 0 <= i < j < r.len() implies #[trigger] K::lt_view(
        r[i].0@,
        r[j].0@,
    ) by {
        assert(r[i].0@ == s[i].0@ && r[j].0@ == s[j].0@);
    }
    assert forall|k: K::V| #[trigger] pairs_map(r).contains_key(k) <==> pairs_map(s).insert(
        key@,
        value,
    ).contains_key(k) by {
        if pairs_map(r).contains_key(k) {
            let i = choose|i: int| 0 <= i < r.len() && r[i].0@ == k;
            assert(r[i].0@ == s[i].0@);
        }
        if pairs_map(s).contains_key(k) {
            let i = choose|i: int| 0 <= i < s.len() && s[i].0@ == k;
            assert(r[i].0@ == s[i].0@);
        }
        if k == key@ {
            assert(r[idx].0@ == k);
        }
    }
    assert forall|k: K::V| #[trigger] pairs_map(r).contains_key(k) implies pairs_map(r)[k]
        == pairs_map(s).insert(key@, value)[k] by {
        let i = index_of_key(r, k);
        lemma_pairs_map_at(r, i);
        if i != idx {
            lemma_pairs_map_at(s, i);
            lemma_sorted_distinct(s, i, idx);
        }
    }
    assert(pairs_map(r) =~= pairs_map(s).insert(key@, value));
}

/// Replacing the value of one entry replaces the value of that pair of the view.
proof fn lemma_entries_update_view<K, V>(es: Seq<Entry<K, V>>, i: int, v: V)
    requires
        0 <= i < es.len(),
    ensures
        es.update(i, Entry { key: es[i].key, value: v }).map_values(|e: Entry<K, V>| e.pair())
            == es.map_values(|e: Entry<K, V>| e.pair()).update(i, (es[i].key, v)),
{
    assert(es.update(i, Entry { key: es[i].key, value: v }).map_values(|e: Entry<K, V>| e.pair())
        =~= es.map_values(|e: Entry<K, V>| e.pair()).update(i, (es[i].key, v)));
}

/// A [`Vec`]-based map.
/// [`SortedVecMap`] provides amortized `O(n)` insert and `O(log(n))` lookup.
///
/// ### Fields:
/// * `entries`: [`Vec<Entry<K,V>>`], the entries in [`SortedVecMap`].
#[derive(PartialEq, Debug, Clone, Eq)]
pub struct SortedVecMap<K, V> {
    entries: Vec<Entry<K, V>>,
}

impl<K, V> View for SortedVecMap<K, V> {
    type V = Seq<(K, V)>;

    /// The entries, in the order in which they are stored.
    closed spec fn view(&self) -> Seq<(K, V)> {
        self.entries@.map_values(|e: Entry<K, V>| e.pair())
    }
}

impl<K: OrderedKey, V> SortedVecMap<K, V> {
    /// The keys strictly increase.
    pub open spec fn wf(&self) -> bool {
        sorted_by_key(self@)
    }

    /// The map from key views to values.
    pub open spec fn map(&self) -> Map<K::V, V> {
        pairs_map(self@)
    }

    fn get_index_of(&self, key: &K) -> (res: Result<usize, usize>)
        requires
            self.wf(),
        ensures
            match res {
                Ok(i) => i < self@.len() && self@[i as int].0@ == key@,
                Err(i) => i <= self@.len() && (forall|j: int|
                    0 <= j < i ==> #[trigger] K::lt_view(self@[j].0@, key@)) && (forall|j: int|
                    i <= j < self@.len() ==> #[trigger] K::lt_view(key@, self@[j].0@)),
            },
    {
        let mut lo: usize = 0;
        let mut hi: usize = self.entries.len();
        while lo < hi
            invariant
                self.wf(),
                lo <= hi <= self@.len(),
                self@.len() == self.entries@.len(),
                forall|j: int| 0 <= j < lo ==> #[trigger] K::lt_view(self@[j].0@, key@),
                forall|j: int| hi <= j < self@.len() ==> #[trigger] K::lt_view(key@, self@[j].0@),
            decreases hi - lo,
        {
            let mid = lo + (hi - lo) / 2;
            assert(self@[mid as int] == self.entries@[mid as int].pair());
            match self.entries[mid].key.compare_keys(key) {
                KeyOrder::Less => {
                    assert forall|j: int| 0 <= j < mid + 1 implies #[trigger] K::lt_view(
                        self@[j].0@,
                        key@,
                    ) by {
                        if j < mid {
                            assert(K::lt_view(self@[j].0@, self@[mid as int].0@));
                            K::lemma_order(self@[j].0@, self@[mid as int].0@, key@);
                        }
                    }
                    lo = mid + 1;
                },
                KeyOrder::Equal => {
                    return Ok(mid);
                },
                KeyOrder::Greater => {
                    assert forall|j: int| mid <= j < self@.len() implies #[trigger] K::lt_view(
                        key@,
                        self@[j].0@,
                    ) by {
                        if j > mid {
                            assert(K::lt_view(self@[mid as int].0@, self@[j].0@));
                            K::lemma_order(key@, self@[mid as int].0@, self@[j].0@);
                        }
                    }
                    hi = mid;
                },
            }
        }
        Err(lo)
    }

    /// Constructor for [`SortedVecMap`].
    pub fn new() -> (res: Self)
        ensures
            res@ == Seq::<(K, V)>::empty(),
            res.wf(),
    {
        let res = SortedVecMap { entries: Vec::new() };
        assert(res@ =~= Seq::<(K, V)>::empty());
        res
    }

    /// Clears [`SortedVecMap`], removing all elements.
    pub fn clear(&mut self)
        ensures
            final(self)@ == Seq::<(K, V)>::empty(),
            final(self).wf(),
    {
        self.entries.clear();
        assert(self@ =~= Seq::<(K, V)>::empty());
    }

    /// Returns a reference to the value corresponding to the key.
    pub fn get(&self, key: &K) -> (res: Option<&V>)
        requires
            self.wf(),
        ensures
            match res {
                Some(v) => self.map().contains_key(key@) && *v == self.map()[key@],
                None => !self.map().contains_key(key@),
            },
    {
        match self.get_index_of(key) {
            Ok(i) => {
                proof {
                    lemma_pairs_map_at(self@, i as int);
                }
                Some(&self.entries[i].value)
            },
            Err(i) => {
                proof {
                    self.lemma_absent(key@, i as int);
                }
                None
            },
        }
    }

    /// A key that the binary search placed between stored keys is not stored.
    proof fn lemma_absent(&self, k: K::V, i: int)
        requires
            self.wf(),
            0 <= i <= self@.len(),
            forall|j: int| 0 <= j < i ==> #[trigger] K::lt_view(self@[j].0@, k),
            forall|j: int| i <= j < self@.len() ==> #[trigger] K::lt_view(k, self@[j].0@),
        ensures
            !self.map().contains_key(k),
    {
        if self.map().contains_key(k) {
            let j = choose|j: int| 0 <= j < self@.len() && self@[j].0@ == k;
            if j < i {
                assert(K::lt_view(self@[j].0@, k));
            } else {
                assert(K::lt_view(k, self@[j].0@));
            }
            K::lemma_order(k, k, k);
        }
    }

    /// Returns the key-value pair corresponding to the supplied key.
    pub fn get_key_value(&self, k: &K) -> (res: Option<(&K, &V)>)
        requires
            self.wf(),
        ensures
            match res {
                Some((rk, rv)) => self.map().contains_key(k@) && rk@ == k@ && *rv == self.map()[k@],
                None => !self.map().contains_key(k@),
            },
    {
        match self.get_index_of(k) {
            Ok(i) => {
                proof {
                    lemma_pairs_map_at(self@, i as int);
                }
                Some(self.entries[i].tuple())
            },
            Err(i) => {
                proof {
                    self.lemma_absent(k@, i as int);
                }
                None
            },
        }
    }

    /// Returns the first key-value pair in [`SortedVecMap`].
    /// The key in this pair is the minimum key in [`SortedVecMap`].
    pub fn first_key_value(&self) -> (res: Option<(&K, &V)>)
        ensures
            self@.len() == 0 ==> res is None,
            self@.len() > 0 ==> (res matches Some((k, v)) && (*k, *v) == self@[0]),
    {
        if self.entries.len() == 0 {
            None
        } else {
            Some(self.entries[0].tuple())
        }
    }

    /// Removes and returns the first element in [`SortedVecMap`].
    /// The key of this element is the minimum key that was in [`SortedVecMap`].
    pub fn pop_first(&mut self) -> (res: Option<(K, V)>)
        requires
            old(self).wf(),
        ensures
            final(self).wf(),
            old(self)@.len() == 0 ==> res is None && final(self)@ == old(self)@,
            old(self)@.len() > 0 ==> res == Some(old(self)@[0]) && final(self)@ == old(
                self,
            )@.drop_first(),
            old(self)@.len() > 0 ==> final(self).map() == old(self).map().remove(old(self)@[0].0@),
    {
        if self.entries.len() != 0 {
            proof {
                lemma_pairs_map_remove(self@, 0);
            }
            let e = self.entries.remove(0);
            assert(self@ =~= old(self)@.remove(0));
            Some(e.into_tuple())
        } else {
            None
        }
    }

    /// Returns the last key-value pair in [`SortedVecMap`].
    /// The key in this pair is the maximum key in [`SortedVecMap`].
    pub fn last_key_value(&self) -> (res: Option<(&K, &V)>)
        ensures
            self@.len() == 0 ==> res is None,
            self@.len() > 0 ==> (res matches Some((k, v)) && (*k, *v) == self@.last()),
    {
        let n = self.entries.len();
        if n == 0 {
            None
        } else {
            Some(self.entries[n - 1].tuple())
        }
    }

    /// Removes and returns the last element in [`SortedVecMap`].
    /// The key of this element is the maximum key that was in [`SortedVecMap`].
    pub fn pop_last(&mut self) -> (res: Option<(K, V)>)
        requires
            old(self).wf(),
        ensures
            final(self).wf(),
            old(self)@.len() == 0 ==> res is None && final(self)@ == old(self)@,
            old(self)@.len() > 0 ==> res == Some(old(self)@.last()) && final(self)@ == old(
                self,
            )@.drop_last(),
            old(self)@.len() > 0 ==> final(self).map() == old(self).map().remove(
                old(self)@.last().0@,
            ),
    {
        if self.entries.len() == 0 {
            return None;
        }
        proof {
            lemma_pairs_map_remove(self@, self@.len() - 1);
            assert(self@.remove(self@.len() - 1) =~= self@.drop_last());
        }
        match self.entries.pop() {
            Some(e) => {
                assert(self@ =~= old(self)@.drop_last());
                Some(e.into_tuple())
            },
            None => None,
        }
    }

    /// Returns `true` if [`SortedVecMap`] contains a value for the specified key.
    pub fn contains_key(&self, key: &K) -> (res: bool)
        requires
            self.wf(),
        ensures
            res == self.map().contains_key(key@),
    {
        self.get(key).is_some()
    }

    /// Inserts a key-value pair into [`SortedVecMap`].
    ///
    /// If [`SortedVecMap`] did not have this key present, None is returned.
    /// If [`SortedVecMap`] did have this key present, the value is updated, and the old value is returned.
    pub fn insert(&mut self, key: K, value: V) -> (res: Option<V>)
        requires
            old(self).wf(),
        ensures
            final(self).wf(),
            final(self).map() == old(self).map().insert(key@, value),
            old(self).map().contains_key(key@) ==> res == Some(old(self).map()[key@]),
            !old(self).map().contains_key(key@) ==> res is None,
    {
        match self.get_index_of(&key) {
            Ok(idx) => {
                proof {
                    lemma_pairs_map_at(self@, idx as int);
                    lemma_pairs_map_update(self@, idx as int, key, value);
                }
                let ghost s0 = self@;
                let ghost kv = (key, value);
                self.entries.push(Entry { key, value });
                let old_entry = self.entries.swap_remove(idx);
                assert(self@ =~= s0.update(idx as int, kv));
                Some(old_entry.value)
            },
            Err(idx) => {
                proof {
                    lemma_pairs_map_insert(self@, idx as int, key, value);
                    self.lemma_absent(key@, idx as int);
                }
                let ghost s0 = self@;
                let ghost kv = (key, value);
                self.entries.insert(idx, Entry { key, value });
                assert(self@ =~= s0.insert(idx as int, kv));
                None
            },
        }
    }

    /// Removes a key from [`SortedVecMap`], returning the value at the key if the key was previously in [`SortedVecMap`].
    pub fn remove(&mut self, key: &K) -> (res: Option<V>)
        requires
            old(self).wf(),
        ensures
            final(self).wf(),
            final(self).map() == old(self).map().remove(key@),
            old(self).map().contains_key(key@) ==> res == Some(old(self).map()[key@]),
            !old(self).map().contains_key(key@) ==> res is None,
    {
        match self.remove_entry(key) {
            Some(entry) => Some(entry.1),
            None => None,
        }
    }

    /// Removes a key from [`SortedVecMap`], returning the stored key and value if the key was previously in [`SortedVecMap`].
    pub fn remove_entry(&mut self, key: &K) -> (res: Option<(K, V)>)
        requires
            old(self).wf(),
        ensures
            final(self).wf(),
            final(self).map() == old(self).map().remove(key@),
            old(self).map().contains_key(key@) ==> (res matches Some((k, v)) && k@ == key@ && v
                == old(self).map()[key@]),
            !old(self).map().contains_key(key@) ==> res is None,
    {
        match self.get_index_of(key) {
            Ok(idx) => {
                proof {
                    lemma_pairs_map_at(self@, idx as int);
                    lemma_pairs_map_remove(self@, idx as int);
                }
                let ghost s0 = self@;
                let entry = self.entries.remove(idx);
                assert(self@ =~= s0.remove(idx as int));
                Some(entry.into_tuple())
            },
            Err(idx) => {
                proof {
                    self.lemma_absent(key@, idx as int);
                    assert(old(self).map().remove(key@) =~= old(self).map());
                }
                None
            },
        }
    }

    /// Retains only the elements specified by the predicate.
    ///
    /// In other words, remove all pairs `(k, v)` for which `f(&k, &v)` returns `false`.
    pub fn retain<F: Fn(&K, &V) -> bool>(&mut self, f: F)
        requires
            old(self).wf(),
            forall|k: &K, v: &V| #[trigger] f.requires((k, v)),
        ensures
            final(self).wf(),
            final(self).map().submap_of(old(self).map()),
            forall|i: int|
                0 <= i < old(self)@.len() ==> {
                    let (k, v) = #[trigger] old(self)@[i];
                    &&& final(self).map().contains_key(k@) ==> f.ensures((&k, &v), true)
                    &&& !final(self).map().contains_key(k@) ==> f.ensures((&k, &v), false)
                },
    {
        let mut old_entries: Vec<Entry<K, V>> = Vec::new();
        std::mem::swap(&mut old_entries, &mut self.entries);
        let ghost s0 = old(self)@;
        let ghost n = s0.len();
        assert(old_entries@.map_values(|e: Entry<K, V>| e.pair()) =~= s0);
        // Walk the old entries back to front, keeping those that pass.
        let mut kept_rev: Vec<Entry<K, V>> = Vec::new();
        let ghost mut kept_idx: Seq<int> = Seq::empty();
        while old_entries.len() > 0
            invariant
                sorted_by_key(s0),
                n == s0.len(),
                forall|k: &K, v: &V| #[trigger] f.requires((k, v)),
                old_entries@.len() <= n,
                forall|i: int|
                    0 <= i < old_entries@.len() ==> #[trigger] old_entries@[i].pair() == s0[i],
                kept_idx.len() == kept_rev@.len(),
                forall|a: int|
                    0 <= a < kept_idx.len() ==> old_entries@.len() <= #[trigger] kept_idx[a] < n
                        && kept_rev@[a].pair() == s0[kept_idx[a]],
                forall|a: int, b: int|
                    0 <= a < b < kept_idx.len() ==> #[trigger] kept_idx[a] > #[trigger] kept_idx[b],
                forall|i: int|
                    old_entries@.len() <= i < n ==> {
                        let (k, v) = #[trigger] s0[i];
                        &&& (exists|a: int| 0 <= a < kept_idx.len() && kept_idx[a] == i)
                            ==> f.ensures((&k, &v), true)
                        &&& !(exists|a: int| 0 <= a < kept_idx.len() && kept_idx[a] == i)
                            ==> f.ensures((&k, &v), false)
                    },
            decreases old_entries@.len(),
        {
            let ghost i = old_entries@.len() - 1;
            let ghost old_kept = kept_idx;
            let e = old_entries.pop().unwrap();
            let keep = f(&e.key, &e.value);
            if keep {
                kept_rev.push(e);
                proof {
                    kept_idx = kept_idx.push(i);
                }
            }
            assert forall|j: int| old_entries@.len() <= j < n implies {
                let (k, v) = #[trigger] s0[j];
                &&& (exists|a: int| 0 <= a < kept_idx.len() && kept_idx[a] == j) ==> f.ensures(
                    (&k, &v),
                    true,
                )
                &&& !(exists|a: int| 0 <= a < kept_idx.len() && kept_idx[a] == j) ==> f.ensures(
                    (&k, &v),
                    false,
                )
            } by {
                let (k, v) = s0[j];
                if j == i {
                    assert(s0[j] == e.pair());
                    assert forall|a: int| 0 <= a < old_kept.len() implies old_kept[a] != j by {}
                    if keep {
                        assert(kept_idx[kept_idx.len() - 1] == j);
                    }
                } else {
                    let in_old = exists|a: int| 0 <= a < old_kept.len() && old_kept[a] == j;
                    let in_new = exists|a: int| 0 <= a < kept_idx.len() && kept_idx[a] == j;
                    if in_old {
                        let a = choose|a: int| 0 <= a < old_kept.len() && old_kept[a] == j;
                        assert(kept_idx[a] == j);
                    }
                    if in_new {
                        let a = choose|a: int| 0 <= a < kept_idx.len() && kept_idx[a] == j;
                        if keep {
                            assert(a < kept_idx.len() - 1);
                        }
                        assert(old_kept[a] == j);
                    }
                    assert(in_old == in_new);
                }
            }
        }
        // Put the kept entries back in their original order.
        let ghost m = kept_rev@.len();
        while kept_rev.len() > 0
            invariant
                sorted_by_key(s0),
                kept_idx.len() == m,
                kept_rev@.len() <= m,
                forall|a: int|
                    0 <= a < m ==> 0 <= #[trigger] kept_idx[a] < s0.len(),
                forall|a: int|
                    0 <= a < kept_rev@.len() ==> kept_rev@[a].pair() == s0[#[trigger] kept_idx[a]],
                forall|a: int, b: int|
                    0 <= a < b < m ==> #[trigger] kept_idx[a] > #[trigger] kept_idx[b],
                self.entries@.len() == m - kept_rev@.len(),
                forall|c: int|
                    0 <= c < self.entries@.len() ==> #[trigger] self.entries@[c].pair()
                        == s0[kept_idx[m - 1 - c]],
            decreases kept_rev@.len(),
        {
            let e = kept_rev.pop().unwrap();
            self.entries.push(e);
        }
        proof {
            let r = self@;
            assert forall|c: int| 0 <= c < r.len() implies #[trigger] r[c] == s0[kept_idx[m - 1
                - c]] by {
                assert(r[c] == self.entries@[c].pair());
            }
            assert forall|i: int, j: int| 0 <= i < j < r.len() implies #[trigger] K::lt_view(
                r[i].0@,
                r[j].0@,
            ) by {
                assert(kept_idx[m - 1 - j] > kept_idx[m - 1 - i]);
                assert(r[i] == s0[kept_idx[m - 1 - i]]);
                assert(r[j] == s0[kept_idx[m - 1 - j]]);
            }
            assert forall|k: K::V| #[trigger] pairs_map(r).contains_key(k) implies pairs_map(
                s0,
            ).contains_key(k) && pairs_map(r)[k] == pairs_map(s0)[k] by {
                let c = index_of_key(r, k);
                lemma_pairs_map_at(r, c);
                assert(r[c] == s0[kept_idx[m - 1 - c]]);
                lemma_pairs_map_at(s0, kept_idx[m - 1 - c]);
            }
            assert forall|i: int| 0 <= i < s0.len() implies {
                let (k, v) = #[trigger] s0[i];
                &&& pairs_map(r).contains_key(k@) ==> f.ensures((&k, &v), true)
                &&& !pairs_map(r).contains_key(k@) ==> f.ensures((&k, &v), false)
            } by {
                let (k, v) = s0[i];
                if pairs_map(r).contains_key(k@) {
                    let c = index_of_key(r, k@);
                    lemma_pairs_map_at(r, c);
                    assert(r[c] == s0[kept_idx[m - 1 - c]]);
                    if kept_idx[m - 1 - c] != i {
                        lemma_sorted_distinct(s0, kept_idx[m - 1 - c], i);
                    }
                    assert(kept_idx[m - 1 - c] == i);
                } else {
                    if exists|a: int| 0 <= a < kept_idx.len() && kept_idx[a] == i {
                        let a = choose|a: int| 0 <= a < kept_idx.len() && kept_idx[a] == i;
                        assert(r[m - 1 - a] == s0[i]);
                    }
                }
            }
        }
    }

    /// Moves all elements from other into self, leaving other empty.
    ///
    /// If a key from other is already present in self, the respective value from self will be
    /// overwritten with the respective value from other.
    pub fn append(&mut self, other: &mut Self)
        requires
            old(self).wf(),
            old(other).wf(),
        ensures
            final(self).wf(),
            final(other).wf(),
            final(self).map() == old(self).map().union_prefer_right(old(other).map()),
            final(other)@ == Seq::<(K, V)>::empty(),
    {
        let ghost target = old(self).map().union_prefer_right(old(other).map());
        loop
            invariant
                self.wf(),
                other.wf(),
                self.map().union_prefer_right(other.map()) == target,
            ensures
                self.wf(),
                other.wf(),
                self.map().union_prefer_right(other.map()) == target,
                other@ == Seq::<(K, V)>::empty(),
            decreases other@.len(),
        {
            let ghost other0 = *other;
            match other.pop_last() {
                None => {
                    break;
                },
                Some((key, value)) => {
                    proof {
                        lemma_pairs_map_at(other0@, other0@.len() - 1);
                    }
                    self.insert(key, value);
                    assert(self.map().union_prefer_right(other.map()) =~= target);
                },
            }
        }
        assert(pairs_map(other@) =~= Map::<K::V, V>::empty());
        assert(self.map() =~= self.map().union_prefer_right(other.map()));
    }

    /// Returns a mutable reference to the value corresponding to the key.
    pub fn get_mut(&mut self, key: &K) -> (res: Option<&mut V>)
        requires
            old(self).wf(),
        ensures
            final(self).wf(),
            match res {
                Some(r) => old(self).map().contains_key(key@) && *r == old(self).map()[key@]
                    && final(self).map() == old(self).map().insert(key@, *final(r)),
                None => !old(self).map().contains_key(key@) && final(self)@ == old(self)@,
            },
    {
        match self.get_index_of(key) {
            Ok(i) => {
                proof {
                    lemma_pairs_map_at(self@, i as int);
                }
                let ghost s0 = self@;
                let ghost es = self.entries@;
                let entry = &mut self.entries[i];
                let r = &mut entry.value;
                proof {
                    lemma_entries_update_view(es, i as int, *final(r));
                    lemma_pairs_map_update(s0, i as int, s0[i as int].0, *final(r));
                }
                Some(r)
            },
            Err(i) => {
                proof {
                    self.lemma_absent(key@, i as int);
                }
                None
            },
        }
    }

    /// The entry with the least key greater than `key`, if any.
    pub(crate) fn first_after(&self, key: &K) -> (res: Option<(&K, &V)>)
        requires
            self.wf(),
        ensures
            match res {
                Some((rk, rv)) => self.map().contains_key(rk@) && *rv == self.map()[rk@]
                    && K::lt_view(key@, rk@) && forall|k2: K::V|
                    #[trigger] self.map().contains_key(k2) && K::lt_view(key@, k2) ==> k2 == rk@
                        || K::lt_view(rk@, k2),
                None => forall|k2: K::V| #[trigger]
                    self.map().contains_key(k2) ==> !K::lt_view(key@, k2),
            },
    {
        let len = self.entries.len();
        assert(self@.len() == len);
        let j = match self.get_index_of(key) {
            Ok(i) => i + 1,
            Err(i) => i,
        };
        proof {
            assert forall|m: int| 0 <= m < j implies !K::lt_view(key@, #[trigger] self@[m].0@) by {
                K::lemma_order(key@, self@[m].0@, key@);
                K::lemma_order(self@[m].0@, key@, self@[m].0@);
                if m + 1 < j && j - 1 < self@.len() && self@[j - 1].0@ == key@ {
                    assert(K::lt_view(self@[m].0@, self@[j - 1].0@));
                }
            }
            assert forall|m: int| j <= m < self@.len() implies K::lt_view(
                key@,
                #[trigger] self@[m].0@,
            ) by {
                if j > 0 && self@[j - 1].0@ == key@ && m > j - 1 {
                    assert(K::lt_view(self@[j - 1].0@, self@[m].0@));
                }
            }
        }
        if j < self.entries.len() {
            proof {
                lemma_pairs_map_at(self@, j as int);
                assert forall|k2: K::V| #[trigger]
                    self.map().contains_key(k2) && K::lt_view(key@, k2) implies k2 == self@[j as int].0@
                    || K::lt_view(self@[j as int].0@, k2) by {
                    let m = choose|m: int| 0 <= m < self@.len() && self@[m].0@ == k2;
                    if m > j {
                        assert(K::lt_view(self@[j as int].0@, self@[m].0@));
                    }
                }
            }
            Some(self.entries[j].tuple())
        } else {
            proof {
                assert forall|k2: K::V| #[trigger] self.map().contains_key(k2) implies !K::lt_view(
                    key@,
                    k2,
                ) by {
                    let m = choose|m: int| 0 <= m < self@.len() && self@[m].0@ == k2;
                }
            }
            None
        }
    }

    /// The entries whose keys lie in `range`: from `range.start` (inclusive) to
    /// `range.end` (exclusive), in sorted order.
    ///
    /// Unlike `BTreeMap::range` this is empty where `start > end`.
    pub fn range(&self, range: core::ops::Range<K>) -> (res: Vec<(&K, &V)>)
        ensures
            res@.map_values(|p: (&K, &V)| (*p.0, *p.1)) == self@.filter(
                |p: (K, V)|
                    !K::lt_view(p.0@, range.start@) && K::lt_view(p.0@, range.end@),
            ),
    {
        let ghost pred = |p: (K, V)| !K::lt_view(p.0@, range.start@) && K::lt_view(p.0@, range.end@);
        let mut res: Vec<(&K, &V)> = Vec::new();
        let mut i: usize = 0;
        while i < self.entries.len()
            invariant
                i <= self@.len(),
                self@.len() == self.entries@.len(),
                pred == (|p: (K, V)| !K::lt_view(p.0@, range.start@) && K::lt_view(p.0@, range.end@)),
                res@.map_values(|p: (&K, &V)| (*p.0, *p.1)) == self@.take(i as int).filter(pred),
            decreases self@.len() - i,
        {
            let e = &self.entries[i];
            assert(self@[i as int] == e.pair());
            let above_start = match e.key.compare_keys(&range.start) {
                KeyOrder::Less => false,
                _ => true,
            };
            let below_end = match e.key.compare_keys(&range.end) {
                KeyOrder::Less => true,
                _ => false,
            };
            let ghost before = res@;
            if above_start && below_end {
                res.push((&e.key, &e.value));
            }
            proof {
                let s = self@.take(i + 1);
                assert(s.drop_last() =~= self@.take(i as int));
                assert(s.last() == e.pair());
                reveal(Seq::filter);
                assert(res@.map_values(|p: (&K, &V)| (*p.0, *p.1)) =~= s.filter(pred));
            }
            i = i + 1;
        }
        assert(self@.take(self@.len() as int) =~= self@);
        res
    }

    /// The entries whose keys lie between the bounds `start` and `end`, each of
    /// which includes its key, excludes it, or is open; in sorted order. Empty
    /// where no key can lie between them.
    pub fn range_bounds(&self, start: &KeyBound<K>, end: &KeyBound<K>) -> (res: Vec<(&K, &V)>)
        ensures
            res@.map_values(|p: (&K, &V)| (*p.0, *p.1)) == self@.filter(
                |p: (K, V)| after_start(*start, p.0@) && before_end(*end, p.0@),
            ),
    {
        let ghost pred = |p: (K, V)| after_start(*start, p.0@) && before_end(*end, p.0@);
        let mut res: Vec<(&K, &V)> = Vec::new();
        let mut i: usize = 0;
        while i < self.entries.len()
            invariant
                i <= self@.len(),
                self@.len() == self.entries@.len(),
                pred == (|p: (K, V)| after_start(*start, p.0@) && before_end(*end, p.0@)),
                res@.map_values(|p: (&K, &V)| (*p.0, *p.1)) == self@.take(i as int).filter(pred),
            decreases self@.len() - i,
        {
            let e = &self.entries[i];
            assert(self@[i as int] == e.pair());
            if in_range(start, end, &e.key) {
                res.push((&e.key, &e.value));
            }
            proof {
                let s = self@.take(i + 1);
                assert(s.drop_last() =~= self@.take(i as int));
                assert(s.last() == e.pair());
                reveal(Seq::filter);
                assert(res@.map_values(|p: (&K, &V)| (*p.0, *p.1)) =~= s.filter(pred));
            }
            i = i + 1;
        }
        assert(self@.take(self@.len() as int) =~= self@);
        res
    }

    /// The entries, sorted by key.
    pub fn iter(&self) -> (res: Vec<(&K, &V)>)
        ensures
            res@.map_values(|p: (&K, &V)| (*p.0, *p.1)) == self@,
    {
        let mut res: Vec<(&K, &V)> = Vec::new();
        let mut i: usize = 0;
        while i < self.entries.len()
            invariant
                i <= self@.len(),
                self@.len() == self.entries@.len(),
                res@.map_values(|p: (&K, &V)| (*p.0, *p.1)) == self@.take(i as int),
            decreases self@.len() - i,
        {
            let e = &self.entries[i];
            assert(self@[i as int] == e.pair());
            let ghost before = res@;
            res.push((&e.key, &e.value));
            assert(res@ == before.push((&e.key, &e.value)));
            assert(self@.take(i + 1) =~= self@.take(i as int).push(e.pair()));
            assert(res@.map_values(|p: (&K, &V)| (*p.0, *p.1)) =~= before.map_values(
                |p: (&K, &V)| (*p.0, *p.1),
            ).push(e.pair()));
            i = i + 1;
        }
        assert(self@.take(self@.len() as int) =~= self@);
        res
    }

    /// The keys, in sorted order.
    pub fn keys(&self) -> (res: Vec<&K>)
        ensures
            res@.map_values(|k: &K| *k) == self@.map_values(|p: (K, V)| p.0),
    {
        let mut res: Vec<&K> = Vec::new();
        let mut i: usize = 0;
        while i < self.entries.len()
            invariant
                i <= self@.len(),
                self@.len() == self.entries@.len(),
                res@.map_values(|k: &K| *k) == self@.take(i as int).map_values(|p: (K, V)| p.0),
            decreases self@.len() - i,
        {
            assert(self@[i as int] == self.entries@[i as int].pair());
            let ghost before = res@;
            res.push(&self.entries[i].key);
            assert(self@.take(i + 1) =~= self@.take(i as int).push(self@[i as int]));
            assert(res@.map_values(|k: &K| *k) =~= before.map_values(|k: &K| *k).push(
                self@[i as int].0,
            ));
            assert(self@.take(i + 1).map_values(|p: (K, V)| p.0) =~= self@.take(
                i as int,
            ).map_values(|p: (K, V)| p.0).push(self@[i as int].0));
            i = i + 1;
        }
        assert(self@.take(self@.len() as int) =~= self@);
        res
    }

    /// The values, in order by key.
    pub fn values(&self) -> (res: Vec<&V>)
        ensures
            res@.map_values(|v: &V| *v) == self@.map_values(|p: (K, V)| p.1),
    {
        let mut res: Vec<&V> = Vec::new();
        let mut i: usize = 0;
        while i < self.entries.len()
            invariant
                i <= self@.len(),
                self@.len() == self.entries@.len(),
                res@.map_values(|v: &V| *v) == self@.take(i as int).map_values(|p: (K, V)| p.1),
            decreases self@.len() - i,
        {
            assert(self@[i as int] == self.entries@[i as int].pair());
            let ghost before = res@;
            res.push(&self.entries[i].value);
            assert(self@.take(i + 1) =~= self@.take(i as int).push(self@[i as int]));
            assert(res@.map_values(|v: &V| *v) =~= before.map_values(|v: &V| *v).push(
                self@[i as int].1,
            ));
            assert(self@.take(i + 1).map_values(|p: (K, V)| p.1) =~= self@.take(
                i as int,
            ).map_values(|p: (K, V)| p.1).push(self@[i as int].1));
            i = i + 1;
        }
        assert(self@.take(self@.len() as int) =~= self@);
        res
    }

    /// The entries, taken out of the map in sorted order.
    fn into_pairs(self) -> (res: Vec<(K, V)>)
        ensures
            res@ == self@,
    {
        let ghost s0 = self@;
        let mut entries = self.entries;
        let mut reversed: Vec<(K, V)> = Vec::new();
        while entries.len() > 0
            invariant
                entries@.len() <= s0.len(),
                forall|i: int| 0 <= i < entries@.len() ==> #[trigger] entries@[i].pair() == s0[i],
                reversed@.len() == s0.len() - entries@.len(),
                forall|j: int|
                    0 <= j < reversed@.len() ==> #[trigger] reversed@[j] == s0[s0.len() - 1 - j],
            decreases entries@.len(),
        {
            let e = entries.pop().unwrap();
            reversed.push(e.into_tuple());
        }
        let mut res: Vec<(K, V)> = Vec::new();
        while reversed.len() > 0
            invariant
                reversed@.len() <= s0.len(),
                forall|j: int|
                    0 <= j < reversed@.len() ==> #[trigger] reversed@[j] == s0[s0.len() - 1 - j],
                res@ == s0.take(s0.len() - reversed@.len()),
            decreases reversed@.len(),
        {
            let p = reversed.pop().unwrap();
            let ghost at = s0.len() - reversed@.len() - 1;
            res.push(p);
            assert(res@ =~= s0.take(at + 1));
        }
        assert(s0.take(s0.len() as int) =~= s0);
        res
    }

    /// Creates a consuming iterator visiting all the keys, in sorted order.
    pub fn into_keys(self) -> (res: Vec<K>)
        ensures
            res@ == self@.map_values(|p: (K, V)| p.0),
    {
        let ghost s0 = self@;
        let mut pairs = self.into_pairs();
        let mut res: Vec<K> = Vec::new();
        let mut rev: Vec<K> = Vec::new();
        while pairs.len() > 0
            invariant
                pairs@.len() <= s0.len(),
                forall|i: int| 0 <= i < pairs@.len() ==> #[trigger] pairs@[i] == s0[i],
                rev@.len() == s0.len() - pairs@.len(),
                forall|j: int| 0 <= j < rev@.len() ==> #[trigger] rev@[j] == s0[s0.len() - 1 - j].0,
            decreases pairs@.len(),
        {
            let (k, _v) = pairs.pop().unwrap();
            rev.push(k);
        }
        while rev.len() > 0
            invariant
                rev@.len() <= s0.len(),
                forall|j: int| 0 <= j < rev@.len() ==> #[trigger] rev@[j] == s0[s0.len() - 1 - j].0,
                res@ == s0.take(s0.len() - rev@.len()).map_values(|p: (K, V)| p.0),
            decreases rev@.len(),
        {
            let k = rev.pop().unwrap();
            let ghost at = s0.len() - rev@.len() - 1;
            res.push(k);
            assert(res@ =~= s0.take(at + 1).map_values(|p: (K, V)| p.0));
        }
        assert(s0.take(s0.len() as int) =~= s0);
        res
    }

    /// Creates a consuming iterator visiting all the values, in order by key.
    pub fn into_values(self) -> (res: Vec<V>)
        ensures
            res@ == self@.map_values(|p: (K, V)| p.1),
    {
        let ghost s0 = self@;
        let mut pairs = self.into_pairs();
        let mut res: Vec<V> = Vec::new();
        let mut rev: Vec<V> = Vec::new();
        while pairs.len() > 0
            invariant
                pairs@.len() <= s0.len(),
                forall|i: int| 0 <= i < pairs@.len() ==> #[trigger] pairs@[i] == s0[i],
                rev@.len() == s0.len() - pairs@.len(),
                forall|j: int| 0 <= j < rev@.len() ==> #[trigger] rev@[j] == s0[s0.len() - 1 - j].1,
            decreases pairs@.len(),
        {
            let (_k, v) = pairs.pop().unwrap();
            rev.push(v);
        }
        while rev.len() > 0
            invariant
                rev@.len() <= s0.len(),
                forall|j: int| 0 <= j < rev@.len() ==> #[trigger] rev@[j] == s0[s0.len() - 1 - j].1,
                res@ == s0.take(s0.len() - rev@.len()).map_values(|p: (K, V)| p.1),
            decreases rev@.len(),
        {
            let v = rev.pop().unwrap();
            let ghost at = s0.len() - rev@.len() - 1;
            res.push(v);
            assert(res@ =~= s0.take(at + 1).map_values(|p: (K, V)| p.1));
        }
        assert(s0.take(s0.len() as int) =~= s0);
        res
    }

    /// Builds a map from key-value pairs; where a key occurs more than once,
    /// its first pair is kept.
    pub fn from_vec(pairs: Vec<(K, V)>) -> (res: Self)
        ensures
            res.wf(),
            res.map() == first_wins_map(pairs@),
    {
        let ghost s0 = pairs@;
        let mut pairs = pairs;
        let mut rev: Vec<(K, V)> = Vec::new();
        while pairs.len() > 0
            invariant
                pairs@.len() <= s0.len(),
                forall|i: int| 0 <= i < pairs@.len() ==> #[trigger] pairs@[i] == s0[i],
                rev@.len() == s0.len() - pairs@.len(),
                forall|j: int| 0 <= j < rev@.len() ==> #[trigger] rev@[j] == s0[s0.len() - 1 - j],
            decreases pairs@.len(),
        {
            let p = pairs.pop().unwrap();
            rev.push(p);
        }
        let mut res = Self::new();
        assert(res.map() =~= Map::<K::V, V>::empty());
        assert(s0.take(0) =~= Seq::<(K, V)>::empty());
        while rev.len() > 0
            invariant
                res.wf(),
                rev@.len() <= s0.len(),
                forall|j: int| 0 <= j < rev@.len() ==> #[trigger] rev@[j] == s0[s0.len() - 1 - j],
                res.map() == first_wins_map(s0.take(s0.len() - rev@.len())),
            decreases rev@.len(),
        {
            let (k, v) = rev.pop().unwrap();
            let ghost at = s0.len() - rev@.len() - 1;
            let ghost m0 = res.map();
            assert(s0.take(at + 1).drop_last() =~= s0.take(at));
            assert(s0.take(at + 1).last() == s0[at]);
            if !res.contains_key(&k) {
                res.insert(k, v);
            }
        }
        assert(s0.take(s0.len() as int) =~= s0);
        res
    }

    /// Returns the number of elements in [`SortedVecMap`].
    pub fn len(&self) -> (res: usize)
        ensures
            res == self@.len(),
    {
        self.entries.len()
    }

    /// Returns `true` if [`SortedVecMap`] contains no elements.
    pub fn is_empty(&self) -> (res: bool)
        ensures
            res == (self@.len() == 0),
    {
        self.entries.len() == 0
    }
}

impl<K: DeepView, V: DeepView> DeepView for SortedVecMap<K, V> {
    type V = Seq<(K::V, V::V)>;

    closed spec fn deep_view(&self) -> Seq<(K::V, V::V)> {
        self.entries.deep_view()
    }
}

impl<K: ReadWriteState, V: ReadWriteState> ReadWriteState for SortedVecMap<K, V> {
    closed spec fn state_bytes(&self) -> Seq<u8> {
        self.entries.state_bytes()
    }

    closed spec fn state_representable(&self) -> bool {
        self.entries.state_representable()
    }

    open spec fn state_parse(data: Seq<u8>) -> Option<(Seq<(K::V, V::V)>, nat)> {
        <Vec<Entry<K, V>> as ReadWriteState>::state_parse(data)
    }

    fn state_read_from(reader: &mut &[u8]) -> (res: Self) {
        let entries = <Vec<Entry<K, V>> as ReadWriteState>::state_read_from(reader);
        SortedVecMap { entries }
    }

    fn state_write_to(&self, writer: &mut Vec<u8>) {
        self.entries.state_write_to(writer);
    }

    proof fn lemma_state_roundtrip(&self, rest: Seq<u8>) {
        self.entries.lemma_state_roundtrip(rest);
    }
}

/// The first entry of a map holds its least key, the last entry its greatest.
pub proof fn law_map_first_least_last_greatest<K: OrderedKey, V>(m: SortedVecMap<K, V>, k: K::V)
    requires
        m.wf(),
        m.map().contains_key(k),
    ensures
        m@.len() > 0,
        m@[0].0@ == k || K::lt_view(m@[0].0@, k),
        m@.last().0@ == k || K::lt_view(k, m@.last().0@),
{
    let i = choose|i: int| 0 <= i < m@.len() && m@[i].0@ == k;
    if i > 0 {
        assert(K::lt_view(m@[0].0@, m@[i].0@));
    }
    if i < m@.len() - 1 {
        assert(K::lt_view(m@[i].0@, m@[m@.len() - 1].0@));
    }
}

/// A map with no entries maps nothing.
pub proof fn lemma_empty_map<K: OrderedKey, V>(m: SortedVecMap<K, V>)
    requires
        m@.len() == 0,
    ensures
        m.wf(),
        m.map() == Map::<K::V, V>::empty(),
{
    assert(m.map() =~= Map::<K::V, V>::empty());
}

/// The first entry of a non-empty map holds its least key.
pub proof fn lemma_first_is_least<K: OrderedKey, V>(m: SortedVecMap<K, V>)
    requires
        m.wf(),
        m@.len() > 0,
    ensures
        m.map().contains_key(m@[0].0@),
        m.map()[m@[0].0@] == m@[0].1,
        forall|k: K::V| #[trigger] m.map().contains_key(k) ==> k == m@[0].0@ || K::lt_view(m@[0].0@, k),
{
    lemma_pairs_map_at(m@, 0);
    assert forall|k: K::V| #[trigger] m.map().contains_key(k) implies k == m@[0].0@ || K::lt_view(
        m@[0].0@,
        k,
    ) by {
        let i = choose|i: int| 0 <= i < m@.len() && m@[i].0@ == k;
        if i > 0 {
            assert(K::lt_view(m@[0].0@, m@[i].0@));
        }
    }
}

/// The last entry of a non-empty map holds its greatest key.
pub proof fn lemma_last_is_greatest<K: OrderedKey, V>(m: SortedVecMap<K, V>)
    requires
        m.wf(),
        m@.len() > 0,
    ensures
        m.map().contains_key(m@.last().0@),
        m.map()[m@.last().0@] == m@.last().1,
        forall|k: K::V| #[trigger] m.map().contains_key(k) ==> k == m@.last().0@ || K::lt_view(k, m@.last().0@),
{
    lemma_pairs_map_at(m@, m@.len() - 1);
    assert forall|k: K::V| #[trigger] m.map().contains_key(k) implies k == m@.last().0@ || K::lt_view(
        k,
        m@.last().0@,
    ) by {
        let i = choose|i: int| 0 <= i < m@.len() && m@[i].0@ == k;
        if i < m@.len() - 1 {
            assert(K::lt_view(m@[i].0@, m@[m@.len() - 1].0@));
        }
    }
}

/// A sorted map has exactly as many entries as keys.
pub proof fn law_map_len_is_key_count<K: OrderedKey, V>(m: SortedVecMap<K, V>)
    requires
        m.wf(),
    ensures
        m.map().dom().finite(),
        m.map().dom().len() == m@.len(),
{
    lemma_pairs_map_len(m@);
}

/// The keys of a sorted sequence of pairs make a set as large as the sequence.
pub(crate) proof fn lemma_pairs_map_len<K: OrderedKey, V>(s: Seq<(K, V)>)
    requires
        sorted_by_key(s),
    ensures
        pairs_map(s).dom().finite(),
        pairs_map(s).dom().len() == s.len(),
    decreases s.len(),
{
    if s.len() == 0 {
        assert(pairs_map(s).dom() =~= Set::<K::V>::empty());
    } else {
        let t = s.drop_last();
        assert forall|i: int, j: int| 0 <= i < j < t.len() implies #[trigger] K::lt_view(
            t[i].0@,
            t[j].0@,
        ) by {
            assert(t[i] == s[i] && t[j] == s[j]);
        }
        lemma_pairs_map_len(t);
        let k = s.last().0@;
        assert forall|i: int| 0 <= i < t.len() implies t[i].0@ != k by {
            lemma_sorted_distinct(s, i, s.len() - 1);
        }
        assert(pairs_map(s).dom() =~= pairs_map(t).dom().insert(k)) by {
            assert forall|x: K::V| pairs_map(s).dom().contains(x) implies pairs_map(
                t,
            ).dom().insert(k).contains(x) by {
                let i = choose|i: int| 0 <= i < s.len() && s[i].0@ == x;
                if i < s.len() - 1 {
                    assert(t[i] == s[i]);
                }
            }
            assert forall|x: K::V| pairs_map(t).dom().insert(k).contains(x) implies pairs_map(
                s,
            ).dom().contains(x) by {
                if x != k {
                    let i = choose|i: int| 0 <= i < t.len() && t[i].0@ == x;
                    assert(s[i] == t[i]);
                } else {
                    assert(s[s.len() - 1].0@ == x);
                }
            }
        }
    }
}

/// A key read after an insert gives the inserted value; other keys keep theirs.
pub proof fn law_map_get_after_insert<K: OrderedKey, V>(m: SortedVecMap<K, V>, k: K::V, v: V, other: K::V)
    requires
        other != k,
    ensures
        m.map().insert(k, v).contains_key(k),
        m.map().insert(k, v)[k] == v,
        m.map().insert(k, v).contains_key(other) == m.map().contains_key(other),
        m.map().contains_key(other) ==> m.map().insert(k, v)[other] == m.map()[other],
{
}

/// A removed key is gone; other keys keep their values.
pub proof fn law_map_get_after_remove<K: OrderedKey, V>(m: SortedVecMap<K, V>, k: K::V, other: K::V)
    requires
        other != k,
    ensures
        !m.map().remove(k).contains_key(k),
        m.map().remove(k).contains_key(other) == m.map().contains_key(other),
        m.map().contains_key(other) ==> m.map().remove(k)[other] == m.map()[other],
{
}

/// Building a map keeps, for each key, the value of its first pair.
pub proof fn law_first_pair_wins<K: View, V>(pairs: Seq<(K, V)>, i: int)
    requires
        0 <= i < pairs.len(),
        forall|j: int| 0 <= j < i ==> pairs[j].0@ != pairs[i].0@,
    ensures
        first_wins_map(pairs).contains_key(pairs[i].0@),
        first_wins_map(pairs)[pairs[i].0@] == pairs[i].1,
    decreases pairs.len(),
{
    lemma_first_wins_prefix(pairs, i);
}

/// The first pair of a key decides its value in every longer prefix.
proof fn lemma_first_wins_prefix<K: View, V>(pairs: Seq<(K, V)>, i: int)
    requires
        0 <= i < pairs.len(),
        forall|j: int| 0 <= j < i ==> pairs[j].0@ != pairs[i].0@,
    ensures
        first_wins_map(pairs).contains_key(pairs[i].0@),
        first_wins_map(pairs)[pairs[i].0@] == pairs[i].1,
    decreases pairs.len(),
{
    if i < pairs.len() - 1 {
        let t = pairs.drop_last();
        assert forall|j: int| 0 <= j < i implies t[j].0@ != t[i].0@ by {
            assert(t[j] == pairs[j] && t[i] == pairs[i]);
        }
        lemma_first_wins_prefix(t, i);
        assert(t[i] == pairs[i]);
    } else {
        let t = pairs.drop_last();
        lemma_first_wins_absent(t, pairs[i].0@);
    }
}

/// A key that no pair has is not in the map.
proof fn lemma_first_wins_absent<K: View, V>(pairs: Seq<(K, V)>, k: K::V)
    requires
        forall|j: int| 0 <= j < pairs.len() ==> pairs[j].0@ != k,
    ensures
        !first_wins_map(pairs).contains_key(k),
    decreases pairs.len(),
{
    if pairs.len() > 0 {
        let t = pairs.drop_last();
        assert forall|j: int| 0 <= j < t.len() implies t[j].0@ != k by {
            assert(t[j] == pairs[j]);
        }
        lemma_first_wins_absent(t, k);
    }
}

impl<K: StateCanonical, V: StateCanonical> StateCanonical for SortedVecMap<K, V> {
    open spec fn view_state_bytes(v: Seq<(K::V, V::V)>) -> Seq<u8> {
        <Vec<Entry<K, V>> as StateCanonical>::view_state_bytes(v)
    }

    proof fn lemma_bytes_follow_view(&self) {
        self.entries.lemma_bytes_follow_view();
    }

    proof fn lemma_read_bytes_are_canonical(data: Seq<u8>) {
        <Vec<Entry<K, V>> as StateCanonical>::lemma_read_bytes_are_canonical(data);
    }
}

/// A sorted map with `u8` keys holds its entries in strictly increasing
/// numeric order of the keys, so its first entry has the least key and its last
/// the greatest.
pub proof fn law_u8_map_keys_increase<V>(m: SortedVecMap<u8, V>, i: int, j: int, k: u8)
    requires
        m.wf(),
        0 <= i < j < m@.len(),
        m.map().contains_key(k),
    ensures
        m@[i].0 < m@[j].0,
        m@[0].0 <= k <= m@.last().0,
{
    lemma_sorted_lt(m@, i, j);
    crate::key_order::law_u8_keys_in_numeric_order(m@[i].0, m@[j].0);
    law_map_first_least_last_greatest(m, k);
    crate::key_order::law_u8_keys_in_numeric_order(m@[0].0, k);
    crate::key_order::law_u8_keys_in_numeric_order(k, m@.last().0);
}

/// A sorted map with `u16` keys holds its entries in strictly increasing
/// numeric order of the keys, so its first entry has the least key and its last
/// the greatest.
pub proof fn law_u16_map_keys_increase<V>(m: SortedVecMap<u16, V>, i: int, j: int, k: u16)
    requires
        m.wf(),
        0 <= i < j < m@.len(),
        m.map().contains_key(k),
    ensures
        m@[i].0 < m@[j].0,
        m@[0].0 <= k <= m@.last().0,
{
    lemma_sorted_lt(m@, i, j);
    crate::key_order::law_u16_keys_in_numeric_order(m@[i].0, m@[j].0);
    law_map_first_least_last_greatest(m, k);
    crate::key_order::law_u16_keys_in_numeric_order(m@[0].0, k);
    crate::key_order::law_u16_keys_in_numeric_order(k, m@.last().0);
}

/// A sorted map with `u32` keys holds its entries in strictly increasing
/// numeric order of the keys, so its first entry has the least key and its last
/// the greatest.
pub proof fn law_u32_map_keys_increase<V>(m: SortedVecMap<u32, V>, i: int, j: int, k: u32)
    requires
        m.wf(),
        0 <= i < j < m@.len(),
        m.map().contains_key(k),
    ensures
        m@[i].0 < m@[j].0,
        m@[0].0 <= k <= m@.last().0,
{
    lemma_sorted_lt(m@, i, j);
    crate::key_order::law_u32_keys_in_numeric_order(m@[i].0, m@[j].0);
    law_map_first_least_last_greatest(m, k);
    crate::key_order::law_u32_keys_in_numeric_order(m@[0].0, k);
    crate::key_order::law_u32_keys_in_numeric_order(k, m@.last().0);
}

/// A sorted map with `u64` keys holds its entries in strictly increasing
/// numeric order of the keys, so its first entry has the least key and its last
/// the greatest.
pub proof fn law_u64_map_keys_increase<V>(m: SortedVecMap<u64, V>, i: int, j: int, k: u64)
    requires
        m.wf(),
        0 <= i < j < m@.len(),
        m.map().contains_key(k),
    ensures
        m@[i].0 < m@[j].0,
        m@[0].0 <= k <= m@.last().0,
{
    lemma_sorted_lt(m@, i, j);
    crate::key_order::law_u64_keys_in_numeric_order(m@[i].0, m@[j].0);
    law_map_first_least_last_greatest(m, k);
    crate::key_order::law_u64_keys_in_numeric_order(m@[0].0, k);
    crate::key_order::law_u64_keys_in_numeric_order(k, m@.last().0);
}

/// A sorted map with `u128` keys holds its entries in strictly increasing
/// numeric order of the keys, so its first entry has the least key and its last
/// the greatest.
pub proof fn law_u128_map_keys_increase<V>(m: SortedVecMap<u128, V>, i: int, j: int, k: u128)
    requires
        m.wf(),
        0 <= i < j < m@.len(),
        m.map().contains_key(k),
    ensures
        m@[i].0 < m@[j].0,
        m@[0].0 <= k <= m@.last().0,
{
    lemma_sorted_lt(m@, i, j);
    crate::key_order::law_u128_keys_in_numeric_order(m@[i].0, m@[j].0);
    law_map_first_least_last_greatest(m, k);
    crate::key_order::law_u128_keys_in_numeric_order(m@[0].0, k);
    crate::key_order::law_u128_keys_in_numeric_order(k, m@.last().0);
}

/// A sorted map with `i8` keys holds its entries in strictly increasing
/// numeric order of the keys, so its first entry has the least key and its last
/// the greatest.
pub proof fn law_i8_map_keys_increase<V>(m: SortedVecMap<i8, V>, i: int, j: int, k: i8)
    requires
        m.wf(),
        0 <= i < j < m@.len(),
        m.map().contains_key(k),
    ensures
        m@[i].0 < m@[j].0,
        m@[0].0 <= k <= m@.last().0,
{
    lemma_sorted_lt(m@, i, j);
    crate::key_order::law_i8_keys_in_numeric_order(m@[i].0, m@[j].0);
    law_map_first_least_last_greatest(m, k);
    crate::key_order::law_i8_keys_in_numeric_order(m@[0].0, k);
    crate::key_order::law_i8_keys_in_numeric_order(k, m@.last().0);
}

/// A sorted map with `i16` keys holds its entries in strictly increasing
/// numeric order of the keys, so its first entry has the least key and its last
/// the greatest.
pub proof fn law_i16_map_keys_increase<V>(m: SortedVecMap<i16, V>, i: int, j: int, k: i16)
    requires
        m.wf(),
        0 <= i < j < m@.len(),
        m.map().contains_key(k),
    ensures
        m@[i].0 < m@[j].0,
        m@[0].0 <= k <= m@.last().0,
{
    lemma_sorted_lt(m@, i, j);
    crate::key_order::law_i16_keys_in_numeric_order(m@[i].0, m@[j].0);
    law_map_first_least_last_greatest(m, k);
    crate::key_order::law_i16_keys_in_numeric_order(m@[0].0, k);
    crate::key_order::law_i16_keys_in_numeric_order(k, m@.last().0);
}

/// A sorted map with `i32` keys holds its entries in strictly increasing
/// numeric order of the keys, so its first entry has the least key and its last
/// the greatest.
pub proof fn law_i32_map_keys_increase<V>(m: SortedVecMap<i32, V>, i: int, j: int, k: i32)
    requires
        m.wf(),
        0 <= i < j < m@.len(),
        m.map().contains_key(k),
    ensures
        m@[i].0 < m@[j].0,
        m@[0].0 <= k <= m@.last().0,
{
    lemma_sorted_lt(m@, i, j);
    crate::key_order::law_i32_keys_in_numeric_order(m@[i].0, m@[j].0);
    law_map_first_least_last_greatest(m, k);
    crate::key_order::law_i32_keys_in_numeric_order(m@[0].0, k);
    crate::key_order::law_i32_keys_in_numeric_order(k, m@.last().0);
}

/// A sorted map with `i64` keys holds its entries in strictly increasing
/// numeric order of the keys, so its first entry has the least key and its last
/// the greatest.
pub proof fn law_i64_map_keys_increase<V>(m: SortedVecMap<i64, V>, i: int, j: int, k: i64)
    requires
        m.wf(),
        0 <= i < j < m@.len(),
        m.map().contains_key(k),
    ensures
        m@[i].0 < m@[j].0,
        m@[0].0 <= k <= m@.last().0,
{
    lemma_sorted_lt(m@, i, j);
    crate::key_order::law_i64_keys_in_numeric_order(m@[i].0, m@[j].0);
    law_map_first_least_last_greatest(m, k);
    crate::key_order::law_i64_keys_in_numeric_order(m@[0].0, k);
    crate::key_order::law_i64_keys_in_numeric_order(k, m@.last().0);
}

/// A sorted map with `i128` keys holds its entries in strictly increasing
/// numeric order of the keys, so its first entry has the least key and its last
/// the greatest.
pub proof fn law_i128_map_keys_increase<V>(m: SortedVecMap<i128, V>, i: int, j: int, k: i128)
    requires
        m.wf(),
        0 <= i < j < m@.len(),
        m.map().contains_key(k),
    ensures
        m@[i].0 < m@[j].0,
        m@[0].0 <= k <= m@.last().0,
{
    lemma_sorted_lt(m@, i, j);
    crate::key_order::law_i128_keys_in_numeric_order(m@[i].0, m@[j].0);
    law_map_first_least_last_greatest(m, k);
    crate::key_order::law_i128_keys_in_numeric_order(m@[0].0, k);
    crate::key_order::law_i128_keys_in_numeric_order(k, m@.last().0);
}

} // verus!
