//! Provides an [`AvlTreeMap`] which allows for partial deserialization of state.
//!
//! [`AvlTreeMap`]s are stored in an efficient data-structure as a separate part of the
//! contract state, outside of the Rust-side contract state: a tree of an
//! [`AvlStore`]. Values are loaded when requested, and only the requested values
//! are deserialized.
//!
//! Keys and values are kept in their State serialization; the tree orders keys
//! by those bytes.
use core::marker::PhantomData;
use vstd::prelude::*;

use crate::traits::{read_uint_le, write_uint_le, le_bytes, le_value, ReadWriteState, StateCanonical};
use crate::wasm_avl::{
    absent_size, has_next_key, is_next_key, is_next_tree_id, iteration_keys, next_key, opt_bytes,
    AvlStore,
};

verus! {

/// Builds `n` zero bytes.
fn zeros(n: usize) -> (res: Vec<u8>)
    ensures
        res@.len() == n,
{
    let mut res: Vec<u8> = Vec::new();
    let mut i: usize = 0;
    while i < n
        invariant
            i <= n,
            res@.len() == i,
        decreases n - i,
    {
        res.push(0);
        i = i + 1;
    }
    res
}

/// The State bytes of a value, written by its `state_write_to`.
fn state_bytes_of<T: ReadWriteState>(value: &T) -> (res: Vec<u8>)
    ensures
        res@ == value.state_bytes(),
{
    let mut res: Vec<u8> = Vec::new();
    value.state_write_to(&mut res);
    assert(res@ =~= value.state_bytes());
    res
}

/// A map from keys of type `K` to values of type `V`, kept in a tree of an
/// [`AvlStore`].
///
/// ## Serialization
///
/// In the State format an [`AvlTreeMap`] is the id of its tree, 4 bytes little-endian.
#[derive(Debug)]
pub struct AvlTreeMap<K, V> {
    key_type: PhantomData<K>,
    value_type: PhantomData<V>,
    tree_id: i32,
}

impl<K, V> View for AvlTreeMap<K, V> {
    type V = i32;

    /// The id of the map's tree.
    closed spec fn view(&self) -> i32 {
        self.tree_id
    }
}

impl<K: ReadWriteState, V: ReadWriteState> AvlTreeMap<K, V> {
    /// Creates a map with a new, empty tree in the store.
    pub fn new(store: &mut AvlStore) -> (res: Self)
        requires
            old(store).wf(),
            !old(store)@.contains_key(i32::MAX),
        ensures
            final(store).wf(),
            is_next_tree_id(old(store)@, res@ as int),
            final(store)@ == old(store)@.insert(res@, Map::empty()),
    {
        let tree_id = crate::wasm_avl::new(store);
        AvlTreeMap { key_type: PhantomData, value_type: PhantomData, tree_id }
    }

    /// The value of a key, read from its State bytes; `None` where the key is not
    /// in the map (or its value takes `u32::MAX` bytes).
    pub fn get(&self, store: &AvlStore, key: &K) -> (res: Option<V>)
        requires
            store.wf(),
            store@.contains_key(self@),
            store@[self@].contains_key(key.state_bytes()) ==> V::state_parse(
                store@[self@][key.state_bytes()],
            ) is Some,
        ensures
            !store@[self@].contains_key(key.state_bytes()) ==> res is None,
            store@[self@].contains_key(key.state_bytes()) ==> {
                let vb = store@[self@][key.state_bytes()];
                &&& vb.len() == absent_size() ==> res is None
                &&& vb.len() != absent_size() ==> (res matches Some(v) && v.deep_view()
                    == V::state_parse(vb)->Some_0.0)
            },
    {
        let key_bytes = state_bytes_of(key);
        let value_size = crate::wasm_avl::get_size(store, self.tree_id, key_bytes.as_slice());
        if value_size == 0xFFFF_FFFF {
            return None;
        }
        let mut value_bytes = zeros(value_size);
        if crate::wasm_avl::get(store, self.tree_id, key_bytes.as_slice(), value_bytes.as_mut_slice()) {
            let mut reader = value_bytes.as_slice();
            let value = V::state_read_from(&mut reader);
            Some(value)
        } else {
            None
        }
    }

    /// Whether the key is in the map (with a value of fewer than `u32::MAX` bytes).
    pub fn contains_key(&self, store: &AvlStore, key: &K) -> (res: bool)
        requires
            store.wf(),
            store@.contains_key(self@),
        ensures
            res == (store@[self@].contains_key(key.state_bytes())
                && store@[self@][key.state_bytes()].len() != absent_size()),
    {
        let key_bytes = state_bytes_of(key);
        crate::wasm_avl::get_size(store, self.tree_id, key_bytes.as_slice()) != 0xFFFF_FFFF
    }

    /// Inserts a key and its value, replacing any value of the key.
    pub fn insert(&self, store: &mut AvlStore, key: K, value: V)
        requires
            old(store).wf(),
            old(store)@.contains_key(self@),
        ensures
            final(store).wf(),
            final(store)@ == old(store)@.insert(
                self@,
                old(store)@[self@].insert(key.state_bytes(), value.state_bytes()),
            ),
    {
        let key_bytes = state_bytes_of(&key);
        let value_bytes = state_bytes_of(&value);
        crate::wasm_avl::insert(store, self.tree_id, key_bytes.as_slice(), value_bytes.as_slice());
    }

    /// Removes a key and its value, where it is in the map.
    pub fn remove(&self, store: &mut AvlStore, key: &K)
        requires
            old(store).wf(),
            old(store)@.contains_key(self@),
        ensures
            final(store).wf(),
            final(store)@ == old(store)@.insert(self@, old(store)@[self@].remove(key.state_bytes())),
    {
        let key_bytes = state_bytes_of(key);
        crate::wasm_avl::remove(store, self.tree_id, key_bytes.as_slice());
    }

    /// The number of keys in the map.
    pub fn len(&self, store: &AvlStore) -> (res: usize)
        requires
            store.wf(),
            store@.contains_key(self@),
        ensures
            res == store@[self@].dom().len(),
    {
        crate::wasm_avl::avl_tree_len(store, self.tree_id)
    }

    /// Whether the map holds no key.
    pub fn is_empty(&self, store: &AvlStore) -> (res: bool)
        requires
            store.wf(),
            store@.contains_key(self@),
        ensures
            res == (store@[self@].dom().len() == 0),
    {
        self.len(store) == 0
    }

    /// An iterator over the entries of the map, in the order of their key bytes.
    pub fn iter(&self) -> (res: AvlIterator<K, V>)
        ensures
            res@ == (self@, None::<Seq<u8>>),
    {
        AvlIterator {
            prev_key: None,
            key_type: PhantomData,
            value_type: PhantomData,
            tree_id: self.tree_id,
        }
    }
}

impl<K, V> DeepView for AvlTreeMap<K, V> {
    type V = i32;

    open spec fn deep_view(&self) -> i32 {
        self@
    }
}

impl<K, V> ReadWriteState for AvlTreeMap<K, V> {
    open spec fn state_bytes(&self) -> Seq<u8> {
        le_bytes((self@ as u32) as nat, 4)
    }

    open spec fn state_representable(&self) -> bool {
        true
    }

    open spec fn state_parse(data: Seq<u8>) -> Option<(i32, nat)> {
        <i32 as ReadWriteState>::state_parse(data)
    }

    fn state_read_from(reader: &mut &[u8]) -> (res: Self) {
        let tree_id = <i32 as ReadWriteState>::state_read_from(reader);
        AvlTreeMap { key_type: PhantomData, value_type: PhantomData, tree_id }
    }

    fn state_write_to(&self, writer: &mut Vec<u8>) {
        self.tree_id.state_write_to(writer);
    }

    proof fn lemma_state_roundtrip(&self, rest: Seq<u8>) {
        self.tree_id.lemma_state_roundtrip(rest);
    }
}

/// An iterator over the entries of an [`AvlTreeMap`], in the order of their key
/// bytes. It remembers the bytes of the last key it gave.
pub struct AvlIterator<K, V> {
    prev_key: Option<Vec<u8>>,
    key_type: PhantomData<K>,
    value_type: PhantomData<V>,
    tree_id: i32,
}

impl<K, V> View for AvlIterator<K, V> {
    type V = (i32, Option<Seq<u8>>);

    /// The tree's id, and the bytes of the last key given.
    closed spec fn view(&self) -> (i32, Option<Seq<u8>>) {
        (
            self.tree_id,
            match self.prev_key {
                None => None,
                Some(k) => Some(k@),
            },
        )
    }
}

impl<K, V> StateCanonical for AvlTreeMap<K, V> {
    open spec fn view_state_bytes(v: i32) -> Seq<u8> {
        v.state_bytes()
    }

    proof fn lemma_bytes_follow_view(&self) {
    }

    proof fn lemma_read_bytes_are_canonical(data: Seq<u8>) {
        <i32 as StateCanonical>::lemma_read_bytes_are_canonical(data);
    }
}

/// The entry after `after` in tree `m`, its key's bytes then its value's.
pub open spec fn next_entry_bytes(m: Map<Seq<u8>, Seq<u8>>, after: Option<Seq<u8>>) -> Seq<u8> {
    next_key(m, after) + m[next_key(m, after)]
}

impl<K: ReadWriteState, V: ReadWriteState> AvlIterator<K, V> {
    /// The entry after the last key given, where there is one: its key and value
    /// read from the entry's bytes. `None` where there is none (or the entry takes
    /// `u32::MAX` bytes).
    pub fn next(&mut self, store: &AvlStore) -> (res: Option<(K, V)>)
        requires
            store.wf(),
            store@.contains_key(old(self)@.0),
            has_next_key(store@[old(self)@.0], old(self)@.1) ==> {
                let e = next_entry_bytes(store@[old(self)@.0], old(self)@.1);
                &&& e.len() <= usize::MAX
                &&& K::state_parse(e) is Some
                &&& V::state_parse(e.skip(K::state_parse(e)->Some_0.1 as int)) is Some
            },
        ensures
            final(self)@.0 == old(self)@.0,
            !has_next_key(store@[old(self)@.0], old(self)@.1) ==> res is None && final(self)@
                == old(self)@,
            has_next_key(store@[old(self)@.0], old(self)@.1) ==> {
                let e = next_entry_bytes(store@[old(self)@.0], old(self)@.1);
                let n = K::state_parse(e)->Some_0.1;
                &&& e.len() == absent_size() ==> res is None && final(self)@ == old(self)@
                &&& e.len() != absent_size() ==> (res matches Some((k, v)) && k.deep_view()
                    == K::state_parse(e)->Some_0.0 && v.deep_view() == V::state_parse(
                    e.skip(n as int),
                )->Some_0.0 && final(self)@.1 == Some(e.take(n as int)))
            },
    {
        let ghost m = store@[self@.0];
        let ghost after = self@.1;
        let size = match &self.prev_key {
            Some(k) => crate::wasm_avl::get_next_size(store, self.tree_id, Some(k.as_slice())),
            None => crate::wasm_avl::get_next_size(store, self.tree_id, None),
        };
        if size == 0xFFFF_FFFF {
            return None;
        }
        let mut entry_bytes = zeros(size);
        let found = match &self.prev_key {
            Some(k) => crate::wasm_avl::get_next(
                store,
                self.tree_id,
                Some(k.as_slice()),
                entry_bytes.as_mut_slice(),
            ),
            None => crate::wasm_avl::get_next(store, self.tree_id, None, entry_bytes.as_mut_slice()),
        };
        if !found {
            return None;
        }
        let ghost e = entry_bytes@;
        let mut reader = entry_bytes.as_slice();
        let key = K::state_read_from(&mut reader);
        let value_len = reader.len();
        let value = V::state_read_from(&mut reader);
        let total = entry_bytes.len();
        let (key_bytes, _) = entry_bytes.as_slice().split_at(total - value_len);
        assert(key_bytes@ =~= e.take(K::state_parse(e)->Some_0.1 as int));
        self.prev_key = Some(vstd::slice::slice_to_vec(key_bytes));
        Some((key, value))
    }
}

/// After `insert(key, value)` on the tree `tree` (whose store goes from
/// `before` to `after`), the key is present and its bytes read back as the
/// value; every other key, and every other tree, is as before; the tree has one
/// key more unless the key was present.
pub proof fn law_avl_get_after_insert<K: ReadWriteState, V: ReadWriteState>(
    before: crate::wasm_avl::StoreContents,
    after: crate::wasm_avl::StoreContents,
    tree: i32,
    key: K,
    value: V,
    other: Seq<u8>,
)
    requires
        before.contains_key(tree),
        after == before.insert(tree, before[tree].insert(key.state_bytes(), value.state_bytes())),
        value.state_representable(),
    ensures
        after.contains_key(tree),
        after[tree].contains_key(key.state_bytes()),
        after[tree][key.state_bytes()] == value.state_bytes(),
        V::state_parse(after[tree][key.state_bytes()]) == Some(
            (value.deep_view(), value.state_bytes().len()),
        ),
        other != key.state_bytes() ==> after[tree].contains_key(other) == before[tree].contains_key(
            other,
        ) && (before[tree].contains_key(other) ==> after[tree][other] == before[tree][other]),
        after.remove(tree) == before.remove(tree),
        before[tree].dom().finite() ==> after[tree].dom().len() == before[tree].dom().len() + (
        if before[tree].contains_key(key.state_bytes()) {
            0int
        } else {
            1int
        }),
{
    value.lemma_state_roundtrip(Seq::empty());
    assert(value.state_bytes() + Seq::<u8>::empty() =~= value.state_bytes());
    assert(after.remove(tree) =~= before.remove(tree));
    if before[tree].dom().finite() {
        assert(after[tree].dom() =~= before[tree].dom().insert(key.state_bytes()));
    }
}

/// After `remove(key)` on the tree `tree` (whose store goes from `before` to
/// `after`), the key is absent; every other key, and every other tree, is as
/// before; the tree has one key less if the key was present.
pub proof fn law_avl_remove_and_others(
    before: crate::wasm_avl::StoreContents,
    after: crate::wasm_avl::StoreContents,
    tree: i32,
    kb: Seq<u8>,
    other: Seq<u8>,
)
    requires
        before.contains_key(tree),
        after == before.insert(tree, before[tree].remove(kb)),
    ensures
        after.contains_key(tree),
        !after[tree].contains_key(kb),
        other != kb ==> after[tree].contains_key(other) == before[tree].contains_key(other) && (
        before[tree].contains_key(other) ==> after[tree][other] == before[tree][other]),
        after.remove(tree) == before.remove(tree),
        before[tree].dom().finite() ==> after[tree].dom().len() == before[tree].dom().len() - (
        if before[tree].contains_key(kb) {
            1int
        } else {
            0int
        }),
{
    assert(after.remove(tree) =~= before.remove(tree));
    if before[tree].dom().finite() {
        assert(after[tree].dom() =~= before[tree].dom().remove(kb));
    }
}

/// What one call of `AvlIterator::next` does, as its contract gives it: on
/// tree `m`, from the last key `last`, whether it returns an entry (`got`) and
/// the last key after it (`new_last`).
pub open spec fn iterator_step<K: ReadWriteState>(
    m: Map<Seq<u8>, Seq<u8>>,
    last: Option<Seq<u8>>,
    got: bool,
    new_last: Option<Seq<u8>>,
) -> bool {
    if !has_next_key(m, last) {
        !got && new_last == last
    } else {
        let e = next_entry_bytes(m, last);
        if e.len() == absent_size() {
            !got && new_last == last
        } else {
            got && new_last == Some(e.take(K::state_parse(e)->Some_0.1 as int))
        }
    }
}

/// The last key of an iterator over `m` after `i` calls of `next`: none at
/// first, then the keys in increasing order, then the greatest key for good.
pub open spec fn expected_last(m: Map<Seq<u8>, Seq<u8>>, i: int) -> Option<Seq<u8>> {
    if i == 0 || m.dom().len() == 0 {
        None
    } else if i <= m.dom().len() {
        Some(iteration_keys(m, None, m.dom().len())[i - 1])
    } else {
        Some(iteration_keys(m, None, m.dom().len())[m.dom().len() - 1])
    }
}

/// Repeated calls of `AvlIterator::next` from a fresh iterator over a tree `m`
/// that is not changed meanwhile (`lasts[i]` the iterator's last key before
/// call `i`, `got[i]` whether call `i` returned an entry): the first `n` calls,
/// `n` the number of keys, each return an entry, the `i`-th that of the `i`-th
/// key in increasing order of key bytes (so each entry once), and every later
/// call returns `None`. Each key's bytes must read as a key of type `K` that
/// takes exactly those bytes (as keys inserted through `AvlTreeMap` do), and no
/// entry may take `u32::MAX` bytes.
pub proof fn law_iterator_visits_each_entry_once_in_order<K: ReadWriteState>(
    m: Map<Seq<u8>, Seq<u8>>,
    lasts: Seq<Option<Seq<u8>>>,
    got: Seq<bool>,
)
    requires
        m.dom().finite(),
        forall|kb: Seq<u8>| #[trigger]
            m.contains_key(kb) ==> (K::state_parse(kb + m[kb]) matches Some((_, n)) && n == kb.len())
                && (kb + m[kb]).len() != absent_size(),
        lasts.len() == got.len() + 1,
        lasts[0] is None,
        forall|i: int|
            0 <= i < got.len() ==> iterator_step::<K>(m, lasts[i], #[trigger] got[i], lasts[i + 1]),
    ensures
        forall|i: int| 0 <= i < got.len() ==> #[trigger] got[i] == (i < m.dom().len()),
        forall|i: int|
            0 <= i < got.len() && i < m.dom().len() ==> #[trigger] lasts[i + 1] == Some(
                iteration_keys(m, None, m.dom().len())[i],
            ) && next_entry_bytes(m, lasts[i]) == iteration_keys(m, None, m.dom().len())[i]
                + m[iteration_keys(m, None, m.dom().len())[i]],
{
    let n = m.dom().len() as int;
    let keys = iteration_keys(m, None, m.dom().len());
    crate::wasm_avl::law_iteration_visits_each_key_once_in_order(m);
    assert forall|i: int|
        #![trigger got[i]]
        #![trigger lasts[i + 1]]
        0 <= i < got.len() implies got[i] == (i < n) && (i < n ==> lasts[i + 1] == Some(keys[i])
            && next_entry_bytes(m, lasts[i]) == keys[i] + m[keys[i]]) by {
        lemma_iterator_lasts::<K>(m, lasts, got, i);
        lemma_iterator_lasts::<K>(m, lasts, got, i + 1);
        lemma_iterator_one_step::<K>(m, lasts[i], i, got[i], lasts[i + 1]);
    }
}

proof fn lemma_iterator_one_step<K: ReadWriteState>(
    m: Map<Seq<u8>, Seq<u8>>,
    last: Option<Seq<u8>>,
    i: int,
    got: bool,
    new_last: Option<Seq<u8>>,
)
    requires
        m.dom().finite(),
        forall|kb: Seq<u8>| #[trigger]
            m.contains_key(kb) ==> (K::state_parse(kb + m[kb]) matches Some((_, n)) && n == kb.len())
                && (kb + m[kb]).len() != absent_size(),
        0 <= i,
        last == expected_last(m, i),
        iterator_step::<K>(m, last, got, new_last),
    ensures
        got == (i < m.dom().len()),
        i < m.dom().len() ==> new_last == Some(iteration_keys(m, None, m.dom().len())[i])
            && next_entry_bytes(m, last) == iteration_keys(m, None, m.dom().len())[i]
            + m[iteration_keys(m, None, m.dom().len())[i]],
        i >= m.dom().len() ==> new_last == last,
{
    let n = m.dom().len() as int;
    let keys = iteration_keys(m, None, m.dom().len());
    crate::wasm_avl::law_iteration_visits_each_key_once_in_order(m);
    if i < n {
        crate::wasm_avl::lemma_iteration_keys_step(m, None, m.dom().len(), i);
        let k = keys[i];
        assert(keys.contains(k));
        assert(m.contains_key(k));
        let e = next_entry_bytes(m, last);
        assert(e == k + m[k]);
        assert(e.take(k.len() as int) =~= k);
    } else {
        if n > 0 {
            assert(keys.last() == keys[n - 1]);
        }
    }
}

proof fn lemma_iterator_lasts<K: ReadWriteState>(
    m: Map<Seq<u8>, Seq<u8>>,
    lasts: Seq<Option<Seq<u8>>>,
    got: Seq<bool>,
    i: int,
)
    requires
        m.dom().finite(),
        forall|kb: Seq<u8>| #[trigger]
            m.contains_key(kb) ==> (K::state_parse(kb + m[kb]) matches Some((_, n)) && n == kb.len())
                && (kb + m[kb]).len() != absent_size(),
        lasts.len() == got.len() + 1,
        lasts[0] is None,
        forall|j: int|
            0 <= j < got.len() ==> iterator_step::<K>(m, lasts[j], #[trigger] got[j], lasts[j + 1]),
        0 <= i <= got.len(),
    ensures
        lasts[i] == expected_last(m, i),
    decreases i,
{
    if i > 0 {
        lemma_iterator_lasts::<K>(m, lasts, got, i - 1);
        assert(iterator_step::<K>(m, lasts[i - 1], got[i - 1], lasts[i]));
        lemma_iterator_one_step::<K>(m, lasts[i - 1], i - 1, got[i - 1], lasts[i]);
    }
}

} // verus!
