//! The host's store of AVL trees: each tree, known by its id, maps keys to values,
//! both of them bytes. Keys are ordered byte by byte, a proper prefix first.
//!
//! The store is an explicit value that the caller hands to each operation.
use vstd::prelude::*;
use vstd::slice::slice_to_vec;

use crate::key_order::seq_lex_lt;
use crate::sorted_vec_map::SortedVecMap;
use crate::traits::{le_value, read_bytes, read_uint_le};

verus! {

/// The trees of a store: tree id to the map from key bytes to value bytes.
pub type StoreContents = Map<i32, Map<Seq<u8>, Seq<u8>>>;

/// A store of AVL trees.
pub struct AvlStore {
    trees: SortedVecMap<i32, SortedVecMap<Vec<u8>, Vec<u8>>>,
}

/// The map from key bytes to value bytes that a tree holds.
pub open spec fn tree_contents(t: SortedVecMap<Vec<u8>, Vec<u8>>) -> Map<Seq<u8>, Seq<u8>> {
    t.map().map_values(|v: Vec<u8>| v@)
}

impl View for AvlStore {
    type V = StoreContents;

    closed spec fn view(&self) -> StoreContents {
        self.trees.map().map_values(|t: SortedVecMap<Vec<u8>, Vec<u8>>| tree_contents(t))
    }
}

/// `k` lies after `after`: any key where `after` is `None`.
pub open spec fn is_after(after: Option<Seq<u8>>, k: Seq<u8>) -> bool {
    match after {
        None => true,
        Some(a) => seq_lex_lt(a, k),
    }
}

/// `k` is the least key of `m` that lies after `after`.
pub open spec fn is_next_key(m: Map<Seq<u8>, Seq<u8>>, after: Option<Seq<u8>>, k: Seq<u8>) -> bool {
    &&& m.contains_key(k)
    &&& is_after(after, k)
    &&& forall|k2: Seq<u8>|
        #[trigger] m.contains_key(k2) && is_after(after, k2) ==> k2 == k || seq_lex_lt(k, k2)
}

/// Some key of `m` lies after `after`.
pub open spec fn has_next_key(m: Map<Seq<u8>, Seq<u8>>, after: Option<Seq<u8>>) -> bool {
    exists|k: Seq<u8>| #[trigger] m.contains_key(k) && is_after(after, k)
}

/// The least key of `m` that lies after `after`, where there is one.
pub open spec fn next_key(m: Map<Seq<u8>, Seq<u8>>, after: Option<Seq<u8>>) -> Seq<u8> {
    choose|k: Seq<u8>| is_next_key(m, after, k)
}

/// The bytes of an optional key.
pub open spec fn opt_bytes(key_bytes: Option<&[u8]>) -> Option<Seq<u8>> {
    match key_bytes {
        None => None,
        Some(k) => Some(k@),
    }
}

/// The id that a new tree gets: one more than the greatest id, or 0 in an empty
/// store.
pub open spec fn is_next_tree_id(contents: StoreContents, id: int) -> bool {
    &&& contents.dom().is_empty() ==> id == 0
    &&& !contents.dom().is_empty() ==> contents.contains_key((id - 1) as i32) && id - 1 < i32::MAX
    &&& forall|t: i32| #[trigger] contents.contains_key(t) ==> t < id
}

/// The number that the host answers for a size where there is nothing.
pub open spec fn absent_size() -> usize {
    0xFFFF_FFFF
}

/// The map of a tree's entries from its serialized form; where a key occurs
/// more than once, the last entry wins.
pub open spec fn entries_map(es: Seq<(Seq<u8>, Seq<u8>)>) -> Map<Seq<u8>, Seq<u8>>
    decreases es.len(),
{
    if es.len() == 0 {
        Map::empty()
    } else {
        entries_map(es.drop_last()).insert(es.last().0, es.last().1)
    }
}

/// A store after the serialized trees are put into it, one after another; each
/// replaces any tree of the same id.
pub open spec fn apply_dump(m: StoreContents, trees: Seq<(i32, Seq<(Seq<u8>, Seq<u8>)>)>) -> StoreContents
    decreases trees.len(),
{
    if trees.len() == 0 {
        m
    } else {
        apply_dump(m, trees.drop_last()).insert(trees.last().0, entries_map(trees.last().1))
    }
}

/// One serialized entry: 2 bytes that are skipped, the key's length in 4 bytes,
/// the key, 1 byte that is skipped, the value's length in 4 bytes, the value.
pub open spec fn dump_entry_parse(d: Seq<u8>) -> Option<((Seq<u8>, Seq<u8>), nat)> {
    if d.len() < 6 {
        None
    } else {
        let klen = (le_value(d.subrange(2, 6)) as u32) as int;
        if d.len() < 11 + klen {
            None
        } else {
            let vlen = (le_value(d.subrange(7 + klen, 11 + klen)) as u32) as int;
            if d.len() < 11 + klen + vlen {
                None
            } else {
                Some(
                    (
                        (d.subrange(6, 6 + klen), d.subrange(11 + klen, 11 + klen + vlen)),
                        (11 + klen + vlen) as nat,
                    ),
                )
            }
        }
    }
}

/// `count` serialized entries, one after another.
pub open spec fn dump_entries_parse(d: Seq<u8>, count: nat) -> Option<
    (Seq<(Seq<u8>, Seq<u8>)>, nat),
>
    decreases count,
{
    if count == 0 {
        Some((Seq::empty(), 0))
    } else {
        match dump_entry_parse(d) {
            None => None,
            Some((e, n)) => match dump_entries_parse(d.skip(n as int), (count - 1) as nat) {
                None => None,
                Some((es, m)) => Some((seq![e] + es, n + m)),
            },
        }
    }
}

/// One serialized tree: 1 byte that is skipped, the tree id in 4 bytes, 2 bytes
/// that are skipped, the number of entries in 4 bytes, the entries.
pub open spec fn dump_tree_parse(d: Seq<u8>) -> Option<((i32, Seq<(Seq<u8>, Seq<u8>)>), nat)> {
    if d.len() < 11 {
        None
    } else {
        let id = (le_value(d.subrange(1, 5)) as u32) as i32;
        let count = (le_value(d.subrange(7, 11)) as u32) as nat;
        match dump_entries_parse(d.skip(11), count) {
            None => None,
            Some((es, n)) => Some(((id, es), 11 + n)),
        }
    }
}

/// `count` serialized trees, one after another.
pub open spec fn dump_trees_parse(d: Seq<u8>, count: nat) -> Option<
    (Seq<(i32, Seq<(Seq<u8>, Seq<u8>)>)>, nat),
>
    decreases count,
{
    if count == 0 {
        Some((Seq::empty(), 0))
    } else {
        match dump_tree_parse(d) {
            None => None,
            Some((t, n)) => match dump_trees_parse(d.skip(n as int), (count - 1) as nat) {
                None => None,
                Some((ts, m)) => Some((seq![t] + ts, n + m)),
            },
        }
    }
}

/// A serialized store: the number of trees in 4 bytes, then the trees.
pub open spec fn avl_dump_parse(d: Seq<u8>) -> Option<
    (Seq<(i32, Seq<(Seq<u8>, Seq<u8>)>)>, nat),
> {
    if d.len() < 4 {
        None
    } else {
        match dump_trees_parse(d.skip(4), (le_value(d.take(4)) as u32) as nat) {
            None => None,
            Some((ts, n)) => Some((ts, 4 + n)),
        }
    }
}

impl AvlStore {
    /// Every tree's keys are sorted, and so are the tree ids.
    pub closed spec fn wf(&self) -> bool {
        &&& self.trees.wf()
        &&& forall|id: i32| #[trigger] self.trees.map().contains_key(id) ==> self.trees.map()[id].wf()
    }

    /// An empty store.
    pub fn new() -> (res: AvlStore)
        ensures
            res.wf(),
            res@ == StoreContents::empty(),
    {
        let res = AvlStore { trees: SortedVecMap::new() };
        proof {
            crate::sorted_vec_map::lemma_empty_map(res.trees);
        }
        assert(res@ =~= StoreContents::empty());
        res
    }

    /// Every tree of a well-formed store holds finitely many keys.
    pub proof fn lemma_trees_finite(&self, tree_id: i32)
        requires
            self.wf(),
            self@.contains_key(tree_id),
        ensures
            self@[tree_id].dom().finite(),
    {
        let t = self.trees.map()[tree_id];
        crate::sorted_vec_map::map::law_map_len_is_key_count(t);
        assert(self@[tree_id].dom() =~= t.map().dom());
    }

    /// Whether the store holds a tree of the given id.
    pub fn contains_tree(&self, tree_id: i32) -> (res: bool)
        requires
            self.wf(),
        ensures
            res == self@.contains_key(tree_id),
    {
        self.trees.contains_key(&tree_id)
    }
}

/// Creates a new, empty tree, and returns its id: one more than the greatest id
/// in the store, or 0 in an empty store.
pub fn new(store: &mut AvlStore) -> (res: i32)
    requires
        old(store).wf(),
        !old(store)@.contains_key(i32::MAX),
    ensures
        final(store).wf(),
        is_next_tree_id(old(store)@, res as int),
        final(store)@ == old(store)@.insert(res, Map::empty()),
{
    let id: i32 = match store.trees.last_key_value() {
        None => 0,
        Some((k, _)) => {
            proof {
                crate::sorted_vec_map::lemma_last_is_greatest(store.trees);
            }
            *k + 1
        },
    };
    proof {
        assert(old(store)@.dom() =~= store.trees.map().dom());
        if store.trees@.len() == 0 {
            crate::sorted_vec_map::lemma_empty_map(store.trees);
            assert(old(store)@.dom() =~= Set::<i32>::empty());
        } else {
            crate::sorted_vec_map::lemma_last_is_greatest(store.trees);
            assert(old(store)@.dom().contains(store.trees@.last().0));
        }
    }
    let ghost old_trees = store.trees.map();
    let empty: SortedVecMap<Vec<u8>, Vec<u8>> = SortedVecMap::new();
    proof {
        crate::sorted_vec_map::lemma_empty_map(empty);
        assert(tree_contents(empty) =~= Map::empty());
    }
    store.trees.insert(id, empty);
    assert(store@ =~= old(store)@.insert(id, Map::empty()));
    id
}

/// Looks a key up in a tree. Where it is there, its value is copied into
/// `destination`, which must have the value's length, and `true` is returned.
pub fn get(store: &AvlStore, tree_id: i32, key_bytes: &[u8], destination: &mut [u8]) -> (res: bool)
    requires
        store.wf(),
        store@.contains_key(tree_id),
        store@[tree_id].contains_key(key_bytes@) ==> old(destination)@.len()
            == store@[tree_id][key_bytes@].len(),
    ensures
        res == store@[tree_id].contains_key(key_bytes@),
        res ==> final(destination)@ == store@[tree_id][key_bytes@],
        !res ==> final(destination)@ == old(destination)@,
{
    let key = slice_to_vec(key_bytes);
    match store.trees.get(&tree_id) {
        None => false,
        Some(tree) => match tree.get(&key) {
            None => false,
            Some(value) => {
                copy_into(destination, value.as_slice());
                true
            },
        },
    }
}

/// Copies `src` into `dst`, of the same length.
fn copy_into(dst: &mut [u8], src: &[u8])
    requires
        old(dst)@.len() == src@.len(),
    ensures
        final(dst)@ == src@,
{
    let mut i: usize = 0;
    while i < src.len()
        invariant
            i <= src@.len(),
            dst@.len() == src@.len(),
            forall|j: int| 0 <= j < i ==> dst@[j] == src@[j],
        decreases src@.len() - i,
    {
        dst[i] = src[i];
        i = i + 1;
    }
    assert(dst@ =~= src@);
}

/// Inserts a key and its value into a tree, replacing any value of that key.
pub fn insert(store: &mut AvlStore, tree_id: i32, key_bytes: &[u8], value_bytes: &[u8])
    requires
        old(store).wf(),
        old(store)@.contains_key(tree_id),
    ensures
        final(store).wf(),
        final(store)@ == old(store)@.insert(
            tree_id,
            old(store)@[tree_id].insert(key_bytes@, value_bytes@),
        ),
{
    let key = slice_to_vec(key_bytes);
    let value = slice_to_vec(value_bytes);
    let ghost old_tree = store.trees.map()[tree_id];
    match store.trees.get_mut(&tree_id) {
        None => {},
        Some(tree) => {
            tree.insert(key, value);
        },
    }
    assert(tree_contents(store.trees.map()[tree_id]) =~= tree_contents(old_tree).insert(
        key_bytes@,
        value_bytes@,
    ));
    assert(store@ =~= old(store)@.insert(
        tree_id,
        old(store)@[tree_id].insert(key_bytes@, value_bytes@),
    ));
}

/// Removes a key and its value from a tree, where it is there.
pub fn remove(store: &mut AvlStore, tree_id: i32, key_bytes: &[u8])
    requires
        old(store).wf(),
        old(store)@.contains_key(tree_id),
    ensures
        final(store).wf(),
        final(store)@ == old(store)@.insert(tree_id, old(store)@[tree_id].remove(key_bytes@)),
{
    let key = slice_to_vec(key_bytes);
    let ghost old_tree = store.trees.map()[tree_id];
    match store.trees.get_mut(&tree_id) {
        None => {},
        Some(tree) => {
            tree.remove(&key);
        },
    }
    assert(tree_contents(store.trees.map()[tree_id]) =~= tree_contents(old_tree).remove(
        key_bytes@,
    ));
    assert(store@ =~= old(store)@.insert(tree_id, old(store)@[tree_id].remove(key_bytes@)));
}

/// The length of the value of a key in a tree; `u32::MAX` where the key is not
/// there.
pub fn get_size(store: &AvlStore, tree_id: i32, key_bytes: &[u8]) -> (res: usize)
    requires
        store.wf(),
        store@.contains_key(tree_id),
    ensures
        store@[tree_id].contains_key(key_bytes@) ==> res == store@[tree_id][key_bytes@].len(),
        !store@[tree_id].contains_key(key_bytes@) ==> res == absent_size(),
{
    let key = slice_to_vec(key_bytes);
    match store.trees.get(&tree_id) {
        None => 0xFFFF_FFFF,
        Some(tree) => match tree.get(&key) {
            None => 0xFFFF_FFFF,
            Some(value) => value.len(),
        },
    }
}

/// The number of keys in a tree.
pub fn avl_tree_len(store: &AvlStore, tree_id: i32) -> (res: usize)
    requires
        store.wf(),
        store@.contains_key(tree_id),
    ensures
        res == store@[tree_id].dom().len(),
{
    match store.trees.get(&tree_id) {
        None => 0,
        Some(tree) => {
            proof {
                crate::sorted_vec_map::law_map_len_is_key_count(*tree);
                assert(tree_contents(*tree).dom() =~= tree.map().dom());
            }
            tree.len()
        },
    }
}

/// The entry of a tree with the least key after `key_bytes` (after nothing where
/// it is `None`).
fn next_entry<'a>(tree: &'a SortedVecMap<Vec<u8>, Vec<u8>>, key_bytes: Option<&[u8]>) -> (res:
    Option<(&'a Vec<u8>, &'a Vec<u8>)>)
    requires
        tree.wf(),
    ensures
        match res {
            Some((k, v)) => is_next_key(tree_contents(*tree), opt_bytes(key_bytes), k@)
                && tree_contents(*tree)[k@] == v@,
            None => !has_next_key(tree_contents(*tree), opt_bytes(key_bytes)),
        },
{
    match key_bytes {
        Some(kb) => {
            let key = slice_to_vec(kb);
            tree.first_after(&key)
        },
        None => {
            let res = tree.first_key_value();
            proof {
                if tree@.len() == 0 {
                    crate::sorted_vec_map::lemma_empty_map(*tree);
                } else {
                    crate::sorted_vec_map::lemma_first_is_least(*tree);
                }
            }
            res
        },
    }
}

/// Copies the entry of a tree with the least key after `key_bytes` (after nothing
/// where it is `None`) into `destination`: its key, then its value. Returns
/// whether there is such an entry.
pub fn get_next(
    store: &AvlStore,
    tree_id: i32,
    key_bytes: Option<&[u8]>,
    destination: &mut [u8],
) -> (res: bool)
    requires
        store.wf(),
        store@.contains_key(tree_id),
        has_next_key(store@[tree_id], opt_bytes(key_bytes)) ==> old(destination)@.len() == next_key(
            store@[tree_id],
            opt_bytes(key_bytes),
        ).len() + store@[tree_id][next_key(store@[tree_id], opt_bytes(key_bytes))].len(),
    ensures
        res == has_next_key(store@[tree_id], opt_bytes(key_bytes)),
        res ==> is_next_key(
            store@[tree_id],
            opt_bytes(key_bytes),
            next_key(store@[tree_id], opt_bytes(key_bytes)),
        ),
        res ==> final(destination)@ == next_key(store@[tree_id], opt_bytes(key_bytes))
            + store@[tree_id][next_key(store@[tree_id], opt_bytes(key_bytes))],
        !res ==> final(destination)@ == old(destination)@,
{
    match store.trees.get(&tree_id) {
        None => false,
        Some(tree) => match next_entry(tree, key_bytes) {
            None => false,
            Some((k, v)) => {
                proof {
                    lemma_next_key_unique(tree_contents(*tree), opt_bytes(key_bytes), k@);
                }
                let mut entry: Vec<u8> = Vec::new();
                crate::traits::write_bytes(&mut entry, k.as_slice());
                crate::traits::write_bytes(&mut entry, v.as_slice());
                copy_into(destination, entry.as_slice());
                true
            },
        },
    }
}

/// The length of the key and value of the entry of a tree with the least key
/// after `key_bytes` (after nothing where it is `None`); `u32::MAX` where there
/// is no such entry.
pub fn get_next_size(store: &AvlStore, tree_id: i32, key_bytes: Option<&[u8]>) -> (res: usize)
    requires
        store.wf(),
        store@.contains_key(tree_id),
        has_next_key(store@[tree_id], opt_bytes(key_bytes)) ==> next_key(
            store@[tree_id],
            opt_bytes(key_bytes),
        ).len() + store@[tree_id][next_key(store@[tree_id], opt_bytes(key_bytes))].len()
            <= usize::MAX,
    ensures
        has_next_key(store@[tree_id], opt_bytes(key_bytes)) ==> res == next_key(
            store@[tree_id],
            opt_bytes(key_bytes),
        ).len() + store@[tree_id][next_key(store@[tree_id], opt_bytes(key_bytes))].len(),
        !has_next_key(store@[tree_id], opt_bytes(key_bytes)) ==> res == absent_size(),
{
    match store.trees.get(&tree_id) {
        None => 0xFFFF_FFFF,
        Some(tree) => match next_entry(tree, key_bytes) {
            None => 0xFFFF_FFFF,
            Some((k, v)) => {
                proof {
                    lemma_next_key_unique(tree_contents(*tree), opt_bytes(key_bytes), k@);
                }
                k.len() + v.len()
            },
        },
    }
}

/// The least key after a given one is unique.
pub proof fn lemma_next_key_unique(m: Map<Seq<u8>, Seq<u8>>, after: Option<Seq<u8>>, k: Seq<u8>)
    requires
        is_next_key(m, after, k),
    ensures
        has_next_key(m, after),
        next_key(m, after) == k,
{
    let c = next_key(m, after);
    assert(is_next_key(m, after, c));
    crate::key_order::lemma_seq_lex_order(k, c, k);
    crate::key_order::lemma_seq_lex_order(c, k, c);
}

/// Reads the entries of one serialized tree into a tree.
fn read_dump_entries(bytes: &mut &[u8], count: u32) -> (res: SortedVecMap<Vec<u8>, Vec<u8>>)
    requires
        dump_entries_parse(old(bytes)@, count as nat) is Some,
    ensures
        res.wf(),
        tree_contents(res) == entries_map(dump_entries_parse(old(bytes)@, count as nat)->Some_0.0),
        dump_entries_parse(old(bytes)@, count as nat)->Some_0.1 <= old(bytes)@.len(),
        final(bytes)@ == old(bytes)@.skip(dump_entries_parse(old(bytes)@, count as nat)->Some_0.1 as int),
{
    let ghost data = old(bytes)@;
    let mut tree: SortedVecMap<Vec<u8>, Vec<u8>> = SortedVecMap::new();
    let ghost mut done: Seq<(Seq<u8>, Seq<u8>)> = Seq::empty();
    let ghost mut consumed: nat = 0;
    proof {
        crate::sorted_vec_map::lemma_empty_map(tree);
        assert(tree_contents(tree) =~= Map::empty());
        assert(data.skip(0) =~= data);
    }
    let mut i: u32 = 0;
    while i < count
        invariant
            i <= count,
            tree.wf(),
            bytes@ == data.skip(consumed as int),
            consumed <= data.len(),
            dump_entries_parse(data, count as nat) is Some,
            dump_entries_parse(bytes@, (count - i) as nat) is Some,
            done + dump_entries_parse(bytes@, (count - i) as nat)->Some_0.0 == dump_entries_parse(
                data,
                count as nat,
            )->Some_0.0,
            consumed + dump_entries_parse(bytes@, (count - i) as nat)->Some_0.1 == dump_entries_parse(
                data,
                count as nat,
            )->Some_0.1,
            tree_contents(tree) == entries_map(done),
        decreases count - i,
    {
        let ghost d = bytes@;
        let ghost e = dump_entry_parse(d)->Some_0.0;
        let ghost n = dump_entry_parse(d)->Some_0.1;
        let ghost rest = dump_entries_parse(d.skip(n as int), (count - i - 1) as nat);
        let _skip = read_uint_le(bytes, 2);
        assert(d.skip(2).take(4) =~= d.subrange(2, 6));
        let klen = read_uint_le(bytes, 4) as u32;
        assert(bytes@ =~= d.skip(6));
        let key = read_bytes(bytes, klen as usize);
        assert(bytes@ =~= d.skip(6 + klen));
        let _marker = read_uint_le(bytes, 1);
        assert(bytes@ =~= d.skip(7 + klen));
        assert(d.skip(7 + klen).take(4) =~= d.subrange(7 + klen, 11 + klen));
        let vlen = read_uint_le(bytes, 4) as u32;
        assert(bytes@ =~= d.skip(11 + klen));
        let value = read_bytes(bytes, vlen as usize);
        assert(d.skip(6).take(klen as int) =~= d.subrange(6, 6 + klen));
        assert(d.skip(11 + klen).take(vlen as int) =~= d.subrange(11 + klen, 11 + klen + vlen));
        assert(bytes@ =~= d.skip(n as int));
        let ghost old_tree = tree;
        tree.insert(key, value);
        proof {
            assert(tree_contents(tree) =~= tree_contents(old_tree).insert(e.0, e.1));
            let done2 = done.push(e);
            assert(done2.drop_last() =~= done);
            assert(done2 + rest->Some_0.0 =~= done + (seq![e] + rest->Some_0.0));
            assert(data.skip(consumed as int).skip(n as int) =~= data.skip((consumed + n) as int));
            done = done2;
            consumed = consumed + n;
        }
        i = i + 1;
    }
    assert(done + Seq::<(Seq<u8>, Seq<u8>)>::empty() =~= done);
    tree
}

/// Reads serialized trees into the store; each replaces any tree of the same id.
pub fn deserialize_avl_tree(store: &mut AvlStore, avl_tree_bytes: &mut &[u8])
    requires
        old(store).wf(),
        avl_dump_parse(old(avl_tree_bytes)@) is Some,
    ensures
        final(store).wf(),
        final(store)@ == apply_dump(old(store)@, avl_dump_parse(old(avl_tree_bytes)@)->Some_0.0),
        final(avl_tree_bytes)@ == old(avl_tree_bytes)@.skip(
            avl_dump_parse(old(avl_tree_bytes)@)->Some_0.1 as int,
        ),
{
    let ghost data = old(avl_tree_bytes)@;
    let count = read_uint_le(avl_tree_bytes, 4) as u32;
    let ghost data4 = avl_tree_bytes@;
    let ghost mut done: Seq<(i32, Seq<(Seq<u8>, Seq<u8>)>)> = Seq::empty();
    let ghost mut consumed: nat = 0;
    assert(data4.skip(0) =~= data4);
    let mut i: u32 = 0;
    while i < count
        invariant
            i <= count,
            store.wf(),
            data4 == data.skip(4),
            avl_tree_bytes@ == data4.skip(consumed as int),
            consumed <= data4.len(),
            dump_trees_parse(data4, count as nat) is Some,
            dump_trees_parse(avl_tree_bytes@, (count - i) as nat) is Some,
            done + dump_trees_parse(avl_tree_bytes@, (count - i) as nat)->Some_0.0
                == dump_trees_parse(data4, count as nat)->Some_0.0,
            consumed + dump_trees_parse(avl_tree_bytes@, (count - i) as nat)->Some_0.1
                == dump_trees_parse(data4, count as nat)->Some_0.1,
            store@ == apply_dump(old(store)@, done),
        decreases count - i,
    {
        let ghost d = avl_tree_bytes@;
        let ghost t = dump_tree_parse(d)->Some_0.0;
        let ghost n = dump_tree_parse(d)->Some_0.1;
        let ghost rest = dump_trees_parse(d.skip(n as int), (count - i - 1) as nat);
        let _marker = read_uint_le(avl_tree_bytes, 1);
        let tree_id = read_uint_le(avl_tree_bytes, 4) as u32 as i32;
        assert(d.skip(1).take(4) =~= d.subrange(1, 5));
        let _markers = read_uint_le(avl_tree_bytes, 2);
        let inner_count = read_uint_le(avl_tree_bytes, 4) as u32;
        assert(d.skip(1).skip(4).skip(2).take(4) =~= d.subrange(7, 11));
        assert(avl_tree_bytes@ =~= d.skip(11));
        let tree = read_dump_entries(avl_tree_bytes, inner_count);
        assert(d.skip(11).skip(n - 11) =~= d.skip(n as int));
        assert(avl_tree_bytes@ =~= d.skip(n as int));
        let ghost old_store = store@;
        store.trees.insert(tree_id, tree);
        proof {
            let done2 = done.push(t);
            assert(done2.drop_last() =~= done);
            assert(store@ =~= old_store.insert(tree_id, tree_contents(tree)));
            assert(done2 + rest->Some_0.0 =~= done + (seq![t] + rest->Some_0.0));
            assert(data4.skip(consumed as int).skip(n as int) =~= data4.skip((consumed + n) as int));
            done = done2;
            consumed = consumed + n;
        }
        i = i + 1;
    }
    assert(done + Seq::<(i32, Seq<(Seq<u8>, Seq<u8>)>)>::empty() =~= done);
    assert(data.skip(4).skip(consumed as int) =~= data.skip((4 + consumed) as int));
}

/// A new tree's id is held by no tree of the store, so creating a tree never
/// replaces one.
pub proof fn law_new_tree_id_is_fresh(contents: StoreContents, id: i32)
    requires
        is_next_tree_id(contents, id as int),
    ensures
        !contents.contains_key(id),
{
}

/// Iteration moves forward: the next key lies after the last one, and no key
/// of the tree lies between them.
pub proof fn law_next_key_moves_forward(m: Map<Seq<u8>, Seq<u8>>, last: Seq<u8>, k: Seq<u8>, between: Seq<u8>)
    requires
        is_next_key(m, Some(last), k),
        m.contains_key(between),
        seq_lex_lt(last, between),
    ensures
        seq_lex_lt(last, k),
        between == k || seq_lex_lt(k, between),
{
}

/// The keys of `m` that lie after `after`.
pub open spec fn keys_after(m: Map<Seq<u8>, Seq<u8>>, after: Option<Seq<u8>>) -> Set<Seq<u8>> {
    m.dom().filter(|k: Seq<u8>| is_after(after, k))
}

/// The keys that an iteration from `after` visits, at most `fuel` of them: the
/// next key, then the keys from that one on.
pub open spec fn iteration_keys(m: Map<Seq<u8>, Seq<u8>>, after: Option<Seq<u8>>, fuel: nat) -> Seq<
    Seq<u8>,
>
    decreases fuel,
{
    if fuel == 0 || !has_next_key(m, after) {
        Seq::empty()
    } else {
        seq![next_key(m, after)] + iteration_keys(m, Some(next_key(m, after)), (fuel - 1) as nat)
    }
}

/// A finite, non-empty set of keys has a least one.
proof fn lemma_least_key_exists(s: Set<Seq<u8>>)
    requires
        s.finite(),
        s.len() > 0,
    ensures
        exists|k: Seq<u8>|
            s.contains(k) && forall|k2: Seq<u8>| #[trigger] s.contains(k2) ==> k2 == k || seq_lex_lt(k, k2),
    decreases s.len(),
{
    let x = s.choose();
    let rest = s.remove(x);
    if rest.len() == 0 {
        assert forall|k2: Seq<u8>| #[trigger] s.contains(k2) implies k2 == x || seq_lex_lt(x, k2) by {
            if k2 != x {
                assert(rest.contains(k2));
            }
        }
    } else {
        lemma_least_key_exists(rest);
        let y = choose|k: Seq<u8>|
            rest.contains(k) && forall|k2: Seq<u8>| #[trigger] rest.contains(k2) ==> k2 == k || seq_lex_lt(k, k2);
        crate::key_order::lemma_seq_lex_order(x, y, x);
        if seq_lex_lt(x, y) {
            assert forall|k2: Seq<u8>| #[trigger] s.contains(k2) implies k2 == x || seq_lex_lt(x, k2) by {
                if k2 != x {
                    assert(rest.contains(k2));
                    crate::key_order::lemma_seq_lex_order(x, y, k2);
                }
            }
        } else {
            assert forall|k2: Seq<u8>| #[trigger] s.contains(k2) implies k2 == y || seq_lex_lt(y, k2) by {
                if k2 != x {
                    assert(rest.contains(k2));
                }
            }
        }
    }
}

proof fn lemma_iteration_keys(m: Map<Seq<u8>, Seq<u8>>, after: Option<Seq<u8>>, n: nat)
    requires
        m.dom().finite(),
        keys_after(m, after).len() == n,
    ensures
        iteration_keys(m, after, n).len() == n,
        forall|k: Seq<u8>|
            keys_after(m, after).contains(k) <==> #[trigger] iteration_keys(m, after, n).contains(k),
        forall|i: int, j: int|
            0 <= i < j < n ==> seq_lex_lt(
                #[trigger] iteration_keys(m, after, n)[i],
                #[trigger] iteration_keys(m, after, n)[j],
            ),
        !has_next_key(
            m,
            if n == 0 {
                after
            } else {
                Some(iteration_keys(m, after, n).last())
            },
        ),
    decreases n,
{
    let ka = keys_after(m, after);
    assert(ka.finite()) by {
        m.dom().lemma_len_filter(|k: Seq<u8>| is_after(after, k));
    }
    if n == 0 {
        assert forall|k: Seq<u8>| #[trigger] m.contains_key(k) && is_after(after, k) implies false by {
            assert(ka.contains(k));
        }
        assert(iteration_keys(m, after, n) =~= Seq::<Seq<u8>>::empty());
    } else {
        lemma_least_key_exists(ka);
        let k = choose|k: Seq<u8>|
            ka.contains(k) && forall|k2: Seq<u8>| #[trigger] ka.contains(k2) ==> k2 == k || seq_lex_lt(k, k2);
        assert(is_next_key(m, after, k)) by {
            assert forall|k2: Seq<u8>| #[trigger] m.contains_key(k2) && is_after(after, k2) implies k2 == k
                || seq_lex_lt(k, k2) by {
                assert(ka.contains(k2));
            }
        }
        lemma_next_key_unique(m, after, k);
        let kb = keys_after(m, Some(k));
        assert(kb =~= ka.remove(k)) by {
            assert forall|k2: Seq<u8>| kb.contains(k2) implies ka.remove(k).contains(k2) by {
                crate::key_order::lemma_seq_lex_order(k, k, k2);
                if let Some(a) = after {
                    crate::key_order::lemma_seq_lex_order(a, k, k2);
                }
            }
            assert forall|k2: Seq<u8>| ka.remove(k).contains(k2) implies kb.contains(k2) by {
                assert(ka.contains(k2));
            }
        }
        lemma_iteration_keys(m, Some(k), (n - 1) as nat);
        let rest = iteration_keys(m, Some(k), (n - 1) as nat);
        let s = iteration_keys(m, after, n);
        assert(s == seq![k] + rest);
        assert forall|k2: Seq<u8>| ka.contains(k2) <==> #[trigger] s.contains(k2) by {
            if s.contains(k2) {
                let i = choose|i: int| 0 <= i < s.len() && s[i] == k2;
                if i > 0 {
                    assert(rest[i - 1] == k2);
                    assert(rest.contains(k2));
                }
            }
            if ka.contains(k2) && k2 != k {
                assert(kb.contains(k2));
                assert(rest.contains(k2));
                let i = choose|i: int| 0 <= i < rest.len() && rest[i] == k2;
                assert(s[i + 1] == k2);
            }
            if k2 == k {
                assert(s[0] == k);
            }
        }
        assert forall|i: int, j: int| 0 <= i < j < n implies seq_lex_lt(#[trigger] s[i], #[trigger] s[j]) by {
            if i == 0 {
                assert(s[j] == rest[j - 1]);
                assert(rest.contains(rest[j - 1]));
                assert(kb.contains(rest[j - 1]));
            } else {
                assert(s[i] == rest[i - 1] && s[j] == rest[j - 1]);
            }
        }
        if n > 1 {
            assert(s.last() == rest.last());
        }
    }
}

/// In an iteration, each key after the first is the next key after the one
/// before it, and the first is the next key after the start.
pub proof fn lemma_iteration_keys_step(m: Map<Seq<u8>, Seq<u8>>, after: Option<Seq<u8>>, fuel: nat, j: int)
    requires
        0 <= j < iteration_keys(m, after, fuel).len(),
    ensures
        j == 0 ==> has_next_key(m, after) && iteration_keys(m, after, fuel)[0] == next_key(m, after),
        j > 0 ==> has_next_key(m, Some(iteration_keys(m, after, fuel)[j - 1]))
            && iteration_keys(m, after, fuel)[j] == next_key(
            m,
            Some(iteration_keys(m, after, fuel)[j - 1]),
        ),
    decreases fuel,
{
    let s = iteration_keys(m, after, fuel);
    let k = next_key(m, after);
    let rest = iteration_keys(m, Some(k), (fuel - 1) as nat);
    assert(s == seq![k] + rest);
    if j > 0 {
        lemma_iteration_keys_step(m, Some(k), (fuel - 1) as nat, j - 1);
        assert(s[j] == rest[j - 1]);
        if j > 1 {
            assert(s[j - 1] == rest[j - 2]);
        } else {
            assert(rest[0] == next_key(m, Some(k)));
        }
    }
}

/// An iteration over a tree visits each of its keys once, in increasing order of
/// the key bytes, and has no key left after the last: starting from no key,
/// each step takes the least key after the one before (what
/// `AvlIterator::next` gives back).
pub proof fn law_iteration_visits_each_key_once_in_order(m: Map<Seq<u8>, Seq<u8>>)
    requires
        m.dom().finite(),
    ensures
        iteration_keys(m, None, m.dom().len()).len() == m.dom().len(),
        forall|k: Seq<u8>|
            m.contains_key(k) <==> #[trigger] iteration_keys(m, None, m.dom().len()).contains(k),
        forall|i: int, j: int|
            0 <= i < j < m.dom().len() ==> seq_lex_lt(
                #[trigger] iteration_keys(m, None, m.dom().len())[i],
                #[trigger] iteration_keys(m, None, m.dom().len())[j],
            ),
        !has_next_key(
            m,
            if m.dom().len() == 0 {
                None
            } else {
                Some(iteration_keys(m, None, m.dom().len()).last())
            },
        ),
{
    assert(keys_after(m, None) =~= m.dom());
    lemma_iteration_keys(m, None, m.dom().len());
}

} // verus!
