use pbc_sdk::avl_tree_map::AvlTreeMap;
use pbc_sdk::traits::ReadWriteState;
use pbc_sdk::wasm_avl::{deserialize_avl_tree, AvlStore};

fn collect_all<K: ReadWriteState, V: ReadWriteState>(
    tree: &AvlTreeMap<K, V>,
    store: &AvlStore,
) -> Vec<(K, V)> {
    let mut iter = tree.iter();
    let mut values = Vec::new();
    while let Some(entry) = iter.next(store) {
        values.push(entry);
    }
    values
}

#[test]
fn avl_tree_map_debug() {
    let mut store = AvlStore::new();
    let tree: AvlTreeMap<i32, u128> = AvlTreeMap::new(&mut store);

    assert_eq!(
        format!("{tree:?}"),
        "AvlTreeMap { key_type: PhantomData<i32>, value_type: PhantomData<u128>, tree_id: 0 }"
    );
}

#[test]
fn avl_tree_map() {
    let mut store = AvlStore::new();
    let tree: AvlTreeMap<i32, u128> = AvlTreeMap::new(&mut store);
    assert_eq!(tree.len(&store), 0);
    assert!(tree.is_empty(&store));
    tree.insert(&mut store, 1, 12);
    assert_eq!(tree.len(&store), 1);
    assert!(!tree.is_empty(&store));
    tree.insert(&mut store, 2, 42);
    assert_eq!(tree.len(&store), 2);
    assert!(!tree.is_empty(&store));
    assert_eq!(tree.get(&store, &1).unwrap(), 12);
    assert_eq!(tree.get(&store, &2).unwrap(), 42);
    assert_eq!(tree.get(&store, &3), None);

    tree.remove(&mut store, &2);

    assert_eq!(tree.get(&store, &2), None);

    assert!(!tree.contains_key(&store, &2));
    assert!(tree.contains_key(&store, &1));
}

#[test]
fn avl_tree_map_with_blobs() {
    let mut store = AvlStore::new();
    let tree: AvlTreeMap<i32, Vec<u8>> = AvlTreeMap::new(&mut store);
    assert_eq!(tree.len(&store), 0);
    assert!(tree.is_empty(&store));
    tree.insert(&mut store, 1, vec![0, 1, 2, 3]);
    assert_eq!(tree.len(&store), 1);
    assert!(!tree.is_empty(&store));
    tree.insert(&mut store, 2, vec![]);
    assert_eq!(tree.len(&store), 2);
    assert!(!tree.is_empty(&store));
    tree.insert(&mut store, 99, vec![0xFF; 1000]);
    assert_eq!(tree.len(&store), 3);
    assert!(!tree.is_empty(&store));
    assert_eq!(tree.get(&store, &1).unwrap(), vec![0, 1, 2, 3]);
    assert_eq!(tree.get(&store, &2).unwrap(), vec![]);
    assert_eq!(tree.get(&store, &3), None);
    assert_eq!(tree.get(&store, &98), None);
    assert_eq!(tree.get(&store, &99).unwrap(), vec![0xFF; 1000]);
    assert_eq!(tree.get(&store, &100), None);

    tree.remove(&mut store, &2);

    assert_eq!(tree.get(&store, &2), None);

    assert!(!tree.contains_key(&store, &2));
    assert!(tree.contains_key(&store, &1));
}

#[test]
fn avl_deserialize() {
    let mut store = AvlStore::new();
    let bytes: Vec<u8> = vec![
        1, 0, 0, 0, 1, 0, 0, 0, 0, 1, 1, 2, 0, 0, 0, 1, 1, 1, 0, 0, 0, 4, 1, 1, 0, 0, 0, 1, 1, 1,
        1, 0, 0, 0, 8, 1, 1, 0, 0, 0, 0,
    ];
    deserialize_avl_tree(&mut store, &mut bytes.as_slice());
    let tree: AvlTreeMap<u8, bool> = AvlTreeMap::state_read_from(&mut vec![0, 0, 0, 0].as_slice());

    assert!(tree.get(&store, &4).unwrap());
    assert!(!tree.get(&store, &8).unwrap());
    assert_eq!(tree.get(&store, &1), None);
}

#[test]
fn avl_iter() {
    let mut store = AvlStore::new();
    let tree: AvlTreeMap<i32, u128> = AvlTreeMap::new(&mut store);
    tree.insert(&mut store, 3, 32);
    tree.insert(&mut store, 1, 12);
    tree.insert(&mut store, 4, 42);
    tree.insert(&mut store, 2, 22);
    tree.insert(&mut store, 256, 2562);
    tree.insert(&mut store, 257, 2572);
    let values: Vec<(i32, u128)> = collect_all(&tree, &store);
    assert_eq!(
        values,
        [(256, 2562), (1, 12), (257, 2572), (2, 22), (3, 32), (4, 42)]
    );
}

#[test]
fn avl_iter_too_much() {
    let mut store = AvlStore::new();
    let tree: AvlTreeMap<i32, i32> = AvlTreeMap::new(&mut store);
    tree.insert(&mut store, 3, 32);
    let mut iter = tree.iter();
    assert_eq!(iter.next(&store), Some((3, 32)));
    assert_eq!(iter.next(&store), None);
    assert_eq!(iter.next(&store), None);
    assert_eq!(iter.next(&store), None);
    assert_eq!(iter.next(&store), None);
    assert_eq!(iter.next(&store), None);
    assert_eq!(iter.next(&store), None);
    assert_eq!(iter.next(&store), None);
    assert_eq!(iter.next(&store), None);
}

#[test]
fn avl_iter_not_serializable_by_copy() {
    let mut store = AvlStore::new();
    let tree: AvlTreeMap<i32, Option<u128>> = AvlTreeMap::new(&mut store);
    tree.insert(&mut store, 3, Some(32));
    tree.insert(&mut store, 1, None);
    tree.insert(&mut store, 4, Some(42));
    tree.insert(&mut store, 2, Some(22));
    let values: Vec<(i32, Option<u128>)> = collect_all(&tree, &store);
    assert_eq!(
        values,
        [(1, None), (2, Some(22)), (3, Some(32)), (4, Some(42))]
    );
}

#[test]
fn new_trees_get_increasing_ids() {
    let mut store = AvlStore::new();
    let first: AvlTreeMap<u8, u8> = AvlTreeMap::new(&mut store);
    let second: AvlTreeMap<u8, u8> = AvlTreeMap::new(&mut store);
    let mut a = Vec::new();
    first.state_write_to(&mut a);
    let mut b = Vec::new();
    second.state_write_to(&mut b);
    assert_eq!(a, vec![0, 0, 0, 0]);
    assert_eq!(b, vec![1, 0, 0, 0]);
}

#[test]
fn trees_are_independent() {
    let mut store = AvlStore::new();
    let first: AvlTreeMap<u8, u8> = AvlTreeMap::new(&mut store);
    let second: AvlTreeMap<u8, u8> = AvlTreeMap::new(&mut store);
    first.insert(&mut store, 1, 10);
    second.insert(&mut store, 1, 20);
    first.insert(&mut store, 1, 11);
    assert_eq!(first.get(&store, &1), Some(11));
    assert_eq!(second.get(&store, &1), Some(20));
    assert_eq!(second.len(&store), 1);
}

#[test]
fn host_functions_on_raw_bytes() {
    let mut store = AvlStore::new();
    let id = pbc_sdk::wasm_avl::new(&mut store);
    pbc_sdk::wasm_avl::insert(&mut store, id, &[2], &[7, 7, 7]);
    pbc_sdk::wasm_avl::insert(&mut store, id, &[1, 5], &[9]);
    assert_eq!(pbc_sdk::wasm_avl::get_size(&store, id, &[2]), 3);
    assert_eq!(pbc_sdk::wasm_avl::get_size(&store, id, &[3]), u32::MAX as usize);
    assert_eq!(pbc_sdk::wasm_avl::avl_tree_len(&store, id), 2);
    let mut dest = [0u8; 3];
    assert!(pbc_sdk::wasm_avl::get(&store, id, &[2], &mut dest));
    assert_eq!(dest, [7, 7, 7]);
    assert_eq!(pbc_sdk::wasm_avl::get_next_size(&store, id, None), 3);
    let mut entry = [0u8; 3];
    assert!(pbc_sdk::wasm_avl::get_next(&store, id, None, &mut entry));
    assert_eq!(entry, [1, 5, 9]);
    let mut next = [0u8; 4];
    assert!(pbc_sdk::wasm_avl::get_next(&store, id, Some(&[1, 5]), &mut next));
    assert_eq!(next, [2, 7, 7, 7]);
    assert_eq!(pbc_sdk::wasm_avl::get_next_size(&store, id, Some(&[2])), u32::MAX as usize);
    pbc_sdk::wasm_avl::remove(&mut store, id, &[2]);
    assert_eq!(pbc_sdk::wasm_avl::avl_tree_len(&store, id), 1);
}
