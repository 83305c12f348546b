use pbc_sdk::key_order::KeyBound;
use pbc_sdk::sorted_vec_map::SortedVecMap;

fn setup_simple_map() -> SortedVecMap<u8, String> {
    let mut map: SortedVecMap<u8, String> = SortedVecMap::new();
    map.insert(1, "hello".to_string());
    map.insert(2, "world".to_string());
    map.insert(3, "123".to_string());
    map
}

#[test]
fn sorted_vec_map_clear() {
    let mut map = SortedVecMap::new();
    map.insert(1, 1);
    map.insert(2, 2);
    map.clear();
    assert!(map.get(&1).is_none());
    assert!(map.get(&2).is_none());
    assert_eq!(map.len(), 0);
}

#[test]
fn sorted_vec_map_get() {
    let map = setup_simple_map();
    assert_eq!(map.get(&1), Some(&"hello".to_string()));
    assert_eq!(map.get(&2), Some(&"world".to_string()));
    assert_eq!(map.get(&3), Some(&"123".to_string()));
    assert_eq!(map.get(&4), None);
    assert_eq!(map.get(&0), None);
}

#[test]
fn get_key_value() {
    let map = setup_simple_map();
    assert_eq!(map.get_key_value(&1), Some((&1, &"hello".to_string())));
    assert_eq!(map.get_key_value(&2), Some((&2, &"world".to_string())));
    assert_eq!(map.get_key_value(&3), Some((&3, &"123".to_string())));
    assert_eq!(map.get_key_value(&4), None);
    assert_eq!(map.get_key_value(&0), None);
}

#[test]
fn first_key_value() {
    let map: SortedVecMap<u8, String> = SortedVecMap::new();
    assert!(map.first_key_value().is_none());
    let map = setup_simple_map();
    assert_eq!(map.first_key_value(), Some((&1, &"hello".to_string())));
    assert_eq!(map.len(), 3);
}

#[test]
fn sorted_vec_map_pop_first() {
    let mut map: SortedVecMap<u8, String> = SortedVecMap::new();
    assert!(map.pop_first().is_none());
    let mut map = setup_simple_map();
    assert_eq!(map.len(), 3);
    assert_eq!(map.pop_first(), Some((1, "hello".to_string())));
    assert_eq!(map.len(), 2);
}

#[test]
fn last_key_value() {
    let map: SortedVecMap<u8, String> = SortedVecMap::new();
    assert!(map.last_key_value().is_none());
    let map = setup_simple_map();
    assert_eq!(map.last_key_value(), Some((&3, &"123".to_string())));
    assert_eq!(map.len(), 3);
}

#[test]
fn sorted_vec_map_pop_last() {
    let mut map: SortedVecMap<u8, String> = SortedVecMap::new();
    assert!(map.pop_last().is_none());
    let mut map = setup_simple_map();
    assert_eq!(map.len(), 3);
    assert_eq!(map.pop_last(), Some((3, "123".to_string())));
    assert_eq!(map.len(), 2);
}

#[test]
fn contains_key() {
    let map = setup_simple_map();
    assert!(map.contains_key(&1));
    assert!(!map.contains_key(&4));
}

#[test]
fn get_mut() {
    let mut map = setup_simple_map();
    assert!(map.get_mut(&4).is_none());
    let reference = map.get_mut(&3);
    assert!(reference.is_some());
    let reference = reference.unwrap();
    *reference = "awesome".to_string();

    assert_eq!(*map.get(&3).unwrap(), "awesome".to_string());
}

#[test]
fn sorted_vec_map_remove() {
    let mut map = setup_simple_map();
    assert!(map.remove(&4).is_none());
    assert_eq!(map.len(), 3);
    let removed = map.remove(&1);
    assert_eq!(map.len(), 2);
    assert!(removed.is_some());
    assert_eq!(removed.unwrap(), "hello".to_string());
}

#[test]
fn remove_entry() {
    let mut map = setup_simple_map();
    assert!(map.remove_entry(&4).is_none());
    assert_eq!(map.len(), 3);
    let removed = map.remove_entry(&1);
    assert_eq!(map.len(), 2);
    assert!(removed.is_some());
    assert_eq!(removed.unwrap(), (1, "hello".to_string()));
}

#[test]
fn sorted_vec_map_retain() {
    let mut map = SortedVecMap::new();
    map.insert(1, 5);
    map.insert(2, 20);
    map.insert(3, 10);
    map.insert(4, 40);
    map.retain(|k, v| v <= &mut 10 && k > &1);
    assert_eq!(map.len(), 1);
    assert_eq!(*map.get(&3).unwrap(), 10);
    assert!(map.get(&1).is_none());
    assert!(map.get(&2).is_none());
    assert!(map.get(&4).is_none());
}

#[test]
fn sorted_vec_map_append() {
    let mut map = SortedVecMap::new();
    map.insert(1, "Should be replaced".to_string());
    map.insert(2, "Oh hi".to_string());
    let mut other = SortedVecMap::new();
    other.insert(1, "I replaced you".to_string());
    other.insert(3, "new element".to_string());
    map.append(&mut other);
    assert_eq!(map.len(), 3);
    assert_eq!(*map.get(&1).unwrap(), "I replaced you".to_string());
    assert_eq!(*map.get(&2).unwrap(), "Oh hi".to_string());
    assert_eq!(*map.get(&3).unwrap(), "new element".to_string());
}

#[test]
fn sorted_vec_map_range() {
    let mut map = SortedVecMap::new();
    map.insert(1, 1);
    map.insert(4, 2);
    map.insert(5, 3);
    map.insert(10, 4);
    let elements: Vec<(&i32, &i32)> = map.range(1..5);
    assert_eq!(elements.len(), 2);
    assert_eq!(elements[0], (&1, &1));
    assert_eq!(elements[1], (&4, &2));
}

#[test]
fn into_keys() {
    let map = setup_simple_map();
    let keys: Vec<u8> = map.into_keys();
    assert_eq!(keys.len(), 3);
    assert_eq!(keys, vec![1, 2, 3]);
}

#[test]
fn into_values() {
    let map = setup_simple_map();
    let keys: Vec<String> = map.into_values();
    assert_eq!(keys.len(), 3);
    assert_eq!(
        keys,
        vec!["hello".to_string(), "world".to_string(), "123".to_string()]
    );
}

#[test]
fn sorted_vec_map_iter() {
    let map = setup_simple_map();
    let mut iter = map.iter().into_iter();
    let (first_key, first_value) = iter.next().unwrap();
    assert_eq!(first_key, &1);
    assert_eq!(first_value, &"hello".to_string());
    let (second_key, second_value) = iter.next().unwrap();
    assert_eq!(second_key, &2);
    assert_eq!(second_value, &"world".to_string());
    let (third_key, third_value) = iter.next().unwrap();
    assert_eq!(third_key, &3);
    assert_eq!(third_value, &"123".to_string());
    assert!(iter.next().is_none());
}

#[test]
fn keys() {
    let map = setup_simple_map();
    let keys: Vec<&u8> = map.keys();
    assert_eq!(keys, [&1, &2, &3]);
}

#[test]
fn values() {
    let map = setup_simple_map();
    let values: Vec<&String> = map.values();
    assert_eq!(
        values,
        [
            &"hello".to_string(),
            &"world".to_string(),
            &"123".to_string()
        ]
    );
}

#[test]
fn sorted_vec_map_len() {
    let mut map = SortedVecMap::new();
    assert_eq!(map.len(), 0);
    map.insert(1, 1);
    assert_eq!(map.len(), 1);
    map.insert(2, 2);
    assert_eq!(map.len(), 2);
    map.remove(&3);
    assert_eq!(map.len(), 2);
    map.remove(&2);
    assert_eq!(map.len(), 1);
}

#[test]
fn sorted_vec_map_is_empty() {
    let mut map = SortedVecMap::new();
    assert!(map.is_empty());
    map.insert(1, 1);
    assert!(!map.is_empty());
}

#[test]
fn sorted_vec_map_from_tuples() {
    let map = SortedVecMap::from_vec(vec![(1, 1), (2, 20), (3, 3), (4, 40), (5, 5), (6, 60), (7, 7)]);

    let mut other = SortedVecMap::new();
    other.insert(1, 1);
    other.insert(2, 20);
    other.insert(3, 3);
    other.insert(4, 40);
    other.insert(5, 5);
    other.insert(6, 60);
    other.insert(7, 7);

    assert_eq!(map, other);
}

#[test]
fn from_vec_keeps_first_of_duplicates_and_sorts() {
    let map = SortedVecMap::from_vec(vec![(3, 30), (1, 10), (3, 31), (2, 20)]);
    assert_eq!(map.len(), 3);
    assert_eq!(map.keys(), [&1, &2, &3]);
    assert_eq!(*map.get(&3).unwrap(), 30);
}

#[test]
fn insert_replaces_and_returns_old_value() {
    let mut map = SortedVecMap::new();
    assert_eq!(map.insert(5u32, "a"), None);
    assert_eq!(map.insert(5u32, "b"), Some("a"));
    assert_eq!(map.len(), 1);
    assert_eq!(map.get(&5), Some(&"b"));
}

#[test]
fn range_with_start_after_end_is_empty() {
    let mut map = SortedVecMap::new();
    map.insert(1, 1);
    map.insert(4, 2);
    let elements: Vec<(&i32, &i32)> = map.range(5..1);
    assert!(elements.is_empty());
}

#[test]
fn byte_vector_keys_are_ordered_lexicographically() {
    let mut map = SortedVecMap::new();
    map.insert(vec![1u8, 0], 'b');
    map.insert(vec![1u8], 'a');
    map.insert(vec![0u8, 9, 9], 'c');
    let keys: Vec<&Vec<u8>> = map.keys();
    assert_eq!(keys, [&vec![0u8, 9, 9], &vec![1u8], &vec![1u8, 0]]);
}

#[test]
fn range_with_bounds() {
    let mut map = SortedVecMap::new();
    map.insert(1, 1);
    map.insert(4, 2);
    map.insert(5, 3);
    map.insert(10, 4);
    map.insert(11, 5);
    let elements: Vec<(&i32, &i32)> =
        map.range_bounds(&KeyBound::Excluded(4), &KeyBound::Included(10));
    assert_eq!(elements, vec![(&5, &3), (&10, &4)]);
    let all: Vec<(&i32, &i32)> = map.range_bounds(&KeyBound::Unbounded, &KeyBound::Unbounded);
    assert_eq!(all.len(), 5);
    let from: Vec<(&i32, &i32)> = map.range_bounds(&KeyBound::Included(10), &KeyBound::Unbounded);
    assert_eq!(from, vec![(&10, &4), (&11, &5)]);
    let none: Vec<(&i32, &i32)> =
        map.range_bounds(&KeyBound::Excluded(5), &KeyBound::Excluded(5));
    assert!(none.is_empty());
    let reversed: Vec<(&i32, &i32)> =
        map.range_bounds(&KeyBound::Included(10), &KeyBound::Included(1));
    assert!(reversed.is_empty());
}
