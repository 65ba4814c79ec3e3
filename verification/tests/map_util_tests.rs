use screeps_ai::common::map_util::{hash_map, hash_map_key, map_keys, map_keys_copied};
use std::collections::HashMap;

#[test]
fn hash_map_rekeys_and_maps_values() {
    let mut m: HashMap<u32, u32> = HashMap::new();
    m.insert(1, 10);
    m.insert(2, 20);
    let out = hash_map(&m, |k| k as u64 * 2, |v| *v + 1);
    let mut expected: HashMap<u64, u32> = HashMap::new();
    expected.insert(2, 11);
    expected.insert(4, 21);
    assert_eq!(out, expected);
}

#[test]
fn hash_map_merges_colliding_keys() {
    let mut m: HashMap<u32, u32> = HashMap::new();
    m.insert(1, 10);
    m.insert(2, 20);
    let out = hash_map(&m, |_| 0u8, |v| *v);
    assert_eq!(out.len(), 1);
    let v = out[&0];
    assert!(v == 10 || v == 20);
}

#[test]
fn hash_map_key_filters() {
    let mut m: HashMap<String, u32> = HashMap::new();
    m.insert("a".to_string(), 1);
    m.insert("bb".to_string(), 2);
    m.insert("ccc".to_string(), 3);
    let out = hash_map_key(&m, |k| k.len(), |len, v| if len == 2 { None } else { Some(*v * 10) });
    let mut expected: HashMap<usize, u32> = HashMap::new();
    expected.insert(1, 10);
    expected.insert(3, 30);
    assert_eq!(out, expected);
}

#[test]
fn map_keys_list_every_key_once() {
    let mut m: HashMap<u16, &str> = HashMap::new();
    m.insert(3, "c");
    m.insert(1, "a");
    m.insert(2, "b");
    let mut keys = map_keys_copied(&m);
    keys.sort();
    assert_eq!(keys, vec![1, 2, 3]);
    let mut refs: Vec<u16> = map_keys(&m).into_iter().copied().collect();
    refs.sort();
    assert_eq!(refs, vec![1, 2, 3]);
}
