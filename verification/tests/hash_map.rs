use agb::hash_map::{Entry, HashMap, NodeStorage};
use agb::rng::RandomNumberGenerator;

#[test]
fn can_store_and_retrieve_8_elements() {
    let mut map = HashMap::new();
    for i in 0..8 {
        map.insert(i, i % 4);
    }
    for i in 0..8 {
        assert_eq!(map.get(&i), Some(&(i % 4)));
    }
}

#[test]
fn can_get_the_length() {
    let mut map = HashMap::new();
    for i in 0..8 {
        map.insert(i / 2, true);
    }
    assert_eq!(map.len(), 4);
}

#[test]
fn returns_none_if_element_does_not_exist() {
    let mut map = HashMap::new();
    for i in 0..8 {
        map.insert(i, i % 3);
    }
    assert_eq!(map.get(&12), None);
}

#[test]
fn can_delete_entries() {
    let mut map = HashMap::new();
    for i in 0..8 {
        map.insert(i, i % 3);
    }
    for i in 0..4 {
        map.remove(&i);
    }
    assert_eq!(map.len(), 4);
    assert_eq!(map.get(&3), None);
    assert_eq!(map.get(&7), Some(&1));
}

#[test]
fn can_iterate_through_all_entries() {
    let mut map = HashMap::new();
    for i in 0..8 {
        map.insert(i, i);
    }
    let mut max_found = -1;
    let mut num_found = 0;
    for (_, value) in map.iter() {
        max_found = max_found.max(*value);
        num_found += 1;
    }
    assert_eq!(num_found, 8);
    assert_eq!(max_found, 7);
}

#[test]
fn can_insert_more_than_initial_capacity() {
    let mut map = HashMap::new();
    for i in 0..65 {
        map.insert(i, i % 4);
    }
    for i in 0..65 {
        assert_eq!(map.get(&i), Some(&(i % 4)));
    }
    assert!(map.capacity() > 65);
}

#[test]
fn extreme_case() {
    let mut map = HashMap::new();
    let mut rng = RandomNumberGenerator::new();
    let mut answers: [Option<i32>; 128] = [None; 128];
    for _ in 0..5_000 {
        let command = rng.gen().rem_euclid(2);
        let key = rng.gen().rem_euclid(answers.len() as i32);
        let value = rng.gen();
        match command {
            0 => {
                answers[key as usize] = Some(value);
                map.insert(key, value);
            }
            _ => {
                answers[key as usize] = None;
                map.remove(&key);
            }
        }
        for (i, answer) in answers.iter().enumerate() {
            assert_eq!(map.get(&(i as i32)), answer.as_ref());
        }
    }
}

#[test]
fn insert_returns_the_replaced_value() {
    let mut map = HashMap::new();
    assert_eq!(map.insert(1, 10), None);
    assert_eq!(map.insert(1, 20), Some(10));
    assert_eq!(map.get_key_value(&1), Some((&1, &20)));
    assert!(map.contains_key(&1));
    assert_eq!(map.remove(&1), Some(20));
    assert_eq!(map.remove(&1), None);
    assert!(!map.contains_key(&1));
    assert!(map.is_empty());
}

#[test]
fn test_index_like_lookup() {
    let mut map = HashMap::new();
    map.insert(1, 2);
    map.insert(2, 1);
    map.insert(3, 4);
    assert_eq!(map.get(&2), Some(&1));
}

#[test]
fn string_keys() {
    let mut a = HashMap::new();
    let key = "hello there";
    let value = "value goes here";
    assert!(a.is_empty());
    a.insert(key, value);
    assert_eq!(a.len(), 1);
    assert_eq!(a.get(&key), Some(&value));
}

#[test]
fn capacities_grow_in_powers_of_two() {
    let map: HashMap<u32, u32> = HashMap::with_capacity(13);
    assert_eq!(map.capacity(), 27);
    let map: HashMap<u32, u32> = HashMap::with_capacity(0);
    assert_eq!(map.capacity(), 1);
    let map: HashMap<u32, u32> = HashMap::with_size(4);
    assert_eq!(map.capacity(), 3);
}

#[test]
fn clearing_keeps_the_slots() {
    let mut map = HashMap::with_size(8);
    for i in 0..5u8 {
        map.insert(i, ());
    }
    map.clear();
    assert!(map.is_empty());
    assert_eq!(map.capacity(), 6);
    assert_eq!(map.get(&1), None);
}

#[test]
fn the_table_works_with_any_hash() {
    let mut table: NodeStorage<u32, &str> = NodeStorage::with_size(4);
    assert_eq!(table.insert_hashed(5, "five", 7), None);
    assert_eq!(table.insert_hashed(9, "nine", 7), None);
    assert_eq!(table.insert_hashed(1, "one", 3), None);
    assert_eq!(table.get_hashed(&9, 7), Some(&"nine"));
    assert_eq!(table.get_hashed(&1, 3), Some(&"one"));
    assert_eq!(table.insert_hashed(9, "NINE", 7), Some("nine"));
    assert_eq!(table.remove_hashed(&5, 7), Some("five"));
    assert_eq!(table.get_hashed(&9, 7), Some(&"NINE"));
    assert_eq!(table.get_hashed(&1, 3), Some(&"one"));
    assert_eq!(table.get_key_value_hashed(&1, 3), Some((&1, &"one")));
    assert_eq!(table.len(), 2);
    assert_eq!(table.get_hashed(&9, 2), None);
}

#[test]
fn values_can_be_changed_in_place() {
    let mut map = HashMap::new();
    for i in 0..10u32 {
        map.insert(i, i * 10);
    }
    if let Some(v) = map.get_mut(&4) {
        *v += 1;
    }
    assert_eq!(map.get(&4), Some(&41));
    assert_eq!(map.get(&5), Some(&50));
    assert_eq!(map.get_mut(&42), None);
    assert_eq!(map.len(), 10);

    let mut table: NodeStorage<u32, u32> = NodeStorage::with_size(8);
    table.insert_hashed(3, 30, 1);
    *table.get_mut_hashed(&3, 1).unwrap() = 31;
    assert_eq!(table.get_hashed(&3, 1), Some(&31));
    assert!(table.get_mut_hashed(&3, 2).is_none());
}

#[test]
fn entry_or_insert_counts_words() {
    let mut counts: HashMap<&str, u32> = HashMap::new();
    for word in ["a", "b", "a", "c", "a", "b"] {
        *counts.entry(word).or_insert(0) += 1;
    }
    assert_eq!(counts.get(&"a"), Some(&3));
    assert_eq!(counts.get(&"b"), Some(&2));
    assert_eq!(counts.get(&"c"), Some(&1));
    assert_eq!(counts.len(), 3);
}

#[test]
fn entry_variants_and_their_methods() {
    let mut map: HashMap<u32, u32> = HashMap::new();
    map.insert(1, 10);
    match map.entry(1) {
        Entry::Occupied(mut e) => {
            assert_eq!(*e.key(), 1);
            assert_eq!(*e.get(), 10);
            *e.get_mut() += 1;
            assert_eq!(e.insert(20), 11);
            assert_eq!(*e.get(), 20);
        }
        Entry::Vacant(_) => panic!("key 1 is held"),
    }
    assert_eq!(map.get(&1), Some(&20));
    match map.entry(2) {
        Entry::Vacant(e) => {
            assert_eq!(*e.key(), 2);
            *e.insert(5) += 1;
        }
        Entry::Occupied(_) => panic!("key 2 is not held"),
    }
    assert_eq!(map.get(&2), Some(&6));
    match map.entry(3) {
        Entry::Vacant(e) => assert_eq!(e.into_key(), 3),
        Entry::Occupied(_) => panic!("key 3 is not held"),
    }
    assert_eq!(map.len(), 2);
    match map.entry(1) {
        Entry::Occupied(e) => assert_eq!(e.remove_entry(), (1, 20)),
        Entry::Vacant(_) => panic!("key 1 is held"),
    }
    match map.entry(2) {
        Entry::Occupied(e) => assert_eq!(e.remove(), 6),
        Entry::Vacant(_) => panic!("key 2 is held"),
    }
    assert!(map.is_empty());
}

#[test]
fn entry_insert_with_default_and_modify() {
    let mut map: HashMap<u32, u32> = HashMap::new();
    assert_eq!(*map.entry(4).or_insert_with(|| 40), 40);
    assert_eq!(*map.entry(4).or_insert_with(|| 99), 40);
    assert_eq!(*map.entry(5).or_insert_with_key(|k| k * 100), 500);
    assert_eq!(*map.entry(6).or_default(), 0);
    map.entry(4).and_modify(|v| *v += 2).or_insert(0);
    map.entry(7).and_modify(|v| *v += 2).or_insert(70);
    assert_eq!(map.get(&4), Some(&42));
    assert_eq!(map.get(&7), Some(&70));
    assert_eq!(*map.entry(7).key(), 7);
    match map.entry(5) {
        Entry::Occupied(e) => *e.into_mut() += 1,
        Entry::Vacant(_) => panic!("key 5 is held"),
    }
    assert_eq!(map.get(&5), Some(&501));
    assert_eq!(map.len(), 4);
}

#[test]
fn insert_and_get_on_the_table() {
    let mut table: NodeStorage<u32, u32> = NodeStorage::with_size(8);
    *table.insert_and_get_hashed(1, 10, 3) += 5;
    assert_eq!(table.get_hashed(&1, 3), Some(&15));
    *table.insert_and_get_hashed(1, 20, 3) += 1;
    assert_eq!(table.get_hashed(&1, 3), Some(&21));
    assert_eq!(table.len(), 1);
}

#[test]
fn with_capacity_sixteen_takes_twenty_seven() {
    let mut map: HashMap<i32, i32> = HashMap::with_capacity(16);
    assert!(map.is_empty());
    assert_eq!(map.capacity(), 27);
    for i in 0..16 {
        map.insert(i, i);
    }
    assert_eq!(map.capacity(), 27);
}
