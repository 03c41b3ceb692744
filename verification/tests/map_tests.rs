use easy_collections::EasyMap;
use std::collections::HashMap;

#[test]
fn map_macros() {
    // without default
    let map: EasyMap<char, usize> = EasyMap::new();
    assert_eq!(map['a'], 0);
    assert_eq!(map['b'], 0);
    assert_eq!(map['c'], 0);

    // with default
    let map: EasyMap<char, usize> = EasyMap::new_with_default(1);
    assert_eq!(map['a'], 1);
    assert_eq!(map['b'], 1);
    assert_eq!(map['c'], 1);

    // without default, two pairs
    let map = EasyMap::from(vec![('a', 10), ('b', 20)]);
    assert_eq!(map['a'], 10);
    assert_eq!(map['b'], 20);
    assert_eq!(map['c'], 0);

    // without default, built entry by entry
    let mut map = EasyMap::new();
    map['a'] = 100;
    map['b'] = 200;
    assert_eq!(map['a'], 100);
    assert_eq!(map['b'], 200);
    assert_eq!(map['c'], 0);

    // with default, two pairs
    let map = EasyMap::from_pairs_with_default(1, vec![('a', 10), ('b', 20)]);
    assert_eq!(map['a'], 10);
    assert_eq!(map['b'], 20);
    assert_eq!(map['c'], 1);

    // with default, built entry by entry
    let mut map = EasyMap::new_with_default(1);
    map['a'] = 100;
    map['b'] = 200;
    assert_eq!(map['a'], 100);
    assert_eq!(map['b'], 200);
    assert_eq!(map['c'], 1);
}

#[test]
fn index() {
    let mut map = EasyMap::new();
    map['a'] = 1;
    map['b'] = 2;
    map['c'] = 3;

    assert_eq!(map['a'], 1);
    assert_eq!(map['b'], 2);
    assert_eq!(map['c'], 3);
}

#[test]
fn index_mut() {
    let mut map = EasyMap::from_pairs_with_default(1, vec![('a', 1729)]);

    // test existing key
    let a = &mut map['a'];
    assert_eq!(*a, 1729);
    assert_eq!(map['a'], 1729);

    // test non-existent key
    let b = &mut map['b'];
    *b = 42;
    assert_eq!(*b, 42);
    assert_eq!(map['b'], 42);
    assert_eq!(map['c'], 1);
}

#[test]
fn map_deref() {
    let easy: EasyMap<_, _> = EasyMap::from(vec![("foo", "bar")]);
    let hash: &HashMap<_, _> = &*easy;

    assert_eq!(&*easy, hash);
}

#[test]
fn map_iter_via_deref() {
    let map = EasyMap::from(vec![('i', true), ('t', true), ('e', true), ('r', true)]);
    let mut values = vec![];
    for (k, v) in &*map {
        values.push((*k, *v));
    }

    // the values could be in any order
    values.sort();
    assert_eq!(values, &[('e', true), ('i', true), ('r', true), ('t', true)]);

    // ensure we can still use the map here
    assert_eq!(
        map,
        EasyMap::from(vec![('i', true), ('t', true), ('e', true), ('r', true)])
    );
}

#[test]
fn map_into_iter() {
    let map = EasyMap::from(vec![('i', true), ('t', true), ('e', true), ('r', true)]);
    let mut values = vec![];
    for x in map {
        values.push(x);
    }

    // the values could be in any order
    values.sort();
    assert_eq!(values, &[('e', true), ('i', true), ('r', true), ('t', true)]);
}

#[test]
fn map_from_iter() {
    let v = vec![('i', true), ('t', true), ('e', true), ('r', true)];
    let s = EasyMap::from(v);
    assert_eq!(
        s,
        EasyMap::from(vec![('i', true), ('t', true), ('e', true), ('r', true)])
    );
}

#[test]
fn map_literal_with_default_and_pairs() {
    let map = EasyMap::from_pairs_with_default(42, vec![("foo", 1), ("bar", 10), ("baz", 100)]);
    assert_eq!(map["foo"], 1);
    assert_eq!(map["bar"], 10);
    assert_eq!(map["baz"], 100);
    assert_eq!(map["nope"], 42);
    assert_eq!(map["nada"], 42);
    assert_eq!(map["nuttin'"], 42);
    assert_eq!(map.len(), 3);
}

#[test]
fn map_without_default_falls_back_to_type_default() {
    let map = EasyMap::from(vec![("foo", "bar"), ("hello", "world")]);
    assert_eq!(map["foo"], "bar");
    assert_eq!(map["hello"], "world");
    assert_eq!(map["not here"], "");
}

#[test]
fn map_read_of_absent_key_leaves_map_unchanged() {
    let map: EasyMap<u32, u32> = EasyMap::new_with_default(7);
    assert_eq!(map[1], 7);
    assert_eq!(map[2], 7);
    assert!(map.is_empty());
    assert!(!map.contains_key(&1));
}

#[test]
fn map_assignment_then_lookup() {
    let mut map: EasyMap<u32, u32> = EasyMap::new_with_default(7);
    assert_eq!(map[5], 7);
    map[5] = 9;
    assert_eq!(map[5], 9);
    assert_eq!(map[6], 7);
    map[5] = 11;
    assert_eq!(map[5], 11);
    assert_eq!(map.len(), 1);
}

#[test]
fn map_place_of_absent_key_inserts_fallback() {
    let mut map: EasyMap<&str, i32> = EasyMap::new_with_default(42);
    assert!(!map.contains_key("k"));
    {
        let _slot = &mut map["k"];
    }
    assert!(map.contains_key("k"));
    assert_eq!(map.get("k"), Some(&42));
    assert_eq!(map["k"], 42);
    assert_eq!(map.len(), 1);
}

#[test]
fn map_place_of_present_key_keeps_value() {
    let mut map = EasyMap::from_pairs_with_default(0, vec![(1u8, 5)]);
    {
        let slot = &mut map[1];
        assert_eq!(*slot, 5);
        *slot += 1;
    }
    assert_eq!(map[1], 6);
    assert_eq!(map.len(), 1);
}

#[test]
fn map_insert_returns_previous_value() {
    let mut map: EasyMap<u8, &str> = EasyMap::new();
    assert_eq!(map.insert(1, "a"), None);
    assert_eq!(map.insert(1, "b"), Some("a"));
    assert_eq!(map[1], "b");
    assert_eq!(map.insert(2, "c"), None);
    assert_eq!(map.len(), 2);
}

#[test]
fn map_remove_returns_removed_value() {
    let mut map = EasyMap::from_pairs_with_default(9, vec![(1u8, 5)]);
    assert_eq!(map.remove(2), None);
    assert_eq!(map.len(), 1);
    assert_eq!(map.remove(1), Some(5));
    assert_eq!(map.remove(1), None);
    assert!(map.is_empty());
    assert_eq!(map[1], 9);
}

#[test]
fn map_later_pair_overwrites_earlier() {
    let map = EasyMap::from(vec![('a', 1), ('b', 2), ('a', 3)]);
    assert_eq!(map['a'], 3);
    assert_eq!(map['b'], 2);
    assert_eq!(map.len(), 2);

    let map = EasyMap::from_pairs_with_default(8, vec![('a', 1), ('a', 3), ('a', 2)]);
    assert_eq!(map['a'], 2);
    assert_eq!(map['z'], 8);
}

#[test]
fn map_from_slice_clones_pairs() {
    let pairs = [(String::from("x"), 1), (String::from("y"), 2), (String::from("x"), 3)];
    let map: EasyMap<String, i32> = EasyMap::from(pairs.as_ref());
    assert_eq!(map[String::from("x")], 3);
    assert_eq!(map[String::from("y")], 2);
    assert_eq!(map[String::from("z")], 0);
    assert_eq!(map.len(), 2);
    assert_eq!(pairs[0].0, "x");
}

#[test]
fn map_clone_keeps_entries_and_fallback() {
    let map = EasyMap::from_pairs_with_default(42, vec![("foo", 1)]);
    let mut copy = map.clone();
    assert_eq!(copy, map);
    assert_eq!(copy["foo"], 1);
    assert_eq!(copy["bar"], 42);
    copy["foo"] = 2;
    assert_eq!(map["foo"], 1);
    assert_ne!(copy, map);
}

#[test]
fn map_into_hash_map_keeps_entries() {
    let map = EasyMap::from_pairs_with_default(42, vec![("foo", 1), ("bar", 2)]);
    let hash = map.into_hash_map();
    let mut expected = HashMap::new();
    expected.insert("foo", 1);
    expected.insert("bar", 2);
    assert_eq!(hash, expected);
}

#[test]
fn map_equality_compares_entries_and_fallback() {
    let a = EasyMap::from_pairs_with_default(1, vec![('a', 10), ('b', 20)]);
    let b = EasyMap::from_pairs_with_default(1, vec![('b', 20), ('a', 10)]);
    assert!(a == b);

    // another fallback
    let c = EasyMap::from_pairs_with_default(2, vec![('a', 10), ('b', 20)]);
    assert!(a != c);

    // another value
    let d = EasyMap::from_pairs_with_default(1, vec![('a', 10), ('b', 21)]);
    assert!(a != d);

    // an entry more, an entry less
    let e = EasyMap::from_pairs_with_default(1, vec![('a', 10), ('b', 20), ('c', 30)]);
    assert!(a != e);
    assert!(e != a);

    // an entry that holds the fallback is still an entry
    let empty: EasyMap<char, i32> = EasyMap::new_with_default(1);
    let mut touched: EasyMap<char, i32> = EasyMap::new_with_default(1);
    assert!(empty == touched);
    {
        let _slot = &mut touched['x'];
    }
    assert!(empty != touched);
}

#[test]
fn map_to_vec_holds_each_entry_once() {
    let map = EasyMap::from_pairs_with_default(9, vec![('a', 1), ('b', 2), ('a', 3)]);
    let mut items = map.to_vec();
    items.sort();
    assert_eq!(items, [('a', 3), ('b', 2)]);
    assert_eq!(map.len(), 2);
    let empty: EasyMap<char, i32> = EasyMap::new();
    assert!(empty.to_vec().is_empty());
}
