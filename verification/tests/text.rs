//! Ids, their order, and the collections that are kept in it.

use add_vanilla_refs::id_map::IdMap;
use add_vanilla_refs::ids::IdSet;
use add_vanilla_refs::text::{fold_char, place, same_id, Placement};

#[test]
fn ids_are_compared_without_regard_to_ascii_case() {
    assert!(same_id("Fargoth", "fARGOTH"));
    assert!(same_id("", ""));
    assert!(!same_id("fargoth", "fargoth2"));
    assert!(!same_id("a", ""));
    // Only ASCII letters are folded.
    assert!(!same_id("\u{c4}", "\u{e4}"));
    assert!(same_id("X\u{c4}", "x\u{c4}"));
}

#[test]
fn folding_agrees_with_the_standard_library() {
    for c in '\u{0}'..='\u{2ff}' {
        assert_eq!(fold_char(c), c.to_ascii_lowercase());
    }
}

#[test]
fn placing_agrees_with_the_order_of_strings() {
    let samples = ["", "a", "ab", "abc", "b", "B", "_", "\u{e4}", "\u{ffff}", "\u{10000}", "z"];
    for a in samples {
        for b in samples {
            let expected = if a < b {
                Placement::Before
            } else if a == b {
                Placement::Same
            } else {
                Placement::After
            };
            assert_eq!(place(a, b), expected);
        }
    }
}

#[test]
fn a_set_lists_its_ids_in_order_and_once() {
    let mut set = IdSet::new();
    assert!(set.insert("delta".to_string()));
    assert!(set.insert("alpha".to_string()));
    assert!(set.insert("charlie".to_string()));
    assert!(!set.insert("alpha".to_string()));
    assert_eq!(set.len(), 3);
    let listed: Vec<&str> = (0..set.len()).map(|i| set.at(i).as_str()).collect();
    assert_eq!(listed, vec!["alpha", "charlie", "delta"]);
    assert!(set.contains("charlie"));
    assert!(!set.contains("Charlie"));
    assert!(!set.contains(""));
}

#[test]
fn a_map_keeps_its_keys_in_order() {
    let mut map: IdMap<u32> = IdMap::new();
    map.insert("two", 2);
    map.insert("one", 1);
    map.insert("three", 3);
    map.insert("two", 22);
    assert_eq!(map.len(), 3);
    assert_eq!(map.key_at(0), "one");
    assert_eq!(map.key_at(1), "three");
    assert_eq!(map.key_at(2), "two");
    assert_eq!(*map.value_at(2), 22);
    assert_eq!(map.get("one"), Some(&1));
    assert_eq!(map.get("four"), None);
    let slot = map.entry("one", 100);
    assert_eq!(slot, 0);
    *map.value_at_mut(slot) += 10;
    assert_eq!(map.get("one"), Some(&11));
    let slot = map.entry("zero", 0);
    assert_eq!(map.key_at(slot), "zero");
    assert!(map.contains_key("zero"));
    assert!(!map.contains_key("Zero"));
}
