use fywaf::ordered::{tally, TextMap};

#[test]
fn entries_are_in_order() {
    let mut map: TextMap<usize> = TextMap::new();
    for (i, key) in ["b", "", "ab", "a", "é", "Z", "b"].iter().enumerate() {
        map.insert(key.to_string(), i);
    }
    let entries: Vec<(&str, usize)> = (0..map.len()).map(|i| (map.key(i), *map.value(i))).collect();
    assert_eq!(entries, vec![("", 1), ("Z", 5), ("a", 3), ("ab", 2), ("b", 6), ("é", 4)]);
}

#[test]
fn entering_changes_one_key_only() {
    let mut map: TextMap<usize> = TextMap::new();
    map.insert("x".to_string(), 1);
    map.insert("y".to_string(), 2);
    map.insert("x".to_string(), 3);
    assert_eq!(map.get("x"), Some(&3));
    assert_eq!(map.get("y"), Some(&2));
    assert_eq!(map.get("z"), None);
    assert_eq!(map.len(), 2);
}

#[test]
fn tallies_count() {
    let words: Vec<String> = ["b", "a", "b", "b"].iter().map(|w| w.to_string()).collect();
    let counts = tally(&words);
    assert_eq!(counts.len(), 2);
    assert_eq!((counts.key(0), *counts.value(0)), ("a", 1));
    assert_eq!(counts.get("b"), Some(&3));
    assert_eq!(tally(&vec![]).len(), 0);
}
