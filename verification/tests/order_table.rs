use std::cmp::Ordering;
use wayplover::utils::{OrderedMap, steno_order, remove_from_pairs};
use wayplover::text::{str_eq, str_contains, strip_hyphens_str};

#[test]
fn insert_get_len_remove() {
    let mut m = OrderedMap::new();
    assert_eq!(m.len(), 0);
    assert_eq!(m.insert("a".to_string(), 3), None);
    assert_eq!(m.insert("b".to_string(), 1), None);
    assert_eq!(m.len(), 2);
    assert_eq!(m.get("a"), Some(3));
    assert_eq!(m.get("b"), Some(1));
    assert_eq!(m.get("c"), None);
    assert_eq!(m.insert("a".to_string(), 7), Some(3));
    assert_eq!(m.len(), 2);
    assert_eq!(m.get("a"), Some(7));
    assert_eq!(m.remove("b"), Some(1));
    assert_eq!(m.remove("b"), None);
    assert_eq!(m.len(), 1);
}

#[test]
fn compare_orders_by_value_and_missing_keys() {
    let mut m = OrderedMap::new();
    m.insert("low".to_string(), 1);
    m.insert("high".to_string(), 9);
    assert_eq!(m.compare("low", "high"), Ordering::Less);
    assert_eq!(m.compare("high", "low"), Ordering::Greater);
    assert_eq!(m.compare("low", "low"), Ordering::Equal);
    assert_eq!(m.compare("absent", "low"), Ordering::Greater);
    assert_eq!(m.compare("low", "absent"), Ordering::Less);
}

#[test]
fn descending_keys_walk_values_downward() {
    let mut m = OrderedMap::new();
    m.insert("one".to_string(), 1);
    m.insert("nine".to_string(), 9);
    m.insert("five".to_string(), 5);
    let mut it = m.descending_keys();
    assert_eq!(it.next(), Some("nine".to_string()));
    assert_eq!(it.next(), Some("five".to_string()));
    assert_eq!(it.next(), Some("one".to_string()));
    assert_eq!(it.next(), None);
}

#[test]
fn descending_keys_walk_backwards_too() {
    let mut m = OrderedMap::new();
    m.insert("one".to_string(), 1);
    m.insert("nine".to_string(), 9);
    let mut it = m.descending_keys();
    assert_eq!(it.next_back(), Some("one".to_string()));
    assert_eq!(it.next_back(), Some("nine".to_string()));
    assert_eq!(it.next_back(), None);
}

#[test]
fn equal_values_list_the_newest_first() {
    let mut m = OrderedMap::new();
    m.insert("first".to_string(), 4);
    m.insert("second".to_string(), 4);
    let mut it = m.descending_keys();
    assert_eq!(it.next(), Some("second".to_string()));
    assert_eq!(it.next(), Some("first".to_string()));
}

#[test]
fn descending_values_and_items_match() {
    let mut m = OrderedMap::new();
    m.insert("a".to_string(), 2);
    m.insert("b".to_string(), 6);
    let mut vs = m.descending_values();
    assert_eq!(vs.next(), Some(6));
    assert_eq!(vs.next(), Some(2));
    assert_eq!(vs.next(), None);
    let mut items = m.descending_items();
    assert_eq!(items.next(), Some(("b".to_string(), 6)));
    assert_eq!(items.next_back(), Some(("a".to_string(), 2)));
    assert_eq!(items.next(), None);
}

#[test]
fn remove_from_pairs_removes_the_first_hit() {
    let mut pairs = vec![("a".to_string(), 1i8), ("b".to_string(), 2i8)];
    assert!(remove_from_pairs(&mut pairs, "a"));
    assert_eq!(pairs.len(), 1);
    assert_eq!(pairs[0].0, "b");
    assert!(!remove_from_pairs(&mut pairs, "a"));
    assert_eq!(pairs.len(), 1);
}

#[test]
fn steno_order_ranks_the_23_keys() {
    let order = steno_order();
    assert_eq!(order.len(), 23);
    assert_eq!(order.get("#"), Some(0));
    assert_eq!(order.get("S-"), Some(1));
    assert_eq!(order.get("*"), Some(10));
    assert_eq!(order.get("-Z"), Some(22));
    assert_eq!(order.get("Fn"), None);
    assert_eq!(order.compare("S-", "T-"), Ordering::Less);
    assert_eq!(order.compare("-D", "A-"), Ordering::Greater);
    assert_eq!(order.compare("??", "S-"), Ordering::Greater);
    let mut keys = order.descending_keys();
    assert_eq!(keys.next(), Some("-Z".to_string()));
    assert_eq!(keys.next_back(), Some("#".to_string()));
}

#[test]
fn string_helpers() {
    assert!(str_eq("abc", "abc"));
    assert!(!str_eq("abc", "abd"));
    assert!(!str_eq("abc", "ab"));
    assert!(str_contains("chord", "hor"));
    assert!(str_contains("chord", ""));
    assert!(!str_contains("chord", "horse"));
    assert_eq!(strip_hyphens_str("A-B-"), "AB");
    assert_eq!(strip_hyphens_str("--"), "");
    assert_eq!(strip_hyphens_str("xyz"), "xyz");
}
