use dep_visualizer::names::{clone_names, NameSet};
use dep_visualizer::table::{Key, Table};

#[test]
fn name_set_holds_each_name_once() {
    let mut set = NameSet::new();
    assert_eq!(set.len(), 0);
    assert!(!set.contains(&"a".to_string()));
    assert!(set.insert("a".to_string()));
    assert!(set.insert("b".to_string()));
    assert!(!set.insert("a".to_string()));
    assert_eq!(set.len(), 2);
    assert!(set.contains(&"a".to_string()));
    assert!(set.contains(&"b".to_string()));
    assert!(!set.contains(&"c".to_string()));
    assert!(!set.contains(&"".to_string()));
    assert!(set.insert("".to_string()));
    assert!(set.contains(&"".to_string()));
    assert_eq!(set.len(), 3);
}

#[test]
fn clone_names_keeps_order_and_repeats() {
    let list = vec!["b".to_string(), "a".to_string(), "b".to_string()];
    assert_eq!(clone_names(&list), list);
    assert_eq!(clone_names(&Vec::new()), Vec::<String>::new());
}

#[test]
fn table_maps_single_keys() {
    let mut t: Table<String, String> = Table::new();
    assert_eq!(t.len(), 0);
    assert!(t.get(&"serde".to_string()).is_none());
    t.insert("serde".to_string(), "1.0.0".to_string());
    t.insert("rand".to_string(), "0.8.5".to_string());
    assert_eq!(t.get(&"serde".to_string()), Some(&"1.0.0".to_string()));
    assert_eq!(t.get(&"rand".to_string()), Some(&"0.8.5".to_string()));
    t.insert("serde".to_string(), "2.0.0".to_string());
    assert_eq!(t.len(), 2);
    assert_eq!(t.get(&"serde".to_string()), Some(&"2.0.0".to_string()));
    assert!(t.contains_key(&"rand".to_string()));
    assert!(!t.contains_key(&"ran".to_string()));
}

#[test]
fn table_tells_pairs_apart_by_both_parts() {
    let mut t: Table<(String, String), Vec<String>> = Table::new();
    let key = |p: &str, v: &str| (p.to_string(), v.to_string());
    t.insert(key("a", "1"), vec!["x".to_string()]);
    t.insert(key("a", "2"), vec!["y".to_string()]);
    t.insert(key("a:1", ""), vec![]);
    t.insert(key("", "a:1"), vec!["z".to_string()]);
    assert_eq!(t.len(), 4);
    assert_eq!(t.get(&key("a", "1")), Some(&vec!["x".to_string()]));
    assert_eq!(t.get(&key("a", "2")), Some(&vec!["y".to_string()]));
    assert_eq!(t.get(&key("a:1", "")), Some(&vec![]));
    assert_eq!(t.get(&key("", "a:1")), Some(&vec!["z".to_string()]));
    assert!(t.get(&key("1", "a")).is_none());
}

#[test]
fn keys_are_the_same_when_their_characters_are() {
    assert!("a".to_string().same(&"a".to_string()));
    assert!(!"a".to_string().same(&"b".to_string()));
    assert!(("a".to_string(), "1".to_string()).same(&("a".to_string(), "1".to_string())));
    assert!(!("a".to_string(), "1".to_string()).same(&("a".to_string(), "2".to_string())));
    assert!(!("a".to_string(), "1".to_string()).same(&("b".to_string(), "1".to_string())));
}
