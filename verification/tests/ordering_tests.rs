use anytask::ordering::{insert_ordered, retain_other};
use anytask::text::{contains_text, find_text, has_prefix, same_text, to_owned_text};

fn ids(xs: &[&str]) -> Vec<String> {
    xs.iter().map(|x| x.to_string()).collect()
}

#[test]
fn insert_ordered_empty_after_goes_first() {
    let mut order = ids(&["a", "b"]);
    insert_ordered(&mut order, "c".to_string(), "");
    assert_eq!(order, ids(&["c", "a", "b"]));
}

#[test]
fn insert_ordered_after_existing() {
    let mut order = ids(&["a", "b", "c"]);
    insert_ordered(&mut order, "x".to_string(), "a");
    assert_eq!(order, ids(&["a", "x", "b", "c"]));
}

#[test]
fn insert_ordered_unknown_after_goes_last() {
    let mut order = ids(&["a", "b"]);
    insert_ordered(&mut order, "x".to_string(), "zzz");
    assert_eq!(order, ids(&["a", "b", "x"]));
}

#[test]
fn insert_ordered_moves_existing_id() {
    let mut order = ids(&["a", "b", "c"]);
    insert_ordered(&mut order, "a".to_string(), "c");
    assert_eq!(order, ids(&["b", "c", "a"]));
}

#[test]
fn insert_ordered_twice_is_same_as_once() {
    let mut once = ids(&["a", "b", "c"]);
    insert_ordered(&mut once, "x".to_string(), "b");
    let mut twice = once.clone();
    insert_ordered(&mut twice, "x".to_string(), "b");
    assert_eq!(once, twice);
}

#[test]
fn insert_ordered_keeps_ids_unique() {
    let mut order = ids(&["a", "b", "c"]);
    insert_ordered(&mut order, "b".to_string(), "");
    insert_ordered(&mut order, "c".to_string(), "a");
    assert_eq!(order, ids(&["b", "a", "c"]));
    let mut sorted = order.clone();
    sorted.sort();
    sorted.dedup();
    assert_eq!(sorted.len(), order.len());
}

#[test]
fn retain_other_drops_every_occurrence() {
    let mut order = ids(&["a", "b", "a", "c"]);
    retain_other(&mut order, "a");
    assert_eq!(order, ids(&["b", "c"]));
    retain_other(&mut order, "missing");
    assert_eq!(order, ids(&["b", "c"]));
}

#[test]
fn text_helpers() {
    assert!(has_prefix("sets-abc", "sets-"));
    assert!(!has_prefix("set", "sets-"));
    assert!(same_text("abc", "abc"));
    assert!(!same_text("abc", "abd"));
    assert_eq!(to_owned_text("héllo"), "héllo".to_string());
    let v = ids(&["x", "y", "x"]);
    assert_eq!(find_text(&v, "x"), Some(0));
    assert_eq!(find_text(&v, "y"), Some(1));
    assert_eq!(find_text(&v, "z"), None);
    assert!(contains_text(&v, "y"));
    assert!(!contains_text(&v, "z"));
}

#[test]
fn insert_then_retain_gives_the_rest_back() {
    let original = ids(&["a", "b", "c"]);
    let mut order = original.clone();
    insert_ordered(&mut order, "x".to_string(), "b");
    retain_other(&mut order, "x");
    assert_eq!(order, original);
}
