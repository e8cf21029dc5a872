use script_host::Store;
use script_host::normalize_next_key;

#[test]
fn set_twice_returns_first_value_and_get_sees_second() {
    let mut s = Store::new();
    assert_eq!(s.set("k".to_string(), "v1".to_string()), None);
    assert_eq!(s.set("k".to_string(), "v2".to_string()), Some("v1".to_string()));
    assert_eq!(s.get("k"), Some("v2".to_string()));
}

#[test]
fn get_on_absent_key_returns_nothing() {
    let mut s = Store::new();
    assert_eq!(s.get("missing"), None);
    s.set("present".to_string(), "x".to_string());
    assert_eq!(s.get("missing"), None);
}

#[test]
fn next_walks_keys_in_lexicographic_order() {
    let mut s = Store::new();
    s.set("a".to_string(), "1".to_string());
    s.set("c".to_string(), "2".to_string());
    assert_eq!(s.next("a"), Some("c".to_string()));
    assert_eq!(s.next("c"), None);
    assert_eq!(s.next(""), Some("a".to_string()));
    let absent_argument = normalize_next_key(None);
    assert_eq!(s.next(absent_argument.as_str()), Some("a".to_string()));
    assert_eq!(s.next("b"), Some("c".to_string()));
}

#[test]
fn racing_sets_leave_exactly_the_later_value() {
    let mut first_order = Store::new();
    assert_eq!(first_order.set("x".to_string(), "A".to_string()), None);
    assert_eq!(
        first_order.set("x".to_string(), "B".to_string()),
        Some("A".to_string())
    );
    assert_eq!(first_order.get("x"), Some("B".to_string()));

    let mut second_order = Store::new();
    assert_eq!(second_order.set("x".to_string(), "B".to_string()), None);
    assert_eq!(
        second_order.set("x".to_string(), "A".to_string()),
        Some("B".to_string())
    );
    assert_eq!(second_order.get("x"), Some("A".to_string()));
}

#[test]
fn empty_string_is_an_ordinary_key() {
    let mut s = Store::new();
    assert_eq!(s.set("".to_string(), "empty".to_string()), None);
    assert_eq!(s.get(""), Some("empty".to_string()));
    assert_eq!(s.next(""), None);
    s.set("a".to_string(), "1".to_string());
    assert_eq!(s.next(""), Some("a".to_string()));
}

#[test]
fn keys_compare_by_code_point() {
    let mut s = Store::new();
    s.set("z".to_string(), "last ascii".to_string());
    s.set("\u{e9}".to_string(), "e acute".to_string());
    assert_eq!(s.next("z"), Some("\u{e9}".to_string()));
    assert_eq!(s.next("\u{e9}"), None);
    assert_eq!(s.len(), 2);
}

#[test]
fn first_key_is_the_smallest() {
    let mut s = Store::new();
    assert_eq!(s.first_key(), None);
    s.set("pear".to_string(), "1".to_string());
    s.set("apple".to_string(), "2".to_string());
    s.set("quince".to_string(), "3".to_string());
    assert_eq!(s.first_key(), Some("apple".to_string()));
    assert_eq!(s.len(), 3);
}
