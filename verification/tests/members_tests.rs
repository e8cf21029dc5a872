use script_host::MembershipSet;
use script_host::Opts;
use script_host::normalize_next_key;

#[test]
fn smallest_member_is_the_least_under_key_order() {
    let mut m = MembershipSet::new();
    m.add("pear".to_string());
    m.add("apple".to_string());
    m.add("quince".to_string());
    assert!(m.contains("pear"));
    assert!(m.contains("apple"));
    assert!(!m.contains("plum"));
    assert_eq!(m.smallest(), Some("apple".to_string()));
}

#[test]
fn empty_membership_set_has_no_smallest() {
    let m = MembershipSet::new();
    assert_eq!(m.smallest(), None);
    assert!(!m.contains("anything"));
}

#[test]
fn adding_a_member_twice_keeps_it_once() {
    let mut m = MembershipSet::new();
    m.add("only".to_string());
    m.add("only".to_string());
    assert!(m.contains("only"));
    assert_eq!(m.smallest(), Some("only".to_string()));
}

#[test]
fn absent_next_argument_becomes_the_empty_string() {
    assert_eq!(normalize_next_key(None), "");
    assert_eq!(normalize_next_key(Some("k".to_string())), "k");
}

#[test]
fn options_default_to_seed_zero() {
    assert_eq!(Opts::default().seed, 0);
    assert_eq!(Opts::new(7).seed, 7);
}
