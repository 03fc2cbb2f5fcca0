use nornir_core::natorder::{natural_compare, Rank};
use nornir_core::NatString;

#[test]
fn types_test_nat_string_ordering() {
    let s1 = NatString::new("file2".to_string());
    let s2 = NatString::new("file10".to_string());
    assert!(s1.is_before(&s2));
}

#[test]
fn lib_test_nat_string_ordering() {
    let s1 = NatString::new("file2".to_string());
    let s2 = NatString::new("file10".to_string());
    assert!(s1.is_before(&s2));
}

#[test]
fn numeric_runs_order_by_value() {
    assert_eq!(natural_compare("host2", "host10"), Rank::Less);
    assert_eq!(natural_compare("host10", "host100"), Rank::Less);
    assert_eq!(natural_compare("host2", "host100"), Rank::Less);
    assert_eq!(natural_compare("host100", "host2"), Rank::Greater);
}

#[test]
fn plain_text_orders_by_code_point() {
    assert_eq!(natural_compare("alpha", "beta"), Rank::Less);
    assert_eq!(natural_compare("beta", "alpha"), Rank::Greater);
    assert_eq!(natural_compare("same", "same"), Rank::Equal);
    assert_eq!(natural_compare("", "a"), Rank::Less);
    assert_eq!(natural_compare("a", ""), Rank::Greater);
}

#[test]
fn equal_value_runs_order_by_leading_zeros() {
    // "1" and "01" carry the same number; the shorter run sorts first so
    // that distinct strings never rank equal.
    assert_eq!(natural_compare("a1", "a01"), Rank::Less);
    assert_eq!(natural_compare("a01", "a1"), Rank::Greater);
    assert_eq!(natural_compare("a01", "a01"), Rank::Equal);
    // Leading zeros do not change the numeric comparison itself.
    assert_eq!(natural_compare("a09", "a10"), Rank::Less);
}

#[test]
fn mixed_digit_and_text_positions() {
    assert_eq!(natural_compare("a2b", "a10b"), Rank::Less);
    assert_eq!(natural_compare("2", "a"), Rank::Less);
    assert_eq!(natural_compare("a", "2"), Rank::Greater);
}

#[test]
fn nat_string_accessors() {
    let s = NatString::new("router1".to_string());
    assert_eq!(s.as_str(), "router1");
    let t = s.clone();
    assert_eq!(t.as_str(), "router1");
    assert_eq!(s.natural_cmp(&t), Rank::Equal);
}
