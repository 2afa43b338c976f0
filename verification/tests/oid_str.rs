//! The dotted OID string helper.
use snmp::utils::oid_str_to_vec32;

#[test]
fn parses_and_appends_trailing_zero() {
    assert_eq!(oid_str_to_vec32("1.3.6"), Ok(vec![1, 3, 6, 0]));
}

#[test]
fn skips_a_leading_dot() {
    assert_eq!(oid_str_to_vec32(".1.3.6"), Ok(vec![1, 3, 6, 0]));
}

#[test]
fn keeps_an_existing_trailing_zero() {
    assert_eq!(oid_str_to_vec32("1.3.6.0"), Ok(vec![1, 3, 6, 0]));
}

#[test]
fn rejects_a_trailing_dot() {
    assert!(oid_str_to_vec32("1.3.6.").is_err());
}

#[test]
fn rejects_empty_and_doubled_groups() {
    assert!(oid_str_to_vec32("").is_err());
    assert!(oid_str_to_vec32(".").is_err());
    assert!(oid_str_to_vec32("1..3").is_err());
}

#[test]
fn rejects_non_digits() {
    assert!(oid_str_to_vec32("1.3a.6").is_err());
    assert!(oid_str_to_vec32("1.3.-6").is_err());
    assert!(oid_str_to_vec32("1.3.six").is_err());
}

#[test]
fn handles_the_u32_boundary() {
    assert_eq!(oid_str_to_vec32("1.4294967295"), Ok(vec![1, 4294967295, 0]));
    assert!(oid_str_to_vec32("1.4294967296").is_err());
    assert!(oid_str_to_vec32("1.99999999999999999999999").is_err());
}

#[test]
fn single_group_gets_its_zero() {
    assert_eq!(oid_str_to_vec32("7"), Ok(vec![7, 0]));
    assert_eq!(oid_str_to_vec32("0"), Ok(vec![0]));
}
