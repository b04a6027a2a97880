use klustrefs_csi::size::parse_size_string;

#[test]
fn test_parse_size_string() {
    assert_eq!(parse_size_string("1024"), Some(1024));
    assert_eq!(parse_size_string("1K"), Some(1024));
    assert_eq!(parse_size_string("1M"), Some(1024 * 1024));
    assert_eq!(parse_size_string("1G"), Some(1024 * 1024 * 1024));
    assert_eq!(parse_size_string("96.0G"), Some(96 * 1024 * 1024 * 1024));
    assert_eq!(parse_size_string("3.0M"), Some(3 * 1024 * 1024));
}

#[test]
fn parse_size_expected_values() {
    assert_eq!(parse_size_string("1024"), Some(1024));
    assert_eq!(parse_size_string("1K"), Some(1024));
    assert_eq!(parse_size_string("1M"), Some(1048576));
    assert_eq!(parse_size_string("1G"), Some(1073741824));
    assert_eq!(parse_size_string("96.0G"), Some(103079215104));
    assert_eq!(parse_size_string("3.0M"), Some(3145728));
}

#[test]
fn parse_size_unrecognized_unit_fails() {
    assert_eq!(parse_size_string("5Z"), None);
    assert_eq!(parse_size_string("1KX"), None);
    assert_eq!(parse_size_string("1KBB"), None);
}

#[test]
fn parse_size_bad_number_fails() {
    assert_eq!(parse_size_string(""), None);
    assert_eq!(parse_size_string("."), None);
    assert_eq!(parse_size_string("K"), None);
    assert_eq!(parse_size_string("1.2.3"), None);
    assert_eq!(parse_size_string("12a34K"), None);
}

#[test]
fn parse_size_two_letter_units() {
    assert_eq!(parse_size_string("1KB"), Some(1024));
    assert_eq!(parse_size_string("2MB"), Some(2 * 1048576));
    assert_eq!(parse_size_string("1gb"), Some(1073741824));
    assert_eq!(parse_size_string("1tb"), Some(1099511627776));
    assert_eq!(parse_size_string("2T"), Some(2199023255552));
}

#[test]
fn parse_size_case_insensitive() {
    assert_eq!(parse_size_string("1k"), Some(1024));
    assert_eq!(parse_size_string("1m"), Some(1048576));
    assert_eq!(parse_size_string("1g"), Some(1073741824));
}

#[test]
fn parse_size_trims_whitespace() {
    assert_eq!(parse_size_string("  1K  "), Some(1024));
    assert_eq!(parse_size_string("\t96.0G\n"), Some(103079215104));
}

#[test]
fn parse_size_fractions_round_to_nearest() {
    assert_eq!(parse_size_string("1.5K"), Some(1536));
    assert_eq!(parse_size_string("0.5"), Some(1));
    assert_eq!(parse_size_string("0.4"), Some(0));
    // 1.0005 * 1024 = 1024.512, which rounds up
    assert_eq!(parse_size_string("1.0005K"), Some(1025));
    // bare digits with a dot and nothing after it
    assert_eq!(parse_size_string("7."), Some(7));
    assert_eq!(parse_size_string(".5K"), Some(512));
}

#[test]
fn parse_size_leading_zeros() {
    assert_eq!(parse_size_string("007K"), Some(7168));
    assert_eq!(parse_size_string("0000000000000000000000001K"), Some(1024));
}

#[test]
fn parse_size_saturates_at_u64_max() {
    assert_eq!(parse_size_string("999999999999999999999999T"), Some(u64::MAX));
    assert_eq!(parse_size_string("18446744073709551615"), Some(u64::MAX));
}

#[test]
fn parse_size_long_fraction() {
    // a fraction far beyond the precision that can matter
    assert_eq!(
        parse_size_string("1.00000000000000000000000000000000000000000000000009K"),
        Some(1024)
    );
}
