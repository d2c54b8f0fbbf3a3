use migratour::serial::parse_i32;

#[test]
fn plain_counts_parse() {
    assert_eq!(parse_i32(&"0".to_string()), Some(0));
    assert_eq!(parse_i32(&"42".to_string()), Some(42));
    assert_eq!(parse_i32(&"0012".to_string()), Some(12));
}

#[test]
fn signed_counts_parse() {
    assert_eq!(parse_i32(&"-3".to_string()), Some(-3));
    assert_eq!(parse_i32(&"+7".to_string()), Some(7));
}

#[test]
fn the_i32_bounds_hold_exactly() {
    assert_eq!(parse_i32(&"2147483647".to_string()), Some(i32::MAX));
    assert_eq!(parse_i32(&"2147483648".to_string()), None);
    assert_eq!(parse_i32(&"-2147483648".to_string()), Some(i32::MIN));
    assert_eq!(parse_i32(&"-2147483649".to_string()), None);
    assert_eq!(parse_i32(&"99999999999999999999".to_string()), None);
}

#[test]
fn junk_does_not_parse() {
    assert_eq!(parse_i32(&"".to_string()), None);
    assert_eq!(parse_i32(&"-".to_string()), None);
    assert_eq!(parse_i32(&"+".to_string()), None);
    assert_eq!(parse_i32(&"12a".to_string()), None);
    assert_eq!(parse_i32(&" 12".to_string()), None);
}
