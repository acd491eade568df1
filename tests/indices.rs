use spacecraft::indices::parse_indices;

#[test]
fn parses_comma_separated_numbers() {
    assert_eq!(parse_indices(b"0, 1,2 ,\n3"), Some(vec![0, 1, 2, 3]));
    assert_eq!(parse_indices(b" 7 "), Some(vec![7]));
    assert_eq!(parse_indices(b"\t289,17,0\r\n"), Some(vec![289, 17, 0]));
}

#[test]
fn largest_index_fits() {
    assert_eq!(parse_indices(b"4294967295"), Some(vec![u32::MAX]));
    assert_eq!(parse_indices(b"0004294967295,1"), Some(vec![u32::MAX, 1]));
    assert_eq!(parse_indices(b"4294967296"), None);
    assert_eq!(parse_indices(b"99999999999999999999"), None);
}

#[test]
fn rejects_fields_that_are_not_numbers() {
    assert_eq!(parse_indices(b""), None);
    assert_eq!(parse_indices(b"1,,2"), None);
    assert_eq!(parse_indices(b"1,2,"), None);
    assert_eq!(parse_indices(b"12a"), None);
    assert_eq!(parse_indices(b"1 2"), None);
    assert_eq!(parse_indices(b"-3"), None);
    assert_eq!(parse_indices(b"   "), None);
}
