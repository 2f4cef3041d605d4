use irclogs::linespec::parse_line_spec;

#[test]
fn test_parse_line_spec_single() {
    let result = parse_line_spec("5").unwrap();
    assert_eq!(result, vec![5]);
}

#[test]
fn test_parse_line_spec_list() {
    let result = parse_line_spec("1,5,10").unwrap();
    assert_eq!(result, vec![1, 5, 10]);
}

#[test]
fn test_parse_line_spec_range() {
    let result = parse_line_spec("20-25").unwrap();
    assert_eq!(result, vec![20, 21, 22, 23, 24, 25]);
}

#[test]
fn test_parse_line_spec_mixed() {
    let result = parse_line_spec("1,5,20-22").unwrap();
    assert_eq!(result, vec![1, 5, 20, 21, 22]);
}

#[test]
fn test_parse_line_spec_zero() {
    assert!(parse_line_spec("0").is_err());
}

#[test]
fn test_parse_line_spec_invalid() {
    assert!(parse_line_spec("abc").is_err());
}

#[test]
fn test_parse_line_spec_empty() {
    assert!(parse_line_spec("").is_err());
}

#[test]
fn test_parse_line_spec_reversed_range() {
    assert!(parse_line_spec("30-20").is_err());
}

#[test]
fn test_parse_line_spec_wide_range() {
    assert!(parse_line_spec("1-502").is_err());
}

#[test]
fn test_parse_line_spec_too_many_total() {
    assert!(parse_line_spec("1-400,500-700").is_err());
}

#[test]
fn test_parse_line_spec_duplicates_collapse() {
    let result = parse_line_spec("3,1-4,2").unwrap();
    assert_eq!(result, vec![1, 2, 3, 4]);
}

#[test]
fn test_parse_line_spec_error_messages() {
    assert_eq!(parse_line_spec("").unwrap_err(), "empty line spec");
    assert_eq!(
        parse_line_spec("abc").unwrap_err(),
        "invalid line spec: only digits, commas, and hyphens allowed"
    );
    assert_eq!(parse_line_spec("30-20").unwrap_err(), "invalid range: 30-20");
    assert_eq!(parse_line_spec("1-502").unwrap_err(), "range too large (max 500 lines)");
    assert_eq!(parse_line_spec("0").unwrap_err(), "line numbers must be >= 1");
}
