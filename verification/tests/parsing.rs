use benchcsv::numeral::{format_i64, parse_i64, parse_usize};
use benchcsv::parse::{parse_params, parse_tags};
use benchcsv::text::join;

fn chars(s: &str) -> Vec<char> {
    s.chars().collect()
}

#[test]
fn tags_round_trip_simple() {
    let v = chars("12-7");
    assert_eq!(parse_tags(&v), Some((12, 7)));
}

#[test]
fn tags_negative_values() {
    // A hyphen at a token's start is its sign: the left tag is -3, and
    // the remaining token "-1" reads as the right tag.
    let v = chars("-3--1");
    assert_eq!(parse_tags(&v), Some((-3, -1)));
}

#[test]
fn tags_trailing_segments_ignored() {
    let v = chars("5-9-extra");
    assert_eq!(parse_tags(&v), Some((5, 9)));
}

#[test]
fn tags_plus_signs() {
    let v = chars("+3-+4");
    assert_eq!(parse_tags(&v), Some((3, 4)));
}

#[test]
fn tags_missing_separator() {
    let v = chars("12");
    assert_eq!(parse_tags(&v), None);
}

#[test]
fn tags_empty_right_token() {
    let v = chars("5-");
    assert_eq!(parse_tags(&v), None);
}

#[test]
fn tags_non_numeric() {
    let v = chars("a-b");
    assert_eq!(parse_tags(&v), None);
    let v = chars("12-7x");
    assert_eq!(parse_tags(&v), None);
}

#[test]
fn tags_extreme_values() {
    let v = chars("-9223372036854775808-9223372036854775807");
    assert_eq!(parse_tags(&v), Some((i64::MIN, i64::MAX)));
    let v = chars("9223372036854775808-0");
    assert_eq!(parse_tags(&v), None);
}

#[test]
fn params_extra_lines_ignored() {
    let ps = parse_params("2\nalpha\nbeta\nextra").unwrap();
    assert_eq!(ps, vec!["alpha".to_string(), "beta".to_string()]);
    assert_eq!(join(&ps, '/'), "alpha/beta");
}

#[test]
fn params_fewer_lines_than_count() {
    let ps = parse_params("3\nalpha\nbeta").unwrap();
    assert_eq!(ps, vec!["alpha".to_string(), "beta".to_string()]);
}

#[test]
fn params_zero_count() {
    let ps = parse_params("0\nalpha").unwrap();
    assert_eq!(ps, Vec::<String>::new());
    assert_eq!(join(&ps, '/'), "");
}

#[test]
fn params_count_not_a_number() {
    assert_eq!(parse_params("two\nalpha"), None);
    assert_eq!(parse_params(""), None);
    assert_eq!(parse_params("-1\nalpha"), None);
}

#[test]
fn params_count_with_leading_plus_and_zeros() {
    let ps = parse_params("+2\na\nb").unwrap();
    assert_eq!(ps, vec!["a".to_string(), "b".to_string()]);
    let ps = parse_params("002\na\nb\nc").unwrap();
    assert_eq!(ps, vec!["a".to_string(), "b".to_string()]);
}

#[test]
fn integer_parsing_exact() {
    let v = chars("0");
    assert_eq!(parse_i64(&v, 0, 1), Some(0));
    let v = chars("-0");
    assert_eq!(parse_i64(&v, 0, 2), Some(0));
    let v = chars("123x");
    assert_eq!(parse_i64(&v, 0, 3), Some(123));
    assert_eq!(parse_i64(&v, 0, 4), None);
    let v = chars("18446744073709551616");
    assert_eq!(parse_usize(&v, 0, v.len()), None);
}

#[test]
fn integer_formatting_exact() {
    assert_eq!(format_i64(0), chars("0"));
    assert_eq!(format_i64(907), chars("907"));
    assert_eq!(format_i64(-42), chars("-42"));
    assert_eq!(format_i64(i64::MIN), chars("-9223372036854775808"));
    assert_eq!(format_i64(i64::MAX), chars("9223372036854775807"));
}

#[test]
fn join_separators() {
    let parts = vec!["a".to_string(), "b".to_string(), "c".to_string()];
    assert_eq!(join(&parts, '/'), "a/b/c");
    let one = vec!["solo".to_string()];
    assert_eq!(join(&one, '/'), "solo");
}
