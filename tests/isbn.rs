use book_catalog::isbn::parse_isbn;

#[test]
fn valid_isbn_parses_to_its_number() {
    assert_eq!(parse_isbn("9780747542155"), Some(9_780_747_542_155));
    assert_eq!(parse_isbn("9780306406157"), Some(9_780_306_406_157));
}

#[test]
fn all_zero_isbn_is_valid() {
    assert_eq!(parse_isbn("0000000000000"), Some(0));
}

#[test]
fn wrong_check_digit_is_rejected() {
    assert_eq!(parse_isbn("9780747542156"), None);
    assert_eq!(parse_isbn("9780306406158"), None);
}

#[test]
fn wrong_length_is_rejected() {
    assert_eq!(parse_isbn(""), None);
    assert_eq!(parse_isbn("978074754215"), None);
    assert_eq!(parse_isbn("97807475421550"), None);
}

#[test]
fn non_digit_is_rejected() {
    assert_eq!(parse_isbn("978074754215X"), None);
    assert_eq!(parse_isbn("978-074754215"), None);
    assert_eq!(parse_isbn(" 978074754215"), None);
}

#[test]
fn non_ascii_is_rejected() {
    assert_eq!(parse_isbn("978074754215٥"), None);
    assert_eq!(parse_isbn("９７８０７４７５４２１５５"), None);
}
