use url_enumerator::digits::{chars_of, find_enumeration_position, is_decimal_digit};

#[test]
fn test_find_enumeration_position() {
    let path = "/path/123";
    let result = find_enumeration_position(path).unwrap();
    assert_eq!(result, (6, 8, 3));

    let path = "/path/001";
    let result = find_enumeration_position(path).unwrap();
    assert_eq!(result, (6, 8, 3));

    let path = "/path/01";
    let result = find_enumeration_position(path).unwrap();
    assert_eq!(result, (6, 7, 2));

    let path = "/path/1";
    let result = find_enumeration_position(path);
    assert!(result.is_err());

    let path = "/path/001.foo1";
    let result = find_enumeration_position(path).unwrap();
    assert_eq!(result, (6, 8, 3));

    let path = "/path/foo1/001";
    let result = find_enumeration_position(path).unwrap();
    assert_eq!(result, (11, 13, 3));

    let path = "/path/abc";
    let result = find_enumeration_position(path);
    assert!(result.is_err());
}

#[test]
fn path_without_digits_has_no_position() {
    for path in ["", "/", "/path/abc", "/a/b/c.jpg", "/with%space"] {
        assert_eq!(
            find_enumeration_position(path),
            Err("No incremental number found in URL path".to_string())
        );
    }
}

#[test]
fn lone_digit_is_no_position() {
    for path in ["1", "/1", "/path/1", "/path/1.jpg", "/v2/img.png", "7/"] {
        assert!(find_enumeration_position(path).is_err(), "{}", path);
    }
}

#[test]
fn several_lone_digits_are_no_position() {
    assert!(find_enumeration_position("/a1/b2/c3.d4").is_err());
    assert!(find_enumeration_position("1a2b3c").is_err());
}

#[test]
fn rightmost_run_of_two_or_more_wins() {
    assert_eq!(find_enumeration_position("/2024/07/img_0042.jpg"), Ok((13, 16, 4)));
    assert_eq!(find_enumeration_position("1a22b333c4"), Ok((5, 7, 3)));
    assert_eq!(find_enumeration_position("/10/20/3"), Ok((4, 5, 2)));
}

#[test]
fn run_may_start_the_path_or_fill_it() {
    assert_eq!(find_enumeration_position("12/abc"), Ok((0, 1, 2)));
    assert_eq!(find_enumeration_position("12"), Ok((0, 1, 2)));
    assert_eq!(find_enumeration_position("0123456789"), Ok((0, 9, 10)));
}

#[test]
fn width_is_the_length_of_the_run() {
    for digits in 2..40usize {
        let path = format!("/p/{}.x", "0".repeat(digits));
        assert_eq!(find_enumeration_position(&path), Ok((3, 3 + digits - 1, digits)));
    }
}

#[test]
fn positions_count_characters() {
    assert_eq!(find_enumeration_position("/\u{e9}t\u{e9}/007"), Ok((5, 7, 3)));
}

#[test]
fn only_the_ten_decimal_digits_count() {
    for c in '0'..='9' {
        assert!(is_decimal_digit(c));
    }
    for c in ['/', ':', 'a', 'Z', ' ', '\u{663}', '\u{bd}', '\u{ff11}'] {
        assert!(!is_decimal_digit(c));
    }
    assert!(find_enumeration_position("/\u{661}\u{662}\u{663}").is_err());
}

#[test]
fn chars_of_lists_the_characters() {
    assert_eq!(chars_of(""), Vec::<char>::new());
    assert_eq!(chars_of("a/\u{e9}1"), vec!['a', '/', '\u{e9}', '1']);
}
