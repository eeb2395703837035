use jukeboxd::text::{parse_index, to_decimal};

#[test]
fn decimal_forms() {
    assert_eq!(to_decimal(0), "0");
    assert_eq!(to_decimal(7), "7");
    assert_eq!(to_decimal(10), "10");
    assert_eq!(to_decimal(9999), "9999");
    assert_eq!(to_decimal(1234567890), "1234567890");
    assert_eq!(to_decimal(usize::MAX), usize::MAX.to_string());
}

#[test]
fn indices_are_parsed() {
    assert_eq!(parse_index("0"), Some(0));
    assert_eq!(parse_index("42"), Some(42));
    assert_eq!(parse_index("007"), Some(7));
    assert_eq!(parse_index("+5"), Some(5));
    assert_eq!(parse_index(&usize::MAX.to_string()), Some(usize::MAX));
}

#[test]
fn what_spells_no_index_is_refused() {
    assert_eq!(parse_index(""), None);
    assert_eq!(parse_index("+"), None);
    assert_eq!(parse_index("-1"), None);
    assert_eq!(parse_index("1x"), None);
    assert_eq!(parse_index("x1"), None);
    assert_eq!(parse_index(" 1"), None);
    assert_eq!(parse_index("++1"), None);
    assert_eq!(parse_index("1.5"), None);
    assert_eq!(parse_index("\u{0661}"), None);
}

#[test]
fn too_large_an_index_is_refused() {
    let mut text = usize::MAX.to_string();
    text.push('0');
    assert_eq!(parse_index(&text), None);
    assert_eq!(parse_index("340282366920938463463374607431768211456"), None);
}

#[test]
fn parsing_agrees_with_the_standard_library() {
    for text in ["0", "12", "+12", "", "+", "-3", "a", "0012", "18446744073709551616"] {
        assert_eq!(parse_index(text), text.parse::<usize>().ok());
    }
}

#[test]
fn decimal_form_is_parsed_back() {
    for n in [0usize, 1, 9, 10, 99, 100, 12345, usize::MAX] {
        assert_eq!(parse_index(&to_decimal(n)), Some(n));
    }
}
