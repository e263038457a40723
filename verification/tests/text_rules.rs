use vtiger_client::text::{decimal_text, i32_text, escape_controls_text, parse_i32_text};

#[test]
fn parses_counts_like_str_parse() {
    assert_eq!(parse_i32_text("42"), Some(42));
    assert_eq!(parse_i32_text("+7"), Some(7));
    assert_eq!(parse_i32_text("-0"), Some(0));
    assert_eq!(parse_i32_text("007"), Some(7));
    assert_eq!(parse_i32_text("-2147483648"), Some(i32::MIN));
    assert_eq!(parse_i32_text("2147483647"), Some(i32::MAX));
}

#[test]
fn rejects_what_str_parse_rejects() {
    for s in ["", "+", "-", "2147483648", "-2147483649", "4a", " 4", "4 ", "1.5", "99999999999999999999", "--1", "٣"] {
        assert_eq!(parse_i32_text(s), None, "{s:?}");
        assert_eq!(s.parse::<i32>().ok(), None, "{s:?}");
    }
}

#[test]
fn agrees_with_str_parse_on_samples() {
    for s in ["0", "1", "-1", "+0", "123456", "-99999", "0000000000000000000001"] {
        assert_eq!(parse_i32_text(s), s.parse::<i32>().ok(), "{s:?}");
    }
}

#[test]
fn renders_decimals() {
    assert_eq!(decimal_text(0), "0");
    assert_eq!(decimal_text(7), "7");
    assert_eq!(decimal_text(200), "200");
    assert_eq!(decimal_text(u64::MAX), u64::MAX.to_string());
    assert_eq!(i32_text(-45), "-45");
    assert_eq!(i32_text(i32::MIN), i32::MIN.to_string());
}

#[test]
fn rendered_counts_read_back() {
    for n in [0, 1, 9, 10, 400, i32::MAX, -1, i32::MIN] {
        assert_eq!(parse_i32_text(&i32_text(n)), Some(n));
    }
}

#[test]
fn escapes_line_breaks_and_tabs() {
    assert_eq!(escape_controls_text("a\nb\rc\td"), "a\\nb\\rc\\td");
    assert_eq!(escape_controls_text("plain"), "plain");
    assert_eq!(escape_controls_text(""), "");
    assert_eq!(escape_controls_text("é\n"), "é\\n");
}
