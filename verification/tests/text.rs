use hipfire_serve::json::{read_bool, read_string, read_u64};
use hipfire_serve::text::{
    chars_of, contains, decimal, is_white_space, join2, join3, parse_u64, same_text, string_of,
    trim_range,
};

#[test]
fn white_space_is_that_of_unicode() {
    for v in 0..=0x10ffffu32 {
        if let Some(c) = char::from_u32(v) {
            assert_eq!(is_white_space(c), c.is_whitespace(), "U+{v:04X}");
        }
    }
}

#[test]
fn decimals_and_numbers() {
    for n in [0, 9, 10, 907, u64::MAX] {
        assert_eq!(decimal(n), n.to_string());
        let c = chars_of(&decimal(n));
        assert_eq!(parse_u64(&c, 0, c.len()), Some(n));
    }
    for s in ["", "+", "-1", "1a", "18446744073709551616", "++1", "\u{0661}"] {
        let c = chars_of(s);
        assert_eq!(parse_u64(&c, 0, c.len()), s.parse::<u64>().ok(), "{s}");
    }
    let c = chars_of("+007");
    assert_eq!(parse_u64(&c, 0, 4), Some(7));
}

#[test]
fn trimming_and_joining() {
    for s in ["", "  ", " a b\t", "\u{3000}x\u{85}", "x"] {
        let c = chars_of(s);
        let (a, b) = trim_range(&c, 0, c.len());
        assert_eq!(string_of(&c, a, b), s.trim());
    }
    assert_eq!(join2("a", "\u{e9}"), "a\u{e9}");
    assert_eq!(join3("a", "", "b"), "ab");
    assert!(same_text("ab", "ab") && !same_text("ab", "a"));
    assert!(contains(&chars_of("model not found"), "not found"));
    assert!(!contains(&chars_of("model"), "models"));
    assert!(contains(&chars_of(""), ""));
}

#[test]
fn members_are_read_by_kind() {
    let v = serde_json::from_str("{\"s\":\"x\",\"b\":false,\"n\":4,\"m\":-4}").unwrap();
    assert_eq!(read_string(&v, "s"), Some("x"));
    assert_eq!(read_string(&v, "n"), None);
    assert_eq!(read_bool(&v, "b"), Some(false));
    assert_eq!(read_bool(&v, "s"), None);
    assert_eq!(read_u64(&v, "n"), Some(4));
    assert_eq!(read_u64(&v, "m"), None);
    assert_eq!(read_u64(&v, "absent"), None);
}
