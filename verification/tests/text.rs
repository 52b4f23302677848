//! The models of texts and of JSON.

use gemini_acp::json::{distinct_members, Json};
use gemini_acp::text;

#[test]
fn white_space_is_that_of_unicode() {
    for c in (0..=0x10ffffu32).filter_map(char::from_u32) {
        assert_eq!(text::is_white_space(c), c.is_whitespace(), "{:x}", c as u32);
    }
}

#[test]
fn texts_are_searched_as_by_the_standard_library() {
    let texts = ["", "a", "aa", "abc", "é🚀é", "ab\r\ncd\n", "\n", "x\n\ny", " a b "];
    let patterns = ["", "a", "b", "aa", "é", "🚀é", "\n", "zz"];
    for s in texts {
        for p in patterns {
            assert_eq!(text::contains(s, p), s.contains(p));
            assert_eq!(text::starts_with(s, p), s.starts_with(p));
            assert_eq!(text::ends_with(s, p), s.ends_with(p));
            assert_eq!(text::strip_prefix(s, p), s.strip_prefix(p));
            assert_eq!(text::strip_suffix(s, p), s.strip_suffix(p));
            assert_eq!(text::split_once(s, p), s.split_once(p));
            if !p.is_empty() {
                assert_eq!(text::count_matches(s, p), s.matches(p).count());
            }
        }
        assert_eq!(text::trim(s), s.trim());
        assert_eq!(text::lines(s), s.lines().collect::<Vec<_>>());
        assert_eq!(text::split(s, '\n'), s.split('\n').collect::<Vec<_>>());
        assert_eq!(text::byte_len(s), s.len());
        assert_eq!(text::char_count(s), s.chars().count());
        assert_eq!(text::to_ascii_lowercase(s), s.to_ascii_lowercase());
    }
}

#[test]
fn numbers_are_read_as_by_the_standard_library() {
    for s in ["", "0", "7", "+7", "-7", "007", "x", "1x", "65535", "65536", "18446744073709551615",
        "18446744073709551616", "99999999999999999999999"]
    {
        assert_eq!(text::parse_unsigned(s, u64::MAX), s.parse::<u64>().ok(), "{s}");
        assert_eq!(text::parse_unsigned(s, u16::MAX as u64), s.parse::<u16>().ok().map(u64::from));
        assert_eq!(text::parse_signed(s), s.parse::<i64>().ok(), "{s}");
    }
    for n in [0, 9, 10, 12345, u64::MAX] {
        assert_eq!(text::decimal_text(n), n.to_string());
        assert_eq!(text::parse_unsigned(&text::decimal_text(n), u64::MAX), Some(n));
    }
    for n in [i64::MIN, -1, 0, i64::MAX] {
        assert_eq!(text::signed_text(n), n.to_string());
        assert_eq!(text::parse_signed(&text::signed_text(n)), Some(n));
    }
}

#[test]
fn json_is_read_and_printed() {
    let source = r#"{"b":[1,2.5,-3,null,true],"a":{"x":"é\n"}}"#;
    let value = Json::parse(source).unwrap();
    assert_eq!(value.print(), source);
    assert_eq!(Json::parse("{"), None);
    assert_eq!(Json::parse_bytes(source.as_bytes()), Some(value));
    assert_eq!(Json::parse_bytes(&[0xff]), None);
    assert_eq!(
        Json::parse(r#"{"a":[1]}"#).unwrap().print_pretty(),
        "{\n  \"a\": [\n    1\n  ]\n}"
    );
    assert_eq!(Json::from_signed(-4).print(), "-4");
}

#[test]
fn a_member_written_twice_keeps_its_place() {
    let value = Json::object()
        .with("a", Json::from_integer(1))
        .with("b", Json::from_integer(2))
        .with("a", Json::from_integer(3));
    assert_eq!(value.print(), r#"{"a":3,"b":2}"#);
    assert_eq!(value.get("a"), Some(&Json::from_integer(3)));
    assert_eq!(value.get("c"), None);
    match value {
        Json::Object(members) => assert_eq!(distinct_members(members).len(), 2),
        _ => panic!("an object is expected"),
    }
    assert_eq!(Json::parse(r#"{"a":1,"b":2,"a":3}"#).unwrap().print(), r#"{"a":3,"b":2}"#);
}

#[test]
fn values_are_the_same_whatever_the_order_of_members() {
    let a = Json::parse(r#"{"x":1,"y":2}"#).unwrap();
    let b = Json::parse(r#"{"y":2,"x":1}"#).unwrap();
    assert!(a.same(&b));
    assert!(!a.same(&Json::parse(r#"{"x":1}"#).unwrap()));
}
