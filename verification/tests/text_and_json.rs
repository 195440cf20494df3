use codex_proxy::json::{Json, JsonMap};
use codex_proxy::sse::{line_data, line_text, LineBuffer, LineData};
use codex_proxy::text::{
    chars_of, contains_text, decimal_text, is_blank, is_white_space, join, lines, parse_number,
    same_text, starts_with, strip_prefix, to_ascii_lowercase, trim,
};

#[test]
fn white_space_is_that_of_the_standard_library() {
    for u in 0..=0x10ffff_u32 {
        if let Some(c) = char::from_u32(u) {
            assert_eq!(is_white_space(c), c.is_whitespace(), "{:x}", u);
        }
    }
}

#[test]
fn texts_are_read_as_the_standard_library_reads_them() {
    for s in [
        "",
        " ",
        "a",
        " a b ",
        "\u{3000}x\u{a0}",
        "data: x",
        "line\r\nother\n\nlast\r",
        "\n",
        "a\rb\n",
        "\u{1f600}\u{e9}Z",
        "+12",
        "007",
        "1x",
        "18446744073709551616",
    ] {
        assert_eq!(trim(s), s.trim());
        assert_eq!(is_blank(s), s.trim().is_empty());
        assert_eq!(chars_of(s), s.chars().collect::<Vec<char>>());
        assert_eq!(lines(s), s.lines().map(|l| l.to_string()).collect::<Vec<String>>());
        assert_eq!(to_ascii_lowercase(s), s.to_ascii_lowercase());
        assert_eq!(parse_number(s, u64::MAX), s.parse::<u64>().ok());
        assert_eq!(parse_number(s, 255), s.parse::<u8>().ok().map(|n| n as u64));
        for t in ["", "a", "data: ", "\u{e9}", "b ", "x"] {
            assert_eq!(starts_with(s, t), s.starts_with(t));
            assert_eq!(strip_prefix(s, t), s.strip_prefix(t));
            assert_eq!(contains_text(s, t), s.contains(t));
            assert_eq!(same_text(s, t), s == t);
        }
    }
    for n in [0, 7, 10, 99, 100, 12345, u64::MAX] {
        assert_eq!(decimal_text(n), n.to_string());
    }
    let parts = vec!["a".to_string(), String::new(), "b".to_string()];
    assert_eq!(join(&parts, ", "), "a, , b");
    assert_eq!(join(&vec![], ", "), "");
}

#[test]
fn values_go_to_serde_json_and_back() {
    for text in [
        "null",
        "true",
        "-3",
        "18446744073709551615",
        "1.25",
        "\"a\\n\"",
        "[]",
        "[1,[2,{}]]",
        "{\"b\":[null],\"a\":{\"c\":\"d\"}}",
    ] {
        let value: serde_json::Value = serde_json::from_str(text).unwrap();
        let json = Json::parse(text).unwrap();
        assert_eq!(json.to_value(), value);
        assert_eq!(Json::from_value(value.clone()).to_value(), value);
        assert_eq!(json.clone().to_value(), value);
        assert_eq!(json.display(), value.to_string());
        assert_eq!(json.encode(), serde_json::to_string(&value).unwrap());
        assert_eq!(json.encode_pretty(), serde_json::to_vec_pretty(&value).unwrap());
        assert_eq!(Json::parse_bytes(text.as_bytes()).unwrap().to_value(), value);
        assert_eq!(json.as_u64(), value.as_u64());
        assert_eq!(json.as_i64(), value.as_i64());
        assert_eq!(json.as_bool(), value.as_bool());
        assert_eq!(json.as_str(), value.as_str());
        assert_eq!(json.as_array().is_some(), value.is_array());
    }
    assert!(Json::parse("{").is_err());
    assert!(Json::parse_bytes(&[0xff]).is_none());
    assert_eq!(Json::unsigned(u64::MAX).as_u64(), Some(u64::MAX));
    assert_eq!(Json::signed(i64::MIN).as_i64(), Some(i64::MIN));
}

#[test]
fn members_are_set_and_taken_away() {
    let mut v = Json::Null.with("a", Json::unsigned(1)).with("b", Json::Bool(true));
    v.set("a", Json::text("x"));
    assert_eq!(v.get_str("a"), Some("x"));
    assert!(v.member_is("a", "x"));
    assert!(v.get_flag("b"));
    assert!(!v.get_flag("a"));
    v.unset("a");
    assert!(v.get("a").is_none());
    let mut twice = Json::parse("{\"k\":1,\"k\":2}").unwrap();
    assert_eq!(twice.get("k").unwrap().as_u64(), Some(2));
    twice.unset("k");
    assert!(twice.get("k").is_none());
    let mut text = Json::text("t");
    text.unset("k");
    assert_eq!(text.as_str(), Some("t"));
}

#[test]
fn the_private_key_of_the_parser_is_read_back_unless_it_comes_first() {
    let key = "$serde_json::private::RawValue";
    let odd = Json::object().with(key, Json::text("1"));
    let text = odd.encode();
    assert_eq!(text, "{\"$serde_json::private::RawValue\":\"1\"}");
    assert_eq!(Json::parse(&text).unwrap().as_u64(), Some(1));
    let second = Json::parse("{\"!\":0,\"$serde_json::private::RawValue\":\"x\"}").unwrap();
    assert_eq!(second.get_str(key), Some("x"));
    let behind = odd.clone().with("!", Json::unsigned(0));
    let text = behind.encode();
    assert_eq!(text, "{\"!\":0,\"$serde_json::private::RawValue\":\"1\"}");
    assert_eq!(Json::parse(&text).unwrap().to_value(), behind.to_value());
    let nested = Json::object().with("o", behind);
    let members = JsonMap::parse(&nested.encode_pretty()).unwrap();
    assert_eq!(members.get("o").unwrap().to_value(), nested.get("o").unwrap().to_value());
    let before = odd.clone().with("%", Json::unsigned(0));
    assert_eq!(before.encode(), "{\"$serde_json::private::RawValue\":\"1\",\"%\":0}");
    assert!(Json::parse(&before.encode()).is_err());
    let members = JsonMap::parse(&odd.encode_pretty()).unwrap();
    assert!(matches!(members.get(key), Some(Json::Str(s)) if s == "1"));
}

#[test]
fn the_later_of_two_entries_counts() {
    let entries = vec![
        ("k".to_string(), Json::unsigned(1)),
        ("j".to_string(), Json::unsigned(2)),
        ("k".to_string(), Json::unsigned(3)),
    ];
    let json = Json::Object(JsonMap { entries });
    assert_eq!(json.get("k").unwrap().as_u64(), Some(3));
    assert_eq!(json.encode(), "{\"j\":2,\"k\":3}");
}

#[test]
fn members_are_parsed() {
    let map = JsonMap::parse(b"{\"a\":1,\"a\":[2]}").unwrap();
    assert_eq!(map.get("a").unwrap().as_array().unwrap().len(), 1);
    assert!(JsonMap::parse(b"null").is_none());
    assert!(JsonMap::parse(b"[1,2]").is_none());
}

#[test]
fn nesting_is_parsed_as_deep_as_it_is_said() {
    let nested = |n: usize| format!("{}{}", "[".repeat(n), "]".repeat(n));
    assert!(Json::parse(&nested(127)).is_ok());
    assert!(Json::parse(&nested(128)).is_err());
}

#[test]
fn lines_come_out_of_chunks() {
    let mut buffer = LineBuffer::new();
    assert_eq!(buffer.next_line(), None);
    buffer.feed(b"ab");
    assert_eq!(buffer.next_line(), None);
    buffer.feed(b"c\n\nd\ne");
    assert_eq!(buffer.next_line(), Some(b"abc\n".to_vec()));
    assert_eq!(buffer.next_line(), Some(b"\n".to_vec()));
    assert_eq!(buffer.next_line(), Some(b"d\n".to_vec()));
    assert_eq!(buffer.next_line(), None);
    assert_eq!(buffer.take_rest(), b"e".to_vec());
    assert_eq!(buffer.take_rest(), Vec::<u8>::new());
}

#[test]
fn data_comes_out_of_lines() {
    assert!(matches!(line_data("data: [DONE] "), LineData::Done));
    assert!(matches!(line_data("data:  "), LineData::Nothing));
    assert!(matches!(line_data("data:x"), LineData::Nothing));
    assert!(matches!(line_data("event: x"), LineData::Nothing));
    match line_data("data:  {} \r") {
        LineData::Data(d) => assert_eq!(d, "{}"),
        _ => panic!("no data"),
    }
    assert_eq!(line_text(b"a\r\n\r\n"), "a");
    assert_eq!(line_text(b"\xff\n"), "\u{fffd}");
}
