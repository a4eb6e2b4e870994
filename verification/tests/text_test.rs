use kitewright::json::{serde_json_string, Json};
use kitewright::text::{
    bytes_up_to, cap, contains_text, decimal_text, join_texts, lowered, non_blank_texts,
    parse_unsigned, signed_decimal_text, split_text, to_chars, trimmed,
};

fn parse(s: &str) -> Json {
    match Json::parse(s) {
        Ok(j) => j,
        Err(e) => panic!("{s}: {e}"),
    }
}

#[test]
fn cap_respects_char_boundaries() {
    let s = "héllo wörld".repeat(100);
    let capped = cap(s.clone(), 50);
    assert!(capped.len() < s.len());
    assert!(capped.ends_with("[... truncated ...]"));
    // must not panic on multi-byte boundaries
    let _ = cap("日本語テスト".to_string(), 4);
}

#[test]
fn cap_leaves_short_strings_alone() {
    assert_eq!(cap("short".to_string(), 100), "short");
}

#[test]
fn cap_cuts_before_the_character_that_does_not_fit() {
    assert_eq!(cap("日本語".to_string(), 4), "日\n[... truncated ...]");
    assert_eq!(cap("日本語".to_string(), 9), "日本語");
    assert_eq!(cap("abc".to_string(), 0), "\n[... truncated ...]");
    assert_eq!(cap(String::new(), 0), "");
}

#[test]
fn selector_is_json_escaped() {
    assert_eq!(serde_json_string(r#"a[href="x"]"#), r#""a[href=\"x\"]""#);
}

#[test]
fn string_literals_escape_control_characters() {
    let s = "\"\\/\u{8}\t\n\u{c}\r\u{1}\u{1f}\u{7f}é😀\u{2028}";
    assert_eq!(serde_json_string(s), serde_json::to_string(s).unwrap());
    assert_eq!(serde_json_string("\u{1}\u{1f}"), "\"\\u0001\\u001f\"");
    assert!(serde_json_string(s).chars().all(|c| c as u32 >= 0x20));
}

#[test]
fn json_prints_like_its_source() {
    for doc in [
        "null",
        "true",
        "-12",
        "18446744073709551615",
        "1.5",
        "[]",
        "{}",
        "[[],{}]",
        "{\"a\":{},\"b\":[[1]]}",
        "-0.0",
        "1e300",
        "-9223372036854775808",
        "[1,\"a\\n\",[false,null]]",
        "{\"a\":{\"b\":[1,2]},\"c\":\"\\\"\"}",
    ] {
        let v: serde_json::Value = serde_json::from_str(doc).unwrap();
        assert_eq!(parse(doc).to_text(), v.to_string(), "{doc}");
        assert_eq!(parse(doc).copy().to_text(), v.to_string(), "{doc}");
        assert_eq!(
            parse(doc).to_pretty(),
            serde_json::to_string_pretty(&v).unwrap(),
            "{doc}"
        );
    }
}

#[test]
fn json_text_is_read_back() {
    for doc in [
        "{\"a\":[1,-2,\"\\u0000\\n\u{e9}\"],\"b\":{\"c\":null,\"d\":true}}",
        "[18446744073709551615,-9223372036854775808,0]",
        "[1.5,-0.0,1e300,0.1]",
    ] {
        let once = parse(doc);
        assert!(parse(&once.to_text()).equals(&once), "{doc}");
        assert_eq!(parse(&once.to_text()).to_text(), once.to_text(), "{doc}");
        assert_eq!(parse(&once.to_pretty()).to_text(), once.to_text(), "{doc}");
    }
    let nested = format!("{}{}", "[".repeat(127), "]".repeat(127));
    assert_eq!(parse(&nested).to_text(), nested);
    assert!(Json::parse(&format!("[{nested}]")).is_err());
}

#[test]
fn json_errors_say_where() {
    let e = Json::parse("{\"a\":").err().unwrap();
    assert_eq!(e, "EOF while parsing a value at line 1 column 5");
    assert!(Json::parse("").is_err());
    assert!(Json::parse("1 2").is_err());
}

#[test]
fn json_objects_are_in_key_order() {
    assert_eq!(parse("{\"b\":1,\"a\":2,\"b\":3}").to_text(), "{\"a\":2,\"b\":3}");
}

#[test]
fn json_members_and_kinds() {
    let j = parse("{\"s\":\"x\",\"b\":true,\"a\":[1],\"n\":null}");
    assert_eq!(j.str_at("s"), Some("x"));
    assert_eq!(j.str_at("b"), None);
    assert_eq!(j.bool_at("b"), Some(true));
    assert_eq!(j.array_at("a").map(|v| v.len()), Some(1));
    assert!(j.get("n").is_some());
    assert!(j.get("missing").is_none());
    assert!(parse("3").get("s").is_none());
}

#[test]
fn json_equality_is_by_value_and_kind() {
    assert!(parse("[1,2.5,{\"a\":\"b\"}]").equals(&parse("[1,2.5,{\"a\":\"b\"}]")));
    assert!(!parse("[1,2]").equals(&parse("[1,3]")));
    assert!(!parse("[1]").equals(&parse("[1,1]")));
    assert!(!parse("1").equals(&parse("1.0")));
    assert!(parse("0.0").equals(&parse("-0.0")));
    assert!(!parse("{\"a\":1}").equals(&parse("{\"b\":1}")));
}

#[test]
fn trimming_and_lowering() {
    assert_eq!(trimmed(" \t\u{a0}\u{2003}x y\u{3000}\n"), "x y");
    assert_eq!(trimmed("\u{200b}x"), "\u{200b}x");
    assert_eq!(trimmed("   "), "");
    assert_eq!(lowered("AbZ-É0"), "abz-É0");
}

#[test]
fn splitting_joining_searching() {
    assert_eq!(split_text(&to_chars("a,,b"), ','), vec!["a", "", "b"]);
    assert_eq!(split_text(&to_chars(""), ','), vec![""]);
    assert_eq!(non_blank_texts(" a , ,b,", ','), vec!["a", "b"]);
    assert_eq!(
        join_texts(&vec!["a".to_string(), "b".to_string()], "; "),
        "a; b"
    );
    assert!(contains_text("hay needle", "needle"));
    assert!(contains_text("hay", ""));
    assert!(!contains_text("hay", "haystack"));
}

#[test]
fn numbers_as_text() {
    assert_eq!(decimal_text(0), "0");
    assert_eq!(decimal_text(u64::MAX), u64::MAX.to_string());
    assert_eq!(signed_decimal_text(i64::MIN), i64::MIN.to_string());
    assert_eq!(signed_decimal_text(-7), "-7");
}

#[test]
fn unsigned_numbers_parse_like_the_standard_library() {
    for s in ["0", "+5", "007", "", "+", "-1", " 1", "1 ", "256", "255", "1a", "++1"] {
        let want = s.parse::<u8>().ok().map(|n| n as u64);
        assert_eq!(parse_unsigned(&to_chars(s), 255), want, "{s:?}");
    }
    for s in ["18446744073709551615", "18446744073709551616", "99999999999999999999999"] {
        let want = s.parse::<u64>().ok();
        assert_eq!(parse_unsigned(&to_chars(s), u64::MAX), want, "{s:?}");
    }
}

#[test]
fn byte_counts_stop_at_the_limit() {
    assert_eq!(bytes_up_to("aé日😀", 100), 10);
    assert_eq!(bytes_up_to("aé日😀", 6), 6);
    assert_eq!(bytes_up_to("aé日😀", 5), 5);
}
