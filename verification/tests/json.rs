use condukt::json::{parse, parse_or_why, spell, Json};

#[test]
fn a_document_is_opened_up() {
    let j = parse(r#"{"b":[null,true,-3,1.5,"x\n"],"a":18446744073709551615}"#).unwrap();
    assert_eq!(j.get("a").unwrap().as_u64(), Some(u64::MAX));
    assert_eq!(j.get("a").unwrap().as_i64(), None);
    match j.get("b").unwrap() {
        Json::Array(items) => {
            assert!(matches!(items[0], Json::Null));
            assert_eq!(items[1].as_bool(), Some(true));
            assert_eq!(items[2].as_i64(), Some(-3));
            assert_eq!(items[2].as_u64(), None);
            assert_eq!(items[3].as_i64(), None);
            assert_eq!(items[4].as_text().map(|s| s.as_str()), Some("x\n"));
            match &items[3] {
                Json::Number(n) => assert_eq!(n.text, "1.5"),
                other => panic!("expected a number, got {other:?}"),
            }
        }
        other => panic!("expected a list, got {other:?}"),
    }
    assert!(j.get("c").is_none());
    assert!(parse("[1]").unwrap().get("a").is_none());
}

#[test]
fn what_is_no_document_is_refused_with_a_reason() {
    assert!(parse("{").is_none());
    assert!(parse("1 2").is_none());
    let why = parse_or_why("nope").unwrap_err();
    assert!(why.contains("line 1"), "{why}");
    assert!(parse_or_why("[]").is_ok());
}

#[test]
fn a_text_is_spelt_as_it_is_read() {
    for s in ["", "plain", "q\"b\\", "\u{1}\u{8}\u{9}\u{a}\u{c}\u{d}\u{1f}", "é→"] {
        let spelt = spell(s);
        assert_eq!(parse(&spelt).unwrap().as_text().map(|t| t.as_str()), Some(s));
    }
    assert_eq!(spell("a\"\u{1}"), "\"a\\\"\\u0001\"");
    assert_eq!(spell("\u{8}\u{c}\r\t\n\\"), "\"\\b\\f\\r\\t\\n\\\\\"");
}

#[test]
fn a_member_is_looked_up_as_a_text() {
    let j = parse(r#"{"a":"x","b":1}"#).unwrap();
    assert_eq!(j.text_at("a").map(|s| s.as_str()), Some("x"));
    assert!(j.text_at("b").is_none());
    assert!(j.text_at("c").is_none());
}
