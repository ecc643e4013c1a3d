use lumi_workbench::codec::MAX_NESTING;
use lumi_workbench::json::{put_member, take_member, Json, Member};
use serde_json::Value;

fn value(text: &str) -> Value {
    serde_json::from_str(text).unwrap()
}

fn json(text: &str) -> Json {
    Json::parse(text).unwrap()
}

#[test]
fn values_come_back_unchanged() {
    for t in [
        "null",
        "true",
        "0",
        "-3",
        "18446744073709551615",
        "-9223372036854775808",
        "1.5",
        "1e300",
        "\"月 \\n \\u0001\"",
        "[]",
        "[1,[2,[3]],{\"a\":[]}]",
        "{\"b\":1,\"a\":{\"c\":null}}",
    ] {
        assert_eq!(Json::from_value(value(t)).to_value(), value(t), "{t}");
    }
}

#[test]
fn members_are_found() {
    let j = json("{\"a\":1,\"b\":{\"c\":\"x\"},\"a\":2}");
    assert_eq!(j.get("a").unwrap().as_i64(), Some(2));
    assert_eq!(j.get("b").unwrap().str_at("c"), Some("x"));
    assert!(j.get("c").is_none());
    assert!(json("[1]").get("0").is_none());
    assert!(json("\"a\"").get("a").is_none());
}

#[test]
fn the_later_of_two_members_counts() {
    let j = Json::Object(vec![
        Member { key: "a".to_string(), value: Json::Unsigned(1) },
        Member { key: "a".to_string(), value: Json::Unsigned(2) },
    ]);
    assert_eq!(j.get("a").unwrap().as_u64(), Some(2));
    assert_eq!(j.to_value(), value("{\"a\":2}"));
}

#[test]
fn readers_take_only_their_type() {
    assert_eq!(json("true").as_bool(), Some(true));
    assert_eq!(json("1").as_bool(), None);
    assert_eq!(json("\"x\"").as_str(), Some("x"));
    assert_eq!(json("1").as_str(), None);
    assert_eq!(json("[1,2]").as_array().unwrap().len(), 2);
    assert!(json("{}").as_array().is_none());
    let j = json("{\"t\":\"x\",\"f\":false,\"l\":[1]}");
    assert_eq!(j.str_at("f"), None);
    assert_eq!(j.str_or_empty("f"), "");
    assert_eq!(j.str_or_empty("t"), "x");
    assert_eq!(j.bool_at("f"), Some(false));
    assert_eq!(j.array_at("l").unwrap().len(), 1);
    assert!(j.array_at("t").is_none());
}

#[test]
fn integers_have_both_forms_where_they_fit() {
    for t in ["0", "5", "-5", "9223372036854775807", "9223372036854775808", "1.0", "1e2", "\"5\""] {
        assert_eq!(json(t).as_i64(), value(t).as_i64(), "{t}");
        assert_eq!(json(t).as_u64(), value(t).as_u64(), "{t}");
    }
    assert_eq!(Json::Signed(7).as_u64(), Some(7));
    assert_eq!(Json::Signed(7).to_value(), value("7"));
    assert_eq!(Json::Signed(-7).to_value(), value("-7"));
}

#[test]
fn members_are_put_and_taken() {
    let Json::Object(m) = json("{\"a\":1,\"b\":2}") else { panic!() };
    let m = put_member(m, "a", Json::Null);
    assert_eq!(Json::Object(m).to_value(), value("{\"a\":null,\"b\":2}"));
    let Json::Object(m) = json("{\"a\":1,\"b\":2}") else { panic!() };
    let (rest, found) = take_member(m, "b");
    assert_eq!(Json::Object(rest).to_value(), value("{\"a\":1}"));
    assert_eq!(found.unwrap().as_u64(), Some(2));
    let (rest, found) = take_member(vec![], "b");
    assert!(rest.is_empty());
    assert!(found.is_none());
}

#[test]
fn bad_text_is_no_document() {
    for t in ["", "{", "[1,]", "{\"a\":1}x", "nul", "01"] {
        assert!(Json::parse(t).is_none(), "{t}");
    }
}

#[test]
fn pretty_text_is_indented_and_sorted() {
    assert_eq!(json("{\"b\":[1],\"a\":true}").pretty(), "{\n  \"a\": true,\n  \"b\": [\n    1\n  ]\n}");
    let t = json("{\"b\":[1,-2,\"月\"],\"a\":{\"c\":null}}");
    assert_eq!(Json::parse(&t.pretty()).unwrap().to_value(), t.to_value());
}

#[test]
fn nesting_has_a_limit() {
    let n = MAX_NESTING as usize;
    let deep = |k: usize| format!("{}{}", "[".repeat(k), "]".repeat(k));
    assert!(Json::parse(&deep(n)).is_some());
    assert!(Json::parse(&deep(n + 1)).is_none());
    let j = json(&deep(n));
    assert!(Json::parse(&j.pretty()).is_some());
    let over = Json::Array(vec![json(&deep(n))]);
    assert!(Json::parse(&over.pretty()).is_none());
}
