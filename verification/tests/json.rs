use agent_loop_core::{Json, JsonMap, Number};
use serde_json::Value;

fn json(text: &str) -> Json {
    Json::parse(text).unwrap()
}

#[test]
fn text_is_read_as_the_value_it_is() {
    assert_eq!(json("null"), Json::Null);
    assert_eq!(json(" true "), Json::Bool(true));
    assert_eq!(json("18446744073709551615"), Json::Number(Number::PosInt(u64::MAX)));
    assert_eq!(json("-9223372036854775808"), Json::Number(Number::NegInt(i64::MIN)));
    assert_eq!(json("1.5e3"), Json::Number(Number::Float("1500.0".into())));
    assert_eq!(json("\"a\\u00e9\\n\""), Json::text("aé\n"));
    assert_eq!(json("[1, []]"), Json::Array(vec![json("1"), Json::Array(vec![])]));
    assert_eq!(json(r#"{"a": {"b": null}}"#).at("a").get("b"), Some(&Json::Null));
}

#[test]
fn text_that_is_no_json_is_refused_with_the_reason() {
    for text in ["", "{", "nul", "[1,]", "{\"a\" 1}"] {
        let reason = serde_json::from_str::<Value>(text).unwrap_err().to_string();
        assert_eq!(Json::parse(text).unwrap_err(), reason);
    }
}

#[test]
fn a_value_is_written_as_compact_text() {
    let text = r#"{"a":[1,-2,0.1,1e300],"b":"x\"y","c":{},"d":[true,false,null]}"#;
    let value: Value = serde_json::from_str(text).unwrap();
    assert_eq!(json(text).to_string(), value.to_string());
    assert_eq!(json(" [ 1 , 2 ] ").to_string(), "[1,2]");
    assert_eq!(json(&json(text).to_string()), json(text));
    assert_eq!(Json::Number(Number::Float("no number".into())).to_string(), "null");
}

#[test]
fn the_order_of_members_does_not_matter() {
    assert_eq!(json(r#"{"a": 1, "b": 2}"#), json(r#"{"b": 2, "a": 1}"#));
    assert_ne!(json(r#"{"a": 1}"#), json(r#"{"a": 1, "b": 2}"#));
    assert_ne!(json(r#"{"a": 1}"#), json(r#"{"a": 2}"#));
    assert_ne!(json("[1, 2]"), json("[2, 1]"));
    assert_eq!(json(r#"{"a": 1, "a": 2}"#), json(r#"{"a": 2}"#));
}

#[test]
fn members_are_set_replaced_and_removed() {
    let mut map = JsonMap::new();
    assert_eq!(map.get("a"), None);
    map.insert("a".into(), json("1"));
    map.insert("b".into(), json("2"));
    map.set("a", json("3"));
    assert_eq!(map.get("a"), Some(&json("3")));
    let mut other = JsonMap::new();
    other.insert("b".into(), json("4"));
    other.insert("c".into(), json("5"));
    map.extend_from(&other);
    assert_eq!(Json::Object(map.clone()), json(r#"{"a": 3, "b": 4, "c": 5}"#));
    map.remove("b");
    map.remove("missing");
    assert_eq!(Json::Object(map), json(r#"{"a": 3, "c": 5}"#));
}

#[test]
fn a_value_is_read_as_what_it_is_or_not_at_all() {
    assert_eq!(json("5").as_u64(), Some(5));
    assert_eq!(json("-5").as_u64(), None);
    assert_eq!(json("5.0").as_u64(), None);
    assert_eq!(json("\"s\"").as_str(), Some("s"));
    assert_eq!(json("1").as_str(), None);
    assert_eq!(json("1").str_or("d"), "d");
    assert!(json("\"s\"").is_str("s"));
    assert!(!json("\"s\"").is_str("t"));
    assert!(!json("1").is_str("1"));
    assert_eq!(json("[1, 2]").first(), Some(&json("1")));
    assert_eq!(json("[]").first(), None);
    assert_eq!(json(r#"{"0": 7}"#).first(), Some(&json("7")));
    assert_eq!(json("\"text\"").at("x"), &Json::Null);
    assert_eq!(json("[1]").get("x"), None);
    assert!(json("null").is_null());
}
