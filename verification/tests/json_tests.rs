use claude_history::json::{
    bool_field, compact_json, display_json, i64_field, parse, str_field, try_text, Fields, Json,
};

#[test]
fn values_are_read_by_key() {
    let v = parse(r#"{"type":"user","n":3,"big":9223372036854775808,"f":1.5,"b":true,"o":{"x":null}}"#)
        .unwrap();
    assert_eq!(str_field(&v, "type"), Some("user".to_string()));
    assert_eq!(str_field(&v, "n"), None);
    assert_eq!(i64_field(&v, "n"), Some(3));
    assert_eq!(i64_field(&v, "big"), None);
    assert_eq!(i64_field(&v, "f"), None);
    assert_eq!(i64_field(&v, "type"), None);
    assert_eq!(bool_field(&v, "b"), Some(true));
    assert_eq!(bool_field(&v, "n"), None);
    assert!(matches!(v.get("o").unwrap().get("x"), Some(Json::Null)));
    assert!(v.get("missing").is_none());
    assert!(v.get("type").unwrap().get("x").is_none());
}

#[test]
fn the_last_of_two_equal_keys_counts() {
    let v = parse(r#"{"a":1,"a":2}"#).unwrap();
    assert_eq!(i64_field(&v, "a"), Some(2));
    let made = Fields::new()
        .with("a", Json::from_i64(1))
        .with("b", Json::Null)
        .with("a", Json::from_i64(2))
        .object();
    assert_eq!(i64_field(&made, "a"), Some(2));
    assert_eq!(compact_json(&made), r#"{"a":2,"b":null}"#);
}

#[test]
fn malformed_text_is_no_value() {
    assert!(parse("{\"type\":").is_none());
    assert!(parse("").is_none());
    assert!(parse("{} {}").is_none());
    assert!(parse("not json").is_none());
}

#[test]
fn values_print_as_they_were_read() {
    for text in [
        "null",
        "true",
        "-12",
        "1.5",
        "18446744073709551615",
        r#""a \"quoted\" word""#,
        r#"[1,[],{"k":[null,false]}]"#,
        r#"{"a":{"b":"c"},"z":[{}]}"#,
    ] {
        let v = parse(text).unwrap();
        assert_eq!(compact_json(&v), text);
        assert_eq!(try_text(&v), Some(text.to_string()));
        assert_eq!(display_json(&v), text);
    }
}

#[test]
fn spaces_are_left_out_of_compact_text() {
    assert_eq!(compact_json(&parse("{ \"a\" : [ 1 , 2 ] }").unwrap()), r#"{"a":[1,2]}"#);
}

#[test]
fn made_values_hold_what_they_were_made_of() {
    assert_eq!(Json::from_i64(i64::MIN).as_i64(), Some(i64::MIN));
    assert_eq!(compact_json(&Json::from_i64(-7)), "-7");
    assert_eq!(Json::from_opt(&Some("x".to_string())).as_str(), Some("x"));
    assert!(matches!(Json::from_opt(&None), Json::Null));
    assert_eq!(Json::from_flag(Some(false)).as_bool(), Some(false));
    assert!(matches!(Json::from_flag(None), Json::Null));
}
