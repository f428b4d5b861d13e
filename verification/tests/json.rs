use hrns::json::{
    copy_fields, from_value, json_eq, no_fields, parse_json, put, take, text_array,
    to_value, with, Json,
};

fn json(s: &str) -> Json {
    parse_json(s).unwrap()
}

#[test]
fn text_is_read_and_written() {
    let j = json(" {\"b\": [1, -2, 3.5, null], \"a\": {\"x\": true}, \"a b\": \"\\u00e9\\n\"} ");
    assert_eq!(j.render(), "{\"a\":{\"x\":true},\"a b\":\"\u{e9}\\n\",\"b\":[1,-2,3.5,null]}");
    assert_eq!(
        json("{\"a\":[1]}").render_pretty(),
        Ok("{\n  \"a\": [\n    1\n  ]\n}".to_string())
    );
    assert_eq!(json("{\"a\": 1}").encode(), Ok(b"{\"a\":1}".to_vec()));
}

#[test]
fn what_is_no_json_is_refused() {
    let message = parse_json("{\"a\": }").unwrap_err();
    assert!(message.contains("expected value"), "{}", message);
    assert!(message.contains("line 1 column 7"), "{}", message);
    assert!(parse_json("").is_err());
    assert!(parse_json("1 2").is_err());
}

#[test]
fn of_two_fields_with_one_key_the_later_counts() {
    assert_eq!(json("{\"a\":1,\"a\":2}"), json("{\"a\":2}"));
}

#[test]
fn values_go_to_the_parser_crate_and_back() {
    let text = "{\"a\":[null,true,1,\"s\",{}],\"b\":-7,\"c\":18446744073709551615}";
    let v: serde_json::Value = serde_json::from_str(text).unwrap();
    let j = from_value(&v);
    assert_eq!(j, json(text));
    assert_eq!(to_value(&j), v);
}

#[test]
fn equality_is_that_of_the_parts() {
    let a = json("{\"a\":[1,2],\"b\":{\"c\":null}}");
    assert!(json_eq(&a, &json("{\"b\":{\"c\":null},\"a\":[1,2]}")));
    assert!(!json_eq(&a, &json("{\"a\":[1,2]}")));
    assert!(!json_eq(&a, &json("{\"a\":[1,3],\"b\":{\"c\":null}}")));
    assert!(!json_eq(&a, &json("{\"a\":[1,2],\"d\":{\"c\":null}}")));
    assert!(!json_eq(&json("[1]"), &json("[1,1]")));
    assert!(!json_eq(&json("1"), &json("1.0")));
    assert!(!json_eq(&json("null"), &json("false")));
    assert!(json_eq(&json("\"x\""), &Json::text("x")));
}

#[test]
fn copies_are_equal_and_independent() {
    let a = json("{\"a\":[1,{\"b\":\"c\"}]}");
    let b = a.copy();
    assert_eq!(a, b);
    let fields = a.as_object().unwrap();
    let mut copy = copy_fields(fields);
    put(&mut copy, "z".to_string(), Json::Null);
    assert_eq!(fields.len(), 1);
    assert_eq!(copy.len(), 2);
    assert_eq!(take(&mut copy, "z"), Some(Json::Null));
    assert_eq!(take(&mut copy, "z"), None);
}

#[test]
fn values_are_built_and_taken_apart() {
    let j = Json::object(with(no_fields(), "n", Json::number(7)));
    assert_eq!(j, json("{\"n\":7}"));
    assert_eq!(Json::integer(-7), json("-7"));
    assert_eq!(Json::integer(7), Json::number(7));
    assert_eq!(text_array(&["a".to_string(), "b".to_string()]), json("[\"a\",\"b\"]"));
    assert_eq!(j.get("n"), Some(&Json::number(7)));
    assert_eq!(j.get("m"), None);
    assert_eq!(Json::Null.get("n"), None);
    assert_eq!(Json::text("s").as_str(), Some(&"s".to_string()));
    assert_eq!(j.as_str(), None);
    assert!(j.as_array().is_none());
    assert!(Json::Bool(true).as_object().is_none());
}
