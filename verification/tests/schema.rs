use hrns::json::{parse_json, Json};
use hrns::schema::{
    build_parameters_schema, choice_complaint, type_matches, validate_args, value_type_name,
};
use hrns::table::Table;

fn json(s: &str) -> Json {
    parse_json(s).unwrap()
}

fn params(list: &[(&str, &str)]) -> Table<Json> {
    let mut t = Table::new();
    for (k, v) in list {
        t.insert(k.to_string(), json(v));
    }
    t
}

fn property<'a>(schema: &'a Json, name: &str, key: &str) -> Option<&'a Json> {
    schema.get("properties").unwrap().get(name).unwrap().get(key)
}

#[test]
fn parameters_schema_string_shorthand() {
    let schema = build_parameters_schema(&params(&[("trait", "\"the trait name\"")]));
    assert_eq!(property(&schema, "trait", "type"), Some(&json("\"string\"")));
    assert_eq!(property(&schema, "trait", "description"), Some(&json("\"the trait name\"")));
    assert_eq!(schema.get("required"), Some(&json("[\"trait\"]")));
}

#[test]
fn parameters_schema_array_shorthand_expands_to_items() {
    // `type: "array[string]"` is the hello hook's shorthand for an array of
    // strings. it must expand to the canonical JSON-schema form so OpenAI
    // tool-schema validators accept it.
    let schema = build_parameters_schema(&params(&[(
        "tags",
        r#"{"type": "array[string]", "description": "tags"}"#,
    )]));
    assert_eq!(property(&schema, "tags", "type"), Some(&json("\"array\"")));
    assert_eq!(property(&schema, "tags", "items"), Some(&json(r#"{"type": "string"}"#)));
}

#[test]
fn parameters_schema_array_any_shorthand_drops_items_type() {
    // `array[any]` should produce items with no constraint.
    let schema = build_parameters_schema(&params(&[("blob", r#"{"type": "array[any]"}"#)]));
    assert_eq!(property(&schema, "blob", "type"), Some(&json("\"array\"")));
    assert_eq!(property(&schema, "blob", "items"), Some(&json("{}")));
}

#[test]
fn parameters_schema_any_type_is_stripped() {
    let schema = build_parameters_schema(&params(&[(
        "blob",
        r#"{"type": "any", "description": "anything"}"#,
    )]));
    assert!(property(&schema, "blob", "type").is_none());
    assert_eq!(property(&schema, "blob", "description"), Some(&json("\"anything\"")));
}

#[test]
fn parameters_schema_optional_excluded_from_required() {
    let schema =
        build_parameters_schema(&params(&[("tz", r#"{"type": "string", "optional": true}"#)]));
    assert_eq!(schema.get("required"), Some(&json("[]")));
    // "optional" key should not leak into the JSON-schema property
    assert!(property(&schema, "tz", "optional").is_none());
}

#[test]
fn a_missing_type_is_string_and_given_items_stay() {
    let schema = build_parameters_schema(&params(&[
        ("a", r#"{"description": "x"}"#),
        ("b", r#"{"type": "array[string]", "items": {"type": "number"}}"#),
        ("c", r#"{"type": "array[]"}"#),
        ("d", "7"),
        ("e", r#"{"type": "array["}"#),
        ("f", r#"{"optional": "yes"}"#),
    ]));
    assert_eq!(
        schema,
        json(
            r#"{"type":"object","properties":{
            "a":{"description":"x","type":"string"},
            "b":{"type":"array","items":{"type":"number"}},
            "c":{"type":"array","items":{"type":""}},
            "d":7,
            "e":{"type":"array["},
            "f":{"type":"string"}},
            "required":["a","b","c","d","e","f"]}"#
        )
    );
}

#[test]
fn validate_args_rejects_missing_required() {
    let schema = build_parameters_schema(&params(&[("path", "\"the path\"")]));
    let err = validate_args(&json("{}"), &schema).unwrap_err();
    assert!(err.contains("missing required parameter 'path'"));
}

#[test]
fn validate_args_rejects_type_mismatch() {
    let schema = build_parameters_schema(&params(&[("count", r#"{"type": "number"}"#)]));
    let err = validate_args(&json(r#"{"count": "not-a-number"}"#), &schema).unwrap_err();
    assert!(err.contains("expected number"));
    assert_eq!(err, "parameter 'count' expected number, got string");
}

#[test]
fn validate_args_rejects_invalid_enum() {
    let schema = build_parameters_schema(&params(&[(
        "mode",
        r#"{"type": "string", "enum": ["fast", "slow"]}"#,
    )]));
    let err = validate_args(&json(r#"{"mode": "medium"}"#), &schema).unwrap_err();
    assert!(err.contains("must be one of"));
    assert_eq!(err, "parameter 'mode' must be one of [\"fast\", \"slow\"], got \"medium\"");
    assert!(validate_args(&json(r#"{"mode": "fast"}"#), &schema).is_ok());
}

#[test]
fn validate_args_accepts_optional_missing() {
    let schema =
        build_parameters_schema(&params(&[("tz", r#"{"type": "string", "optional": true}"#)]));
    assert!(validate_args(&json("{}"), &schema).is_ok());
}

#[test]
fn arguments_have_to_be_an_object() {
    let schema = build_parameters_schema(&params(&[]));
    assert_eq!(
        validate_args(&json("[]"), &schema),
        Err("args must be a JSON object".to_string())
    );
    assert_eq!(validate_args(&json(r#"{"unknown": 1}"#), &schema), Ok(()));
    assert_eq!(validate_args(&json(r#"{"x": 1}"#), &json("{}")), Ok(()));
}

#[test]
fn the_first_wrong_argument_in_key_order_is_named() {
    let schema = build_parameters_schema(&params(&[
        ("b", r#"{"type": "number"}"#),
        ("a", r#"{"type": "boolean"}"#),
    ]));
    assert_eq!(
        validate_args(&json(r#"{"b": [], "a": {}}"#), &schema),
        Err("parameter 'a' expected boolean, got object".to_string())
    );
    assert_eq!(
        validate_args(&json(r#"{"b": []}"#), &schema),
        Err("missing required parameter 'a'".to_string())
    );
}

#[test]
fn types_are_those_of_json() {
    let values = [
        ("null", "null"),
        ("true", "boolean"),
        ("1", "number"),
        ("\"s\"", "string"),
        ("[]", "array"),
        ("{}", "object"),
    ];
    for (text, name) in values {
        assert_eq!(value_type_name(&json(text)), name);
        for ty in ["string", "number", "boolean", "object", "array"] {
            assert_eq!(type_matches(ty, &json(text)), ty == name);
        }
        assert!(type_matches("any", &json(text)));
        assert!(type_matches("integer", &json(text)));
    }
}

#[test]
fn a_choice_is_described() {
    assert_eq!(
        choice_complaint("m", &["1".to_string(), "2".to_string()], "3"),
        "parameter 'm' must be one of [1, 2], got 3"
    );
}
