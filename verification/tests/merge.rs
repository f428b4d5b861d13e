use hrns::json::{no_fields, parse_json, Json};
use hrns::merge::{
    absorb, describe_note, merge_field, merge_object, merge_output, merge_text, Note,
};
use hrns::table::Table;

fn json(s: &str) -> Json {
    parse_json(s).unwrap()
}

fn fields(s: &str) -> Table<Json> {
    match json(s) {
        Json::Object(t) => t,
        _ => panic!("no object"),
    }
}

#[test]
fn merge_arrays_concatenate() {
    let mut acc = no_fields();
    merge_field(&mut acc, "system".into(), json(r#"["a"]"#));
    merge_field(&mut acc, "system".into(), json(r#"["b", "c"]"#));
    assert_eq!(acc.get("system"), Some(&json(r#"["a", "b", "c"]"#)));
}

#[test]
fn merge_scalars_join_with_newline() {
    let mut acc = no_fields();
    merge_field(&mut acc, "result".into(), json("\"first\""));
    merge_field(&mut acc, "result".into(), json("\"second\""));
    assert_eq!(acc.get("result"), Some(&json("\"first\\nsecond\"")));
}

#[test]
fn values_are_made_lists_or_texts_where_the_field_wants_it() {
    let mut acc = no_fields();
    merge_field(&mut acc, "notify".into(), json("1"));
    merge_field(&mut acc, "notify".into(), json("[2]"));
    merge_field(&mut acc, "continue".into(), json("true"));
    merge_field(&mut acc, "continue".into(), json("{\"a\":[1]}"));
    merge_field(&mut acc, "deny".into(), json("\"x\""));
    merge_field(&mut acc, "deny".into(), json("\"y\""));
    assert_eq!(
        Json::object(acc),
        json(r#"{"notify":[1,2],"continue":"true\n{\"a\":[1]}","deny":"y"}"#)
    );
}

#[test]
fn a_list_field_that_holds_no_list_stays() {
    let mut acc = fields(r#"{"tools": "none"}"#);
    merge_field(&mut acc, "tools".into(), json("[1]"));
    assert_eq!(acc.get("tools"), Some(&json("\"none\"")));
    let mut acc = fields(r#"{"message": 1}"#);
    merge_field(&mut acc, "message".into(), json("\"m\""));
    assert_eq!(acc.get("message"), Some(&json("\"m\"")));
}

#[test]
fn grouping_makes_no_difference() {
    let a = r#"{"system":["a"],"result":"1","deny":"no"}"#;
    let b = r#"{"system":"b","result":2,"user":"u"}"#;
    let start = r#"{"system":["s"],"result":"0"}"#;
    let mut one = fields(start);
    merge_object(&mut one, &fields(a));
    merge_object(&mut one, &fields(b));
    let mut both = no_fields();
    merge_object(&mut both, &fields(a));
    merge_object(&mut both, &fields(b));
    let mut other = fields(start);
    merge_object(&mut other, &both);
    assert_eq!(one, other);
    assert_eq!(
        Json::object(one),
        json(r#"{"system":["s","a","b"],"result":"0\n1\n2","deny":"no","user":"u"}"#)
    );
}

#[test]
fn logs_are_handed_out_and_kept_out() {
    let mut acc = no_fields();
    assert_eq!(absorb(&mut acc, json(r#"{"log":"hi","a":1}"#)), Some("hi".to_string()));
    assert_eq!(absorb(&mut acc, json(r#"{"log":5,"b":2}"#)), None);
    assert_eq!(absorb(&mut acc, json("[1]")), None);
    assert_eq!(Json::object(acc), json(r#"{"a":1,"b":2}"#));
}

#[test]
fn output_lines_are_merged() {
    let out = "  {\"system\":[\"a\"]}  \r\n\n   \nnot json\n[1]\n{\"log\":\"l\",\"system\":[\"b\"]}";
    let (merged, notes) = merge_output(out);
    assert_eq!(Json::object(merged), json(r#"{"system":["a","b"]}"#));
    assert_eq!(notes.len(), 2);
    assert!(matches!(&notes[0], Note::Malformed(e) if e.contains("expected")));
    assert!(matches!(&notes[1], Note::Log(s) if s == "l"));
    let (merged, notes) = merge_output("");
    assert_eq!(merged.len(), 0);
    assert!(notes.is_empty());
}

#[test]
fn notes_are_described() {
    assert_eq!(
        describe_note(&Note::Log("hello".to_string()), "demo", "discover"),
        "hook demo: hello"
    );
    assert_eq!(
        describe_note(&Note::Malformed("bad".to_string()), "demo", "discover"),
        "hook demo stage=discover dropped malformed line: bad"
    );
}

#[test]
fn texts_are_joined() {
    let mut acc = no_fields();
    merge_text(&mut acc, "k".to_string(), "a".to_string());
    merge_text(&mut acc, "k".to_string(), "b".to_string());
    assert_eq!(acc.get("k"), Some(&json("\"a\\nb\"")));
}
