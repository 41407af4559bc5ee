use codex_context::json::{JsonObject, JsonValue};
use codex_context::retention::SweptRoots;
use codex_context::tool_specs::{create_read_file_tool, create_read_tool_output_tool};
use serde_json::Value;

#[test]
fn objects_keep_and_replace_members() {
    let mut object = JsonObject::new();
    assert_eq!(object.to_text(), "{}");
    object.set_text("text", "a\"b\n");
    object.set("count", JsonValue::Unsigned(7));
    object.set("none", JsonValue::Null);
    object.set("yes", JsonValue::Bool(true));
    object.set("offsets", JsonValue::Offsets(vec![1, 22]));
    object.set("raw", JsonValue::Raw("[1.5]".to_string()));
    let value: Value = serde_json::from_str(&object.to_text()).expect("valid JSON");
    assert_eq!(value["text"], "a\"b\n");
    assert_eq!(value["count"], 7);
    assert!(value["none"].is_null());
    assert_eq!(value["yes"], true);
    assert_eq!(value["offsets"][1], 22);
    assert_eq!(value["raw"][0], 1.5);
    object.set("count", JsonValue::Unsigned(8));
    assert_eq!(object.get_unsigned("count"), Some(8));
    assert_eq!(object.get_text("count"), None);
    assert_eq!(object.get_text("text"), Some("a\"b\n"));
    object.remove("text");
    assert!(object.get("text").is_none());
}

#[test]
fn objects_are_read_back() {
    let mut object = JsonObject::new();
    object.set_text("b", "\u{e9}\t");
    object.set("a", JsonValue::Unsigned(u64::MAX));
    let read = JsonObject::parse(&object.to_text()).expect("an object");
    assert!(read.same(&object));
    let raw = JsonObject::parse(r#"{"list":[ 1, {"x":null} ],"flag":false}"#).expect("an object");
    assert!(matches!(raw.get("flag"), Some(JsonValue::Bool(false))));
    assert_eq!(raw.to_text(), r#"{"flag":false,"list":[1,{"x":null}]}"#);
}

#[test]
fn reading_tells_other_values_from_broken_text() {
    assert!(JsonObject::parse("[1]").is_none());
    assert!(JsonObject::parse("{").is_none());
    assert!(matches!(JsonObject::read("[1]"), Ok(None)));
    assert!(matches!(JsonObject::read("{}"), Ok(Some(_))));
    let error = JsonObject::read(r#"{"a":"#).expect_err("broken text");
    assert!(error.contains("EOF"));
}

#[test]
fn a_root_is_swept_once_unless_it_failed() {
    let mut swept = SweptRoots::default();
    assert!(swept.begin("/a"));
    assert!(!swept.begin("/a"));
    assert!(swept.begin("/b"));
    swept.failed("/a");
    assert!(swept.begin("/a"));
    assert!(!swept.begin("/b"));
}

#[test]
fn tools_name_their_parameters() {
    let plain = create_read_file_tool(false);
    let with_environment = create_read_file_tool(true);
    assert_eq!(plain.name, "read_file");
    assert_eq!(plain.parameters.len() + 1, with_environment.parameters.len());
    assert!(with_environment
        .parameters
        .iter()
        .any(|parameter| parameter.name == "environment_id" && !parameter.required));
    assert!(plain
        .parameters
        .iter()
        .all(|parameter| parameter.required == (parameter.name == "path")));
    let schema: Value =
        serde_json::from_str(plain.output_schema.expect("a schema")).expect("valid JSON");
    assert!(schema.is_object());
    assert_eq!(create_read_tool_output_tool().name, "read_tool_output");
}
