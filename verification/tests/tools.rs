use codex_proxy::json::Json;
use codex_proxy::tools::{
    add_strict_object_schema_flags, is_sensitive_client_tool, map_tool, map_tools,
    normalize_tool_parameters,
};

fn parse(text: &str) -> Json {
    Json::parse(text).unwrap()
}

fn value(text: &str) -> serde_json::Value {
    serde_json::from_str(text).unwrap()
}

fn strict(schema: &str) -> serde_json::Value {
    let mut v = parse(schema);
    add_strict_object_schema_flags(&mut v);
    let once = v.to_value();
    add_strict_object_schema_flags(&mut v);
    assert_eq!(v.to_value(), once);
    once
}

#[test]
fn schemas_become_strict_throughout() {
    assert_eq!(
        strict(
            "{\"type\":\"object\",\"additionalProperties\":true,\"properties\":{\"a\":{\"type\":\"object\"},\"b\":{\"type\":\"array\",\"items\":{\"type\":\"object\",\"properties\":{\"c\":{\"type\":\"string\"}}}}}}"
        ),
        value(
            "{\"type\":\"object\",\"additionalProperties\":false,\"properties\":{\"a\":{\"type\":\"object\",\"properties\":{},\"additionalProperties\":false},\"b\":{\"type\":\"array\",\"items\":{\"type\":\"object\",\"additionalProperties\":false,\"properties\":{\"c\":{\"type\":\"string\"}}}}}}"
        )
    );
    assert_eq!(
        strict("{\"properties\":{\"a\":{\"type\":\"object\"}}}"),
        value("{\"properties\":{\"a\":{\"type\":\"object\",\"properties\":{},\"additionalProperties\":false}}}")
    );
    assert_eq!(strict("{\"type\":\"object\",\"properties\":3}"), value("{\"type\":\"object\",\"properties\":3,\"additionalProperties\":false}"));
    assert_eq!(strict("[{\"type\":\"object\"}]"), value("[{\"type\":\"object\"}]"));
    assert_eq!(strict("{\"items\":[{\"type\":\"object\"}]}"), value("{\"items\":[{\"type\":\"object\"}]}"));
}

#[test]
fn parameters_are_normalized() {
    let empty = value("{\"type\":\"object\",\"properties\":{},\"additionalProperties\":false}");
    for odd in ["null", "[]", "\"x\"", "3", "{}"] {
        assert_eq!(normalize_tool_parameters(parse(odd)).to_value(), empty);
    }
    assert_eq!(
        normalize_tool_parameters(parse("{\"type\":\"string\"}")).to_value(),
        value("{\"type\":\"string\",\"properties\":{}}")
    );
}

#[test]
fn sensitive_tools_are_known() {
    assert!(is_sensitive_client_tool("location-get-current-location"));
    assert!(!is_sensitive_client_tool("location-get-current-location "));
    assert!(!is_sensitive_client_tool("Location-get-current-location"));
}

#[test]
fn tools_are_mapped() {
    let nested = map_tool(&parse(
        "{\"type\":\"function\",\"function\":{\"name\":\" f \",\"parameters\":{\"properties\":{\"a\":{}}}}}",
    ))
    .unwrap();
    assert_eq!(
        nested.to_value(),
        value("{\"type\":\"function\",\"name\":\"f\",\"parameters\":{\"type\":\"object\",\"properties\":{\"a\":{}},\"additionalProperties\":false},\"strict\":true}")
    );
    for left_out in [
        "{\"function\":{}}",
        "{\"name\":3}",
        "{\"name\":\"  \"}",
        "{\"name\":\"null\"}",
        "{\"name\":\" location-get-current-location \"}",
        "{\"function\":null,\"name\":\"f\"}",
        "\"f\"",
    ] {
        assert!(map_tool(&parse(left_out)).is_none(), "{}", left_out);
    }
    let all = map_tools(&vec![
        parse("{\"name\":\"a\"}"),
        parse("{\"name\":\"\"}"),
        parse("{\"function\":{\"name\":\"b\"}}"),
    ]);
    let names: Vec<&str> = all.iter().map(|t| t.get_str("name").unwrap()).collect();
    assert_eq!(names, vec!["a", "b"]);
}
