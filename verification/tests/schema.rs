use csloop::json::Json;
use csloop::json_codec::parse_json;
use csloop::schema::validate_schema_value;

fn json(text: &str) -> Json {
    parse_json(text).unwrap()
}

fn check(schema: &str, value: &str) -> Option<String> {
    validate_schema_value(&json(schema), &json(value), "args")
}

const EDIT: &str = "{\"type\":\"object\",\"properties\":{\"path\":{\"type\":\"string\"},\"edits\":{\"type\":\"array\",\"minItems\":1,\"items\":{\"type\":\"object\",\"properties\":{\"oldText\":{\"type\":\"string\"}},\"required\":[\"oldText\"],\"additionalProperties\":false}}},\"required\":[\"path\",\"edits\"],\"additionalProperties\":false}";

#[test]
fn conforming_values_have_no_fault() {
    assert_eq!(check(EDIT, "{\"path\":\"p\",\"edits\":[{\"oldText\":\"x\"}]}"), None);
    assert_eq!(check("{}", "3"), None);
    assert_eq!(check("{\"type\":\"integer\",\"minimum\":1}", "1"), None);
    assert_eq!(check("{\"type\":\"integer\"}", "18446744073709551615"), None);
}

#[test]
fn faults_are_named() {
    assert_eq!(check(EDIT, "[]"), Some("args must be an object".to_string()));
    assert_eq!(check(EDIT, "{\"edits\":[]}"), Some("missing required argument \"path\"".to_string()));
    assert_eq!(check(EDIT, "{\"path\":\"p\",\"edits\":[],\"a\":1,\"z\":2}"), Some("unexpected argument(s): \"a\", \"z\"".to_string()));
    assert_eq!(check(EDIT, "{\"path\":\"p\",\"edits\":[]}"), Some("args.edits must contain at least 1 item(s)".to_string()));
    assert_eq!(check(EDIT, "{\"path\":1,\"edits\":[{\"oldText\":\"x\"}]}"), Some("args.path must be a string".to_string()));
    assert_eq!(check(EDIT, "{\"path\":\"p\",\"edits\":3}"), Some("args.edits must be an array".to_string()));
    assert_eq!(check(EDIT, "{\"path\":\"p\",\"edits\":[{\"oldText\":\"x\"},{\"oldText\":2}]}"), Some("args.edits[1].oldText must be a string".to_string()));
    assert_eq!(check("{\"type\":\"integer\",\"minimum\":1}", "0"), Some("args must be >= 1".to_string()));
    assert_eq!(check("{\"type\":\"integer\"}", "1.5"), Some("args must be an integer".to_string()));
    assert_eq!(check("{\"type\":\"integer\",\"minimum\":1}", "18446744073709551615"), Some("args must be >= 1".to_string()));
}
