use csloop::json::{copy_list, number_value, object2, signed_value, text_value, Json};
use csloop::json_codec::{compact_text, from_value, indented_text, parse_json, to_value};
use csloop::toml_doc::{json_to_toml, parse_toml, toml_document, toml_to_json, Toml};

fn json(text: &str) -> Json {
    parse_json(text).unwrap()
}

fn error_of<T>(r: Result<T, String>) -> String {
    match r {
        Ok(_) => panic!("expected an error"),
        Err(e) => e,
    }
}

#[test]
fn json_is_read_and_written_with_its_keys_in_order() {
    assert_eq!(compact_text(&json("{\"b\": [1, -2, 2.5, null], \"a\": \"x\\ny\", \"c\": true}")), "{\"a\":\"x\\ny\",\"b\":[1,-2,2.5,null],\"c\":true}");
    assert_eq!(compact_text(&json("{\"a\":1,\"a\":2}")), "{\"a\":2}");
    assert_eq!(indented_text(&json("{\"a\":[1],\"b\":{}}")), "{\n  \"a\": [\n    1\n  ],\n  \"b\": {}\n}");
}

#[test]
fn what_is_no_json_is_refused() {
    assert_eq!(error_of(parse_json("{\"a\":")), "EOF while parsing a value at line 1 column 5");
    assert_eq!(error_of(parse_json("")), "EOF while parsing a value at line 1 column 0");
}

#[test]
fn json_values_are_looked_into() {
    let j = json("{\"s\":\"t\",\"i\":-3,\"u\":18446744073709551615,\"f\":1.0,\"a\":[1,2]}");
    assert!(j.is_object());
    assert_eq!(j.get_str("s"), Some("t"));
    assert_eq!(j.get_str("i"), None);
    assert_eq!(j.text_at("missing"), "");
    assert_eq!(j.get_i64("i"), Some(-3));
    assert_eq!(j.get_u64("i"), None);
    assert_eq!(j.get_u64("u"), Some(u64::MAX));
    assert_eq!(j.get_i64("u"), None);
    assert_eq!(j.get_i64("f"), None);
    assert_eq!(j.get_array("a").map(|a| a.len()), Some(2));
    assert!(json("[1]").get("s").is_none());
}

#[test]
fn a_field_is_put_in_its_place() {
    let j = object2("a", number_value(1), "c", signed_value(-1)).with("b", text_value("x"));
    assert_eq!(compact_text(&j), "{\"a\":1,\"b\":\"x\",\"c\":-1}");
    assert_eq!(compact_text(&j.copy().with("a", Json::Null)), "{\"a\":null,\"b\":\"x\",\"c\":-1}");
    assert_eq!(copy_list(&vec![j]).len(), 1);
}

#[test]
fn json_goes_through_the_values_of_its_crate() {
    let j = json("{\"k\":[{\"x\":null},0.1]}");
    let v = to_value(&j);
    assert_eq!(v["k"][1].as_f64(), Some(0.1));
    assert_eq!(compact_text(&from_value(v)), compact_text(&j));
}

#[test]
fn toml_is_read() {
    let t = parse_toml("a = 'x'\nn = 3\nf = 1.5\nb = true\nd = 1979-05-27\nl = [1, 2]\n[t]\nk = \"v\"\n").unwrap();
    assert!(t.is_table());
    assert_eq!(t.get_str("a"), Some("x"));
    assert!(matches!(t.get("n"), Some(Toml::Int(3))));
    assert!(matches!(t.get("b"), Some(Toml::Bool(true))));
    assert_eq!(t.get("l").and_then(|v| v.as_array()).map(|a| a.len()), Some(2));
    assert_eq!(t.get("t").and_then(|v| v.get_str("k")), Some("v"));
    assert!(t.get("zz").is_none());
    assert_eq!(compact_text(&toml_to_json(&t)), "{\"a\":\"x\",\"b\":true,\"d\":\"1979-05-27\",\"f\":1.5,\"l\":[1,2],\"n\":3,\"t\":{\"k\":\"v\"}}");
}

#[test]
fn numbers_that_json_cannot_hold_become_null() {
    let t = parse_toml("a = nan\nb = -inf\n").unwrap();
    assert_eq!(compact_text(&toml_to_json(&t)), "{\"a\":null,\"b\":null}");
}

#[test]
fn what_is_no_toml_is_refused() {
    assert!(error_of(parse_toml("a = ")).starts_with("TOML parse error at line 1, column 5"));
}

#[test]
fn json_becomes_toml() {
    let j = json("{\"b\":true,\"e\":[],\"n\":null,\"i\":-1,\"f\":0.5,\"u\":18446744073709551615,\"o\":{\"k\":\"v\"}}");
    let t = json_to_toml(&j);
    assert_eq!(t["n"].as_str(), Some(""));
    assert_eq!(t["i"].as_integer(), Some(-1));
    assert_eq!(t["f"].as_float(), Some(0.5));
    assert_eq!(t["u"].as_float(), Some(18446744073709551616.0));
    assert_eq!(t["o"]["k"].as_str(), Some("v"));
    assert_eq!(toml_document(&object2("a", number_value(1), "t", object2("x", text_value("y"), "z", Json::Null))).unwrap(), "a = 1\n\n[t]\nx = \"y\"\nz = \"\"\n");
}

#[test]
fn a_document_must_be_a_table() {
    assert!(toml_document(&number_value(1)).is_err());
}
