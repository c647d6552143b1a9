use panda_api::codec::parse_value;
use panda_api::fields::{
    field_text, find_field, get_api_field_bool_value, get_api_field_string_value,
};
use panda_api::value::StructuredValue;

fn json(text: &str) -> StructuredValue {
    parse_value(&text.replace('\'', "\"")).unwrap()
}

#[test]
fn text_field_takes_the_entry_first() {
    let out = get_api_field_string_value(
        "url",
        "d".to_string(),
        &json("{'url': '/local'}"),
        &json("{'url': '/ref'}"),
        &json("{'api': {'url': '/global'}}"),
    );
    assert_eq!(out, "/local");
}

#[test]
fn text_field_takes_the_fragment_second() {
    let out = get_api_field_string_value(
        "url",
        "d".to_string(),
        &json("{}"),
        &json("{'url': '/ref'}"),
        &json("{'api': {'url': '/global'}}"),
    );
    assert_eq!(out, "/ref");
}

#[test]
fn text_field_with_empty_entry_and_fragment_is_the_global_value() {
    let out = get_api_field_string_value(
        "method",
        "GET".to_string(),
        &json("{}"),
        &json("{}"),
        &json("{'api': {'method': 'POST'}}"),
    );
    assert_eq!(out, "POST");
}

#[test]
fn text_field_falls_back_to_the_default() {
    let out = get_api_field_string_value(
        "method",
        "GET".to_string(),
        &json("{}"),
        &StructuredValue::Null,
        &StructuredValue::Null,
    );
    assert_eq!(out, "GET");
    let out = get_api_field_string_value(
        "method",
        "GET".to_string(),
        &json("{}"),
        &json("{}"),
        &json("{'api': {'url': '/global'}}"),
    );
    assert_eq!(out, "GET");
}

#[test]
fn text_field_prints_a_value_that_is_no_string() {
    let globals = StructuredValue::Null;
    let none = StructuredValue::Null;
    let text = |entry: &str| {
        get_api_field_string_value("name", "d".to_string(), &json(entry), &none, &globals)
    };
    assert_eq!(text("{'name': 12}"), "12");
    assert_eq!(text("{'name': true}"), "true");
    assert_eq!(text("{'name': null}"), "null");
    assert_eq!(text("{'name': 1.5}"), "1.5");
    assert_eq!(text("{'name': ['a', 1]}"), "[\"a\",1]");
    assert_eq!(text("{'name': {'b': 1, 'a': 2}}"), "{\"a\":2,\"b\":1}");
}

#[test]
fn field_text_of_a_string_is_the_string_itself() {
    assert_eq!(field_text(&json("'plain'")), "plain");
    assert_eq!(field_text(&json("false")), "false");
}

#[test]
fn find_field_gives_the_first_source_that_has_the_field() {
    let entry = json("{'a': 1}");
    let fragment = json("{'a': 2, 'b': 3}");
    let globals = json("{'api': {'a': 4, 'b': 5, 'c': 6}, 'd': 7}");
    assert_eq!(find_field("a", &entry, &fragment, &globals), Some(&json("1")));
    assert_eq!(find_field("b", &entry, &fragment, &globals), Some(&json("3")));
    assert_eq!(find_field("c", &entry, &fragment, &globals), Some(&json("6")));
    assert_eq!(find_field("d", &entry, &fragment, &globals), None);
}

#[test]
fn truth_field_takes_the_first_truth_value() {
    let out = get_api_field_bool_value(
        "auth",
        false,
        &json("{'auth': true}"),
        &json("{'auth': false}"),
        &json("{'api': {'auth': false}}"),
    );
    assert!(out);
}

#[test]
fn truth_field_passes_over_a_value_of_another_kind() {
    let out = get_api_field_bool_value(
        "auth",
        false,
        &json("{'auth': 'yes'}"),
        &json("{'auth': 1}"),
        &json("{'api': {'auth': true}}"),
    );
    assert!(out);
    let out = get_api_field_bool_value(
        "auth",
        true,
        &json("{'auth': 'yes'}"),
        &json("{}"),
        &json("{'api': {'auth': null}}"),
    );
    assert!(out);
}

#[test]
fn truth_field_with_empty_entry_and_fragment_is_the_global_value() {
    let out = get_api_field_bool_value(
        "auth",
        false,
        &json("{}"),
        &json("{}"),
        &json("{'api': {'auth': true}}"),
    );
    assert!(out);
}

#[test]
fn truth_field_falls_back_to_the_default() {
    assert!(!get_api_field_bool_value("auth", false, &json("{}"), &json("{}"), &json("{}")));
    assert!(get_api_field_bool_value("auth", true, &json("{}"), &json("{}"), &json("{}")));
}
