use panda_api::codec::parse_value;
use panda_api::db::load_basic_data;
use panda_api::notice::{
    base_notice, entry_notices, merge_notices, notices_of_document, truth_field_notices, Notice,
};
use panda_api::reference::SourceFile;
use panda_api::resolve::{Resolution, Resolutions};
use panda_api::value::StructuredValue;

fn json(text: &str) -> StructuredValue {
    parse_value(&text.replace('\'', "\"")).unwrap()
}

fn file(path: &str, text: &str) -> SourceFile {
    SourceFile { path: path.to_string(), text: text.replace('\'', "\"") }
}

fn table(entries: Vec<(&str, &str, Option<&str>)>) -> Resolutions {
    Resolutions {
        entries: entries
            .into_iter()
            .map(|(reference, source, fragment)| Resolution {
                reference: reference.to_string(),
                source: source.to_string(),
                fragment: fragment.map(json),
            })
            .collect(),
    }
}

#[test]
fn an_empty_array_gives_a_notice() {
    assert_eq!(merge_notices(&json("[]"), &table(vec![])), vec![Notice::EmptyArray]);
    assert_eq!(merge_notices(&json("{'a': {'b': []}}"), &table(vec![])), vec![Notice::EmptyArray]);
    assert_eq!(merge_notices(&json("[1, []]"), &table(vec![])), Vec::<Notice>::new());
}

#[test]
fn a_reference_without_fragment_gives_a_notice() {
    assert_eq!(
        merge_notices(&json("{'$ref': 'gone'}"), &table(vec![])),
        vec![Notice::Unresolved("gone".to_string())]
    );
}

#[test]
fn a_fragment_that_is_no_object_gives_a_notice() {
    let t = table(vec![("r", "s.json", Some("[1]")), ("ok", "s.json", Some("{}"))]);
    assert_eq!(
        merge_notices(&json("{'$ref': 'r', 'a': {'$ref': 'ok'}, 'b': []}"), &t),
        vec![Notice::FragmentNotObject("r".to_string()), Notice::EmptyArray]
    );
    assert_eq!(base_notice("r", &Some(json("{}"))), Vec::<Notice>::new());
    assert_eq!(base_notice("r", &None), vec![Notice::Unresolved("r".to_string())]);
}

#[test]
fn a_truth_field_of_another_kind_gives_a_notice_for_each_place_looked_at() {
    let wrong = Notice::NotTruthValue("auth".to_string());
    assert_eq!(
        truth_field_notices("auth", &json("{'auth': 'yes'}"), &json("{'auth': 1}"), &json("{'api': {'auth': true}}")),
        vec![Notice::NotTruthValue("auth".to_string()), Notice::NotTruthValue("auth".to_string())]
    );
    assert_eq!(
        truth_field_notices("auth", &json("{'auth': true}"), &json("{'auth': 1}"), &json("{}")),
        Vec::<Notice>::new()
    );
    assert_eq!(
        truth_field_notices("auth", &json("{}"), &json("{}"), &json("{'api': {'auth': null}}")),
        vec![wrong]
    );
}

#[test]
fn the_notices_of_an_entry_come_in_order() {
    let t = table(vec![("r", "s.json", Some("{'body': []}"))]);
    assert_eq!(
        entry_notices(&json("{'$ref': 'r', 'auth': 0, 'query': {'$ref': 'q'}}"), &StructuredValue::Null, &t),
        vec![
            Notice::NotTruthValue("auth".to_string()),
            Notice::EmptyArray,
            Notice::Unresolved("q".to_string()),
        ]
    );
    assert_eq!(
        entry_notices(&json("{'$ref': 'gone'}"), &StructuredValue::Null, &t),
        vec![Notice::Unresolved("gone".to_string())]
    );
}

#[test]
fn a_missing_source_gives_a_notice_for_the_document() {
    let text = "{\"api\":[{\"url\":\"/ping\",\"method\":\"GET\",\"response\":{\"$ref\":\"./_data/shared.json:ping\"}}]}";
    let basic = load_basic_data(None, None);
    assert_eq!(
        notices_of_document("a.json", text, &basic, &Vec::new()),
        vec![Notice::Unresolved("./_data/shared.json:ping".to_string())]
    );
    let sources = vec![file("_data/shared.json", "{'ping': {'ok': true}}")];
    assert_eq!(notices_of_document("a.json", text, &basic, &sources), Vec::<Notice>::new());
    assert_eq!(notices_of_document("_data/a.json", text, &basic, &sources), Vec::<Notice>::new());
    assert_eq!(notices_of_document("a.json", "{", &basic, &sources), Vec::<Notice>::new());
}
