use panda_api::codec::{parse_value, Fragment};
use panda_api::reference::{
    directory, find_source, json_pointer, load_ref_file_data, reference_outcome, resolve_path,
    split_pointer, SourceFile,
};
use panda_api::value::StructuredValue;

fn json(text: &str) -> StructuredValue {
    parse_value(&text.replace('\'', "\"")).unwrap()
}

fn file(path: &str, text: &str) -> SourceFile {
    SourceFile { path: path.to_string(), text: text.replace('\'', "\"") }
}

#[test]
fn split_pointer_cuts_at_the_first_two_colons() {
    assert_eq!(split_pointer("a.json:x.y"), ("a.json".to_string(), Some("x.y".to_string())));
    assert_eq!(split_pointer("a.json"), ("a.json".to_string(), None));
    assert_eq!(split_pointer("a.json:x:rest"), ("a.json".to_string(), Some("x".to_string())));
    assert_eq!(split_pointer("a.json:"), ("a.json".to_string(), Some("".to_string())));
    assert_eq!(split_pointer(""), ("".to_string(), None));
}

#[test]
fn json_pointer_turns_dots_into_slashes() {
    assert_eq!(json_pointer("a.b.c"), "/a/b/c");
    assert_eq!(json_pointer("ping"), "/ping");
    assert_eq!(json_pointer(""), "/");
}

#[test]
fn directory_is_what_stands_before_the_last_slash() {
    let chars = |t: &str| t.chars().collect::<Vec<char>>();
    assert_eq!(directory(&chars("docs/v1/a.json")), chars("docs/v1"));
    assert_eq!(directory(&chars("a.json")), chars(""));
    assert_eq!(directory(&chars("/a.json")), chars(""));
}

#[test]
fn relative_data_paths_are_taken_from_the_directory_of_the_document() {
    assert_eq!(resolve_path("./_data/shared.json", "a.json"), "_data/shared.json");
    assert_eq!(resolve_path("./_data/shared.json", "docs/v1/a.json"), "docs/v1/_data/shared.json");
}

#[test]
fn absolute_data_paths_are_taken_from_the_project_root() {
    assert_eq!(resolve_path("/_data/shared.json", "docs/v1/a.json"), "_data/shared.json");
}

#[test]
fn other_paths_are_taken_from_the_project_root_without_leading_slashes() {
    assert_eq!(resolve_path("common/x.json", "docs/a.json"), "common/x.json");
    assert_eq!(resolve_path("//common/x.json", "docs/a.json"), "common/x.json");
}

#[test]
fn find_source_gives_the_text_of_the_first_file_with_the_path() {
    let sources = vec![file("a", "one"), file("b", "two"), file("a", "three")];
    assert_eq!(find_source(&sources, "a"), Some(&"one".to_string()));
    assert_eq!(find_source(&sources, "b"), Some(&"two".to_string()));
    assert_eq!(find_source(&sources, "c"), None);
}

#[test]
fn reference_outcome_by_cases() {
    let v = json("{'ok': true}");
    assert_eq!(
        reference_outcome("p".to_string(), true, Fragment::Found(v.duplicate())),
        ("p".to_string(), Some(v.duplicate()))
    );
    assert_eq!(
        reference_outcome("p".to_string(), false, Fragment::Found(v)),
        ("p".to_string(), None)
    );
    assert_eq!(reference_outcome("p".to_string(), true, Fragment::Absent), ("p".to_string(), None));
    assert_eq!(
        reference_outcome("p".to_string(), true, Fragment::Unreadable),
        ("".to_string(), None)
    );
}

#[test]
fn load_finds_the_fragment_at_the_dotted_path() {
    let sources = vec![file("_data/shared.json", "{'ping': {'ok': true}, 'a': {'b': {'c': 5}}}")];
    assert_eq!(
        load_ref_file_data("./_data/shared.json:ping", "a.json", &sources),
        ("_data/shared.json".to_string(), Some(json("{'ok': true}")))
    );
    assert_eq!(
        load_ref_file_data("/_data/shared.json:a.b.c", "docs/a.json", &sources),
        ("_data/shared.json".to_string(), Some(json("5")))
    );
}

#[test]
fn load_of_a_missing_file_gives_nothing() {
    let sources: Vec<SourceFile> = Vec::new();
    assert_eq!(
        load_ref_file_data("./_data/shared.json:ping", "a.json", &sources),
        ("".to_string(), None)
    );
}

#[test]
fn load_of_a_file_that_is_no_document_gives_nothing() {
    let sources = vec![file("_data/shared.json", "{'ping': ")];
    assert_eq!(
        load_ref_file_data("./_data/shared.json:ping", "a.json", &sources),
        ("".to_string(), None)
    );
}

#[test]
fn load_reports_the_path_where_the_node_is_missing() {
    let sources = vec![file("_data/shared.json", "{'ping': {'ok': true}}")];
    assert_eq!(
        load_ref_file_data("./_data/shared.json:pong", "a.json", &sources),
        ("_data/shared.json".to_string(), None)
    );
    assert_eq!(
        load_ref_file_data("./_data/shared.json:ping.ok.deeper", "a.json", &sources),
        ("_data/shared.json".to_string(), None)
    );
}

#[test]
fn load_without_a_dotted_path_reports_the_path_and_no_fragment() {
    let sources = vec![file("_data/shared.json", "{'ping': {'ok': true}}")];
    assert_eq!(
        load_ref_file_data("./_data/shared.json", "a.json", &sources),
        ("_data/shared.json".to_string(), None)
    );
}

#[test]
fn load_repairs_the_text_before_it_is_read() {
    let sources = vec![file("_data/shared.json", "{'note': 'one\ntwo'}")];
    assert_eq!(
        load_ref_file_data("./_data/shared.json:note", "a.json", &sources),
        ("_data/shared.json".to_string(), Some(StructuredValue::String("one\ntwo".to_string())))
    );
}

#[test]
fn load_is_the_same_when_asked_twice() {
    let sources = vec![file("_data/shared.json", "{'ping': {'ok': true}}")];
    let first = load_ref_file_data("./_data/shared.json:ping", "a.json", &sources);
    let second = load_ref_file_data("./_data/shared.json:ping", "a.json", &sources);
    assert_eq!(first, second);
}
