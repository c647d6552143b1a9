use panda_api::codec::parse_value;
use panda_api::merge::{
    base_members, excluded, is_listed, is_marker_key, keep_members, merge_with, reference_target,
    Resolver,
};
use panda_api::reference::SourceFile;
use panda_api::resolve::{
    expand_reference, parse_attribute_ref_value, substitute_variable, DocumentResolver,
    Resolution, Resolutions,
};
use panda_api::value::{set_member, StructuredValue};

fn json(text: &str) -> StructuredValue {
    parse_value(&text.replace('\'', "\"")).unwrap()
}

fn members(text: &str) -> Vec<(String, StructuredValue)> {
    match json(text) {
        StructuredValue::Object(members) => members,
        _ => panic!("no object"),
    }
}

fn table(entries: Vec<(&str, &str, Option<&str>)>) -> Resolutions {
    Resolutions {
        entries: entries
            .into_iter()
            .map(|(reference, source, fragment)| Resolution {
                reference: reference.to_string(),
                source: source.to_string(),
                fragment: fragment.map(json),
            })
            .collect(),
    }
}

fn file(path: &str, text: &str) -> SourceFile {
    SourceFile { path: path.to_string(), text: text.replace('\'', "\"") }
}

#[test]
fn scalars_pass_through_without_dependencies() {
    let none = table(vec![]);
    for text in ["null", "true", "3", "2.5", "'s'"] {
        let (deps, out) = merge_with(&json(text), &none);
        assert_eq!(out, json(text));
        assert_eq!(deps, Vec::<String>::new());
    }
}

#[test]
fn of_an_array_only_the_first_item_stays() {
    let (deps, out) = merge_with(&json("[{'a': 1}, {'b': 2}]"), &table(vec![]));
    assert_eq!(out, json("[{'a': 1}]"));
    assert_eq!(deps, Vec::<String>::new());
}

#[test]
fn an_empty_array_stays() {
    let (deps, out) = merge_with(&json("[]"), &table(vec![]));
    assert_eq!(out, json("[]"));
    assert_eq!(deps, Vec::<String>::new());
}

#[test]
fn the_first_item_of_an_array_is_merged() {
    let t = table(vec![("r", "_data/s.json", Some("{'x': 1}"))]);
    let (deps, out) = merge_with(&json("[{'$ref': 'r'}, 5]"), &t);
    assert_eq!(out, json("[{'x': 1}]"));
    assert_eq!(deps, vec!["_data/s.json".to_string()]);
}

#[test]
fn an_object_without_reference_keeps_its_keys() {
    let (deps, out) = merge_with(&json("{'a': [1, 2], 'b': {'c': [3, 4]}}"), &table(vec![]));
    assert_eq!(out, json("{'a': [1], 'b': {'c': [3]}}"));
    assert_eq!(deps, Vec::<String>::new());
}

#[test]
fn an_exclude_without_reference_stays_as_it_is() {
    let (_, out) = merge_with(&json("{'$exclude': ['a', 'b'], 'a': 1}"), &table(vec![]));
    assert_eq!(out, json("{'$exclude': ['a', 'b'], 'a': 1}"));
}

#[test]
fn a_reference_brings_the_members_of_the_fragment() {
    let t = table(vec![("r", "_data/s.json", Some("{'x': 1, 'y': [1, 2]}"))]);
    let (deps, out) = merge_with(&json("{'$ref': 'r'}"), &t);
    assert_eq!(out, json("{'x': 1, 'y': [1, 2]}"));
    assert_eq!(deps, vec!["_data/s.json".to_string()]);
}

#[test]
fn a_local_member_wins_over_the_fragment() {
    let t = table(vec![("r", "_data/s.json", Some("{'F': 'remote', 'H': 1}"))]);
    let (deps, out) = merge_with(&json("{'$ref': 'r', 'F': 'local', 'G': {'$ref': 'r2'}}"), &t);
    assert_eq!(out.get("F"), Some(&json("'local'")));
    assert_eq!(out.get("H"), Some(&json("1")));
    assert_eq!(out.get("G"), Some(&json("{}")));
    assert_eq!(out.get("$ref"), None);
    assert_eq!(deps, vec!["_data/s.json".to_string(), "".to_string()]);
}

#[test]
fn excluded_names_leave_the_fragment() {
    let t = table(vec![("r", "_data/s.json", Some("{'F': 1, 'G': 2, 'a': {'b': 3}}"))]);
    let (_, out) = merge_with(&json("{'$ref': 'r', '$exclude': ['F', 'a.b']}"), &t);
    assert_eq!(out, json("{'G': 2, 'a': {'b': 3}}"));
}

#[test]
fn an_excluded_name_that_is_written_again_stays() {
    let t = table(vec![("r", "_data/s.json", Some("{'F': 1, 'G': 2}"))]);
    let (_, out) = merge_with(&json("{'$ref': 'r', '$exclude': ['F'], 'F': 9}"), &t);
    assert_eq!(out.get("F"), Some(&json("9")));
    assert_eq!(out.get("G"), Some(&json("2")));
}

#[test]
fn a_reference_that_gives_nothing_starts_from_the_empty_object() {
    let (deps, out) = merge_with(&json("{'$ref': 'gone', 'a': 1}"), &table(vec![]));
    assert_eq!(out, json("{'a': 1}"));
    assert_eq!(deps, vec!["".to_string()]);
}

#[test]
fn a_fragment_that_is_no_object_starts_from_the_empty_object() {
    let t = table(vec![("r", "_data/s.json", Some("[1, 2]"))]);
    let (deps, out) = merge_with(&json("{'$ref': 'r'}"), &t);
    assert_eq!(out, json("{}"));
    assert_eq!(deps, vec!["_data/s.json".to_string()]);
}

#[test]
fn the_fragment_itself_is_not_merged() {
    let t = table(vec![("r", "_data/s.json", Some("{'inner': {'$ref': 'r2'}, 'list': [1, 2]}"))]);
    let (deps, out) = merge_with(&json("{'$ref': 'r'}"), &t);
    assert_eq!(out, json("{'inner': {'$ref': 'r2'}, 'list': [1, 2]}"));
    assert_eq!(deps, vec!["_data/s.json".to_string()]);
}

#[test]
fn dependencies_come_in_the_order_of_the_walk() {
    let t = table(vec![
        ("r1", "one.json", Some("{}")),
        ("r2", "two.json", Some("{}")),
        ("r3", "three.json", Some("{}")),
    ]);
    let (deps, _) = merge_with(
        &json("{'$ref': 'r1', 'a': {'$ref': 'r2'}, 'b': [{'$ref': 'r3'}]}"),
        &t,
    );
    assert_eq!(deps, vec!["one.json".to_string(), "two.json".to_string(), "three.json".to_string()]);
}

#[test]
fn a_reference_that_is_no_string_is_no_reference() {
    let (deps, out) = merge_with(&json("{'$ref': 5, 'a': [1, 2]}"), &table(vec![]));
    assert_eq!(out, json("{'$ref': 5, 'a': [1]}"));
    assert_eq!(deps, Vec::<String>::new());
}

#[test]
fn marker_keys_are_told_apart() {
    assert!(is_marker_key("$ref"));
    assert!(is_marker_key("$exclude"));
    assert!(!is_marker_key("ref"));
    assert!(!is_marker_key("$refs"));
}

#[test]
fn reference_target_is_the_text_of_the_reference() {
    assert_eq!(reference_target(&members("{'a': 1, '$ref': 'x:y'}")), Some(&"x:y".to_string()));
    assert_eq!(reference_target(&members("{'a': 1}")), None);
    assert_eq!(reference_target(&members("{'$ref': ['x']}")), None);
}

#[test]
fn excluded_lists_the_strings_without_a_dot() {
    assert_eq!(
        excluded(&members("{'$exclude': ['a', 'b.c', 3, 'd']}")),
        vec!["a".to_string(), "d".to_string()]
    );
    assert_eq!(excluded(&members("{'$exclude': 'a'}")), Vec::<String>::new());
    assert_eq!(excluded(&members("{'a': 1}")), Vec::<String>::new());
}

#[test]
fn keep_members_drops_the_listed_keys() {
    let names = vec!["b".to_string()];
    assert!(is_listed(&names, "b"));
    assert!(!is_listed(&names, "a"));
    assert_eq!(keep_members(&members("{'a': 1, 'b': 2, 'c': 3}"), &names), members("{'a': 1, 'c': 3}"));
}

#[test]
fn base_members_of_a_fragment() {
    assert_eq!(base_members(Some(json("{'a': 1}"))), members("{'a': 1}"));
    assert_eq!(base_members(Some(json("[1]"))), members("{}"));
    assert_eq!(base_members(None), members("{}"));
}

#[test]
fn set_member_replaces_in_place_or_appends() {
    let mut m = members("{'a': 1, 'b': 2}");
    set_member(&mut m, "a".to_string(), json("9"));
    assert_eq!(m, vec![("a".to_string(), json("9")), ("b".to_string(), json("2"))]);
    set_member(&mut m, "c".to_string(), json("3"));
    assert_eq!(
        m,
        vec![("a".to_string(), json("9")), ("b".to_string(), json("2")), ("c".to_string(), json("3"))]
    );
}

#[test]
fn the_table_gives_the_first_entry_for_a_reference() {
    let t = table(vec![("r", "one.json", Some("1")), ("r", "two.json", Some("2"))]);
    assert_eq!(t.resolve("r"), ("one.json".to_string(), Some(json("1"))));
    assert_eq!(t.resolve("other"), ("".to_string(), None));
}

#[test]
fn a_defined_variable_is_put_into_the_reference() {
    let root = json("{'define': {'HOST': 'v2'}}");
    assert_eq!(expand_reference("./_data/$HOST/users.json", &root), "./_data/v2/users.json");
}

#[test]
fn only_the_first_variable_is_replaced() {
    let root = json("{'define': {'A': 'x', 'B': 'y'}}");
    assert_eq!(expand_reference("$A/$B.json", &root), "x/$B.json");
}

#[test]
fn a_variable_that_is_not_defined_stays() {
    assert_eq!(
        expand_reference("./_data/$HOST/users.json", &json("{'define': {'OTHER': 'v2'}}")),
        "./_data/$HOST/users.json"
    );
    assert_eq!(expand_reference("./_data/$HOST/users.json", &json("{}")), "./_data/$HOST/users.json");
    assert_eq!(
        expand_reference("./_data/$HOST/users.json", &json("{'define': {'HOST': 5}}")),
        "./_data/$HOST/users.json"
    );
    assert_eq!(expand_reference("./_data/users.json", &json("{'define': {'HOST': 'v2'}}")), "./_data/users.json");
}

#[test]
fn substitute_variable_splices_between_the_parts() {
    let root = json("{'define': {'V': 'mid'}}");
    let found = Some(("head-".to_string(), "$V".to_string(), "-tail".to_string()));
    assert_eq!(substitute_variable("head-$V-tail", found, &root), "head-mid-tail");
    assert_eq!(substitute_variable("plain", None, &root), "plain");
    let unknown = Some(("head-".to_string(), "$W".to_string(), "-tail".to_string()));
    assert_eq!(substitute_variable("head-$W-tail", unknown, &root), "head-$W-tail");
}

#[test]
fn the_document_resolver_expands_and_loads() {
    let root = json("{'define': {'V': 'v2'}}");
    let sources = vec![file("_data/v2/users.json", "{'list': [{'id': 1}]}")];
    let resolver = DocumentResolver { root: &root, doc_file: "a.json", sources: &sources };
    assert_eq!(
        resolver.resolve("./_data/$V/users.json:list"),
        ("_data/v2/users.json".to_string(), Some(json("[{'id': 1}]")))
    );
}

#[test]
fn merging_against_the_sources() {
    let root = json("{'define': {'V': 'v2'}}");
    let sources = vec![
        file("_data/v2/users.json", "{'user': {'id': 1, 'name': 'n', 'secret': 's'}}"),
        file("_data/page.json", "{'page': {'size': 10}}"),
    ];
    let value = json(
        "{'$ref': './_data/$V/users.json:user', '$exclude': ['secret'], 'name': 'local', 'page': {'$ref': '/_data/page.json:page'}, 'gone': {'$ref': './_data/none.json:x'}}",
    );
    let (deps, out) = parse_attribute_ref_value(&value, &root, "a.json", &sources);
    assert_eq!(out.get("id"), Some(&json("1")));
    assert_eq!(out.get("name"), Some(&json("'local'")));
    assert_eq!(out.get("secret"), None);
    assert_eq!(out.get("page"), Some(&json("{'size': 10}")));
    assert_eq!(out.get("gone"), Some(&json("{}")));
    let mut sorted = deps.clone();
    sorted.sort();
    assert_eq!(
        sorted,
        vec!["".to_string(), "_data/page.json".to_string(), "_data/v2/users.json".to_string()]
    );
    assert_eq!(deps[0], "_data/v2/users.json");
}
