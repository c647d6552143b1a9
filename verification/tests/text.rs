use panda_api::repair::{apply_repairs, fix_json};
use panda_api::text::{
    chars_of, find_char, find_last_char, has_part, has_prefix, has_suffix, matches_at,
    replace_all, same_text, slice_of, string_of, swap_char, trim_leading,
};

fn c(text: &str) -> Vec<char> {
    text.chars().collect()
}

#[test]
fn chars_and_strings_convert_both_ways() {
    assert_eq!(chars_of("a/b"), vec!['a', '/', 'b']);
    assert_eq!(string_of(&vec!['x', 'y']), "xy");
    assert_eq!(string_of(&chars_of("h\u{e9}llo")), "h\u{e9}llo");
    assert_eq!(chars_of(""), Vec::<char>::new());
}

#[test]
fn same_text_compares_contents() {
    assert!(same_text("abc", "abc"));
    assert!(!same_text("abc", "abd"));
    assert!(!same_text("abc", "ab"));
    assert!(same_text("", ""));
}

#[test]
fn matches_at_tests_one_place() {
    assert!(matches_at(&c("hello"), &c("ll"), 2));
    assert!(!matches_at(&c("hello"), &c("ll"), 3));
    assert!(!matches_at(&c("hello"), &c("lo"), 4));
    assert!(matches_at(&c("hello"), &c(""), 5));
    assert!(!matches_at(&c("hello"), &c(""), 6));
}

#[test]
fn prefix_suffix_and_part() {
    assert!(has_prefix(&c("./_data/x"), &c("./_data")));
    assert!(!has_prefix(&c("_data/x"), &c("./_data")));
    assert!(has_suffix(&c("a.json"), &c(".json")));
    assert!(!has_suffix(&c("json"), &c(".json")));
    assert!(has_part(&c("a/_data/b"), &c("_data/")));
    assert!(!has_part(&c("a/_dat/b"), &c("_data/")));
    assert!(has_part(&c("abc"), &c("")));
    assert!(has_part(&c("abc"), &c("abc")));
}

#[test]
fn find_char_gives_the_first_index_or_the_length() {
    assert_eq!(find_char(&c("a:b:c"), ':'), 1);
    assert_eq!(find_char(&c("abc"), ':'), 3);
    assert_eq!(find_last_char(&c("a/b/c"), '/'), Some(3));
    assert_eq!(find_last_char(&c("abc"), '/'), None);
}

#[test]
fn slice_of_cuts_a_range() {
    assert_eq!(slice_of(&c("hello"), 1, 3), c("el"));
    assert_eq!(slice_of(&c("hello"), 2, 2), c(""));
}

#[test]
fn trim_leading_removes_every_leading_repetition() {
    assert_eq!(trim_leading(&c("././x/./y"), &c("./")), c("x/./y"));
    assert_eq!(trim_leading(&c("///a"), &c("/")), c("a"));
    assert_eq!(trim_leading(&c("a/"), &c("/")), c("a/"));
    assert_eq!(trim_leading(&c("abc"), &c("")), c("abc"));
}

#[test]
fn replace_all_replaces_from_the_left_without_overlap() {
    assert_eq!(replace_all(&c("aaa"), &c("aa"), &c("b")), c("ba"));
    assert_eq!(replace_all(&c("a.b.c"), &c("."), &c("/")), c("a/b/c"));
    assert_eq!(replace_all(&c("abc"), &c(""), &c("x")), c("abc"));
    assert_eq!(replace_all(&c("abc"), &c("abc"), &c("")), c(""));
}

#[test]
fn swap_char_turns_each_occurrence() {
    assert_eq!(swap_char(&c("a.b.c"), '.', '/'), c("a/b/c"));
    assert_eq!(swap_char(&c("abc"), '.', '/'), c("abc"));
}

#[test]
fn fix_json_escapes_a_line_break_inside_a_quoted_value() {
    let broken = "{\"desc\": \"line one\nline two\", \"n\": 1}".to_string();
    assert_eq!(fix_json(broken), "{\"desc\": \"line one\\nline two\", \"n\": 1}");
}

#[test]
fn fix_json_leaves_line_breaks_between_members() {
    let text = "{\n  \"a\": \"x\",\n  \"b\": 2\n}".to_string();
    assert_eq!(fix_json(text.clone()), text);
}

#[test]
fn apply_repairs_replaces_every_occurrence_of_a_piece() {
    let found = vec![": \"a\nb\"".to_string(), ": \"c\"".to_string()];
    let text = "x: \"a\nb\" y: \"a\nb\" z: \"c\"";
    assert_eq!(apply_repairs(text, &found), "x: \"a\\nb\" y: \"a\\nb\" z: \"c\"");
}

#[test]
fn apply_repairs_without_pieces_gives_the_text() {
    assert_eq!(apply_repairs("a\nb", &Vec::new()), "a\nb");
}
