use named_tup::registry::{create_file_contents, should_rewrite_file};
use named_tup::tup_finder::get_all_identifiers;
use named_tup::{to_chars, to_string_exec};

fn ch(s: &str) -> Vec<char> {
    to_chars(s)
}

fn names(found: &Vec<Vec<char>>) -> Vec<String> {
    found.iter().map(to_string_exec).collect()
}

#[test]
fn scanner_collects_sorted_deduplicated_names() {
    let mut files: Vec<Vec<char>> = Vec::new();
    files.push(ch("fn main() { let t = tup!(count: 5, eggs); }"));
    files.push(ch("fn other(arg: Tup!(count: i32, price: i32)) {}"));
    let found = get_all_identifiers(&files);
    assert_eq!(names(&found), vec!["price", "eggs", "count"]);
}

#[test]
fn scanner_skips_files_it_cannot_read() {
    let mut files: Vec<Vec<char>> = Vec::new();
    files.push(ch("\"unterminated"));
    files.push(ch("let t = tup!(eggs: 2);"));
    let found = get_all_identifiers(&files);
    assert_eq!(names(&found), vec!["eggs"]);
}

#[test]
fn scanner_skips_malformed_invocations_only() {
    let mut files: Vec<Vec<char>> = Vec::new();
    files.push(ch("tup!(123 bad) ; tup!(good: 1)"));
    let found = get_all_identifiers(&files);
    assert_eq!(names(&found), vec!["good"]);
}

#[test]
fn scanner_ignores_path_qualified_macros() {
    let mut files: Vec<Vec<char>> = Vec::new();
    files.push(ch("other::tup!(hidden: 1); tup!(seen: 2);"));
    let found = get_all_identifiers(&files);
    assert_eq!(names(&found), vec!["seen"]);
}

#[test]
fn scanner_finds_nested_invocations() {
    let mut files: Vec<Vec<char>> = Vec::new();
    files.push(ch("outer!(tup!(inner: 1))"));
    let found = get_all_identifiers(&files);
    assert_eq!(names(&found), vec!["inner"]);
}

#[test]
fn rescanning_unchanged_sources_regenerates_nothing() {
    let mut files: Vec<Vec<char>> = Vec::new();
    files.push(ch("fn main() { tup!(count, eggs: true); }"));
    let first = get_all_identifiers(&files);
    let second = get_all_identifiers(&files);
    assert_eq!(names(&first), names(&second));
    let snapshot = create_file_contents(&first);
    let again = create_file_contents(&second);
    assert_eq!(to_string_exec(&snapshot), to_string_exec(&again));
    assert!(!should_rewrite_file(&Some(snapshot), &again));
}

#[test]
fn registry_serialization_is_an_array_literal() {
    let mut names_list: Vec<Vec<char>> = Vec::new();
    names_list.push(ch("eggs"));
    names_list.push(ch("count"));
    let snapshot = create_file_contents(&names_list);
    assert_eq!(to_string_exec(&snapshot), "&[\"eggs\", \"count\"]");
    let empty = create_file_contents(&Vec::new());
    assert_eq!(to_string_exec(&empty), "&[]");
}

#[test]
fn first_build_always_writes() {
    let fresh = create_file_contents(&Vec::new());
    assert!(should_rewrite_file(&None, &fresh));
    assert!(should_rewrite_file(&Some(to_chars("&[\"old\"]")), &fresh));
}

#[test]
fn reconcile_writes_only_on_difference() {
    let mut names_list: Vec<Vec<char>> = Vec::new();
    names_list.push(ch("eggs"));
    let fresh = named_tup::registry::reconcile(&names_list, &None).expect("first build writes");
    assert_eq!(to_string_exec(&fresh), "&[\"eggs\"]");
    assert!(named_tup::registry::reconcile(&names_list, &Some(fresh)).is_none());
}

#[test]
fn explicitly_declared_universe_is_canonicalized() {
    let mut declared: Vec<Vec<char>> = Vec::new();
    declared.push(ch("count"));
    declared.push(ch("price"));
    declared.push(ch("count"));
    let sorted = named_tup::tup_finder::sort_names(declared);
    assert_eq!(names(&sorted), vec!["price", "count"]);
}
