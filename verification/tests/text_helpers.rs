use ersa_lsp_core::search::{
    extract_word_at_position, find_word_positions, is_position_in_range, is_upper_snake_case,
    is_word_boundary, might_be_constant, search_allowed,
};
use ersa_lsp_core::types::{Position, Range};
use ersa_lsp_core::utils::{find_closing_paren, split_arguments};

fn pos(line: u32, character: u32) -> Position {
    Position { line, character }
}

#[test]
fn closing_paren_of_nested_call() {
    assert_eq!(find_closing_paren("foo(a, bar(b), c) + 1", 4), Some(16));
    assert_eq!(find_closing_paren("x)", 0), Some(1));
}

#[test]
fn closing_paren_missing() {
    assert_eq!(find_closing_paren("foo(a, (b)", 4), None);
    assert_eq!(find_closing_paren("abc", 10), None);
}

#[test]
fn split_arguments_keeps_nested_commas() {
    assert_eq!(split_arguments("a, f(b, c), d"), vec!["a", " f(b, c)", " d"]);
}

#[test]
fn split_arguments_drops_empty_tail() {
    assert_eq!(split_arguments("a,"), vec!["a"]);
    assert_eq!(split_arguments(""), Vec::<&str>::new());
    assert_eq!(split_arguments(",b"), vec!["", "b"]);
}

#[test]
fn word_at_cursor_spans_both_sides() {
    assert_eq!(extract_word_at_position("int counter = 5;", 6), "counter");
    assert_eq!(extract_word_at_position("int counter = 5;", 11), "counter");
    assert_eq!(extract_word_at_position("a + b", 2), "");
    assert_eq!(extract_word_at_position("abc", 99), "abc");
}

#[test]
fn word_boundary_checks_neighbours() {
    assert!(is_word_boundary("foo bar", 4, 7));
    assert!(!is_word_boundary("foobar", 3, 6));
    assert!(!is_word_boundary("barfoo_x", 3, 6));
    assert!(is_word_boundary("x", 0, 1));
}

#[test]
fn whole_word_positions() {
    let lines = vec!["count = count + 1;".to_string(), "recount(count);".to_string()];
    let found = find_word_positions(&lines, "count");
    assert_eq!(
        found,
        vec![
            Range { start: pos(0, 0), end: pos(0, 5) },
            Range { start: pos(0, 8), end: pos(0, 13) },
            Range { start: pos(1, 8), end: pos(1, 13) },
        ]
    );
}

#[test]
fn search_refused_for_empty_or_non_ascii_start() {
    let lines = vec!["éa éa".to_string()];
    assert!(!search_allowed(&lines, ""));
    assert!(!search_allowed(&lines, "éa"));
    assert!(search_allowed(&lines, "éb"));
    assert!(search_allowed(&lines, "a"));
}

#[test]
fn position_in_range_excludes_end() {
    let r = Range { start: pos(1, 4), end: pos(3, 2) };
    assert!(is_position_in_range(pos(1, 4), &r));
    assert!(is_position_in_range(pos(2, 0), &r));
    assert!(!is_position_in_range(pos(3, 2), &r));
    assert!(!is_position_in_range(pos(1, 3), &r));
    assert!(!is_position_in_range(pos(4, 0), &r));
}

#[test]
fn upper_snake_case_names() {
    assert!(is_upper_snake_case("MAX_SPEED"));
    assert!(is_upper_snake_case("A1"));
    assert!(!is_upper_snake_case("Max_Speed"));
    assert!(!is_upper_snake_case("MAX__SPEED"));
    assert!(!is_upper_snake_case("_MAX"));
    assert!(!is_upper_snake_case("MAX_"));
    assert!(!is_upper_snake_case(""));
}

#[test]
fn constant_looking_names() {
    assert!(might_be_constant("myValue"));
    assert!(might_be_constant("MAXspeed"));
    assert!(!might_be_constant("speed"));
    assert!(!might_be_constant("max_speed"));
}
