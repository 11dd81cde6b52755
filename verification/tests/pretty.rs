//! Tests of the depth scan and the two array-rewrite algorithms.

use cio::pretty::{count_nesting_depth, format_array, format_complex_array, format_container};

fn chars(s: &str) -> Vec<char> {
    s.chars().collect()
}

fn string(v: Vec<char>) -> String {
    v.into_iter().collect()
}

#[test]
fn depth_ignores_brackets_inside_quotes() {
    assert_eq!(count_nesting_depth(&chars("[\"[\"]")), 1);
}

#[test]
fn depth_ignores_escaped_quotes() {
    // The quoted substring "\"[" holds an escaped quote and a bracket;
    // neither reopens the quote state nor counts toward the depth.
    assert_eq!(count_nesting_depth(&chars("[\"\\\"[\"]")), 1);
}

#[test]
fn depth_of_nested_arrays() {
    assert_eq!(count_nesting_depth(&chars("[1, 2, 3]")), 1);
    assert_eq!(count_nesting_depth(&chars("[[1], [2]]")), 2);
    assert_eq!(count_nesting_depth(&chars("[[[1]], [[2]]]")), 3);
    assert_eq!(count_nesting_depth(&chars("5")), 0);
}

#[test]
fn generic_rewrite_breaks_before_nested_array_siblings_only() {
    // The comma before `[2, 3]` gets a line break; the comma between the
    // scalars 2 and 3 does not.
    let out = string(format_complex_array(&chars("[1, [2, 3]]")));
    assert_eq!(out, "[1,\n     [\n    2, 3\n    ]]");
    let flat = string(format_complex_array(&chars("[1, 2, 3]")));
    assert!(!flat.contains('\n'));
}

#[test]
fn depth_one_table_is_identity() {
    let out = string(format_array(&chars("[1, 2, 3]"), 1));
    assert_eq!(out, "[1, 2, 3]");
}

#[test]
fn depth_two_table_matches_the_fixed_rewrite() {
    let out = string(format_array(&chars("[[1, 2], [3, 4]]"), 2));
    assert_eq!(out, "[\n    [1, 2],\n    [3, 4]\n]");
}

#[test]
fn depth_four_table_rewrites_every_seam() {
    let input = "[[[[1, 2], [3, 4]], [[5, 6], [7, 8]]]]";
    let out = string(format_array(&chars(input), 4));
    assert!(out.starts_with("[\n    [\n        [\n            [1, 2],"));
    assert!(out.ends_with("]\n        ]\n    ]\n]"));
}

#[test]
fn quoted_brackets_survive_the_generic_rewrite() {
    let out = string(format_complex_array(&chars("[\"[\", \"]\"]")));
    assert_eq!(out, "[\"[\", \"]\"]");
}

#[test]
fn container_routes_by_first_character() {
    let array = string(format_container(&chars("[[1], [2]]"), &chars("unused")));
    assert_eq!(array, "[\n    [1],\n    [2]\n]");
    let scalar = string(format_container(&chars("true"), &chars("unused")));
    assert_eq!(scalar, "true");
    let map = string(format_container(&chars("{\"k\": 1}"), &chars("pretty form")));
    assert_eq!(map, "{\"k\": 1}");
    let multiline_map = string(format_container(&chars("{\"k\":\n1}"), &chars("pretty form")));
    assert_eq!(multiline_map, "pretty form");
}
