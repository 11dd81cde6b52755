//! End-to-end tests of the rendering engine: templates, directives, and the
//! depth-aware array formatter.

use cio::render::{render, Arg};
use cio::template::TemplateError;

fn str_arg(value_debug: &str) -> Arg {
    Arg::Str {
        display: value_debug.to_string(),
        debug: value_debug.to_string(),
        pretty: value_debug.to_string(),
    }
}

fn ok(template: &str, args: Vec<Arg>) -> String {
    render(template, &args).expect("render should succeed")
}

#[test]
fn literal_template_renders_itself() {
    assert_eq!(ok("hello world", vec![]), "hello world");
    assert_eq!(ok("", vec![]), "");
    assert_eq!(ok("100% plain text.", vec![]), "100% plain text.");
}

#[test]
fn unmatched_braces_stay_literal() {
    assert_eq!(ok("a{b", vec![]), "a{b");
    assert_eq!(ok("}{", vec![]), "}{");
    assert_eq!(ok("tail}", vec![]), "tail}");
}

#[test]
fn substitutions_in_source_order() {
    let out = ok(
        "x={a} then y={b}!",
        vec![Arg::Int(1), Arg::Int(2)],
    );
    assert_eq!(out, "x=1 then y=2!");
}

#[test]
fn adjacent_placeholders() {
    let out = ok("{a}{b}{c}", vec![Arg::Int(7), Arg::Int(8), Arg::Int(9)]);
    assert_eq!(out, "789");
}

#[test]
fn empty_body_is_syntax_error() {
    match render("{}", &vec![]) {
        Err(TemplateError::ExpressionSyntax { fragment }) => assert_eq!(fragment, ""),
        _ => panic!("expected a syntax error"),
    }
    match render("before { } after", &vec![]) {
        Err(TemplateError::ExpressionSyntax { fragment }) => assert_eq!(fragment, " "),
        _ => panic!("expected a syntax error"),
    }
    match render("{:x}", &vec![Arg::Int(1)]) {
        Err(TemplateError::ExpressionSyntax { fragment }) => assert_eq!(fragment, ":x"),
        _ => panic!("expected a syntax error"),
    }
}

#[test]
fn argument_count_mismatch_is_an_error() {
    match render("{a}", &vec![]) {
        Err(TemplateError::ArgumentCount { expected, given }) => {
            assert_eq!(expected, 1);
            assert_eq!(given, 0);
        },
        _ => panic!("expected an argument-count error"),
    }
}

#[test]
fn colon_inside_parens_is_not_a_delimiter() {
    let out = ok("{f(a:b):x}", vec![Arg::Int(255)]);
    assert_eq!(out, "ff");
}

#[test]
fn default_directive_uses_display() {
    let out = ok(
        "{name}",
        vec![Arg::Str {
            display: "Alice".to_string(),
            debug: "\"Alice\"".to_string(),
            pretty: "\"Alice\"".to_string(),
        }],
    );
    assert_eq!(out, "Alice");
}

#[test]
fn flat_array_renders_unchanged() {
    let out = ok("{v:a}", vec![str_arg("[1, 2, 3]")]);
    assert_eq!(out, "[1, 2, 3]");
}

#[test]
fn depth_two_array_is_indented() {
    let out = ok("{v:a}", vec![str_arg("[[1, 2], [3, 4]]")]);
    assert_eq!(out, "[\n    [1, 2],\n    [3, 4]\n]");
}

#[test]
fn depth_three_array_is_indented() {
    let out = ok("{v:a}", vec![str_arg("[[[1]]]")]);
    assert_eq!(out, "[\n    [\n        [1]\n    ]\n]");
}

#[test]
fn depth_five_takes_the_generic_rewrite() {
    let out = ok("{v:a}", vec![str_arg("[[[[[1]]]]]")]);
    assert_eq!(
        out,
        "[[\n    [\n        [\n            [\n                1\n                \
         ]\n            ]\n        ]\n    ]]",
    );
}

#[test]
fn scalar_debug_text_passes_through() {
    let out = ok("{v:a}", vec![str_arg("5")]);
    assert_eq!(out, "5");
    let out = ok("{v:a}", vec![Arg::Int(-3)]);
    assert_eq!(out, "-3");
}

#[test]
fn short_map_text_stays_compact() {
    let out = ok(
        "{v:a}",
        vec![Arg::Str {
            display: "{\"A\": 1, \"B\": 2}".to_string(),
            debug: "{\"A\": 1, \"B\": 2}".to_string(),
            pretty: "{\n    \"A\": 1,\n    \"B\": 2,\n}".to_string(),
        }],
    );
    assert_eq!(out, "{\"A\": 1, \"B\": 2}");
}

#[test]
fn long_map_text_takes_the_pretty_form() {
    let long_key = "k".repeat(120);
    let debug = format!("{{\"{}\": 1}}", long_key);
    let pretty = format!("{{\n    \"{}\": 1,\n}}", long_key);
    let out = ok(
        "{v:a}",
        vec![Arg::Str {
            display: debug.clone(),
            debug: debug.clone(),
            pretty: pretty.clone(),
        }],
    );
    assert_eq!(out, pretty);
}

#[test]
fn compact_directive_never_outputs_newlines() {
    let out = ok("{v:c}", vec![str_arg("[1,\n 2]")]);
    assert!(!out.contains('\n'));
    assert_eq!(out, "[1, 2]");
    let out = ok("{v:c}", vec![str_arg("a\nb\nc")]);
    assert!(!out.contains('\n'));
    assert_eq!(out, "abc");
}

#[test]
fn compact_directive_is_identity_on_single_line_debug() {
    let v = vec![vec![1, 2], vec![3, 4]];
    let debug = format!("{:?}", v);
    let out = ok(
        "{v:c}",
        vec![Arg::Str {
            display: debug.clone(),
            debug: debug.clone(),
            pretty: format!("{:#?}", v),
        }],
    );
    assert_eq!(out, debug);
}

#[test]
fn json_pretty_is_multiline_even_under_the_length_threshold() {
    let v = vec![1, 2];
    let debug = format!("{:?}", v);
    assert!(debug.len() < 100);
    let out = ok(
        "{v:j}",
        vec![Arg::Str {
            display: debug.clone(),
            debug,
            pretty: format!("{:#?}", v),
        }],
    );
    assert!(out.contains('\n'));
    assert_eq!(out, "[\n    1,\n    2,\n]");
}

#[test]
fn numeric_zero_padding() {
    assert_eq!(ok("{v:04}", vec![Arg::Int(5)]), "0005");
    assert_eq!(ok("{v:05}", vec![Arg::Int(-42)]), "-0042");
}

#[test]
fn numeric_bases() {
    assert_eq!(ok("{v:x}", vec![Arg::Int(255)]), "ff");
    assert_eq!(ok("{v:X}", vec![Arg::Int(255)]), "FF");
    assert_eq!(ok("{v:b}", vec![Arg::Int(5)]), "101");
    assert_eq!(ok("{v:o}", vec![Arg::Int(8)]), "10");
}

#[test]
fn numeric_negative_hex_shows_the_bit_pattern() {
    assert_eq!(ok("{v:x}", vec![Arg::Int(-1)]), "ffffffffffffffff");
}

#[test]
fn numeric_space_padding() {
    assert_eq!(ok("{v:4}", vec![Arg::Int(5)]), "   5");
    assert_eq!(ok("{v:4}", vec![Arg::Int(-5)]), "  -5");
}

#[test]
fn empty_spec_falls_back_to_decimal() {
    assert_eq!(ok("{v:}", vec![Arg::Int(7)]), "7");
}

#[test]
fn unknown_spec_on_integer_falls_back_to_decimal() {
    assert_eq!(ok("{v:.2}", vec![Arg::Int(7)]), "7");
}

#[test]
fn numeric_spec_on_a_string_value_uses_display() {
    let out = ok("{v:04}", vec![str_arg("wide")]);
    assert_eq!(out, "wide");
}

#[test]
fn oversized_width_falls_back_to_decimal() {
    let out = ok("{v:99999999999999999999999}", vec![Arg::Int(7)]);
    assert_eq!(out, "7");
}

#[test]
fn extreme_integers() {
    assert_eq!(ok("{v}", vec![Arg::Int(i64::MIN)]), format!("{}", i64::MIN));
    assert_eq!(ok("{v:x}", vec![Arg::Int(i64::MIN)]), format!("{:x}", i64::MIN));
    assert_eq!(ok("{v}", vec![Arg::Int(i64::MAX)]), format!("{}", i64::MAX));
}

#[test]
fn compact_and_json_directives_on_integers() {
    assert_eq!(ok("{v:c}", vec![Arg::Int(-12)]), "-12");
    assert_eq!(ok("{v:j}", vec![Arg::Int(34)]), "34");
}

#[test]
fn expression_text_is_trimmed() {
    assert_eq!(ok("{  v  }", vec![Arg::Int(3)]), "3");
    assert_eq!(ok("{ v :04}", vec![Arg::Int(3)]), "0003");
}
