use gimura_preprocessor_lib::{
    CodeSource, Preporcessor, PreprocessError, PreprocessorOptions,
};

fn engine() -> Preporcessor {
    Preporcessor::new(PreprocessorOptions::default())
}

fn engine_with(src: &str) -> Preporcessor {
    let mut p = engine();
    p.add_source(
        "main".to_string(),
        CodeSource::new(vec![("main.glsl".to_string(), src.to_string())]),
    );
    p
}

fn splice_kw() -> String {
    ['i', 'n', 'c', 'l', 'u', 'd', 'e'].iter().collect()
}

#[test]
fn no_directives_round_trip() {
    let mut p = engine_with("foo\n\nbar baz");
    let out = p.preprocess("main".to_string(), "main.glsl".to_string()).unwrap();
    assert_eq!(out, "foo \nbar baz ");
}

#[test]
fn define_applies_only_to_later_lines() {
    let mut p = engine();
    let first = p
        .preprocess_line("color = RED; //! define RED \"1.0\"".to_string())
        .unwrap();
    assert_eq!(first, vec!["color = RED; ".to_string()]);
    let second = p.preprocess_line("value = RED;".to_string()).unwrap();
    assert_eq!(second, vec!["value = 1.0; ".to_string()]);
}

#[test]
fn substitution_is_substring_based() {
    let mut p = engine_with("//! define E \"3\"\nHELLO");
    let out = p.preprocess("main".to_string(), "main.glsl".to_string()).unwrap();
    assert_eq!(out, "H3LLO ");
}

#[test]
fn later_define_overwrites_earlier() {
    let mut p = engine_with("//! define X \"1\"\n//! define X \"2\"\nX");
    let out = p.preprocess("main".to_string(), "main.glsl".to_string()).unwrap();
    assert_eq!(out, "2 ");
}

#[test]
fn undef_stops_future_substitution_only() {
    let mut p = engine_with("//! define X \"1\"\nX\n//! undef X\nX");
    let out = p.preprocess("main".to_string(), "main.glsl".to_string()).unwrap();
    assert_eq!(out, "1 \nX ");
}

#[test]
fn undef_of_unknown_name_is_no_op() {
    let mut p = engine_with("//! undef NEVER\nok");
    let out = p.preprocess("main".to_string(), "main.glsl".to_string()).unwrap();
    assert_eq!(out, "ok ");
}

#[test]
fn initial_defines_are_seeded() {
    let mut p = Preporcessor::new(PreprocessorOptions {
        start_operator: "//!".to_string(),
        defines: vec![("A".to_string(), "1".to_string())],
    });
    let out = p.preprocess_line("A B".to_string()).unwrap();
    assert_eq!(out, vec!["1 B ".to_string()]);
}

#[test]
fn replace_defines_applies_table() {
    let mut p = engine();
    p.preprocess_line("//! define AB \"x\"".to_string()).unwrap();
    let replaced = p.replace_defines("zABz AB".to_string());
    assert_eq!(replaced, "zxz x");
}

#[test]
fn gate_pair_is_a_no_op() {
    let mut p = engine_with("a\n//! ifdef X\n//! endif\nb");
    let out = p.preprocess("main".to_string(), "main.glsl".to_string()).unwrap();
    assert_eq!(out, "a \nb ");
}

#[test]
fn undefined_gate_skips_content() {
    let mut p = engine_with("a\n//! ifdef X\nhidden\n//! endif\nb");
    let out = p.preprocess("main".to_string(), "main.glsl".to_string()).unwrap();
    assert_eq!(out, "a \nb ");
}

#[test]
fn defined_gate_keeps_content() {
    let mut p = engine_with("//! define X \"1\"\n//! ifdef X\nshown\n//! endif");
    let out = p.preprocess("main".to_string(), "main.glsl".to_string()).unwrap();
    assert_eq!(out, "shown ");
}

#[test]
fn nested_gates_need_both_names() {
    let src = "//! define A \"1\"\n//! ifdef A\n//! ifdef B\nhidden\n//! endif\nshown\n//! endif";
    let mut p = engine_with(src);
    let out = p.preprocess("main".to_string(), "main.glsl".to_string()).unwrap();
    assert_eq!(out, "shown ");
}

#[test]
fn nested_gates_emit_when_both_defined() {
    let src =
        "//! define A \"1\"\n//! define B \"1\"\n//! ifdef A\n//! ifdef B\nboth\n//! endif\n//! endif";
    let mut p = engine_with(src);
    let out = p.preprocess("main".to_string(), "main.glsl".to_string()).unwrap();
    assert_eq!(out, "both ");
}

#[test]
fn outer_false_gate_wins_over_inner_true() {
    let src = "//! define B \"1\"\n//! ifdef A\n//! ifdef B\nhidden\n//! endif\n//! endif\nend";
    let mut p = engine_with(src);
    let out = p.preprocess("main".to_string(), "main.glsl".to_string()).unwrap();
    assert_eq!(out, "end ");
}

#[test]
fn ifndef_gates_on_absence() {
    let mut p = engine_with("//! ifndef X\nshown\n//! endif");
    let out = p.preprocess("main".to_string(), "main.glsl".to_string()).unwrap();
    assert_eq!(out, "shown ");
}

#[test]
fn directives_inside_false_gate_are_inert() {
    let src = "//! ifdef X\n//! define Y \"1\"\n//! endif\nY";
    let mut p = engine_with(src);
    let out = p.preprocess("main".to_string(), "main.glsl".to_string()).unwrap();
    assert_eq!(out, "Y ");
}

#[test]
fn stray_endif_is_tolerated() {
    let mut p = engine_with("//! endif\nok");
    let out = p.preprocess("main".to_string(), "main.glsl".to_string()).unwrap();
    assert_eq!(out, "ok ");
}

#[test]
fn splice_pulls_in_other_namespace() {
    let mut p = engine();
    p.add_source(
        "lib".to_string(),
        CodeSource::new(vec![("util.glsl".to_string(), "u1\nu2".to_string())]),
    );
    let main = format!("a\n//! {} \"lib\" \"util.glsl\"\nb", splice_kw());
    p.add_source(
        "main".to_string(),
        CodeSource::new(vec![("main.glsl".to_string(), main)]),
    );
    let out = p.preprocess("main".to_string(), "main.glsl".to_string()).unwrap();
    assert_eq!(out, "a \nu1 \nu2 \nb ");
}

#[test]
fn spliced_defines_leak_to_the_caller() {
    let mut p = engine();
    p.add_source(
        "lib".to_string(),
        CodeSource::new(vec![("defs".to_string(), "//! define W \"9\"".to_string())]),
    );
    let main = format!("//! {} \"lib\" \"defs\"\nW", splice_kw());
    p.add_source(
        "main".to_string(),
        CodeSource::new(vec![("main.glsl".to_string(), main)]),
    );
    let out = p.preprocess("main".to_string(), "main.glsl".to_string()).unwrap();
    assert_eq!(out, "9 ");
}

#[test]
fn unclosed_gate_leaks_out_of_splice() {
    let mut p = engine();
    p.add_source(
        "lib".to_string(),
        CodeSource::new(vec![("open".to_string(), "//! ifdef X".to_string())]),
    );
    let main = format!("a\n//! {} \"lib\" \"open\"\nhidden", splice_kw());
    p.add_source(
        "main".to_string(),
        CodeSource::new(vec![("main.glsl".to_string(), main)]),
    );
    let out = p.preprocess("main".to_string(), "main.glsl".to_string()).unwrap();
    assert_eq!(out, "a ");
}

#[test]
fn missing_file_is_a_lookup_failure() {
    let mut p = engine();
    p.add_source("lib".to_string(), CodeSource::new(Vec::new()));
    let line = format!("//! {} \"lib\" \"util.glsl\"", splice_kw());
    let r = p.preprocess_line(line);
    match r {
        Err(PreprocessError::UnknownFile(name)) => assert_eq!(name, "util.glsl"),
        _ => panic!("expected a missing-file failure"),
    }
}

#[test]
fn missing_namespace_is_a_lookup_failure() {
    let mut p = engine();
    let r = p.preprocess("nowhere".to_string(), "f".to_string());
    match r {
        Err(PreprocessError::UnknownNamespace(name)) => assert_eq!(name, "nowhere"),
        _ => panic!("expected a missing-namespace failure"),
    }
}

#[test]
fn error_directive_aborts_with_message() {
    let src = "//! ifndef FOO\n//! error \"FOO required\"\n//! endif";
    let mut p = engine_with(src);
    let r = p.preprocess("main".to_string(), "main.glsl".to_string());
    match r {
        Err(PreprocessError::UserError(msg)) => assert_eq!(msg, "FOO required"),
        _ => panic!("expected the declared error"),
    }
}

#[test]
fn error_directive_inside_false_gate_is_skipped() {
    let src = "//! define FOO \"1\"\n//! ifndef FOO\n//! error \"FOO required\"\n//! endif\nok";
    let mut p = engine_with(src);
    let out = p.preprocess("main".to_string(), "main.glsl".to_string()).unwrap();
    assert_eq!(out, "ok ");
}

#[test]
fn warn_directive_records_and_continues() {
    let mut p = engine_with("//! warn \"careful now\"\nok");
    let out = p.preprocess("main".to_string(), "main.glsl".to_string()).unwrap();
    assert_eq!(out, "ok ");
    assert_eq!(p.warnings, vec!["careful now".to_string()]);
}

#[test]
fn malformed_define_is_an_unexpected_token() {
    let mut p = engine();
    let r = p.preprocess_line("//! define X".to_string());
    assert!(matches!(r, Err(PreprocessError::UnexpectedToken)));
}

#[test]
fn define_with_bare_value_is_an_unexpected_token() {
    let mut p = engine();
    let r = p.preprocess_line("//! define X Y".to_string());
    assert!(matches!(r, Err(PreprocessError::UnexpectedToken)));
}

#[test]
fn leading_name_is_an_unexpected_token() {
    let mut p = engine();
    let r = p.preprocess_line("//! foo".to_string());
    assert!(matches!(r, Err(PreprocessError::UnexpectedToken)));
}

#[test]
fn cyclic_splice_exhausts_the_depth_bound() {
    let mut p = engine();
    let f = format!("//! {} \"m\" \"f\"", splice_kw());
    p.add_source("m".to_string(), CodeSource::new(vec![("f".to_string(), f)]));
    let r = p.preprocess("m".to_string(), "f".to_string());
    assert!(matches!(r, Err(PreprocessError::DepthExceeded)));
}

#[test]
fn blank_lines_are_elided() {
    let mut p = engine_with("\n  \na\n\t\nb\n");
    let out = p.preprocess("main".to_string(), "main.glsl".to_string()).unwrap();
    assert_eq!(out, "a \nb ");
}

#[test]
fn crlf_line_endings_are_handled() {
    let mut p = engine_with("a\r\n//! define X \"1\"\r\nX");
    let out = p.preprocess("main".to_string(), "main.glsl".to_string()).unwrap();
    assert_eq!(out, "a \n1 ");
}

#[test]
fn preprocess_line_keeps_blank_output_lines() {
    let mut p = engine();
    let out = p.preprocess_line("//! define X \"1\"".to_string()).unwrap();
    assert_eq!(out, vec!["".to_string()]);
}
