use gimura_preprocessor_lib::{
    CodeSource, CommandType, LiteralType, Preporcessor, PreprocessorOptions, Token,
};

fn engine() -> Preporcessor {
    Preporcessor::new(PreprocessorOptions::default())
}

fn splice_kw() -> String {
    ['i', 'n', 'c', 'l', 'u', 'd', 'e'].iter().collect()
}

#[test]
fn opaque_line_is_one_token() {
    let mut p = engine();
    let toks = p.tokenize_line("no directives here".to_string());
    assert_eq!(toks.len(), 1);
    match &toks[0] {
        Token::OtherCode(s) => assert_eq!(s, "no directives here "),
        _ => panic!("expected opaque code"),
    }
}

#[test]
fn opaque_line_is_trimmed_and_spaced() {
    let mut p = engine();
    let toks = p.tokenize_line("   a  b \t".to_string());
    assert_eq!(toks.len(), 1);
    match &toks[0] {
        Token::OtherCode(s) => assert_eq!(s, "a  b "),
        _ => panic!("expected opaque code"),
    }
}

#[test]
fn directive_line_splits_code_and_tokens() {
    let mut p = engine();
    let toks = p.tokenize_line("color = RED; //! define RED \"1.0\"".to_string());
    assert_eq!(toks.len(), 4);
    match &toks[0] {
        Token::OtherCode(s) => assert_eq!(s, "color = RED; "),
        _ => panic!("expected opaque code"),
    }
    assert!(matches!(&toks[1], Token::Command(CommandType::Define)));
    match &toks[2] {
        Token::Literal(LiteralType::NameLiteral(s)) => assert_eq!(s, "RED"),
        _ => panic!("expected a name"),
    }
    match &toks[3] {
        Token::Literal(LiteralType::StringLiteral(s)) => assert_eq!(s, "1.0"),
        _ => panic!("expected a string"),
    }
}

#[test]
fn every_keyword_is_recognized() {
    let mut p = engine();
    let line = format!("//! {} define undef ifdef ifndef endif error warn other", splice_kw());
    let toks = p.tokenize_line(line);
    assert_eq!(toks.len(), 10);
    assert!(matches!(&toks[1], Token::Command(CommandType::Include)));
    assert!(matches!(&toks[2], Token::Command(CommandType::Define)));
    assert!(matches!(&toks[3], Token::Command(CommandType::UnDefine)));
    assert!(matches!(&toks[4], Token::Command(CommandType::IfDef)));
    assert!(matches!(&toks[5], Token::Command(CommandType::IfNotDef)));
    assert!(matches!(&toks[6], Token::Command(CommandType::Endif)));
    assert!(matches!(&toks[7], Token::Command(CommandType::Error)));
    assert!(matches!(&toks[8], Token::Command(CommandType::Warn)));
    assert!(matches!(&toks[9], Token::Literal(LiteralType::NameLiteral(_))));
}

#[test]
fn multi_word_string_literal_is_rejoined() {
    let mut p = engine();
    let toks = p.tokenize_line("//! warn \"hello wide world\"".to_string());
    assert_eq!(toks.len(), 3);
    match &toks[2] {
        Token::Literal(LiteralType::StringLiteral(s)) => assert_eq!(s, "hello wide world"),
        _ => panic!("expected a string"),
    }
}

#[test]
fn repeated_operator_emits_buffer_again() {
    let mut p = engine();
    let toks = p.tokenize_line("a //! b //! c".to_string());
    assert_eq!(toks.len(), 4);
    match &toks[0] {
        Token::OtherCode(s) => assert_eq!(s, "a "),
        _ => panic!("expected opaque code"),
    }
    match &toks[1] {
        Token::Literal(LiteralType::NameLiteral(s)) => assert_eq!(s, "b"),
        _ => panic!("expected a name"),
    }
    match &toks[2] {
        Token::OtherCode(s) => assert_eq!(s, "a "),
        _ => panic!("expected opaque code"),
    }
    match &toks[3] {
        Token::Literal(LiteralType::NameLiteral(s)) => assert_eq!(s, "c"),
        _ => panic!("expected a name"),
    }
}

#[test]
fn closing_quote_without_opening_uses_stale_buffer() {
    let mut p = engine();
    let toks = p.tokenize_line("//! x\"".to_string());
    assert_eq!(toks.len(), 2);
    match &toks[1] {
        Token::Literal(LiteralType::StringLiteral(s)) => assert_eq!(s, ""),
        _ => panic!("expected a string"),
    }
}

#[test]
fn custom_start_operator_is_honored() {
    let mut p = Preporcessor::new(PreprocessorOptions {
        start_operator: "#:".to_string(),
        defines: Vec::new(),
    });
    let toks = p.tokenize_line("code //! still code #: endif".to_string());
    assert_eq!(toks.len(), 2);
    match &toks[0] {
        Token::OtherCode(s) => assert_eq!(s, "code //! still code "),
        _ => panic!("expected opaque code"),
    }
    assert!(matches!(&toks[1], Token::Command(CommandType::Endif)));
}

#[test]
fn get_source_returns_registered_text() {
    let cs = CodeSource::new(vec![
        ("a.glsl".to_string(), "void main() {}".to_string()),
        ("b.glsl".to_string(), "b".to_string()),
        ("a.glsl".to_string(), "second wins".to_string()),
    ]);
    assert_eq!(cs.get_source("a.glsl".to_string()), "second wins");
    assert_eq!(cs.get_source("b.glsl".to_string()), "b");
}

#[test]
fn default_options_use_doc_comment_marker() {
    let opts = PreprocessorOptions::default();
    assert_eq!(opts.start_operator, "//!");
    assert!(opts.defines.is_empty());
}
