use dictcc_cli::entry::{normalized_entry, parse_entry, TokenKind};
use dictcc_cli::error::DictCliError;
use dictcc_cli::text::remove_multiple_whitespace;

fn norm(s: &str, strip: bool) -> (String, String) {
    let n = normalized_entry(s, strip).expect("entry should normalize");
    (n.text, n.extra)
}

#[test]
fn normalize_drops_angle_group_from_text() {
    assert_eq!(norm("hello <foo> world", true), ("hello world".to_string(), "foo".to_string()));
}

#[test]
fn normalize_keeps_round_group_in_word() {
    assert_eq!(norm("go(ing) <coll.>", true), ("go(ing)".to_string(), "coll.".to_string()));
}

#[test]
fn whitespace_collapse() {
    assert_eq!(remove_multiple_whitespace("  a   b  "), "a b");
    assert_eq!(remove_multiple_whitespace(""), "");
    assert_eq!(remove_multiple_whitespace(" \t\n "), "");
    assert_eq!(remove_multiple_whitespace("a\u{3000}b\u{a0}\u{a0}c"), "a b c");
}

#[test]
fn normalize_without_stripping_keeps_brackets() {
    assert_eq!(norm("go <coll.>", false), ("go".to_string(), "<coll.>".to_string()));
}

#[test]
fn normalize_several_angle_groups() {
    assert_eq!(
        norm("<a>  house  <b  c> <d>", true),
        ("house".to_string(), "a b c d".to_string())
    );
}

#[test]
fn normalize_round_group_with_spaces() {
    assert_eq!(
        norm("(sich)   freuen  (über  etw.)", true),
        ("(sich) freuen (über etw.)".to_string(), "".to_string())
    );
}

#[test]
fn normalize_empty_entry() {
    assert_eq!(norm("", true), ("".to_string(), "".to_string()));
    assert_eq!(norm("   ", true), ("".to_string(), "".to_string()));
}

#[test]
fn normalize_is_idempotent_on_text() {
    let (t, _) = norm("  a (b  c)  <x>  d ", true);
    assert_eq!(t, "a (b c) d");
    let (t2, e2) = norm(&t, true);
    assert_eq!(t2, t);
    assert_eq!(e2, "");
}

#[test]
fn parse_tokens_and_kinds() {
    let toks = parse_entry("go(ing) <coll.> (sth.) x").unwrap();
    let got: Vec<(TokenKind, String)> = toks.into_iter().map(|t| (t.kind, t.text)).collect();
    assert_eq!(
        got,
        vec![
            (TokenKind::Word, "go(ing)".to_string()),
            (TokenKind::AngleGroup, "<coll.>".to_string()),
            (TokenKind::RoundGroup, "(sth.)".to_string()),
            (TokenKind::Word, "x".to_string()),
        ]
    );
}

#[test]
fn parse_angle_right_after_word() {
    let toks = parse_entry("a<b>c").unwrap();
    let got: Vec<String> = toks.into_iter().map(|t| t.text).collect();
    assert_eq!(got, vec!["a", "<b>", "c"]);
}

#[test]
fn parse_unclosed_round_bracket() {
    assert_eq!(parse_entry("a (b").unwrap_err(), DictCliError::ParseError(4));
}

#[test]
fn parse_stray_closing_bracket() {
    assert_eq!(parse_entry("a)b").unwrap_err(), DictCliError::ParseError(1));
    assert_eq!(parse_entry("a>b").unwrap_err(), DictCliError::ParseError(1));
}

#[test]
fn parse_nested_angle() {
    assert_eq!(parse_entry("<a <b>>").unwrap_err(), DictCliError::ParseError(3));
}

#[test]
fn parse_misnested_brackets() {
    assert_eq!(parse_entry("(a <b) c>").unwrap_err(), DictCliError::ParseError(3));
    assert_eq!(parse_entry("<a (b> c)").unwrap_err(), DictCliError::ParseError(5));
}

#[test]
fn normalize_reports_parse_error() {
    assert!(matches!(normalized_entry("x <y", true), Err(DictCliError::ParseError(4))));
}
