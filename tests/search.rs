use dictcc_cli::search::{
    filter_completions, order_completions, plan_completion, plan_search, search_plan_from_tokens,
    ExactQuery,
};

fn strings(v: &[&str]) -> Vec<String> {
    v.iter().map(|s| s.to_string()).collect()
}

#[test]
fn empty_expression_runs_no_query() {
    assert!(plan_search(false, "", 0).is_none());
    assert!(plan_search(true, "  \t ", 2).is_none());
}

#[test]
fn expression_without_terms_runs_no_query() {
    assert!(plan_search(false, "!!! ?", 1).is_none());
}

#[test]
fn search_plan_several_terms() {
    let p = plan_search(true, "Hello, World!", 2).unwrap();
    assert!(p.reverse_langs);
    assert_eq!(p.fuzzy_terms, strings(&["hello", "world"]));
    assert_eq!(p.fuzzy_distance, 2);
    match p.extra {
        ExactQuery::Phrase(v) => assert_eq!(v, strings(&["hello", "world"])),
        ExactQuery::Term(_) => panic!("expected a phrase"),
    }
}

#[test]
fn search_plan_one_term() {
    let p = plan_search(false, "  Haus ", 0).unwrap();
    assert_eq!(p.fuzzy_terms, strings(&["haus"]));
    assert_eq!(p.fuzzy_distance, 0);
    match p.extra {
        ExactQuery::Term(t) => assert_eq!(t, "haus"),
        ExactQuery::Phrase(_) => panic!("expected a term"),
    }
}

#[test]
fn search_plan_from_no_tokens() {
    assert!(search_plan_from_tokens(false, Vec::new(), 1).is_none());
}

#[test]
fn completion_plan_one_word() {
    let p = plan_completion("  go ", false).unwrap();
    assert_eq!(p.line, "go");
    assert_eq!(p.last_word_pattern, "go.+");
    assert!(p.start.is_none());
}

#[test]
fn completion_plan_several_words() {
    let p = plan_completion("to Go", true).unwrap();
    assert!(p.reverse_langs);
    assert_eq!(p.line, "to Go");
    assert_eq!(p.last_word_pattern, "go.+");
    match p.start {
        Some(ExactQuery::Term(t)) => assert_eq!(t, "to"),
        _ => panic!("expected a term"),
    }
    let q = plan_completion("a b c", false).unwrap();
    match q.start {
        Some(ExactQuery::Phrase(v)) => assert_eq!(v, strings(&["a", "b"])),
        _ => panic!("expected a phrase"),
    }
}

#[test]
fn completion_plan_empty_line() {
    assert!(plan_completion("", false).is_none());
    assert!(plan_completion("   ", false).is_none());
}

#[test]
fn completions_start_with_line() {
    let got = filter_completions("go", strings(&["go on", "going", "to go", "go on", "Go", "g"]));
    assert_eq!(got, strings(&["go on", "going"]));
    for c in &got {
        assert!(c.starts_with("go"));
    }
}

#[test]
fn completions_presentation_order() {
    let got = order_completions(strings(&["go on and on", "going", "go on", "go", "gone by"]));
    assert_eq!(got, strings(&["go", "going", "go on", "gone by", "go on and on"]));
}
