use dictcc_cli::rank::{rank_documents, remove_parens, similarity_query, similarity_texts};

#[test]
fn threshold_excludes_lower_scores() {
    let scores = vec![500u16, 900, 500, 100];
    assert_eq!(rank_documents(&scores, Some(200), None), vec![1, 0, 2]);
    assert_eq!(rank_documents(&scores, Some(500), None), vec![1, 0, 2]);
    assert_eq!(rank_documents(&scores, Some(501), None), vec![1]);
    assert_eq!(rank_documents(&scores, Some(1000), None), Vec::<usize>::new());
}

#[test]
fn limit_keeps_highest_first() {
    let scores = vec![500u16, 900, 500, 100];
    assert_eq!(rank_documents(&scores, None, Some(2)), vec![1, 0]);
    assert_eq!(rank_documents(&scores, None, Some(3)), vec![1, 0, 2]);
    assert_eq!(rank_documents(&scores, None, Some(10)), vec![1, 0, 2, 3]);
    assert_eq!(rank_documents(&scores, None, Some(0)), Vec::<usize>::new());
}

#[test]
fn ties_keep_match_order() {
    let scores = vec![300u16, 300, 300, 700, 300];
    assert_eq!(rank_documents(&scores, None, None), vec![3, 0, 1, 2, 4]);
    assert_eq!(rank_documents(&scores, Some(300), Some(3)), vec![3, 0, 1]);
}

#[test]
fn ranking_of_nothing() {
    assert!(rank_documents(&Vec::new(), Some(0), Some(5)).is_empty());
    assert_eq!(rank_documents(&vec![0u16, 0], None, None), vec![0, 1]);
    assert_eq!(rank_documents(&vec![u16::MAX, 0], None, None), vec![0, 1]);
}

#[test]
fn compared_texts_keep_brackets_apart() {
    let (t, e) = similarity_texts("Go (ing) <Coll.>").unwrap();
    assert_eq!(t, "go ing");
    assert_eq!(e, "<coll.>");
}

#[test]
fn compared_texts_of_malformed_entry() {
    assert!(similarity_texts("go (ing").is_none());
}

#[test]
fn query_is_lowercased_and_composed() {
    assert_eq!(similarity_query("HOUSE"), "house");
    assert_eq!(similarity_query("Cafe\u{301}"), "caf\u{e9}");
}

#[test]
fn round_brackets_removed() {
    assert_eq!(remove_parens("(a)b(c"), "abc");
    assert_eq!(remove_parens(""), "");
}
