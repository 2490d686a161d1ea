use std::collections::HashSet;

use dictcc_cli::import::prepare_record;
use dictcc_cli::schema::FieldNames;
use dictcc_cli::search::{plan_search, ExactQuery, SearchPlan};
use tantivy::collector::DocSetCollector;
use tantivy::query::{BooleanQuery, FuzzyTermQuery, Occur, PhraseQuery, Query, TermQuery};
use tantivy::schema::{Field, IndexRecordOption, Schema, TextFieldIndexing, TextOptions, STORED, TEXT};
use tantivy::tokenizer::{LowerCaser, RemoveLongFilter, SimpleTokenizer, TextAnalyzer};
use tantivy::{Document, Index, Searcher, Term};

struct Engine {
    index: Index,
    fields: Vec<Field>,
}

fn engine(rows: &[(&str, &str)]) -> Engine {
    let names = FieldNames::new("de", "en");
    let mut builder = Schema::builder();
    let indexed = TEXT.set_indexing_options(
        TextFieldIndexing::default()
            .set_tokenizer("lowercase")
            .set_index_option(IndexRecordOption::WithFreqsAndPositions),
    ) | STORED;
    let stored = TextOptions::default() | STORED;
    let fields = vec![
        builder.add_text_field(&names.key_left, indexed.clone()),
        builder.add_text_field(&names.key_right, indexed.clone()),
        builder.add_text_field(&names.extra_left, indexed.clone()),
        builder.add_text_field(&names.extra_right, indexed),
        builder.add_text_field(&names.lang_left, stored.clone()),
        builder.add_text_field(&names.lang_right, stored),
    ];
    let index = Index::create_in_ram(builder.build());
    index.tokenizers().register(
        "lowercase",
        TextAnalyzer::from(SimpleTokenizer)
            .filter(RemoveLongFilter::limit(tantivy::tokenizer::MAX_TOKEN_LEN))
            .filter(LowerCaser),
    );
    let mut writer = index.writer_with_num_threads(1, 15_000_000).unwrap();
    for (left, right) in rows {
        let row = prepare_record(vec![left.to_string(), right.to_string()]).unwrap().unwrap();
        let mut doc = Document::default();
        doc.add_text(fields[0], row.key_left);
        doc.add_text(fields[1], row.key_right);
        doc.add_text(fields[2], row.extra_left);
        doc.add_text(fields[3], row.extra_right);
        doc.add_text(fields[4], row.lang_left);
        doc.add_text(fields[5], row.lang_right);
        writer.add_document(doc).unwrap();
    }
    writer.commit().unwrap();
    Engine { index, fields }
}

fn exact(field: Field, q: &ExactQuery) -> Box<dyn Query> {
    match q {
        ExactQuery::Term(t) => Box::new(TermQuery::new(Term::from_field_text(field, t), IndexRecordOption::Basic)),
        ExactQuery::Phrase(v) => Box::new(PhraseQuery::new(v.iter().map(|t| Term::from_field_text(field, t)).collect())),
    }
}

fn run(e: &Engine, searcher: &Searcher, plan: &SearchPlan) -> HashSet<String> {
    let (key, extra) = if plan.reverse_langs { (e.fields[1], e.fields[3]) } else { (e.fields[0], e.fields[2]) };
    let fuzzy: Vec<(Occur, Box<dyn Query>)> = plan
        .fuzzy_terms
        .iter()
        .map(|t| {
            let q: Box<dyn Query> =
                Box::new(FuzzyTermQuery::new(Term::from_field_text(key, t), plan.fuzzy_distance, true));
            (Occur::Must, q)
        })
        .collect();
    let a = searcher.search(&BooleanQuery::new(fuzzy), &DocSetCollector).unwrap();
    let b = searcher.search(&exact(extra, &plan.extra), &DocSetCollector).unwrap();
    (&a | &b)
        .into_iter()
        .map(|addr| {
            let doc = searcher.doc(addr).unwrap();
            doc.get_first(e.fields[4]).unwrap().as_text().unwrap().to_string()
        })
        .collect()
}

fn search(e: &Engine, reverse: bool, expression: &str, distance: u8) -> HashSet<String> {
    let searcher = e.index.reader().unwrap().searcher();
    match plan_search(reverse, expression, distance) {
        Some(plan) => run(e, &searcher, &plan),
        None => HashSet::new(),
    }
}

fn set(v: &[&str]) -> HashSet<String> {
    v.iter().map(|s| s.to_string()).collect()
}

#[test]
fn fuzzy_match_within_distance() {
    let e = engine(&[("Haus", "house"), ("Maus", "mouse")]);
    assert_eq!(search(&e, false, "Hous", 1), set(&["Haus"]));
    assert_eq!(search(&e, true, "Hous", 1), set(&["Haus"]));
}

#[test]
fn distance_zero_is_exact_and_matching() {
    let e = engine(&[("rotes Haus", "red house"), ("rotes Auto", "red car"), ("Haus", "house")]);
    assert_eq!(search(&e, true, "hous", 0), set(&[]));
    assert_eq!(search(&e, true, "red house", 0), set(&["rotes Haus"]));
    assert_eq!(search(&e, true, "house", 0), set(&["rotes Haus", "Haus"]));
    assert_eq!(search(&e, true, "red", 0), set(&["rotes Haus", "rotes Auto"]));
}

#[test]
fn annotation_phrase_matches_exactly() {
    let e = engine(&[("Bank <Geld>", "bank"), ("Bank <Sitz>", "bench")]);
    assert_eq!(search(&e, false, "geld", 0), set(&["Bank <Geld>"]));
    assert_eq!(search(&e, false, "", 0), set(&[]));
}
