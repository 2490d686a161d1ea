use dictcc_cli::error::DictCliError;
use dictcc_cli::import::{index_row, prepare_import, prepare_record, ImportAction};
use dictcc_cli::schema::FieldNames;

fn strings(v: &[&str]) -> Vec<String> {
    v.iter().map(|s| s.to_string()).collect()
}

#[test]
fn import_into_new_directory() {
    assert_eq!(prepare_import("/d/de-en", false, false, false), Ok(ImportAction::Create));
    assert_eq!(prepare_import("/d/de-en", false, false, true), Ok(ImportAction::Create));
}

#[test]
fn import_over_existing_pair() {
    assert_eq!(prepare_import("/d/de-en", true, true, false), Err(DictCliError::AlreadyImported));
    assert_eq!(prepare_import("/d/de-en", true, true, true), Ok(ImportAction::Replace));
    assert_eq!(
        prepare_import("/d/de-en", true, false, true),
        Err(DictCliError::NotDirectory("/d/de-en".to_string()))
    );
}

#[test]
fn row_with_all_columns() {
    let row = index_row(strings(&["Haus {n} <Hs.>", "house", "noun", "archi."])).unwrap().unwrap();
    assert_eq!(row.key_left, "Haus {n}");
    assert_eq!(row.extra_left, "Hs.");
    assert_eq!(row.key_right, "house");
    assert_eq!(row.extra_right, "");
    assert_eq!(row.lang_left, "Haus {n} <Hs.>");
    assert_eq!(row.lang_right, "house");
    assert_eq!(row.word_classes, "noun");
    assert_eq!(row.subject_labels, "archi.");
}

#[test]
fn row_with_two_columns() {
    let row = index_row(strings(&["a", "b"])).unwrap().unwrap();
    assert_eq!(row.word_classes, "");
    assert_eq!(row.subject_labels, "");
}

#[test]
fn short_row_is_skipped() {
    assert!(index_row(strings(&["only"])).unwrap().is_none());
    assert!(index_row(Vec::new()).unwrap().is_none());
}

#[test]
fn malformed_row_fails() {
    assert!(matches!(index_row(strings(&["a (b", "c"])), Err(DictCliError::ParseError(_))));
    assert!(matches!(index_row(strings(&["a", "c>"])), Err(DictCliError::ParseError(1))));
}

#[test]
fn raw_row_is_decoded() {
    let row = prepare_record(strings(&["rock &amp; roll", "Rock &lt;n&gt;", "noun", "mus.", "ignored"]))
        .unwrap()
        .unwrap();
    assert_eq!(row.lang_left, "rock & roll");
    assert_eq!(row.key_right, "Rock");
    assert_eq!(row.extra_right, "n");
    assert_eq!(row.subject_labels, "mus.");
}

#[test]
fn raw_row_is_composed() {
    let row = prepare_record(strings(&["Cafe\u{301}", "coffee"])).unwrap().unwrap();
    assert_eq!(row.key_left, "Caf\u{e9}");
}

#[test]
fn field_names_of_pair() {
    let f = FieldNames::new("de", "en");
    assert_eq!(f.key_left, "key_de");
    assert_eq!(f.key_right, "key_en");
    assert_eq!(f.extra_left, "extra_de");
    assert_eq!(f.extra_right, "extra_en");
    assert_eq!(f.lang_left, "de");
    assert_eq!(f.lang_right, "en");
    assert_eq!(f.word_classes, "word_classes");
    assert_eq!(f.subject_labels, "subject_labels");
}

#[test]
fn row_sides_exchanged() {
    let row = index_row(strings(&["house <n>", "Haus", "noun", "archi."])).unwrap().unwrap().reversed();
    assert_eq!(row.key_left, "Haus");
    assert_eq!(row.key_right, "house");
    assert_eq!(row.extra_left, "");
    assert_eq!(row.extra_right, "n");
    assert_eq!(row.lang_left, "Haus");
    assert_eq!(row.lang_right, "house <n>");
    assert_eq!(row.word_classes, "noun");
    assert_eq!(row.subject_labels, "archi.");
}
