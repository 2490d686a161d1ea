use dictcc_cli::error::DictCliError;
use dictcc_cli::pair::{
    available_languages, is_lang_pair, lang_db_dir, lang_pair_from_header, languages, normalized_lang_pair,
    reversed_lang_pair,
};
use dictcc_cli::search::LanguagePair;

#[test]
fn canonical_pair_is_direction_independent() {
    assert_eq!(normalized_lang_pair("de-en").unwrap(), normalized_lang_pair("en-de").unwrap());
    assert_eq!(normalized_lang_pair("en-de").unwrap(), "de-en");
    assert_eq!(normalized_lang_pair("fr-fr").unwrap(), "fr-fr");
}

#[test]
fn languages_of_pair() {
    assert_eq!(languages("de-en").unwrap(), ("de", "en"));
    assert_eq!(languages("de-en-fr").unwrap_err(), DictCliError::InvalidLanguagePair);
    assert_eq!(languages("deen").unwrap_err(), DictCliError::InvalidLanguagePair);
    assert_eq!(languages("-").unwrap(), ("", ""));
}

#[test]
fn reversed_pair() {
    assert_eq!(reversed_lang_pair("de-en").unwrap(), "en-de");
    assert_eq!(reversed_lang_pair("a-b-c").unwrap_err(), DictCliError::InvalidLanguagePair);
}

#[test]
fn canonical_pair_rejects_invalid() {
    assert_eq!(normalized_lang_pair("de").unwrap_err(), DictCliError::InvalidLanguagePair);
}

#[test]
fn pair_names() {
    assert!(is_lang_pair("de-en"));
    assert!(!is_lang_pair("de-en-fr"));
    assert!(!is_lang_pair("deen"));
}

#[test]
fn languages_of_available_pairs() {
    let pairs = vec!["de-en".to_string(), "bad".to_string(), "en-fr-x".to_string(), "fr-it".to_string()];
    assert_eq!(available_languages(&pairs), vec!["de", "en", "fr", "it"]);
    assert!(available_languages(&Vec::new()).is_empty());
}

#[test]
fn shared_language_listed_once() {
    let pairs = vec!["de-en".to_string(), "de-fr".to_string(), "en-fr".to_string(), "fr-de".to_string()];
    assert_eq!(available_languages(&pairs), vec!["de", "en", "fr"]);
}

#[test]
fn header_names_pair() {
    assert_eq!(lang_pair_from_header("#DE-EN vocabulary database\n").unwrap(), "de-en");
    assert_eq!(lang_pair_from_header("#  en-sv\n").unwrap(), "en-sv");
}

#[test]
fn header_errors() {
    assert_eq!(lang_pair_from_header("DE-EN\n").unwrap_err(), DictCliError::NoLanguagePair);
    assert_eq!(lang_pair_from_header("#   \n").unwrap_err(), DictCliError::NoLanguagePair);
    assert_eq!(lang_pair_from_header("").unwrap_err(), DictCliError::NoLanguagePair);
    assert_eq!(lang_pair_from_header("#de-en-fr x").unwrap_err(), DictCliError::InvalidLanguagePair);
    assert_eq!(lang_pair_from_header("#deen").unwrap_err(), DictCliError::InvalidLanguagePair);
}

#[test]
fn language_pair_orders_canonically() {
    let p = LanguagePair::new("en-de").unwrap();
    assert_eq!(p.lang_left, "de");
    assert_eq!(p.lang_right, "en");
    assert!(LanguagePair::new("en").is_err());
}

#[test]
fn search_direction() {
    let p = LanguagePair::new("en-de").unwrap();
    assert_eq!(p.is_reverse_langs("de").unwrap(), false);
    assert_eq!(p.is_reverse_langs("en").unwrap(), true);
    assert_eq!(
        p.is_reverse_langs("fr").unwrap_err(),
        DictCliError::SearchLanguageNotAvailable("fr".to_string(), "de, en".to_string())
    );
    assert_eq!(p.target_language("de").unwrap(), "en");
    assert_eq!(p.target_language("en").unwrap(), "de");
    assert!(matches!(p.target_language("it"), Err(DictCliError::SearchLanguageNotAvailable(_, _))));
}

#[test]
fn pair_directory_is_canonical() {
    assert_eq!(lang_db_dir("/data/dictcc-cli", "en-de").unwrap(), "/data/dictcc-cli/de-en");
    assert_eq!(lang_db_dir("/data/dictcc-cli/", "de-en").unwrap(), "/data/dictcc-cli/de-en");
    assert_eq!(lang_db_dir("", "sv-en").unwrap(), "en-sv");
    assert_eq!(lang_db_dir("/data", "de-en-fr").unwrap_err(), DictCliError::InvalidLanguagePair);
}
