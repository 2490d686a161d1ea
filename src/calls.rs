//! Calls into std and outside crates, with the contracts the library relies on.
use vstd::prelude::*;

verus! {

/// Relies on `str::chars`: the characters of a string, in order.
#[verifier::external_body]
pub(crate) fn chars_of(s: &str) -> (r: Vec<char>)
    ensures
        r@ == s@,
{
    s.chars().collect()
}

/// Relies on `FromIterator<char> for String`: the string made of these characters.
#[verifier::external_body]
pub(crate) fn string_of(v: &Vec<char>) -> (r: String)
    ensures
        r@ == v@,
{
    v.iter().collect()
}

} // verus!

verus! {

/// The parts joined with one space between each two (the result of `Itertools::join`).
pub open spec fn joined_parts(parts: Seq<String>) -> Seq<char> {
    crate::text::join_words(parts.map_values(|p: String| p@))
}

/// Relies on `itertools::Itertools::join`: the elements written one after
/// another, with the separator between each two.
#[verifier::external_body]
pub(crate) fn join_space(parts: &Vec<String>) -> (r: String)
    ensures
        r@ == joined_parts(parts@),
{
    itertools::Itertools::join(&mut parts.iter(), " ")
}

} // verus!

verus! {

/// What `str::to_lowercase` returns for a string.
pub uninterp spec fn lower_of(s: Seq<char>) -> Seq<char>;

/// Relies on `str::to_lowercase`: the result depends on the characters alone,
/// and the empty string stays empty.
#[verifier::external_body]
pub(crate) fn lowercase(s: &str) -> (r: String)
    ensures
        r@ == lower_of(s@),
        s@.len() == 0 ==> r@.len() == 0,
{
    s.to_lowercase()
}

} // verus!

verus! {

/// What canonical composition (Unicode NFC) makes of a string.
pub uninterp spec fn nfc_of(s: Seq<char>) -> Seq<char>;

/// Relies on `unicode_normalization::UnicodeNormalization::nfc`: the
/// canonically composed form, which depends on the characters alone; the
/// empty string stays empty.
#[verifier::external_body]
pub(crate) fn nfc(s: &str) -> (r: String)
    ensures
        r@ == nfc_of(s@),
        s@.len() == 0 ==> r@.len() == 0,
{
    unicode_normalization::UnicodeNormalization::nfc(s).collect()
}

/// What HTML entity decoding makes of a string.
pub uninterp spec fn html_decoded(s: Seq<char>) -> Seq<char>;

/// Relies on `html_escape::decode_html_entities`: the string with its HTML
/// entities decoded, which depends on the characters alone.
#[verifier::external_body]
pub(crate) fn decode_entities(s: &str) -> (r: String)
    ensures
        r@ == html_decoded(s@),
{
    html_escape::decode_html_entities(s).into_owned()
}

/// The terms that the index's tokenizer makes of a text.
pub uninterp spec fn index_tokens(s: Seq<char>) -> Seq<Seq<char>>;

/// Relies on tantivy's `SimpleTokenizer` (split on characters that are not
/// alphanumeric), `RemoveLongFilter` at `MAX_TOKEN_LEN` and `LowerCaser`,
/// chained as the index's tokenizer: the terms depend on the text alone.
#[verifier::external_body]
pub(crate) fn tokenize(s: &str) -> (r: Vec<String>)
    ensures
        r@.map_values(|t: String| t@) == index_tokens(s@),
{
    let analyzer = tantivy::tokenizer::TextAnalyzer::from(tantivy::tokenizer::SimpleTokenizer)
        .filter(tantivy::tokenizer::RemoveLongFilter::limit(tantivy::tokenizer::MAX_TOKEN_LEN))
        .filter(tantivy::tokenizer::LowerCaser);
    let mut stream = analyzer.token_stream(s);
    let mut terms = Vec::new();
    while stream.advance() {
        terms.push(stream.token().text.clone());
    }
    terms
}

} // verus!
