//! The names of the eight fields of a pair's index.
use vstd::prelude::*;
use vstd::string::*;

verus! {

/// The field names of the index of a pair `left-right`. The key and extra
/// fields are searchable (key fields with positions); the others are
/// stored for display only.
#[derive(Debug, Clone)]
pub struct FieldNames {
    pub key_left: String,
    pub key_right: String,
    pub extra_left: String,
    pub extra_right: String,
    pub lang_left: String,
    pub lang_right: String,
    pub word_classes: String,
    pub subject_labels: String,
}

pub open spec fn key_prefix() -> Seq<char> {
    seq!['k', 'e', 'y', '_']
}

pub open spec fn extra_prefix() -> Seq<char> {
    seq!['e', 'x', 't', 'r', 'a', '_']
}

impl FieldNames {
    /// The field names for the languages `lang_left` and `lang_right`:
    /// `key_<lang>` and `extra_<lang>` for each, the language codes
    /// themselves, `word_classes` and `subject_labels`.
    pub fn new(lang_left: &str, lang_right: &str) -> (r: FieldNames)
        ensures
            r.key_left@ == key_prefix() + lang_left@,
            r.key_right@ == key_prefix() + lang_right@,
            r.extra_left@ == extra_prefix() + lang_left@,
            r.extra_right@ == extra_prefix() + lang_right@,
            r.lang_left@ == lang_left@,
            r.lang_right@ == lang_right@,
            r.word_classes@ == "word_classes"@,
            r.subject_labels@ == "subject_labels"@,
    {
        proof {
            reveal_strlit("key_");
            reveal_strlit("extra_");
        }
        FieldNames {
            key_left: String::from_str("key_").concat(lang_left),
            key_right: String::from_str("key_").concat(lang_right),
            extra_left: String::from_str("extra_").concat(lang_left),
            extra_right: String::from_str("extra_").concat(lang_right),
            lang_left: String::from_str(lang_left),
            lang_right: String::from_str(lang_right),
            word_classes: String::from_str("word_classes"),
            subject_labels: String::from_str("subject_labels"),
        }
    }
}

} // verus!
