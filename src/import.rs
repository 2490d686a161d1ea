//! Import: what to do with an existing pair directory, and the document
//! that one row of a dictionary source becomes.
use crate::calls::{decode_entities, html_decoded, nfc, nfc_of};
use crate::entry::{normalized, normalized_entry};
use crate::error::DictCliError;
use crate::pair::strings_view;
use vstd::prelude::*;
use vstd::string::*;

verus! {

/// How an import proceeds with the pair's directory.
#[derive(Debug, Clone, Copy, PartialEq, Eq, Structural)]
pub enum ImportAction {
    /// The directory does not exist: create it.
    Create,
    /// The directory exists and an overwrite was asked for: delete it and
    /// build it again from scratch.
    Replace,
}

/// Decides how an import treats the pair's directory `db_dir`, given
/// whether it exists, whether it is a directory, and whether overwriting
/// was asked for.
pub fn prepare_import(db_dir: &str, exists: bool, is_dir: bool, force_import: bool) -> (r: Result<
    ImportAction,
    DictCliError,
>)
    ensures
        !exists ==> r == Ok::<ImportAction, DictCliError>(ImportAction::Create),
        exists && !is_dir ==> (r matches Err(DictCliError::NotDirectory(p)) && p@ == db_dir@),
        exists && is_dir && !force_import ==> r == Err::<ImportAction, DictCliError>(
            DictCliError::AlreadyImported,
        ),
        exists && is_dir && force_import ==> r == Ok::<ImportAction, DictCliError>(
            ImportAction::Replace,
        ),
{
    if exists {
        if !is_dir {
            return Err(DictCliError::NotDirectory(String::from_str(db_dir)));
        }
        if !force_import {
            return Err(DictCliError::AlreadyImported);
        }
        return Ok(ImportAction::Replace);
    }
    Ok(ImportAction::Create)
}

/// The eight fields of one indexed document.
#[derive(Debug, Clone)]
pub struct IndexRow {
    /// Core text of the left side: typo-tolerant search field.
    pub key_left: String,
    /// Core text of the right side.
    pub key_right: String,
    /// Annotation text of the left side: exact search field.
    pub extra_left: String,
    /// Annotation text of the right side.
    pub extra_right: String,
    /// The left side as it stands in the source, for display.
    pub lang_left: String,
    /// The right side as it stands in the source, for display.
    pub lang_right: String,
    /// The word classes, for display.
    pub word_classes: String,
    /// The subject labels, for display.
    pub subject_labels: String,
}

impl IndexRow {
    /// The same entry with its two sides exchanged, for a source whose
    /// columns run against the canonical order of its pair.
    pub fn reversed(self) -> (r: IndexRow)
        ensures
            r.key_left == self.key_right,
            r.key_right == self.key_left,
            r.extra_left == self.extra_right,
            r.extra_right == self.extra_left,
            r.lang_left == self.lang_right,
            r.lang_right == self.lang_left,
            r.word_classes == self.word_classes,
            r.subject_labels == self.subject_labels,
    {
        IndexRow {
            key_left: self.key_right,
            key_right: self.key_left,
            extra_left: self.extra_right,
            extra_right: self.extra_left,
            lang_left: self.lang_right,
            lang_right: self.lang_left,
            word_classes: self.word_classes,
            subject_labels: self.subject_labels,
        }
    }
}

/// The optional column `i`, or the empty text.
pub open spec fn column(fields: Seq<Seq<char>>, i: int) -> Seq<char> {
    if i < fields.len() {
        fields[i]
    } else {
        seq![]
    }
}

/// What the columns of a row give: nothing for a row of fewer than two
/// columns, an error where one side does not normalize, and otherwise the
/// document whose key and extra fields are the normalized sides (angle
/// brackets stripped).
pub open spec fn row_outcome(fields: Seq<Seq<char>>, r: Result<Option<IndexRow>, DictCliError>) -> bool {
    if fields.len() < 2 {
        r == Ok::<Option<IndexRow>, DictCliError>(None)
    } else {
        match (normalized(fields[0], true), normalized(fields[1], true)) {
            (Some((tl, el)), Some((tr, er))) => r matches Ok(Some(row)) && {
                &&& row.key_left@ == tl
                &&& row.key_right@ == tr
                &&& row.extra_left@ == el
                &&& row.extra_right@ == er
                &&& row.lang_left@ == fields[0]
                &&& row.lang_right@ == fields[1]
                &&& row.word_classes@ == column(fields, 2)
                &&& row.subject_labels@ == column(fields, 3)
            },
            _ => r matches Err(DictCliError::ParseError(_)),
        }
    }
}

/// The document for the (decoded) columns of a row.
pub fn index_row(fields: Vec<String>) -> (r: Result<Option<IndexRow>, DictCliError>)
    ensures
        row_outcome(strings_view(fields@), r),
{
    if fields.len() < 2 {
        return Ok(None);
    }
    let left = match normalized_entry(fields[0].as_str(), true) {
        Ok(n) => n,
        Err(e) => {
            return Err(e);
        },
    };
    let right = match normalized_entry(fields[1].as_str(), true) {
        Ok(n) => n,
        Err(e) => {
            return Err(e);
        },
    };
    let word_classes = if fields.len() > 2 {
        fields[2].clone()
    } else {
        String::new()
    };
    let subject_labels = if fields.len() > 3 {
        fields[3].clone()
    } else {
        String::new()
    };
    Ok(
        Some(
            IndexRow {
                key_left: left.text,
                key_right: right.text,
                extra_left: left.extra,
                extra_right: right.extra,
                lang_left: fields[0].clone(),
                lang_right: fields[1].clone(),
                word_classes,
                subject_labels,
            },
        ),
    )
}

/// How a column of the source is read: HTML entities decoded, then
/// canonically composed.
pub open spec fn decoded_column(s: Seq<char>) -> Seq<char> {
    nfc_of(html_decoded(s))
}

/// The first four columns of a row, each decoded.
pub open spec fn decoded_columns(raw: Seq<Seq<char>>) -> Seq<Seq<char>> {
    let n = if raw.len() < 4 {
        raw.len()
    } else {
        4
    };
    raw.take(n as int).map_values(|s: Seq<char>| decoded_column(s))
}

/// The document for a raw row of the source: its first four columns are
/// decoded, then made into a document as `index_row` does.
pub fn prepare_record(raw: Vec<String>) -> (r: Result<Option<IndexRow>, DictCliError>)
    ensures
        row_outcome(decoded_columns(strings_view(raw@)), r),
{
    let n: usize = if raw.len() < 4 {
        raw.len()
    } else {
        4
    };
    let mut fields: Vec<String> = Vec::new();
    let mut i: usize = 0;
    while i < n
        invariant
            i <= n,
            n <= raw.len(),
            n == if raw.len() < 4 { raw.len() } else { 4 },
            fields.len() == i,
            forall|j: int| 0 <= j < i ==> #[trigger] fields@[j]@ == decoded_column(raw@[j]@),
        decreases n - i,
    {
        let decoded = decode_entities(raw[i].as_str());
        fields.push(nfc(decoded.as_str()));
        i = i + 1;
    }
    assert(strings_view(fields@) =~= decoded_columns(strings_view(raw@)));
    index_row(fields)
}

} // verus!
