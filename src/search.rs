//! Searching: which side of a pair a query reads, the query plan for an
//! expression, and the plan and filter for prefix completion.
use crate::calls::{chars_of, index_tokens, nfc, nfc_of, tokenize};
use crate::error::DictCliError;
use crate::pair::{canonical, is_pair, normalized_lang_pair, languages, pair_left, pair_right, strings_view};
use crate::text::{blank_chars, is_blank, is_whitespace, is_ws, split_words, words};
use vstd::prelude::*;
use vstd::string::*;

verus! {

/// The two languages of an opened pair, in the order of its canonical name.
#[derive(Debug, Clone)]
pub struct LanguagePair {
    pub lang_left: String,
    pub lang_right: String,
}

/// The message that lists the two languages of a pair.
pub open spec fn choices(left: Seq<char>, right: Seq<char>) -> Seq<char> {
    left + seq![',', ' '] + right
}

impl LanguagePair {
    /// The languages of a pair given in either direction, ordered as its
    /// canonical name orders them.
    pub fn new(lang_pair: &str) -> (r: Result<LanguagePair, DictCliError>)
        ensures
            r is Ok <==> is_pair(lang_pair@),
            r matches Ok(p) ==> p.lang_left@ == pair_left(canonical(lang_pair@))
                && p.lang_right@ == pair_right(canonical(lang_pair@)),
            r matches Err(e) ==> e == DictCliError::InvalidLanguagePair,
    {
        let name = match normalized_lang_pair(lang_pair) {
            Ok(n) => n,
            Err(e) => {
                return Err(e);
            },
        };
        proof {
            crate::pair::lemma_canonical_direction_independent(lang_pair@);
            crate::pair::lemma_reversed(lang_pair@);
        }
        match languages(name.as_str()) {
            Ok((l, r)) => Ok(LanguagePair { lang_left: String::from_str(l), lang_right: String::from_str(r) }),
            Err(e) => Err(e),
        }
    }

    /// The error for a source language that the pair does not offer.
    fn not_available(&self, language_from: &str) -> (r: DictCliError)
        ensures
            r matches DictCliError::SearchLanguageNotAvailable(a, b) && a@ == language_from@
                && b@ == choices(self.lang_left@, self.lang_right@),
    {
        proof {
            reveal_strlit(", ");
        }
        let list = self.lang_left.clone().concat(", ").concat(self.lang_right.as_str());
        DictCliError::SearchLanguageNotAvailable(String::from_str(language_from), list)
    }

    /// Whether a search from `language_from` reads the right-hand side.
    pub fn is_reverse_langs(&self, language_from: &str) -> (r: Result<bool, DictCliError>)
        ensures
            language_from@ == self.lang_left@ ==> r == Ok::<bool, DictCliError>(false),
            language_from@ != self.lang_left@ && language_from@ == self.lang_right@ ==> r == Ok::<
                bool,
                DictCliError,
            >(true),
            language_from@ != self.lang_left@ && language_from@ != self.lang_right@ ==> (r matches Err(
                DictCliError::SearchLanguageNotAvailable(a, b),
            ) && a@ == language_from@ && b@ == choices(self.lang_left@, self.lang_right@)),
    {
        let from = String::from_str(language_from);
        if from == self.lang_left {
            Ok(false)
        } else if from == self.lang_right {
            Ok(true)
        } else {
            Err(self.not_available(language_from))
        }
    }

    /// The language that a search from `language_from` translates into.
    pub fn target_language(&self, language_from: &str) -> (r: Result<String, DictCliError>)
        ensures
            language_from@ == self.lang_left@ ==> (r matches Ok(t) && t@ == self.lang_right@),
            language_from@ != self.lang_left@ && language_from@ == self.lang_right@ ==> (r matches Ok(t) && t@ == self.lang_left@),
            language_from@ != self.lang_left@ && language_from@ != self.lang_right@ ==> (r matches Err(
                DictCliError::SearchLanguageNotAvailable(a, b),
            ) && a@ == language_from@ && b@ == choices(self.lang_left@, self.lang_right@)),
    {
        let from = String::from_str(language_from);
        if from == self.lang_left {
            Ok(self.lang_right.clone())
        } else if from == self.lang_right {
            Ok(self.lang_left.clone())
        } else {
            Err(self.not_available(language_from))
        }
    }
}

/// An exact query: one term, or several terms as a phrase in order.
#[derive(Debug, Clone)]
pub enum ExactQuery {
    Term(String),
    Phrase(Vec<String>),
}

/// The exact query for a non-empty list of terms.
pub open spec fn exact_query_of(q: ExactQuery, terms: Seq<Seq<char>>) -> bool {
    if terms.len() == 1 {
        q matches ExactQuery::Term(t) && t@ == terms[0]
    } else {
        q matches ExactQuery::Phrase(v) && strings_view(v@) == terms
    }
}

/// What a search runs: every term must fuzzily match a term of the key
/// field (within `fuzzy_distance` edits), or the terms must stand, exactly
/// and in order, in the extra field.
#[derive(Debug, Clone)]
pub struct SearchPlan {
    /// Whether the right-hand fields are searched.
    pub reverse_langs: bool,
    /// One required fuzzy term query on the key field for each term.
    pub fuzzy_terms: Vec<String>,
    /// The edit distance of each fuzzy term query.
    pub fuzzy_distance: u8,
    /// The exact query on the extra field, taken as an alternative.
    pub extra: ExactQuery,
}

/// `p` is the plan for these query terms.
pub open spec fn plans_search(p: SearchPlan, reverse: bool, terms: Seq<Seq<char>>, d: u8) -> bool {
    &&& p.reverse_langs == reverse
    &&& strings_view(p.fuzzy_terms@) == terms
    &&& p.fuzzy_distance == d
    &&& exact_query_of(p.extra, terms)
}

/// The exact query for a non-empty list of terms.
fn exact_query(terms: &Vec<String>) -> (r: ExactQuery)
    requires
        terms.len() > 0,
    ensures
        exact_query_of(r, strings_view(terms@)),
{
    if terms.len() == 1 {
        ExactQuery::Term(terms[0].clone())
    } else {
        ExactQuery::Phrase(terms.clone())
    }
}

/// The plan for the terms of a query; none where there are no terms.
pub fn search_plan_from_tokens(reverse_langs: bool, terms: Vec<String>, fuzzy_distance: u8) -> (r:
    Option<SearchPlan>)
    ensures
        r is None <==> terms.len() == 0,
        r matches Some(p) ==> plans_search(p, reverse_langs, strings_view(terms@), fuzzy_distance),
{
    if terms.len() == 0 {
        return None;
    }
    let extra = exact_query(&terms);
    Some(SearchPlan { reverse_langs, fuzzy_terms: terms, fuzzy_distance, extra })
}

/// The plan for a typed expression: none for a blank expression, or for
/// one that yields no terms once composed and tokenized; so an empty
/// expression finds nothing and raises no error.
pub fn plan_search(reverse_langs: bool, expression: &str, fuzzy_distance: u8) -> (r: Option<
    SearchPlan,
>)
    ensures
        is_blank(expression@) ==> r is None,
        !is_blank(expression@) ==> {
            &&& r is None <==> index_tokens(nfc_of(expression@)).len() == 0
            &&& r matches Some(p) ==> plans_search(
                p,
                reverse_langs,
                index_tokens(nfc_of(expression@)),
                fuzzy_distance,
            )
        },
{
    let chars = chars_of(expression);
    if blank_chars(&chars) {
        return None;
    }
    let composed = nfc(expression);
    let terms = tokenize(composed.as_str());
    search_plan_from_tokens(reverse_langs, terms, fuzzy_distance)
}

/// `s` without its leading whitespace.
pub open spec fn trim_start(s: Seq<char>) -> Seq<char>
    decreases s.len(),
{
    if s.len() > 0 && is_ws(s[0]) {
        trim_start(s.skip(1))
    } else {
        s
    }
}

/// `s` without its trailing whitespace.
pub open spec fn trim_end(s: Seq<char>) -> Seq<char>
    decreases s.len(),
{
    if s.len() > 0 && is_ws(s.last()) {
        trim_end(s.drop_last())
    } else {
        s
    }
}

/// `s` without whitespace at either end.
pub open spec fn trimmed(s: Seq<char>) -> Seq<char> {
    trim_end(trim_start(s))
}

/// Removes the whitespace at both ends of a string.
pub fn trim(s: &str) -> (r: &str)
    ensures
        r@ == trimmed(s@),
{
    let n = s.unicode_len();
    let mut a: usize = 0;
    assert(s@.skip(0) =~= s@);
    while a < n && is_whitespace(s.get_char(a))
        invariant
            a <= n,
            n == s@.len(),
            trim_start(s@) == trim_start(s@.skip(a as int)),
        decreases n - a,
    {
        assert(s@.skip(a as int).skip(1) =~= s@.skip(a + 1));
        a = a + 1;
    }
    let ghost t = s@.skip(a as int);
    assert(trim_start(t) == t);
    let mut b: usize = n;
    assert(s@.subrange(a as int, n as int) =~= t);
    while b > a && is_whitespace(s.get_char(b - 1))
        invariant
            a <= b <= n,
            n == s@.len(),
            trim_end(t) == trim_end(s@.subrange(a as int, b as int)),
        decreases b,
    {
        assert(s@.subrange(a as int, b as int).drop_last() =~= s@.subrange(a as int, b - 1));
        b = b - 1;
    }
    s.substring_char(a, b)
}

/// What a completion runs: terms of the key field that extend the last
/// word by at least one character, and, where the line holds more words,
/// the words before it exactly and in order in the key field.
#[derive(Debug, Clone)]
pub struct CompletionPlan {
    /// Whether the right-hand fields are searched.
    pub reverse_langs: bool,
    /// The trimmed, composed line that each candidate must start with.
    pub line: String,
    /// The pattern for a key term that extends the last word: the word and `.+`.
    pub last_word_pattern: String,
    /// The exact query for the words before the last one, if there are any.
    pub start: Option<ExactQuery>,
}

/// `p` is the completion plan for a line and its terms.
pub open spec fn plans_completion(
    p: CompletionPlan,
    reverse: bool,
    line: Seq<char>,
    terms: Seq<Seq<char>>,
) -> bool {
    &&& p.reverse_langs == reverse
    &&& p.line@ == line
    &&& p.last_word_pattern@ == terms.last() + seq!['.', '+']
    &&& terms.len() == 1 ==> p.start is None
    &&& terms.len() > 1 ==> (p.start matches Some(q) && exact_query_of(q, terms.drop_last()))
}

/// The completion plan for a line and its terms; none where there are no terms.
pub fn completion_plan_from_tokens(reverse_langs: bool, line: String, terms: Vec<String>) -> (r:
    Option<CompletionPlan>)
    ensures
        r is None <==> terms.len() == 0,
        r matches Some(p) ==> plans_completion(p, reverse_langs, line@, strings_view(terms@)),
{
    let ghost all = strings_view(terms@);
    let mut before = terms;
    let last = match before.pop() {
        Some(t) => t,
        None => {
            return None;
        },
    };
    assert(strings_view(before@) =~= all.drop_last());
    assert(last@ == all.last());
    proof {
        reveal_strlit(".+");
    }
    let pattern = last.concat(".+");
    assert(pattern@ == all.last() + seq!['.', '+']);
    let start = if before.len() == 0 {
        None
    } else {
        Some(exact_query(&before))
    };
    Some(CompletionPlan { reverse_langs, line, last_word_pattern: pattern, start })
}

/// The completion plan for a partial line: none where the trimmed line is
/// empty or, once composed, yields no terms.
pub fn plan_completion(line: &str, reverse_langs: bool) -> (r: Option<CompletionPlan>)
    ensures
        trimmed(line@).len() == 0 ==> r is None,
        trimmed(line@).len() > 0 ==> {
            let composed = nfc_of(trimmed(line@));
            &&& r is None <==> index_tokens(composed).len() == 0
            &&& r matches Some(p) ==> plans_completion(
                p,
                reverse_langs,
                composed,
                index_tokens(composed),
            )
        },
{
    let t = trim(line);
    if t.unicode_len() == 0 {
        return None;
    }
    let composed = nfc(t);
    let terms = tokenize(composed.as_str());
    completion_plan_from_tokens(reverse_langs, composed, terms)
}

/// Whether `s` starts with `p`.
pub open spec fn starts_with(s: Seq<char>, p: Seq<char>) -> bool {
    p.len() <= s.len() && s.take(p.len() as int) == p
}

/// Whether `s` starts with `p`.
pub fn has_prefix(s: &Vec<char>, p: &Vec<char>) -> (r: bool)
    ensures
        r == starts_with(s@, p@),
{
    if p.len() > s.len() {
        return false;
    }
    let mut i: usize = 0;
    while i < p.len()
        invariant
            i <= p.len() <= s.len(),
            forall|j: int| 0 <= j < i ==> s@[j] == p@[j],
        decreases p.len() - i,
    {
        if s[i] != p[i] {
            assert(s@.take(p.len() as int)[i as int] != p@[i as int]);
            return false;
        }
        i = i + 1;
    }
    assert(s@.take(p.len() as int) =~= p@);
    true
}

/// The completions of a line among the key texts of the matched entries:
/// those that start with the line, each once.
pub fn filter_completions(line: &str, candidates: Vec<String>) -> (r: Vec<String>)
    ensures
        forall|i: int| 0 <= i < r.len() ==> starts_with(#[trigger] r@[i]@, line@),
        forall|i: int|
            0 <= i < r.len() ==> strings_view(candidates@).contains(#[trigger] r@[i]@),
        forall|j: int|
            0 <= j < candidates.len() && starts_with(#[trigger] candidates@[j]@, line@)
                ==> strings_view(r@).contains(candidates@[j]@),
        forall|i: int, k: int| 0 <= i < k < r.len() ==> r@[i]@ != r@[k]@,
{
    let l = chars_of(line);
    let mut out: Vec<String> = Vec::new();
    let mut j: usize = 0;
    let ghost mut src: Seq<int> = seq![];
    while j < candidates.len()
        invariant
            j <= candidates.len(),
            l@ == line@,
            forall|i: int| 0 <= i < out.len() ==> starts_with(#[trigger] out@[i]@, line@),
            src.len() == out.len(),
            forall|i: int| 0 <= i < out.len() ==> 0 <= #[trigger] src[i] < candidates.len() && candidates@[src[i]]@ == out@[i]@,
            forall|m: int| 0 <= m < j && starts_with(#[trigger] candidates@[m]@, line@) ==> exists|i: int| 0 <= i < out.len() && #[trigger] out@[i]@ == candidates@[m]@,
            forall|i: int, k: int| 0 <= i < k < out.len() ==> out@[i]@ != out@[k]@,
        decreases candidates.len() - j,
    {
        let c = chars_of(candidates[j].as_str());
        if has_prefix(&c, &l) {
            let mut seen = false;
            let mut k: usize = 0;
            while k < out.len()
                invariant
                    k <= out.len(),
                    j < candidates.len(),
                    !seen ==> forall|i: int| 0 <= i < k ==> out@[i]@ != candidates@[j as int]@,
                    seen ==> exists|i: int| 0 <= i < out.len() && #[trigger] out@[i]@ == candidates@[j as int]@,
                decreases out.len() - k,
            {
                if out[k] == candidates[j] {
                    seen = true;
                }
                k = k + 1;
            }
            if !seen {
                let ghost o = out@;
                out.push(candidates[j].clone());
                proof {
                    src = src.push(j as int);
                }
                assert(out@[o.len() as int] == candidates@[j as int]);
                assert forall|m: int| 0 <= m < j + 1 && starts_with(#[trigger] candidates@[m]@, line@) implies exists|i: int| 0 <= i < out.len() && #[trigger] out@[i]@ == candidates@[m]@ by {
                    if m < j {
                        let i = choose|i: int| 0 <= i < o.len() && #[trigger] o[i]@ == candidates@[m]@;
                        assert(out@[i] == o[i]);
                    } else {
                        assert(out@[o.len() as int]@ == candidates@[m]@);
                    }
                }
            }
        }
        j = j + 1;
    }
    assert forall|i: int| 0 <= i < out.len() implies strings_view(candidates@).contains(
        #[trigger] out@[i]@,
    ) by {
        assert(strings_view(candidates@)[src[i]] == out@[i]@);
    }
    assert forall|m: int|
        0 <= m < candidates.len() && starts_with(#[trigger] candidates@[m]@, line@) implies strings_view(
        out@,
    ).contains(candidates@[m]@) by {
        let i = choose|i: int| 0 <= i < out.len() && #[trigger] out@[i]@ == candidates@[m]@;
        assert(strings_view(out@)[i] == candidates@[m]@);
    }
    out
}

/// Completion `a` is presented no later than `b`: fewer words, or as
/// many words and no more characters.
pub open spec fn presented_before(a: Seq<char>, b: Seq<char>) -> bool {
    words(a).len() < words(b).len() || (words(a).len() == words(b).len() && a.len() <= b.len())
}

/// The completions in presentation order: by number of words, then by
/// number of characters.
pub fn order_completions(completions: Vec<String>) -> (r: Vec<String>)
    ensures
        r@.to_multiset() == completions@.to_multiset(),
        forall|i: int, j: int| 0 <= i < j < r.len() ==> presented_before(r@[i]@, r@[j]@),
{
    broadcast use vstd::seq_lib::to_multiset_build, vstd::seq_lib::to_multiset_insert;

    let mut out: Vec<String> = Vec::new();
    let mut keys: Vec<(usize, usize)> = Vec::new();
    let mut i: usize = 0;
    assert(completions@.take(0) =~= Seq::<String>::empty());
    while i < completions.len()
        invariant
            i <= completions.len(),
            out.len() == keys.len(),
            forall|k: int|
                0 <= k < out.len() ==> #[trigger] keys@[k] == (
                    words(out@[k]@).len() as usize,
                    out@[k]@.len() as usize,
                ) && keys@[k].0 == words(out@[k]@).len() && keys@[k].1 == out@[k]@.len(),
            forall|a: int, b: int| 0 <= a < b < out.len() ==> presented_before(out@[a]@, out@[b]@),
            out@.to_multiset() == completions@.take(i as int).to_multiset(),
        decreases completions.len() - i,
    {
        let c = completions[i].clone();
        let ch = chars_of(c.as_str());
        let wc = split_words(&ch).len();
        let cc = ch.len();
        let mut p: usize = 0;
        while p < out.len() && (keys[p].0 < wc || (keys[p].0 == wc && keys[p].1 <= cc))
            invariant
                p <= out.len(),
                out.len() == keys.len(),
                wc == words(c@).len(),
                cc == c@.len(),
                forall|k: int|
                    0 <= k < out.len() ==> #[trigger] keys@[k] == (
                        words(out@[k]@).len() as usize,
                        out@[k]@.len() as usize,
                    ) && keys@[k].0 == words(out@[k]@).len() && keys@[k].1 == out@[k]@.len(),
                forall|k: int| 0 <= k < p ==> presented_before(#[trigger] out@[k]@, c@),
            decreases out.len() - p,
        {
            p = p + 1;
        }
        assert(p < out.len() ==> !presented_before(out@[p as int]@, c@));
        let ghost o = out@;
        let ghost cg = c;
        assert(cg == completions@[i as int]);
        out.insert(p, c);
        assert(out@ == o.insert(p as int, cg));
        proof {
            vstd::seq_lib::to_multiset_insert(o, p as int, cg);
            vstd::seq_lib::to_multiset_build(completions@.take(i as int), cg);
        }
        keys.insert(p, (wc, cc));
        assert(completions@.take(i + 1) =~= completions@.take(i as int).push(completions@[i as int]));
        assert(out@.to_multiset() == o.insert(p as int, completions@[i as int]).to_multiset());
        assert(completions@.take(i + 1).to_multiset() == completions@.take(i as int).push(
            completions@[i as int],
        ).to_multiset());
        assert forall|a: int, b: int| 0 <= a < b < out.len() implies presented_before(
            out@[a]@,
            out@[b]@,
        ) by {
            if b < p {
                assert(out@[a] == o[a] && out@[b] == o[b]);
            } else if b == p {
                assert(out@[a] == o[a]);
            } else if a == p {
                assert(out@[b] == o[b - 1]);
                if b - 1 > p {
                    assert(presented_before(o[p as int]@, o[b - 1]@));
                }
            } else if a < p {
                assert(out@[a] == o[a] && out@[b] == o[b - 1]);
            } else {
                assert(out@[a] == o[a - 1] && out@[b] == o[b - 1]);
            }
        }
        i = i + 1;
    }
    assert(completions@.take(completions.len() as int) =~= completions@);
    out
}

} // verus!
