//! Language pairs: `left-right` names, their two languages, and the one
//! canonical name under which a pair is stored whatever its direction.
use crate::calls::{chars_of, lower_of, lowercase, string_of};
use crate::error::DictCliError;
use crate::text::{split_words, words};
use vstd::prelude::*;
use vstd::string::*;

verus! {

/// How many hyphens `s` holds.
pub open spec fn hyphens(s: Seq<char>) -> nat
    decreases s.len(),
{
    if s.len() == 0 {
        0
    } else {
        hyphens(s.drop_last()) + if s.last() == '-' {
            1nat
        } else {
            0nat
        }
    }
}

/// A language pair name holds exactly one hyphen.
pub open spec fn is_pair(s: Seq<char>) -> bool {
    hyphens(s) == 1
}

/// The position of the hyphen of a pair name.
pub open spec fn hyphen_pos(s: Seq<char>) -> int {
    choose|k: int| 0 <= k < s.len() && s[k] == '-'
}

/// The language before the hyphen.
pub open spec fn pair_left(s: Seq<char>) -> Seq<char> {
    s.take(hyphen_pos(s))
}

/// The language after the hyphen.
pub open spec fn pair_right(s: Seq<char>) -> Seq<char> {
    s.skip(hyphen_pos(s) + 1)
}

/// The pair name read the other way round.
pub open spec fn reversed(s: Seq<char>) -> Seq<char> {
    pair_right(s) + seq!['-'] + pair_left(s)
}

/// Lexicographic order by code point (the order of `str`'s `Ord`).
pub open spec fn lex_lt(a: Seq<char>, b: Seq<char>) -> bool
    decreases a.len(),
{
    if a.len() == 0 {
        b.len() > 0
    } else if b.len() == 0 {
        false
    } else if a[0] != b[0] {
        (a[0] as u32) < (b[0] as u32)
    } else {
        lex_lt(a.skip(1), b.skip(1))
    }
}

/// The canonical name of a pair: the smaller of its two readings.
pub open spec fn canonical(s: Seq<char>) -> Seq<char> {
    if s == reversed(s) || lex_lt(s, reversed(s)) {
        s
    } else {
        reversed(s)
    }
}

pub proof fn lemma_hyphens_concat(a: Seq<char>, b: Seq<char>)
    ensures
        hyphens(a + b) == hyphens(a) + hyphens(b),
    decreases b.len(),
{
    if b.len() == 0 {
        assert(a + b =~= a);
    } else {
        assert((a + b).drop_last() =~= a + b.drop_last());
        lemma_hyphens_concat(a, b.drop_last());
    }
}

pub proof fn lemma_hyphens_zero(s: Seq<char>)
    ensures
        (hyphens(s) == 0) == (forall|i: int| 0 <= i < s.len() ==> s[i] != '-'),
    decreases s.len(),
{
    if s.len() > 0 {
        lemma_hyphens_zero(s.drop_last());
        if hyphens(s) == 0 {
            assert forall|i: int| 0 <= i < s.len() implies s[i] != '-' by {
                if i < s.len() - 1 {
                    assert(s.drop_last()[i] == s[i]);
                }
            }
        }
        if forall|i: int| 0 <= i < s.len() ==> s[i] != '-' {
            assert forall|i: int| 0 <= i < s.drop_last().len() implies s.drop_last()[i] != '-' by {
                assert(s.drop_last()[i] == s[i]);
            }
        }
    }
}

/// Splits a name at a hyphen: the count is that of the two sides, plus one.
pub proof fn lemma_hyphens_split(s: Seq<char>, k: int)
    requires
        0 <= k < s.len(),
        s[k] == '-',
    ensures
        s =~= s.take(k) + seq!['-'] + s.skip(k + 1),
        hyphens(s) == hyphens(s.take(k)) + 1 + hyphens(s.skip(k + 1)),
{
    assert(s =~= s.take(k) + seq!['-'] + s.skip(k + 1));
    lemma_hyphens_concat(s.take(k) + seq!['-'], s.skip(k + 1));
    lemma_hyphens_concat(s.take(k), seq!['-']);
    assert(seq!['-'].drop_last() =~= Seq::<char>::empty());
    assert(hyphens(seq!['-']) == hyphens(Seq::<char>::empty()) + 1);
}

/// In a pair name the hyphen found anywhere is the one hyphen.
pub proof fn lemma_pair_at(s: Seq<char>, k: int)
    requires
        is_pair(s),
        0 <= k < s.len(),
        s[k] == '-',
    ensures
        hyphen_pos(s) == k,
        pair_left(s) == s.take(k),
        pair_right(s) == s.skip(k + 1),
        forall|i: int| 0 <= i < pair_left(s).len() ==> pair_left(s)[i] != '-',
        forall|i: int| 0 <= i < pair_right(s).len() ==> pair_right(s)[i] != '-',
{
    lemma_hyphens_split(s, k);
    lemma_hyphens_zero(s.take(k));
    lemma_hyphens_zero(s.skip(k + 1));
    let h = hyphen_pos(s);
    assert(0 <= h < s.len() && s[h] == '-');
    if h < k {
        assert(s.take(k)[h] == s[h]);
    } else if h > k {
        assert(s.skip(k + 1)[h - k - 1] == s[h]);
    }
}

pub proof fn lemma_reversed(s: Seq<char>)
    requires
        is_pair(s),
    ensures
        is_pair(reversed(s)),
        reversed(reversed(s)) == s,
{
    let k = choose|k: int| 0 <= k < s.len() && s[k] == '-';
    assert(0 <= k < s.len() && s[k] == '-') by {
        lemma_hyphens_zero(s);
    }
    lemma_pair_at(s, k);
    let l = pair_left(s);
    let r = pair_right(s);
    let t = reversed(s);
    lemma_hyphens_zero(l);
    lemma_hyphens_zero(r);
    assert(t[r.len() as int] == '-');
    assert(t.take(r.len() as int) =~= r);
    assert(t.skip(r.len() as int + 1) =~= l);
    lemma_hyphens_split(t, r.len() as int);
    lemma_pair_at(t, r.len() as int);
    assert(reversed(t) =~= s);
}

pub proof fn lemma_lex_total(a: Seq<char>, b: Seq<char>)
    ensures
        a == b || lex_lt(a, b) || lex_lt(b, a),
        !(lex_lt(a, b) && lex_lt(b, a)),
    decreases a.len(),
{
    if a.len() > 0 && b.len() > 0 && a[0] == b[0] {
        lemma_lex_total(a.skip(1), b.skip(1));
        if a.skip(1) == b.skip(1) {
            assert(a =~= seq![a[0]] + a.skip(1));
            assert(b =~= seq![b[0]] + b.skip(1));
        }
    } else if a.len() == 0 && b.len() == 0 {
        assert(a =~= b);
    } else if a.len() > 0 && b.len() > 0 {
        vstd::utf8::char_u32_cast(a[0], a[0] as u32);
        vstd::utf8::char_u32_cast(b[0], b[0] as u32);
    }
}

/// The canonical name of a pair does not depend on its direction: `de-en`
/// and `en-de` are stored under one name.
pub proof fn lemma_canonical_direction_independent(s: Seq<char>)
    requires
        is_pair(s),
    ensures
        is_pair(reversed(s)),
        canonical(s) == canonical(reversed(s)),
{
    lemma_reversed(s);
    lemma_lex_total(s, reversed(s));
}

/// The two languages of a pair name, which must hold exactly one hyphen.
pub fn languages(lang_pair: &str) -> (r: Result<(&str, &str), DictCliError>)
    ensures
        r is Ok <==> is_pair(lang_pair@),
        r matches Ok((l, rt)) ==> l@ == pair_left(lang_pair@) && rt@ == pair_right(lang_pair@),
        r matches Err(e) ==> e == DictCliError::InvalidLanguagePair,
{
    let ghost s = lang_pair@;
    let n = lang_pair.unicode_len();
    let mut k: usize = 0;
    while k < n && lang_pair.get_char(k) != '-'
        invariant
            k <= n,
            n == s.len(),
            s == lang_pair@,
            forall|i: int| 0 <= i < k ==> s[i] != '-',
        decreases n - k,
    {
        k = k + 1;
    }
    if k == n {
        proof {
            assert(s.take(k as int) =~= s);
            lemma_hyphens_zero(s);
        }
        return Err(DictCliError::InvalidLanguagePair);
    }
    let mut j: usize = k + 1;
    while j < n
        invariant
            k < j <= n,
            n == s.len(),
            s == lang_pair@,
            s[k as int] == '-',
            forall|i: int| 0 <= i < k ==> s[i] != '-',
            forall|i: int| k < i < j ==> s[i] != '-',
        decreases n - j,
    {
        if lang_pair.get_char(j) == '-' {
            proof {
                lemma_hyphens_split(s, k as int);
                let rest = s.skip(k + 1);
                lemma_hyphens_split(rest, j - k - 1);
            }
            return Err(DictCliError::InvalidLanguagePair);
        }
        j = j + 1;
    }
    proof {
        lemma_hyphens_split(s, k as int);
        assert forall|i: int| 0 <= i < s.take(k as int).len() implies s.take(k as int)[i] != '-' by {}
        assert forall|i: int| 0 <= i < s.skip(k + 1).len() implies #[trigger] s.skip(k + 1)[i] != '-' by {
            assert(s.skip(k + 1)[i] == s[k + 1 + i]);
        }
        lemma_hyphens_zero(s.take(k as int));
        lemma_hyphens_zero(s.skip(k + 1));
        lemma_pair_at(s, k as int);
    }
    Ok((lang_pair.substring_char(0, k), lang_pair.substring_char(k + 1, n)))
}

/// Whether `a` comes before `b` in lexicographic order.
pub fn lex_less(a: &Vec<char>, b: &Vec<char>) -> (r: bool)
    ensures
        r == lex_lt(a@, b@),
{
    let mut i: usize = 0;
    assert(a@.skip(0) =~= a@);
    assert(b@.skip(0) =~= b@);
    while i < a.len() && i < b.len() && a[i] == b[i]
        invariant
            i <= a.len(),
            i <= b.len(),
            lex_lt(a@, b@) == lex_lt(a@.skip(i as int), b@.skip(i as int)),
        decreases a.len() - i,
    {
        assert(a@.skip(i as int).skip(1) =~= a@.skip(i + 1));
        assert(b@.skip(i as int).skip(1) =~= b@.skip(i + 1));
        i = i + 1;
    }
    if i == a.len() {
        return i < b.len();
    }
    if i == b.len() {
        return false;
    }
    let x = a[i];
    let y = b[i];
    assert(a@.skip(i as int)[0] == x);
    assert(b@.skip(i as int)[0] == y);
    (x as u32) < (y as u32)
}

/// The pair name read the other way round: `de-en` gives `en-de`.
pub fn reversed_lang_pair(lang_pair: &str) -> (r: Result<String, DictCliError>)
    ensures
        r is Ok <==> is_pair(lang_pair@),
        r matches Ok(v) ==> v@ == reversed(lang_pair@),
        r matches Err(e) ==> e == DictCliError::InvalidLanguagePair,
{
    let (left, right) = match languages(lang_pair) {
        Ok(p) => p,
        Err(e) => {
            return Err(e);
        },
    };
    proof {
        reveal_strlit("-");
    }
    let out = String::from_str(right).concat("-").concat(left);
    Ok(out)
}

/// The canonical name of a pair: the smaller of its two readings, so that
/// both directions of a pair share one name.
pub fn normalized_lang_pair(lang_pair: &str) -> (r: Result<String, DictCliError>)
    ensures
        r is Ok <==> is_pair(lang_pair@),
        r matches Ok(v) ==> v@ == canonical(lang_pair@),
        r matches Err(e) ==> e == DictCliError::InvalidLanguagePair,
{
    let rev = match reversed_lang_pair(lang_pair) {
        Ok(v) => v,
        Err(e) => {
            return Err(e);
        },
    };
    let a = chars_of(lang_pair);
    let b = chars_of(rev.as_str());
    proof {
        lemma_lex_total(a@, b@);
        lemma_lex_total(a@, a@);
    }
    if lex_less(&b, &a) {
        Ok(rev)
    } else {
        Ok(String::from_str(lang_pair))
    }
}

/// Whether a name is a language pair name (exactly one hyphen).
pub fn is_lang_pair(name: &str) -> (r: bool)
    ensures
        r == is_pair(name@),
{
    languages(name).is_ok()
}

/// The languages named by the pair names, two for each valid name, in order.
pub open spec fn langs_of(pairs: Seq<Seq<char>>) -> Seq<Seq<char>>
    decreases pairs.len(),
{
    if pairs.len() == 0 {
        seq![]
    } else {
        let l = langs_of(pairs.drop_last());
        let p = pairs.last();
        if is_pair(p) {
            l.push(pair_left(p)).push(pair_right(p))
        } else {
            l
        }
    }
}

pub open spec fn strings_view(v: Seq<String>) -> Seq<Seq<char>> {
    v.map_values(|s: String| s@)
}

/// `s` with every element after its first occurrence left out.
pub open spec fn first_occurrences(s: Seq<Seq<char>>) -> Seq<Seq<char>>
    decreases s.len(),
{
    if s.len() == 0 {
        seq![]
    } else {
        let d = first_occurrences(s.drop_last());
        if d.contains(s.last()) {
            d
        } else {
            d.push(s.last())
        }
    }
}

/// `x` is a language of one of the valid pair names.
pub open spec fn offered_by(pairs: Seq<Seq<char>>, x: Seq<char>) -> bool {
    exists|k: int|
        0 <= k < pairs.len() && is_pair(#[trigger] pairs[k]) && (x == pair_left(pairs[k]) || x
            == pair_right(pairs[k]))
}

pub proof fn lemma_first_occurrences(s: Seq<Seq<char>>)
    ensures
        forall|i: int, j: int|
            0 <= i < j < first_occurrences(s).len() ==> first_occurrences(s)[i]
                != first_occurrences(s)[j],
        forall|x: Seq<char>| #[trigger] first_occurrences(s).contains(x) <==> s.contains(x),
    decreases s.len(),
{
    if s.len() > 0 {
        let t = s.drop_last();
        lemma_first_occurrences(t);
        assert forall|x: Seq<char>| #[trigger] s.contains(x) <==> t.contains(x) || x == s.last() by {
            if s.contains(x) {
                let k = choose|k: int| 0 <= k < s.len() && s[k] == x;
                if k < t.len() {
                    assert(t[k] == x);
                }
            }
            if t.contains(x) {
                let k = choose|k: int| 0 <= k < t.len() && t[k] == x;
                assert(s[k] == x);
            }
            if x == s.last() {
                assert(s[s.len() - 1] == x);
            }
        }
        let d = first_occurrences(t);
        if !d.contains(s.last()) {
            assert forall|x: Seq<char>| #[trigger] d.push(s.last()).contains(x) <==> d.contains(x)
                || x == s.last() by {
                if d.push(s.last()).contains(x) {
                    let k = choose|k: int| 0 <= k < d.len() + 1 && d.push(s.last())[k] == x;
                    if k < d.len() {
                        assert(d[k] == x);
                    }
                }
                if d.contains(x) {
                    let k = choose|k: int| 0 <= k < d.len() && d[k] == x;
                    assert(d.push(s.last())[k] == x);
                }
                if x == s.last() {
                    assert(d.push(s.last())[d.len() as int] == x);
                }
            }
            assert forall|i: int, j: int|
                0 <= i < j < d.len() + 1 implies d.push(s.last())[i] != d.push(s.last())[j] by {
                if j == d.len() {
                    assert(d.push(s.last())[i] == d[i]);
                }
            }
        }
    }
}

pub proof fn lemma_langs_of(pairs: Seq<Seq<char>>)
    ensures
        forall|x: Seq<char>| #[trigger] langs_of(pairs).contains(x) <==> offered_by(pairs, x),
    decreases pairs.len(),
{
    if pairs.len() > 0 {
        let t = pairs.drop_last();
        let p = pairs.last();
        lemma_langs_of(t);
        let l = langs_of(t);
        assert forall|x: Seq<char>| #[trigger] langs_of(pairs).contains(x) <==> offered_by(pairs, x) by {
            if offered_by(t, x) {
                let k = choose|k: int|
                    0 <= k < t.len() && is_pair(#[trigger] t[k]) && (x == pair_left(t[k]) || x
                        == pair_right(t[k]));
                assert(pairs[k] == t[k]);
            }
            if offered_by(pairs, x) {
                let k = choose|k: int|
                    0 <= k < pairs.len() && is_pair(#[trigger] pairs[k]) && (x == pair_left(
                        pairs[k],
                    ) || x == pair_right(pairs[k]));
                if k < t.len() {
                    assert(t[k] == pairs[k]);
                }
            }
            if is_pair(p) {
                let m = l.push(pair_left(p)).push(pair_right(p));
                if m.contains(x) {
                    let k = choose|k: int| 0 <= k < m.len() && m[k] == x;
                    if k < l.len() {
                        assert(l[k] == x);
                    } else {
                        assert(pairs[pairs.len() - 1] == p);
                    }
                }
                if l.contains(x) {
                    let k = choose|k: int| 0 <= k < l.len() && l[k] == x;
                    assert(m[k] == x);
                }
                if x == pair_left(p) {
                    assert(m[l.len() as int] == x);
                }
                if x == pair_right(p) {
                    assert(m[l.len() as int + 1] == x);
                }
                if offered_by(pairs, x) && !offered_by(t, x) {
                    assert(x == pair_left(p) || x == pair_right(p));
                }
            } else {
                if offered_by(pairs, x) {
                    let k = choose|k: int|
                        0 <= k < pairs.len() && is_pair(#[trigger] pairs[k]) && (x == pair_left(
                            pairs[k],
                        ) || x == pair_right(pairs[k]));
                    assert(k < t.len());
                    assert(t[k] == pairs[k]);
                }
            }
        }
    }
}

/// The available source languages: the union of the two languages of each
/// valid pair name, each language once, in the order of its first
/// occurrence; names that are no pair are passed over.
pub fn available_languages(language_pairs: &Vec<String>) -> (r: Vec<String>)
    ensures
        strings_view(r@) == first_occurrences(langs_of(strings_view(language_pairs@))),
        forall|x: Seq<char>|
            #[trigger] strings_view(r@).contains(x) <==> offered_by(
                strings_view(language_pairs@),
                x,
            ),
        forall|i: int, j: int| 0 <= i < j < r.len() ==> r@[i]@ != r@[j]@,
{
    let ghost ps = strings_view(language_pairs@);
    let mut all: Vec<String> = Vec::new();
    let mut i: usize = 0;
    assert(ps.take(0) =~= Seq::<Seq<char>>::empty());
    assert(strings_view(all@) =~= Seq::<Seq<char>>::empty());
    while i < language_pairs.len()
        invariant
            i <= language_pairs.len(),
            ps == strings_view(language_pairs@),
            strings_view(all@) == langs_of(ps.take(i as int)),
        decreases language_pairs.len() - i,
    {
        assert(ps.take(i + 1).drop_last() =~= ps.take(i as int));
        assert(ps.take(i + 1).last() == language_pairs@[i as int]@);
        let ghost o = all@;
        match languages(language_pairs[i].as_str()) {
            Ok((l, r)) => {
                all.push(String::from_str(l));
                all.push(String::from_str(r));
                assert(strings_view(all@) =~= strings_view(o).push(l@).push(r@));
            },
            Err(_) => {},
        }
        i = i + 1;
    }
    assert(ps.take(language_pairs.len() as int) =~= ps);
    let ghost av = strings_view(all@);
    let mut out: Vec<String> = Vec::new();
    let mut j: usize = 0;
    assert(av.take(0) =~= Seq::<Seq<char>>::empty());
    assert(strings_view(out@) =~= Seq::<Seq<char>>::empty());
    while j < all.len()
        invariant
            j <= all.len(),
            av == strings_view(all@),
            strings_view(out@) == first_occurrences(av.take(j as int)),
        decreases all.len() - j,
    {
        assert(av.take(j + 1).drop_last() =~= av.take(j as int));
        assert(av.take(j + 1).last() == all@[j as int]@);
        let mut seen = false;
        let mut k: usize = 0;
        while k < out.len()
            invariant
                k <= out.len(),
                j < all.len(),
                seen == exists|m: int| 0 <= m < k && #[trigger] out@[m]@ == all@[j as int]@,
            decreases out.len() - k,
        {
            if out[k] == all[j] {
                seen = true;
            }
            k = k + 1;
        }
        let ghost o = out@;
        proof {
            if seen {
                let m = choose|m: int| 0 <= m < k && #[trigger] out@[m]@ == all@[j as int]@;
                assert(strings_view(o)[m] == all@[j as int]@);
            }
            if strings_view(o).contains(all@[j as int]@) {
                let m = choose|m: int| 0 <= m < o.len() && strings_view(o)[m] == all@[j as int]@;
                assert(out@[m]@ == all@[j as int]@);
            }
        }
        if !seen {
            out.push(all[j].clone());
            assert(strings_view(out@) =~= strings_view(o).push(all@[j as int]@));
        }
        j = j + 1;
    }
    assert(av.take(all.len() as int) =~= av);
    proof {
        lemma_first_occurrences(av);
        lemma_langs_of(ps);
        assert forall|i: int, j: int| 0 <= i < j < out.len() implies out@[i]@ != out@[j]@ by {
            assert(strings_view(out@)[i] == out@[i]@);
            assert(strings_view(out@)[j] == out@[j]@);
        }
    }
    out
}

/// The first word after the `#` that opens a dictionary header, if any.
pub open spec fn header_token(line: Seq<char>) -> Option<Seq<char>> {
    if line.len() > 0 && line[0] == '#' && words(line.skip(1)).len() > 0 {
        Some(words(line.skip(1))[0])
    } else {
        None
    }
}

/// Accepts a lowercased header token as a pair name when it holds exactly
/// one hyphen.
pub fn check_lang_pair(lowered: String) -> (r: Result<String, DictCliError>)
    ensures
        r is Ok <==> is_pair(lowered@),
        r matches Ok(v) ==> v@ == lowered@,
        r matches Err(e) ==> e == DictCliError::InvalidLanguagePair,
{
    if is_lang_pair(lowered.as_str()) {
        Ok(lowered)
    } else {
        Err(DictCliError::InvalidLanguagePair)
    }
}

/// The language pair named by the first line of a dictionary source: the
/// line starts with `#`, and its first word, lowercased, holds exactly one
/// hyphen.
pub fn lang_pair_from_header(first_line: &str) -> (r: Result<String, DictCliError>)
    ensures
        header_token(first_line@) is None ==> r == Err::<String, DictCliError>(
            DictCliError::NoLanguagePair,
        ),
        header_token(first_line@) matches Some(t) ==> {
            &&& r is Ok <==> is_pair(lower_of(t))
            &&& r matches Ok(v) ==> v@ == lower_of(t)
            &&& r matches Err(e) ==> e == DictCliError::InvalidLanguagePair
        },
{
    let n = first_line.unicode_len();
    if n == 0 || first_line.get_char(0) != '#' {
        return Err(DictCliError::NoLanguagePair);
    }
    let rest = chars_of(first_line.substring_char(1, n));
    assert(rest@ =~= first_line@.skip(1));
    let ws = split_words(&rest);
    if ws.len() == 0 {
        return Err(DictCliError::NoLanguagePair);
    }
    assert(ws@[0]@ == words(rest@)[0]);
    let token = string_of(&ws[0]);
    let lowered = lowercase(token.as_str());
    check_lang_pair(lowered)
}

/// `dir` joined with the entry `name`: a `/` goes between them unless
/// `dir` is empty or already ends with one.
pub open spec fn joined_path(dir: Seq<char>, name: Seq<char>) -> Seq<char> {
    if dir.len() == 0 || dir.last() == '/' {
        dir + name
    } else {
        dir + seq!['/'] + name
    }
}

/// The directory of a pair's index inside the data directory: the pair is
/// stored under its canonical name, whichever direction it is given in.
pub fn lang_db_dir(data_dir: &str, lang_pair: &str) -> (r: Result<String, DictCliError>)
    ensures
        r is Ok <==> is_pair(lang_pair@),
        r matches Ok(v) ==> v@ == joined_path(data_dir@, canonical(lang_pair@)),
        r matches Err(e) ==> e == DictCliError::InvalidLanguagePair,
{
    let name = match normalized_lang_pair(lang_pair) {
        Ok(n) => n,
        Err(e) => {
            return Err(e);
        },
    };
    let n = data_dir.unicode_len();
    proof {
        reveal_strlit("/");
    }
    if n == 0 || data_dir.get_char(n - 1) == '/' {
        Ok(String::from_str(data_dir).concat(name.as_str()))
    } else {
        Ok(String::from_str(data_dir).concat("/").concat(name.as_str()))
    }
}

} // verus!
