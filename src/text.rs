//! Whitespace: classification, splitting into words, and collapsing.
use crate::calls::{chars_of, string_of};
use vstd::prelude::*;

verus! {

/// The Unicode `White_Space` property, as `char::is_whitespace` defines it.
pub open spec fn is_ws(c: char) -> bool {
    let u = c as u32;
    (0x9 <= u && u <= 0xD) || u == 0x20 || u == 0x85 || u == 0xA0 || u == 0x1680 || (0x2000 <= u
        && u <= 0x200A) || u == 0x2028 || u == 0x2029 || u == 0x202F || u == 0x205F || u == 0x3000
}

/// The maximal runs of non-whitespace characters of `s`, in order.
pub open spec fn words(s: Seq<char>) -> Seq<Seq<char>>
    decreases s.len(),
{
    if s.len() == 0 {
        seq![]
    } else {
        let w = words(s.drop_last());
        let c = s.last();
        if is_ws(c) {
            w
        } else if s.len() >= 2 && !is_ws(s[s.len() - 2]) && w.len() > 0 {
            w.update(w.len() - 1, w.last().push(c))
        } else {
            w.push(seq![c])
        }
    }
}

/// The parts joined with one space between each two.
pub open spec fn join_words(parts: Seq<Seq<char>>) -> Seq<char>
    decreases parts.len(),
{
    if parts.len() == 0 {
        seq![]
    } else if parts.len() == 1 {
        parts[0]
    } else {
        join_words(parts.drop_last()) + seq![' '] + parts.last()
    }
}

/// Every run of whitespace becomes one space; none is left at either end.
pub open spec fn collapse(s: Seq<char>) -> Seq<char> {
    join_words(words(s))
}

/// True when `s` holds whitespace only (or nothing).
pub open spec fn is_blank(s: Seq<char>) -> bool {
    forall|i: int| 0 <= i < s.len() ==> is_ws(#[trigger] s[i])
}

pub proof fn lemma_join_push(parts: Seq<Seq<char>>, x: Seq<char>)
    ensures
        join_words(parts.push(x)) == if parts.len() == 0 {
            x
        } else {
            join_words(parts) + seq![' '] + x
        },
{
    assert(parts.push(x).drop_last() =~= parts);
}

pub proof fn lemma_join_extend(parts: Seq<Seq<char>>, c: char)
    requires
        parts.len() > 0,
    ensures
        join_words(parts.update(parts.len() - 1, parts.last().push(c))) == join_words(parts).push(
            c,
        ),
{
    let q = parts.update(parts.len() - 1, parts.last().push(c));
    if parts.len() == 1 {
        assert(q[0] == parts[0].push(c));
    } else {
        assert(q.drop_last() =~= parts.drop_last());
        assert(join_words(q) =~= join_words(parts).push(c));
    }
}

/// A word: non-empty, without whitespace.
pub open spec fn is_word(w: Seq<char>) -> bool {
    w.len() > 0 && forall|j: int| 0 <= j < w.len() ==> !is_ws(#[trigger] w[j])
}

pub proof fn lemma_words_are_words(s: Seq<char>)
    ensures
        forall|i: int| 0 <= i < words(s).len() ==> is_word(#[trigger] words(s)[i]),
    decreases s.len(),
{
    if s.len() > 0 {
        lemma_words_are_words(s.drop_last());
        let w = words(s.drop_last());
        let c = s.last();
        if !is_ws(c) && s.len() >= 2 && !is_ws(s[s.len() - 2]) && w.len() > 0 {
            let u = w.last().push(c);
            assert(is_word(w[w.len() - 1]));
            assert forall|j: int| 0 <= j < u.len() implies !is_ws(#[trigger] u[j]) by {
                if j < u.len() - 1 {
                    assert(u[j] == w[w.len() - 1][j]);
                }
            }
        } else if !is_ws(c) {
            assert(is_word(seq![c]));
        }
    }
}

/// A word after a space (or at the start) becomes one more word.
pub proof fn lemma_words_append_word(a: Seq<char>, x: Seq<char>)
    requires
        is_word(x),
        a.len() == 0 || is_ws(a.last()),
    ensures
        words(a + x) == words(a).push(x),
    decreases x.len(),
{
    if x.len() == 1 {
        assert((a + x).drop_last() =~= a);
        assert(x =~= seq![x[0]]);
    } else {
        let y = x.drop_last();
        assert(is_word(y) && y[0] == x[0]) by {
            assert forall|j: int| 0 <= j < y.len() implies !is_ws(#[trigger] y[j]) by {
                assert(y[j] == x[j]);
            }
        }
        lemma_words_append_word(a, y);
        assert((a + x).drop_last() =~= a + y);
        assert((a + x)[(a + x).len() - 2] == x[x.len() - 2]);
        assert(y.push(x.last()) =~= x);
        assert(words(a).push(y).update(words(a).len() as int, y.push(x.last())) =~= words(a).push(
            x,
        ));
    }
}

/// Joining words and splitting again gives the words back.
pub proof fn lemma_words_of_join(ws: Seq<Seq<char>>)
    requires
        forall|i: int| 0 <= i < ws.len() ==> is_word(#[trigger] ws[i]),
    ensures
        words(join_words(ws)) == ws,
    decreases ws.len(),
{
    if ws.len() == 0 {
        assert(words(Seq::<char>::empty()) =~= Seq::<Seq<char>>::empty());
    } else if ws.len() == 1 {
        lemma_words_append_word(Seq::<char>::empty(), ws[0]);
        assert(Seq::<char>::empty() + ws[0] =~= ws[0]);
        assert(Seq::<Seq<char>>::empty().push(ws[0]) =~= ws);
    } else {
        let front = ws.drop_last();
        lemma_words_of_join(front);
        let a = join_words(front) + seq![' '];
        assert(a.drop_last() =~= join_words(front));
        lemma_words_append_word(a, ws.last());
        assert(front.push(ws.last()) =~= ws);
    }
}

/// Collapsing whitespace a second time changes nothing.
pub proof fn lemma_collapse_idempotent(s: Seq<char>)
    ensures
        collapse(collapse(s)) == collapse(s),
{
    lemma_words_are_words(s);
    lemma_words_of_join(words(s));
}

/// Whether `c` is whitespace.
pub fn is_whitespace(c: char) -> (r: bool)
    ensures
        r == is_ws(c),
{
    let u = c as u32;
    (0x9 <= u && u <= 0xD) || u == 0x20 || u == 0x85 || u == 0xA0 || u == 0x1680 || (0x2000 <= u
        && u <= 0x200A) || u == 0x2028 || u == 0x2029 || u == 0x202F || u == 0x205F || u == 0x3000
}

/// Collapses the whitespace of a character sequence.
pub fn collapse_chars(s: &Vec<char>) -> (r: Vec<char>)
    ensures
        r@ == collapse(s@),
{
    let mut out: Vec<char> = Vec::new();
    let mut pending = false;
    let mut i: usize = 0;
    while i < s.len()
        invariant
            i <= s.len(),
            pending == (i > 0 && is_ws(s@[i - 1])),
            out@ == join_words(words(s@.take(i as int))),
            (out@.len() > 0) == (words(s@.take(i as int)).len() > 0),
        decreases s.len() - i,
    {
        let c = s[i];
        let ghost pre = s@.take(i as int);
        let ghost w = words(pre);
        assert(s@.take(i + 1).drop_last() =~= pre);
        assert(s@.take(i + 1).last() == c);
        if is_whitespace(c) {
            pending = true;
        } else {
            if pending && out.len() > 0 {
                proof {
                    lemma_join_push(w, seq![c]);
                }
                out.push(' ');
                out.push(c);
                assert(out@ =~= join_words(w) + seq![' '] + seq![c]);
            } else if out.len() > 0 {
                proof {
                    lemma_join_extend(w, c);
                }
                out.push(c);
            } else {
                proof {
                    lemma_join_push(w, seq![c]);
                }
                out.push(c);
                assert(out@ =~= seq![c]);
            }
            pending = false;
        }
        i = i + 1;
    }
    assert(s@.take(s.len() as int) =~= s@);
    out
}

/// Collapses whitespace: any run of whitespace becomes one space, and
/// leading and trailing whitespace is removed.
pub fn remove_multiple_whitespace(s: &str) -> (r: String)
    ensures
        r@ == collapse(s@),
{
    let v = chars_of(s);
    let c = collapse_chars(&v);
    string_of(&c)
}

/// Whether a character sequence holds whitespace only.
pub fn blank_chars(s: &Vec<char>) -> (r: bool)
    ensures
        r == is_blank(s@),
{
    let mut i: usize = 0;
    while i < s.len()
        invariant
            i <= s.len(),
            forall|j: int| 0 <= j < i ==> is_ws(#[trigger] s@[j]),
        decreases s.len() - i,
    {
        if !is_whitespace(s[i]) {
            return false;
        }
        i = i + 1;
    }
    true
}

pub open spec fn words_view(v: Seq<Vec<char>>) -> Seq<Seq<char>> {
    v.map_values(|w: Vec<char>| w@)
}

/// The maximal runs of non-whitespace characters, in order.
pub fn split_words(s: &Vec<char>) -> (r: Vec<Vec<char>>)
    ensures
        words_view(r@) == words(s@),
{
    let mut out: Vec<Vec<char>> = Vec::new();
    let mut i: usize = 0;
    assert(s@.take(0) =~= Seq::<char>::empty());
    assert(words_view(out@) =~= Seq::<Seq<char>>::empty());
    while i < s.len()
        invariant
            i <= s.len(),
            words_view(out@) == words(s@.take(i as int)),
        decreases s.len() - i,
    {
        let c = s[i];
        let ghost pre = s@.take(i as int);
        let ghost o = out@;
        assert(s@.take(i + 1).drop_last() =~= pre);
        assert(s@.take(i + 1).last() == c);
        if !is_whitespace(c) {
            if i > 0 && !is_whitespace(s[i - 1]) && out.len() > 0 {
                let last = out.len() - 1;
                let mut w = out[last].clone();
                w.push(c);
                out.set(last, w);
                assert(words_view(out@) =~= words_view(o).update(last as int, words_view(o).last().push(c)));
            } else {
                let mut w: Vec<char> = Vec::new();
                w.push(c);
                out.push(w);
                assert(words_view(out@) =~= words_view(o).push(seq![c]));
            }
        }
        i = i + 1;
    }
    assert(s@.take(s.len() as int) =~= s@);
    out
}

} // verus!
