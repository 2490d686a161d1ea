//! Ranking of matched entries: the texts compared with the query, and the
//! order, threshold and limit applied to their similarity scores.
use crate::calls::{chars_of, lower_of, lowercase, nfc, nfc_of, string_of};
use crate::entry::{normalized, normalized_entry};
use vstd::prelude::*;

verus! {

/// The lowest score that a document may have to stay.
pub open spec fn floor_of(min_similarity: Option<u16>) -> u16 {
    match min_similarity {
        Some(m) => m,
        None => 0,
    }
}

/// Document `i` ranks before document `j`: a higher score, or an equal
/// score and an earlier place among the matches.
pub open spec fn ranks_before(scores: Seq<u16>, i: int, j: int) -> bool {
    scores[i] > scores[j] || (scores[i] == scores[j] && i < j)
}

/// Whether the limit is reached by `len` documents.
pub open spec fn reached(limit: Option<u32>, len: int) -> bool {
    match limit {
        Some(l) => len >= l,
        None => false,
    }
}

/// The positions of the documents that score at least `floor`.
pub open spec fn kept_set(scores: Seq<u16>, floor: u16) -> Set<int> {
    Set::new(|i: int| 0 <= i < scores.len() && scores[i] >= floor)
}

/// How many documents a ranking returns: all that stay, or `limit` of them
/// where there are more.
pub open spec fn ranked_len(scores: Seq<u16>, floor: u16, limit: Option<u32>) -> nat {
    let k = kept_set(scores, floor).len();
    match limit {
        Some(l) => if (l as nat) < k {
            l as nat
        } else {
            k
        },
        None => k,
    }
}

/// A ranking that keeps only documents that stay, in strict order, takes
/// every one that stays until the limit is reached, and stops at the limit
/// returns exactly `min(limit, number staying)` of them.
pub proof fn lemma_ranked_len(scores: Seq<u16>, floor: u16, limit: Option<u32>, r: Seq<usize>)
    requires
        scores.len() <= usize::MAX,
        forall|j: int|
            0 <= j < r.len() ==> #[trigger] r[j] < scores.len() && scores[r[j] as int] >= floor,
        forall|j: int, k: int| 0 <= j < k < r.len() ==> ranks_before(scores, r[j] as int, r[k] as int),
        limit matches Some(l) ==> r.len() <= l,
        !reached(limit, r.len() as int) ==> forall|i: int|
            0 <= i < scores.len() && scores[i] >= floor ==> r.contains(i as usize),
    ensures
        r.len() == ranked_len(scores, floor, limit),
{
    let rs = r.map_values(|x: usize| x as int);
    let kept = kept_set(scores, floor);
    assert(rs.no_duplicates()) by {
        assert forall|i: int, j: int| 0 <= i < rs.len() && 0 <= j < rs.len() && i != j implies rs[i]
            != rs[j] by {
            if i < j {
                assert(ranks_before(scores, r[i] as int, r[j] as int));
            } else {
                assert(ranks_before(scores, r[j] as int, r[i] as int));
            }
        }
    }
    rs.unique_seq_to_set();
    vstd::set_lib::lemma_int_range(0, scores.len() as int);
    assert(kept.subset_of(vstd::set_lib::set_int_range(0, scores.len() as int)));
    vstd::set_lib::lemma_len_subset(kept, vstd::set_lib::set_int_range(0, scores.len() as int));
    assert(rs.to_set().subset_of(kept)) by {
        assert forall|x: int| rs.to_set().contains(x) implies kept.contains(x) by {
            let k = choose|k: int| 0 <= k < rs.len() && rs[k] == x;
            assert(r[k] < scores.len());
        }
    }
    vstd::set_lib::lemma_len_subset(rs.to_set(), kept);
    if !reached(limit, r.len() as int) {
        assert(kept.subset_of(rs.to_set())) by {
            assert forall|x: int| kept.contains(x) implies rs.to_set().contains(x) by {
                assert(0 <= x < scores.len());
                assert((x as usize) as int == x);
                assert(r.contains(x as usize));
                let k = choose|k: int| 0 <= k < r.len() && r[k] == x as usize;
                assert(rs[k] == x);
            }
        }
        vstd::set_lib::lemma_len_subset(kept, rs.to_set());
    }
}

/// The ranking of documents by score: the positions of the documents that
/// score at least `min_similarity`, highest score first and, among equal
/// scores, in their order among the matches; at most `limit` of them.
pub fn rank_documents(scores: &Vec<u16>, min_similarity: Option<u16>, limit: Option<u32>) -> (r:
    Vec<usize>)
    ensures
        forall|j: int|
            0 <= j < r.len() ==> #[trigger] r@[j] < scores.len() && scores@[r@[j] as int]
                >= floor_of(min_similarity),
        forall|j: int, k: int|
            0 <= j < k < r.len() ==> ranks_before(scores@, r@[j] as int, r@[k] as int),
        forall|i: int|
            0 <= i < scores.len() && scores@[i] >= floor_of(min_similarity) && !r@.contains(
                i as usize,
            ) ==> forall|j: int| 0 <= j < r.len() ==> ranks_before(scores@, r@[j] as int, i),
        limit matches Some(l) ==> r.len() <= l,
        !reached(limit, r.len() as int) ==> forall|i: int|
            0 <= i < scores.len() && scores@[i] >= floor_of(min_similarity) ==> r@.contains(
                i as usize,
            ),
        r.len() == ranked_len(scores@, floor_of(min_similarity), limit),
{
    let n = scores.len();
    let floor: u16 = match min_similarity {
        Some(m) => m,
        None => 0,
    };
    let mut top: u16 = 0;
    let mut i: usize = 0;
    while i < n
        invariant
            i <= n,
            n == scores.len(),
            forall|k: int| 0 <= k < i ==> scores@[k] <= top,
        decreases n - i,
    {
        if scores[i] > top {
            top = scores[i];
        }
        i = i + 1;
    }
    let mut out: Vec<usize> = Vec::new();
    let mut full = match limit {
        Some(l) => l == 0,
        None => false,
    };
    let mut v: u32 = top as u32 + 1;
    while v > floor as u32 && !full
        invariant
            n == scores.len(),
            floor == floor_of(min_similarity),
            v <= top as u32 + 1,
            forall|k: int| 0 <= k < n ==> scores@[k] <= top,
            full == reached(limit, out.len() as int),
            limit matches Some(l) ==> out.len() <= l,
            forall|j: int|
                0 <= j < out.len() ==> #[trigger] out@[j] < n && scores@[out@[j] as int] >= v
                    && scores@[out@[j] as int] >= floor,
            forall|j: int, k: int|
                0 <= j < k < out.len() ==> ranks_before(scores@, out@[j] as int, out@[k] as int),
            !full ==> forall|k: int| 0 <= k < n && scores@[k] >= v ==> out@.contains(k as usize),
            forall|k: int|
                0 <= k < n && scores@[k] >= floor && !out@.contains(k as usize) ==> forall|j: int|
                    0 <= j < out.len() ==> ranks_before(scores@, out@[j] as int, k),
        decreases v,
    {
        v = v - 1;
        let w: u16 = v as u16;
        let mut i: usize = 0;
        while i < n && !full
            invariant
                i <= n,
                n == scores.len(),
                w == v,
                v >= floor,
                floor == floor_of(min_similarity),
                full == reached(limit, out.len() as int),
                limit matches Some(l) ==> out.len() <= l,
                forall|j: int|
                    0 <= j < out.len() ==> #[trigger] out@[j] < n && scores@[out@[j] as int] >= v
                        && scores@[out@[j] as int] >= floor,
                forall|j: int|
                    0 <= j < out.len() && scores@[out@[j] as int] == v ==> #[trigger] out@[j] < i,
                forall|j: int, k: int|
                    0 <= j < k < out.len() ==> ranks_before(
                        scores@,
                        out@[j] as int,
                        out@[k] as int,
                    ),
                !full ==> forall|k: int|
                    0 <= k < n && (scores@[k] > v || (scores@[k] == v && k < i)) ==> out@.contains(
                        k as usize,
                    ),
                forall|k: int|
                    0 <= k < n && scores@[k] >= floor && !out@.contains(k as usize) ==> forall|j: int|
                        0 <= j < out.len() ==> ranks_before(scores@, out@[j] as int, k),
            decreases n - i,
        {
            if scores[i] == w {
                let ghost o = out@;
                out.push(i);
                assert(out@[o.len() as int] == i);
                assert forall|k: int|
                    0 <= k < n && scores@[k] >= floor && !out@.contains(k as usize) implies forall|j: int|
                    0 <= j < out.len() ==> ranks_before(scores@, out@[j] as int, k) by {
                    assert forall|j: int| 0 <= j < o.len() implies o[j] == #[trigger] out@[j] by {}
                    if o.contains(k as usize) {
                        let j = choose|j: int| 0 <= j < o.len() && o[j] == k as usize;
                        assert(out@[j] == k as usize);
                    }
                }
                assert forall|k: int|
                    0 <= k < n && (scores@[k] > v || (scores@[k] == v && k < i + 1)) && !reached(
                        limit,
                        out.len() as int,
                    ) implies out@.contains(k as usize) by {
                    if k == i {
                        assert(out@[o.len() as int] == k as usize);
                    } else {
                        let j = choose|j: int| 0 <= j < o.len() && o[j] == k as usize;
                        assert(out@[j] == k as usize);
                    }
                }
                full = match limit {
                    Some(l) => out.len() >= l as usize,
                    None => false,
                };
            }
            i = i + 1;
        }
    }
    proof {
        lemma_ranked_len(scores@, floor, limit, out@);
    }
    out
}

/// The texts of a stored entry that are compared with the query: its core
/// text, lowercased, without round brackets; and its annotation text,
/// lowercased. `None` where the entry does not normalize (it then scores 0).
pub open spec fn compared_texts(field: Seq<char>) -> Option<(Seq<char>, Seq<char>)> {
    match normalized(field, false) {
        Some((t, e)) => Some((without_parens(lower_of(t)), lower_of(e))),
        None => None,
    }
}

/// `s` without the characters `(` and `)`.
pub open spec fn without_parens(s: Seq<char>) -> Seq<char>
    decreases s.len(),
{
    if s.len() == 0 {
        seq![]
    } else {
        let p = without_parens(s.drop_last());
        if s.last() == '(' || s.last() == ')' {
            p
        } else {
            p.push(s.last())
        }
    }
}

/// Removes the round brackets from a string.
pub fn remove_parens(s: &str) -> (r: String)
    ensures
        r@ == without_parens(s@),
{
    let c = chars_of(s);
    let mut out: Vec<char> = Vec::new();
    let mut i: usize = 0;
    assert(c@.take(0) =~= Seq::<char>::empty());
    while i < c.len()
        invariant
            i <= c.len(),
            c@ == s@,
            out@ == without_parens(c@.take(i as int)),
        decreases c.len() - i,
    {
        assert(c@.take(i + 1).drop_last() =~= c@.take(i as int));
        assert(c@.take(i + 1).last() == c@[i as int]);
        if c[i] != '(' && c[i] != ')' {
            out.push(c[i]);
        }
        i = i + 1;
    }
    assert(c@.take(c.len() as int) =~= c@);
    string_of(&out)
}

/// The texts of a stored entry that are compared with the query.
pub fn similarity_texts(field: &str) -> (r: Option<(String, String)>)
    ensures
        match r {
            Some((t, e)) => compared_texts(field@) == Some((t@, e@)),
            None => compared_texts(field@) is None,
        },
{
    match normalized_entry(field, false) {
        Ok(n) => {
            let t = lowercase(n.text.as_str());
            let e = lowercase(n.extra.as_str());
            Some((remove_parens(t.as_str()), e))
        },
        Err(_) => None,
    }
}

/// The query as it is compared: lowercased, then composed.
pub fn similarity_query(input: &str) -> (r: String)
    ensures
        r@ == nfc_of(lower_of(input@)),
{
    let lowered = lowercase(input);
    nfc(lowered.as_str())
}

} // verus!
