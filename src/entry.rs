//! Dictionary entries: a scanner for words, round groups and angle groups,
//! and the normalization of an entry into its core text and its annotations.
use crate::calls::{chars_of, join_space, string_of};
use crate::error::DictCliError;
use crate::text::{collapse, join_words, remove_multiple_whitespace};
use vstd::prelude::*;
use vstd::string::*;

verus! {

/// The kind of a token of an entry.
#[derive(Debug, Clone, Copy, PartialEq, Eq, Structural)]
pub enum TokenKind {
    /// A run of characters outside brackets, possibly with round groups inside.
    Word,
    /// Like a word, but starting with a round group: `(ugs.)`, `(sich) ...`.
    RoundGroup,
    /// An annotation between angle brackets: `<coll.>`.
    AngleGroup,
}

/// One token of an entry, with its characters as they stand in the entry.
#[derive(Debug, Clone)]
pub struct Token {
    pub kind: TokenKind,
    pub text: String,
}

impl View for Token {
    type V = (TokenKind, Seq<char>);

    open spec fn view(&self) -> (TokenKind, Seq<char>) {
        (self.kind, self.text@)
    }
}

/// The state of the scanner after a prefix of an entry.
pub struct Scan {
    /// The tokens completed so far.
    pub toks: Seq<(TokenKind, Seq<char>)>,
    /// The characters of the token being read.
    pub cur: Seq<char>,
    /// The kind of the token being read.
    pub kind: TokenKind,
    /// How many round brackets are open.
    pub depth: nat,
    /// Whether an angle bracket is open.
    pub angle: bool,
}

pub open spec fn initial_scan() -> Scan {
    Scan { toks: seq![], cur: seq![], kind: TokenKind::Word, depth: 0, angle: false }
}

/// Ends the token being read, if any.
pub open spec fn flush(st: Scan) -> Scan {
    Scan {
        toks: if st.cur.len() == 0 {
            st.toks
        } else {
            st.toks.push((st.kind, st.cur))
        },
        cur: seq![],
        kind: TokenKind::Word,
        depth: st.depth,
        angle: st.angle,
    }
}

pub open spec fn with_char(st: Scan, c: char, kind: TokenKind, depth: nat) -> Scan {
    Scan { toks: st.toks, cur: st.cur.push(c), kind, depth, angle: st.angle }
}

/// One step of the scanner; `None` where the brackets go wrong.
/// Inside brackets every character belongs to the token; round brackets nest;
/// an angle group holds no angle group and is not held by a round group.
pub open spec fn step(st: Scan, c: char) -> Option<Scan> {
    if st.angle {
        if c == '<' {
            None
        } else if c == '>' {
            if st.depth == 0 {
                Some(
                    Scan {
                        toks: st.toks.push((TokenKind::AngleGroup, st.cur.push(c))),
                        cur: seq![],
                        kind: TokenKind::Word,
                        depth: 0,
                        angle: false,
                    },
                )
            } else {
                None
            }
        } else if c == '(' {
            Some(with_char(st, c, st.kind, st.depth + 1))
        } else if c == ')' {
            if st.depth == 0 {
                None
            } else {
                Some(with_char(st, c, st.kind, (st.depth - 1) as nat))
            }
        } else {
            Some(with_char(st, c, st.kind, st.depth))
        }
    } else if st.depth > 0 {
        if c == '<' || c == '>' {
            None
        } else if c == '(' {
            Some(with_char(st, c, st.kind, st.depth + 1))
        } else if c == ')' {
            Some(with_char(st, c, st.kind, (st.depth - 1) as nat))
        } else {
            Some(with_char(st, c, st.kind, st.depth))
        }
    } else if crate::text::is_ws(c) {
        Some(flush(st))
    } else if c == '<' {
        let f = flush(st);
        Some(Scan { toks: f.toks, cur: seq!['<'], kind: TokenKind::AngleGroup, depth: 0, angle: true })
    } else if c == '>' || c == ')' {
        None
    } else {
        let kind = if st.cur.len() > 0 {
            st.kind
        } else if c == '(' {
            TokenKind::RoundGroup
        } else {
            TokenKind::Word
        };
        Some(with_char(st, c, kind, if c == '(' { 1 } else { 0 }))
    }
}

/// The scanner's state after all of `s`; `None` once a step failed.
pub open spec fn scan(s: Seq<char>) -> Option<Scan>
    decreases s.len(),
{
    if s.len() == 0 {
        Some(initial_scan())
    } else {
        match scan(s.drop_last()) {
            Some(st) => step(st, s.last()),
            None => None,
        }
    }
}

/// The tokens of an entry, or `None` where its brackets are unbalanced or misnested.
pub open spec fn tokens(s: Seq<char>) -> Option<Seq<(TokenKind, Seq<char>)>> {
    match scan(s) {
        Some(st) => if st.depth == 0 && !st.angle {
            Some(flush(st).toks)
        } else {
            None
        },
        None => None,
    }
}

/// Where the scan of `s` fails: the first character that no step accepts, or
/// the length of `s` where a bracket is left open.
pub open spec fn fails_at(s: Seq<char>, p: int) -> bool {
    &&& 0 <= p <= s.len()
    &&& scan(s.take(p)) is Some
    &&& if p < s.len() {
        scan(s.take(p + 1)) is None
    } else {
        tokens(s) is None
    }
}

pub open spec fn toks_view(v: Seq<Token>) -> Seq<(TokenKind, Seq<char>)> {
    v.map_values(|t: Token| t@)
}

/// The texts of the words and round groups.
pub open spec fn key_parts(toks: Seq<(TokenKind, Seq<char>)>) -> Seq<Seq<char>>
    decreases toks.len(),
{
    if toks.len() == 0 {
        seq![]
    } else {
        let p = key_parts(toks.drop_last());
        if toks.last().0 != TokenKind::AngleGroup {
            p.push(toks.last().1)
        } else {
            p
        }
    }
}

/// An angle group without its two brackets.
pub open spec fn strip_angles(t: Seq<char>) -> Seq<char> {
    if t.len() >= 2 {
        t.subrange(1, t.len() - 1)
    } else {
        t
    }
}

/// The texts of the angle groups, without their brackets when `strip` holds.
pub open spec fn angle_parts(toks: Seq<(TokenKind, Seq<char>)>, strip: bool) -> Seq<Seq<char>>
    decreases toks.len(),
{
    if toks.len() == 0 {
        seq![]
    } else {
        let p = angle_parts(toks.drop_last(), strip);
        if toks.last().0 == TokenKind::AngleGroup {
            p.push(
                if strip {
                    strip_angles(toks.last().1)
                } else {
                    toks.last().1
                },
            )
        } else {
            p
        }
    }
}

/// The core text of an entry.
pub open spec fn entry_text(toks: Seq<(TokenKind, Seq<char>)>) -> Seq<char> {
    collapse(join_words(key_parts(toks)))
}

/// The annotation text of an entry.
pub open spec fn entry_extra(toks: Seq<(TokenKind, Seq<char>)>, strip: bool) -> Seq<char> {
    collapse(join_words(angle_parts(toks, strip)))
}

/// A failed scan stays failed.
pub proof fn lemma_scan_fails(s: Seq<char>, k: int)
    requires
        0 <= k <= s.len(),
        scan(s.take(k)) is None,
    ensures
        scan(s) is None,
        tokens(s) is None,
    decreases s.len() - k,
{
    if k == s.len() {
        assert(s.take(k) =~= s);
    } else {
        assert(s.take(k + 1).drop_last() =~= s.take(k));
        lemma_scan_fails(s, k + 1);
    }
}

/// Ends the token being read, if any.
fn flush_token(toks: Vec<Token>, cur: &Vec<char>, kind: TokenKind) -> (r: Vec<Token>)
    ensures
        toks_view(r@) == if cur@.len() == 0 {
            toks_view(toks@)
        } else {
            toks_view(toks@).push((kind, cur@))
        },
{
    let mut toks = toks;
    if cur.len() > 0 {
        let text = string_of(cur);
        let ghost before = toks@;
        toks.push(Token { kind, text });
        assert(toks_view(toks@) =~= toks_view(before).push((kind, cur@)));
    }
    toks
}

/// Splits an entry into words, round groups and angle groups.
pub fn parse_entry(entry: &str) -> (r: Result<Vec<Token>, DictCliError>)
    ensures
        match r {
            Ok(v) => tokens(entry@) == Some(toks_view(v@)),
            Err(e) => tokens(entry@) is None && exists|p: usize|
                e == DictCliError::ParseError(p) && fails_at(entry@, p as int),
        },
{
    let s = chars_of(entry);
    let mut toks: Vec<Token> = Vec::new();
    let mut cur: Vec<char> = Vec::new();
    let mut kind = TokenKind::Word;
    let mut depth: usize = 0;
    let mut angle = false;
    let mut i: usize = 0;
    assert(s@.take(0) =~= Seq::<char>::empty());
    assert(toks_view(toks@) =~= Seq::<(TokenKind, Seq<char>)>::empty());
    while i < s.len()
        invariant
            i <= s.len(),
            s@ == entry@,
            depth <= i,
            scan(s@.take(i as int)) == Some(
                Scan { toks: toks_view(toks@), cur: cur@, kind, depth: depth as nat, angle },
            ),
        decreases s.len() - i,
    {
        let c = s[i];
        let ghost st = Scan {
            toks: toks_view(toks@),
            cur: cur@,
            kind,
            depth: depth as nat,
            angle,
        };
        assert(s@.take(i + 1).drop_last() =~= s@.take(i as int));
        assert(s@.take(i + 1).last() == c);
        let ghost next = step(st, c);
        if angle {
            if c == '<' {
                proof {
                    lemma_scan_fails(s@, i + 1);
                    assert(fails_at(entry@, i as int));
                }
                return Err(DictCliError::ParseError(i));
            } else if c == '>' {
                if depth != 0 {
                    proof {
                        lemma_scan_fails(s@, i + 1);
                        assert(fails_at(entry@, i as int));
                    }
                    return Err(DictCliError::ParseError(i));
                }
                cur.push(c);
                let text = string_of(&cur);
                let ghost before = toks@;
                toks.push(Token { kind: TokenKind::AngleGroup, text });
                assert(toks_view(toks@) =~= toks_view(before).push((TokenKind::AngleGroup, cur@)));
                cur = Vec::new();
                assert(cur@ =~= Seq::<char>::empty());
                kind = TokenKind::Word;
                angle = false;
            } else if c == '(' {
                cur.push(c);
                depth = depth + 1;
            } else if c == ')' {
                if depth == 0 {
                    proof {
                        lemma_scan_fails(s@, i + 1);
                        assert(fails_at(entry@, i as int));
                    }
                    return Err(DictCliError::ParseError(i));
                }
                cur.push(c);
                depth = depth - 1;
            } else {
                cur.push(c);
            }
        } else if depth > 0 {
            if c == '<' || c == '>' {
                proof {
                    lemma_scan_fails(s@, i + 1);
                    assert(fails_at(entry@, i as int));
                }
                return Err(DictCliError::ParseError(i));
            } else if c == '(' {
                cur.push(c);
                depth = depth + 1;
            } else if c == ')' {
                cur.push(c);
                depth = depth - 1;
            } else {
                cur.push(c);
            }
        } else if crate::text::is_whitespace(c) {
            toks = flush_token(toks, &cur, kind);
            cur = Vec::new();
            assert(cur@ =~= Seq::<char>::empty());
            kind = TokenKind::Word;
        } else if c == '<' {
            toks = flush_token(toks, &cur, kind);
            cur = Vec::new();
            cur.push(c);
            assert(cur@ =~= seq!['<']);
            kind = TokenKind::AngleGroup;
            angle = true;
        } else if c == '>' || c == ')' {
            proof {
                lemma_scan_fails(s@, i + 1);
                assert(fails_at(entry@, i as int));
            }
            return Err(DictCliError::ParseError(i));
        } else {
            if cur.len() == 0 {
                kind = if c == '(' {
                    TokenKind::RoundGroup
                } else {
                    TokenKind::Word
                };
            }
            cur.push(c);
            if c == '(' {
                depth = 1;
            }
        }
        assert(next == Some(
            Scan { toks: toks_view(toks@), cur: cur@, kind, depth: depth as nat, angle },
        ));
        i = i + 1;
    }
    assert(s@.take(s.len() as int) =~= s@);
    if depth > 0 || angle {
        assert(fails_at(entry@, s.len() as int));
        return Err(DictCliError::ParseError(s.len()));
    }
    let toks = flush_token(toks, &cur, kind);
    Ok(toks)
}

/// An entry split into its core text and its annotation text.
#[derive(Debug, Clone)]
pub struct NormalizedEntry {
    /// The words and round groups, whitespace collapsed.
    pub text: String,
    /// The angle groups, whitespace collapsed.
    pub extra: String,
}

/// The core text and the annotation text of an entry, or `None` where its
/// brackets are unbalanced or misnested.
pub open spec fn normalized(s: Seq<char>, strip: bool) -> Option<(Seq<char>, Seq<char>)> {
    match tokens(s) {
        Some(t) => Some((entry_text(t), entry_extra(t, strip))),
        None => None,
    }
}

/// Normalizes an entry: `text` holds its words and round groups, `extra`
/// its angle groups (without their brackets when `no_angles` holds), each
/// joined by spaces and with whitespace collapsed.
pub fn normalized_entry(entry: &str, no_angles: bool) -> (r: Result<NormalizedEntry, DictCliError>)
    ensures
        match r {
            Ok(n) => normalized(entry@, no_angles) == Some((n.text@, n.extra@)),
            Err(e) => normalized(entry@, no_angles) is None && exists|p: usize|
                e == DictCliError::ParseError(p) && fails_at(entry@, p as int),
        },
{
    let toks = match parse_entry(entry) {
        Ok(t) => t,
        Err(e) => {
            return Err(e);
        },
    };
    let ghost tv = toks_view(toks@);
    let mut key: Vec<String> = Vec::new();
    let mut extra: Vec<String> = Vec::new();
    let mut i: usize = 0;
    assert(tv.take(0) =~= Seq::<(TokenKind, Seq<char>)>::empty());
    assert(key@.map_values(|p: String| p@) =~= Seq::<Seq<char>>::empty());
    assert(extra@.map_values(|p: String| p@) =~= Seq::<Seq<char>>::empty());
    while i < toks.len()
        invariant
            i <= toks.len(),
            tv == toks_view(toks@),
            key@.map_values(|p: String| p@) == key_parts(tv.take(i as int)),
            extra@.map_values(|p: String| p@) == angle_parts(tv.take(i as int), no_angles),
        decreases toks.len() - i,
    {
        assert(tv.take(i + 1).drop_last() =~= tv.take(i as int));
        assert(tv.take(i + 1).last() == toks@[i as int]@);
        let ghost k0 = key@;
        let ghost e0 = extra@;
        if toks[i].kind != TokenKind::AngleGroup {
            key.push(toks[i].text.clone());
            assert(key@.map_values(|p: String| p@) =~= k0.map_values(|p: String| p@).push(
                toks@[i as int].text@,
            ));
        } else {
            let t = toks[i].text.as_str();
            let n = t.unicode_len();
            let part = if no_angles && n >= 2 {
                String::from_str(t.substring_char(1, n - 1))
            } else {
                toks[i].text.clone()
            };
            extra.push(part);
            assert(extra@.map_values(|p: String| p@) =~= e0.map_values(|p: String| p@).push(
                part@,
            ));
        }
        i = i + 1;
    }
    assert(tv.take(toks.len() as int) =~= tv);
    let text = remove_multiple_whitespace(join_space(&key).as_str());
    let extra = remove_multiple_whitespace(join_space(&extra).as_str());
    Ok(NormalizedEntry { text, extra })
}

} // verus!
