//! The secondary, numeric (non-date) format grammar: an optional color
//! tag, literal words and currency tags around a digit-pattern run, in up
//! to four semicolon-separated sections. It is recognized only — nothing
//! renders through it yet — so the parser is the whole feature.

use crate::tokens::{match_word, Tok};
use vstd::prelude::*;

verus! {

/// One item of a numeric format section.
#[derive(Debug, Clone)]
pub enum NumericToken {
    /// The red color tag.
    Red,
    /// The black color tag.
    Black,
    /// The Japanese currency tag.
    CurrencyJp,
    /// A run of digit-pattern characters (`0 # . , ?`).
    Digits(String),
    /// Literal text, as the date grammar's words.
    Literal(String),
}

/// The mathematical model of one numeric item.
pub enum NumTok {
    Red,
    Black,
    CurrencyJp,
    Digits(Seq<char>),
    Literal(Seq<char>),
}

impl View for NumericToken {
    type V = NumTok;

    open spec fn view(&self) -> NumTok {
        match self {
            NumericToken::Red => NumTok::Red,
            NumericToken::Black => NumTok::Black,
            NumericToken::CurrencyJp => NumTok::CurrencyJp,
            NumericToken::Digits(s) => NumTok::Digits(s@),
            NumericToken::Literal(s) => NumTok::Literal(s@),
        }
    }
}

/// The models of one section's items.
pub open spec fn num_toks_view(ts: Seq<NumericToken>) -> Seq<NumTok> {
    ts.map_values(|t: NumericToken| t@)
}

/// The models of a section list.
pub open spec fn sections_view(ss: Seq<Vec<NumericToken>>) -> Seq<Seq<NumTok>> {
    ss.map_values(|s: Vec<NumericToken>| num_toks_view(s@))
}

/// The color tag at the front: the red tags before the black ones.
pub open spec fn match_color(s: Seq<char>) -> Option<(NumTok, nat)> {
    if s.len() >= 3 && s[0] == '[' && s[1] == '赤' && s[2] == ']' {
        Some((NumTok::Red, 3 as nat))
    } else if s.len() >= 5 && s[0] == '[' && s[1] == 'R' && s[2] == 'E' && s[3] == 'D'
        && s[4] == ']' {
        Some((NumTok::Red, 5 as nat))
    } else if s.len() >= 3 && s[0] == '[' && s[1] == '黒' && s[2] == ']' {
        Some((NumTok::Black, 3 as nat))
    } else if s.len() >= 7 && s[0] == '[' && s[1] == 'B' && s[2] == 'L' && s[3] == 'A'
        && s[4] == 'C' && s[5] == 'K' && s[6] == ']' {
        Some((NumTok::Black, 7 as nat))
    } else {
        None
    }
}

/// The currency tag at the front.
pub open spec fn match_currency(s: Seq<char>) -> Option<(NumTok, nat)> {
    if s.len() >= 8 && s[0] == '[' && s[1] == '$' && s[2] == '￥' && s[3] == '-'
        && s[4] == '4' && s[5] == '1' && s[6] == '1' && s[7] == ']' {
        Some((NumTok::CurrencyJp, 8 as nat))
    } else {
        None
    }
}

/// A digit-pattern character.
pub open spec fn is_pattern_char(c: char) -> bool {
    c == '0' || c == '#' || c == '.' || c == ',' || c == '?'
}

/// How many digit-pattern characters the sequence starts with.
pub open spec fn pattern_run(s: Seq<char>) -> nat
    decreases s.len(),
{
    if s.len() == 0 || !is_pattern_char(s[0]) {
        0
    } else {
        1 + pattern_run(s.skip(1))
    }
}

/// The length of a pattern run is read off the characters themselves.
proof fn lemma_pattern_run_is(s: Seq<char>, r: int)
    requires
        0 <= r <= s.len(),
        forall|k: int| 0 <= k < r ==> is_pattern_char(#[trigger] s[k]),
        r == s.len() || !is_pattern_char(s[r]),
    ensures
        pattern_run(s) == r,
    decreases s.len(),
{
    if r == 0 {
    } else {
        lemma_pattern_run_is(s.skip(1), r - 1);
    }
}

/// The literal words and currency tags at the front, words first, as many
/// as match.
pub open spec fn words_currency(s: Seq<char>) -> (Seq<NumTok>, nat)
    decreases s.len(),
{
    match match_word(s) {
        Some((t, n)) => {
            let lit = match t {
                Tok::Literal(l) => NumTok::Literal(l),
                _ => NumTok::Literal(Seq::empty()),
            };
            if 1 <= n <= s.len() {
                let rest = words_currency(s.skip(n as int));
                (seq![lit] + rest.0, n + rest.1)
            } else {
                (Seq::empty(), 0 as nat)
            }
        },
        None => match match_currency(s) {
            Some((c, n)) => {
                if 1 <= n <= s.len() {
                    let rest = words_currency(s.skip(n as int));
                    (seq![c] + rest.0, n + rest.1)
                } else {
                    (Seq::empty(), 0 as nat)
                }
            },
            None => (Seq::empty(), 0 as nat),
        },
    }
}

/// One numeric section at the front: an optional color tag, words and
/// currency tags, a nonempty digit-pattern run, then words and currency
/// tags again.
pub open spec fn match_section(s: Seq<char>) -> Option<(Seq<NumTok>, nat)> {
    let head = match match_color(s) {
        Some((c, n)) => (seq![c], n),
        None => (Seq::<NumTok>::empty(), 0 as nat),
    };
    if head.1 <= s.len() {
        let w1 = words_currency(s.skip(head.1 as int));
        let p1 = head.1 + w1.1;
        if p1 <= s.len() {
            let run = pattern_run(s.skip(p1 as int));
            if run >= 1 && p1 + run <= s.len() {
                let digits = NumTok::Digits(s.subrange(p1 as int, (p1 + run) as int));
                let w2 = words_currency(s.skip((p1 + run) as int));
                Some((head.0 + w1.0 + seq![digits] + w2.0, p1 + run + w2.1))
            } else {
                None
            }
        } else {
            None
        }
    } else {
        None
    }
}

/// The sections taken from the front, at most `remaining` of them, each
/// preceded by an optional semicolon; a section that fails to match stops
/// the run before its semicolon.
pub open spec fn sections_from(s: Seq<char>, remaining: int) -> (Seq<Seq<NumTok>>, nat)
    decreases remaining,
{
    if remaining <= 0 {
        (Seq::empty(), 0 as nat)
    } else {
        let semi: nat = if s.len() > 0 && s[0] == ';' {
            1
        } else {
            0
        };
        if semi <= s.len() {
            match match_section(s.skip(semi as int)) {
                Some((toks, n)) => {
                    if semi + n <= s.len() {
                        let rest = sections_from(s.skip((semi + n) as int), remaining - 1);
                        (seq![toks] + rest.0, semi + n + rest.1)
                    } else {
                        (seq![toks], semi + n)
                    }
                },
                None => (Seq::empty(), 0 as nat),
            }
        } else {
            (Seq::empty(), 0 as nat)
        }
    }
}

/// The section lists of a numeric format string: one to four sections
/// covering the whole input, or nothing.
pub open spec fn spec_numeric_sections(s: Seq<char>) -> Option<Seq<Seq<NumTok>>> {
    let run = sections_from(s, 4);
    if run.0.len() >= 1 && run.1 == s.len() {
        Some(run.0)
    } else {
        None
    }
}

/// The color tag at position `i`.
fn match_color_at(s: &str, i: usize) -> (r: Option<(NumericToken, usize)>)
    requires
        i <= s@.len(),
    ensures
        match r {
            Some(p) => match_color(s@.skip(i as int)) == Some((p.0@, p.1 as nat))
                && 1 <= p.1 && i + p.1 <= s@.len(),
            None => match_color(s@.skip(i as int)) is None,
        },
{
    let len = s.unicode_len();
    let ghost t = s@.skip(i as int);
    if len - i >= 3 && s.get_char(i) == '[' && s.get_char(i + 1) == '赤'
        && s.get_char(i + 2) == ']' {
        proof {
            assert(t[0] == '[' && t[1] == '赤' && t[2] == ']');
        }
        return Some((NumericToken::Red, 3));
    }
    if len - i >= 5 && s.get_char(i) == '[' && s.get_char(i + 1) == 'R'
        && s.get_char(i + 2) == 'E' && s.get_char(i + 3) == 'D' && s.get_char(i + 4) == ']' {
        proof {
            assert(t[0] == '[' && t[1] == 'R' && t[2] == 'E' && t[3] == 'D' && t[4] == ']');
        }
        return Some((NumericToken::Red, 5));
    }
    if len - i >= 3 && s.get_char(i) == '[' && s.get_char(i + 1) == '黒'
        && s.get_char(i + 2) == ']' {
        proof {
            assert(t[0] == '[' && t[1] == '黒' && t[2] == ']');
        }
        return Some((NumericToken::Black, 3));
    }
    if len - i >= 7 && s.get_char(i) == '[' && s.get_char(i + 1) == 'B'
        && s.get_char(i + 2) == 'L' && s.get_char(i + 3) == 'A' && s.get_char(i + 4) == 'C'
        && s.get_char(i + 5) == 'K' && s.get_char(i + 6) == ']' {
        proof {
            assert(t[0] == '[' && t[1] == 'B' && t[2] == 'L' && t[3] == 'A' && t[4] == 'C'
                && t[5] == 'K' && t[6] == ']');
        }
        return Some((NumericToken::Black, 7));
    }
    proof {
        if i < len {
            assert(t[0] == s@[i as int]);
        }
        if i + 1 < len {
            assert(t[1] == s@[i + 1]);
        }
        if i + 2 < len {
            assert(t[2] == s@[i + 2]);
        }
        if i + 3 < len {
            assert(t[3] == s@[i + 3]);
        }
        if i + 4 < len {
            assert(t[4] == s@[i + 4]);
        }
        if i + 5 < len {
            assert(t[5] == s@[i + 5]);
        }
        if i + 6 < len {
            assert(t[6] == s@[i + 6]);
        }
    }
    None
}

/// The currency tag at position `i`.
fn match_currency_at(s: &str, i: usize) -> (r: Option<(NumericToken, usize)>)
    requires
        i <= s@.len(),
    ensures
        match r {
            Some(p) => match_currency(s@.skip(i as int)) == Some((p.0@, p.1 as nat))
                && 1 <= p.1 && i + p.1 <= s@.len(),
            None => match_currency(s@.skip(i as int)) is None,
        },
{
    let len = s.unicode_len();
    let ghost t = s@.skip(i as int);
    if len - i >= 8 && s.get_char(i) == '[' && s.get_char(i + 1) == '$'
        && s.get_char(i + 2) == '￥' && s.get_char(i + 3) == '-' && s.get_char(i + 4) == '4'
        && s.get_char(i + 5) == '1' && s.get_char(i + 6) == '1' && s.get_char(i + 7) == ']' {
        proof {
            assert(t[0] == '[' && t[1] == '$' && t[2] == '￥' && t[3] == '-' && t[4] == '4'
                && t[5] == '1' && t[6] == '1' && t[7] == ']');
        }
        return Some((NumericToken::CurrencyJp, 8));
    }
    proof {
        if i < len {
            assert(t[0] == s@[i as int]);
        }
        if i + 1 < len {
            assert(t[1] == s@[i + 1]);
        }
        if i + 2 < len {
            assert(t[2] == s@[i + 2]);
        }
        if i + 3 < len {
            assert(t[3] == s@[i + 3]);
        }
        if i + 4 < len {
            assert(t[4] == s@[i + 4]);
        }
        if i + 5 < len {
            assert(t[5] == s@[i + 5]);
        }
        if i + 6 < len {
            assert(t[6] == s@[i + 6]);
        }
        if i + 7 < len {
            assert(t[7] == s@[i + 7]);
        }
    }
    None
}

/// The digit-pattern run at position `i`.
fn pattern_run_at(s: &str, i: usize) -> (r: usize)
    requires
        i <= s@.len(),
    ensures
        r == pattern_run(s@.skip(i as int)),
        i + r <= s@.len(),
{
    let len = s.unicode_len();
    let mut j = i;
    loop
        invariant
            i <= j <= len,
            len == s@.len(),
            forall|k: int| i <= k < j ==> is_pattern_char(#[trigger] s@[k]),
        ensures
            i <= j <= len,
            forall|k: int| i <= k < j ==> is_pattern_char(#[trigger] s@[k]),
            j == len || !is_pattern_char(s@[j as int]),
        decreases len - j,
    {
        if j == len {
            break;
        }
        let c = s.get_char(j);
        if !(c == '0' || c == '#' || c == '.' || c == ',' || c == '?') {
            break;
        }
        j = j + 1;
    }
    proof {
        let t = s@.skip(i as int);
        assert(forall|k: int| 0 <= k < j - i ==> t[k] == s@[i + k]
            && is_pattern_char(s@[i + k]));
        lemma_pattern_run_is(t, j - i);
    }
    j - i
}

/// The words and currency tags at position `i`, collected into `out`.
fn words_currency_at(s: &str, i: usize, out: &mut Vec<NumericToken>) -> (r: usize)
    requires
        i <= s@.len(),
    ensures
        i <= r <= s@.len(),
        r - i == words_currency(s@.skip(i as int)).1,
        final(out)@.len() == old(out)@.len() + words_currency(s@.skip(i as int)).0.len(),
        num_toks_view(final(out)@) =~= num_toks_view(old(out)@)
            + words_currency(s@.skip(i as int)).0,
    decreases s@.len() - i,
{
    let len = s.unicode_len();
    match crate::tokens::match_word_at(s, i) {
        Some((tok, n)) => {
            let lit = match tok {
                crate::tokens::DateToken::Literal(l) => NumericToken::Literal(l),
                _ => {
                    proof {
                        assert(false);
                    }
                    vstd::pervasive::unreached()
                },
            };
            let ghost before = out@;
            out.push(lit);
            let r = words_currency_at(s, i + n, out);
            proof {
                assert(s@.skip(i as int).skip(n as int) =~= s@.skip(i + n as int));
                assert(num_toks_view(out@) =~= num_toks_view(before)
                    + words_currency(s@.skip(i as int)).0);
            }
            r
        },
        None => {
            match match_currency_at(s, i) {
                Some((tok, n)) => {
                    let ghost before = out@;
                    out.push(tok);
                    let r = words_currency_at(s, i + n, out);
                    proof {
                        assert(s@.skip(i as int).skip(n as int) =~= s@.skip(i + n as int));
                        assert(num_toks_view(out@) =~= num_toks_view(before)
                            + words_currency(s@.skip(i as int)).0);
                    }
                    r
                },
                None => {
                    proof {
                        assert(words_currency(s@.skip(i as int)).0 =~= Seq::<NumTok>::empty());
                        assert(num_toks_view(out@) =~= num_toks_view(out@)
                            + Seq::<NumTok>::empty());
                    }
                    i
                },
            }
        },
    }
}

/// One numeric section at position `i`.
#[verifier::rlimit(100)]
fn match_section_at(s: &str, i: usize) -> (r: Option<(Vec<NumericToken>, usize)>)
    requires
        i <= s@.len(),
    ensures
        match r {
            Some(p) => match_section(s@.skip(i as int))
                    == Some((num_toks_view(p.0@), p.1 as nat))
                && 1 <= p.1 && i + p.1 <= s@.len(),
            None => match_section(s@.skip(i as int)) is None,
        },
{
    let len = s.unicode_len();
    let ghost t = s@.skip(i as int);
    let mut out: Vec<NumericToken> = Vec::new();
    let head_n = match match_color_at(s, i) {
        Some((c, n)) => {
            out.push(c);
            n
        },
        None => 0,
    };
    proof {
        assert(t.skip(head_n as int) =~= s@.skip(i + head_n as int));
    }
    let p1 = words_currency_at(s, i + head_n, &mut out);
    proof {
        assert(t.skip((p1 - i) as int) =~= s@.skip(p1 as int));
    }
    let run = pattern_run_at(s, p1);
    if run == 0 {
        return None;
    }
    let digits = s.substring_char(p1, p1 + run);
    proof {
        assert(digits@ =~= t.subrange((p1 - i) as int, (p1 - i + run) as int));
    }
    let ghost before = out@;
    out.push(NumericToken::Digits(String::from_str(digits)));
    proof {
        assert(num_toks_view(out@) =~= num_toks_view(before)
            + seq![NumTok::Digits(digits@)]);
        assert(t.skip((p1 - i + run) as int) =~= s@.skip((p1 + run) as int));
    }
    let ghost mid = out@;
    let end = words_currency_at(s, p1 + run, &mut out);
    proof {
        assert(num_toks_view(out@) =~= match_section(t)->Some_0.0);
    }
    Some((out, end - i))
}

/// Unfolds one step of the section run: the optional semicolon, then the
/// section match, decide the run's head and tail.
proof fn lemma_sections_unfold(s: Seq<char>, i: int, rem: int)
    requires
        0 <= i <= s.len(),
        rem > 0,
    ensures
        ({
            let semi: int = if i < s.len() && s[i] == ';' { 1 } else { 0 };
            match match_section(s.skip(i + semi)) {
                Some((toks, n)) => {
                    if i + semi + n <= s.len() {
                        sections_from(s.skip(i), rem)
                            == (seq![toks] + sections_from(s.skip(i + semi + n), rem - 1).0,
                                (semi + n + sections_from(s.skip(i + semi + n), rem - 1).1)
                                    as nat)
                    } else {
                        sections_from(s.skip(i), rem) == (seq![toks], (semi + n) as nat)
                    }
                },
                None => sections_from(s.skip(i), rem)
                    == (Seq::<Seq<NumTok>>::empty(), 0 as nat),
            }
        }),
{
    let t = s.skip(i);
    let semi: int = if i < s.len() && s[i] == ';' { 1 } else { 0 };
    assert(t.len() == s.len() - i);
    if t.len() > 0 {
        assert(t[0] == s[i]);
    }
    assert(t.skip(semi) =~= s.skip(i + semi));
    match match_section(s.skip(i + semi)) {
        Some((toks, n)) => {
            if i + semi + n <= s.len() {
                assert(t.skip(semi + n) =~= s.skip(i + semi + n));
            }
        },
        None => {},
    }
}

/// Recognizes a numeric format string: up to four semicolon-separated
/// sections covering the whole input, or nothing. The grammar is parse
/// only — no rendering path consumes its output yet.
#[verifier::rlimit(100)]
pub fn parse_numeric_format(s: &str) -> (r: Option<Vec<Vec<NumericToken>>>)
    ensures
        match r {
            Some(v) => spec_numeric_sections(s@) == Some(sections_view(v@)),
            None => spec_numeric_sections(s@) is None,
        },
{
    let len = s.unicode_len();
    let mut out: Vec<Vec<NumericToken>> = Vec::new();
    let mut i: usize = 0;
    let mut taken: usize = 0;
    proof {
        assert(s@.skip(0) =~= s@);
        assert(sections_view(out@) =~= Seq::<Seq<NumTok>>::empty());
    }
    while taken < 4
        invariant
            0 <= i <= s@.len(),
            len == s@.len(),
            out@.len() == taken,
            taken <= 4,
            sections_from(s@, 4).0
                =~= sections_view(out@) + sections_from(s@.skip(i as int), 4 - taken).0,
            sections_from(s@, 4).1
                == i + sections_from(s@.skip(i as int), 4 - taken).1,
        decreases 4 - taken,
    {
        let semi: usize = if i < len && s.get_char(i) == ';' {
            1
        } else {
            0
        };
        proof {
            lemma_sections_unfold(s@, i as int, 4 - taken);
        }
        match match_section_at(s, i + semi) {
            Some((toks, n)) => {
                let ghost before = out@;
                out.push(toks);
                proof {
                    assert(sections_view(out@)
                        =~= sections_view(before) + seq![num_toks_view(toks@)]);
                    assert(sections_view(before) + (seq![num_toks_view(toks@)]
                            + sections_from(s@.skip((i + semi + n) as int),
                                            4 - (taken + 1)).0)
                        =~= sections_view(out@)
                            + sections_from(s@.skip((i + semi + n) as int),
                                            4 - (taken + 1)).0);
                }
                i = i + semi + n;
                taken = taken + 1;
            },
            None => {
                proof {
                    assert(sections_view(out@) + Seq::<Seq<NumTok>>::empty()
                        =~= sections_view(out@));
                }
                if taken >= 1 && i == len {
                    return Some(out);
                }
                return None;
            },
        }
    }
    proof {
        assert(sections_from(s@.skip(i as int), 0).0 =~= Seq::<Seq<NumTok>>::empty());
        assert(sections_view(out@) + Seq::<Seq<NumTok>>::empty() =~= sections_view(out@));
    }
    if i == len {
        Some(out)
    } else {
        None
    }
}

} // verus!
