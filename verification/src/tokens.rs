//! The date-format grammar: a format-spec string is consumed left to right
//! into an ordered sequence of output items — formatting directives,
//! deferred locale placeholders, and literal text.
//!
//! At each position the alternatives are tried in a fixed priority order,
//! first match wins: an hour-separator-minute group, a minute-separator-
//! second group, a lone second, a lone hour, a year-family token, a
//! month-family token, a day-family token, and last a literal word (a
//! quoted run, an escaped character, or a bare `/`, `:` or space). Within
//! each family the longest variant is tried first, and the lowercase and
//! uppercase spellings are equivalent. A string whose remainder matches no
//! alternative has no token sequence at all.

use vstd::prelude::*;

verus! {

/// One output item of the grammar.
#[derive(Debug, Clone, PartialEq, Eq)]
pub enum DateToken {
    /// Four-digit year (`YYYY`).
    Year4,
    /// Two-digit year (`YY`).
    Year2,
    /// Era-relative year, unpadded (`E`).
    Era1,
    /// Era-relative year, zero-padded to two digits (`EE`).
    Era2,
    /// Era abbreviation letter (`G`).
    Gengou1,
    /// Era short name (`GG`).
    Gengou2,
    /// Era full name (`GGG`).
    Gengou3,
    /// Month number, unpadded (`M`).
    Month1,
    /// Month number, two digits (`MM`).
    Month2,
    /// Month name abbreviation (`MMM`).
    Month3,
    /// Month full name (`MMMM`).
    Month4,
    /// Five-letter month placeholder (`MMMMM`), passed through.
    Month5,
    /// Day of month, unpadded (`D`).
    Day1,
    /// Day of month, two digits (`DD`).
    Day2,
    /// Weekday name abbreviation (`DDD`).
    Dow3,
    /// Weekday full name (`DDDD`).
    Dow4,
    /// Short Japanese weekday placeholder (`AAA`), passed through.
    Youbi3,
    /// Long Japanese weekday placeholder (`AAAA`), passed through.
    Youbi4,
    /// Hour, unpadded (`H`).
    Hour1,
    /// Hour, two digits (`HH`).
    Hour2,
    /// Minute, unpadded (`M` next to an hour or second).
    Minute1,
    /// Minute, two digits (`MM` next to an hour or second).
    Minute2,
    /// Second, unpadded (`S`).
    Second1,
    /// Second, two digits (`SS`).
    Second2,
    /// Literal text, passed through verbatim.
    Literal(String),
}

/// The mathematical model of one output item; literal text is a character
/// sequence.
pub enum Tok {
    Year4,
    Year2,
    Era1,
    Era2,
    Gengou1,
    Gengou2,
    Gengou3,
    Month1,
    Month2,
    Month3,
    Month4,
    Month5,
    Day1,
    Day2,
    Dow3,
    Dow4,
    Youbi3,
    Youbi4,
    Hour1,
    Hour2,
    Minute1,
    Minute2,
    Second1,
    Second2,
    Literal(Seq<char>),
}

impl View for DateToken {
    type V = Tok;

    open spec fn view(&self) -> Tok {
        match self {
            DateToken::Year4 => Tok::Year4,
            DateToken::Year2 => Tok::Year2,
            DateToken::Era1 => Tok::Era1,
            DateToken::Era2 => Tok::Era2,
            DateToken::Gengou1 => Tok::Gengou1,
            DateToken::Gengou2 => Tok::Gengou2,
            DateToken::Gengou3 => Tok::Gengou3,
            DateToken::Month1 => Tok::Month1,
            DateToken::Month2 => Tok::Month2,
            DateToken::Month3 => Tok::Month3,
            DateToken::Month4 => Tok::Month4,
            DateToken::Month5 => Tok::Month5,
            DateToken::Day1 => Tok::Day1,
            DateToken::Day2 => Tok::Day2,
            DateToken::Dow3 => Tok::Dow3,
            DateToken::Dow4 => Tok::Dow4,
            DateToken::Youbi3 => Tok::Youbi3,
            DateToken::Youbi4 => Tok::Youbi4,
            DateToken::Hour1 => Tok::Hour1,
            DateToken::Hour2 => Tok::Hour2,
            DateToken::Minute1 => Tok::Minute1,
            DateToken::Minute2 => Tok::Minute2,
            DateToken::Second1 => Tok::Second1,
            DateToken::Second2 => Tok::Second2,
            DateToken::Literal(s) => Tok::Literal(s@),
        }
    }
}

/// The models of a sequence of output items.
pub open spec fn toks_view(ts: Seq<DateToken>) -> Seq<Tok> {
    ts.map_values(|t: DateToken| t@)
}

/// How many copies of `c` the sequence starts with.
pub open spec fn run_len(s: Seq<char>, c: char) -> nat
    decreases s.len(),
{
    if s.len() == 0 || s[0] != c {
        0
    } else {
        1 + run_len(s.skip(1), c)
    }
}

/// The length of a run is read off the characters themselves.
proof fn lemma_run_len_is(s: Seq<char>, c: char, r: int)
    requires
        0 <= r <= s.len(),
        forall|k: int| 0 <= k < r ==> s[k] == c,
        r == s.len() || s[r] != c,
    ensures
        run_len(s, c) == r,
    decreases s.len(),
{
    if r == 0 {
    } else {
        assert(s[0] == c);
        lemma_run_len_is(s.skip(1), c, r - 1);
    }
}

/// The run of one character, counted from position `i`.
fn run_from(s: &str, i: usize, c: char) -> (r: usize)
    requires
        i <= s@.len(),
    ensures
        r == run_len(s@.skip(i as int), c),
        i + r <= s@.len(),
{
    let len = s.unicode_len();
    let mut j = i;
    loop
        invariant
            i <= j <= len,
            len == s@.len(),
            forall|k: int| i <= k < j ==> s@[k] == c,
        ensures
            i <= j <= len,
            forall|k: int| i <= k < j ==> s@[k] == c,
            j == len || s@[j as int] != c,
        decreases len - j,
    {
        if j == len {
            break;
        }
        let ch = s.get_char(j);
        if ch != c {
            break;
        }
        j = j + 1;
    }
    proof {
        let t = s@.skip(i as int);
        assert(forall|k: int| 0 <= k < j - i ==> t[k] == s@[i + k] && s@[i + k] == c);
        lemma_run_len_is(t, c, j - i);
    }
    j - i
}

/// The run of either spelling of one letter: only one of the two runs can
/// be nonzero.
pub open spec fn ci_run(s: Seq<char>, lo: char, up: char) -> nat {
    run_len(s, lo) + run_len(s, up)
}

/// The case-insensitive run of a letter, counted from position `i`.
fn ci_run_from(s: &str, i: usize, lo: char, up: char) -> (r: usize)
    requires
        i <= s@.len(),
        lo != up,
    ensures
        r == ci_run(s@.skip(i as int), lo, up),
        i + r <= s@.len(),
{
    let rl = run_from(s, i, lo);
    if rl > 0 {
        proof {
            assert(s@.skip(i as int)[0] == lo);
            assert(run_len(s@.skip(i as int), up) == 0);
        }
        rl
    } else {
        run_from(s, i, up)
    }
}

/// The year-family token at the front: four- or two-digit years, then era
/// numerals, then era names, longest spelling first.
pub open spec fn match_year(s: Seq<char>) -> Option<(Tok, nat)> {
    let ry = ci_run(s, 'y', 'Y');
    let re = ci_run(s, 'e', 'E');
    let rg = ci_run(s, 'g', 'G');
    if ry >= 4 {
        Some((Tok::Year4, 4 as nat))
    } else if ry >= 2 {
        Some((Tok::Year2, 2 as nat))
    } else if re >= 2 {
        Some((Tok::Era2, 2 as nat))
    } else if re >= 1 {
        Some((Tok::Era1, 1 as nat))
    } else if rg >= 3 {
        Some((Tok::Gengou3, 3 as nat))
    } else if rg >= 2 {
        Some((Tok::Gengou2, 2 as nat))
    } else if rg >= 1 {
        Some((Tok::Gengou1, 1 as nat))
    } else {
        None
    }
}

/// The month-family token at the front, longest spelling first.
pub open spec fn match_month(s: Seq<char>) -> Option<(Tok, nat)> {
    let rm = ci_run(s, 'm', 'M');
    if rm >= 5 {
        Some((Tok::Month5, 5 as nat))
    } else if rm >= 4 {
        Some((Tok::Month4, 4 as nat))
    } else if rm >= 3 {
        Some((Tok::Month3, 3 as nat))
    } else if rm >= 2 {
        Some((Tok::Month2, 2 as nat))
    } else if rm >= 1 {
        Some((Tok::Month1, 1 as nat))
    } else {
        None
    }
}

/// The day-family token at the front: weekday placeholders, then weekday
/// names, then day-of-month, longest spelling first.
pub open spec fn match_day(s: Seq<char>) -> Option<(Tok, nat)> {
    let ra = ci_run(s, 'a', 'A');
    let rd = ci_run(s, 'd', 'D');
    if ra >= 4 {
        Some((Tok::Youbi4, 4 as nat))
    } else if ra >= 3 {
        Some((Tok::Youbi3, 3 as nat))
    } else if rd >= 4 {
        Some((Tok::Dow4, 4 as nat))
    } else if rd >= 3 {
        Some((Tok::Dow3, 3 as nat))
    } else if rd >= 2 {
        Some((Tok::Day2, 2 as nat))
    } else if rd >= 1 {
        Some((Tok::Day1, 1 as nat))
    } else {
        None
    }
}

/// The hour token at the front, two digits before one.
pub open spec fn match_hour(s: Seq<char>) -> Option<(Tok, nat)> {
    let rh = ci_run(s, 'h', 'H');
    if rh >= 2 {
        Some((Tok::Hour2, 2 as nat))
    } else if rh >= 1 {
        Some((Tok::Hour1, 1 as nat))
    } else {
        None
    }
}

/// The minute token at the front, two digits before one.
pub open spec fn match_minute(s: Seq<char>) -> Option<(Tok, nat)> {
    let rm = ci_run(s, 'm', 'M');
    if rm >= 2 {
        Some((Tok::Minute2, 2 as nat))
    } else if rm >= 1 {
        Some((Tok::Minute1, 1 as nat))
    } else {
        None
    }
}

/// The second token at the front, two digits before one.
pub open spec fn match_second(s: Seq<char>) -> Option<(Tok, nat)> {
    let rs = ci_run(s, 's', 'S');
    if rs >= 2 {
        Some((Tok::Second2, 2 as nat))
    } else if rs >= 1 {
        Some((Tok::Second1, 1 as nat))
    } else {
        None
    }
}

/// The position of the first occurrence of `c`.
pub open spec fn find_idx(s: Seq<char>, c: char) -> Option<int>
    decreases s.len(),
{
    if s.len() == 0 {
        None
    } else if s[0] == c {
        Some(0)
    } else {
        match find_idx(s.skip(1), c) {
            Some(j) => Some(j + 1),
            None => None,
        }
    }
}

/// Where the first occurrence is, read off the characters themselves.
pub proof fn lemma_find_idx_is(s: Seq<char>, c: char, r: int)
    requires
        0 <= r <= s.len(),
        forall|k: int| 0 <= k < r ==> s[k] != c,
        r == s.len() || s[r] == c,
    ensures
        r == s.len() ==> find_idx(s, c) is None,
        r < s.len() ==> find_idx(s, c) == Some(r),
    decreases s.len(),
{
    if s.len() == 0 {
    } else if r == 0 {
    } else {
        lemma_find_idx_is(s.skip(1), c, r - 1);
    }
}

/// The literal word at the front: a quoted run, an escaped character, or a
/// bare separator (`/`, `:` or space).
pub open spec fn match_word(s: Seq<char>) -> Option<(Tok, nat)> {
    if s.len() == 0 {
        None
    } else if s[0] == '"' {
        match find_idx(s.skip(1), '"') {
            Some(j) => Some((Tok::Literal(s.subrange(1, 1 + j)), (j + 2) as nat)),
            None => None,
        }
    } else if s[0] == '\\' {
        if s.len() >= 2 {
            Some((Tok::Literal(s.subrange(1, 2)), 2 as nat))
        } else {
            None
        }
    } else if s[0] == '/' || s[0] == ':' || s[0] == ' ' {
        Some((Tok::Literal(s.subrange(0, 1)), 1 as nat))
    } else {
        None
    }
}

/// An hour, an optional separator word, and a minute, which binds a bare
/// `M` next to an hour to minutes rather than months. Once a separator
/// word is taken it is never given back.
pub open spec fn try_hm(s: Seq<char>) -> Option<(Seq<Tok>, nat)> {
    match match_hour(s) {
        None => None,
        Some((h, nh)) => match match_word(s.skip(nh as int)) {
            Some((w, nw)) => match match_minute(s.skip((nh + nw) as int)) {
                Some((m, nm)) => Some((seq![h, w, m], (nh + nw + nm) as nat)),
                None => None,
            },
            None => match match_minute(s.skip(nh as int)) {
                Some((m, nm)) => Some((seq![h, m], (nh + nm) as nat)),
                None => None,
            },
        },
    }
}

/// A minute, an optional separator word, and a second, which binds a bare
/// `M` next to a second to minutes rather than months.
pub open spec fn try_ms(s: Seq<char>) -> Option<(Seq<Tok>, nat)> {
    match match_minute(s) {
        None => None,
        Some((m, nm)) => match match_word(s.skip(nm as int)) {
            Some((w, nw)) => match match_second(s.skip((nm + nw) as int)) {
                Some((sec, ns)) => Some((seq![m, w, sec], (nm + nw + ns) as nat)),
                None => None,
            },
            None => match match_second(s.skip(nm as int)) {
                Some((sec, ns)) => Some((seq![m, sec], (nm + ns) as nat)),
                None => None,
            },
        },
    }
}

/// The items the next match takes from the front of the string, trying the
/// alternatives in the grammar's fixed priority order.
pub open spec fn next_tokens(s: Seq<char>) -> Option<(Seq<Tok>, nat)> {
    if try_hm(s) is Some {
        try_hm(s)
    } else if try_ms(s) is Some {
        try_ms(s)
    } else if match_second(s) is Some {
        match match_second(s) {
            Some((t, n)) => Some((seq![t], n)),
            None => None,
        }
    } else if match_hour(s) is Some {
        match match_hour(s) {
            Some((t, n)) => Some((seq![t], n)),
            None => None,
        }
    } else if match_year(s) is Some {
        match match_year(s) {
            Some((t, n)) => Some((seq![t], n)),
            None => None,
        }
    } else if match_month(s) is Some {
        match match_month(s) {
            Some((t, n)) => Some((seq![t], n)),
            None => None,
        }
    } else if match_day(s) is Some {
        match match_day(s) {
            Some((t, n)) => Some((seq![t], n)),
            None => None,
        }
    } else if match_word(s) is Some {
        match match_word(s) {
            Some((t, n)) => Some((seq![t], n)),
            None => None,
        }
    } else {
        None
    }
}

/// The whole token sequence of a format-spec string: the longest sequence
/// of matches covering the whole input, or nothing when some remainder
/// matches no alternative.
pub open spec fn spec_tokenize(s: Seq<char>) -> Option<Seq<Tok>>
    decreases s.len(),
{
    if s.len() == 0 {
        Some(Seq::empty())
    } else {
        match next_tokens(s) {
            None => None,
            Some((ts, n)) => {
                if 1 <= n <= s.len() {
                    match spec_tokenize(s.skip(n as int)) {
                        Some(rest) => Some(ts + rest),
                        None => None,
                    }
                } else {
                    None
                }
            },
        }
    }
}

/// The year-family token at position `i`.
fn match_year_at(s: &str, i: usize) -> (r: Option<(DateToken, usize)>)
    requires
        i <= s@.len(),
    ensures
        match r {
            Some(p) => match_year(s@.skip(i as int)) == Some((p.0@, p.1 as nat))
                && 1 <= p.1 && i + p.1 <= s@.len(),
            None => match_year(s@.skip(i as int)) is None,
        },
{
    let ry = ci_run_from(s, i, 'y', 'Y');
    if ry >= 4 {
        return Some((DateToken::Year4, 4));
    }
    if ry >= 2 {
        return Some((DateToken::Year2, 2));
    }
    let re = ci_run_from(s, i, 'e', 'E');
    if re >= 2 {
        return Some((DateToken::Era2, 2));
    }
    if re >= 1 {
        return Some((DateToken::Era1, 1));
    }
    let rg = ci_run_from(s, i, 'g', 'G');
    if rg >= 3 {
        return Some((DateToken::Gengou3, 3));
    }
    if rg >= 2 {
        return Some((DateToken::Gengou2, 2));
    }
    if rg >= 1 {
        return Some((DateToken::Gengou1, 1));
    }
    None
}

/// The month-family token at position `i`.
fn match_month_at(s: &str, i: usize) -> (r: Option<(DateToken, usize)>)
    requires
        i <= s@.len(),
    ensures
        match r {
            Some(p) => match_month(s@.skip(i as int)) == Some((p.0@, p.1 as nat))
                && 1 <= p.1 && i + p.1 <= s@.len(),
            None => match_month(s@.skip(i as int)) is None,
        },
{
    let rm = ci_run_from(s, i, 'm', 'M');
    if rm >= 5 {
        Some((DateToken::Month5, 5))
    } else if rm >= 4 {
        Some((DateToken::Month4, 4))
    } else if rm >= 3 {
        Some((DateToken::Month3, 3))
    } else if rm >= 2 {
        Some((DateToken::Month2, 2))
    } else if rm >= 1 {
        Some((DateToken::Month1, 1))
    } else {
        None
    }
}

/// The day-family token at position `i`.
fn match_day_at(s: &str, i: usize) -> (r: Option<(DateToken, usize)>)
    requires
        i <= s@.len(),
    ensures
        match r {
            Some(p) => match_day(s@.skip(i as int)) == Some((p.0@, p.1 as nat))
                && 1 <= p.1 && i + p.1 <= s@.len(),
            None => match_day(s@.skip(i as int)) is None,
        },
{
    let ra = ci_run_from(s, i, 'a', 'A');
    if ra >= 4 {
        return Some((DateToken::Youbi4, 4));
    }
    if ra >= 3 {
        return Some((DateToken::Youbi3, 3));
    }
    let rd = ci_run_from(s, i, 'd', 'D');
    if rd >= 4 {
        Some((DateToken::Dow4, 4))
    } else if rd >= 3 {
        Some((DateToken::Dow3, 3))
    } else if rd >= 2 {
        Some((DateToken::Day2, 2))
    } else if rd >= 1 {
        Some((DateToken::Day1, 1))
    } else {
        None
    }
}

/// The hour token at position `i`.
fn match_hour_at(s: &str, i: usize) -> (r: Option<(DateToken, usize)>)
    requires
        i <= s@.len(),
    ensures
        match r {
            Some(p) => match_hour(s@.skip(i as int)) == Some((p.0@, p.1 as nat))
                && 1 <= p.1 && i + p.1 <= s@.len(),
            None => match_hour(s@.skip(i as int)) is None,
        },
{
    let rh = ci_run_from(s, i, 'h', 'H');
    if rh >= 2 {
        Some((DateToken::Hour2, 2))
    } else if rh >= 1 {
        Some((DateToken::Hour1, 1))
    } else {
        None
    }
}

/// The minute token at position `i`.
fn match_minute_at(s: &str, i: usize) -> (r: Option<(DateToken, usize)>)
    requires
        i <= s@.len(),
    ensures
        match r {
            Some(p) => match_minute(s@.skip(i as int)) == Some((p.0@, p.1 as nat))
                && 1 <= p.1 && i + p.1 <= s@.len(),
            None => match_minute(s@.skip(i as int)) is None,
        },
{
    let rm = ci_run_from(s, i, 'm', 'M');
    if rm >= 2 {
        Some((DateToken::Minute2, 2))
    } else if rm >= 1 {
        Some((DateToken::Minute1, 1))
    } else {
        None
    }
}

/// The second token at position `i`.
fn match_second_at(s: &str, i: usize) -> (r: Option<(DateToken, usize)>)
    requires
        i <= s@.len(),
    ensures
        match r {
            Some(p) => match_second(s@.skip(i as int)) == Some((p.0@, p.1 as nat))
                && 1 <= p.1 && i + p.1 <= s@.len(),
            None => match_second(s@.skip(i as int)) is None,
        },
{
    let rs = ci_run_from(s, i, 's', 'S');
    if rs >= 2 {
        Some((DateToken::Second2, 2))
    } else if rs >= 1 {
        Some((DateToken::Second1, 1))
    } else {
        None
    }
}

/// The literal word at position `i`.
pub fn match_word_at(s: &str, i: usize) -> (r: Option<(DateToken, usize)>)
    requires
        i <= s@.len(),
    ensures
        match r {
            Some(p) => match_word(s@.skip(i as int)) == Some((p.0@, p.1 as nat))
                && 1 <= p.1 && i + p.1 <= s@.len(),
            None => match_word(s@.skip(i as int)) is None,
        },
{
    let len = s.unicode_len();
    let ghost t = s@.skip(i as int);
    if i == len {
        return None;
    }
    let c0 = s.get_char(i);
    proof {
        assert(t[0] == c0);
    }
    if c0 == '"' {
        // A quoted run: find the closing quote.
        let mut j = i + 1;
        loop
            invariant
                i + 1 <= j <= len,
                len == s@.len(),
                forall|k: int| i + 1 <= k < j ==> s@[k] != '"',
            ensures
                i + 1 <= j <= len,
                forall|k: int| i + 1 <= k < j ==> s@[k] != '"',
                j == len || s@[j as int] == '"',
            decreases len - j,
        {
            if j == len {
                break;
            }
            if s.get_char(j) != '"' {
                j = j + 1;
            } else {
                break;
            }
        }
        proof {
            let t1 = t.skip(1);
            assert(forall|k: int| 0 <= k < j - (i + 1)
                ==> t1[k] == s@[i + 1 + k] && s@[i + 1 + k] != '"');
            lemma_find_idx_is(t1, '"', j - (i + 1));
        }
        if j == len {
            return None;
        }
        let inner = s.substring_char(i + 1, j);
        let lit = DateToken::Literal(String::from_str(inner));
        proof {
            let fj = j - (i + 1);
            assert(inner@ =~= t.subrange(1, 1 + fj));
        }
        return Some((lit, j + 1 - i));
    }
    if c0 == '\\' {
        if i + 1 < len {
            let inner = s.substring_char(i + 1, i + 2);
            let lit = DateToken::Literal(String::from_str(inner));
            proof {
                assert(inner@ =~= t.subrange(1, 2));
            }
            return Some((lit, 2));
        } else {
            return None;
        }
    }
    if c0 == '/' || c0 == ':' || c0 == ' ' {
        let inner = s.substring_char(i, i + 1);
        let lit = DateToken::Literal(String::from_str(inner));
        proof {
            assert(inner@ =~= t.subrange(0, 1));
        }
        return Some((lit, 1));
    }
    None
}

/// The items the next match takes at position `i`, in the grammar's
/// priority order.
#[verifier::rlimit(100)]
fn next_tokens_at(s: &str, i: usize) -> (r: Option<(Vec<DateToken>, usize)>)
    requires
        i <= s@.len(),
    ensures
        match r {
            Some(p) => next_tokens(s@.skip(i as int)) == Some((toks_view(p.0@), p.1 as nat))
                && 1 <= p.1 && i + p.1 <= s@.len(),
            None => next_tokens(s@.skip(i as int)) is None,
        },
{
    let len = s.unicode_len();
    let ghost t = s@.skip(i as int);

    // An hour, an optional separator, and a minute.
    if let Some((h, nh)) = match_hour_at(s, i) {
        proof {
            assert(s@.skip(i as int).skip(nh as int) =~= s@.skip(i + nh as int));
        }
        if let Some((w, nw)) = match_word_at(s, i + nh) {
            proof {
                assert(s@.skip((i + nh) as int).skip(nw as int)
                    =~= s@.skip((i + nh + nw) as int));
            }
            if let Some((m, nm)) = match_minute_at(s, i + nh + nw) {
                let n = nh + nw + nm;
                let toks = vec![h, w, m];
                proof {
                    assert(t.skip((nh + nw) as int) =~= s@.skip(((i + nh) + nw) as int));
                    assert(toks@ =~= seq![h, w, m]);
                    assert(toks_view(toks@) =~= seq![h@, w@, m@]);
                    assert(try_hm(t) == Some((toks_view(toks@), n as nat)));
                }
                return Some((toks, n));
            }
        } else {
            if let Some((m, nm)) = match_minute_at(s, i + nh) {
                let n = nh + nm;
                let toks = vec![h, m];
                proof {
                    assert(toks@ =~= seq![h, m]);
                    assert(toks_view(toks@) =~= seq![h@, m@]);
                    assert(try_hm(t) == Some((toks_view(toks@), n as nat)));
                }
                return Some((toks, n));
            }
        }
    }
    proof {
        assert(try_hm(t) is None);
    }

    // A minute, an optional separator, and a second.
    if let Some((m, nm)) = match_minute_at(s, i) {
        proof {
            assert(s@.skip(i as int).skip(nm as int) =~= s@.skip(i + nm as int));
        }
        if let Some((w, nw)) = match_word_at(s, i + nm) {
            proof {
                assert(s@.skip((i + nm) as int).skip(nw as int)
                    =~= s@.skip((i + nm + nw) as int));
            }
            if let Some((sec, ns)) = match_second_at(s, i + nm + nw) {
                let n = nm + nw + ns;
                let toks = vec![m, w, sec];
                proof {
                    assert(t.skip((nm + nw) as int) =~= s@.skip(((i + nm) + nw) as int));
                    assert(toks@ =~= seq![m, w, sec]);
                    assert(toks_view(toks@) =~= seq![m@, w@, sec@]);
                    assert(try_ms(t) == Some((toks_view(toks@), n as nat)));
                }
                return Some((toks, n));
            }
        } else {
            if let Some((sec, ns)) = match_second_at(s, i + nm) {
                let n = nm + ns;
                let toks = vec![m, sec];
                proof {
                    assert(toks@ =~= seq![m, sec]);
                    assert(toks_view(toks@) =~= seq![m@, sec@]);
                    assert(try_ms(t) == Some((toks_view(toks@), n as nat)));
                }
                return Some((toks, n));
            }
        }
    }
    proof {
        assert(try_ms(t) is None);
    }

    if let Some((tok, n)) = match_second_at(s, i) {
        let toks = vec![tok];
        proof {
            assert(toks@ =~= seq![tok]);
            assert(toks_view(toks@) =~= seq![tok@]);
        }
        return Some((toks, n));
    }
    if let Some((tok, n)) = match_hour_at(s, i) {
        let toks = vec![tok];
        proof {
            assert(toks@ =~= seq![tok]);
            assert(toks_view(toks@) =~= seq![tok@]);
        }
        return Some((toks, n));
    }
    if let Some((tok, n)) = match_year_at(s, i) {
        let toks = vec![tok];
        proof {
            assert(toks@ =~= seq![tok]);
            assert(toks_view(toks@) =~= seq![tok@]);
        }
        return Some((toks, n));
    }
    if let Some((tok, n)) = match_month_at(s, i) {
        let toks = vec![tok];
        proof {
            assert(toks@ =~= seq![tok]);
            assert(toks_view(toks@) =~= seq![tok@]);
        }
        return Some((toks, n));
    }
    if let Some((tok, n)) = match_day_at(s, i) {
        let toks = vec![tok];
        proof {
            assert(toks@ =~= seq![tok]);
            assert(toks_view(toks@) =~= seq![tok@]);
        }
        return Some((toks, n));
    }
    if let Some((tok, n)) = match_word_at(s, i) {
        let toks = vec![tok];
        proof {
            assert(toks@ =~= seq![tok]);
            assert(toks_view(toks@) =~= seq![tok@]);
        }
        return Some((toks, n));
    }
    None
}

/// Tokenizes a format-spec string: the ordered item sequence covering the
/// whole input, or `None` when some remainder matches no alternative.
#[verifier::rlimit(100)]
pub fn tokenize(s: &str) -> (r: Option<Vec<DateToken>>)
    ensures
        match r {
            Some(v) => spec_tokenize(s@) == Some(toks_view(v@)),
            None => spec_tokenize(s@) is None,
        },
{
    let len = s.unicode_len();
    let mut acc: Vec<DateToken> = Vec::new();
    let mut i: usize = 0;
    proof {
        assert(toks_view(acc@) =~= Seq::<Tok>::empty());
        assert(s@.skip(0) =~= s@);
    }
    while i < len
        invariant
            0 <= i <= len,
            len == s@.len(),
            match spec_tokenize(s@.skip(i as int)) {
                Some(rest) => spec_tokenize(s@) == Some(toks_view(acc@) + rest),
                None => spec_tokenize(s@) is None,
            },
        decreases len - i,
    {
        match next_tokens_at(s, i) {
            None => {
                proof {
                    assert(spec_tokenize(s@.skip(i as int)) is None);
                }
                return None;
            },
            Some((mut toks, n)) => {
                let ghost old_acc = acc@;
                let ghost tail = s@.skip(i as int);
                proof {
                    assert(tail.skip(n as int) =~= s@.skip((i + n) as int));
                }
                acc.append(&mut toks);
                proof {
                    assert(toks_view(acc@) =~= toks_view(old_acc) + next_tokens(tail)->Some_0.0);
                    match spec_tokenize(s@.skip((i + n) as int)) {
                        Some(rest2) => {
                            assert(spec_tokenize(tail)
                                == Some(next_tokens(tail)->Some_0.0 + rest2));
                            assert(toks_view(old_acc) + (next_tokens(tail)->Some_0.0 + rest2)
                                =~= toks_view(acc@) + rest2);
                        },
                        None => {
                            assert(spec_tokenize(tail) is None);
                        },
                    }
                }
                i = i + n;
            },
        }
    }
    proof {
        assert(s@.skip(len as int) =~= Seq::<char>::empty());
        assert(spec_tokenize(s@.skip(i as int)) == Some(Seq::<Tok>::empty()));
        assert(toks_view(acc@) + Seq::<Tok>::empty() =~= toks_view(acc@));
    }
    Some(acc)
}

} // verus!
