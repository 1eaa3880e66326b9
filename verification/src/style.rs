//! A cell's display style: one format-spec string, the flat directive list
//! it tokenizes to, and the rendering of a stored instant through it,
//! including the era-calendar substitutions.

use crate::digits::{dec_int, dec_str, pad2, pad2_int, pad4};
use crate::digits::{i64_string, pad2_i64, pad2_u32, pad4_u32, u64_string};
use crate::era;
use crate::era::{era_abbreviation_of, era_name_of, era_short_name_of, era_year_of};
use crate::instant::{spec_weekday, weekday, Instant};
use crate::tokens::{spec_tokenize, tokenize, toks_view, DateToken, Tok};
use vstd::prelude::*;

verus! {

/// The strftime-equivalent fragment one token contributes to the flat
/// directive list: a `%`-directive, a deferred `{{...}}` placeholder, or
/// the literal text itself.
pub open spec fn frag_of(t: Tok) -> Seq<char> {
    match t {
        Tok::Year4 => seq!['%', 'Y'],
        Tok::Year2 => seq!['%', 'y'],
        Tok::Era1 => seq!['{', '{', 'e', 'r', 'a', '1', '}', '}'],
        Tok::Era2 => seq!['{', '{', 'e', 'r', 'a', '2', '}', '}'],
        Tok::Gengou1 => seq!['{', '{', 'g', 'e', 'n', 'g', 'o', 'u', '1', '}', '}'],
        Tok::Gengou2 => seq!['{', '{', 'g', 'e', 'n', 'g', 'o', 'u', '2', '}', '}'],
        Tok::Gengou3 => seq!['{', '{', 'g', 'e', 'n', 'g', 'o', 'u', '3', '}', '}'],
        Tok::Month1 => seq!['%', '-', 'm'],
        Tok::Month2 => seq!['%', 'm'],
        Tok::Month3 => seq!['%', 'b'],
        Tok::Month4 => seq!['%', 'B'],
        Tok::Month5 => seq!['{', '{', 'm', 'o', 'n', 't', 'h', '5', '}', '}'],
        Tok::Day1 => seq!['%', '-', 'd'],
        Tok::Day2 => seq!['%', 'd'],
        Tok::Dow3 => seq!['%', 'a'],
        Tok::Dow4 => seq!['%', 'A'],
        Tok::Youbi3 => seq!['{', '{', 'y', 'o', 'u', 'b', 'i', '3', '}', '}'],
        Tok::Youbi4 => seq!['{', '{', 'y', 'o', 'u', 'b', 'i', '4', '}', '}'],
        Tok::Hour1 => seq!['%', '-', 'H'],
        Tok::Hour2 => seq!['%', 'H'],
        Tok::Minute1 => seq!['%', '-', 'M'],
        Tok::Minute2 => seq!['%', 'M'],
        Tok::Second1 => seq!['%', '-', 'S'],
        Tok::Second2 => seq!['%', 'S'],
        Tok::Literal(l) => l,
    }
}

/// The fragments of a whole token sequence.
pub open spec fn frags_of(ts: Seq<Tok>) -> Seq<Seq<char>> {
    ts.map_values(|t: Tok| frag_of(t))
}

/// The English month-name abbreviation.
pub open spec fn month_abbr(m: int) -> Seq<char> {
    if m == 1 { seq!['J', 'a', 'n'] } else if m == 2 { seq!['F', 'e', 'b'] }
    else if m == 3 { seq!['M', 'a', 'r'] } else if m == 4 { seq!['A', 'p', 'r'] }
    else if m == 5 { seq!['M', 'a', 'y'] } else if m == 6 { seq!['J', 'u', 'n'] }
    else if m == 7 { seq!['J', 'u', 'l'] } else if m == 8 { seq!['A', 'u', 'g'] }
    else if m == 9 { seq!['S', 'e', 'p'] } else if m == 10 { seq!['O', 'c', 't'] }
    else if m == 11 { seq!['N', 'o', 'v'] } else { seq!['D', 'e', 'c'] }
}

/// The full English month name.
pub open spec fn month_name(m: int) -> Seq<char> {
    if m == 1 { seq!['J', 'a', 'n', 'u', 'a', 'r', 'y'] }
    else if m == 2 { seq!['F', 'e', 'b', 'r', 'u', 'a', 'r', 'y'] }
    else if m == 3 { seq!['M', 'a', 'r', 'c', 'h'] }
    else if m == 4 { seq!['A', 'p', 'r', 'i', 'l'] }
    else if m == 5 { seq!['M', 'a', 'y'] }
    else if m == 6 { seq!['J', 'u', 'n', 'e'] }
    else if m == 7 { seq!['J', 'u', 'l', 'y'] }
    else if m == 8 { seq!['A', 'u', 'g', 'u', 's', 't'] }
    else if m == 9 { seq!['S', 'e', 'p', 't', 'e', 'm', 'b', 'e', 'r'] }
    else if m == 10 { seq!['O', 'c', 't', 'o', 'b', 'e', 'r'] }
    else if m == 11 { seq!['N', 'o', 'v', 'e', 'm', 'b', 'e', 'r'] }
    else { seq!['D', 'e', 'c', 'e', 'm', 'b', 'e', 'r'] }
}

/// The English weekday-name abbreviation, 0 for Monday through 6 for
/// Sunday.
pub open spec fn weekday_abbr(w: int) -> Seq<char> {
    if w == 0 { seq!['M', 'o', 'n'] } else if w == 1 { seq!['T', 'u', 'e'] }
    else if w == 2 { seq!['W', 'e', 'd'] } else if w == 3 { seq!['T', 'h', 'u'] }
    else if w == 4 { seq!['F', 'r', 'i'] } else if w == 5 { seq!['S', 'a', 't'] }
    else { seq!['S', 'u', 'n'] }
}

/// The full English weekday name, 0 for Monday through 6 for Sunday.
pub open spec fn weekday_name(w: int) -> Seq<char> {
    if w == 0 { seq!['M', 'o', 'n', 'd', 'a', 'y'] }
    else if w == 1 { seq!['T', 'u', 'e', 's', 'd', 'a', 'y'] }
    else if w == 2 { seq!['W', 'e', 'd', 'n', 'e', 's', 'd', 'a', 'y'] }
    else if w == 3 { seq!['T', 'h', 'u', 'r', 's', 'd', 'a', 'y'] }
    else if w == 4 { seq!['F', 'r', 'i', 'd', 'a', 'y'] }
    else if w == 5 { seq!['S', 'a', 't', 'u', 'r', 'd', 'a', 'y'] }
    else { seq!['S', 'u', 'n', 'd', 'a', 'y'] }
}

/// What one token displays for an instant: the numeric directives read the
/// instant's fields, the era placeholders substitute the supplied era
/// values, the unresolved placeholders and literals pass through verbatim.
pub open spec fn render_tok(
    t: Tok,
    inst: Instant,
    era_year: int,
    abbr: Seq<char>,
    short_name: Seq<char>,
    full_name: Seq<char>,
) -> Seq<char> {
    match t {
        Tok::Year4 => pad4(inst.year as nat),
        Tok::Year2 => pad2((inst.year % 100) as nat),
        Tok::Era1 => dec_int(era_year),
        Tok::Era2 => pad2_int(era_year),
        Tok::Gengou1 => abbr,
        Tok::Gengou2 => short_name,
        Tok::Gengou3 => full_name,
        Tok::Month1 => dec_str(inst.month as nat),
        Tok::Month2 => pad2(inst.month as nat),
        Tok::Month3 => month_abbr(inst.month as int),
        Tok::Month4 => month_name(inst.month as int),
        Tok::Month5 => frag_of(t),
        Tok::Day1 => dec_str(inst.day as nat),
        Tok::Day2 => pad2(inst.day as nat),
        Tok::Dow3 => weekday_abbr(spec_weekday(inst)),
        Tok::Dow4 => weekday_name(spec_weekday(inst)),
        Tok::Youbi3 => frag_of(t),
        Tok::Youbi4 => frag_of(t),
        Tok::Hour1 => dec_str(inst.hour as nat),
        Tok::Hour2 => pad2(inst.hour as nat),
        Tok::Minute1 => dec_str(inst.minute as nat),
        Tok::Minute2 => pad2(inst.minute as nat),
        Tok::Second1 => dec_str(inst.second as nat),
        Tok::Second2 => pad2(inst.second as nat),
        Tok::Literal(l) => l,
    }
}

/// What a whole token sequence displays for an instant.
pub open spec fn render_toks(
    ts: Seq<Tok>,
    inst: Instant,
    era_year: int,
    abbr: Seq<char>,
    short_name: Seq<char>,
    full_name: Seq<char>,
) -> Seq<char>
    decreases ts.len(),
{
    if ts.len() == 0 {
        Seq::empty()
    } else {
        render_toks(ts.drop_last(), inst, era_year, abbr, short_name, full_name)
            + render_tok(ts.last(), inst, era_year, abbr, short_name, full_name)
    }
}

/// The strftime-equivalent fragment of one token.
pub fn frag_str(t: &DateToken) -> (r: String)
    ensures
        r@ == frag_of(t@),
{
    match t {
        DateToken::Year4 => { proof { reveal_strlit("%Y"); } let r = String::from_str("%Y");
            proof { assert(r@ =~= frag_of(t@)); } r },
        DateToken::Year2 => { proof { reveal_strlit("%y"); } let r = String::from_str("%y");
            proof { assert(r@ =~= frag_of(t@)); } r },
        DateToken::Era1 => { proof { reveal_strlit("{{era1}}"); }
            let r = String::from_str("{{era1}}");
            proof { assert(r@ =~= frag_of(t@)); } r },
        DateToken::Era2 => { proof { reveal_strlit("{{era2}}"); }
            let r = String::from_str("{{era2}}");
            proof { assert(r@ =~= frag_of(t@)); } r },
        DateToken::Gengou1 => { proof { reveal_strlit("{{gengou1}}"); }
            let r = String::from_str("{{gengou1}}");
            proof { assert(r@ =~= frag_of(t@)); } r },
        DateToken::Gengou2 => { proof { reveal_strlit("{{gengou2}}"); }
            let r = String::from_str("{{gengou2}}");
            proof { assert(r@ =~= frag_of(t@)); } r },
        DateToken::Gengou3 => { proof { reveal_strlit("{{gengou3}}"); }
            let r = String::from_str("{{gengou3}}");
            proof { assert(r@ =~= frag_of(t@)); } r },
        DateToken::Month1 => { proof { reveal_strlit("%-m"); } let r = String::from_str("%-m");
            proof { assert(r@ =~= frag_of(t@)); } r },
        DateToken::Month2 => { proof { reveal_strlit("%m"); } let r = String::from_str("%m");
            proof { assert(r@ =~= frag_of(t@)); } r },
        DateToken::Month3 => { proof { reveal_strlit("%b"); } let r = String::from_str("%b");
            proof { assert(r@ =~= frag_of(t@)); } r },
        DateToken::Month4 => { proof { reveal_strlit("%B"); } let r = String::from_str("%B");
            proof { assert(r@ =~= frag_of(t@)); } r },
        DateToken::Month5 => { proof { reveal_strlit("{{month5}}"); }
            let r = String::from_str("{{month5}}");
            proof { assert(r@ =~= frag_of(t@)); } r },
        DateToken::Day1 => { proof { reveal_strlit("%-d"); } let r = String::from_str("%-d");
            proof { assert(r@ =~= frag_of(t@)); } r },
        DateToken::Day2 => { proof { reveal_strlit("%d"); } let r = String::from_str("%d");
            proof { assert(r@ =~= frag_of(t@)); } r },
        DateToken::Dow3 => { proof { reveal_strlit("%a"); } let r = String::from_str("%a");
            proof { assert(r@ =~= frag_of(t@)); } r },
        DateToken::Dow4 => { proof { reveal_strlit("%A"); } let r = String::from_str("%A");
            proof { assert(r@ =~= frag_of(t@)); } r },
        DateToken::Youbi3 => { proof { reveal_strlit("{{youbi3}}"); }
            let r = String::from_str("{{youbi3}}");
            proof { assert(r@ =~= frag_of(t@)); } r },
        DateToken::Youbi4 => { proof { reveal_strlit("{{youbi4}}"); }
            let r = String::from_str("{{youbi4}}");
            proof { assert(r@ =~= frag_of(t@)); } r },
        DateToken::Hour1 => { proof { reveal_strlit("%-H"); } let r = String::from_str("%-H");
            proof { assert(r@ =~= frag_of(t@)); } r },
        DateToken::Hour2 => { proof { reveal_strlit("%H"); } let r = String::from_str("%H");
            proof { assert(r@ =~= frag_of(t@)); } r },
        DateToken::Minute1 => { proof { reveal_strlit("%-M"); } let r = String::from_str("%-M");
            proof { assert(r@ =~= frag_of(t@)); } r },
        DateToken::Minute2 => { proof { reveal_strlit("%M"); } let r = String::from_str("%M");
            proof { assert(r@ =~= frag_of(t@)); } r },
        DateToken::Second1 => { proof { reveal_strlit("%-S"); } let r = String::from_str("%-S");
            proof { assert(r@ =~= frag_of(t@)); } r },
        DateToken::Second2 => { proof { reveal_strlit("%S"); } let r = String::from_str("%S");
            proof { assert(r@ =~= frag_of(t@)); } r },
        DateToken::Literal(l) => l.clone(),
    }
}

/// The English month-name abbreviation.
fn month_abbr_str(m: u32) -> (r: String)
    requires
        1 <= m <= 12,
    ensures
        r@ == month_abbr(m as int),
{
    let r = match m {
        1 => String::from_str("Jan"), 2 => String::from_str("Feb"),
        3 => String::from_str("Mar"), 4 => String::from_str("Apr"),
        5 => String::from_str("May"), 6 => String::from_str("Jun"),
        7 => String::from_str("Jul"), 8 => String::from_str("Aug"),
        9 => String::from_str("Sep"), 10 => String::from_str("Oct"),
        11 => String::from_str("Nov"), _ => String::from_str("Dec"),
    };
    proof {
        reveal_strlit("Jan"); reveal_strlit("Feb"); reveal_strlit("Mar");
        reveal_strlit("Apr"); reveal_strlit("May"); reveal_strlit("Jun");
        reveal_strlit("Jul"); reveal_strlit("Aug"); reveal_strlit("Sep");
        reveal_strlit("Oct"); reveal_strlit("Nov"); reveal_strlit("Dec");
        assert(r@ =~= month_abbr(m as int));
    }
    r
}

/// The full English month name.
fn month_name_str(m: u32) -> (r: String)
    requires
        1 <= m <= 12,
    ensures
        r@ == month_name(m as int),
{
    let r = match m {
        1 => String::from_str("January"), 2 => String::from_str("February"),
        3 => String::from_str("March"), 4 => String::from_str("April"),
        5 => String::from_str("May"), 6 => String::from_str("June"),
        7 => String::from_str("July"), 8 => String::from_str("August"),
        9 => String::from_str("September"), 10 => String::from_str("October"),
        11 => String::from_str("November"), _ => String::from_str("December"),
    };
    proof {
        reveal_strlit("January"); reveal_strlit("February"); reveal_strlit("March");
        reveal_strlit("April"); reveal_strlit("May"); reveal_strlit("June");
        reveal_strlit("July"); reveal_strlit("August"); reveal_strlit("September");
        reveal_strlit("October"); reveal_strlit("November"); reveal_strlit("December");
        assert(r@ =~= month_name(m as int));
    }
    r
}

/// The English weekday-name abbreviation.
fn weekday_abbr_str(w: u32) -> (r: String)
    requires
        w < 7,
    ensures
        r@ == weekday_abbr(w as int),
{
    let r = match w {
        0 => String::from_str("Mon"), 1 => String::from_str("Tue"),
        2 => String::from_str("Wed"), 3 => String::from_str("Thu"),
        4 => String::from_str("Fri"), 5 => String::from_str("Sat"),
        _ => String::from_str("Sun"),
    };
    proof {
        reveal_strlit("Mon"); reveal_strlit("Tue"); reveal_strlit("Wed");
        reveal_strlit("Thu"); reveal_strlit("Fri"); reveal_strlit("Sat");
        reveal_strlit("Sun");
        assert(r@ =~= weekday_abbr(w as int));
    }
    r
}

/// The full English weekday name.
fn weekday_name_str(w: u32) -> (r: String)
    requires
        w < 7,
    ensures
        r@ == weekday_name(w as int),
{
    let r = match w {
        0 => String::from_str("Monday"), 1 => String::from_str("Tuesday"),
        2 => String::from_str("Wednesday"), 3 => String::from_str("Thursday"),
        4 => String::from_str("Friday"), 5 => String::from_str("Saturday"),
        _ => String::from_str("Sunday"),
    };
    proof {
        reveal_strlit("Monday"); reveal_strlit("Tuesday"); reveal_strlit("Wednesday");
        reveal_strlit("Thursday"); reveal_strlit("Friday"); reveal_strlit("Saturday");
        reveal_strlit("Sunday");
        assert(r@ =~= weekday_name(w as int));
    }
    r
}

/// What one token displays for an instant, with the era values supplied as
/// arguments.
fn render_token(
    t: &DateToken,
    inst: &Instant,
    era_year: i64,
    abbr: &str,
    short_name: &str,
    full_name: &str,
) -> (r: String)
    requires
        inst.is_valid(),
    ensures
        r@ == render_tok(t@, *inst, era_year as int, abbr@, short_name@, full_name@),
{
    match t {
        DateToken::Year4 => pad4_u32(inst.year),
        DateToken::Year2 => pad2_u32(inst.year % 100),
        DateToken::Era1 => i64_string(era_year),
        DateToken::Era2 => pad2_i64(era_year),
        DateToken::Gengou1 => String::from_str(abbr),
        DateToken::Gengou2 => String::from_str(short_name),
        DateToken::Gengou3 => String::from_str(full_name),
        DateToken::Month1 => u64_string(inst.month as u64),
        DateToken::Month2 => pad2_u32(inst.month),
        DateToken::Month3 => month_abbr_str(inst.month),
        DateToken::Month4 => month_name_str(inst.month),
        DateToken::Month5 => frag_str(t),
        DateToken::Day1 => u64_string(inst.day as u64),
        DateToken::Day2 => pad2_u32(inst.day),
        DateToken::Dow3 => weekday_abbr_str(weekday(inst)),
        DateToken::Dow4 => weekday_name_str(weekday(inst)),
        DateToken::Youbi3 => frag_str(t),
        DateToken::Youbi4 => frag_str(t),
        DateToken::Hour1 => u64_string(inst.hour as u64),
        DateToken::Hour2 => pad2_u32(inst.hour),
        DateToken::Minute1 => u64_string(inst.minute as u64),
        DateToken::Minute2 => pad2_u32(inst.minute),
        DateToken::Second1 => u64_string(inst.second as u64),
        DateToken::Second2 => pad2_u32(inst.second),
        DateToken::Literal(l) => l.clone(),
    }
}

/// What a whole token sequence displays for an instant, with the era
/// values supplied as arguments. This pins the rendering down for every
/// possible value of the era lookups.
pub fn render_tokens(
    toks: &Vec<DateToken>,
    inst: &Instant,
    era_year: i64,
    abbr: &str,
    short_name: &str,
    full_name: &str,
) -> (r: String)
    requires
        inst.is_valid(),
    ensures
        r@ == render_toks(toks_view(toks@), *inst, era_year as int,
                          abbr@, short_name@, full_name@),
{
    let ghost ts = toks_view(toks@);
    let mut out = String::new();
    let mut i: usize = 0;
    proof {
        assert(ts.take(0) =~= Seq::<Tok>::empty());
    }
    while i < toks.len()
        invariant
            inst.is_valid(),
            0 <= i <= toks.len(),
            ts == toks_view(toks@),
            ts.len() == toks.len(),
            out@ == render_toks(ts.take(i as int), *inst, era_year as int,
                                abbr@, short_name@, full_name@),
        decreases toks.len() - i,
    {
        let piece = render_token(&toks[i], inst, era_year, abbr, short_name, full_name);
        out.append(piece.as_str());
        proof {
            assert(ts.take(i + 1).drop_last() =~= ts.take(i as int));
            assert(ts.take(i + 1).last() == ts[i as int]);
            assert(ts[i as int] == toks@[i as int]@);
        }
        i = i + 1;
    }
    proof {
        assert(ts.take(toks.len() as int) =~= ts);
    }
    out
}

/// A display style: one format-spec string. An empty string means default,
/// unstyled display. The token sequence and the rendering are derived on
/// demand; nothing else is cached.
#[derive(Debug)]
pub struct Style {
    format: String,
}

impl View for Style {
    type V = Seq<char>;

    closed spec fn view(&self) -> Seq<char> {
        self.format@
    }
}

impl Clone for Style {
    /// Cloning a style keeps its format string.
    fn clone(&self) -> (r: Style)
        ensures
            r@ == self@,
    {
        Style { format: self.format.clone() }
    }
}

impl PartialEq for Style {
    /// Styles are equal when their format strings are.
    fn eq(&self, other: &Style) -> (r: bool)
        ensures
            r == (self@ == other@),
    {
        self.format == other.format
    }
}

impl vstd::std_specs::cmp::PartialEqSpecImpl for Style {
    open spec fn obeys_eq_spec() -> bool {
        true
    }

    open spec fn eq_spec(&self, other: &Style) -> bool {
        self@ == other@
    }
}

impl Style {
    /// Wraps a format-spec string as a style.
    pub fn new(format: &str) -> (r: Style)
        ensures
            r@ == format@,
    {
        Style { format: String::from_str(format) }
    }

    /// The format-spec string itself.
    pub fn get_format(&self) -> (r: &String)
        ensures
            r@ == self@,
    {
        &self.format
    }

    /// The flat resolved item list of the style's format string: one
    /// strftime-equivalent fragment per token, or `None` when the string
    /// does not tokenize.
    pub fn get_date_formats(&self) -> (r: Option<Vec<String>>)
        ensures
            match r {
                Some(v) => {
                    &&& spec_tokenize(self@) is Some
                    &&& v@.len() == spec_tokenize(self@)->Some_0.len()
                    &&& forall|i: int| 0 <= i < v@.len()
                        ==> #[trigger] v@[i]@ == frag_of(spec_tokenize(self@)->Some_0[i])
                },
                None => spec_tokenize(self@) is None,
            },
    {
        match tokenize(self.format.as_str()) {
            None => None,
            Some(toks) => {
                let ghost ts = toks_view(toks@);
                let mut out: Vec<String> = Vec::new();
                let mut i: usize = 0;
                while i < toks.len()
                    invariant
                        0 <= i <= toks.len(),
                        ts == toks_view(toks@),
                        ts.len() == toks.len(),
                        out@.len() == i,
                        forall|j: int| 0 <= j < i
                            ==> #[trigger] out@[j]@ == frag_of(ts[j]),
                    decreases toks.len() - i,
                {
                    let f = frag_str(&toks[i]);
                    out.push(f);
                    i = i + 1;
                }
                Some(out)
            },
        }
    }

    /// Renders a stored instant through the style: the format string's
    /// token sequence with every deferred placeholder resolved against the
    /// era calendar, or `None` when the format string does not tokenize.
    pub fn get_formated_date(&self, dt: &Instant) -> (r: Option<String>)
        requires
            dt.is_valid(),
        ensures
            match r {
                Some(out) => {
                    &&& spec_tokenize(self@) is Some
                    &&& out@ == render_toks(
                        spec_tokenize(self@)->Some_0,
                        *dt,
                        era_year_of(dt.year as int, dt.month as int, dt.day as int,
                                    dt.hour as int, dt.minute as int, dt.second as int),
                        era_abbreviation_of(dt.year as int, dt.month as int, dt.day as int,
                                            dt.hour as int, dt.minute as int, dt.second as int),
                        era_short_name_of(dt.year as int, dt.month as int, dt.day as int,
                                          dt.hour as int, dt.minute as int, dt.second as int),
                        era_name_of(dt.year as int, dt.month as int, dt.day as int,
                                    dt.hour as int, dt.minute as int, dt.second as int),
                    )
                },
                None => spec_tokenize(self@) is None,
            },
    {
        match tokenize(self.format.as_str()) {
            None => None,
            Some(toks) => {
                let ey = era::era_year(dt);
                let abbr = era::era_abbreviation(dt);
                let short_name = era::era_short_name(dt);
                let full_name = era::era_name(dt);
                Some(render_tokens(&toks, dt, ey, abbr.as_str(),
                                   short_name.as_str(), full_name.as_str()))
            },
        }
    }
}

} // verus!
