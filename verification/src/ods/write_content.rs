//! Building the content part's records: each sheet becomes a run of rows,
//! each row a run of cell records with empty-cell repeats standing for the
//! gaps, and each distinct date format becomes one named date style whose
//! element sequence re-expresses the format's token list.

use crate::digits::{dec_str, u64_string, pad2, pad2_u32, pad4, pad4_u32};
use crate::era::{era_abbreviation_of, era_name_of, era_short_name_of, era_year_of};
use crate::instant::{parse_date_source, Instant};
use crate::markup::{string_eq, MarkupEvent};
use crate::model::{Book, Cell, CellModel, EntryModel, Sheet, SheetModel, Value, ValueModel};
use crate::ods::{elems_view, OdsDateElement, OdsElem};
use crate::style::{frag_of, frag_str, render_toks, Style};
use crate::tokens::{spec_tokenize, tokenize, toks_view, DateToken, Tok};
use crate::xlsx::write_styles::{date_formats_of, make_num_fmts, strs_view};
use vstd::pervasive::unreached;
use vstd::prelude::*;

verus! {

/// The date-style element one strftime-equivalent fragment maps to: the
/// numeric directives become their native elements with a long or short
/// style, everything else becomes literal text.
pub open spec fn elem_of_frag(f: Seq<char>) -> OdsElem {
    if f == seq!['%', 'Y'] {
        OdsElem::Year { long: true, gengou: false }
    } else if f == seq!['%', 'y'] {
        OdsElem::Year { long: false, gengou: false }
    } else if f == seq!['%', 'm'] {
        OdsElem::Month { long: true }
    } else if f == seq!['%', '-', 'm'] {
        OdsElem::Month { long: false }
    } else if f == seq!['%', 'd'] {
        OdsElem::Day { long: true }
    } else if f == seq!['%', '-', 'd'] {
        OdsElem::Day { long: false }
    } else if f == seq!['%', 'H'] {
        OdsElem::Hours { long: true }
    } else if f == seq!['%', '-', 'H'] {
        OdsElem::Hours { long: false }
    } else if f == seq!['%', 'M'] {
        OdsElem::Minutes { long: true }
    } else if f == seq!['%', '-', 'M'] {
        OdsElem::Minutes { long: false }
    } else if f == seq!['%', 'S'] {
        OdsElem::Seconds { long: true }
    } else if f == seq!['%', '-', 'S'] {
        OdsElem::Seconds { long: false }
    } else {
        OdsElem::Text(f)
    }
}

/// The date-style element of one fragment.
fn elem_of_frag_exec(f: &String) -> (r: OdsDateElement)
    ensures
        r@ == elem_of_frag(f@),
{
    proof {
        reveal_strlit("%Y"); reveal_strlit("%y");
        reveal_strlit("%m"); reveal_strlit("%-m");
        reveal_strlit("%d"); reveal_strlit("%-d");
        reveal_strlit("%H"); reveal_strlit("%-H");
        reveal_strlit("%M"); reveal_strlit("%-M");
        reveal_strlit("%S"); reveal_strlit("%-S");
        assert("%Y"@ =~= seq!['%', 'Y']);
        assert("%y"@ =~= seq!['%', 'y']);
        assert("%m"@ =~= seq!['%', 'm']);
        assert("%-m"@ =~= seq!['%', '-', 'm']);
        assert("%d"@ =~= seq!['%', 'd']);
        assert("%-d"@ =~= seq!['%', '-', 'd']);
        assert("%H"@ =~= seq!['%', 'H']);
        assert("%-H"@ =~= seq!['%', '-', 'H']);
        assert("%M"@ =~= seq!['%', 'M']);
        assert("%-M"@ =~= seq!['%', '-', 'M']);
        assert("%S"@ =~= seq!['%', 'S']);
        assert("%-S"@ =~= seq!['%', '-', 'S']);
    }
    if string_eq(f, "%Y") {
        proof { assert(f@ == seq!['%', 'Y']); }
        OdsDateElement::Year { long: true, gengou: false }
    } else if string_eq(f, "%y") {
        proof { assert(f@ == seq!['%', 'y']); }
        OdsDateElement::Year { long: false, gengou: false }
    } else if string_eq(f, "%m") {
        proof { assert(f@ == seq!['%', 'm']); }
        OdsDateElement::Month { long: true }
    } else if string_eq(f, "%-m") {
        proof { assert(f@ == seq!['%', '-', 'm']); }
        OdsDateElement::Month { long: false }
    } else if string_eq(f, "%d") {
        proof { assert(f@ == seq!['%', 'd']); }
        OdsDateElement::Day { long: true }
    } else if string_eq(f, "%-d") {
        proof { assert(f@ == seq!['%', '-', 'd']); }
        OdsDateElement::Day { long: false }
    } else if string_eq(f, "%H") {
        proof { assert(f@ == seq!['%', 'H']); }
        OdsDateElement::Hours { long: true }
    } else if string_eq(f, "%-H") {
        proof { assert(f@ == seq!['%', '-', 'H']); }
        OdsDateElement::Hours { long: false }
    } else if string_eq(f, "%M") {
        proof { assert(f@ == seq!['%', 'M']); }
        OdsDateElement::Minutes { long: true }
    } else if string_eq(f, "%-M") {
        proof { assert(f@ == seq!['%', '-', 'M']); }
        OdsDateElement::Minutes { long: false }
    } else if string_eq(f, "%S") {
        proof { assert(f@ == seq!['%', 'S']); }
        OdsDateElement::Seconds { long: true }
    } else if string_eq(f, "%-S") {
        proof { assert(f@ == seq!['%', '-', 'S']); }
        OdsDateElement::Seconds { long: false }
    } else {
        proof {
            assert(elem_of_frag(f@) == OdsElem::Text(f@));
        }
        OdsDateElement::Text(f.clone())
    }
}

/// Re-expresses a flat directive list as the native date-style element
/// sequence, element for element, preserving order.
pub fn make_number_format(formats: &Vec<String>) -> (r: Vec<OdsDateElement>)
    ensures
        r@.len() == formats@.len(),
        forall|i: int| 0 <= i < r@.len()
            ==> (#[trigger] r@[i])@ == elem_of_frag(formats@[i]@),
{
    let mut out: Vec<OdsDateElement> = Vec::new();
    let mut i: usize = 0;
    while i < formats.len()
        invariant
            0 <= i <= formats@.len(),
            out@.len() == i,
            forall|j: int| 0 <= j < i
                ==> (#[trigger] out@[j])@ == elem_of_frag(formats@[j]@),
        decreases formats@.len() - i,
    {
        let e = elem_of_frag_exec(&formats[i]);
        out.push(e);
        i = i + 1;
    }
    out
}

/// One named date style of the content part: its data-style name, its
/// cell-style name, the format-spec string it stands for, and its element
/// sequence.
#[derive(Debug, Clone)]
pub struct OdsDateStyle {
    pub n_name: String,
    pub ce_name: String,
    pub format: String,
    pub elements: Vec<OdsDateElement>,
}

/// The data-style name assigned to the distinct format at position `i`.
pub open spec fn n_name_of(i: int) -> Seq<char> {
    seq!['N'] + dec_str((i + 1) as nat)
}

/// The cell-style name assigned to the distinct format at position `i`.
pub open spec fn ce_name_of(i: int) -> Seq<char> {
    seq!['c', 'e'] + dec_str((i + 1) as nat)
}

/// Builds the named date styles of a book: one per distinct date format,
/// in first-encounter order, named `N1`/`ce1` on, each carrying the
/// element sequence of the format's directive list.
pub fn make_num_styles(book: &Book) -> (r: Vec<OdsDateStyle>)
    requires
        forall|f: Seq<char>| crate::xlsx::write_styles::book_has_date_format(book@, f)
            ==> spec_tokenize(f) is Some,
    ensures
        r@.len() == date_formats_of(book@).len(),
        forall|i: int| 0 <= i < r@.len() ==> {
            let fmt = date_formats_of(book@)[i];
            &&& (#[trigger] r@[i]).format@ == fmt
            &&& r@[i].n_name@ == n_name_of(i)
            &&& r@[i].ce_name@ == ce_name_of(i)
            &&& spec_tokenize(fmt) is Some
            &&& elems_view(r@[i].elements@).len()
                == spec_tokenize(fmt)->Some_0.len()
            &&& forall|j: int| 0 <= j < elems_view(r@[i].elements@).len()
                ==> #[trigger] elems_view(r@[i].elements@)[j]
                    == elem_of_frag(frag_of(spec_tokenize(fmt)->Some_0[j]))
        },
{
    let fmts = make_num_fmts(book);
    proof {
        crate::xlsx::write_styles::lemma_date_formats_table(book@);
    }
    let mut out: Vec<OdsDateStyle> = Vec::new();
    let mut i: usize = 0;
    while i < fmts.len()
        invariant
            strs_view(fmts@) == date_formats_of(book@),
            fmts@.len() == date_formats_of(book@).len(),
            forall|f: Seq<char>| date_formats_of(book@).contains(f)
                ==> spec_tokenize(f) is Some,
            0 <= i <= fmts@.len(),
            out@.len() == i,
            forall|k: int| 0 <= k < i ==> {
                let fmt = date_formats_of(book@)[k];
                &&& (#[trigger] out@[k]).format@ == fmt
                &&& out@[k].n_name@ == n_name_of(k)
                &&& out@[k].ce_name@ == ce_name_of(k)
                &&& spec_tokenize(fmt) is Some
                &&& elems_view(out@[k].elements@).len()
                    == spec_tokenize(fmt)->Some_0.len()
                &&& forall|j: int| 0 <= j < elems_view(out@[k].elements@).len()
                    ==> #[trigger] elems_view(out@[k].elements@)[j]
                        == elem_of_frag(frag_of(spec_tokenize(fmt)->Some_0[j]))
            },
        decreases fmts@.len() - i,
    {
        let format = &fmts[i];
        proof {
            assert(strs_view(fmts@)[i as int] == format@);
            assert(date_formats_of(book@).contains(format@));
        }
        let toks = match tokenize(format.as_str()) {
            Some(t) => t,
            None => {
                proof {
                    assert(false);
                }
                unreached()
            },
        };
        // The flat directive list, then its element sequence.
        let mut frags: Vec<String> = Vec::new();
        let mut j: usize = 0;
        while j < toks.len()
            invariant
                0 <= j <= toks@.len(),
                frags@.len() == j,
                forall|k: int| 0 <= k < j
                    ==> #[trigger] frags@[k]@ == frag_of(toks_view(toks@)[k]),
            decreases toks@.len() - j,
        {
            let f = frag_str(&toks[j]);
            proof {
                assert(toks_view(toks@)[j as int] == toks@[j as int]@);
            }
            frags.push(f);
            j = j + 1;
        }
        let elements = make_number_format(&frags);
        let n_name = String::from_str("N").concat(u64_string((i as u64) + 1).as_str());
        let ce_name = String::from_str("ce").concat(u64_string((i as u64) + 1).as_str());
        proof {
            reveal_strlit("N");
            reveal_strlit("ce");
            assert(n_name@ =~= n_name_of(i as int));
            assert(ce_name@ =~= ce_name_of(i as int));
            assert(forall|k: int| 0 <= k < elements@.len()
                ==> #[trigger] elems_view(elements@)[k] == elements@[k]@);
        }
        out.push(OdsDateStyle {
            n_name,
            ce_name,
            format: format.clone(),
            elements,
        });
        i = i + 1;
    }
    out
}

/// One cell record of the content part.
#[derive(Debug, Clone)]
pub enum OdsCellRecord {
    /// A run of empty cells.
    Empty { repeat: u64 },
    /// A text cell.
    Str { text: String },
    /// A number cell, as its decimal text.
    Float { text: String },
    /// A date cell: its cell-style name, its stored date value, and its
    /// rendered display text.
    Date { style_name: String, date_value: String, display: String },
}

/// A run of empty cells as a record: no record at all for a zero count.
pub fn make_content_xml_none_table_cell(none_count: u64) -> (r: Option<OdsCellRecord>)
    ensures
        match r {
            Some(rec) => none_count > 0 && (rec matches OdsCellRecord::Empty { repeat }
                && repeat == none_count),
            None => none_count == 0,
        },
{
    if none_count > 0 {
        Some(OdsCellRecord::Empty { repeat: none_count })
    } else {
        None
    }
}

/// The ISO text of an instant, `YYYY-MM-DDTHH:MM:SS`, as the content part
/// stores a date value.
pub open spec fn iso_of(t: Instant) -> Seq<char> {
    pad4(t.year as nat) + seq!['-'] + pad2(t.month as nat) + seq!['-'] + pad2(t.day as nat)
        + seq!['T'] + pad2(t.hour as nat) + seq![':'] + pad2(t.minute as nat)
        + seq![':'] + pad2(t.second as nat)
}

/// The ISO text of an instant.
pub fn iso_string(t: &Instant) -> (r: String)
    requires
        t.is_valid(),
    ensures
        r@ == iso_of(*t),
{
    let r = pad4_u32(t.year)
        .concat("-").concat(pad2_u32(t.month).as_str())
        .concat("-").concat(pad2_u32(t.day).as_str())
        .concat("T").concat(pad2_u32(t.hour).as_str())
        .concat(":").concat(pad2_u32(t.minute).as_str())
        .concat(":").concat(pad2_u32(t.second).as_str());
    proof {
        reveal_strlit("-");
        reveal_strlit("T");
        reveal_strlit(":");
        assert(r@ =~= iso_of(*t));
    }
    r
}

/// Whether a cell record renders a cell, against the given name table
/// (format-spec string to cell-style name): text and numbers carry their
/// text verbatim; a date carries the first table name of its style, its
/// ISO date value, and its display text rendered through its token list
/// with the era lookups of its instant.
pub open spec fn ods_record_for(
    rec: OdsCellRecord,
    cell: CellModel,
    names: Seq<(String, String)>,
) -> bool {
    match cell.value {
        ValueModel::Str(t) => rec matches OdsCellRecord::Str { text } && text@ == t,
        ValueModel::Float(t) => rec matches OdsCellRecord::Float { text } && text@ == t,
        ValueModel::Currency(t) => rec matches OdsCellRecord::Float { text } && text@ == t,
        ValueModel::Date(dt) => rec matches OdsCellRecord::Date {
            style_name,
            date_value,
            display,
        } && {
            &&& date_value@ == iso_of(dt)
            &&& exists|j: int| 0 <= j < names.len()
                && (#[trigger] names[j]).0@ == cell.style && names[j].1@ == style_name@
                && forall|k: int| 0 <= k < j ==> (#[trigger] names[k]).0@ != cell.style
            &&& spec_tokenize(cell.style) is Some
            &&& display@ == render_toks(
                spec_tokenize(cell.style)->Some_0,
                dt,
                era_year_of(dt.year as int, dt.month as int, dt.day as int,
                            dt.hour as int, dt.minute as int, dt.second as int),
                era_abbreviation_of(dt.year as int, dt.month as int, dt.day as int,
                            dt.hour as int, dt.minute as int, dt.second as int),
                era_short_name_of(dt.year as int, dt.month as int, dt.day as int,
                            dt.hour as int, dt.minute as int, dt.second as int),
                era_name_of(dt.year as int, dt.month as int, dt.day as int,
                            dt.hour as int, dt.minute as int, dt.second as int),
            )
        },
    }
}

/// The cell-style name of a format: the first matching table entry.
fn style_name_of<'a>(names: &'a Vec<(String, String)>, format: &String)
    -> (r: Option<&'a String>)
    ensures
        match r {
            Some(v) => exists|j: int| 0 <= j < names@.len()
                && (#[trigger] names@[j]).0@ == format@ && names@[j].1@ == v@
                && forall|k: int| 0 <= k < j ==> (#[trigger] names@[k]).0@ != format@,
            None => forall|j: int| 0 <= j < names@.len()
                ==> (#[trigger] names@[j]).0@ != format@,
        },
{
    let mut i: usize = 0;
    while i < names.len()
        invariant
            0 <= i <= names@.len(),
            forall|k: int| 0 <= k < i ==> (#[trigger] names@[k]).0@ != format@,
        decreases names@.len() - i,
    {
        if string_eq(&names[i].0, format.as_str()) {
            return Some(&names[i].1);
        }
        i = i + 1;
    }
    None
}

/// One decimal digit character reads back as its value.
proof fn lemma_dec_digit_val(d: int)
    requires
        0 <= d < 10,
    ensures
        crate::address::is_digit(crate::digits::dec_digit(d)),
        crate::address::digit_val(crate::digits::dec_digit(d)) == d,
{
}

/// A two-digit padded number reads back as itself.
proof fn lemma_pad2_reads_back(n: int)
    requires
        0 <= n < 100,
    ensures
        pad2(n as nat).len() == 2,
        crate::address::is_digit(pad2(n as nat)[0]),
        crate::address::is_digit(pad2(n as nat)[1]),
        crate::instant::two_digits(pad2(n as nat)[0], pad2(n as nat)[1]) == n,
{
    if n < 10 {
        lemma_dec_digit_val(n);
        lemma_dec_digit_val(0);
    } else {
        reveal_with_fuel(dec_str, 3);
        assert(dec_str(n as nat) == dec_str((n / 10) as nat).push(
            crate::digits::dec_digit(n % 10)));
        assert(dec_str((n / 10) as nat) == seq![crate::digits::dec_digit(n / 10)]);
        lemma_dec_digit_val(n / 10);
        lemma_dec_digit_val(n % 10);
    }
}

/// A four-digit padded number reads back as itself.
proof fn lemma_pad4_reads_back(n: int)
    requires
        0 <= n < 10000,
    ensures
        pad4(n as nat).len() == 4,
        forall|i: int| 0 <= i < 4 ==> crate::address::is_digit(#[trigger] pad4(n as nat)[i]),
        crate::instant::four_digits(pad4(n as nat)[0], pad4(n as nat)[1],
                                    pad4(n as nat)[2], pad4(n as nat)[3]) == n,
{
    reveal_with_fuel(dec_str, 5);
    lemma_dec_digit_val(0);
    if n < 10 {
        lemma_dec_digit_val(n);
    } else if n < 100 {
        assert(dec_str(n as nat) == dec_str((n / 10) as nat).push(
            crate::digits::dec_digit(n % 10)));
        lemma_dec_digit_val(n / 10);
        lemma_dec_digit_val(n % 10);
    } else if n < 1000 {
        let a = n / 100;
        let b = (n / 10) % 10;
        let c = n % 10;
        assert(n / 10 / 10 == a) by {
            vstd::arithmetic::div_mod::lemma_div_denominator(n, 10, 10);
        }
        assert(dec_str(n as nat) == dec_str((n / 10) as nat).push(
            crate::digits::dec_digit(n % 10)));
        assert(dec_str((n / 10) as nat) == dec_str((n / 10 / 10) as nat).push(
            crate::digits::dec_digit((n / 10) % 10)));
        lemma_dec_digit_val(a);
        lemma_dec_digit_val(b);
        lemma_dec_digit_val(c);
        assert((a * 10 + b) * 10 + c == n) by {
            vstd::arithmetic::div_mod::lemma_fundamental_div_mod(n, 10);
            vstd::arithmetic::div_mod::lemma_fundamental_div_mod(n / 10, 10);
        }
    } else {
        let a = n / 1000;
        let b = (n / 100) % 10;
        let c = (n / 10) % 10;
        let d = n % 10;
        assert(n / 10 / 10 == n / 100) by {
            vstd::arithmetic::div_mod::lemma_div_denominator(n, 10, 10);
        }
        assert(n / 100 / 10 == n / 1000) by {
            vstd::arithmetic::div_mod::lemma_div_denominator(n, 100, 10);
        }
        assert(dec_str(n as nat) == dec_str((n / 10) as nat).push(
            crate::digits::dec_digit(n % 10)));
        assert(dec_str((n / 10) as nat) == dec_str((n / 100) as nat).push(
            crate::digits::dec_digit((n / 10) % 10)));
        assert(dec_str((n / 100) as nat) == dec_str((n / 1000) as nat).push(
            crate::digits::dec_digit((n / 100) % 10)));
        lemma_dec_digit_val(a);
        lemma_dec_digit_val(b);
        lemma_dec_digit_val(c);
        lemma_dec_digit_val(d);
        assert(((a * 10 + b) * 10 + c) * 10 + d == n) by {
            vstd::arithmetic::div_mod::lemma_fundamental_div_mod(n, 10);
            vstd::arithmetic::div_mod::lemma_fundamental_div_mod(n / 10, 10);
            vstd::arithmetic::div_mod::lemma_fundamental_div_mod(n / 100, 10);
        }
    }
}

/// The stored date value reads back as the instant it came from: writing a
/// well-formed instant as ISO text and parsing that text recovers the
/// instant.
pub proof fn lemma_iso_round_trip(t: Instant)
    requires
        t.is_valid(),
    ensures
        parse_date_source(iso_of(t)) == Some(t),
{
    let s = iso_of(t);
    lemma_pad4_reads_back(t.year as int);
    lemma_pad2_reads_back(t.month as int);
    lemma_pad2_reads_back(t.day as int);
    lemma_pad2_reads_back(t.hour as int);
    lemma_pad2_reads_back(t.minute as int);
    lemma_pad2_reads_back(t.second as int);
    assert(s.len() == 19);
    assert(s[0] == pad4(t.year as nat)[0]);
    assert(s[1] == pad4(t.year as nat)[1]);
    assert(s[2] == pad4(t.year as nat)[2]);
    assert(s[3] == pad4(t.year as nat)[3]);
    assert(s[4] == '-');
    assert(s[5] == pad2(t.month as nat)[0]);
    assert(s[6] == pad2(t.month as nat)[1]);
    assert(s[7] == '-');
    assert(s[8] == pad2(t.day as nat)[0]);
    assert(s[9] == pad2(t.day as nat)[1]);
    assert(s[10] == 'T');
    assert(s[11] == pad2(t.hour as nat)[0]);
    assert(s[12] == pad2(t.hour as nat)[1]);
    assert(s[13] == ':');
    assert(s[14] == pad2(t.minute as nat)[0]);
    assert(s[15] == pad2(t.minute as nat)[1]);
    assert(s[16] == ':');
    assert(s[17] == pad2(t.second as nat)[0]);
    assert(s[18] == pad2(t.second as nat)[1]);
    assert(crate::instant::date_shape(s));
    assert(crate::instant::time_shape(s));
    assert(parse_date_source(s) == Some(t));
}

/// What one token comes back as after the style-table round trip: its
/// fragment re-expressed as a native element, written back as format-spec
/// text.
pub open spec fn ods_canonical_frag(t: Tok) -> Seq<char> {
    crate::ods::decode_elem(elem_of_frag(frag_of(t)))
}

/// What a whole token sequence comes back as after the style-table round
/// trip.
pub open spec fn ods_canonical_string(ts: Seq<Tok>) -> Seq<char>
    decreases ts.len(),
{
    if ts.len() == 0 {
        Seq::empty()
    } else {
        ods_canonical_string(ts.drop_last()) + ods_canonical_frag(ts.last())
    }
}

/// The element sequence a token list is encoded as: one element per
/// strftime-equivalent fragment.
pub open spec fn elems_of_tokens(ts: Seq<Tok>) -> Seq<OdsElem> {
    ts.map_values(|t: Tok| elem_of_frag(frag_of(t)))
}

/// Decoding the encoded element sequence of a token list yields the
/// canonical string of that list.
proof fn lemma_decode_encode(ts: Seq<Tok>)
    ensures
        crate::ods::decode_elems(elems_of_tokens(ts)) == ods_canonical_string(ts),
    decreases ts.len(),
{
    let es = elems_of_tokens(ts);
    if ts.len() == 0 {
        assert(es =~= Seq::<OdsElem>::empty());
    } else {
        lemma_decode_encode(ts.drop_last());
        assert(es.drop_last() =~= elems_of_tokens(ts.drop_last()));
        assert(es.last() == elem_of_frag(frag_of(ts.last())));
    }
}

/// The style-table round trip: a format-spec string that is spelled in
/// canonical form — it equals what decoding its own encoded element
/// sequence writes back — is recovered exactly when its style is encoded
/// on write and decoded on read.
pub proof fn lemma_ods_format_round_trip(s: Seq<char>)
    requires
        spec_tokenize(s) is Some,
        s == ods_canonical_string(spec_tokenize(s)->Some_0),
    ensures
        crate::ods::decode_elems(elems_of_tokens(spec_tokenize(s)->Some_0)) == s,
{
    lemma_decode_encode(spec_tokenize(s)->Some_0);
}

/// The style-table round trip down at the event level: an event run that
/// lays out the encoded element sequence of a canonically spelled format
/// string and then closes the style decodes back to that string exactly,
/// landing after the end tag. Only the markup text itself stands between
/// these events and the adapter's file.
pub proof fn lemma_ods_event_round_trip(s: Seq<char>, events: Seq<MarkupEvent>, i: int)
    requires
        spec_tokenize(s) is Some,
        s == ods_canonical_string(spec_tokenize(s)->Some_0),
        crate::ods::events_lay_out(events, i, elems_of_tokens(spec_tokenize(s)->Some_0)),
        i + crate::ods::elems_event_width(elems_of_tokens(spec_tokenize(s)->Some_0))
            < events.len(),
        (events[i + crate::ods::elems_event_width(elems_of_tokens(spec_tokenize(s)->Some_0))]
            matches MarkupEvent::End { name } && name@ == "number:date-style"@),
    ensures
        crate::ods::decode_date_style(events, i, Seq::empty(), true)
            == (s, i + crate::ods::elems_event_width(
                elems_of_tokens(spec_tokenize(s)->Some_0)) + 1),
{
    let es = elems_of_tokens(spec_tokenize(s)->Some_0);
    crate::ods::lemma_decode_lays_out(events, i, es, Seq::empty(), true);
    lemma_ods_format_round_trip(s);
    assert(Seq::<char>::empty() + crate::ods::decode_elems(es)
        =~= crate::ods::decode_elems(es));
}

/// How many grid columns one record covers.
pub open spec fn rec_width(rec: OdsCellRecord) -> int {
    match rec {
        OdsCellRecord::Empty { repeat } => repeat as int,
        _ => 1,
    }
}

/// How many grid columns a record run covers.
pub open spec fn row_width(recs: Seq<OdsCellRecord>) -> int
    decreases recs.len(),
{
    if recs.len() == 0 {
        0
    } else {
        row_width(recs.drop_last()) + rec_width(recs.last())
    }
}

/// The column-indexed cells a record run lays out: empty runs advance the
/// column, every other record lands on the column it reaches.
pub open spec fn row_map(recs: Seq<OdsCellRecord>) -> Map<int, OdsCellRecord>
    decreases recs.len(),
{
    if recs.len() == 0 {
        Map::empty()
    } else {
        match recs.last() {
            OdsCellRecord::Empty { .. } => row_map(recs.drop_last()),
            _ => row_map(recs.drop_last()).insert(row_width(recs.drop_last()), recs.last()),
        }
    }
}

/// One sheet row of the content part.
#[derive(Debug, Clone)]
pub struct OdsRow {
    pub cells: Vec<OdsCellRecord>,
}

/// One sheet of the content part: the column-count repeat of its column
/// element, and its rows.
#[derive(Debug, Clone)]
pub struct OdsSheetContent {
    pub column_repeat: Option<u64>,
    pub rows: Vec<OdsRow>,
}

/// Every date cell's style tokenizes and is in the name table.
pub open spec fn hash_covers_cells(cells: Seq<EntryModel>, names: Seq<(String, String)>)
    -> bool {
    forall|i: int| 0 <= i < cells.len() ==> ((#[trigger] cells[i]).2.value is Date
        ==> spec_tokenize(cells[i].2.style) is Some
            && exists|j: int| 0 <= j < names.len()
                && (#[trigger] names[j]).0@ == cells[i].2.style)
}

/// The largest row index any entry of a nonempty sheet carries.
pub open spec fn max_row_of(cells: Seq<EntryModel>) -> int
    decreases cells.len(),
{
    if cells.len() <= 1 {
        cells[0].0
    } else if cells.last().0 > max_row_of(cells.drop_last()) {
        cells.last().0
    } else {
        max_row_of(cells.drop_last())
    }
}

/// The largest column index any entry of a nonempty sheet carries.
pub open spec fn max_col_of(cells: Seq<EntryModel>) -> int
    decreases cells.len(),
{
    if cells.len() <= 1 {
        cells[0].1
    } else if cells.last().1 > max_col_of(cells.drop_last()) {
        cells.last().1
    } else {
        max_col_of(cells.drop_last())
    }
}

/// The largest indices are attained and bound every entry.
proof fn lemma_max_attained(cells: Seq<EntryModel>)
    requires
        cells.len() > 0,
    ensures
        exists|j: int| 0 <= j < cells.len() && (#[trigger] cells[j]).0 == max_row_of(cells),
        exists|j: int| 0 <= j < cells.len() && (#[trigger] cells[j]).1 == max_col_of(cells),
        forall|j: int| 0 <= j < cells.len() ==> (#[trigger] cells[j]).0 <= max_row_of(cells),
        forall|j: int| 0 <= j < cells.len() ==> (#[trigger] cells[j]).1 <= max_col_of(cells),
    decreases cells.len(),
{
    if cells.len() == 1 {
        assert(cells[0].0 == max_row_of(cells));
        assert(cells[0].1 == max_col_of(cells));
    } else {
        lemma_max_attained(cells.drop_last());
        assert forall|j: int| 0 <= j < cells.len()
            implies (#[trigger] cells[j]).0 <= max_row_of(cells)
                && cells[j].1 <= max_col_of(cells) by {
            if j < cells.len() - 1 {
                assert(cells.drop_last()[j] == cells[j]);
            }
        }
        if cells.last().0 > max_row_of(cells.drop_last()) {
            assert(cells[cells.len() - 1].0 == max_row_of(cells));
        } else {
            let j = choose|j: int| 0 <= j < cells.drop_last().len()
                && (#[trigger] cells.drop_last()[j]).0 == max_row_of(cells.drop_last());
            assert(cells[j].0 == max_row_of(cells));
        }
        if cells.last().1 > max_col_of(cells.drop_last()) {
            assert(cells[cells.len() - 1].1 == max_col_of(cells));
        } else {
            let j = choose|j: int| 0 <= j < cells.drop_last().len()
                && (#[trigger] cells.drop_last()[j]).1 == max_col_of(cells.drop_last());
            assert(cells[j].1 == max_col_of(cells));
        }
    }
}

/// An empty-cell run.
pub open spec fn is_empty_run(rec: OdsCellRecord) -> bool {
    rec matches OdsCellRecord::Empty { .. }
}

/// Gaps are compressed: every record spans at least one column and no two
/// empty runs stand next to each other, so a run of absent cells is always
/// one record.
pub open spec fn gap_runs_compressed(recs: Seq<OdsCellRecord>) -> bool {
    &&& forall|i: int| 0 <= i < recs.len() ==> rec_width(#[trigger] recs[i]) >= 1
    &&& forall|i: int| 0 <= i < recs.len() - 1
        ==> !(is_empty_run(#[trigger] recs[i]) && is_empty_run(recs[i + 1]))
}

/// Appending a record keeps gaps compressed, as long as an appended empty
/// run does not follow another empty run.
proof fn lemma_gap_runs_push(before: Seq<OdsCellRecord>, x: OdsCellRecord)
    requires
        gap_runs_compressed(before),
        rec_width(x) >= 1,
        is_empty_run(x) && before.len() > 0 ==> !is_empty_run(before.last()),
    ensures
        gap_runs_compressed(before.push(x)),
{
    let recs = before.push(x);
    assert forall|i: int| 0 <= i < recs.len()
        implies rec_width(#[trigger] recs[i]) >= 1 by {
        if i < recs.len() - 1 {
            assert(recs[i] == before[i]);
        }
    }
    assert forall|i: int| 0 <= i < recs.len() - 1
        implies !(is_empty_run(#[trigger] recs[i]) && is_empty_run(recs[i + 1])) by {
        if i < recs.len() - 2 {
            assert(recs[i] == before[i] && recs[i + 1] == before[i + 1]);
        } else {
            assert(recs[i] == before.last());
        }
    }
}

/// Builds one sheet's rows: exactly one record run per row up to the
/// largest row index, each run laying out exactly the grid's cells of that
/// row in ascending column order with every gap compressed into one empty
/// run; a wholly absent row becomes one empty run spanning the sheet's
/// column count, and an empty sheet becomes a single bare empty cell.
#[verifier::rlimit(100)]
pub fn make_content_xml_by_sheet(sheet: &Sheet, date_hash: &Vec<(String, String)>)
    -> (r: OdsSheetContent)
    requires
        sheet@.wf(),
        hash_covers_cells(sheet@.cells, date_hash@),
        forall|i: int| 0 <= i < sheet@.cells.len()
            ==> (#[trigger] sheet@.cells[i]).0 < usize::MAX
                && sheet@.cells[i].1 < usize::MAX,
    ensures
        sheet@.cells.len() == 0 ==> {
            &&& r.column_repeat is None
            &&& r.rows@.len() == 1
            &&& r.rows@[0].cells@.len() == 1
            &&& (r.rows@[0].cells@[0] matches OdsCellRecord::Empty { repeat } && repeat == 1)
        },
        sheet@.cells.len() > 0 ==> {
            &&& (r.column_repeat matches Some(n)
                && n as int == max_col_of(sheet@.cells) + 1)
            &&& r.rows@.len() == max_row_of(sheet@.cells) + 1
            &&& forall|rr: int| 0 <= rr < r.rows@.len() ==> {
                let rm = row_map((#[trigger] r.rows@[rr]).cells@);
                &&& forall|c: int| #[trigger] rm.contains_key(c)
                    <==> sheet@.grid().contains_key((rr, c))
                &&& forall|c: int| rm.contains_key(c)
                    ==> ods_record_for(#[trigger] rm[c], sheet@.grid()[(rr, c)], date_hash@)
                &&& gap_runs_compressed(r.rows@[rr].cells@)
                &&& rm.dom() =~= Set::<int>::empty() ==> r.rows@[rr].cells@.len() == 1
                    && (r.rows@[rr].cells@[0] matches OdsCellRecord::Empty { repeat }
                        && repeat as int == max_col_of(sheet@.cells) + 1)
                &&& !(rm.dom() =~= Set::<int>::empty())
                    ==> r.rows@[rr].cells@.len() > 0
                        && !is_empty_run(r.rows@[rr].cells@.last())
            }
        },
{
    let ghost cells = sheet@.cells;
    let rows_vec = sheet.get_rows();
    let max = sheet.get_max_index();
    match max {
        None => {
            let mut row_cells: Vec<OdsCellRecord> = Vec::new();
            row_cells.push(OdsCellRecord::Empty { repeat: 1 });
            let mut rows: Vec<OdsRow> = Vec::new();
            proof {
                assert(row_cells@.drop_last() =~= Seq::<OdsCellRecord>::empty());
                assert(row_map(Seq::<OdsCellRecord>::empty())
                    == Map::<int, OdsCellRecord>::empty());
                assert(row_map(row_cells@) =~= Map::<int, OdsCellRecord>::empty());
            }
            rows.push(OdsRow { cells: row_cells });
            OdsSheetContent { column_repeat: None, rows }
        },
        Some((max_row, max_col)) => {
            let mut rows: Vec<OdsRow> = Vec::new();
            let mut k: usize = 0;
            let mut rr: usize = 0;
            proof {
                assert(cells.len() > 0);
            }
            while rr <= max_row
                invariant
                    sheet@.wf(),
                    hash_covers_cells(cells, date_hash@),
                    cells == sheet@.cells,
                    crate::model::entries_view(rows_vec@) == cells,
                    rows_vec@.len() == cells.len(),
                    forall|i: int| 0 <= i < cells.len()
                        ==> (#[trigger] cells[i]).0 <= max_row as int
                            && cells[i].1 <= max_col as int,
                    max_row < usize::MAX,
                    max_col < usize::MAX,
                    0 <= rr <= max_row + 1,
                    0 <= k <= cells.len(),
                    forall|j: int| 0 <= j < k ==> (#[trigger] cells[j]).0 < rr as int,
                    forall|j: int| k <= j < cells.len()
                        ==> (#[trigger] cells[j]).0 >= rr as int,
                    rows@.len() == rr,
                    forall|r2: int| 0 <= r2 < rr ==> {
                        let rm = row_map((#[trigger] rows@[r2]).cells@);
                        &&& forall|c: int| #[trigger] rm.contains_key(c)
                            <==> grid_contains(cells, r2, c)
                        &&& forall|c: int| rm.contains_key(c)
                            ==> ods_record_for(#[trigger] rm[c],
                                crate::model::grid_of(cells)[(r2, c)], date_hash@)
                        &&& gap_runs_compressed(rows@[r2].cells@)
                        &&& rm.dom() =~= Set::<int>::empty() ==> rows@[r2].cells@.len() == 1
                            && (rows@[r2].cells@[0] matches OdsCellRecord::Empty { repeat }
                                && repeat as int == max_col as int + 1)
                        &&& !(rm.dom() =~= Set::<int>::empty())
                            ==> rows@[r2].cells@.len() > 0
                                && !is_empty_run(rows@[r2].cells@.last())
                    },
                decreases max_row + 1 - rr,
            {
                let mut recs: Vec<OdsCellRecord> = Vec::new();
                let ghost k0 = k as int;
                let mut cursor: usize = 0;
                proof {
                    assert(row_map(recs@) =~= Map::<int, OdsCellRecord>::empty());
                }
                while k < rows_vec.len()
                    invariant
                        sheet@.wf(),
                        hash_covers_cells(cells, date_hash@),
                        cells == sheet@.cells,
                        crate::model::entries_view(rows_vec@) == cells,
                        rows_vec@.len() == cells.len(),
                        forall|i: int| 0 <= i < cells.len()
                            ==> (#[trigger] cells[i]).1 <= max_col as int,
                        max_col < usize::MAX,
                        0 <= k0 <= k as int <= cells.len(),
                        forall|j: int| 0 <= j < k0 ==> (#[trigger] cells[j]).0 < rr as int,
                        forall|j: int| k0 <= j < k ==> (#[trigger] cells[j]).0 == rr as int
                            && cells[j].1 < cursor as int,
                        forall|j: int| k <= j < cells.len()
                            ==> (#[trigger] cells[j]).0 >= rr as int,
                        k as int > k0 ==> cursor as int == cells[k as int - 1].1 + 1,
                        k as int == k0 ==> cursor == 0,
                        row_width(recs@) == cursor,
                        gap_runs_compressed(recs@),
                        (k as int > k0) <==> recs@.len() > 0,
                        recs@.len() > 0 ==> !is_empty_run(recs@.last()),
                        forall|c: int| #[trigger] row_map(recs@).contains_key(c)
                            <==> exists|j: int| k0 <= j < k
                                && ((#[trigger] cells[j]).0, cells[j].1) == (rr as int, c),
                        forall|c: int| row_map(recs@).contains_key(c)
                            ==> ods_record_for(#[trigger] row_map(recs@)[c],
                                crate::model::grid_of(cells)[(rr as int, c)], date_hash@),
                    ensures
                        k0 <= k as int <= cells.len(),
                        forall|j: int| k0 <= j < k ==> (#[trigger] cells[j]).0 == rr as int,
                        forall|j: int| k <= j < cells.len()
                            ==> (#[trigger] cells[j]).0 > rr as int,
                        gap_runs_compressed(recs@),
                        (k as int > k0) <==> recs@.len() > 0,
                        recs@.len() > 0 ==> !is_empty_run(recs@.last()),
                        forall|c: int| #[trigger] row_map(recs@).contains_key(c)
                            <==> exists|j: int| k0 <= j < k
                                && ((#[trigger] cells[j]).0, cells[j].1) == (rr as int, c),
                        forall|c: int| row_map(recs@).contains_key(c)
                            ==> ods_record_for(#[trigger] row_map(recs@)[c],
                                crate::model::grid_of(cells)[(rr as int, c)], date_hash@),
                    decreases cells.len() - k,
                {
                    let entry = &rows_vec[k];
                    proof {
                        assert(cells[k as int] == crate::model::entry_view(rows_vec@[k as int]));
                    }
                    if entry.0 != rr {
                        proof {
                            assert(cells[k as int].0 > rr as int);
                            assert forall|j: int| k <= j < cells.len()
                                implies (#[trigger] cells[j]).0 > rr as int by {
                                if j > k {
                                    assert(crate::model::pos_lt(
                                        (cells[k as int].0, cells[k as int].1),
                                        (cells[j].0, cells[j].1)));
                                }
                            }
                        }
                        break;
                    }
                    proof {
                        if k as int > k0 {
                            assert(crate::model::pos_lt(
                                (cells[k as int - 1].0, cells[k as int - 1].1),
                                (cells[k as int].0, cells[k as int].1)));
                        }
                        assert(cells[k as int].1 >= cursor as int);
                    }
                    let gap = entry.1 - cursor;
                    if gap > 0 {
                        let ghost before = recs@;
                        recs.push(OdsCellRecord::Empty { repeat: gap as u64 });
                        proof {
                            assert(recs@.drop_last() =~= before);
                            assert(row_map(recs@) == row_map(before));
                            assert(row_width(recs@) == row_width(before) + gap);
                            lemma_gap_runs_push(before,
                                OdsCellRecord::Empty { repeat: gap as u64 });
                        }
                    }
                    let rec = make_content_xml_table_cell(&entry.2, date_hash);
                    let ghost before = recs@;
                    recs.push(rec);
                    proof {
                        assert(recs@.drop_last() =~= before);
                        assert(row_width(before) == cells[k as int].1);
                        assert(row_map(recs@)
                            == row_map(before).insert(cells[k as int].1, rec));
                        assert(!is_empty_run(rec));
                        lemma_gap_runs_push(before, rec);
                        crate::model::lemma_grid_at(cells, k as int);
                        assert(ods_record_for(rec,
                            crate::model::grid_of(cells)[(rr as int, cells[k as int].1)],
                            date_hash@));
                        assert forall|c: int| #[trigger] row_map(recs@).contains_key(c)
                            implies exists|j: int| k0 <= j < k + 1
                                && ((#[trigger] cells[j]).0, cells[j].1) == (rr as int, c) by {
                            if c == cells[k as int].1 {
                                assert(((cells[k as int]).0, cells[k as int].1)
                                    == (rr as int, c));
                            } else {
                                let j = choose|j: int| k0 <= j < k
                                    && ((#[trigger] cells[j]).0, cells[j].1) == (rr as int, c);
                                assert(((cells[j]).0, cells[j].1) == (rr as int, c));
                            }
                        }
                    }
                    cursor = entry.1 + 1;
                    k = k + 1;
                }
                let ghost was_absent = recs@.len() == 0;
                if recs.len() == 0 {
                    // A wholly absent row: one empty run spanning the columns.
                    recs.push(OdsCellRecord::Empty { repeat: (max_col as u64) + 1 });
                    proof {
                        assert(recs@.drop_last() =~= Seq::<OdsCellRecord>::empty());
                        assert(row_map(Seq::<OdsCellRecord>::empty())
                            == Map::<int, OdsCellRecord>::empty());
                        assert(row_map(recs@) =~= Map::<int, OdsCellRecord>::empty());
                        lemma_gap_runs_push(Seq::empty(),
                            OdsCellRecord::Empty { repeat: ((max_col as int) + 1) as u64 });
                    }
                }
                let ghost rm = row_map(recs@);
                proof {
                    assert forall|c: int| #[trigger] rm.contains_key(c)
                        <==> grid_contains(cells, rr as int, c) by {
                        if rm.contains_key(c) {
                            let j = choose|j: int| k0 <= j < k
                                && ((#[trigger] cells[j]).0, cells[j].1) == (rr as int, c);
                            crate::model::lemma_grid_at(cells, j);
                        }
                        if grid_contains(cells, rr as int, c) {
                            let j = choose|j: int| 0 <= j < cells.len()
                                && ((#[trigger] cells[j]).0, cells[j].1) == (rr as int, c);
                            assert(k0 <= j < k);
                        }
                    }
                    if was_absent {
                        assert(rm.dom() =~= Set::<int>::empty());
                    } else {
                        assert(k as int > k0);
                        assert(((cells[k0]).0, cells[k0].1) == (rr as int, cells[k0].1));
                        assert(rm.contains_key(cells[k0].1));
                        assert(!(rm.dom() =~= Set::<int>::empty()));
                    }
                }
                rows.push(OdsRow { cells: recs });
                rr = rr + 1;
            }
            proof {
                // The exec maxima are the spec-level maxima.
                lemma_max_attained(cells);
                assert(max_row as int == max_row_of(cells));
                assert(max_col as int == max_col_of(cells));
                assert(rows@.len() == max_row_of(cells) + 1);
                assert forall|r2: int| 0 <= r2 < rows@.len() implies {
                    let rm = row_map((#[trigger] rows@[r2]).cells@);
                    &&& forall|c: int| #[trigger] rm.contains_key(c)
                        <==> sheet@.grid().contains_key((r2, c))
                    &&& forall|c: int| rm.contains_key(c)
                        ==> ods_record_for(#[trigger] rm[c], sheet@.grid()[(r2, c)],
                                           date_hash@)
                    &&& gap_runs_compressed(rows@[r2].cells@)
                    &&& rm.dom() =~= Set::<int>::empty() ==> rows@[r2].cells@.len() == 1
                        && (rows@[r2].cells@[0] matches OdsCellRecord::Empty { repeat }
                            && repeat as int == max_col_of(cells) + 1)
                    &&& !(rm.dom() =~= Set::<int>::empty())
                        ==> rows@[r2].cells@.len() > 0
                            && !is_empty_run(rows@[r2].cells@.last())
                } by {
                    let rm = row_map(rows@[r2].cells@);
                    assert(forall|c: int| #[trigger] rm.contains_key(c)
                        <==> grid_contains(cells, r2, c));
                    assert forall|c: int| #[trigger] rm.contains_key(c)
                        <==> sheet@.grid().contains_key((r2, c)) by {
                        crate::model::lemma_grid_lookup(cells, (r2, c));
                        if grid_contains(cells, r2, c) {
                            let j = choose|j: int| 0 <= j < cells.len()
                                && ((#[trigger] cells[j]).0, cells[j].1) == (r2, c);
                            crate::model::lemma_grid_at(cells, j);
                        }
                    }
                }
            }
            OdsSheetContent {
                column_repeat: Some((max_col as u64) + 1),
                rows,
            }
        },
    }
}

/// Whether some entry carries the given address.
pub open spec fn grid_contains(cells: Seq<EntryModel>, r: int, c: int) -> bool {
    exists|j: int| 0 <= j < cells.len() && ((#[trigger] cells[j]).0, cells[j].1) == (r, c)
}

/// One present cell as a record.
pub fn make_content_xml_table_cell(cell: &Cell, date_hash: &Vec<(String, String)>)
    -> (r: OdsCellRecord)
    requires
        cell@.wf(),
        cell@.value is Date ==> spec_tokenize(cell@.style) is Some
            && exists|j: int| 0 <= j < date_hash@.len()
                && (#[trigger] date_hash@[j]).0@ == cell@.style,
    ensures
        ods_record_for(r, cell@, date_hash@),
{
    match cell.get_value() {
        Value::Str(t) => OdsCellRecord::Str { text: t.clone() },
        Value::Float(t) => OdsCellRecord::Float { text: t.clone() },
        Value::Currency(t) => OdsCellRecord::Float { text: t.clone() },
        Value::Date(dt) => {
            let style_name = match style_name_of(date_hash, cell.get_style().get_format()) {
                Some(v) => v.clone(),
                None => {
                    proof {
                        assert(false);
                    }
                    unreached()
                },
            };
            let display = match cell.get_formated_value() {
                Some(v) => v,
                None => {
                    proof {
                        assert(false);
                    }
                    unreached()
                },
            };
            OdsCellRecord::Date {
                style_name,
                date_value: iso_string(dt),
                display,
            }
        },
    }
}

} // verus!
