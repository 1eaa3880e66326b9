//! Reading one worksheet part into a sheet: row and cell elements set the
//! cursor, each value end-tag stores a cell — a shared string, a date read
//! back from its serial day number when the cell's style names a date
//! format, or a plain number.

use crate::address::{all_digits, cell_ref_split, digits_val, is_digit, parse_usize};
use crate::address::lemma_digits_prefix_le;
use crate::tokens::lemma_find_idx_is;
use crate::address::column_and_row_to_index;
use crate::instant::{instant_of_serial, number_to_date};
use crate::markup::{attr_of, find_attr, string_eq, MarkupEvent};
use crate::model::{Cell, CellModel, Sheet, Value, ValueModel};
use crate::style::Style;
use crate::tokens::find_idx;
use crate::xlsx::read_styles::XfStyle;
use crate::xlsx::write_styles::strs_view;
use vstd::prelude::*;

verus! {

/// The models of the cell-style records.
pub open spec fn xfs_view(s: Seq<XfStyle>) -> Seq<Option<Seq<char>>> {
    s.map_values(|x: XfStyle| x@)
}

/// Powers of ten.
pub open spec fn pow10(k: int) -> int
    decreases k,
{
    if k <= 0 {
        1
    } else {
        10 * pow10(k - 1)
    }
}

/// Powers of ten grow with the exponent.
proof fn lemma_pow10_mono(a: int, b: int)
    requires
        a <= b,
    ensures
        pow10(a) <= pow10(b),
    decreases b - a,
{
    if a < b {
        lemma_pow10_mono(a, b - 1);
        assert(pow10(b - 1) >= 1) by {
            lemma_pow10_pos(b - 1);
        }
    }
}

/// Powers of ten are positive.
proof fn lemma_pow10_pos(a: int)
    ensures
        pow10(a) >= 1,
    decreases (if a > 0 { a } else { 0 }),
{
    if a > 0 {
        lemma_pow10_pos(a - 1);
    }
}

/// Powers of ten multiply by adding exponents.
proof fn lemma_pow10_mul(a: int, b: int)
    requires
        a >= 0,
        b >= 0,
    ensures
        pow10(a) * pow10(b) == pow10(a + b),
    decreases a,
{
    if a == 0 {
    } else {
        lemma_pow10_mul(a - 1, b);
        assert(pow10(a) * pow10(b) == 10 * pow10(a - 1) * pow10(b));
        assert(10 * pow10(a - 1) * pow10(b) == 10 * (pow10(a - 1) * pow10(b)))
            by (nonlinear_arith);
    }
}

/// Powers of ten as machine words, up to seven places.
fn pow10_exec(k: usize) -> (r: u64)
    requires
        k <= 7,
    ensures
        r == pow10(k as int),
        r > 0,
{
    let r: u64 = match k {
        0 => 1, 1 => 10, 2 => 100, 3 => 1000, 4 => 10000,
        5 => 100000, 6 => 1000000, _ => 10000000,
    };
    proof {
        reveal_with_fuel(pow10, 8);
    }
    r
}

/// The value of a digit run is bounded by the power of ten of its length.
proof fn lemma_digits_val_bound(s: Seq<char>)
    requires
        all_digits(s),
    ensures
        0 <= digits_val(s) < pow10(s.len() as int),
    decreases s.len(),
{
    if s.len() > 0 {
        lemma_digits_val_bound(s.drop_last());
    }
}

/// The fractional digits of a serial number, read to seven places: the
/// value of the first seven digits, shorter runs padded with zeros.
pub open spec fn frac7_val(fp: Seq<char>) -> int {
    if fp.len() >= 7 {
        digits_val(fp.take(7))
    } else {
        digits_val(fp) * pow10(7 - fp.len())
    }
}

/// The serial day count and second of day a serial number's decimal text
/// denotes: the digits before the point are the day count, the digits
/// after it are read to seven places and rounded to the nearest second; a
/// fraction that rounds to a whole day wraps to second zero, as the
/// second-of-day reconstruction leaves it. Text that is not a plain
/// decimal number, or whose day count is out of calendar range, denotes
/// nothing.
pub open spec fn serial_text_spec(s: Seq<char>) -> Option<(int, int)> {
    let split = find_idx(s, '.');
    let ip = match split {
        Some(p) => s.take(p),
        None => s,
    };
    let fp = match split {
        Some(p) => s.skip(p + 1),
        None => Seq::empty(),
    };
    if ip.len() >= 1 && all_digits(ip) && all_digits(fp) && digits_val(ip) <= 4000000 {
        let secs0 = (86400 * frac7_val(fp) + 5000000) / 10000000;
        Some((digits_val(ip), if secs0 == 86400 { 0 } else { secs0 }))
    } else {
        None
    }
}

/// The position of the first occurrence of a character, or the length when
/// there is none.
fn find_char_pos(s: &str, c: char) -> (p: usize)
    ensures
        p <= s@.len(),
        forall|k: int| 0 <= k < p ==> s@[k] != c,
        p < s@.len() ==> s@[p as int] == c,
        find_idx(s@, c) == if p < s@.len() { Some(p as int) } else { None::<int> },
{
    let len = s.unicode_len();
    let mut p: usize = 0;
    while p < len
        invariant
            len == s@.len(),
            0 <= p <= len,
            forall|k: int| 0 <= k < p ==> s@[k] != c,
        decreases len - p,
    {
        if s.get_char(p) == c {
            proof {
                lemma_find_idx_is(s@, c, p as int);
            }
            return p;
        }
        p = p + 1;
    }
    proof {
        lemma_find_idx_is(s@, c, p as int);
    }
    p
}

/// Parses a serial number's decimal text into its day count and second of
/// day.
#[verifier::loop_isolation(false)]
pub fn serial_text_to_pair(s: &str) -> (r: Option<(i64, u32)>)
    ensures
        match r {
            Some(p) => serial_text_spec(s@) == Some((p.0 as int, p.1 as int)),
            None => serial_text_spec(s@) is None,
        },
{
    let len = s.unicode_len();

    // Find the decimal point.
    let p = find_char_pos(s, '.');
    let ghost ip = if p < len { s@.take(p as int) } else { s@ };
    let ghost fp = if p < len { s@.skip(p as int + 1) } else { Seq::<char>::empty() };
    proof {
        if p == len {
            assert(ip =~= s@);
        }
    }

    // The whole days.
    if p == 0 {
        return None;
    }
    let mut days: u64 = 0;
    let mut i: usize = 0;
    while i < p
        invariant
            len == s@.len(),
            0 < p <= len,
            0 <= i <= p,
            ip == s@.take(p as int),
            forall|k: int| 0 <= k < i ==> is_digit(#[trigger] ip[k]),
            days == digits_val(ip.take(i as int)),
            days <= 4000000,
        decreases p - i,
    {
        let c = s.get_char(i);
        if !('0' <= c && c <= '9') {
            proof {
                assert(ip[i as int] == c);
                assert(!all_digits(ip));
            }
            return None;
        }
        let d = (c as u32 - '0' as u32) as u64;
        proof {
            assert(ip.take(i + 1).drop_last() =~= ip.take(i as int));
            assert(ip.take(i + 1).last() == c);
        }
        let next = days * 10 + d;
        if next > 4000000 {
            proof {
                assert(digits_val(ip.take(i + 1)) > 4000000);
                if all_digits(ip) {
                    lemma_digits_prefix_le(ip, (i as int) + 1);
                }
            }
            return None;
        }
        days = next;
        i = i + 1;
    }
    proof {
        assert(ip.take(p as int) =~= ip);
        assert(all_digits(ip));
    }

    // The fractional digits, read to seven places.
    let mut frac: u64 = 0;
    let mut k: usize = 0;
    let fstart = if p < len { p + 1 } else { len };
    proof {
        if p < len {
            assert(fp =~= s@.skip(p as int + 1));
        }
        assert(fp.len() == len - fstart);
        assert(fp.take(0) =~= Seq::<char>::empty());
    }
    while k < len - fstart
        invariant
            len == s@.len(),
            fstart + fp.len() == len,
            forall|j: int| 0 <= j < fp.len() ==> fp[j] == s@[fstart + j],
            0 <= k <= fp.len(),
            forall|j: int| 0 <= j < k ==> is_digit(#[trigger] fp[j]),
            k <= 7 ==> frac == digits_val(fp.take(k as int)),
            k > 7 ==> frac == digits_val(fp.take(7)),
            frac < pow10(if k < 7 { k as int } else { 7 }),
        decreases len - fstart - k,
    {
        let c = s.get_char(fstart + k);
        proof {
            assert(fp[k as int] == c);
        }
        if !('0' <= c && c <= '9') {
            proof {
                assert(!all_digits(fp));
            }
            return None;
        }
        if k < 7 {
            let d = (c as u32 - '0' as u32) as u64;
            proof {
                assert(fp.take(k + 1).drop_last() =~= fp.take(k as int));
                assert(fp.take(k + 1).last() == c);
                lemma_pow10_mono(k as int, 6);
                assert(pow10(6) == 1000000) by {
                    reveal_with_fuel(pow10, 8);
                }
                assert(frac < 1000000);
            }
            frac = frac * 10 + d;
        }
        k = k + 1;
    }
    proof {
        assert(fp.take(fp.len() as int) =~= fp);
        assert(all_digits(fp));
        if fp.len() < 7 {
            lemma_digits_val_bound(fp);
        }
    }

    // Scale shorter fractions to seven places.
    let fill: usize = if len - fstart < 7 { 7 - (len - fstart) } else { 0 };
    let mult: u64 = pow10_exec(fill);
    proof {
        reveal_with_fuel(pow10, 8);
        if fp.len() >= 7 {
            assert(fill == 0);
            assert(mult == 1);
            assert(frac == digits_val(fp.take(7)));
            assert(frac * mult == frac) by (nonlinear_arith)
                requires mult == 1,
            ;
            assert(frac * mult == frac7_val(fp));
        } else {
            assert(frac == digits_val(fp));
            assert(fill as int == 7 - fp.len() as int);
            assert(mult == pow10(7 - fp.len() as int));
            assert(frac * mult == frac7_val(fp));
            assert(frac < pow10(fp.len() as int));
            assert(frac * mult < pow10(fp.len() as int) * pow10(fill as int))
                by (nonlinear_arith)
                requires frac < pow10(fp.len() as int), mult == pow10(fill as int),
                    mult > 0, frac >= 0,
            ;
            lemma_pow10_mul(fp.len() as int, fill as int);
        }
        assert(frac * mult < 10000000);
    }
    let scaled: u64 = frac * mult;
    let secs0 = (86400u64 * scaled + 5000000) / 10000000;
    let secs = if secs0 == 86400 { 0 } else { secs0 as u32 };
    proof {
        assert(86400 * scaled + 5000000 < 86400 * 10000000 + 5000000) by (nonlinear_arith)
            requires scaled < 10000000,
        ;
        assert(secs0 <= 86400) by (nonlinear_arith)
            requires secs0 == (86400 * scaled + 5000000) / 10000000,
                86400 * scaled + 5000000 < 86400 * 10000000 + 5000000,
                secs0 >= 0,
        ;
    }
    Some((days as i64, secs))
}

/// The worksheet reader's state: the cursor row and column, the last
/// character data, the last cell type and style index read (kept across
/// events, as repeated assignment leaves them), and the grid built so far.
pub struct SheetReadState {
    pub row: int,
    pub col: int,
    pub text: Seq<char>,
    pub typ: Seq<char>,
    pub style_idx: int,
    pub grid: Map<(int, int), CellModel>,
}

/// The state before any event.
pub open spec fn sheet_read_init() -> SheetReadState {
    SheetReadState {
        row: 0,
        col: 0,
        text: Seq::empty(),
        typ: Seq::empty(),
        style_idx: 0,
        grid: Map::empty(),
    }
}

/// The cell a value end-tag stores, given the reader's state and the
/// shared-string and style tables: a shared string for type `s`, else a
/// date when the style names a format, else a plain number. A reference
/// the tables cannot resolve stores nothing.
pub open spec fn stored_cell(
    st: SheetReadState,
    shared: Seq<Seq<char>>,
    styles: Seq<Option<Seq<char>>>,
) -> Option<CellModel> {
    if st.typ == "s"@ {
        if st.text.len() > 0 && all_digits(st.text) && digits_val(st.text) <= usize::MAX
            && digits_val(st.text) < shared.len() {
            Some(CellModel {
                value: ValueModel::Str(shared[digits_val(st.text)]),
                style: Seq::empty(),
            })
        } else {
            None
        }
    } else if 0 <= st.style_idx < styles.len() {
        match styles[st.style_idx] {
            Some(code) => match serial_text_spec(st.text) {
                Some((days, secs)) => match instant_of_serial(days, secs) {
                    Some(t) => Some(CellModel { value: ValueModel::Date(t), style: code }),
                    None => None,
                },
                None => None,
            },
            None => Some(CellModel {
                value: ValueModel::Float(st.text),
                style: Seq::empty(),
            }),
        }
    } else {
        None
    }
}

/// One event's effect on the worksheet reader's state.
pub open spec fn sheet_read_step(
    st: SheetReadState,
    e: MarkupEvent,
    shared: Seq<Seq<char>>,
    styles: Seq<Option<Seq<char>>>,
) -> SheetReadState {
    match e {
        MarkupEvent::Start { name, attrs } => {
            if name@ == "row"@ {
                match attr_of(attrs@, "r"@) {
                    Some(v) => if v.len() > 0 && all_digits(v) && 1 <= digits_val(v)
                        && digits_val(v) <= usize::MAX {
                        SheetReadState { row: digits_val(v) - 1, ..st }
                    } else {
                        st
                    },
                    None => st,
                }
            } else if name@ == "c"@ {
                let st1 = match attr_of(attrs@, "r"@) {
                    Some(v) => match cell_ref_split(v) {
                        Some(p) => SheetReadState { col: p.0, ..st },
                        None => st,
                    },
                    None => st,
                };
                let st2 = match attr_of(attrs@, "s"@) {
                    Some(v) => if v.len() > 0 && all_digits(v)
                        && digits_val(v) <= usize::MAX {
                        SheetReadState { style_idx: digits_val(v), ..st1 }
                    } else {
                        st1
                    },
                    None => st1,
                };
                match attr_of(attrs@, "t"@) {
                    Some(v) => SheetReadState { typ: v, ..st2 },
                    None => st2,
                }
            } else {
                st
            }
        },
        MarkupEvent::End { name } => {
            if name@ == "v"@ {
                match stored_cell(st, shared, styles) {
                    Some(c) => SheetReadState {
                        grid: st.grid.insert((st.row, st.col), c),
                        ..st
                    },
                    None => st,
                }
            } else {
                st
            }
        },
        MarkupEvent::Text(t) => SheetReadState { text: t@, ..st },
        _ => st,
    }
}

/// The state after a whole event sequence.
pub open spec fn sheet_read_fold(
    events: Seq<MarkupEvent>,
    shared: Seq<Seq<char>>,
    styles: Seq<Option<Seq<char>>>,
) -> SheetReadState
    decreases events.len(),
{
    if events.len() == 0 {
        sheet_read_init()
    } else {
        sheet_read_step(
            sheet_read_fold(events.drop_last(), shared, styles),
            events.last(),
            shared,
            styles,
        )
    }
}

/// Reads one worksheet part's events into a sheet with the given name,
/// resolving shared strings and date formats through the given tables.
pub fn read(
    events: &Vec<MarkupEvent>,
    name: &str,
    shared_strings: &Vec<String>,
    styles: &Vec<XfStyle>,
) -> (r: Sheet)
    ensures
        r@.wf(),
        r@.name == name@,
        r@.grid() == sheet_read_fold(events@, strs_view(shared_strings@),
                                     xfs_view(styles@)).grid,
{
    let ghost shared = strs_view(shared_strings@);
    let ghost sty = xfs_view(styles@);
    let mut sheet = Sheet::new(name);
    let mut row: usize = 0;
    let mut col: usize = 0;
    let mut text = String::new();
    let mut typ = String::new();
    let mut style_idx: usize = 0;
    let mut i: usize = 0;
    proof {
        assert(events@.take(0) =~= Seq::<MarkupEvent>::empty());
        assert(sheet@.grid() =~= Map::<(int, int), CellModel>::empty());
        reveal_strlit("");
    }
    while i < events.len()
        invariant
            0 <= i <= events.len(),
            shared == strs_view(shared_strings@),
            sty == xfs_view(styles@),
            shared.len() == shared_strings@.len(),
            sty.len() == styles@.len(),
            sheet@.wf(),
            sheet@.name == name@,
            row == sheet_read_fold(events@.take(i as int), shared, sty).row,
            col == sheet_read_fold(events@.take(i as int), shared, sty).col,
            text@ == sheet_read_fold(events@.take(i as int), shared, sty).text,
            typ@ == sheet_read_fold(events@.take(i as int), shared, sty).typ,
            style_idx == sheet_read_fold(events@.take(i as int), shared, sty).style_idx,
            sheet@.grid() == sheet_read_fold(events@.take(i as int), shared, sty).grid,
        decreases events.len() - i,
    {
        let ghost pre = events@.take(i as int);
        let ghost post = events@.take(i + 1);
        let ghost st = sheet_read_fold(pre, shared, sty);
        proof {
            assert(post.drop_last() =~= pre);
            assert(post.last() == events@[i as int]);
        }
        match &events[i] {
            MarkupEvent::Start { name: ename, attrs } => {
                if string_eq(ename, "row") {
                    match find_attr(attrs, "r") {
                        Some(v) => match parse_usize(v.as_str()) {
                            Some(n) => {
                                if n >= 1 {
                                    row = n - 1;
                                }
                            },
                            None => {},
                        },
                        None => {},
                    }
                } else if string_eq(ename, "c") {
                    match find_attr(attrs, "r") {
                        Some(v) => match column_and_row_to_index(v.as_str()) {
                            Some(p) => {
                                col = p.0;
                            },
                            None => {},
                        },
                        None => {},
                    }
                    match find_attr(attrs, "s") {
                        Some(v) => match parse_usize(v.as_str()) {
                            Some(n) => {
                                style_idx = n;
                            },
                            None => {},
                        },
                        None => {},
                    }
                    match find_attr(attrs, "t") {
                        Some(v) => {
                            typ = v.clone();
                        },
                        None => {},
                    }
                } else {
                }
            },
            MarkupEvent::End { name: ename } => {
                if string_eq(ename, "v") {
                    if string_eq(&typ, "s") {
                        match parse_usize(text.as_str()) {
                            Some(ix) => {
                                if ix < shared_strings.len() {
                                    let cell = Cell::str(shared_strings[ix].as_str());
                                    proof {
                                        assert(shared[ix as int] == shared_strings@[ix as int]@);
                                        assert(stored_cell(st, shared, sty) == Some(cell@));
                                    }
                                    sheet.add_cell(cell, row, col);
                                }
                            },
                            None => {},
                        }
                    } else if style_idx < styles.len() {
                        match &styles[style_idx].format_code {
                            Some(code) => {
                                match serial_text_to_pair(text.as_str()) {
                                    Some((days, secs)) => {
                                        match number_to_date(days, secs) {
                                            Some(t) => {
                                                let cell = Cell::new(
                                                    Value::Date(t),
                                                    Style::new(code.as_str()),
                                                );
                                                proof {
                                                    assert(sty[style_idx as int]
                                                        == styles@[style_idx as int]@);
                                                    assert(stored_cell(st, shared, sty)
                                                        == Some(cell@));
                                                }
                                                sheet.add_cell(cell, row, col);
                                            },
                                            None => {},
                                        }
                                    },
                                    None => {},
                                }
                            },
                            None => {
                                let cell = Cell::float(text.as_str());
                                proof {
                                    assert(sty[style_idx as int] == styles@[style_idx as int]@);
                                    assert(stored_cell(st, shared, sty) == Some(cell@));
                                }
                                sheet.add_cell(cell, row, col);
                            },
                        }
                    }
                }
            },
            MarkupEvent::Text(t) => {
                text = t.clone();
            },
            _ => {},
        }
        i = i + 1;
    }
    proof {
        assert(events@.take(events@.len() as int) =~= events@);
    }
    sheet
}

} // verus!
