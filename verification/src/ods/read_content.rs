//! Reading the content part into a book: table elements open sheets, row
//! and cell end-tags advance the cursor and store cells, repeated empty
//! cells skip columns, and the embedded date styles name the format-spec
//! strings that date cells refer to through their cell styles.

use crate::instant::parse_date_source;
use crate::markup::{assoc_map, attr_of, find_attr, lemma_assoc_lookup, string_eq, MarkupEvent};
use crate::model::{Book, Cell, CellModel, Sheet, SheetModel, Value, ValueModel};
use crate::style::Style;
use crate::ods::read_style::StyleContent;
use crate::ods::{decode_date_style, lemma_decode_date_style_bounds, read_number_date_style};
use vstd::prelude::*;

verus! {

/// Adding with the column cursor's saturation at the machine word.
pub open spec fn sat_add(a: int, n: int) -> int {
    if a + n <= usize::MAX {
        a + n
    } else {
        usize::MAX as int
    }
}

/// The content reader's state: the finished sheets as name/grid pairs, the
/// open sheet's name and grid, the cursor, the last cell fields read, and
/// the date-style tables gathered so far.
pub struct ContentState {
    pub sheets: Seq<(Seq<char>, Map<(int, int), CellModel>)>,
    pub cur_name: Seq<char>,
    pub cur_grid: Map<(int, int), CellModel>,
    pub row: int,
    pub col: int,
    pub cell_type: Seq<char>,
    pub float_text: Seq<char>,
    pub str_text: Seq<char>,
    pub date_text: Seq<char>,
    pub style_name: Seq<char>,
    pub date_styles: Map<Seq<char>, Seq<char>>,
    pub style_for_date: Map<Seq<char>, Seq<char>>,
}

/// The state before any event.
pub open spec fn content_init() -> ContentState {
    ContentState {
        sheets: Seq::empty(),
        cur_name: Seq::empty(),
        cur_grid: Map::empty(),
        row: 0,
        col: 0,
        cell_type: Seq::empty(),
        float_text: Seq::empty(),
        str_text: Seq::empty(),
        date_text: Seq::empty(),
        style_name: Seq::empty(),
        date_styles: Map::empty(),
        style_for_date: Map::empty(),
    }
}

/// The cell a cell end-tag stores, by the last cell type read: text and
/// numbers carry their text with the default style; a date carries the
/// instant its stored value parses to and the format its cell style names,
/// or nothing when the value is no well-formed date; any other type stores
/// nothing.
pub open spec fn ods_stored_cell(st: ContentState) -> Option<CellModel> {
    if st.cell_type == "string"@ {
        Some(CellModel { value: ValueModel::Str(st.str_text), style: Seq::empty() })
    } else if st.cell_type == "float"@ {
        Some(CellModel { value: ValueModel::Float(st.float_text), style: Seq::empty() })
    } else if st.cell_type == "date"@ {
        let fmt = if st.style_for_date.contains_key(st.style_name) {
            st.style_for_date[st.style_name]
        } else {
            Seq::empty()
        };
        match parse_date_source(st.date_text) {
            Some(t) => Some(CellModel { value: ValueModel::Date(t), style: fmt }),
            None => None,
        }
    } else {
        None
    }
}

/// One ordinary event's effect on the content reader's state; the embedded
/// date styles are handled by the scan itself.
pub open spec fn content_step(st: ContentState, e: MarkupEvent, pre: Map<Seq<char>, Seq<char>>)
    -> ContentState {
    match e {
        MarkupEvent::Start { name, attrs } => {
            if name@ == "table:table"@ {
                match attr_of(attrs@, "table:name"@) {
                    Some(nm) => ContentState { cur_name: nm, ..st },
                    None => st,
                }
            } else if name@ == "table:table-cell"@ {
                let st1 = match attr_of(attrs@, "table:style-name"@) {
                    Some(v) => ContentState { style_name: v, ..st },
                    None => st,
                };
                let st2 = match attr_of(attrs@, "office:value-type"@) {
                    Some(v) => ContentState { cell_type: v, ..st1 },
                    None => st1,
                };
                let st3 = match attr_of(attrs@, "office:value"@) {
                    Some(v) => ContentState { float_text: v, ..st2 },
                    None => st2,
                };
                match attr_of(attrs@, "office:date-value"@) {
                    Some(v) => ContentState { date_text: v, ..st3 },
                    None => st3,
                }
            } else {
                st
            }
        },
        MarkupEvent::End { name } => {
            if name@ == "table:table"@ {
                ContentState {
                    sheets: st.sheets.push((st.cur_name, st.cur_grid)),
                    cur_name: Seq::empty(),
                    cur_grid: Map::empty(),
                    row: 0,
                    col: 0,
                    ..st
                }
            } else if name@ == "table:table-row"@ {
                ContentState { row: sat_add(st.row, 1), col: 0, ..st }
            } else if name@ == "table:table-cell"@ {
                let st1 = match ods_stored_cell(st) {
                    Some(c) => ContentState {
                        cur_grid: st.cur_grid.insert((st.row, st.col), c),
                        ..st
                    },
                    None => st,
                };
                ContentState {
                    cell_type: Seq::empty(),
                    col: sat_add(st1.col, 1),
                    ..st1
                }
            } else {
                st
            }
        },
        MarkupEvent::Empty { name, attrs } => {
            if name@ == "table:table-cell"@ {
                if attrs@.len() == 0 {
                    ContentState { col: sat_add(st.col, 1), ..st }
                } else {
                    match attr_of(attrs@, "table:number-columns-repeated"@) {
                        Some(v) => if v.len() > 0 && crate::address::all_digits(v)
                            && crate::address::digits_val(v) <= usize::MAX {
                            ContentState {
                                col: sat_add(st.col, crate::address::digits_val(v)),
                                ..st
                            }
                        } else {
                            st
                        },
                        None => st,
                    }
                }
            } else if name@ == "style:style"@ {
                let nm = match attr_of(attrs@, "style:name"@) {
                    Some(v) => v,
                    None => Seq::empty(),
                };
                let data = match attr_of(attrs@, "style:data-style-name"@) {
                    Some(v) => v,
                    None => Seq::empty(),
                };
                if data.len() > 0 && st.date_styles.contains_key(data) {
                    ContentState {
                        style_for_date: st.style_for_date.insert(nm, st.date_styles[data]),
                        ..st
                    }
                } else if data.len() > 0 && pre.contains_key(data) {
                    ContentState {
                        style_for_date: st.style_for_date.insert(nm, pre[data]),
                        ..st
                    }
                } else {
                    st
                }
            } else {
                st
            }
        },
        MarkupEvent::Text(t) => ContentState { str_text: t@, ..st },
    }
}

/// The state after scanning the content part's events from position `i`:
/// each named date-style start tag records the format its element run
/// writes back and the scan resumes after the style's end tag; every other
/// event steps the reader.
pub open spec fn content_scan(
    events: Seq<MarkupEvent>,
    i: int,
    st: ContentState,
    pre: Map<Seq<char>, Seq<char>>,
) -> ContentState
    decreases events.len() - i,
{
    if i < 0 || i >= events.len() {
        st
    } else {
        match events[i] {
            MarkupEvent::Start { name, attrs } => {
                if name@ == "number:date-style"@ {
                    match attr_of(attrs@, "style:name"@) {
                        Some(nm) => {
                            let fmt = decode_date_style(events, i + 1, Seq::empty(), true).0;
                            let j = decode_date_style(events, i + 1, Seq::empty(), true).1;
                            let st1 = ContentState {
                                date_styles: st.date_styles.insert(nm, fmt),
                                ..st
                            };
                            if i + 1 <= j <= events.len() {
                                content_scan(events, j, st1, pre)
                            } else {
                                st1
                            }
                        },
                        None => content_scan(events, i + 1, st, pre),
                    }
                } else {
                    content_scan(events, i + 1, content_step(st, events[i], pre), pre)
                }
            },
            _ => content_scan(events, i + 1, content_step(st, events[i], pre), pre),
        }
    }
}

/// Reads the content part's events into a book, resolving date formats
/// through the embedded date styles and the style part's table.
pub fn read(events: &Vec<MarkupEvent>, style_content: &StyleContent) -> (r: Book)
    ensures
        ({
            let fin = content_scan(events@, 0, content_init(),
                                   assoc_map(style_content.date_style_map@));
            &&& r@.len() == fin.sheets.len()
            &&& forall|k: int| 0 <= k < r@.len() ==> {
                &&& (#[trigger] r@[k]).wf()
                &&& r@[k].name == fin.sheets[k].0
                &&& r@[k].grid() == fin.sheets[k].1
            }
        }),
{
    let ghost pre = assoc_map(style_content.date_style_map@);
    let mut book = Book::new();
    let mut sheet = Sheet::new("");
    let mut row: usize = 0;
    let mut col: usize = 0;
    let mut cell_type = String::new();
    let mut float_text = String::new();
    let mut str_text = String::new();
    let mut date_text = String::new();
    let mut style_name = String::new();
    let mut date_styles: Vec<(String, String)> = Vec::new();
    let mut style_for_date: Vec<(String, String)> = Vec::new();
    let mut i: usize = 0;
    let ghost init = content_init();
    proof {
        reveal_strlit("");
        assert(assoc_map(date_styles@) =~= Map::<Seq<char>, Seq<char>>::empty());
        assert(assoc_map(style_for_date@) =~= Map::<Seq<char>, Seq<char>>::empty());
        assert(book@ =~= Seq::<SheetModel>::empty());
        assert(sheet@.grid() =~= Map::<(int, int), CellModel>::empty());
        let st0 = ContentState {
            sheets: Seq::new(book@.len() as nat, |k: int| (book@[k].name, book@[k].grid())),
            cur_name: sheet@.name,
            cur_grid: sheet@.grid(),
            row: row as int,
            col: col as int,
            cell_type: cell_type@,
            float_text: float_text@,
            str_text: str_text@,
            date_text: date_text@,
            style_name: style_name@,
            date_styles: assoc_map(date_styles@),
            style_for_date: assoc_map(style_for_date@),
        };
        assert(st0.sheets =~= init.sheets);
        assert(""@ =~= Seq::<char>::empty());
        assert(st0 == init);
    }
    while i < events.len()
        invariant
            0 <= i <= events@.len(),
            pre == assoc_map(style_content.date_style_map@),
            sheet@.wf(),
            ({
                let st = ContentState {
                    sheets: Seq::new(book@.len() as nat, |k: int| (book@[k].name,
                                                                   book@[k].grid())),
                    cur_name: sheet@.name,
                    cur_grid: sheet@.grid(),
                    row: row as int,
                    col: col as int,
                    cell_type: cell_type@,
                    float_text: float_text@,
                    str_text: str_text@,
                    date_text: date_text@,
                    style_name: style_name@,
                    date_styles: assoc_map(date_styles@),
                    style_for_date: assoc_map(style_for_date@),
                };
                content_scan(events@, 0, init, pre) == content_scan(events@, i as int, st, pre)
            }),
            forall|k: int| 0 <= k < book@.len() ==> (#[trigger] book@[k]).wf(),
        decreases events@.len() - i,
    {
        let ghost st = ContentState {
            sheets: Seq::new(book@.len() as nat, |k: int| (book@[k].name, book@[k].grid())),
            cur_name: sheet@.name,
            cur_grid: sheet@.grid(),
            row: row as int,
            col: col as int,
            cell_type: cell_type@,
            float_text: float_text@,
            str_text: str_text@,
            date_text: date_text@,
            style_name: style_name@,
            date_styles: assoc_map(date_styles@),
            style_for_date: assoc_map(style_for_date@),
        };
        let ghost i0 = i as int;
        proof {
            reveal_strlit("");
            reveal_strlit("number:date-style");
            reveal_strlit("table:table");
            reveal_strlit("table:table-cell");
            reveal_strlit("table:table-row");
            reveal_strlit("style:style");
            assert("number:date-style"@.len() == 17);
            assert("table:table"@.len() == 11);
            assert("table:table-cell"@.len() == 16);
            assert("table:table-row"@.len() == 15);
            assert("style:style"@.len() == 11);
            assert("style:style"@[0] == 's' && "table:table"@[0] == 't');
        }
        let mut jumped = false;
        match &events[i] {
            MarkupEvent::Start { name, attrs } => {
                if string_eq(name, "number:date-style") {
                    match find_attr(attrs, "style:name") {
                        Some(nm) => {
                            proof {
                                lemma_decode_date_style_bounds(
                                    events@, i as int + 1, Seq::empty(), true);
                            }
                            let (fmt, j) = read_number_date_style(events, i + 1);
                            let ghost before = date_styles@;
                            date_styles.push((nm.clone(), fmt));
                            proof {
                                assert(date_styles@.drop_last() =~= before);
                                assert(assoc_map(date_styles@)
                                    == assoc_map(before).insert(
                                        date_styles@.last().0@, date_styles@.last().1@));
                            }
                            let ghost st1 = ContentState {
                                date_styles: assoc_map(date_styles@),
                                ..st
                            };
                            proof {
                                assert(content_scan(events@, i0, st, pre)
                                    == content_scan(events@, j as int, st1, pre));
                            }
                            i = j;
                            jumped = true;
                        },
                        None => {},
                    }
                } else if string_eq(name, "table:table") {
                    match find_attr(attrs, "table:name") {
                        Some(nm) => {
                            sheet.set_name(nm.as_str());
                        },
                        None => {},
                    }
                } else if string_eq(name, "table:table-cell") {
                    match find_attr(attrs, "table:style-name") {
                        Some(v) => {
                            style_name = v.clone();
                        },
                        None => {},
                    }
                    match find_attr(attrs, "office:value-type") {
                        Some(v) => {
                            cell_type = v.clone();
                        },
                        None => {},
                    }
                    match find_attr(attrs, "office:value") {
                        Some(v) => {
                            float_text = v.clone();
                        },
                        None => {},
                    }
                    match find_attr(attrs, "office:date-value") {
                        Some(v) => {
                            date_text = v.clone();
                        },
                        None => {},
                    }
                }
            },
            MarkupEvent::End { name } => {
                if string_eq(name, "table:table") {
                    let ghost old_book = book@;
                    book.add_sheet(sheet);
                    sheet = Sheet::new("");
                    row = 0;
                    col = 0;
                    proof {
                        assert(""@ =~= Seq::<char>::empty());
                        assert(sheet@.grid() =~= Map::<(int, int), CellModel>::empty());
                        assert(Seq::new(book@.len() as nat,
                                |k: int| (book@[k].name, book@[k].grid()))
                            =~= st.sheets.push((st.cur_name, st.cur_grid)));
                    }
                } else if string_eq(name, "table:table-row") {
                    row = match row.checked_add(1) {
                        Some(v) => v,
                        None => usize::MAX,
                    };
                    col = 0;
                } else if string_eq(name, "table:table-cell") {
                    if string_eq(&cell_type, "string") {
                        let cell = Cell::str(str_text.as_str());
                        proof {
                            assert(ods_stored_cell(st) == Some(cell@));
                        }
                        sheet.add_cell(cell, row, col);
                    } else if string_eq(&cell_type, "float") {
                        let cell = Cell::float(float_text.as_str());
                        proof {
                            assert(ods_stored_cell(st) == Some(cell@));
                        }
                        sheet.add_cell(cell, row, col);
                    } else if string_eq(&cell_type, "date") {
                        proof {
                            lemma_assoc_lookup(style_for_date@, style_name@);
                        }
                        let ghost efmt: Seq<char> = if st.style_for_date.contains_key(
                            st.style_name) {
                            st.style_for_date[st.style_name]
                        } else {
                            Seq::empty()
                        };
                        let fmt: Style = match find_attr(&style_for_date, style_name.as_str()) {
                            Some(v) => {
                                proof {
                                    assert(st.style_for_date[st.style_name] == v@);
                                }
                                Style::new(v.as_str())
                            },
                            None => {
                                proof {
                                    reveal_strlit("");
                                    assert(""@ =~= Seq::<char>::empty());
                                }
                                Style::new("")
                            },
                        };
                        proof {
                            assert(fmt@ == efmt);
                        }
                        match Cell::date_with_style(date_text.as_str(), fmt) {
                            Ok(cell) => {
                                proof {
                                    assert(cell@.style == efmt);
                                    assert(cell@.value == ValueModel::Date(
                                        parse_date_source(date_text@)->Some_0));
                                    assert(ods_stored_cell(st) == Some(cell@));
                                }
                                sheet.add_cell(cell, row, col);
                            },
                            Err(_) => {
                                proof {
                                    assert(ods_stored_cell(st) is None);
                                }
                            },
                        }
                    } else {
                        proof {
                            assert(ods_stored_cell(st) is None);
                        }
                    }
                    cell_type = String::new();
                    col = match col.checked_add(1) {
                        Some(v) => v,
                        None => usize::MAX,
                    };
                }
            },
            MarkupEvent::Empty { name, attrs } => {
                if string_eq(name, "table:table-cell") {
                    if attrs.len() == 0 {
                        col = match col.checked_add(1) {
                            Some(v) => v,
                            None => usize::MAX,
                        };
                    } else {
                        match find_attr(attrs, "table:number-columns-repeated") {
                            Some(v) => match crate::address::parse_usize(v.as_str()) {
                                Some(n) => {
                                    col = match col.checked_add(n) {
                                        Some(w) => w,
                                        None => usize::MAX,
                                    };
                                },
                                None => {},
                            },
                            None => {},
                        }
                    }
                } else if string_eq(name, "style:style") {
                    let nm: String = match find_attr(attrs, "style:name") {
                        Some(v) => v.clone(),
                        None => String::new(),
                    };
                    let data: Option<&String> = find_attr(attrs, "style:data-style-name");
                    match data {
                        Some(d) => {
                            if d.as_str().unicode_len() > 0 {
                                proof {
                                    lemma_assoc_lookup(date_styles@, d@);
                                }
                                match find_attr(&date_styles, d.as_str()) {
                                    Some(f) => {
                                        let ghost before = style_for_date@;
                                        style_for_date.push((nm, f.clone()));
                                        proof {
                                            assert(style_for_date@.drop_last() =~= before);
                                            assert(assoc_map(style_for_date@)
                                                == assoc_map(before).insert(
                                                    style_for_date@.last().0@,
                                                    style_for_date@.last().1@));
                                        }
                                    },
                                    None => {
                                        proof {
                                            lemma_assoc_lookup(
                                                style_content.date_style_map@, d@);
                                        }
                                        match find_attr(&style_content.date_style_map,
                                                        d.as_str()) {
                                            Some(f) => {
                                                let ghost before = style_for_date@;
                                                style_for_date.push((nm, f.clone()));
                                                proof {
                                                    assert(style_for_date@.drop_last()
                                                        =~= before);
                                                    assert(assoc_map(style_for_date@)
                                                        == assoc_map(before).insert(
                                                            style_for_date@.last().0@,
                                                            style_for_date@.last().1@));
                                                }
                                            },
                                            None => {},
                                        }
                                    },
                                }
                            }
                        },
                        None => {},
                    }
                }
            },
            MarkupEvent::Text(t) => {
                str_text = t.clone();
            },
        }
        if !jumped {
            proof {
                let st2 = ContentState {
                    sheets: Seq::new(book@.len() as nat,
                                     |k: int| (book@[k].name, book@[k].grid())),
                    cur_name: sheet@.name,
                    cur_grid: sheet@.grid(),
                    row: row as int,
                    col: col as int,
                    cell_type: cell_type@,
                    float_text: float_text@,
                    str_text: str_text@,
                    date_text: date_text@,
                    style_name: style_name@,
                    date_styles: assoc_map(date_styles@),
                    style_for_date: assoc_map(style_for_date@),
                };
                let cs = content_step(st, events@[i0], pre);
                assert(st2.sheets == cs.sheets);
                assert(st2.cur_name == cs.cur_name);
                assert(st2.cur_grid == cs.cur_grid);
                assert(st2.row == cs.row);
                assert(st2.col == cs.col);
                assert(st2.cell_type == cs.cell_type);
                assert(st2.float_text == cs.float_text);
                assert(st2.str_text == cs.str_text);
                assert(st2.date_text == cs.date_text);
                assert(st2.style_name == cs.style_name);
                assert(st2.date_styles == cs.date_styles);
                assert(st2.style_for_date == cs.style_for_date);
                assert(st2 == content_step(st, events@[i0], pre));
                assert(content_scan(events@, i0, st, pre)
                    == content_scan(events@, i0 + 1, st2, pre));
            }
            i = i + 1;
        }
    }
    book
}

} // verus!
