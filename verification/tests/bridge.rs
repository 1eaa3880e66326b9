use spsheet::index_to_column;
use spsheet::markup::MarkupEvent;
use spsheet::ods::read_content;
use spsheet::ods::read_style::StyleContent;
use spsheet::ods::write_content::{
    make_content_xml_by_sheet, make_content_xml_none_table_cell, make_num_styles,
    OdsCellRecord,
};
use spsheet::ods::{read_number_date_style, read_number_format, read_number_year,
                   OdsDateElement};
use spsheet::style::Style;
use spsheet::xlsx::read_sheet::{self, serial_text_to_pair};
use spsheet::xlsx::read_shared_strings;
use spsheet::xlsx::read_styles;
use spsheet::xlsx::read_workbook;
use spsheet::xlsx::read_workbook_xml_rels;
use spsheet::xlsx::write_shared_strings::{make_shared_strings, shared_string_index};
use spsheet::xlsx::write_sheet::{make_dimension, make_sheet_records, SheetCellRecord};
use spsheet::xlsx::write_styles::{make_cell_xfs, make_num_fmts, xf_index_of};
use spsheet::{Book, Cell, Sheet};

fn attrs(pairs: &[(&str, &str)]) -> Vec<(String, String)> {
    pairs
        .iter()
        .map(|(k, v)| (k.to_string(), v.to_string()))
        .collect()
}

fn start(name: &str, a: &[(&str, &str)]) -> MarkupEvent {
    MarkupEvent::Start {
        name: name.to_string(),
        attrs: attrs(a),
    }
}

fn empty(name: &str, a: &[(&str, &str)]) -> MarkupEvent {
    MarkupEvent::Empty {
        name: name.to_string(),
        attrs: attrs(a),
    }
}

fn end(name: &str) -> MarkupEvent {
    MarkupEvent::End {
        name: name.to_string(),
    }
}

fn text(t: &str) -> MarkupEvent {
    MarkupEvent::Text(t.to_string())
}

fn date_book() -> Book {
    let mut sheet = Sheet::new("data");
    sheet.add_cell(
        Cell::date_with_style("2017-12-02", Style::new("MM\\月DD\\日")).unwrap(),
        0,
        0,
    );
    sheet.add_cell(
        Cell::date_with_style("2017-12-02T13:30:00", Style::new("YYYY/MM/DD\\ HH:MM:SS"))
            .unwrap(),
        0,
        1,
    );
    sheet.add_cell(
        Cell::date_with_style("2018-01-03", Style::new("MM\\月DD\\日")).unwrap(),
        1,
        0,
    );
    sheet.add_cell(Cell::str("note"), 2, 0);
    let mut book = Book::new();
    book.add_sheet(sheet);
    book
}

#[test]
fn distinct_format_table() {
    // Three date cells sharing two distinct format strings give exactly
    // two table entries, and every cell's format resolves to one of them.
    let book = date_book();
    let fmts = make_num_fmts(&book);
    assert_eq!(fmts.len(), 2);
    assert_eq!(fmts[0], "MM\\月DD\\日");
    assert_eq!(fmts[1], "YYYY/MM/DD\\ HH:MM:SS");
    let xfs = make_cell_xfs(&fmts);
    assert_eq!(xfs.len(), 2);
    assert_eq!(xfs[0].1, 1);
    assert_eq!(xfs[1].1, 2);
    // Cells sharing a format get the same style index.
    assert_eq!(xf_index_of(&xfs, &"MM\\月DD\\日".to_string()), Some(1));
    assert_eq!(xf_index_of(&xfs, &"YYYY/MM/DD\\ HH:MM:SS".to_string()), Some(2));
    assert_eq!(xf_index_of(&xfs, &"other".to_string()), None);
}

#[test]
fn shared_string_table() {
    let mut sheet = Sheet::new("s");
    sheet.add_cell(Cell::str("a"), 0, 0);
    sheet.add_cell(Cell::str("b"), 0, 1);
    sheet.add_cell(Cell::str("a"), 1, 0);
    let mut book = Book::new();
    book.add_sheet(sheet);
    let table = make_shared_strings(&book);
    assert_eq!(table, vec!["a".to_string(), "b".to_string()]);
    assert_eq!(shared_string_index(&table, &"b".to_string()), Some(1));
    assert_eq!(shared_string_index(&table, &"c".to_string()), None);
}

#[test]
fn serial_text_reads_back() {
    assert_eq!(serial_text_to_pair("43071.5625"), Some((43071, 48600)));
    assert_eq!(serial_text_to_pair("2"), Some((2, 0)));
    assert_eq!(serial_text_to_pair("2.0"), Some((2, 0)));
    assert_eq!(serial_text_to_pair("2.9999999"), Some((2, 0)));
    assert_eq!(serial_text_to_pair("abc"), None);
    assert_eq!(serial_text_to_pair(""), None);
    assert_eq!(serial_text_to_pair(".5"), None);
}

#[test]
fn xlsx_sheet_records_round_trip() {
    // Write a sheet to its records, lay the records out as worksheet
    // events as the adapter would, read them back, and compare.
    let book = date_book();
    let sheet = book.get_sheet(0);
    let shared = make_shared_strings(&book);
    let fmts = make_num_fmts(&book);
    let xfs = make_cell_xfs(&fmts);
    let records = make_sheet_records(sheet, &shared, &xfs);
    assert_eq!(records.len(), 4);
    assert_eq!(make_dimension(sheet).as_str(), "A1:B3");

    let mut events: Vec<MarkupEvent> = Vec::new();
    let mut current_row = usize::MAX;
    for rec in &records {
        let (row, col, s_attr, v_text, t_attr) = match rec {
            SheetCellRecord::Str { row, col, string_index } => {
                (*row, *col, 0usize, string_index.to_string(), "s")
            },
            SheetCellRecord::Num { row, col, text } => (*row, *col, 0, text.clone(), "n"),
            SheetCellRecord::Date { row, col, xf_index, serial_days, serial_secs } => {
                let serial = *serial_days as f64 + *serial_secs as f64 / 86400.0;
                (*row, *col, *xf_index, format!("{}", serial), "n")
            },
            SheetCellRecord::Currency { row, col, xf_index, text } => {
                (*row, *col, *xf_index, text.clone(), "n")
            },
        };
        if row != current_row {
            current_row = row;
            events.push(start("row", &[("r", &(row + 1).to_string())]));
        }
        let cell_ref = format!("{}{}", index_to_column(col), row + 1);
        events.push(start(
            "c",
            &[("r", &cell_ref), ("s", &s_attr.to_string()), ("t", t_attr)],
        ));
        events.push(start("v", &[]));
        events.push(text(&v_text));
        events.push(end("v"));
        events.push(end("c"));
    }

    // The style part the table stands for: one numFmt per distinct format,
    // one xf per table entry after the unstyled one.
    let mut style_events: Vec<MarkupEvent> = Vec::new();
    for (i, f) in fmts.iter().enumerate() {
        style_events.push(empty(
            "numFmt",
            &[("numFmtId", &(164 + i).to_string()), ("formatCode", f)],
        ));
    }
    style_events.push(start("cellXfs", &[]));
    style_events.push(start("xf", &[("numFmtId", "0")]));
    for (i, _) in fmts.iter().enumerate() {
        style_events.push(start("xf", &[("numFmtId", &(164 + i).to_string())]));
    }
    style_events.push(end("cellXfs"));
    let styles = read_styles::read(&style_events);
    assert_eq!(styles.len(), fmts.len() + 1);
    assert_eq!(styles[0].format_code, None);
    assert_eq!(styles[1].format_code.as_deref(), Some("MM\\月DD\\日"));

    let got = read_sheet::read(&events, "data", &shared, &styles);
    assert_eq!(&got, sheet);
}

#[test]
fn xlsx_part_readers() {
    let shared = read_shared_strings::read(&vec![
        start("si", &[]),
        text("hello"),
        end("si"),
        text("world"),
    ]);
    assert_eq!(shared, vec!["hello".to_string(), "world".to_string()]);

    let sheets = read_workbook::read(&vec![
        empty("sheet", &[("name", "s1"), ("sheetId", "1"), ("state", "visible"),
                         ("r:id", "rId1")]),
        empty("other", &[]),
    ]);
    assert_eq!(sheets.len(), 1);
    assert_eq!(sheets[0].name.as_deref(), Some("s1"));
    assert_eq!(sheets[0].rid.as_deref(), Some("rId1"));

    let rels = read_workbook_xml_rels::read(&vec![
        empty("Relationship", &[("Id", "rId1"), ("Type", "t"), ("Target", "worksheets/sheet1.xml")]),
    ]);
    assert_eq!(rels.len(), 1);
    assert_eq!(rels[0].target.as_deref(), Some("worksheets/sheet1.xml"));
}

#[test]
fn ods_style_round_trip() {
    // Encoding a format's directive list as native elements and decoding
    // those elements recovers the format string exactly.
    let book = date_book();
    let styles = make_num_styles(&book);
    assert_eq!(styles.len(), 2);
    assert_eq!(styles[0].n_name, "N1");
    assert_eq!(styles[0].ce_name, "ce1");
    assert_eq!(styles[1].n_name, "N2");
    assert_eq!(styles[1].ce_name, "ce2");

    for st in &styles {
        // The elements as the style part's events.
        let mut events: Vec<MarkupEvent> = Vec::new();
        for e in &st.elements {
            push_element(&mut events, e);
        }
        events.push(end("number:date-style"));
        let (format, consumed) = read_number_date_style(&events, 0);
        assert_eq!(consumed, events.len());
        assert_eq!(&format, &st.format);
    }
}

fn push_element(events: &mut Vec<MarkupEvent>, e: &OdsDateElement) {
    match e {
        OdsDateElement::Text(t) => {
            events.push(start("number:text", &[]));
            if !t.is_empty() {
                events.push(text(t));
            }
            events.push(end("number:text"));
        },
        other => events.push(element_event(other)),
    }
}

fn element_event(e: &OdsDateElement) -> MarkupEvent {
    let long: &[(&str, &str)] = &[("number:style", "long")];
    let short: &[(&str, &str)] = &[];
    match e {
        OdsDateElement::Era { long: l } => {
            empty("number:era", if *l { long } else { short })
        },
        OdsDateElement::Year { long: l, gengou } => {
            if *gengou {
                if *l {
                    empty("number:year", &[("number:style", "long"),
                                           ("number:calendar", "gengou")])
                } else {
                    empty("number:year", &[("number:calendar", "gengou")])
                }
            } else {
                empty("number:year", if *l { long } else { short })
            }
        },
        OdsDateElement::Month { long: l } => {
            empty("number:month", if *l { long } else { short })
        },
        OdsDateElement::Day { long: l } => empty("number:day", if *l { long } else { short }),
        OdsDateElement::Hours { long: l } => {
            empty("number:hours", if *l { long } else { short })
        },
        OdsDateElement::Minutes { long: l } => {
            empty("number:minutes", if *l { long } else { short })
        },
        OdsDateElement::Seconds { long: l } => {
            empty("number:seconds", if *l { long } else { short })
        },
        OdsDateElement::Text(_) => {
            // Text elements span several events; they are laid out by
            // push_element.
            start("number:text", &[])
        },
    }
}

#[test]
fn ods_attr_decoding() {
    let long = attrs(&[("number:style", "long")]);
    let short = attrs(&[]);
    assert_eq!(read_number_format(&long, "MM", "M"), "MM");
    assert_eq!(read_number_format(&short, "MM", "M"), "M");
    assert_eq!(read_number_year(&long), "YYYY");
    assert_eq!(read_number_year(&short), "YY");
    let gengou_long = attrs(&[("number:style", "long"), ("number:calendar", "gengou")]);
    let gengou_short = attrs(&[("number:calendar", "gengou")]);
    assert_eq!(read_number_year(&gengou_long), "EE");
    assert_eq!(read_number_year(&gengou_short), "E");
}

#[test]
fn ods_date_style_decode() {
    // number:month(long), text 月, number:day(long), text 日.
    let events = vec![
        empty("number:month", &[("number:style", "long")]),
        start("number:text", &[]),
        text("月"),
        end("number:text"),
        empty("number:day", &[("number:style", "long")]),
        start("number:text", &[]),
        text("日"),
        end("number:text"),
        end("number:date-style"),
    ];
    let (format, consumed) = read_number_date_style(&events, 0);
    assert_eq!(format, "MM\\月DD\\日");
    assert_eq!(consumed, events.len());

    // An empty text element stands for an escaped space.
    let events2 = vec![
        empty("number:hours", &[("number:style", "long")]),
        start("number:text", &[]),
        end("number:text"),
        empty("number:minutes", &[("number:style", "long")]),
        end("number:date-style"),
    ];
    let (format2, _) = read_number_date_style(&events2, 0);
    assert_eq!(format2, "HH\\ MM");

    // Separators pass through bare; longer runs are quoted.
    let events3 = vec![
        empty("number:hours", &[]),
        start("number:text", &[]),
        text(":"),
        end("number:text"),
        empty("number:minutes", &[]),
        start("number:text", &[]),
        text("abc"),
        end("number:text"),
        end("number:date-style"),
    ];
    let (format3, _) = read_number_date_style(&events3, 0);
    assert_eq!(format3, "H:M\"abc\"");
}

#[test]
fn ods_sheet_rows() {
    let book = date_book();
    let sheet = book.get_sheet(0);
    let styles = make_num_styles(&book);
    let date_hash: Vec<(String, String)> = styles
        .iter()
        .map(|s| (s.format.clone(), s.ce_name.clone()))
        .collect();
    let content = make_content_xml_by_sheet(sheet, &date_hash);
    assert_eq!(content.column_repeat, Some(2));
    assert_eq!(content.rows.len(), 3);
    assert_eq!(content.rows[0].cells.len(), 2);
    match &content.rows[0].cells[0] {
        OdsCellRecord::Date { style_name, date_value, display } => {
            assert_eq!(style_name, "ce1");
            assert_eq!(date_value, "2017-12-02T00:00:00");
            assert_eq!(display, "12月02日");
        },
        other => panic!("unexpected record {:?}", other),
    }
    // The second row holds one date and no filler, the third the note.
    assert_eq!(content.rows[1].cells.len(), 1);
    assert_eq!(content.rows[2].cells.len(), 1);
    assert!(make_content_xml_none_table_cell(0).is_none());
    match make_content_xml_none_table_cell(3) {
        Some(OdsCellRecord::Empty { repeat }) => assert_eq!(repeat, 3),
        other => panic!("unexpected record {:?}", other),
    }

    // An empty sheet becomes a single bare empty cell.
    let empty_sheet = Sheet::new("empty");
    let content2 = make_content_xml_by_sheet(&empty_sheet, &date_hash);
    assert_eq!(content2.column_repeat, None);
    assert_eq!(content2.rows.len(), 1);

    // Gaps compress into one run, and a wholly absent row becomes one run
    // spanning the column count.
    let mut sparse = Sheet::new("sparse");
    sparse.add_cell(Cell::str("a"), 0, 0);
    sparse.add_cell(Cell::str("b"), 2, 3);
    let content3 = make_content_xml_by_sheet(&sparse, &date_hash);
    assert_eq!(content3.column_repeat, Some(4));
    assert_eq!(content3.rows.len(), 3);
    assert_eq!(content3.rows[0].cells.len(), 1);
    assert_eq!(content3.rows[1].cells.len(), 1);
    match &content3.rows[1].cells[0] {
        OdsCellRecord::Empty { repeat } => assert_eq!(*repeat, 4),
        other => panic!("unexpected record {:?}", other),
    }
    assert_eq!(content3.rows[2].cells.len(), 2);
    match &content3.rows[2].cells[0] {
        OdsCellRecord::Empty { repeat } => assert_eq!(*repeat, 3),
        other => panic!("unexpected record {:?}", other),
    }
    assert!(matches!(&content3.rows[2].cells[1], OdsCellRecord::Str { text } if text == "b"));
}

#[test]
fn ods_content_round_trip() {
    // Lay a book's records out as content events as the adapter would,
    // read them back, and compare: several sheets, a sparse layout with
    // gaps, and an empty sheet.
    let mut book = date_book();
    let mut sparse = Sheet::new("sparse");
    sparse.add_cell(Cell::str("a"), 0, 0);
    sparse.add_cell(Cell::str("b"), 0, 2);
    sparse.add_cell(Cell::str("c"), 2, 0);
    sparse.add_cell(Cell::str("d"), 2, 4);
    sparse.add_cell(Cell::float("7"), 4, 4);
    book.add_sheet(sparse);
    book.add_sheet(Sheet::new("empty"));
    let styles = make_num_styles(&book);
    let date_hash: Vec<(String, String)> = styles
        .iter()
        .map(|s| (s.format.clone(), s.ce_name.clone()))
        .collect();

    let mut events: Vec<MarkupEvent> = Vec::new();
    // The embedded date styles and the cell styles referring to them.
    for st in &styles {
        events.push(start("number:date-style", &[("style:name", &st.n_name)]));
        for e in &st.elements {
            push_element(&mut events, e);
        }
        events.push(end("number:date-style"));
        events.push(empty(
            "style:style",
            &[("style:name", &st.ce_name), ("style:family", "table-cell"),
              ("style:data-style-name", &st.n_name)],
        ));
    }
    for k in 0..book.get_sheet_size() {
        let sheet = book.get_sheet(k);
        let content = make_content_xml_by_sheet(sheet, &date_hash);
        events.push(start("table:table", &[("table:name", sheet.get_name().as_str())]));
        for row in &content.rows {
            events.push(start("table:table-row", &[]));
            for rec in &row.cells {
                match rec {
                    OdsCellRecord::Empty { repeat } => {
                        if *repeat == 1 {
                            events.push(empty("table:table-cell", &[]));
                        } else {
                            events.push(empty(
                                "table:table-cell",
                                &[("table:number-columns-repeated", &repeat.to_string())],
                            ));
                        }
                    },
                    OdsCellRecord::Str { text: t } => {
                        events.push(start("table:table-cell",
                                          &[("office:value-type", "string")]));
                        events.push(start("text:p", &[]));
                        events.push(text(t));
                        events.push(end("text:p"));
                        events.push(end("table:table-cell"));
                    },
                    OdsCellRecord::Float { text: t } => {
                        events.push(start(
                            "table:table-cell",
                            &[("office:value-type", "float"), ("office:value", t)],
                        ));
                        events.push(start("text:p", &[]));
                        events.push(text(t));
                        events.push(end("text:p"));
                        events.push(end("table:table-cell"));
                    },
                    OdsCellRecord::Date { style_name, date_value, display } => {
                        events.push(start(
                            "table:table-cell",
                            &[("table:style-name", style_name),
                              ("office:value-type", "date"),
                              ("office:date-value", date_value)],
                        ));
                        events.push(start("text:p", &[]));
                        events.push(text(display));
                        events.push(end("text:p"));
                        events.push(end("table:table-cell"));
                    },
                }
            }
            events.push(end("table:table-row"));
        }
        events.push(end("table:table"));
    }

    let style_content = StyleContent {
        date_style_map: Vec::new(),
    };
    let got = read_content::read(&events, &style_content);
    assert_eq!(got, book);
}
