use spsheet::instant::Instant;
use spsheet::style::Style;
use spsheet::{column_and_row_to_index, column_to_index, index_to_column};
use spsheet::{Book, Cell, Sheet};

fn make_sheet1() -> Sheet {
    let mut sheet = Sheet::new("シート1");
    sheet.add_cell(Cell::str("a"), 0, 0);
    sheet.add_cell(Cell::str("b"), 0, 1);
    sheet.add_cell(Cell::float("1"), 1, 0);
    sheet.add_cell(Cell::float("2"), 1, 1);
    sheet.add_cell(
        Cell::date_with_style("2017-12-02", Style::new("MM\\月DD\\日")).unwrap(),
        2,
        0,
    );
    sheet.add_cell(
        Cell::date_with_style("2017-12-02T13:30:00", Style::new("YYYY/MM/DD\\ HH:MM:SS"))
            .unwrap(),
        2,
        1,
    );
    sheet
}

fn make_sheet2() -> Sheet {
    let mut sheet = Sheet::new("シート2");
    sheet.add_cell(Cell::str("予定表～①ﾊﾝｶｸだ"), 0, 0);
    sheet
}

fn make_sheet3() -> Sheet {
    let mut sheet = Sheet::new("シート3");
    sheet.add_cell(Cell::str("a"), 0, 0);
    sheet.add_cell(Cell::str("b"), 0, 2);
    sheet.add_cell(Cell::str("c"), 2, 0);
    sheet.add_cell(Cell::str("d"), 2, 2);
    sheet.add_cell(Cell::str("e"), 2, 4);
    sheet.add_cell(Cell::str("f"), 4, 0);
    sheet.add_cell(Cell::str("g"), 4, 4);
    sheet
}

fn make_sheet4() -> Sheet {
    Sheet::new("シート4")
}

pub fn make_book() -> Book {
    let mut book = Book::new();
    book.add_sheet(make_sheet1());
    book.add_sheet(make_sheet2());
    book.add_sheet(make_sheet3());
    book.add_sheet(make_sheet4());
    book
}

#[test]
fn it_works() {
    for i in vec![0, 1, 26, 27, 28, 100, 101, 102] {
        assert_eq!(i, column_to_index(index_to_column(i).as_str()));
    }
    for i in vec!["A", "B", "Z", "AA", "AB", "ZZ", "AAA", "AAB", "ABC"] {
        assert_eq!(i, index_to_column(column_to_index(i)).as_str());
    }
    assert_eq!(Some((701, 11)), column_and_row_to_index("ZZ12"));
}

#[test]
fn instant_parsing() {
    let t = Instant {
        year: 2017,
        month: 12,
        day: 2,
        hour: 13,
        minute: 30,
        second: 0,
    };
    let cell = Cell::date_with_style("2017-12-02T13:30:00", Style::new("")).unwrap();
    match cell.get_value() {
        spsheet::Value::Date(got) => assert_eq!(*got, t),
        _ => panic!("expected a date value"),
    }
    let zulu = Cell::date_with_style("2017-12-02T13:30:00Z", Style::new("")).unwrap();
    match zulu.get_value() {
        spsheet::Value::Date(got) => assert_eq!(*got, t),
        _ => panic!("expected a date value"),
    }
    assert!(Cell::date_with_style("2017-13-02", Style::new("")).is_err());
    assert!(Cell::date_with_style("2017-12-02T13:30:00X", Style::new("")).is_err());
    assert!(Cell::date_with_style("2017-12-02T13:30:00+09:00", Style::new("")).is_err());
    assert!(Cell::date_with_style("2017/12/02", Style::new("")).is_err());
    assert!(Cell::date_with_style("junk", Style::new("")).is_err());
    assert!(Cell::date_with_style("2017-02-29", Style::new("")).is_err());
    assert!(Cell::date_with_style("2016-02-29", Style::new("")).is_ok());
}

#[test]
fn model_access() {
    let mut sheet = Sheet::new("s");
    assert_eq!(sheet.get_max_index(), None);
    sheet.add_cell(Cell::str("x"), 2, 5);
    sheet.add_cell(Cell::str("y"), 7, 1);
    assert_eq!(sheet.get_max_index(), Some((7, 5)));
    // Last write wins at one address.
    sheet.add_cell(Cell::str("z"), 2, 5);
    let c = sheet.get_cell(2, 5).unwrap();
    assert_eq!(c, &Cell::str("z"));
    assert!(sheet.get_cell(3, 3).is_none());
    assert_eq!(sheet.get_rows().len(), 2);

    let mut book = Book::new();
    book.add_sheet(sheet);
    assert_eq!(book.get_sheet_size(), 1);
    assert_eq!(book.get_sheet(0).get_name(), "s");
    assert_eq!(make_book(), make_book());
    assert!(make_book() != Book::new());
}
