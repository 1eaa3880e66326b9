use spsheet::instant::{instant_to_serial, number_to_date, Instant};
use spsheet::numeric::{parse_numeric_format, NumericToken};
use spsheet::style::Style;

fn inst(y: u32, mo: u32, d: u32, h: u32, mi: u32, s: u32) -> Instant {
    Instant {
        year: y,
        month: mo,
        day: d,
        hour: h,
        minute: mi,
        second: s,
    }
}

fn pattern_of(format: &str) -> Option<String> {
    let style = Style::new(format);
    style.get_date_formats().map(|frags| {
        let mut out = String::new();
        for f in frags {
            out.push_str(f.as_str());
        }
        out
    })
}

#[test]
fn grammar_tokenizes_patterns() {
    assert_eq!(pattern_of("YYYY/MM/DD HH:MM:SS").as_deref(), Some("%Y/%m/%d %H:%M:%S"));
    assert_eq!(pattern_of("MM\\月DD\\日").as_deref(), Some("%m月%d日"));
    assert_eq!(pattern_of("YYYY/MM/DD\\ HH:MM:SS").as_deref(), Some("%Y/%m/%d %H:%M:%S"));
    // A bare hyphen is no literal word: the string has no token sequence.
    assert_eq!(pattern_of("YYYY-MM-DD"), None);
}

#[test]
fn grammar_priority_and_failure() {
    // A bare M next to an hour or a second reads as minutes, otherwise as
    // the month.
    assert_eq!(pattern_of("HH:MM").as_deref(), Some("%H:%M"));
    assert_eq!(pattern_of("MM:SS").as_deref(), Some("%M:%S"));
    assert_eq!(pattern_of("MM").as_deref(), Some("%m"));
    assert_eq!(pattern_of("MMM").as_deref(), Some("%b"));
    assert_eq!(pattern_of("MMMM").as_deref(), Some("%B"));
    assert_eq!(pattern_of("DDD").as_deref(), Some("%a"));
    assert_eq!(pattern_of("DDDD").as_deref(), Some("%A"));
    assert_eq!(pattern_of("E\"年\"").as_deref(), Some("{{era1}}年"));
    // A remainder that matches no alternative fails the whole parse.
    assert_eq!(pattern_of("YYYY+MM"), None);
    assert_eq!(pattern_of("q"), None);
    // An unterminated quoted run fails.
    assert_eq!(pattern_of("\"abc"), None);
}

#[test]
fn renders_instant_through_style() {
    let t = inst(2017, 12, 2, 13, 30, 0);
    let style = Style::new("YYYY/MM/DD HH:MM:SS");
    assert_eq!(style.get_formated_date(&t).as_deref(), Some("2017/12/02 13:30:00"));
    let style2 = Style::new("MM\\月DD\\日");
    assert_eq!(style2.get_formated_date(&t).as_deref(), Some("12月02日"));
    let style3 = Style::new("YYYY/M/D H:M:S");
    assert_eq!(style3.get_formated_date(&inst(2017, 1, 2, 3, 4, 5)).as_deref(),
               Some("2017/1/2 3:4:5"));
    // Weekday names: 2017-12-02 was a Saturday.
    assert_eq!(Style::new("DDD").get_formated_date(&t).as_deref(), Some("Sat"));
    assert_eq!(Style::new("DDDD").get_formated_date(&t).as_deref(), Some("Saturday"));
    assert_eq!(Style::new("MMM").get_formated_date(&t).as_deref(), Some("Dec"));
    // A style that does not tokenize renders nothing.
    assert_eq!(Style::new("q").get_formated_date(&t), None);
}

#[test]
fn renders_era_substitutions() {
    // 2017-12-02 falls in the Heisei era, year 29.
    let t = inst(2017, 12, 2, 13, 30, 0);
    assert_eq!(Style::new("GGG").get_formated_date(&t).as_deref(), Some("平成"));
    assert_eq!(Style::new("GG").get_formated_date(&t).as_deref(), Some("平"));
    assert_eq!(Style::new("G").get_formated_date(&t).as_deref(), Some("H"));
    assert_eq!(Style::new("E\"年\"").get_formated_date(&t).as_deref(), Some("29年"));
    assert_eq!(Style::new("GEE").get_formated_date(&t).as_deref(), Some("H29"));
    // 2020-01-01 falls in the Reiwa era, year 2.
    let r = inst(2020, 1, 1, 0, 0, 0);
    assert_eq!(Style::new("GGG").get_formated_date(&r).as_deref(), Some("令和"));
    assert_eq!(Style::new("GEE").get_formated_date(&r).as_deref(), Some("R02"));
}

#[test]
fn serial_round_trips() {
    // 43071.5625 stands for 2017-12-02T13:30:00.
    let t = inst(2017, 12, 2, 13, 30, 0);
    let (days, secs) = instant_to_serial(&t);
    assert_eq!((days, secs), (43071, 48600));
    assert_eq!(number_to_date(days, secs), Some(t));

    // The 1900 epoch quirk: 1900-01-01 is serial day 2.
    let epoch = inst(1900, 1, 1, 0, 0, 0);
    assert_eq!(instant_to_serial(&epoch), (2, 0));

    for t in [
        inst(1, 1, 1, 0, 0, 0),
        inst(1899, 12, 31, 23, 59, 59),
        inst(1900, 2, 28, 12, 0, 0),
        inst(2000, 2, 29, 6, 30, 15),
        inst(2016, 2, 29, 0, 0, 1),
        inst(9999, 12, 31, 23, 59, 59),
    ] {
        let (days, secs) = instant_to_serial(&t);
        assert_eq!(number_to_date(days, secs), Some(t), "round trip of {:?}", t);
    }

    // Out of range serial pairs denote nothing.
    assert_eq!(number_to_date(-1000000, 0), None);
    assert_eq!(number_to_date(4000000, 0), None);
    assert_eq!(number_to_date(2, 86400), None);
}

#[test]
fn formatted_cell_value() {
    let cell = spsheet::Cell::date_with_style(
        "2017-12-02T13:30:00",
        Style::new("YYYY/MM/DD HH:MM:SS"),
    )
    .unwrap();
    assert_eq!(cell.get_formated_value().as_deref(), Some("2017/12/02 13:30:00"));
    let plain = spsheet::Cell::str("x");
    assert_eq!(plain.get_formated_value(), None);
    let mut styled = spsheet::Cell::float("1");
    styled.set_style(Style::new("YYYY"));
    assert_eq!(styled.get_formated_value(), None);
}

#[test]
fn numeric_grammar_sections() {
    let one = parse_numeric_format("#,##0.00").unwrap();
    assert_eq!(one.len(), 1);
    assert!(matches!(&one[0][0], NumericToken::Digits(d) if d == "#,##0.00"));

    let red = parse_numeric_format("[RED]#,##0").unwrap();
    assert_eq!(red.len(), 1);
    assert!(matches!(&red[0][0], NumericToken::Red));
    assert!(matches!(&red[0][1], NumericToken::Digits(d) if d == "#,##0"));

    let two = parse_numeric_format("[$￥-411]#,##0;[赤]\"▲\"#,##0").unwrap();
    assert_eq!(two.len(), 2);
    assert!(matches!(&two[0][0], NumericToken::CurrencyJp));
    assert!(matches!(&two[0][1], NumericToken::Digits(d) if d == "#,##0"));
    assert!(matches!(&two[1][0], NumericToken::Red));
    assert!(matches!(&two[1][1], NumericToken::Literal(l) if l == "▲"));
    assert!(matches!(&two[1][2], NumericToken::Digits(d) if d == "#,##0"));

    let four = parse_numeric_format("0;0.0;0,0;0").unwrap();
    assert_eq!(four.len(), 4);

    // A section needs a digit-pattern run; uncovered remainders fail.
    assert!(parse_numeric_format("YYYY").is_none());
    assert!(parse_numeric_format("").is_none());
    assert!(parse_numeric_format("0%").is_none());
    assert!(parse_numeric_format("0;0;0;0;0").is_none());
    assert!(parse_numeric_format("[BLACK]").is_none());
    let black = parse_numeric_format("[BLACK]0").unwrap();
    assert!(matches!(&black[0][0], NumericToken::Black));
}
