//! The ODF-style target format's bridge: date styles as native element
//! sequences, their decoding back to format-spec strings, and the sheet
//! content records. The container and markup I/O around them belongs to
//! the adapters.

pub mod read_content;
pub mod read_style;
pub mod write_content;

use crate::markup::{attr_of, find_attr, string_eq, MarkupEvent};
use vstd::prelude::*;

verus! {

/// One element of a native date style: year, month, day, hour, minute and
/// second elements carry a long/short style, a year may carry the era
/// calendar, an era element carries the era name, and literal text stands
/// in text elements.
#[derive(Debug, Clone)]
pub enum OdsDateElement {
    /// An era element (`number:era`).
    Era { long: bool },
    /// A year element (`number:year`), possibly on the era calendar.
    Year { long: bool, gengou: bool },
    /// A month element (`number:month`).
    Month { long: bool },
    /// A day element (`number:day`).
    Day { long: bool },
    /// An hours element (`number:hours`).
    Hours { long: bool },
    /// A minutes element (`number:minutes`).
    Minutes { long: bool },
    /// A seconds element (`number:seconds`).
    Seconds { long: bool },
    /// A text element (`number:text`).
    Text(String),
}

/// The mathematical model of one date-style element.
pub enum OdsElem {
    Era { long: bool },
    Year { long: bool, gengou: bool },
    Month { long: bool },
    Day { long: bool },
    Hours { long: bool },
    Minutes { long: bool },
    Seconds { long: bool },
    Text(Seq<char>),
}

impl View for OdsDateElement {
    type V = OdsElem;

    open spec fn view(&self) -> OdsElem {
        match self {
            OdsDateElement::Era { long } => OdsElem::Era { long: *long },
            OdsDateElement::Year { long, gengou } => OdsElem::Year {
                long: *long,
                gengou: *gengou,
            },
            OdsDateElement::Month { long } => OdsElem::Month { long: *long },
            OdsDateElement::Day { long } => OdsElem::Day { long: *long },
            OdsDateElement::Hours { long } => OdsElem::Hours { long: *long },
            OdsDateElement::Minutes { long } => OdsElem::Minutes { long: *long },
            OdsDateElement::Seconds { long } => OdsElem::Seconds { long: *long },
            OdsDateElement::Text(t) => OdsElem::Text(t@),
        }
    }
}

/// The models of an element sequence.
pub open spec fn elems_view(s: Seq<OdsDateElement>) -> Seq<OdsElem> {
    s.map_values(|e: OdsDateElement| e@)
}

/// What one long-or-short element writes back into a format-spec string.
pub open spec fn long_short(long: bool, long_value: Seq<char>, short_value: Seq<char>)
    -> Seq<char> {
    if long { long_value } else { short_value }
}

/// What a year element writes back: the era-numeral tokens on the era
/// calendar, the year tokens otherwise.
pub open spec fn year_frag(long: bool, gengou: bool) -> Seq<char> {
    if long && gengou {
        seq!['E', 'E']
    } else if gengou {
        seq!['E']
    } else if long {
        seq!['Y', 'Y', 'Y', 'Y']
    } else {
        seq!['Y', 'Y']
    }
}

/// What a text element writes back: bare separators pass through, a single
/// character is escaped, anything longer is quoted, and an empty text
/// element stands for an escaped space.
pub open spec fn text_frag(t: Seq<char>) -> Seq<char> {
    if t =~= seq!['/'] {
        seq!['/']
    } else if t =~= seq![':'] {
        seq![':']
    } else if t.len() == 1 {
        seq!['\\'] + t
    } else {
        seq!['"'] + t + seq!['"']
    }
}

/// What an empty text element writes back.
pub open spec fn empty_text_frag() -> Seq<char> {
    seq!['\\', ' ']
}

/// What one date-style element writes back into a format-spec string.
pub open spec fn decode_elem(e: OdsElem) -> Seq<char> {
    match e {
        OdsElem::Era { long } => long_short(long, seq!['G', 'G', 'G'], seq!['G']),
        OdsElem::Year { long, gengou } => year_frag(long, gengou),
        OdsElem::Month { long } => long_short(long, seq!['M', 'M'], seq!['M']),
        OdsElem::Day { long } => long_short(long, seq!['D', 'D'], seq!['D']),
        OdsElem::Hours { long } => long_short(long, seq!['H', 'H'], seq!['H']),
        OdsElem::Minutes { long } => long_short(long, seq!['M', 'M'], seq!['M']),
        OdsElem::Seconds { long } => long_short(long, seq!['S', 'S'], seq!['S']),
        OdsElem::Text(t) => text_frag(t),
    }
}

/// What a whole element sequence writes back.
pub open spec fn decode_elems(es: Seq<OdsElem>) -> Seq<char>
    decreases es.len(),
{
    if es.len() == 0 {
        Seq::empty()
    } else {
        decode_elems(es.drop_last()) + decode_elem(es.last())
    }
}

/// Whether an element's attributes mark it long: its `number:style`
/// attribute says `long`.
pub open spec fn attrs_long(attrs: Seq<(String, String)>) -> bool {
    attr_of(attrs, "number:style"@) == Some("long"@)
}

/// Whether a year element's attributes put it on the era calendar: its
/// `number:calendar` attribute says `gengou`.
pub open spec fn attrs_gengou(attrs: Seq<(String, String)>) -> bool {
    attr_of(attrs, "number:calendar"@) == Some("gengou"@)
}

/// What a long-or-short element writes back, read off its attributes: the
/// long value when `number:style` says `long`, the short value otherwise.
pub fn read_number_format(attrs: &Vec<(String, String)>, long_value: &str, short_value: &str)
    -> (r: String)
    ensures
        r@ == long_short(attrs_long(attrs@), long_value@, short_value@),
{
    let is_long = match find_attr(attrs, "number:style") {
        Some(v) => string_eq(v, "long"),
        None => false,
    };
    if is_long {
        String::from_str(long_value)
    } else {
        String::from_str(short_value)
    }
}

/// What a year element writes back, read off its attributes: the era
/// numerals (`EE`, `E`) on the era calendar, the year tokens (`YYYY`,
/// `YY`) otherwise, long before short.
pub fn read_number_year(attrs: &Vec<(String, String)>) -> (r: String)
    ensures
        r@ == year_frag(attrs_long(attrs@), attrs_gengou(attrs@)),
{
    let is_long = match find_attr(attrs, "number:style") {
        Some(v) => string_eq(v, "long"),
        None => false,
    };
    let is_gengou = match find_attr(attrs, "number:calendar") {
        Some(v) => string_eq(v, "gengou"),
        None => false,
    };
    let r = if is_long && is_gengou {
        String::from_str("EE")
    } else if is_gengou {
        String::from_str("E")
    } else if is_long {
        String::from_str("YYYY")
    } else {
        String::from_str("YY")
    };
    proof {
        reveal_strlit("EE");
        reveal_strlit("E");
        reveal_strlit("YYYY");
        reveal_strlit("YY");
        assert(r@ =~= year_frag(attrs_long(attrs@), attrs_gengou(attrs@)));
    }
    r
}

/// What one empty element inside a date style writes back, by its name and
/// attributes; an unknown element writes nothing.
pub open spec fn empty_elem_frag(name: Seq<char>, attrs: Seq<(String, String)>) -> Seq<char> {
    if name == "number:era"@ {
        long_short(attrs_long(attrs), seq!['G', 'G', 'G'], seq!['G'])
    } else if name == "number:year"@ {
        year_frag(attrs_long(attrs), attrs_gengou(attrs))
    } else if name == "number:month"@ {
        long_short(attrs_long(attrs), seq!['M', 'M'], seq!['M'])
    } else if name == "number:day"@ {
        long_short(attrs_long(attrs), seq!['D', 'D'], seq!['D'])
    } else if name == "number:hours"@ {
        long_short(attrs_long(attrs), seq!['H', 'H'], seq!['H'])
    } else if name == "number:minutes"@ {
        long_short(attrs_long(attrs), seq!['M', 'M'], seq!['M'])
    } else if name == "number:seconds"@ {
        long_short(attrs_long(attrs), seq!['S', 'S'], seq!['S'])
    } else {
        Seq::empty()
    }
}

/// The format-spec string a date style's event run writes back, read from
/// position `i` until the style's end tag, together with the position
/// after that tag: empty text elements stand for escaped spaces, character
/// data is escaped or quoted, and an unterminated style yields nothing.
/// The second state component tracks whether the current text element is
/// still empty.
pub open spec fn decode_date_style(
    events: Seq<MarkupEvent>,
    i: int,
    acc: Seq<char>,
    empty_flag: bool,
) -> (Seq<char>, int)
    decreases events.len() - i,
{
    if i < 0 || i >= events.len() {
        (Seq::empty(), events.len() as int)
    } else {
        match events[i] {
            MarkupEvent::Start { name, attrs } => {
                if name@ == "number:text"@ {
                    decode_date_style(events, i + 1, acc, true)
                } else {
                    decode_date_style(events, i + 1, acc, empty_flag)
                }
            },
            MarkupEvent::End { name } => {
                if name@ == "number:date-style"@ {
                    (acc, i + 1)
                } else if name@ == "number:text"@ {
                    if empty_flag {
                        decode_date_style(events, i + 1, acc + empty_text_frag(), empty_flag)
                    } else {
                        decode_date_style(events, i + 1, acc, empty_flag)
                    }
                } else {
                    decode_date_style(events, i + 1, acc, empty_flag)
                }
            },
            MarkupEvent::Empty { name, attrs } => {
                decode_date_style(events, i + 1, acc + empty_elem_frag(name@, attrs@),
                                  empty_flag)
            },
            MarkupEvent::Text(t) => {
                decode_date_style(events, i + 1, acc + text_frag(t@), false)
            },
        }
    }
}

/// The decode of a date style lands between its start and the end of the
/// events.
pub proof fn lemma_decode_date_style_bounds(
    events: Seq<MarkupEvent>,
    i: int,
    acc: Seq<char>,
    empty_flag: bool,
)
    requires
        0 <= i <= events.len(),
    ensures
        i <= decode_date_style(events, i, acc, empty_flag).1 <= events.len(),
        i < events.len() ==> i + 1 <= decode_date_style(events, i, acc, empty_flag).1,
    decreases events.len() - i,
{
    if i < events.len() {
        match events[i] {
            MarkupEvent::Start { .. } => {
                lemma_decode_date_style_bounds(events, i + 1, acc, true);
                lemma_decode_date_style_bounds(events, i + 1, acc, empty_flag);
            },
            MarkupEvent::End { .. } => {
                lemma_decode_date_style_bounds(events, i + 1, acc + empty_text_frag(),
                                               empty_flag);
                lemma_decode_date_style_bounds(events, i + 1, acc, empty_flag);
            },
            MarkupEvent::Empty { name, attrs } => {
                lemma_decode_date_style_bounds(
                    events, i + 1, acc + empty_elem_frag(name@, attrs@), empty_flag);
            },
            MarkupEvent::Text(t) => {
                lemma_decode_date_style_bounds(events, i + 1, acc + text_frag(t@), false);
            },
        }
    }
}

/// How many events one date-style element spans as the adapter lays it
/// out: one empty element, or a nonempty text element's start tag,
/// character data and end tag.
pub open spec fn elem_event_width(e: OdsElem) -> int {
    match e {
        OdsElem::Text(_) => 3,
        _ => 1,
    }
}

/// How many events an element run spans.
pub open spec fn elems_event_width(es: Seq<OdsElem>) -> int
    decreases es.len(),
{
    if es.len() == 0 {
        0
    } else {
        elem_event_width(es[0]) + elems_event_width(es.skip(1))
    }
}

/// Whether the events from position `i` lay one element out: an empty
/// element with the name and attributes the element's kind and style
/// demand, or a text element's three events around its character data.
pub open spec fn event_lays_out_elem(events: Seq<MarkupEvent>, i: int, e: OdsElem) -> bool {
    &&& 0 <= i
    &&& i + elem_event_width(e) <= events.len()
    &&& match e {
        OdsElem::Era { long } => events[i] matches MarkupEvent::Empty { name, attrs }
            && name@ == "number:era"@ && attrs_long(attrs@) == long,
        OdsElem::Year { long, gengou } => events[i] matches MarkupEvent::Empty { name, attrs }
            && name@ == "number:year"@ && attrs_long(attrs@) == long
            && attrs_gengou(attrs@) == gengou,
        OdsElem::Month { long } => events[i] matches MarkupEvent::Empty { name, attrs }
            && name@ == "number:month"@ && attrs_long(attrs@) == long,
        OdsElem::Day { long } => events[i] matches MarkupEvent::Empty { name, attrs }
            && name@ == "number:day"@ && attrs_long(attrs@) == long,
        OdsElem::Hours { long } => events[i] matches MarkupEvent::Empty { name, attrs }
            && name@ == "number:hours"@ && attrs_long(attrs@) == long,
        OdsElem::Minutes { long } => events[i] matches MarkupEvent::Empty { name, attrs }
            && name@ == "number:minutes"@ && attrs_long(attrs@) == long,
        OdsElem::Seconds { long } => events[i] matches MarkupEvent::Empty { name, attrs }
            && name@ == "number:seconds"@ && attrs_long(attrs@) == long,
        OdsElem::Text(t) => {
            &&& t.len() > 0
            &&& (events[i] matches MarkupEvent::Start { name, .. }
                && name@ == "number:text"@)
            &&& (events[i + 1] matches MarkupEvent::Text(c) && c@ == t)
            &&& (events[i + 2] matches MarkupEvent::End { name }
                && name@ == "number:text"@)
        },
    }
}

/// Whether the events from position `i` lay a whole element run out, one
/// element after the other.
pub open spec fn events_lay_out(events: Seq<MarkupEvent>, i: int, es: Seq<OdsElem>) -> bool
    decreases es.len(),
{
    if es.len() == 0 {
        0 <= i <= events.len()
    } else {
        event_lays_out_elem(events, i, es[0])
            && events_lay_out(events, i + elem_event_width(es[0]), es.skip(1))
    }
}

/// What an empty-element event writes back, by its own name and
/// attributes.
pub open spec fn empty_elem_frag_of(ev: MarkupEvent) -> Seq<char> {
    match ev {
        MarkupEvent::Empty { name, attrs } => empty_elem_frag(name@, attrs@),
        _ => Seq::empty(),
    }
}

/// An element run spans a nonnegative number of events.
pub proof fn lemma_elems_event_width_nonneg(es: Seq<OdsElem>)
    ensures
        elems_event_width(es) >= 0,
    decreases es.len(),
{
    if es.len() > 0 {
        lemma_elems_event_width_nonneg(es.skip(1));
    }
}

/// Decoding an event run that lays an element run out and then closes the
/// style writes back exactly what decoding the elements themselves does,
/// whatever was accumulated before and whatever the text-emptiness state
/// was.
pub proof fn lemma_decode_lays_out(
    events: Seq<MarkupEvent>,
    i: int,
    es: Seq<OdsElem>,
    acc: Seq<char>,
    empty_flag: bool,
)
    requires
        events_lay_out(events, i, es),
        i + elems_event_width(es) < events.len(),
        events[i + elems_event_width(es)] matches MarkupEvent::End { name }
            && name@ == "number:date-style"@,
    ensures
        decode_date_style(events, i, acc, empty_flag)
            == (acc + decode_elems(es), i + elems_event_width(es) + 1),
    decreases es.len(),
{
    reveal_strlit("number:era");
    reveal_strlit("number:year");
    reveal_strlit("number:month");
    reveal_strlit("number:day");
    reveal_strlit("number:hours");
    reveal_strlit("number:minutes");
    reveal_strlit("number:seconds");
    reveal_strlit("number:text");
    reveal_strlit("number:date-style");
    assert("number:era"@[7] == 'e' && "number:day"@[7] == 'd');
    assert("number:month"@[7] == 'm' && "number:hours"@[7] == 'h');
    assert("number:minutes"@[7] == 'm' && "number:seconds"@[7] == 's');
    assert("number:era"@ != "number:day"@);
    assert("number:month"@ != "number:hours"@);
    assert("number:minutes"@ != "number:seconds"@);
    if es.len() == 0 {
        assert(acc + decode_elems(es) =~= acc);
    } else {
        let head = es[0];
        let w = elem_event_width(head);
        lemma_elems_event_width_nonneg(es.skip(1));
        assert(elems_event_width(es) == w + elems_event_width(es.skip(1)));
        match head {
            OdsElem::Text(t) => {
                assert(i + 3 <= i + elems_event_width(es));
                // Start, character data, end tag: the character data lands
                // once, and the closing tag adds nothing because the
                // element was not empty.
                assert(events[i] matches MarkupEvent::Start { name, .. }
                    && name@ == "number:text"@);
                assert(decode_date_style(events, i, acc, empty_flag)
                    == decode_date_style(events, i + 1, acc, true));
                assert(events[i + 1] matches MarkupEvent::Text(c) && c@ == t);
                assert(decode_date_style(events, i + 1, acc, true)
                    == decode_date_style(events, i + 2, acc + text_frag(t), false));
                assert(events[i + 2] matches MarkupEvent::End { name }
                    && name@ == "number:text"@);
                assert("number:text"@.len() == 11);
                assert("number:date-style"@.len() == 17);
                assert("number:text"@ != "number:date-style"@);
                assert(decode_date_style(events, i + 2, acc + text_frag(t), false)
                    == decode_date_style(events, i + 3, acc + text_frag(t), false));
                assert(i + 3 + elems_event_width(es.skip(1)) == i + elems_event_width(es));
                lemma_decode_lays_out(events, i + 3, es.skip(1), acc + text_frag(t), false);
                lemma_elems_decode_head(es);
                assert(acc + text_frag(t) + decode_elems(es.skip(1))
                    =~= acc + decode_elems(es));
            },
            _ => {
                match head {
                    OdsElem::Era { .. } => {
                        assert(empty_elem_frag_of(events[i]) == decode_elem(head));
                    },
                    OdsElem::Year { .. } => {
                        assert(empty_elem_frag_of(events[i]) == decode_elem(head));
                    },
                    OdsElem::Month { .. } => {
                        assert(empty_elem_frag_of(events[i]) == decode_elem(head));
                    },
                    OdsElem::Day { .. } => {
                        assert(empty_elem_frag_of(events[i]) == decode_elem(head));
                    },
                    OdsElem::Hours { .. } => {
                        assert(empty_elem_frag_of(events[i]) == decode_elem(head));
                    },
                    OdsElem::Minutes { .. } => {
                        assert(empty_elem_frag_of(events[i]) == decode_elem(head));
                    },
                    OdsElem::Seconds { .. } => {
                        assert(empty_elem_frag_of(events[i]) == decode_elem(head));
                    },
                    OdsElem::Text(_) => {
                        assert(false);
                    },
                }
                assert(i + 1 + elems_event_width(es.skip(1)) == i + elems_event_width(es));
                lemma_decode_lays_out(events, i + 1, es.skip(1),
                                      acc + decode_elem(head), empty_flag);
                lemma_elems_decode_head(es);
                assert(acc + decode_elem(head) + decode_elems(es.skip(1))
                    =~= acc + decode_elems(es));
            },
        }
    }
}

/// An element run decodes to its head's text followed by its tail's.
proof fn lemma_elems_decode_head(es: Seq<OdsElem>)
    requires
        es.len() > 0,
    ensures
        decode_elems(es) == decode_elem(es[0]) + decode_elems(es.skip(1)),
    decreases es.len(),
{
    if es.len() == 1 {
        assert(es.drop_last() =~= Seq::<OdsElem>::empty());
        assert(es.skip(1) =~= Seq::<OdsElem>::empty());
        assert(decode_elems(Seq::<OdsElem>::empty()) == Seq::<char>::empty());
        assert(decode_elem(es[0]) + decode_elems(es.skip(1)) =~= decode_elems(es));
    } else {
        lemma_elems_decode_head(es.drop_last());
        assert(es.drop_last()[0] == es[0]);
        assert(es.skip(1).drop_last() =~= es.drop_last().skip(1));
        assert(es.skip(1).last() == es.last());
        assert(decode_elems(es.skip(1))
            == decode_elems(es.drop_last().skip(1)) + decode_elem(es.last()));
        assert(decode_elem(es[0]) + (decode_elems(es.drop_last().skip(1))
                + decode_elem(es.last()))
            =~= (decode_elem(es[0]) + decode_elems(es.drop_last().skip(1)))
                + decode_elem(es.last()));
    }
}

/// What one text event's character data writes back.
fn text_frag_exec(t: &String) -> (r: String)
    ensures
        r@ == text_frag(t@),
{
    let len = t.as_str().unicode_len();
    if len == 1 {
        let c = t.as_str().get_char(0);
        if c == '/' {
            let r = String::from_str("/");
            proof {
                reveal_strlit("/");
                assert(t@ =~= seq!['/']);
                assert(r@ =~= text_frag(t@));
            }
            r
        } else if c == ':' {
            let r = String::from_str(":");
            proof {
                reveal_strlit(":");
                assert(t@ =~= seq![':']);
                assert(r@ =~= text_frag(t@));
            }
            r
        } else {
            let head = String::from_str("\\");
            let r = head.concat(t.as_str());
            proof {
                reveal_strlit("\\");
                assert(!(t@ =~= seq!['/']));
                assert(!(t@ =~= seq![':']));
                assert(r@ =~= text_frag(t@));
            }
            r
        }
    } else {
        let head = String::from_str("\"");
        let r = head.concat(t.as_str()).concat("\"");
        proof {
            reveal_strlit("\"");
            assert(!(t@ =~= seq!['/']));
            assert(!(t@ =~= seq![':']));
            assert(r@ =~= text_frag(t@));
        }
        r
    }
}

/// Reads one date style's event run from position `i` until the style's
/// end tag, returning the format-spec string it writes back and the
/// position after the end tag.
pub fn read_number_date_style(events: &Vec<MarkupEvent>, start: usize) -> (r: (String, usize))
    requires
        start <= events@.len(),
    ensures
        (r.0@, r.1 as int) == decode_date_style(events@, start as int, Seq::empty(), true),
        start <= r.1 <= events@.len(),
        start < events@.len() ==> start < r.1,
{
    proof {
        lemma_decode_date_style_bounds(events@, start as int, Seq::empty(), true);
    }
    let mut acc = String::new();
    let mut empty_flag = true;
    let mut i = start;
    proof {
        reveal_strlit("");
    }
    while i < events.len()
        invariant
            start <= i <= events@.len(),
            decode_date_style(events@, start as int, Seq::empty(), true)
                == decode_date_style(events@, i as int, acc@, empty_flag),
        decreases events@.len() - i,
    {
        match &events[i] {
            MarkupEvent::Start { name, .. } => {
                if string_eq(name, "number:text") {
                    empty_flag = true;
                }
            },
            MarkupEvent::End { name } => {
                if string_eq(name, "number:date-style") {
                    proof {
                        lemma_decode_date_style_bounds(events@, start as int,
                                                       Seq::empty(), true);
                    }
                    return (acc, i + 1);
                } else if string_eq(name, "number:text") {
                    if empty_flag {
                        acc.append("\\ ");
                        proof {
                            reveal_strlit("\\ ");
                            assert(empty_text_frag() =~= "\\ "@);
                        }
                    }
                }
            },
            MarkupEvent::Empty { name, attrs } => {
                if string_eq(name, "number:era") {
                    let piece = read_number_format(attrs, "GGG", "G");
                    proof {
                        reveal_strlit("GGG");
                        reveal_strlit("G");
                        assert(piece@ =~= empty_elem_frag(name@, attrs@));
                    }
                    acc.append(piece.as_str());
                } else if string_eq(name, "number:year") {
                    let piece = read_number_year(attrs);
                    proof {
                        assert(piece@ =~= empty_elem_frag(name@, attrs@));
                    }
                    acc.append(piece.as_str());
                } else if string_eq(name, "number:month") {
                    let piece = read_number_format(attrs, "MM", "M");
                    proof {
                        reveal_strlit("MM");
                        reveal_strlit("M");
                        assert(piece@ =~= empty_elem_frag(name@, attrs@));
                    }
                    acc.append(piece.as_str());
                } else if string_eq(name, "number:day") {
                    let piece = read_number_format(attrs, "DD", "D");
                    proof {
                        reveal_strlit("DD");
                        reveal_strlit("D");
                        assert(piece@ =~= empty_elem_frag(name@, attrs@));
                    }
                    acc.append(piece.as_str());
                } else if string_eq(name, "number:hours") {
                    let piece = read_number_format(attrs, "HH", "H");
                    proof {
                        reveal_strlit("HH");
                        reveal_strlit("H");
                        assert(piece@ =~= empty_elem_frag(name@, attrs@));
                    }
                    acc.append(piece.as_str());
                } else if string_eq(name, "number:minutes") {
                    let piece = read_number_format(attrs, "MM", "M");
                    proof {
                        reveal_strlit("MM");
                        reveal_strlit("M");
                        assert(piece@ =~= empty_elem_frag(name@, attrs@));
                    }
                    acc.append(piece.as_str());
                } else if string_eq(name, "number:seconds") {
                    let piece = read_number_format(attrs, "SS", "S");
                    proof {
                        reveal_strlit("SS");
                        reveal_strlit("S");
                        assert(piece@ =~= empty_elem_frag(name@, attrs@));
                    }
                    acc.append(piece.as_str());
                } else {
                    proof {
                        assert(acc@ + empty_elem_frag(name@, attrs@) =~= acc@);
                    }
                }
            },
            MarkupEvent::Text(t) => {
                let piece = text_frag_exec(t);
                acc.append(piece.as_str());
                empty_flag = false;
            },
        }
        i = i + 1;
    }
    proof {
        assert(decode_date_style(events@, i as int, acc@, empty_flag)
            == (Seq::<char>::empty(), events@.len() as int));
    }
    (String::new(), events.len())
}

} // verus!
