//! Reading the style part: each named date style becomes one table entry
//! pairing the style's name with the format-spec string its element run
//! writes back.

use crate::markup::{attr_of, find_attr, string_eq, MarkupEvent};
use crate::ods::{decode_date_style, lemma_decode_date_style_bounds, read_number_date_style};
use vstd::prelude::*;

verus! {

/// The style part's date styles: style name to format-spec string, in
/// document order, later entries overriding earlier ones on lookup.
#[derive(Debug, Clone)]
pub struct StyleContent {
    pub date_style_map: Vec<(String, String)>,
}

/// The name/format pairs a style part's events carry: each named
/// date-style start tag contributes its name and the format its element
/// run writes back, and the scan resumes after the style's end tag.
pub open spec fn date_styles_scan(events: Seq<MarkupEvent>, i: int)
    -> Seq<(Seq<char>, Seq<char>)>
    decreases events.len() - i,
{
    if i < 0 || i >= events.len() {
        Seq::empty()
    } else {
        match events[i] {
            MarkupEvent::Start { name, attrs } => {
                if name@ == "number:date-style"@ {
                    match attr_of(attrs@, "style:name"@) {
                        Some(nm) => {
                            let fmt = decode_date_style(events, i + 1, Seq::empty(), true).0;
                            let j = decode_date_style(events, i + 1, Seq::empty(), true).1;
                            if i + 1 <= j <= events.len() {
                                seq![(nm, fmt)] + date_styles_scan(events, j)
                            } else {
                                seq![(nm, fmt)]
                            }
                        },
                        None => date_styles_scan(events, i + 1),
                    }
                } else {
                    date_styles_scan(events, i + 1)
                }
            },
            _ => date_styles_scan(events, i + 1),
        }
    }
}

/// Collects the named date styles of a style part into the name-to-format
/// table.
pub fn read(events: &Vec<MarkupEvent>) -> (r: StyleContent)
    ensures
        r.date_style_map@.len() == date_styles_scan(events@, 0).len(),
        forall|k: int| 0 <= k < r.date_style_map@.len()
            ==> ((#[trigger] r.date_style_map@[k]).0@, r.date_style_map@[k].1@)
                == date_styles_scan(events@, 0)[k],
{
    let mut out: Vec<(String, String)> = Vec::new();
    let mut i: usize = 0;
    while i < events.len()
        invariant
            0 <= i <= events@.len(),
            out@.len() + date_styles_scan(events@, i as int).len()
                == date_styles_scan(events@, 0).len(),
            forall|k: int| 0 <= k < out@.len()
                ==> ((#[trigger] out@[k]).0@, out@[k].1@) == date_styles_scan(events@, 0)[k],
            forall|k: int| 0 <= k < date_styles_scan(events@, i as int).len()
                ==> #[trigger] date_styles_scan(events@, i as int)[k]
                    == date_styles_scan(events@, 0)[out@.len() + k],
        decreases events@.len() - i,
    {
        let mut advanced = false;
        match &events[i] {
            MarkupEvent::Start { name, attrs } => {
                if string_eq(name, "number:date-style") {
                    match find_attr(attrs, "style:name") {
                        Some(nm) => {
                            proof {
                                lemma_decode_date_style_bounds(
                                    events@, i as int + 1, Seq::empty(), true);
                            }
                            let (fmt, j) = read_number_date_style(events, i + 1);
                            let ghost scan_i = date_styles_scan(events@, i as int);
                            proof {
                                assert(scan_i == seq![(nm@, fmt@)]
                                    + date_styles_scan(events@, j as int));
                                assert(scan_i[0] == (nm@, fmt@));
                                assert forall|k: int|
                                    0 <= k < date_styles_scan(events@, j as int).len()
                                    implies #[trigger] date_styles_scan(events@, j as int)[k]
                                        == scan_i[k + 1] by {}
                            }
                            out.push((nm.clone(), fmt));
                            i = j;
                            advanced = true;
                        },
                        None => {},
                    }
                }
            },
            _ => {},
        }
        if !advanced {
            proof {
                assert(date_styles_scan(events@, i as int)
                    == date_styles_scan(events@, i as int + 1));
            }
            i = i + 1;
        }
    }
    proof {
        assert(date_styles_scan(events@, i as int) =~= Seq::<(Seq<char>, Seq<char>)>::empty());
    }
    StyleContent { date_style_map: out }
}

} // verus!
