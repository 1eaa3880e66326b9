//! Reading the workbook part: one entry per sheet element, with its name,
//! sheet id, visibility state, and relationship id.

use crate::markup::{attr_of, find_attr, string_eq, MarkupEvent};
use vstd::prelude::*;

verus! {

/// One sheet element of the workbook part, as the attributes it carried.
#[derive(Debug, Clone)]
pub struct SheetRef {
    pub name: Option<String>,
    pub sheet_id: Option<String>,
    pub state: Option<String>,
    pub rid: Option<String>,
}

/// The model of one sheet element.
pub struct SheetRefModel {
    pub name: Option<Seq<char>>,
    pub sheet_id: Option<Seq<char>>,
    pub state: Option<Seq<char>>,
    pub rid: Option<Seq<char>>,
}

impl View for SheetRef {
    type V = SheetRefModel;

    open spec fn view(&self) -> SheetRefModel {
        SheetRefModel {
            name: match self.name { Some(ref s) => Some(s@), None => None },
            sheet_id: match self.sheet_id { Some(ref s) => Some(s@), None => None },
            state: match self.state { Some(ref s) => Some(s@), None => None },
            rid: match self.rid { Some(ref s) => Some(s@), None => None },
        }
    }
}

/// The sheet entry an empty `sheet` element denotes.
pub open spec fn sheet_ref_of(attrs: Seq<(String, String)>) -> SheetRefModel {
    SheetRefModel {
        name: attr_of(attrs, "name"@),
        sheet_id: attr_of(attrs, "sheetId"@),
        state: attr_of(attrs, "state"@),
        rid: attr_of(attrs, "r:id"@),
    }
}

/// The sheet entries a workbook part's events carry, in order.
pub open spec fn sheet_refs_of(events: Seq<MarkupEvent>) -> Seq<SheetRefModel>
    decreases events.len(),
{
    if events.len() == 0 {
        Seq::empty()
    } else {
        sheet_refs_of(events.drop_last()) + (match events.last() {
            MarkupEvent::Empty { name, attrs } => if name@ == "sheet"@ {
                seq![sheet_ref_of(attrs@)]
            } else {
                Seq::empty()
            },
            _ => Seq::empty(),
        })
    }
}

/// One optional attribute value as an owned string.
fn cloned_attr(attrs: &Vec<(String, String)>, key: &str) -> (r: Option<String>)
    ensures
        match r {
            Some(v) => attr_of(attrs@, key@) == Some(v@),
            None => attr_of(attrs@, key@) is None,
        },
{
    match find_attr(attrs, key) {
        Some(v) => Some(v.clone()),
        None => None,
    }
}

/// Collects the sheet entries from a workbook part's events.
pub fn read(events: &Vec<MarkupEvent>) -> (r: Vec<SheetRef>)
    ensures
        r@.len() == sheet_refs_of(events@).len(),
        forall|i: int| 0 <= i < r@.len()
            ==> #[trigger] r@[i]@ == sheet_refs_of(events@)[i],
{
    let mut out: Vec<SheetRef> = Vec::new();
    let mut i: usize = 0;
    proof {
        assert(events@.take(0) =~= Seq::<MarkupEvent>::empty());
    }
    while i < events.len()
        invariant
            0 <= i <= events.len(),
            out@.len() == sheet_refs_of(events@.take(i as int)).len(),
            forall|j: int| 0 <= j < out@.len()
                ==> #[trigger] out@[j]@ == sheet_refs_of(events@.take(i as int))[j],
        decreases events.len() - i,
    {
        let ghost pre = events@.take(i as int);
        let ghost post = events@.take(i + 1);
        proof {
            assert(post.drop_last() =~= pre);
            assert(post.last() == events@[i as int]);
        }
        match &events[i] {
            MarkupEvent::Empty { name, attrs } => {
                if string_eq(name, "sheet") {
                    let entry = SheetRef {
                        name: cloned_attr(attrs, "name"),
                        sheet_id: cloned_attr(attrs, "sheetId"),
                        state: cloned_attr(attrs, "state"),
                        rid: cloned_attr(attrs, "r:id"),
                    };
                    proof {
                        assert(entry@ == sheet_ref_of(attrs@));
                    }
                    out.push(entry);
                }
            },
            _ => {},
        }
        i = i + 1;
    }
    proof {
        assert(events@.take(events@.len() as int) =~= events@);
    }
    out
}

} // verus!
