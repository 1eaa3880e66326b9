//! Reading the workbook relationship part: one entry per relationship
//! element, with its id, type and target.

use crate::markup::{attr_of, find_attr, string_eq, MarkupEvent};
use vstd::prelude::*;

verus! {

/// One relationship element, as the attributes it carried.
#[derive(Debug, Clone)]
pub struct RelEntry {
    pub id: Option<String>,
    pub rel_type: Option<String>,
    pub target: Option<String>,
}

/// The model of one relationship element.
pub struct RelEntryModel {
    pub id: Option<Seq<char>>,
    pub rel_type: Option<Seq<char>>,
    pub target: Option<Seq<char>>,
}

impl View for RelEntry {
    type V = RelEntryModel;

    open spec fn view(&self) -> RelEntryModel {
        RelEntryModel {
            id: match self.id { Some(ref s) => Some(s@), None => None },
            rel_type: match self.rel_type { Some(ref s) => Some(s@), None => None },
            target: match self.target { Some(ref s) => Some(s@), None => None },
        }
    }
}

/// The relationship entry an empty `Relationship` element denotes.
pub open spec fn rel_entry_of(attrs: Seq<(String, String)>) -> RelEntryModel {
    RelEntryModel {
        id: attr_of(attrs, "Id"@),
        rel_type: attr_of(attrs, "Type"@),
        target: attr_of(attrs, "Target"@),
    }
}

/// The relationship entries a relationship part's events carry, in order.
pub open spec fn rel_entries_of(events: Seq<MarkupEvent>) -> Seq<RelEntryModel>
    decreases events.len(),
{
    if events.len() == 0 {
        Seq::empty()
    } else {
        rel_entries_of(events.drop_last()) + (match events.last() {
            MarkupEvent::Empty { name, attrs } => if name@ == "Relationship"@ {
                seq![rel_entry_of(attrs@)]
            } else {
                Seq::empty()
            },
            _ => Seq::empty(),
        })
    }
}

/// One optional attribute value as an owned string.
fn cloned_attr(attrs: &Vec<(String, String)>, key: &str) -> (r: Option<String>)
    ensures
        match r {
            Some(v) => attr_of(attrs@, key@) == Some(v@),
            None => attr_of(attrs@, key@) is None,
        },
{
    match find_attr(attrs, key) {
        Some(v) => Some(v.clone()),
        None => None,
    }
}

/// Collects the relationship entries from a relationship part's events.
pub fn read(events: &Vec<MarkupEvent>) -> (r: Vec<RelEntry>)
    ensures
        r@.len() == rel_entries_of(events@).len(),
        forall|i: int| 0 <= i < r@.len()
            ==> #[trigger] r@[i]@ == rel_entries_of(events@)[i],
{
    let mut out: Vec<RelEntry> = Vec::new();
    let mut i: usize = 0;
    proof {
        assert(events@.take(0) =~= Seq::<MarkupEvent>::empty());
    }
    while i < events.len()
        invariant
            0 <= i <= events.len(),
            out@.len() == rel_entries_of(events@.take(i as int)).len(),
            forall|j: int| 0 <= j < out@.len()
                ==> #[trigger] out@[j]@ == rel_entries_of(events@.take(i as int))[j],
        decreases events.len() - i,
    {
        let ghost pre = events@.take(i as int);
        let ghost post = events@.take(i + 1);
        proof {
            assert(post.drop_last() =~= pre);
            assert(post.last() == events@[i as int]);
        }
        match &events[i] {
            MarkupEvent::Empty { name, attrs } => {
                if string_eq(name, "Relationship") {
                    let entry = RelEntry {
                        id: cloned_attr(attrs, "Id"),
                        rel_type: cloned_attr(attrs, "Type"),
                        target: cloned_attr(attrs, "Target"),
                    };
                    proof {
                        assert(entry@ == rel_entry_of(attrs@));
                    }
                    out.push(entry);
                }
            },
            _ => {},
        }
        i = i + 1;
    }
    proof {
        assert(events@.take(events@.len() as int) =~= events@);
    }
    out
}

} // verus!
