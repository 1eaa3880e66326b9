//! Reading the shared-strings table: every character-data event in the
//! table part, in order.

use crate::markup::MarkupEvent;
use vstd::prelude::*;

verus! {

/// The shared strings a table part's events carry: the character data of
/// each text event, in order.
pub open spec fn shared_strings_of(events: Seq<MarkupEvent>) -> Seq<Seq<char>>
    decreases events.len(),
{
    if events.len() == 0 {
        Seq::empty()
    } else {
        shared_strings_of(events.drop_last()) + (match events.last() {
            MarkupEvent::Text(t) => seq![t@],
            _ => Seq::empty(),
        })
    }
}

/// Collects the shared strings from a table part's events.
pub fn read(events: &Vec<MarkupEvent>) -> (r: Vec<String>)
    ensures
        r@.len() == shared_strings_of(events@).len(),
        forall|i: int| 0 <= i < r@.len()
            ==> #[trigger] r@[i]@ == shared_strings_of(events@)[i],
{
    let mut out: Vec<String> = Vec::new();
    let mut i: usize = 0;
    proof {
        assert(events@.take(0) =~= Seq::<MarkupEvent>::empty());
    }
    while i < events.len()
        invariant
            0 <= i <= events.len(),
            out@.len() == shared_strings_of(events@.take(i as int)).len(),
            forall|j: int| 0 <= j < out@.len()
                ==> #[trigger] out@[j]@ == shared_strings_of(events@.take(i as int))[j],
        decreases events.len() - i,
    {
        let ghost pre = events@.take(i as int);
        let ghost post = events@.take(i + 1);
        proof {
            assert(post.drop_last() =~= pre);
            assert(post.last() == events@[i as int]);
        }
        match &events[i] {
            MarkupEvent::Text(t) => {
                out.push(t.clone());
            },
            _ => {},
        }
        i = i + 1;
    }
    proof {
        assert(events@.take(events@.len() as int) =~= events@);
    }
    out
}

} // verus!
