//! Reading the style part: the number-format table keyed by format id,
//! then one entry per cell-style record, carrying the format-spec string
//! its format id points at, when it points at one.

use crate::markup::{assoc_map, attr_of, find_attr, lemma_assoc_lookup, string_eq, MarkupEvent};
use vstd::prelude::*;

verus! {

/// One cell-style record: the format-spec string its format id named, when
/// the number-format table had it.
#[derive(Debug, Clone)]
pub struct XfStyle {
    pub format_code: Option<String>,
}

impl View for XfStyle {
    type V = Option<Seq<char>>;

    open spec fn view(&self) -> Option<Seq<char>> {
        match self.format_code {
            Some(ref s) => Some(s@),
            None => None,
        }
    }
}

/// The style reader's state: whether the cell-style table has begun, the
/// number formats seen so far, the last format id and format code read
/// (kept across events, as repeated assignment leaves them), and the
/// cell-style records collected.
pub struct StylesState {
    pub in_cell_xfs: bool,
    pub fmts: Map<Seq<char>, Seq<char>>,
    pub last_id: Seq<char>,
    pub last_code: Seq<char>,
    pub xfs: Seq<Option<Seq<char>>>,
}

/// The state before any event.
pub open spec fn styles_init() -> StylesState {
    StylesState {
        in_cell_xfs: false,
        fmts: Map::empty(),
        last_id: Seq::empty(),
        last_code: Seq::empty(),
        xfs: Seq::empty(),
    }
}

/// One event's effect on the style reader's state.
pub open spec fn styles_step(st: StylesState, e: MarkupEvent) -> StylesState {
    match e {
        MarkupEvent::Start { name, attrs } => {
            if name@ == "cellXfs"@ {
                StylesState { in_cell_xfs: true, ..st }
            } else if name@ == "xf"@ {
                let (nid, code) = match attr_of(attrs@, "numFmtId"@) {
                    Some(v) => (
                        v,
                        if st.fmts.contains_key(v) {
                            Some(st.fmts[v])
                        } else {
                            None
                        },
                    ),
                    None => (st.last_id, None),
                };
                StylesState {
                    last_id: nid,
                    xfs: if st.in_cell_xfs {
                        st.xfs.push(code)
                    } else {
                        st.xfs
                    },
                    ..st
                }
            } else {
                st
            }
        },
        MarkupEvent::Empty { name, attrs } => {
            if name@ == "numFmt"@ {
                let nid = match attr_of(attrs@, "numFmtId"@) {
                    Some(v) => v,
                    None => st.last_id,
                };
                let code = match attr_of(attrs@, "formatCode"@) {
                    Some(v) => v,
                    None => st.last_code,
                };
                StylesState {
                    last_id: nid,
                    last_code: code,
                    fmts: st.fmts.insert(nid, code),
                    ..st
                }
            } else {
                st
            }
        },
        _ => st,
    }
}

/// The state after a whole event sequence.
pub open spec fn styles_fold(events: Seq<MarkupEvent>) -> StylesState
    decreases events.len(),
{
    if events.len() == 0 {
        styles_init()
    } else {
        styles_step(styles_fold(events.drop_last()), events.last())
    }
}

/// The number-format map the first `k` of the laid-out format entries
/// build.
pub open spec fn ids_map(ids: Seq<Seq<char>>, fmts: Seq<Seq<char>>, k: int)
    -> Map<Seq<char>, Seq<char>>
    decreases k,
{
    if k <= 0 {
        Map::empty()
    } else {
        ids_map(ids, fmts, k - 1).insert(ids[k - 1], fmts[k - 1])
    }
}

/// Whether the events lay a written style part out: one format entry per
/// id/format pair, then the cell-style table opening on the unstyled
/// record and one record per pair, in order.
pub open spec fn styles_laid_out(
    events: Seq<MarkupEvent>,
    ids: Seq<Seq<char>>,
    fmts: Seq<Seq<char>>,
    zero_id: Seq<char>,
) -> bool {
    let m = ids.len() as int;
    &&& fmts.len() == m
    &&& events.len() == 2 * m + 2
    &&& forall|k: int| 0 <= k < m ==> (#[trigger] events[k]
        matches MarkupEvent::Empty { name, attrs }
        && name@ == "numFmt"@
        && attr_of(attrs@, "numFmtId"@) == Some(ids[k])
        && attr_of(attrs@, "formatCode"@) == Some(fmts[k]))
    &&& (events[m] matches MarkupEvent::Start { name, .. } && name@ == "cellXfs"@)
    &&& (events[m + 1] matches MarkupEvent::Start { name, attrs }
        && name@ == "xf"@ && attr_of(attrs@, "numFmtId"@) == Some(zero_id))
    &&& forall|k: int| 0 <= k < m ==> (#[trigger] events[m + 2 + k]
        matches MarkupEvent::Start { name, attrs }
        && name@ == "xf"@ && attr_of(attrs@, "numFmtId"@) == Some(ids[k]))
}

/// The fold's state after the format entries alone: the map holds them
/// all, the cell-style table has not begun, and no record was taken.
proof fn lemma_numfmt_prefix(
    events: Seq<MarkupEvent>,
    ids: Seq<Seq<char>>,
    fmts: Seq<Seq<char>>,
    zero_id: Seq<char>,
    k: int,
)
    requires
        styles_laid_out(events, ids, fmts, zero_id),
        0 <= k <= ids.len(),
    ensures
        styles_fold(events.take(k)) == (StylesState {
            in_cell_xfs: false,
            fmts: ids_map(ids, fmts, k),
            last_id: if k == 0 { Seq::empty() } else { ids[k - 1] },
            last_code: if k == 0 { Seq::empty() } else { fmts[k - 1] },
            xfs: Seq::empty(),
        }),
    decreases k,
{
    reveal_strlit("numFmt");
    reveal_strlit("cellXfs");
    reveal_strlit("xf");
    if k == 0 {
        assert(events.take(0) =~= Seq::<MarkupEvent>::empty());
        assert(styles_fold(events.take(0)) == styles_init());
    } else {
        lemma_numfmt_prefix(events, ids, fmts, zero_id, k - 1);
        assert(events.take(k).drop_last() =~= events.take(k - 1));
        assert(events.take(k).last() == events[k - 1]);
    }
}

/// In a run of distinct ids, the map built from them holds each id's own
/// format.
proof fn lemma_ids_map_at(ids: Seq<Seq<char>>, fmts: Seq<Seq<char>>, k: int, j: int)
    requires
        fmts.len() == ids.len(),
        forall|a: int, b: int| 0 <= a < b < ids.len() ==> #[trigger] ids[a] != #[trigger] ids[b],
        0 <= j < k <= ids.len(),
    ensures
        ids_map(ids, fmts, k).contains_key(ids[j]),
        ids_map(ids, fmts, k)[ids[j]] == fmts[j],
    decreases k,
{
    if j == k - 1 {
    } else {
        lemma_ids_map_at(ids, fmts, k - 1, j);
        assert(ids[k - 1] != ids[j]);
    }
}

/// A key outside the id run is outside the map it builds.
proof fn lemma_ids_map_missing(ids: Seq<Seq<char>>, fmts: Seq<Seq<char>>, k: int, x: Seq<char>)
    requires
        fmts.len() == ids.len(),
        0 <= k <= ids.len(),
        forall|a: int| 0 <= a < ids.len() ==> #[trigger] ids[a] != x,
    ensures
        !ids_map(ids, fmts, k).contains_key(x),
    decreases k,
{
    if k > 0 {
        lemma_ids_map_missing(ids, fmts, k - 1, x);
    }
}

/// Reading a written style part recovers the format strings exactly: with
/// pairwise-distinct format ids, the fold yields one unstyled record
/// followed by one record per format, each carrying its format string.
pub proof fn lemma_styles_recover(
    events: Seq<MarkupEvent>,
    ids: Seq<Seq<char>>,
    fmts: Seq<Seq<char>>,
    zero_id: Seq<char>,
)
    requires
        styles_laid_out(events, ids, fmts, zero_id),
        forall|a: int, b: int| 0 <= a < b < ids.len() ==> #[trigger] ids[a] != #[trigger] ids[b],
        forall|a: int| 0 <= a < ids.len() ==> #[trigger] ids[a] != zero_id,
    ensures
        styles_fold(events).xfs.len() == ids.len() + 1,
        styles_fold(events).xfs[0] is None,
        forall|k: int| 0 <= k < ids.len()
            ==> #[trigger] styles_fold(events).xfs[k + 1] == Some(fmts[k]),
{
    reveal_strlit("numFmt");
    reveal_strlit("cellXfs");
    reveal_strlit("xf");
    assert("numFmt"@.len() == 6 && "cellXfs"@.len() == 7 && "xf"@.len() == 2);
    let m = ids.len() as int;
    lemma_numfmt_prefix(events, ids, fmts, zero_id, m);
    let table = ids_map(ids, fmts, m);

    // The table opens, and the unstyled record is taken.
    assert(events.take(m + 1).drop_last() =~= events.take(m));
    assert(events.take(m + 1).last() == events[m]);
    assert(styles_fold(events.take(m + 1)).in_cell_xfs);
    assert(styles_fold(events.take(m + 1)).fmts == table);
    assert(styles_fold(events.take(m + 1)).xfs =~= Seq::<Option<Seq<char>>>::empty());
    assert(events.take(m + 2).drop_last() =~= events.take(m + 1));
    assert(events.take(m + 2).last() == events[m + 1]);
    lemma_ids_map_missing(ids, fmts, m, zero_id);
    assert(styles_fold(events.take(m + 2)).xfs
        =~= Seq::<Option<Seq<char>>>::empty().push(None));

    // Then each record carries its own format.
    lemma_xf_suffix(events, ids, fmts, zero_id, m);
    assert(events.take(m + 2 + m) =~= events);
}

/// The fold's state through the cell-style records: after `k` of them, the
/// records so far are the unstyled one and the first `k` formats.
proof fn lemma_xf_suffix(
    events: Seq<MarkupEvent>,
    ids: Seq<Seq<char>>,
    fmts: Seq<Seq<char>>,
    zero_id: Seq<char>,
    k: int,
)
    requires
        styles_laid_out(events, ids, fmts, zero_id),
        forall|a: int, b: int| 0 <= a < b < ids.len() ==> #[trigger] ids[a] != #[trigger] ids[b],
        forall|a: int| 0 <= a < ids.len() ==> #[trigger] ids[a] != zero_id,
        0 <= k <= ids.len(),
    ensures
        styles_fold(events.take(ids.len() + 2 + k)).in_cell_xfs,
        styles_fold(events.take(ids.len() + 2 + k)).fmts
            == ids_map(ids, fmts, ids.len() as int),
        styles_fold(events.take(ids.len() + 2 + k)).xfs.len() == k + 1,
        styles_fold(events.take(ids.len() + 2 + k)).xfs[0] is None,
        forall|j: int| 0 <= j < k
            ==> #[trigger] styles_fold(events.take(ids.len() + 2 + k)).xfs[j + 1]
                == Some(fmts[j]),
    decreases k,
{
    reveal_strlit("numFmt");
    reveal_strlit("cellXfs");
    reveal_strlit("xf");
    assert("numFmt"@.len() == 6 && "cellXfs"@.len() == 7 && "xf"@.len() == 2);
    let m = ids.len() as int;
    if k == 0 {
        lemma_numfmt_prefix(events, ids, fmts, zero_id, m);
        assert(events.take(m + 1).drop_last() =~= events.take(m));
        assert(events.take(m + 1).last() == events[m]);
        assert(events.take(m + 2).drop_last() =~= events.take(m + 1));
        assert(events.take(m + 2).last() == events[m + 1]);
        lemma_ids_map_missing(ids, fmts, m, zero_id);
        assert(styles_fold(events.take(m + 2)).xfs
            =~= Seq::<Option<Seq<char>>>::empty().push(None));
    } else {
        lemma_xf_suffix(events, ids, fmts, zero_id, k - 1);
        assert(events.take(m + 2 + k).drop_last() =~= events.take(m + 2 + k - 1));
        assert(events.take(m + 2 + k).last() == events[m + 2 + (k - 1)]);
        lemma_ids_map_at(ids, fmts, m, k - 1);
        let prev = styles_fold(events.take(m + 2 + k - 1));
        assert(styles_fold(events.take(m + 2 + k)).xfs
            =~= prev.xfs.push(Some(fmts[k - 1])));
    }
}

/// Collects the cell-style records from a style part's events.
pub fn read(events: &Vec<MarkupEvent>) -> (r: Vec<XfStyle>)
    ensures
        r@.len() == styles_fold(events@).xfs.len(),
        forall|i: int| 0 <= i < r@.len()
            ==> #[trigger] r@[i]@ == styles_fold(events@).xfs[i],
{
    let mut in_cell_xfs = false;
    let mut fmts: Vec<(String, String)> = Vec::new();
    let mut last_id = String::new();
    let mut last_code = String::new();
    let mut out: Vec<XfStyle> = Vec::new();
    let mut i: usize = 0;
    proof {
        assert(events@.take(0) =~= Seq::<MarkupEvent>::empty());
        assert(assoc_map(fmts@) =~= Map::<Seq<char>, Seq<char>>::empty());
        reveal_strlit("");
    }
    while i < events.len()
        invariant
            0 <= i <= events.len(),
            in_cell_xfs == styles_fold(events@.take(i as int)).in_cell_xfs,
            assoc_map(fmts@) == styles_fold(events@.take(i as int)).fmts,
            last_id@ == styles_fold(events@.take(i as int)).last_id,
            last_code@ == styles_fold(events@.take(i as int)).last_code,
            out@.len() == styles_fold(events@.take(i as int)).xfs.len(),
            forall|j: int| 0 <= j < out@.len()
                ==> #[trigger] out@[j]@ == styles_fold(events@.take(i as int)).xfs[j],
        decreases events.len() - i,
    {
        let ghost pre = events@.take(i as int);
        let ghost post = events@.take(i + 1);
        proof {
            assert(post.drop_last() =~= pre);
            assert(post.last() == events@[i as int]);
        }
        match &events[i] {
            MarkupEvent::Start { name, attrs } => {
                if string_eq(name, "cellXfs") {
                    in_cell_xfs = true;
                } else if string_eq(name, "xf") {
                    let code: Option<String> = match find_attr(attrs, "numFmtId") {
                        Some(v) => {
                            proof {
                                lemma_assoc_lookup(fmts@, v@);
                            }
                            let c = match find_attr(&fmts, v.as_str()) {
                                Some(f) => Some(f.clone()),
                                None => None,
                            };
                            last_id = v.clone();
                            c
                        },
                        None => None,
                    };
                    if in_cell_xfs {
                        out.push(XfStyle { format_code: code });
                    }
                }
            },
            MarkupEvent::Empty { name, attrs } => {
                if string_eq(name, "numFmt") {
                    match find_attr(attrs, "numFmtId") {
                        Some(v) => {
                            last_id = v.clone();
                        },
                        None => {},
                    }
                    match find_attr(attrs, "formatCode") {
                        Some(v) => {
                            last_code = v.clone();
                        },
                        None => {},
                    }
                    let ghost before = fmts@;
                    fmts.push((last_id.clone(), last_code.clone()));
                    proof {
                        assert(fmts@.drop_last() =~= before);
                        assert(fmts@.last().0@ == last_id@ && fmts@.last().1@ == last_code@);
                        assert(assoc_map(fmts@)
                            == assoc_map(before).insert(last_id@, last_code@));
                    }
                }
            },
            _ => {},
        }
        i = i + 1;
    }
    proof {
        assert(events@.take(events@.len() as int) =~= events@);
    }
    out
}

} // verus!
