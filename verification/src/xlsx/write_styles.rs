//! Building the style part's tables: the distinct date-format strings of a
//! book in first-encounter order, their sequential number-format ids
//! starting at 164, and the cell-style table pairing each format with its
//! one-based style index (index 0 is the reserved unstyled entry).

use crate::model::{Book, CellModel, EntryModel, SheetModel, Value};
use vstd::prelude::*;

verus! {

/// The views of a string sequence.
pub open spec fn strs_view(s: Seq<String>) -> Seq<Seq<char>> {
    s.map_values(|x: String| x@)
}

/// Adds a cell's format to the collection: only date cells contribute, and
/// only formats not yet present.
pub open spec fn add_fmt(acc: Seq<Seq<char>>, c: CellModel) -> Seq<Seq<char>> {
    if c.value is Date && !acc.contains(c.style) {
        acc.push(c.style)
    } else {
        acc
    }
}

/// The formats collected after walking a sheet's cells in order.
pub open spec fn fmts_of_cells(acc: Seq<Seq<char>>, cells: Seq<EntryModel>) -> Seq<Seq<char>>
    decreases cells.len(),
{
    if cells.len() == 0 {
        acc
    } else {
        add_fmt(fmts_of_cells(acc, cells.drop_last()), cells.last().2)
    }
}

/// The formats collected after walking a book's sheets in order.
pub open spec fn fmts_of_sheets(acc: Seq<Seq<char>>, sheets: Seq<SheetModel>) -> Seq<Seq<char>>
    decreases sheets.len(),
{
    if sheets.len() == 0 {
        acc
    } else {
        fmts_of_cells(fmts_of_sheets(acc, sheets.drop_last()), sheets.last().cells)
    }
}

/// The distinct date-format strings of a book, in first-encounter order of
/// its deterministic traversal: sheets in order, each sheet's cells in
/// ascending row-major order.
pub open spec fn date_formats_of(book: Seq<SheetModel>) -> Seq<Seq<char>> {
    fmts_of_sheets(Seq::empty(), book)
}

/// A duplicate-free sequence.
pub open spec fn no_dups(s: Seq<Seq<char>>) -> bool {
    forall|i: int, j: int| 0 <= i < j < s.len() ==> #[trigger] s[i] != #[trigger] s[j]
}

/// A sheet has a date cell styled with the given format.
pub open spec fn sheet_has_date_format(sh: SheetModel, f: Seq<char>) -> bool {
    exists|i: int| 0 <= i < sh.cells.len()
        && (#[trigger] sh.cells[i]).2.value is Date && sh.cells[i].2.style == f
}

/// A book has a date cell styled with the given format.
pub open spec fn book_has_date_format(book: Seq<SheetModel>, f: Seq<char>) -> bool {
    exists|s: int| 0 <= s < book.len() && sheet_has_date_format(#[trigger] book[s], f)
}

/// Containment survives appending.
proof fn lemma_contains_push(s: Seq<Seq<char>>, x: Seq<char>, f: Seq<char>)
    requires
        s.contains(f) || x == f,
    ensures
        s.push(x).contains(f),
{
    if s.contains(f) {
        let i = choose|i: int| 0 <= i < s.len() && s[i] == f;
        assert(s.push(x)[i] == f);
    } else {
        assert(s.push(x)[s.len() as int] == f);
    }
}

/// Walking a sheet's cells keeps the collection duplicate-free and grows
/// it by exactly the sheet's date formats.
proof fn lemma_fmts_of_cells(acc: Seq<Seq<char>>, cells: Seq<EntryModel>)
    requires
        no_dups(acc),
    ensures
        no_dups(fmts_of_cells(acc, cells)),
        forall|f: Seq<char>| #[trigger] fmts_of_cells(acc, cells).contains(f)
            <==> acc.contains(f) || exists|i: int| 0 <= i < cells.len()
                && (#[trigger] cells[i]).2.value is Date && cells[i].2.style == f,
    decreases cells.len(),
{
    if cells.len() == 0 {
    } else {
        lemma_fmts_of_cells(acc, cells.drop_last());
        let prev = fmts_of_cells(acc, cells.drop_last());
        let last = cells.last();
        assert forall|f: Seq<char>| #[trigger] fmts_of_cells(acc, cells).contains(f)
            implies acc.contains(f) || exists|i: int| 0 <= i < cells.len()
                && (#[trigger] cells[i]).2.value is Date && cells[i].2.style == f by {
            if prev.contains(f) {
                if !acc.contains(f) {
                    let i = choose|i: int| 0 <= i < cells.drop_last().len()
                        && (#[trigger] cells.drop_last()[i]).2.value is Date
                        && cells.drop_last()[i].2.style == f;
                    assert(cells[i] == cells.drop_last()[i]);
                    assert((cells[i]).2.value is Date && cells[i].2.style == f);
                }
            } else {
                assert(fmts_of_cells(acc, cells) == add_fmt(prev, last.2));
                assert(last.2.value is Date && last.2.style == f);
                assert((cells[cells.len() - 1]).2.value is Date
                    && cells[cells.len() - 1].2.style == f);
            }
        }
        assert forall|f: Seq<char>| acc.contains(f) || exists|i: int| 0 <= i < cells.len()
                && (#[trigger] cells[i]).2.value is Date && cells[i].2.style == f
            implies #[trigger] fmts_of_cells(acc, cells).contains(f) by {
            if acc.contains(f) {
                assert(prev.contains(f));
                if last.2.value is Date && !prev.contains(last.2.style) {
                    lemma_contains_push(prev, last.2.style, f);
                }
            } else {
                let i = choose|i: int| 0 <= i < cells.len()
                    && (#[trigger] cells[i]).2.value is Date && cells[i].2.style == f;
                if i < cells.len() - 1 {
                    assert(cells.drop_last()[i] == cells[i]);
                    assert(prev.contains(f));
                    if last.2.value is Date && !prev.contains(last.2.style) {
                        lemma_contains_push(prev, last.2.style, f);
                    }
                } else {
                    if prev.contains(f) {
                        if last.2.value is Date && !prev.contains(last.2.style) {
                            lemma_contains_push(prev, last.2.style, f);
                        }
                    } else {
                        assert(fmts_of_cells(acc, cells) == prev.push(f));
                        lemma_contains_push(prev, f, f);
                    }
                }
            }
        }
        assert(no_dups(fmts_of_cells(acc, cells))) by {
            if last.2.value is Date && !prev.contains(last.2.style) {
                let res = prev.push(last.2.style);
                assert forall|i: int, j: int| 0 <= i < j < res.len()
                    implies #[trigger] res[i] != #[trigger] res[j] by {
                    if j == res.len() - 1 {
                        assert(res[i] == prev[i]);
                        assert(prev.contains(prev[i]));
                    }
                }
            }
        }
    }
}

/// Walking a book's sheets keeps the collection duplicate-free and grows
/// it by exactly the book's date formats.
proof fn lemma_fmts_of_sheets(acc: Seq<Seq<char>>, sheets: Seq<SheetModel>)
    requires
        no_dups(acc),
    ensures
        no_dups(fmts_of_sheets(acc, sheets)),
        forall|f: Seq<char>| #[trigger] fmts_of_sheets(acc, sheets).contains(f)
            <==> acc.contains(f) || book_has_date_format(sheets, f),
    decreases sheets.len(),
{
    if sheets.len() == 0 {
        assert forall|f: Seq<char>| #[trigger] fmts_of_sheets(acc, sheets).contains(f)
            implies acc.contains(f) || book_has_date_format(sheets, f) by {}
    } else {
        lemma_fmts_of_sheets(acc, sheets.drop_last());
        let prev = fmts_of_sheets(acc, sheets.drop_last());
        lemma_fmts_of_cells(prev, sheets.last().cells);
        assert forall|f: Seq<char>| #[trigger] fmts_of_sheets(acc, sheets).contains(f)
            implies acc.contains(f) || book_has_date_format(sheets, f) by {
            if prev.contains(f) {
                if !acc.contains(f) {
                    let s = choose|s: int| 0 <= s < sheets.drop_last().len()
                        && sheet_has_date_format(#[trigger] sheets.drop_last()[s], f);
                    assert(sheets[s] == sheets.drop_last()[s]);
                    assert(sheet_has_date_format(sheets[s], f));
                }
            } else {
                assert(sheet_has_date_format(sheets.last(), f));
                assert(sheet_has_date_format(sheets[sheets.len() - 1], f));
            }
        }
        assert forall|f: Seq<char>| acc.contains(f) || book_has_date_format(sheets, f)
            implies #[trigger] fmts_of_sheets(acc, sheets).contains(f) by {
            if acc.contains(f) {
                assert(prev.contains(f));
            } else {
                let s = choose|s: int| 0 <= s < sheets.len()
                    && sheet_has_date_format(#[trigger] sheets[s], f);
                if s < sheets.len() - 1 {
                    assert(sheets.drop_last()[s] == sheets[s]);
                    assert(book_has_date_format(sheets.drop_last(), f));
                    assert(prev.contains(f));
                } else {
                    assert(sheet_has_date_format(sheets.last(), f));
                }
            }
        }
    }
}

/// The distinct-format table is duplicate-free, and holds a format exactly
/// when some date cell of the book is styled with it: writing any number
/// of date cells that share one of `M` distinct format strings yields
/// exactly `M` table entries.
pub proof fn lemma_date_formats_table(book: Seq<SheetModel>)
    ensures
        no_dups(date_formats_of(book)),
        forall|f: Seq<char>| #[trigger] date_formats_of(book).contains(f)
            <==> book_has_date_format(book, f),
{
    lemma_fmts_of_sheets(Seq::empty(), book);
}

/// Collects the distinct date-format strings of a book, in first-encounter
/// order of its deterministic traversal. The format at position `i` is
/// assigned number-format id `164 + i` and cell-style index `i + 1`.
pub fn make_num_fmts(book: &Book) -> (r: Vec<String>)
    ensures
        strs_view(r@) == date_formats_of(book@),
{
    let sheets = book.get_sheet_vec();
    let mut out: Vec<String> = Vec::new();
    let mut si: usize = 0;
    proof {
        assert(book@.take(0) =~= Seq::<SheetModel>::empty());
        assert(strs_view(out@) =~= Seq::<Seq<char>>::empty());
    }
    while si < sheets.len()
        invariant
            sheets@.map_values(|s: crate::model::Sheet| s@) == book@,
            sheets@.len() == book@.len(),
            0 <= si <= sheets@.len(),
            strs_view(out@) == fmts_of_sheets(Seq::empty(), book@.take(si as int)),
        decreases sheets@.len() - si,
    {
        let sheet = &sheets[si];
        let rows = sheet.get_rows();
        let ghost cells = sheet@.cells;
        let ghost base = fmts_of_sheets(Seq::empty(), book@.take(si as int));
        let mut ci: usize = 0;
        proof {
            assert(cells.take(0) =~= Seq::<EntryModel>::empty());
            assert(sheet@ == book@[si as int]);
        }
        while ci < rows.len()
            invariant
                crate::model::entries_view(rows@) == cells,
                rows@.len() == cells.len(),
                0 <= ci <= rows@.len(),
                strs_view(out@) == fmts_of_cells(base, cells.take(ci as int)),
            decreases rows@.len() - ci,
        {
            let ghost pre = cells.take(ci as int);
            let ghost post = cells.take(ci + 1);
            proof {
                assert(post.drop_last() =~= pre);
                assert(post.last() == cells[ci as int]);
                assert(cells[ci as int] == crate::model::entry_view(rows@[ci as int]));
            }
            let entry = &rows[ci];
            match entry.2.get_value() {
                Value::Date(_) => {
                    let format = entry.2.get_style().get_format();
                    let mut found = false;
                    let mut j: usize = 0;
                    while j < out.len()
                        invariant
                            0 <= j <= out@.len(),
                            found ==> strs_view(out@).contains(format@),
                            !found ==> forall|k: int| 0 <= k < j
                                ==> #[trigger] strs_view(out@)[k] != format@,
                        decreases out@.len() - j,
                    {
                        if string_equal(&out[j], format) {
                            proof {
                                assert(strs_view(out@)[j as int] == format@);
                            }
                            found = true;
                        }
                        j = j + 1;
                    }
                    if !found {
                        proof {
                            assert(!strs_view(out@).contains(format@));
                        }
                        let ghost before = out@;
                        out.push(format.clone());
                        proof {
                            assert(strs_view(out@) =~= strs_view(before).push(format@));
                        }
                    } else {
                        proof {
                            assert(add_fmt(fmts_of_cells(base, pre), post.last().2)
                                == fmts_of_cells(base, pre));
                        }
                    }
                },
                _ => {},
            }
            ci = ci + 1;
        }
        proof {
            assert(cells.take(cells.len() as int) =~= cells);
            assert(book@.take(si + 1).drop_last() =~= book@.take(si as int));
            assert(book@.take(si + 1).last() == book@[si as int]);
        }
        si = si + 1;
    }
    proof {
        assert(book@.take(book@.len() as int) =~= book@);
    }
    out
}

/// Whether two strings hold the same characters.
fn string_equal(a: &String, b: &String) -> (r: bool)
    ensures
        r == (a@ == b@),
{
    *a == *b
}

/// Builds the cell-style table from the distinct-format list: entry `i`
/// pairs the format at position `i` with cell-style index `i + 1`, since
/// index 0 is the reserved unstyled entry.
pub fn make_cell_xfs(num_fmts: &Vec<String>) -> (r: Vec<(String, usize)>)
    requires
        num_fmts@.len() < usize::MAX,
    ensures
        r@.len() == num_fmts@.len(),
        forall|i: int| 0 <= i < r@.len()
            ==> (#[trigger] r@[i]).0@ == num_fmts@[i]@ && r@[i].1 == i + 1,
{
    let mut out: Vec<(String, usize)> = Vec::new();
    let mut i: usize = 0;
    while i < num_fmts.len()
        invariant
            num_fmts@.len() < usize::MAX,
            0 <= i <= num_fmts@.len(),
            out@.len() == i,
            forall|j: int| 0 <= j < i
                ==> (#[trigger] out@[j]).0@ == num_fmts@[j]@ && out@[j].1 == j + 1,
        decreases num_fmts@.len() - i,
    {
        out.push((num_fmts[i].clone(), i + 1));
        i = i + 1;
    }
    out
}

/// The cell-style index assigned to a format: the table entry of the first
/// matching format. Every cell styled with one format string receives the
/// same index.
pub fn xf_index_of(table: &Vec<(String, usize)>, format: &String) -> (r: Option<usize>)
    ensures
        match r {
            Some(v) => exists|i: int| 0 <= i < table@.len()
                && (#[trigger] table@[i]).0@ == format@ && table@[i].1 == v
                && forall|j: int| 0 <= j < i ==> (#[trigger] table@[j]).0@ != format@,
            None => forall|j: int| 0 <= j < table@.len()
                ==> (#[trigger] table@[j]).0@ != format@,
        },
{
    let mut i: usize = 0;
    while i < table.len()
        invariant
            0 <= i <= table@.len(),
            forall|j: int| 0 <= j < i ==> (#[trigger] table@[j]).0@ != format@,
        decreases table@.len() - i,
    {
        if string_equal(&table[i].0, format) {
            return Some(table[i].1);
        }
        i = i + 1;
    }
    None
}

} // verus!
