//! Building the shared-strings table: the distinct text values of a book
//! in first-encounter order of its deterministic traversal, each string's
//! table index being its position.

use crate::model::{Book, CellModel, EntryModel, SheetModel, Value, ValueModel};
use crate::xlsx::write_styles::strs_view;
use vstd::prelude::*;

verus! {

/// Adds a cell's text to the collection: only text cells contribute, and
/// only strings not yet present.
pub open spec fn add_str(acc: Seq<Seq<char>>, c: CellModel) -> Seq<Seq<char>> {
    match c.value {
        ValueModel::Str(t) => if !acc.contains(t) {
            acc.push(t)
        } else {
            acc
        },
        _ => acc,
    }
}

/// The strings collected after walking a sheet's cells in order.
pub open spec fn strings_of_cells(acc: Seq<Seq<char>>, cells: Seq<EntryModel>) -> Seq<Seq<char>>
    decreases cells.len(),
{
    if cells.len() == 0 {
        acc
    } else {
        add_str(strings_of_cells(acc, cells.drop_last()), cells.last().2)
    }
}

/// The strings collected after walking a book's sheets in order.
pub open spec fn strings_of_sheets(
    acc: Seq<Seq<char>>, sheets: Seq<SheetModel>) -> Seq<Seq<char>>
    decreases sheets.len(),
{
    if sheets.len() == 0 {
        acc
    } else {
        strings_of_cells(strings_of_sheets(acc, sheets.drop_last()), sheets.last().cells)
    }
}

/// The distinct text values of a book, in first-encounter order of its
/// deterministic traversal.
pub open spec fn shared_strings_of_book(book: Seq<SheetModel>) -> Seq<Seq<char>> {
    strings_of_sheets(Seq::empty(), book)
}

/// Collects the distinct text values of a book; the string at position `i`
/// is stored in the table at index `i`.
pub fn make_shared_strings(book: &Book) -> (r: Vec<String>)
    ensures
        strs_view(r@) == shared_strings_of_book(book@),
{
    let sheets = book.get_sheet_vec();
    let mut out: Vec<String> = Vec::new();
    let mut si: usize = 0;
    proof {
        assert(book@.take(0) =~= Seq::<SheetModel>::empty());
        assert(strs_view(out@) =~= Seq::<Seq<char>>::empty());
    }
    while si < sheets.len()
        invariant
            sheets@.map_values(|s: crate::model::Sheet| s@) == book@,
            sheets@.len() == book@.len(),
            0 <= si <= sheets@.len(),
            strs_view(out@) == strings_of_sheets(Seq::empty(), book@.take(si as int)),
        decreases sheets@.len() - si,
    {
        let sheet = &sheets[si];
        let rows = sheet.get_rows();
        let ghost cells = sheet@.cells;
        let ghost base = strings_of_sheets(Seq::empty(), book@.take(si as int));
        let mut ci: usize = 0;
        proof {
            assert(cells.take(0) =~= Seq::<EntryModel>::empty());
            assert(sheet@ == book@[si as int]);
        }
        while ci < rows.len()
            invariant
                crate::model::entries_view(rows@) == cells,
                rows@.len() == cells.len(),
                0 <= ci <= rows@.len(),
                strs_view(out@) == strings_of_cells(base, cells.take(ci as int)),
            decreases rows@.len() - ci,
        {
            let ghost pre = cells.take(ci as int);
            let ghost post = cells.take(ci + 1);
            proof {
                assert(post.drop_last() =~= pre);
                assert(post.last() == cells[ci as int]);
                assert(cells[ci as int] == crate::model::entry_view(rows@[ci as int]));
            }
            let entry = &rows[ci];
            match entry.2.get_value() {
                Value::Str(text) => {
                    let mut found = false;
                    let mut j: usize = 0;
                    while j < out.len()
                        invariant
                            0 <= j <= out@.len(),
                            found ==> strs_view(out@).contains(text@),
                            !found ==> forall|k: int| 0 <= k < j
                                ==> #[trigger] strs_view(out@)[k] != text@,
                        decreases out@.len() - j,
                    {
                        if out[j] == *text {
                            proof {
                                assert(strs_view(out@)[j as int] == text@);
                            }
                            found = true;
                        }
                        j = j + 1;
                    }
                    if !found {
                        proof {
                            assert(!strs_view(out@).contains(text@));
                        }
                        let ghost before = out@;
                        out.push(text.clone());
                        proof {
                            assert(strs_view(out@) =~= strs_view(before).push(text@));
                        }
                    }
                },
                _ => {},
            }
            ci = ci + 1;
        }
        proof {
            assert(cells.take(cells.len() as int) =~= cells);
            assert(book@.take(si + 1).drop_last() =~= book@.take(si as int));
            assert(book@.take(si + 1).last() == book@[si as int]);
        }
        si = si + 1;
    }
    proof {
        assert(book@.take(book@.len() as int) =~= book@);
    }
    out
}

/// The shared-strings table index of a text value: its position in the
/// table. Every cell holding one text value receives the same index.
pub fn shared_string_index(table: &Vec<String>, text: &String) -> (r: Option<usize>)
    ensures
        match r {
            Some(v) => 0 <= v < table@.len() && table@[v as int]@ == text@
                && forall|j: int| 0 <= j < v ==> #[trigger] table@[j]@ != text@,
            None => forall|j: int| 0 <= j < table@.len() ==> #[trigger] table@[j]@ != text@,
        },
{
    let mut i: usize = 0;
    while i < table.len()
        invariant
            0 <= i <= table@.len(),
            forall|j: int| 0 <= j < i ==> #[trigger] table@[j]@ != text@,
        decreases table@.len() - i,
    {
        if table[i] == *text {
            return Some(i);
        }
        i = i + 1;
    }
    None
}

} // verus!
