//! Building one worksheet part's cell records: each present cell in
//! ascending row-major order becomes one record — a shared-string
//! reference, a plain number, a date as its serial pair with its style
//! index, or a currency amount with its style index — plus the sheet's
//! dimension reference.

use crate::address::label_of;
use crate::digits::dec_str;
use crate::digits::u64_string;
use crate::index_to_column;
use crate::instant::{instant_to_serial, serial_of};
use crate::model::{EntryModel, Sheet, Value, ValueModel};
use crate::xlsx::write_shared_strings::shared_string_index;
use crate::xlsx::write_styles::{strs_view, xf_index_of};
use vstd::pervasive::unreached;
use vstd::prelude::*;

verus! {

/// One cell record of a worksheet part.
#[derive(Debug, Clone)]
pub enum SheetCellRecord {
    /// A text cell, as its shared-strings table index.
    Str { row: usize, col: usize, string_index: usize },
    /// A number cell, as its decimal text.
    Num { row: usize, col: usize, text: String },
    /// A date cell, as its serial day count and second of day, and its
    /// cell-style index.
    Date { row: usize, col: usize, xf_index: usize, serial_days: i64, serial_secs: u32 },
    /// A currency cell, as its decimal text and its cell-style index.
    Currency { row: usize, col: usize, xf_index: usize, text: String },
}

/// Whether a record renders a grid entry, against the given shared-strings
/// table and cell-style table: same address, and the payload the entry's
/// value demands — the first table index of the text for a text cell, the
/// decimal text for a number, the serial pair and the first table entry of
/// the style for a date, the text and style entry for a currency amount.
pub open spec fn record_for(
    rec: SheetCellRecord,
    entry: EntryModel,
    shared: Seq<Seq<char>>,
    table: Seq<(String, usize)>,
) -> bool {
    match entry.2.value {
        ValueModel::Str(t) => match rec {
            SheetCellRecord::Str { row, col, string_index } => {
                &&& row as int == entry.0
                &&& col as int == entry.1
                &&& string_index < shared.len()
                &&& shared[string_index as int] == t
                &&& forall|j: int| 0 <= j < string_index ==> shared[j] != t
            },
            _ => false,
        },
        ValueModel::Float(t) => match rec {
            SheetCellRecord::Num { row, col, text } => {
                &&& row as int == entry.0
                &&& col as int == entry.1
                &&& text@ == t
            },
            _ => false,
        },
        ValueModel::Date(inst) => match rec {
            SheetCellRecord::Date { row, col, xf_index, serial_days, serial_secs } => {
                &&& row as int == entry.0
                &&& col as int == entry.1
                &&& (serial_days as int, serial_secs as int) == serial_of(inst)
                &&& exists|j: int| 0 <= j < table.len()
                    && (#[trigger] table[j]).0@ == entry.2.style && table[j].1 == xf_index
                    && forall|k: int| 0 <= k < j ==> (#[trigger] table[k]).0@ != entry.2.style
            },
            _ => false,
        },
        ValueModel::Currency(t) => match rec {
            SheetCellRecord::Currency { row, col, xf_index, text } => {
                &&& row as int == entry.0
                &&& col as int == entry.1
                &&& text@ == t
                &&& exists|j: int| 0 <= j < table.len()
                    && (#[trigger] table[j]).0@ == entry.2.style && table[j].1 == xf_index
                    && forall|k: int| 0 <= k < j ==> (#[trigger] table[k]).0@ != entry.2.style
            },
            _ => false,
        },
    }
}

/// Every text value of the sheet is in the shared-strings table, and every
/// date or currency style is in the cell-style table.
pub open spec fn tables_cover_sheet(
    cells: Seq<EntryModel>,
    shared: Seq<Seq<char>>,
    table: Seq<(String, usize)>,
) -> bool {
    forall|i: int| 0 <= i < cells.len() ==> match (#[trigger] cells[i]).2.value {
        ValueModel::Str(t) => shared.contains(t),
        ValueModel::Float(_) => true,
        ValueModel::Date(_) => exists|j: int| 0 <= j < table.len()
            && (#[trigger] table[j]).0@ == cells[i].2.style,
        ValueModel::Currency(_) => exists|j: int| 0 <= j < table.len()
            && (#[trigger] table[j]).0@ == cells[i].2.style,
    }
}

/// Builds the cell records of one worksheet part: one record per present
/// cell, in ascending row-major order.
pub fn make_sheet_records(
    sheet: &Sheet,
    shared: &Vec<String>,
    format_table: &Vec<(String, usize)>,
) -> (r: Vec<SheetCellRecord>)
    requires
        sheet@.wf(),
        tables_cover_sheet(sheet@.cells, strs_view(shared@), format_table@),
    ensures
        r@.len() == sheet@.cells.len(),
        forall|i: int| 0 <= i < r@.len()
            ==> record_for(#[trigger] r@[i], sheet@.cells[i],
                           strs_view(shared@), format_table@),
{
    let ghost cells = sheet@.cells;
    let rows = sheet.get_rows();
    let mut out: Vec<SheetCellRecord> = Vec::new();
    let mut i: usize = 0;
    while i < rows.len()
        invariant
            sheet@.wf(),
            tables_cover_sheet(cells, strs_view(shared@), format_table@),
            cells == sheet@.cells,
            crate::model::entries_view(rows@) == cells,
            rows@.len() == cells.len(),
            0 <= i <= rows@.len(),
            out@.len() == i,
            forall|j: int| 0 <= j < i
                ==> record_for(#[trigger] out@[j], cells[j],
                               strs_view(shared@), format_table@),
        decreases rows@.len() - i,
    {
        let entry = &rows[i];
        proof {
            assert(cells[i as int] == crate::model::entry_view(rows@[i as int]));
        }
        let rec = match entry.2.get_value() {
            Value::Str(t) => {
                match shared_string_index(shared, t) {
                    Some(ix) => SheetCellRecord::Str {
                        row: entry.0,
                        col: entry.1,
                        string_index: ix,
                    },
                    None => {
                        proof {
                            let tt = choose|j: int| 0 <= j < strs_view(shared@).len()
                                && strs_view(shared@)[j] == t@;
                            assert(shared@[tt]@ == t@);
                            assert(false);
                        }
                        unreached()
                    },
                }
            },
            Value::Float(t) => SheetCellRecord::Num {
                row: entry.0,
                col: entry.1,
                text: t.clone(),
            },
            Value::Date(inst) => {
                let (days, secs) = instant_to_serial(inst);
                let style = entry.2.get_style().get_format();
                match xf_index_of(format_table, style) {
                    Some(xf) => SheetCellRecord::Date {
                        row: entry.0,
                        col: entry.1,
                        xf_index: xf,
                        serial_days: days,
                        serial_secs: secs,
                    },
                    None => {
                        proof {
                            assert(false);
                        }
                        unreached()
                    },
                }
            },
            Value::Currency(t) => {
                let style = entry.2.get_style().get_format();
                match xf_index_of(format_table, style) {
                    Some(xf) => SheetCellRecord::Currency {
                        row: entry.0,
                        col: entry.1,
                        xf_index: xf,
                        text: t.clone(),
                    },
                    None => {
                        proof {
                            assert(false);
                        }
                        unreached()
                    },
                }
            },
        };
        proof {
            assert(record_for(rec, cells[i as int], strs_view(shared@), format_table@));
        }
        out.push(rec);
        i = i + 1;
    }
    out
}

/// The dimension reference of a sheet: `A1` for an empty sheet or one
/// whose largest indices are both zero, else `A1:` followed by the largest
/// column's label and the largest one-based row number.
pub open spec fn spec_dimension(max_index: Option<(int, int)>) -> Seq<char> {
    match max_index {
        None => seq!['A', '1'],
        Some((mr, mc)) => if mr == 0 && mc == 0 {
            seq!['A', '1']
        } else {
            seq!['A', '1', ':'] + label_of(mc as nat) + dec_str((mr + 1) as nat)
        },
    }
}

/// Builds the dimension reference of a sheet.
pub fn make_dimension(sheet: &Sheet) -> (r: String)
    requires
        forall|i: int| 0 <= i < sheet@.cells.len()
            ==> (#[trigger] sheet@.cells[i]).0 < usize::MAX,
    ensures
        exists|m: Option<(int, int)>|
            r@ == spec_dimension(m) && match m {
                None => sheet@.cells.len() == 0,
                Some((mr, mc)) => sheet@.cells.len() > 0
                    && (exists|j: int| 0 <= j < sheet@.cells.len()
                        && (#[trigger] sheet@.cells[j]).0 == mr)
                    && (exists|j: int| 0 <= j < sheet@.cells.len()
                        && (#[trigger] sheet@.cells[j]).1 == mc)
                    && (forall|j: int| 0 <= j < sheet@.cells.len()
                        ==> (#[trigger] sheet@.cells[j]).0 <= mr
                            && sheet@.cells[j].1 <= mc),
            },
{
    match sheet.get_max_index() {
        None => {
            let r = String::from_str("A1");
            proof {
                reveal_strlit("A1");
                assert(r@ =~= spec_dimension(None));
                assert(r@ == spec_dimension(None) && sheet@.cells.len() == 0);
            }
            r
        },
        Some((max_row, max_col)) => {
            if max_row == 0 && max_col == 0 {
                let r = String::from_str("A1");
                proof {
                    reveal_strlit("A1");
                    assert(r@ =~= spec_dimension(Some((0int, 0int))));
                }
                r
            } else {
                let head = String::from_str("A1:");
                let col_label = index_to_column(max_col);
                let row_text = u64_string((max_row as u64) + 1);
                let r = head.concat(col_label.as_str()).concat(row_text.as_str());
                proof {
                    reveal_strlit("A1:");
                    assert(r@ =~= spec_dimension(Some((max_row as int, max_col as int))));
                }
                r
            }
        },
    }
}

} // verus!
