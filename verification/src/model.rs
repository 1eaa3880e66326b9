//! The document model: a book is an ordered sequence of sheets; a sheet is
//! a name and a sparse grid of cells; a cell is a value and a style. An
//! absent grid entry means an empty cell. `add_cell` overwrites any cell
//! already at the same address, and sheet order is identity.

use crate::instant::{parse_instant, DateError, Instant};
use crate::style::{render_toks, Style};
use crate::era::{era_abbreviation_of, era_name_of, era_short_name_of, era_year_of};
use crate::tokens::spec_tokenize;
use vstd::map::*;
use vstd::pervasive::VecAdditionalExecFns;
use vstd::prelude::*;

verus! {

/// A cell's tagged value. Numbers are carried in their decimal text form,
/// exactly as the container formats store them; a date is a UTC instant.
#[derive(Debug)]
pub enum Value {
    /// Text.
    Str(String),
    /// A number, in decimal text form.
    Float(String),
    /// A UTC instant.
    Date(Instant),
    /// A currency amount, in decimal text form.
    Currency(String),
}

/// The mathematical model of a value.
pub enum ValueModel {
    Str(Seq<char>),
    Float(Seq<char>),
    Date(Instant),
    Currency(Seq<char>),
}

impl View for Value {
    type V = ValueModel;

    open spec fn view(&self) -> ValueModel {
        match self {
            Value::Str(s) => ValueModel::Str(s@),
            Value::Float(s) => ValueModel::Float(s@),
            Value::Date(t) => ValueModel::Date(*t),
            Value::Currency(s) => ValueModel::Currency(s@),
        }
    }
}

impl ValueModel {
    /// A well-formed value: a date holds a well-formed instant.
    pub open spec fn wf(self) -> bool {
        match self {
            ValueModel::Date(t) => t.is_valid(),
            _ => true,
        }
    }
}

impl Clone for Value {
    /// Cloning a value keeps its model.
    fn clone(&self) -> (r: Value)
        ensures
            r@ == self@,
    {
        match self {
            Value::Str(s) => Value::Str(s.clone()),
            Value::Float(s) => Value::Float(s.clone()),
            Value::Date(t) => Value::Date(*t),
            Value::Currency(s) => Value::Currency(s.clone()),
        }
    }
}

impl PartialEq for Value {
    /// Values are equal when their models are.
    fn eq(&self, other: &Value) -> (r: bool)
        ensures
            r == (self@ == other@),
    {
        match (self, other) {
            (Value::Str(a), Value::Str(b)) => {
                let r = *a == *b;
                proof {
                    if a@ == b@ {
                        assert(self@ == other@);
                    } else {
                        assert(self@ != other@);
                    }
                }
                r
            },
            (Value::Float(a), Value::Float(b)) => {
                let r = *a == *b;
                proof {
                    if a@ == b@ {
                        assert(self@ == other@);
                    } else {
                        assert(self@ != other@);
                    }
                }
                r
            },
            (Value::Date(a), Value::Date(b)) => {
                let r = *a == *b;
                proof {
                    if a == b {
                        assert(self@ == other@);
                    } else {
                        assert(self@ != other@);
                    }
                }
                r
            },
            (Value::Currency(a), Value::Currency(b)) => {
                let r = *a == *b;
                proof {
                    if a@ == b@ {
                        assert(self@ == other@);
                    } else {
                        assert(self@ != other@);
                    }
                }
                r
            },
            _ => {
                proof {
                    assert(self@ != other@);
                }
                false
            },
        }
    }
}

impl vstd::std_specs::cmp::PartialEqSpecImpl for Value {
    open spec fn obeys_eq_spec() -> bool {
        true
    }

    open spec fn eq_spec(&self, other: &Value) -> bool {
        self@ == other@
    }
}

/// The mathematical model of a cell: its value and its style's format
/// string.
pub struct CellModel {
    pub value: ValueModel,
    pub style: Seq<char>,
}

impl CellModel {
    /// A well-formed cell holds a well-formed value.
    pub open spec fn wf(self) -> bool {
        self.value.wf()
    }
}

/// One cell: a value and a display style, immutable until replaced.
#[derive(Debug)]
pub struct Cell {
    value: Value,
    style: Style,
}

impl View for Cell {
    type V = CellModel;

    closed spec fn view(&self) -> CellModel {
        CellModel { value: self.value@, style: self.style@ }
    }
}

impl Clone for Cell {
    /// Cloning a cell keeps its model.
    fn clone(&self) -> (r: Cell)
        ensures
            r@ == self@,
    {
        Cell { value: self.value.clone(), style: self.style.clone() }
    }
}

impl PartialEq for Cell {
    /// Cells are equal when their models are.
    fn eq(&self, other: &Cell) -> (r: bool)
        ensures
            r == (self@ == other@),
    {
        let r = self.value == other.value && self.style == other.style;
        proof {
            if self.value@ == other.value@ && self.style@ == other.style@ {
                assert(self@ == other@);
            }
        }
        r
    }
}

impl vstd::std_specs::cmp::PartialEqSpecImpl for Cell {
    open spec fn obeys_eq_spec() -> bool {
        true
    }

    open spec fn eq_spec(&self, other: &Cell) -> bool {
        self@ == other@
    }
}

impl Cell {
    /// Builds a cell from a value and a style.
    pub fn new(value: Value, style: Style) -> (r: Cell)
        ensures
            r@ == (CellModel { value: value@, style: style@ }),
    {
        Cell { value, style }
    }

    /// A text cell with the default (empty) style.
    pub fn str(value: &str) -> (r: Cell)
        ensures
            r@.value == ValueModel::Str(value@),
            r@.style == Seq::<char>::empty(),
            r@.wf(),
    {
        let r = Cell::new(Value::Str(String::from_str(value)), Style::new(""));
        proof {
            reveal_strlit("");
            assert(r@.style =~= Seq::<char>::empty());
        }
        r
    }

    /// A number cell, from the number's decimal text form, with the
    /// default (empty) style.
    pub fn float(value: &str) -> (r: Cell)
        ensures
            r@.value == ValueModel::Float(value@),
            r@.style == Seq::<char>::empty(),
            r@.wf(),
    {
        let r = Cell::new(Value::Float(String::from_str(value)), Style::new(""));
        proof {
            reveal_strlit("");
            assert(r@.style =~= Seq::<char>::empty());
        }
        r
    }

    /// A date cell from a date source string (`YYYY-MM-DD` or
    /// `YYYY-MM-DDTHH:MM:SS`, taken as UTC) and a style. A malformed
    /// source string is a typed failure.
    pub fn date_with_style(value: &str, style: Style) -> (r: Result<Cell, DateError>)
        ensures
            match r {
                Ok(c) => {
                    &&& crate::instant::parse_date_source(value@) is Some
                    &&& c@.value == ValueModel::Date(
                        crate::instant::parse_date_source(value@)->Some_0)
                    &&& c@.style == style@
                    &&& c@.wf()
                },
                Err(_) => crate::instant::parse_date_source(value@) is None,
            },
    {
        match parse_instant(value) {
            Ok(t) => Ok(Cell::new(Value::Date(t), style)),
            Err(e) => Err(e),
        }
    }

    /// The cell's value.
    pub fn get_value(&self) -> (r: &Value)
        ensures
            r@ == self@.value,
    {
        &self.value
    }

    /// The cell's style.
    pub fn get_style(&self) -> (r: &Style)
        ensures
            r@ == self@.style,
    {
        &self.style
    }

    /// Replaces the cell's style in place, keeping its value.
    pub fn set_style(&mut self, style: Style)
        ensures
            final(self)@.value == old(self)@.value,
            final(self)@.style == style@,
    {
        self.style = style;
    }

    /// The style-driven display text of the cell: dates render through the
    /// style's format string; every other kind of value has none.
    pub fn get_formated_value(&self) -> (r: Option<String>)
        requires
            self@.wf(),
        ensures
            match r {
                Some(out) => {
                    &&& self@.value is Date
                    &&& spec_tokenize(self@.style) is Some
                    &&& {
                        let dt = self@.value->Date_0;
                        out@ == render_toks(
                            spec_tokenize(self@.style)->Some_0,
                            dt,
                            era_year_of(dt.year as int, dt.month as int, dt.day as int,
                                        dt.hour as int, dt.minute as int, dt.second as int),
                            era_abbreviation_of(dt.year as int, dt.month as int, dt.day as int,
                                        dt.hour as int, dt.minute as int, dt.second as int),
                            era_short_name_of(dt.year as int, dt.month as int, dt.day as int,
                                        dt.hour as int, dt.minute as int, dt.second as int),
                            era_name_of(dt.year as int, dt.month as int, dt.day as int,
                                        dt.hour as int, dt.minute as int, dt.second as int),
                        )
                    }
                },
                None => self@.value !is Date || spec_tokenize(self@.style) is None,
            },
    {
        match &self.value {
            Value::Date(dt) => self.style.get_formated_date(dt),
            _ => None,
        }
    }
}

/// One grid entry of a sheet's model: row index, column index, cell model.
pub type EntryModel = (int, int, CellModel);

/// Whether one grid position comes strictly before another in row-major
/// order.
pub open spec fn pos_lt(a: (int, int), b: (int, int)) -> bool {
    a.0 < b.0 || (a.0 == b.0 && a.1 < b.1)
}

/// A strictly ascending, duplicate-free entry sequence.
pub open spec fn entries_sorted(s: Seq<EntryModel>) -> bool {
    forall|i: int, j: int| 0 <= i < j < s.len()
        ==> pos_lt((#[trigger] s[i].0, s[i].1), (#[trigger] s[j].0, s[j].1))
}

/// The sparse grid an entry sequence denotes.
pub open spec fn grid_of(s: Seq<EntryModel>) -> Map<(int, int), CellModel>
    decreases s.len(),
{
    if s.len() == 0 {
        Map::empty()
    } else {
        grid_of(s.drop_last()).insert((s.last().0, s.last().1), s.last().2)
    }
}

/// The position of the entry carrying a key, when one does.
pub open spec fn index_of_key(s: Seq<EntryModel>, k: (int, int)) -> Option<int>
    decreases s.len(),
{
    if s.len() == 0 {
        None
    } else if (s.last().0, s.last().1) == k {
        Some(s.len() - 1)
    } else {
        index_of_key(s.drop_last(), k)
    }
}

/// The grid contains exactly the keys some entry carries, and maps each to
/// that entry's cell.
pub proof fn lemma_grid_lookup(s: Seq<EntryModel>, k: (int, int))
    ensures
        grid_of(s).contains_key(k) <==> index_of_key(s, k) is Some,
        match index_of_key(s, k) {
            Some(i) => 0 <= i < s.len() && (s[i].0, s[i].1) == k
                && grid_of(s).contains_key(k) && grid_of(s)[k] == s[i].2,
            None => !grid_of(s).contains_key(k),
        },
    decreases s.len(),
{
    if s.len() > 0 {
        lemma_grid_lookup(s.drop_last(), k);
        if (s.last().0, s.last().1) == k {
        } else {
            match index_of_key(s.drop_last(), k) {
                Some(i) => {
                    assert(s.drop_last()[i] == s[i]);
                },
                None => {},
            }
        }
    }
}

/// In a sorted sequence, the entry carrying a key is found at its own
/// position.
pub proof fn lemma_index_of_key_at(s: Seq<EntryModel>, i: int)
    requires
        entries_sorted(s),
        0 <= i < s.len(),
    ensures
        index_of_key(s, (s[i].0, s[i].1)) == Some(i),
    decreases s.len(),
{
    if i == s.len() - 1 {
    } else {
        assert(pos_lt((s[i].0, s[i].1), (s.last().0, s.last().1)));
        assert(entries_sorted(s.drop_last()));
        assert(s.drop_last()[i] == s[i]);
        lemma_index_of_key_at(s.drop_last(), i);
    }
}

/// In a sorted sequence every entry's cell is what the grid maps its key
/// to.
pub proof fn lemma_grid_at(s: Seq<EntryModel>, i: int)
    requires
        entries_sorted(s),
        0 <= i < s.len(),
    ensures
        grid_of(s).contains_key((s[i].0, s[i].1)),
        grid_of(s)[(s[i].0, s[i].1)] == s[i].2,
{
    lemma_index_of_key_at(s, i);
    lemma_grid_lookup(s, (s[i].0, s[i].1));
}

/// Dropping a sorted sequence's last entry removes exactly its key from
/// the grid.
proof fn lemma_grid_drop_last(s: Seq<EntryModel>)
    requires
        entries_sorted(s),
        s.len() > 0,
    ensures
        grid_of(s.drop_last()) == grid_of(s).remove((s.last().0, s.last().1)),
{
    let k = (s.last().0, s.last().1);
    lemma_grid_lookup(s.drop_last(), k);
    match index_of_key(s.drop_last(), k) {
        Some(i) => {
            assert(s.drop_last()[i] == s[i]);
            assert(pos_lt((s[i].0, s[i].1), k));
            assert(false);
        },
        None => {},
    }
    assert(grid_of(s.drop_last()) =~= grid_of(s).remove(k));
}

/// Replacing the entry at a position with one carrying the same key
/// overwrites that key in the grid.
proof fn lemma_grid_update(s: Seq<EntryModel>, i: int, e: EntryModel)
    requires
        entries_sorted(s),
        0 <= i < s.len(),
        (s[i].0, s[i].1) == (e.0, e.1),
    ensures
        grid_of(s.update(i, e)) == grid_of(s).insert((e.0, e.1), e.2),
    decreases s.len(),
{
    let k = (e.0, e.1);
    if i == s.len() - 1 {
        assert(s.update(i, e).drop_last() =~= s.drop_last());
        assert(s.update(i, e).last() == e);
        assert(grid_of(s.drop_last()).insert(k, s[i].2).insert(k, e.2)
            =~= grid_of(s.drop_last()).insert(k, e.2));
    } else {
        assert(entries_sorted(s.drop_last()));
        assert(s.drop_last()[i] == s[i]);
        lemma_grid_update(s.drop_last(), i, e);
        assert(s.update(i, e).drop_last() =~= s.drop_last().update(i, e));
        assert(s.update(i, e).last() == s.last());
        let klast = (s.last().0, s.last().1);
        assert(pos_lt(k, klast));
        assert(grid_of(s.drop_last()).insert(k, e.2).insert(klast, s.last().2)
            =~= grid_of(s.drop_last()).insert(klast, s.last().2).insert(k, e.2));
    }
}

/// Inserting an entry whose key no entry carries adds exactly that key to
/// the grid.
proof fn lemma_grid_insert(s: Seq<EntryModel>, i: int, e: EntryModel)
    requires
        0 <= i <= s.len(),
        forall|j: int| 0 <= j < s.len() ==> ((#[trigger] s[j]).0, s[j].1) != (e.0, e.1),
    ensures
        grid_of(s.insert(i, e)) == grid_of(s).insert((e.0, e.1), e.2),
    decreases s.len(),
{
    let k = (e.0, e.1);
    if i == s.len() {
        assert(s.insert(i, e).drop_last() =~= s);
        assert(s.insert(i, e).last() == e);
    } else {
        assert(s.insert(i, e).drop_last() =~= s.drop_last().insert(i, e));
        assert(s.insert(i, e).last() == s.last());
        assert(forall|j: int| 0 <= j < s.drop_last().len()
            ==> ((#[trigger] s.drop_last()[j]).0, s.drop_last()[j].1) != k);
        lemma_grid_insert(s.drop_last(), i, e);
        let klast = (s.last().0, s.last().1);
        assert(klast != k);
        assert(grid_of(s.drop_last()).insert(k, e.2).insert(klast, s.last().2)
            =~= grid_of(s.drop_last()).insert(klast, s.last().2).insert(k, e.2));
    }
}

/// Two sorted entry sequences with one grid are the same sequence.
pub proof fn lemma_grid_canonical(s1: Seq<EntryModel>, s2: Seq<EntryModel>)
    requires
        entries_sorted(s1),
        entries_sorted(s2),
        grid_of(s1) == grid_of(s2),
    ensures
        s1 == s2,
    decreases s1.len(),
{
    if s1.len() == 0 {
        if s2.len() > 0 {
            lemma_grid_at(s2, 0);
            assert(false);
        }
        assert(s1 =~= s2);
    } else if s2.len() == 0 {
        lemma_grid_at(s1, 0);
        assert(false);
    } else {
        // Equal grids share their largest key, which in a sorted sequence
        // is the last entry's.
        let a = s1.last();
        let b = s2.last();
        let ka = (a.0, a.1);
        let kb = (b.0, b.1);
        if ka != kb {
            lemma_grid_at(s1, s1.len() - 1);
            lemma_grid_at(s2, s2.len() - 1);
            lemma_grid_lookup(s2, ka);
            lemma_grid_lookup(s1, kb);
            let bi = index_of_key(s2, ka)->Some_0;
            let ai = index_of_key(s1, kb)->Some_0;
            if pos_lt(ka, kb) {
                // kb sits somewhere in s1, but every key there is at most ka.
                if ai < s1.len() - 1 {
                    assert(pos_lt((s1[ai].0, s1[ai].1), ka));
                }
                assert(false);
            } else {
                assert(pos_lt(kb, ka));
                if bi < s2.len() - 1 {
                    assert(pos_lt((s2[bi].0, s2[bi].1), kb));
                }
                assert(false);
            }
        }
        // Same last key; the cells agree through the grid.
        lemma_grid_at(s1, s1.len() - 1);
        lemma_grid_at(s2, s2.len() - 1);
        assert(a.2 == b.2);
        lemma_grid_drop_last(s1);
        lemma_grid_drop_last(s2);
        assert(entries_sorted(s1.drop_last()));
        assert(entries_sorted(s2.drop_last()));
        lemma_grid_canonical(s1.drop_last(), s2.drop_last());
        assert(s1.len() == s2.len());
        assert forall|i: int| 0 <= i < s1.len() implies s1[i] == s2[i] by {
            if i < s1.len() - 1 {
                assert(s1.drop_last()[i] == s2.drop_last()[i]);
                assert(s1.drop_last()[i] == s1[i]);
                assert(s2.drop_last()[i] == s2[i]);
            } else {
                assert(a.0 == b.0 && a.1 == b.1 && a.2 == b.2);
            }
        }
        assert(s1 =~= s2);
    }
}

/// The model of one stored grid entry.
pub open spec fn entry_view(e: (usize, usize, Cell)) -> EntryModel {
    (e.0 as int, e.1 as int, e.2@)
}

/// The models of a stored entry sequence.
pub open spec fn entries_view(s: Seq<(usize, usize, Cell)>) -> Seq<EntryModel> {
    s.map_values(|e: (usize, usize, Cell)| entry_view(e))
}

/// The mathematical model of a sheet: its name and its grid entries in
/// strictly ascending row-major order.
pub struct SheetModel {
    pub name: Seq<char>,
    pub cells: Seq<EntryModel>,
}

impl SheetModel {
    /// A well-formed sheet: entries strictly ascending (hence one cell per
    /// address) and every cell well formed.
    pub open spec fn wf(self) -> bool {
        entries_sorted(self.cells)
        && forall|i: int| 0 <= i < self.cells.len() ==> (#[trigger] self.cells[i]).2.wf()
    }

    /// The sparse grid the sheet denotes: absence means an empty cell.
    pub open spec fn grid(self) -> Map<(int, int), CellModel> {
        grid_of(self.cells)
    }
}

/// One sheet: a name and a sparse cell grid, kept as entries in strictly
/// ascending row-major order.
#[derive(Debug)]
pub struct Sheet {
    name: String,
    cells: Vec<(usize, usize, Cell)>,
}

impl View for Sheet {
    type V = SheetModel;

    closed spec fn view(&self) -> SheetModel {
        SheetModel { name: self.name@, cells: entries_view(self.cells@) }
    }
}

impl PartialEq for Sheet {
    /// Sheets are equal when their models are: same name, same cells at
    /// the same addresses in the same order.
    fn eq(&self, other: &Sheet) -> (r: bool)
        ensures
            r == (self@ == other@),
    {
        if self.name != other.name {
            return false;
        }
        if self.cells.len() != other.cells.len() {
            proof {
                assert(self@.cells.len() != other@.cells.len());
            }
            return false;
        }
        let n = self.cells.len();
        let mut i: usize = 0;
        while i < n
            invariant
                n == self.cells.len(),
                n == other.cells.len(),
                0 <= i <= n,
                forall|j: int| 0 <= j < i
                    ==> #[trigger] self@.cells[j] == other@.cells[j],
            decreases n - i,
        {
            let a = &self.cells[i];
            let b = &other.cells[i];
            if a.0 != b.0 || a.1 != b.1 {
                proof {
                    assert(self@.cells[i as int] != other@.cells[i as int]);
                }
                return false;
            }
            if a.2 != b.2 {
                proof {
                    assert(self@.cells[i as int] != other@.cells[i as int]);
                }
                return false;
            }
            proof {
                assert(self@.cells[i as int] == other@.cells[i as int]);
            }
            i = i + 1;
        }
        proof {
            assert(self@.cells =~= other@.cells);
        }
        true
    }
}

impl vstd::std_specs::cmp::PartialEqSpecImpl for Sheet {
    open spec fn obeys_eq_spec() -> bool {
        true
    }

    open spec fn eq_spec(&self, other: &Sheet) -> bool {
        self@ == other@
    }
}

impl Clone for Sheet {
    /// Cloning a sheet keeps its model.
    fn clone(&self) -> (r: Sheet)
        ensures
            r@ == self@,
    {
        let mut cells: Vec<(usize, usize, Cell)> = Vec::new();
        let mut i: usize = 0;
        while i < self.cells.len()
            invariant
                0 <= i <= self.cells.len(),
                cells@.len() == i,
                forall|j: int| 0 <= j < i
                    ==> entry_view(#[trigger] cells@[j]) == entry_view(self.cells@[j]),
            decreases self.cells.len() - i,
        {
            let e = &self.cells[i];
            let c = e.2.clone();
            proof {
                assert(entry_view((e.0, e.1, c)) == entry_view(self.cells@[i as int]));
            }
            cells.push((e.0, e.1, c));
            i = i + 1;
        }
        let r = Sheet { name: self.name.clone(), cells };
        proof {
            assert(r@.cells =~= self@.cells);
        }
        r
    }
}

impl Sheet {
    /// An empty sheet with the given name.
    pub fn new(name: &str) -> (r: Sheet)
        ensures
            r@.name == name@,
            r@.cells == Seq::<EntryModel>::empty(),
            r@.wf(),
    {
        let r = Sheet { name: String::from_str(name), cells: Vec::new() };
        proof {
            assert(r@.cells =~= Seq::<EntryModel>::empty());
        }
        r
    }

    /// Renames the sheet, keeping its cells.
    pub fn set_name(&mut self, name: &str)
        ensures
            final(self)@.name == name@,
            final(self)@.cells == old(self)@.cells,
    {
        self.name = String::from_str(name);
    }

    /// The sheet's name.
    pub fn get_name(&self) -> (r: &String)
        ensures
            r@ == self@.name,
    {
        &self.name
    }

    /// Stores a cell at an address. A cell already there is overwritten:
    /// last write wins.
    pub fn add_cell(&mut self, cell: Cell, row_index: usize, column_index: usize)
        requires
            old(self)@.wf(),
            cell@.wf(),
        ensures
            final(self)@.wf(),
            final(self)@.name == old(self)@.name,
            final(self)@.grid() == old(self)@.grid().insert(
                (row_index as int, column_index as int), cell@),
    {
        let ghost olds = self@.cells;
        let n = self.cells.len();
        let mut i: usize = 0;
        while i < n
            invariant
                n == self.cells.len(),
                0 <= i <= n,
                olds == entries_view(self.cells@),
                forall|j: int| 0 <= j < i
                    ==> pos_lt(((#[trigger] olds[j]).0, olds[j].1),
                               (row_index as int, column_index as int)),
            ensures
                n == self.cells.len(),
                0 <= i <= n,
                olds == entries_view(self.cells@),
                forall|j: int| 0 <= j < i
                    ==> pos_lt(((#[trigger] olds[j]).0, olds[j].1),
                               (row_index as int, column_index as int)),
                i < n ==> !pos_lt((olds[i as int].0, olds[i as int].1),
                                  (row_index as int, column_index as int)),
            decreases n - i,
        {
            let e = &self.cells[i];
            if !(e.0 < row_index || (e.0 == row_index && e.1 < column_index)) {
                break;
            }
            proof {
                assert(pos_lt(((olds[i as int]).0, olds[i as int].1),
                              (row_index as int, column_index as int)));
            }
            i = i + 1;
        }
        let k = (row_index, column_index);
        if i < n && self.cells[i].0 == row_index && self.cells[i].1 == column_index {
            // Same address: overwrite.
            self.cells.set(i, (row_index, column_index, cell));
            proof {
                assert(entries_view(self.cells@) =~= olds.update(
                    i as int,
                    (row_index as int, column_index as int,
                     entries_view(self.cells@)[i as int].2)));
                lemma_grid_update(olds, i as int, entries_view(self.cells@)[i as int]);
                assert(entries_sorted(final(self)@.cells)) by {
                    assert(forall|a: int, b: int| 0 <= a < b < olds.len()
                        ==> pos_lt(((#[trigger] olds[a]).0, olds[a].1),
                                   ((#[trigger] olds[b]).0, olds[b].1)));
                }
            }
        } else {
            // New address: keep entries sorted.
            proof {
                if i < n {
                    assert((olds[i as int].0, olds[i as int].1)
                        != (row_index as int, column_index as int));
                    assert(pos_lt((row_index as int, column_index as int),
                                  (olds[i as int].0, olds[i as int].1)));
                }
                assert forall|j: int| 0 <= j < olds.len()
                    implies ((#[trigger] olds[j]).0, olds[j].1)
                        != (row_index as int, column_index as int) by {
                    if j < i {
                    } else {
                        assert(!pos_lt((olds[j].0, olds[j].1),
                                       (row_index as int, column_index as int)));
                        if j > i {
                            assert(pos_lt((olds[i as int].0, olds[i as int].1),
                                          (olds[j].0, olds[j].1)));
                        }
                    }
                }
            }
            self.cells.insert(i, (row_index, column_index, cell));
            proof {
                assert(entries_view(self.cells@) =~= olds.insert(
                    i as int, (row_index as int, column_index as int, cell@)));
                lemma_grid_insert(olds, i as int,
                    (row_index as int, column_index as int, cell@));
                let news = final(self)@.cells;
                assert forall|a: int, b: int| 0 <= a < b < news.len()
                    implies pos_lt(((#[trigger] news[a]).0, news[a].1),
                                   ((#[trigger] news[b]).0, news[b].1)) by {
                    if b < i {
                        assert(news[a] == olds[a] && news[b] == olds[b]);
                    } else if a > i {
                        assert(news[a] == olds[a - 1] && news[b] == olds[b - 1]);
                    } else if a == i && b > i {
                        assert(news[b] == olds[b - 1]);
                        assert(b - 1 >= i);
                        assert(!pos_lt((olds[b - 1].0, olds[b - 1].1),
                                       (row_index as int, column_index as int)));
                        assert((olds[b - 1].0, olds[b - 1].1)
                            != (row_index as int, column_index as int));
                    } else if b == i {
                        assert(news[a] == olds[a]);
                    } else {
                        assert(a < i && b > i);
                        assert(news[a] == olds[a] && news[b] == olds[b - 1]);
                        assert(pos_lt((olds[a].0, olds[a].1),
                                      (row_index as int, column_index as int)));
                        assert(!pos_lt((olds[b - 1].0, olds[b - 1].1),
                                       (row_index as int, column_index as int)));
                        assert((olds[b - 1].0, olds[b - 1].1)
                            != (row_index as int, column_index as int));
                    }
                }
            }
        }
    }

    /// The cell at an address, when one is there.
    pub fn get_cell(&self, row_index: usize, column_index: usize) -> (r: Option<&Cell>)
        requires
            self@.wf(),
        ensures
            match r {
                Some(c) => self@.grid().contains_key((row_index as int, column_index as int))
                    && c@ == self@.grid()[(row_index as int, column_index as int)],
                None => !self@.grid().contains_key((row_index as int, column_index as int)),
            },
    {
        let ghost k = (row_index as int, column_index as int);
        let n = self.cells.len();
        let mut i: usize = 0;
        while i < n
            invariant
                self@.wf(),
                n == self.cells.len(),
                n == self@.cells.len(),
                0 <= i <= n,
                forall|j: int| 0 <= j < i
                    ==> ((#[trigger] self@.cells[j]).0, self@.cells[j].1) != k,
                k == (row_index as int, column_index as int),
            decreases n - i,
        {
            let e = &self.cells[i];
            if e.0 == row_index && e.1 == column_index {
                proof {
                    lemma_grid_at(self@.cells, i as int);
                }
                return Some(&self.cells[i].2);
            }
            proof {
                assert(((self@.cells[i as int]).0, self@.cells[i as int].1) != k);
            }
            i = i + 1;
        }
        proof {
            lemma_grid_lookup(self@.cells, k);
            match index_of_key(self@.cells, k) {
                Some(j) => {
                    assert(((self@.cells[j]).0, self@.cells[j].1) == k);
                    assert(false);
                },
                None => {},
            }
        }
        None
    }

    /// All present cells with their addresses, in strictly ascending
    /// row-major order.
    pub fn get_rows(&self) -> (r: &Vec<(usize, usize, Cell)>)
        ensures
            entries_view(r@) == self@.cells,
    {
        &self.cells
    }

    /// All present cells in strictly ascending (row, then column) order:
    /// the traversal that deterministic output derives from.
    pub fn sorted_access(&self) -> (r: &Vec<(usize, usize, Cell)>)
        requires
            self@.wf(),
        ensures
            entries_view(r@) == self@.cells,
            entries_sorted(entries_view(r@)),
    {
        &self.cells
    }

    /// All present cells in no promised order: for callers that only need
    /// the collection of cells, not their arrangement.
    pub fn walk_through(&self) -> (r: &Vec<(usize, usize, Cell)>)
        ensures
            entries_view(r@).to_multiset() == self@.cells.to_multiset(),
    {
        &self.cells
    }

    /// The largest row index and largest column index any present cell
    /// has — not necessarily from the same cell — or `None` for an empty
    /// sheet.
    pub fn get_max_index(&self) -> (r: Option<(usize, usize)>)
        ensures
            match r {
                Some(p) => {
                    &&& self@.cells.len() > 0
                    &&& forall|j: int| 0 <= j < self@.cells.len()
                        ==> (#[trigger] self@.cells[j]).0 <= p.0 as int
                            && self@.cells[j].1 <= p.1 as int
                    &&& exists|j: int| 0 <= j < self@.cells.len()
                        && (#[trigger] self@.cells[j]).0 == p.0 as int
                    &&& exists|j: int| 0 <= j < self@.cells.len()
                        && (#[trigger] self@.cells[j]).1 == p.1 as int
                },
                None => self@.cells.len() == 0,
            },
    {
        let n = self.cells.len();
        if n == 0 {
            return None;
        }
        let mut max_row: usize = 0;
        let mut max_col: usize = 0;
        let mut i: usize = 0;
        let ghost mut wr: int = 0;
        let ghost mut wc: int = 0;
        proof {
            assert(entries_view(self.cells@).len() == n);
        }
        while i < n
            invariant
                n == self.cells.len(),
                n == self@.cells.len(),
                n > 0,
                0 <= i <= n,
                forall|j: int| 0 <= j < i
                    ==> (#[trigger] self@.cells[j]).0 <= max_row as int
                        && self@.cells[j].1 <= max_col as int,
                i > 0 ==> 0 <= wr < i && self@.cells[wr].0 == max_row as int,
                i > 0 ==> 0 <= wc < i && self@.cells[wc].1 == max_col as int,
                i == 0 ==> max_row == 0 && max_col == 0,
            decreases n - i,
        {
            let e = &self.cells[i];
            proof {
                assert(self@.cells[i as int] == entry_view(self.cells@[i as int]));
            }
            if i == 0 {
                max_row = e.0;
                max_col = e.1;
                proof {
                    wr = 0;
                    wc = 0;
                }
            } else {
                if e.0 > max_row {
                    max_row = e.0;
                    proof {
                        wr = i as int;
                    }
                }
                if e.1 > max_col {
                    max_col = e.1;
                    proof {
                        wc = i as int;
                    }
                }
            }
            i = i + 1;
        }
        Some((max_row, max_col))
    }
}

/// A book: an ordered sequence of sheets. Position is identity; names
/// carry no uniqueness constraint.
#[derive(Debug)]
pub struct Book {
    sheets: Vec<Sheet>,
}

impl View for Book {
    type V = Seq<SheetModel>;

    closed spec fn view(&self) -> Seq<SheetModel> {
        self.sheets@.map_values(|s: Sheet| s@)
    }
}

impl PartialEq for Book {
    /// Books are equal when their sheet sequences are, sheet by sheet.
    fn eq(&self, other: &Book) -> (r: bool)
        ensures
            r == (self@ == other@),
    {
        if self.sheets.len() != other.sheets.len() {
            proof {
                assert(self@.len() != other@.len());
            }
            return false;
        }
        let n = self.sheets.len();
        let mut i: usize = 0;
        while i < n
            invariant
                n == self.sheets.len(),
                n == other.sheets.len(),
                0 <= i <= n,
                forall|j: int| 0 <= j < i ==> #[trigger] self@[j] == other@[j],
            decreases n - i,
        {
            if self.sheets[i] != other.sheets[i] {
                proof {
                    assert(self@[i as int] != other@[i as int]);
                }
                return false;
            }
            proof {
                assert(self@[i as int] == other@[i as int]);
            }
            i = i + 1;
        }
        proof {
            assert(self@ =~= other@);
        }
        true
    }
}

impl vstd::std_specs::cmp::PartialEqSpecImpl for Book {
    open spec fn obeys_eq_spec() -> bool {
        true
    }

    open spec fn eq_spec(&self, other: &Book) -> bool {
        self@ == other@
    }
}

impl Book {
    /// An empty book.
    pub fn new() -> (r: Book)
        ensures
            r@ == Seq::<SheetModel>::empty(),
    {
        let r = Book { sheets: Vec::new() };
        proof {
            assert(r@ =~= Seq::<SheetModel>::empty());
        }
        r
    }

    /// Appends a sheet; order of addition is the order of the book.
    pub fn add_sheet(&mut self, sheet: Sheet)
        ensures
            final(self)@ == old(self)@.push(sheet@),
    {
        self.sheets.push(sheet);
        proof {
            assert(final(self)@ =~= old(self)@.push(final(self).sheets@.last()@));
        }
    }

    /// The sheet at a position.
    pub fn get_sheet(&self, index: usize) -> (r: &Sheet)
        requires
            index < self@.len(),
        ensures
            r@ == self@[index as int],
    {
        &self.sheets[index]
    }

    /// How many sheets the book holds.
    pub fn get_sheet_size(&self) -> (r: usize)
        ensures
            r == self@.len(),
    {
        self.sheets.len()
    }

    /// All sheets, in order.
    pub fn get_sheet_vec(&self) -> (r: &Vec<Sheet>)
        ensures
            r@.map_values(|s: Sheet| s@) == self@,
    {
        &self.sheets
    }
}

} // verus!
