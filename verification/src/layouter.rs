//! The register file of one assignment pass, and the operations that chips
//! fill it with.

use crate::circuit::{
    cell_at, AdviceColumn, Cell, Column, Description, Expression, InstanceColumn, Rotation,
    Selector, System, TableColumn,
};
use crate::field::{lemma_residue, modulus, Felt};
use vstd::prelude::*;

verus! {

/// The most rows a register file can have.
pub const MAX_ROWS: usize = 0x4000_0000;

/// The part of the library that raised an error.
#[derive(Clone, Copy, Debug, PartialEq, Eq, Structural)]
pub enum Component {
    Layouter,
    ZeroTest,
    AddCarry,
    CarryCascade,
    LookupRange,
    Decomposition,
}

/// What went wrong while a register file was being filled.
#[derive(Clone, Copy, Debug, PartialEq, Eq, Structural)]
pub enum ErrorKind {
    /// The register file has no witness column of that index.
    UnknownColumn,
    /// The register file has no selector of that index.
    UnknownSelector,
    /// The register file has no table column of that index.
    UnknownTable,
    /// The same witness column was given for two different roles.
    DuplicateColumn,
    /// The rows asked for would exceed `MAX_ROWS`.
    OutOfRows,
    /// The row lies beyond the rows laid out so far.
    RowOutOfRange,
    /// The cell already holds a value.
    AlreadyAssigned,
    /// A value was needed that was never supplied: a witness, or a public
    /// input.
    NotAssigned,
    /// The table column already holds its values.
    TableAlreadyLoaded,
    /// A value does not fit the limbs it was to be split into.
    Overflow,
    /// A limb width or limb count is outside what the chip supports.
    InvalidParameters,
}

/// A failure of an assignment step, with the place it concerns: `column` is
/// the index of the column, selector or table at fault, `row` the row.
#[derive(Clone, Copy, Debug, PartialEq, Eq, Structural)]
pub struct Error {
    pub component: Component,
    pub kind: ErrorKind,
    pub column: usize,
    pub row: usize,
}

/// A witness cell together with the value it was given.
#[derive(Clone, Copy, Debug, PartialEq, Eq)]
pub struct AssignedCell {
    pub cell: Cell,
    pub value: Felt,
}

/// A cell and the representative of the value it was given.
pub struct CellValue {
    pub cell: Cell,
    pub value: int,
}

/// The cell with the representative of its value.
impl View for AssignedCell {
    type V = CellValue;

    open spec fn view(&self) -> CellValue {
        CellValue { cell: self.cell, value: self.value@ }
    }
}

impl CellValue {
    /// The witness cell at `(column, row)` with `value` in it.
    pub open spec fn at(column: AdviceColumn, row: int, value: int) -> CellValue {
        CellValue { cell: advice_cell(column, row), value: value }
    }
}

/// The representative of a value, if there is a value.
pub open spec fn option_value(o: Option<Felt>) -> Option<int> {
    match o {
        Some(f) => Some(f@),
        None => None,
    }
}

/// The representatives of the values.
pub open spec fn values(s: Seq<Felt>) -> Seq<int> {
    s.map_values(|f: Felt| f@)
}

/// The representatives of the values, column by column.
pub open spec fn column_values(s: Seq<Vec<Felt>>) -> Seq<Seq<int>> {
    s.map_values(|c: Vec<Felt>| values(c@))
}

/// The content of a register file: the rows laid out so far, the witness
/// cells that hold a value, the selectors that are enabled, the public
/// inputs, the tables that were loaded, and the copy constraints.
#[verifier::ext_equal]
pub struct Trace {
    pub num_advice: nat,
    pub num_selectors: nat,
    pub num_tables: nat,
    pub rows: nat,
    /// `(column, row)` to the value of that witness cell.
    pub cells: Map<(int, int), int>,
    /// `(selector, row)` for each row where a selector is enabled.
    pub enabled: Set<(int, int)>,
    pub instance: Seq<Seq<int>>,
    pub tables: Map<int, Seq<int>>,
    pub copies: Seq<(Cell, Cell)>,
}

impl Trace {
    /// Nothing lies outside the columns and rows that exist.
    pub open spec fn wf(self) -> bool {
        &&& self.rows <= MAX_ROWS
        &&& forall|k: (int, int)| #[trigger]
            self.cells.dom().contains(k) ==> 0 <= k.0 < self.num_advice && 0 <= k.1 < self.rows
        &&& forall|k: (int, int)| #[trigger]
            self.enabled.contains(k) ==> 0 <= k.0 < self.num_selectors && 0 <= k.1 < self.rows
        &&& forall|i: int| #[trigger] self.tables.dom().contains(i) ==> 0 <= i < self.num_tables
        &&& forall|k: (int, int)| #[trigger]
            self.cells.dom().contains(k) ==> 0 <= self.cells[k] < modulus()
        &&& forall|column: int, row: int|
            0 <= column < self.instance.len() && 0 <= row < self.instance[column].len() ==> 0
                <= #[trigger] self.instance[column][row] < modulus()
    }

    /// The register file before anything is laid out.
    pub open spec fn start(system: System, instance: Seq<Seq<int>>) -> Trace {
        Trace {
            num_advice: system.num_advice,
            num_selectors: system.num_selectors,
            num_tables: system.num_tables,
            rows: 0,
            cells: Map::empty(),
            enabled: Set::empty(),
            instance: instance,
            tables: Map::empty(),
            copies: Seq::empty(),
        }
    }

/// The value of a witness cell, if it has one.
    pub open spec fn advice(self, column: int, row: int) -> Option<int> {
        cell_at(self.cells, column, row)
    }

/// The public input at `(column, row)`, if there is one.
    pub open spec fn public(self, column: int, row: int) -> Option<int> {
        if 0 <= column < self.instance.len() && 0 <= row < self.instance[column].len() {
            Some(self.instance[column][row])
        } else {
            None
        }
    }

/// The value of a cell of either kind, if it has one.
    pub open spec fn value(self, cell: Cell) -> Option<int> {
        match cell.column {
            Column::Advice(c) => self.advice(c.index as int, cell.row as int),
            Column::Instance(c) => self.public(c.index as int, cell.row as int),
        }
    }

/// Whether the selector is enabled at the row.
    pub open spec fn selected(self, selector: Selector, row: int) -> bool {
        self.enabled.contains((selector.index as int, row))
    }

/// The register file with `n` more rows, all blank.
    pub open spec fn blank_rows(self, n: nat) -> Trace {
        Trace { rows: self.rows + n, ..self }
    }

/// The register file with `value` in the witness cell at `(column, row)`.
    pub open spec fn assign(self, column: AdviceColumn, row: int, value: int) -> Trace {
        Trace { cells: self.cells.insert((column.index as int, row), value), ..self }
    }

/// The register file with the selector enabled at the row.
    pub open spec fn enable(self, selector: Selector, row: int) -> Trace {
        Trace { enabled: self.enabled.insert((selector.index as int, row)), ..self }
    }

/// The register file with one more copy constraint.
    pub open spec fn copy(self, left: Cell, right: Cell) -> Trace {
        Trace { copies: self.copies.push((left, right)), ..self }
    }

/// The register file with `content` in the table column.
    pub open spec fn load(self, table: TableColumn, content: Seq<int>) -> Trace {
        Trace { tables: self.tables.insert(table.index as int, content), ..self }
    }
}

/// The first column, in the order given, that the register file does not
/// have or that was given before; nothing if every column exists and no two
/// are the same.
pub open spec fn columns_fault(t: Trace, component: Component, columns: Seq<AdviceColumn>) -> Option<
    Error,
>
    decreases columns.len(),
{
    if columns.len() == 0 {
        None
    } else {
        match columns_fault(t, component, columns.drop_last()) {
            Some(e) => Some(e),
            None => if columns.last().index >= t.num_advice {
                Some(
                    Error {
                        component: component,
                        kind: ErrorKind::UnknownColumn,
                        column: columns.last().index,
                        row: t.rows as usize,
                    },
                )
            } else if columns.drop_last().contains(columns.last()) {
                Some(
                    Error {
                        component: component,
                        kind: ErrorKind::DuplicateColumn,
                        column: columns.last().index,
                        row: t.rows as usize,
                    },
                )
            } else {
                None
            },
        }
    }
}

/// A fault among the first `n` columns is the fault of the whole list.
pub proof fn lemma_columns_fault_extends(
    t: Trace,
    component: Component,
    columns: Seq<AdviceColumn>,
    n: int,
)
    requires
        0 <= n <= columns.len(),
        columns_fault(t, component, columns.take(n)) is Some,
    ensures
        columns_fault(t, component, columns) == columns_fault(t, component, columns.take(n)),
    decreases columns.len() - n,
{
    if n < columns.len() {
        assert(columns.take(n + 1).drop_last() =~= columns.take(n));
        lemma_columns_fault_extends(t, component, columns, n + 1);
    } else {
        assert(columns.take(n) =~= columns);
    }
}

/// Columns without a fault all exist and are pairwise different.
pub proof fn lemma_columns_fit(t: Trace, component: Component, columns: Seq<AdviceColumn>)
    requires
        columns_fault(t, component, columns) is None,
    ensures
        forall|i: int| 0 <= i < columns.len() ==> (#[trigger] columns[i]).index < t.num_advice,
        forall|i: int, j: int| 0 <= i < j < columns.len() ==> columns[i] != columns[j],
    decreases columns.len(),
{
    if columns.len() > 0 {
        let front = columns.drop_last();
        lemma_columns_fit(t, component, front);
        assert forall|i: int, j: int| 0 <= i < j < columns.len() implies columns[i]
            != columns[j] by {
            if j == columns.len() - 1 {
                if columns[i] == columns[j] {
                    assert(front[i] == columns.last());
                }
            } else {
                assert(front[i] == columns[i] && front[j] == columns[j]);
            }
        }
        assert forall|i: int| 0 <= i < columns.len() implies (#[trigger] columns[i]).index
            < t.num_advice by {
            if i < columns.len() - 1 {
                assert(front[i] == columns[i]);
            }
        }
    }
}

/// Columns that all exist and are pairwise different have no fault.
pub proof fn lemma_columns_fine(t: Trace, component: Component, columns: Seq<AdviceColumn>)
    requires
        forall|i: int| 0 <= i < columns.len() ==> (#[trigger] columns[i]).index < t.num_advice,
        forall|i: int, j: int| 0 <= i < j < columns.len() ==> columns[i] != columns[j],
    ensures
        columns_fault(t, component, columns) is None,
    decreases columns.len(),
{
    if columns.len() > 0 {
        let front = columns.drop_last();
        assert forall|i: int| 0 <= i < front.len() implies (#[trigger] front[i]).index
            < t.num_advice by {
            assert(front[i] == columns[i]);
        }
        assert forall|i: int, j: int| 0 <= i < j < front.len() implies front[i] != front[j] by {
            assert(front[i] == columns[i] && front[j] == columns[j]);
        }
        lemma_columns_fine(t, component, front);
        if front.contains(columns.last()) {
            let i = choose|i: int| 0 <= i < front.len() && front[i] == columns.last();
            assert(columns[i] == columns[columns.len() - 1]);
        }
    }
}

/// The witness cell at `(column, row)`.
pub open spec fn advice_cell(column: AdviceColumn, row: int) -> Cell {
    Cell { column: Column::Advice(column), row: row as usize }
}

/// The public input at `(column, row)`, as a cell.
pub open spec fn public_cell(column: InstanceColumn, row: int) -> Cell {
    Cell { column: Column::Instance(column), row: row as usize }
}

/// The register file of one assignment pass.
pub struct Layouter {
    num_advice: usize,
    num_selectors: usize,
    advice: Vec<Vec<Option<Felt>>>,
    enabled: Vec<Vec<bool>>,
    instance: Vec<Vec<Felt>>,
    tables: Vec<Option<Vec<Felt>>>,
    copies: Vec<(Cell, Cell)>,
}

/// The content of the register file.
impl View for Layouter {
    type V = Trace;

    closed spec fn view(&self) -> Trace {
        Trace {
            num_advice: self.num_advice as nat,
            num_selectors: self.num_selectors as nat,
            num_tables: self.tables@.len(),
            rows: self.advice@.len(),
            cells: Map::new(
                |k: (int, int)|
                    0 <= k.1 < self.advice@.len() && 0 <= k.0 < self.advice@[k.1]@.len()
                        && self.advice@[k.1]@[k.0] is Some,
                |k: (int, int)| self.advice@[k.1]@[k.0].unwrap()@,
            ),
            enabled: Set::new(
                |k: (int, int)|
                    0 <= k.1 < self.enabled@.len() && 0 <= k.0 < self.enabled@[k.1]@.len()
                        && self.enabled@[k.1]@[k.0],
            ),
            instance: column_values(self.instance@),
            tables: Map::new(
                |i: int| 0 <= i < self.tables@.len() && self.tables@[i] is Some,
                |i: int| values(self.tables@[i].unwrap()@),
            ),
            copies: self.copies@,
        }
    }
}

/// A row of `n` cells without a value.
fn blank_cells(n: usize) -> (r: Vec<Option<Felt>>)
    ensures
        r@.len() == n,
        forall|i: int| 0 <= i < n ==> r@[i] is None,
{
    let mut r: Vec<Option<Felt>> = Vec::new();
    let mut i: usize = 0;
    while i < n
        invariant
            i <= n,
            r@.len() == i,
            forall|j: int| 0 <= j < i ==> r@[j] is None,
        decreases n - i,
    {
        r.push(None);
        i = i + 1;
    }
    r
}

/// A row of `n` selectors, none enabled.
fn blank_flags(n: usize) -> (r: Vec<bool>)
    ensures
        r@.len() == n,
        forall|i: int| 0 <= i < n ==> !r@[i],
{
    let mut r: Vec<bool> = Vec::new();
    let mut i: usize = 0;
    while i < n
        invariant
            i <= n,
            r@.len() == i,
            forall|j: int| 0 <= j < i ==> !r@[j],
        decreases n - i,
    {
        r.push(false);
        i = i + 1;
    }
    r
}

/// `n` table columns without their values.
fn blank_tables(n: usize) -> (r: Vec<Option<Vec<Felt>>>)
    ensures
        r@.len() == n,
        forall|i: int| 0 <= i < n ==> r@[i] is None,
{
    let mut r: Vec<Option<Vec<Felt>>> = Vec::new();
    let mut i: usize = 0;
    while i < n
        invariant
            i <= n,
            r@.len() == i,
            forall|j: int| 0 <= j < i ==> r@[j] is None,
        decreases n - i,
    {
        r.push(None);
        i = i + 1;
    }
    r
}

impl Layouter {
    /// Every row has one cell for each witness column and one flag for each
    /// selector.
    pub closed spec fn wf(&self) -> bool {
        &&& self.advice@.len() == self.enabled@.len()
        &&& self.advice@.len() <= MAX_ROWS
        &&& forall|r: int|
            0 <= r < self.advice@.len() ==> (#[trigger] self.advice@[r])@.len() == self.num_advice
        &&& forall|r: int|
            0 <= r < self.enabled@.len() ==> (#[trigger] self.enabled@[r])@.len()
                == self.num_selectors
    }

    /// The content of a well-formed register file is well formed.
    pub proof fn lemma_view_wf(&self)
        requires
            self.wf(),
        ensures
            self@.wf(),
    {
        assert forall|k: (int, int)| #[trigger] self@.cells.dom().contains(k) implies 0
            <= self@.cells[k] < modulus() by {
            lemma_residue(self.advice@[k.1]@[k.0].unwrap());
        }
        assert forall|column: int, row: int|
            0 <= column < self@.instance.len() && 0 <= row < self@.instance[column].len() implies 0
                <= #[trigger] self@.instance[column][row] < modulus() by {
            lemma_residue(self.instance@[column]@[row]);
        }
    }

    /// A register file for the columns of `description`, with the public
    /// inputs given and no rows yet.
    pub fn new(description: &Description, instance: Vec<Vec<Felt>>) -> (r: Layouter)
        ensures
            r.wf(),
            r@ == Trace::start(description@, column_values(instance@)),
    {
        let r = Layouter {
            num_advice: description.num_advice(),
            num_selectors: description.num_selectors(),
            advice: Vec::new(),
            enabled: Vec::new(),
            instance: instance,
            tables: blank_tables(description.num_tables()),
            copies: Vec::new(),
        };
        assert(r@ =~= Trace::start(description@, column_values(instance@)));
        r
    }

/// The number of rows laid out so far.
    pub fn rows(&self) -> (r: usize)
        requires
            self.wf(),
        ensures
            r == self@.rows,
            r <= MAX_ROWS,
    {
        self.advice.len()
    }

/// The number of witness columns.
    pub fn num_advice(&self) -> (r: usize)
        ensures
            r == self@.num_advice,
    {
        self.num_advice
    }

/// The number of selectors.
    pub fn num_selectors(&self) -> (r: usize)
        ensures
            r == self@.num_selectors,
    {
        self.num_selectors
    }

/// The number of table columns.
    pub fn num_tables(&self) -> (r: usize)
        ensures
            r == self@.num_tables,
    {
        self.tables.len()
    }

/// The number of copy constraints.
    pub fn num_copies(&self) -> (r: usize)
        ensures
            r == self@.copies.len(),
    {
        self.copies.len()
    }

    /// The value of a witness cell, if it has one.
    pub fn advice(&self, column: AdviceColumn, row: usize) -> (r: Option<Felt>)
        requires
            self.wf(),
        ensures
            option_value(r) == self@.advice(column.index as int, row as int),
    {
        if row < self.advice.len() && column.index < self.num_advice {
            self.advice[row][column.index]
        } else {
            None
        }
    }

    /// The public input at `(column, row)`, if there is one.
    pub fn public(&self, column: InstanceColumn, row: usize) -> (r: Option<Felt>)
        ensures
            option_value(r) == self@.public(column.index as int, row as int),
    {
        if column.index < self.instance.len() && row < self.instance[column.index].len() {
            Some(self.instance[column.index][row])
        } else {
            None
        }
    }

    /// The value of a cell of either kind, if it has one.
    pub fn value(&self, cell: Cell) -> (r: Option<Felt>)
        requires
            self.wf(),
        ensures
            option_value(r) == self@.value(cell),
    {
        match cell.column {
            Column::Advice(c) => self.advice(c, cell.row),
            Column::Instance(c) => self.public(c, cell.row),
        }
    }

    /// Whether the selector is enabled at the row.
    pub fn selected(&self, selector: Selector, row: usize) -> (r: bool)
        requires
            self.wf(),
        ensures
            r == self@.selected(selector, row as int),
    {
        row < self.enabled.len() && selector.index < self.num_selectors
            && self.enabled[row][selector.index]
    }

    /// The copy constraint of that index.
    pub fn copy(&self, index: usize) -> (r: (Cell, Cell))
        requires
            index < self@.copies.len(),
        ensures
            r == self@.copies[index as int],
    {
        self.copies[index]
    }

    /// Whether the table column holds its values.
    pub fn table_loaded(&self, table: TableColumn) -> (r: bool)
        ensures
            r == self@.tables.dom().contains(table.index as int),
    {
        table.index < self.tables.len() && self.tables[table.index].is_some()
    }

    /// The values of the table column, once it holds them.
    pub fn table(&self, table: TableColumn) -> (r: Option<&Vec<Felt>>)
        ensures
            r is Some <==> self@.tables.dom().contains(table.index as int),
            r matches Some(content) ==> values(content@) == self@.tables[table.index as int],
    {
        if table.index >= self.tables.len() {
            return None;
        }
        match &self.tables[table.index] {
            Some(content) => Some(content),
            None => None,
        }
    }

    /// Whether the value occurs in the table column. An absent table holds
    /// nothing.
    pub fn table_contains(&self, table: TableColumn, value: &Felt) -> (r: bool)
        ensures
            r == (self@.tables.dom().contains(table.index as int) && self@.tables[table.index as int].contains(
                value@,
            )),
    {
        if table.index >= self.tables.len() {
            return false;
        }
        match &self.tables[table.index] {
            None => false,
            Some(content) => {
                let mut i: usize = 0;
                while i < content.len()
                    invariant
                        i <= content@.len(),
                        self@.tables.dom().contains(table.index as int),
                        self@.tables[table.index as int] == values(content@),
                        forall|j: int| 0 <= j < i ==> values(content@)[j] != value@,
                    decreases content@.len() - i,
                {
                    if content[i].equals(value) {
                        assert(values(content@)[i as int] == value@);
                        return true;
                    }
                    i = i + 1;
                }
                assert(!values(content@).contains(value@));
                false
            },
        }
    }

    /// Tells whether the register file has each of the columns and no column
    /// is given twice, naming the first that fails.
    pub fn check_columns(&self, component: Component, columns: &Vec<AdviceColumn>) -> (r: Option<
        Error,
    >)
        requires
            self.wf(),
        ensures
            r == columns_fault(self@, component, columns@),
    {
        let ghost t = self@;
        let rows = self.advice.len();
        let mut i: usize = 0;
        while i < columns.len()
            invariant
                self.wf(),
                t == self@,
                rows == t.rows,
                i <= columns@.len(),
                columns_fault(t, component, columns@.take(i as int)) is None,
            decreases columns@.len() - i,
        {
            let c = columns[i];
            let ghost next = columns@.take(i + 1);
            assert(next.drop_last() =~= columns@.take(i as int));
            assert(next.last() == c);
            if c.index >= self.num_advice {
                proof {
                    lemma_columns_fault_extends(t, component, columns@, i + 1);
                }
                return Some(
                    Error {
                        component,
                        kind: ErrorKind::UnknownColumn,
                        column: c.index,
                        row: rows,
                    },
                );
            }
            let mut j: usize = 0;
            while j < i
                invariant
                    j <= i,
                    i < columns@.len(),
                    c == columns@[i as int],
                    forall|k: int| 0 <= k < j ==> columns@[k] != c,
                    t == self@,
                    rows == t.rows,
                    next == columns@.take(i + 1),
                    next.drop_last() == columns@.take(i as int),
                    next.last() == c,
                    c.index < t.num_advice,
                    columns_fault(t, component, columns@.take(i as int)) is None,
                decreases i - j,
            {
                if columns[j].index == c.index {
                    proof {
                        assert(columns@.take(i as int)[j as int] == c);
                        lemma_columns_fault_extends(t, component, columns@, i + 1);
                    }
                    return Some(
                        Error {
                            component,
                            kind: ErrorKind::DuplicateColumn,
                            column: c.index,
                            row: rows,
                        },
                    );
                }
                j = j + 1;
            }
            assert(!columns@.take(i as int).contains(c));
            i = i + 1;
        }
        assert(columns@.take(i as int) =~= columns@);
        None
    }

    /// The value of a polynomial at a row, or nothing if it reads a cell that
    /// holds no value.
    pub fn evaluate(&self, expression: &Expression, row: usize) -> (r: Option<Felt>)
        requires
            self.wf(),
        ensures
            option_value(r) == expression.eval(self@.cells, row as int),
        decreases expression,
    {
        match expression {
            Expression::Constant(c) => Some(*c),
            Expression::Advice(column, rotation) => match rotation {
                Rotation::Cur => self.advice(*column, row),
                Rotation::Prev => if row == 0 {
                    None
                } else {
                    self.advice(*column, row - 1)
                },
            },
            Expression::Negated(a) => match self.evaluate(a, row) {
                Some(x) => Some(Felt::zero().minus(&x)),
                None => None,
            },
            Expression::Sum(a, b) => match (self.evaluate(a, row), self.evaluate(b, row)) {
                (Some(x), Some(y)) => Some(x.plus(&y)),
                _ => None,
            },
            Expression::Product(a, b) => match (self.evaluate(a, row), self.evaluate(b, row)) {
                (Some(x), Some(y)) => Some(x.times(&y)),
                _ => None,
            },
        }
    }

    /// Lays out `height` fresh rows below the last one and returns the index
    /// of the first. Fails, changing nothing, if that would exceed `MAX_ROWS`.
    pub fn begin_region(&mut self, height: usize) -> (r: Result<usize, Error>)
        requires
            old(self).wf(),
        ensures
            final(self).wf(),
            r is Ok <==> old(self)@.rows + height <= MAX_ROWS,
            r matches Ok(start) ==> start == old(self)@.rows && final(self)@ == old(self)@.blank_rows(
                height as nat,
            ),
            r matches Err(e) ==> *final(self) == *old(self) && e == (Error {
                component: Component::Layouter,
                kind: ErrorKind::OutOfRows,
                column: 0,
                row: old(self)@.rows as usize,
            }),
    {
        let start = self.advice.len();
        if height > MAX_ROWS - start {
            return Err(
                Error {
                    component: Component::Layouter,
                    kind: ErrorKind::OutOfRows,
                    column: 0,
                    row: start,
                },
            );
        }
        let mut i: usize = 0;
        while i < height
            invariant
                i <= height,
                start + height <= MAX_ROWS,
                start == old(self)@.rows,
                self.wf(),
                self@ == old(self)@.blank_rows(i as nat),
            decreases height - i,
        {
            let ghost before = self@;
            let cells = blank_cells(self.num_advice);
            let flags = blank_flags(self.num_selectors);
            self.advice.push(cells);
            self.enabled.push(flags);
            assert(self@ =~= before.blank_rows(1));
            i = i + 1;
        }
        Ok(start)
    }

    /// Gives a witness cell its value. Fails, changing nothing, if the column
    /// or the row does not exist or the cell already holds a value.
    pub fn assign_advice(&mut self, column: AdviceColumn, row: usize, value: Felt) -> (r: Result<
        AssignedCell,
        Error,
    >)
        requires
            old(self).wf(),
        ensures
            final(self).wf(),
            r is Ok <==> column.index < old(self)@.num_advice && row < old(self)@.rows && old(
                self,
            )@.advice(column.index as int, row as int) is None,
            r matches Ok(c) ==> final(self)@ == old(self)@.assign(column, row as int, value@)
                && c.cell == advice_cell(column, row as int) && c.value == value,
            r matches Err(e) ==> *final(self) == *old(self) && e.component == Component::Layouter
                && e.column == column.index && e.row == row && e.kind == (if column.index >= old(
                self,
            )@.num_advice {
                ErrorKind::UnknownColumn
            } else if row >= old(self)@.rows {
                ErrorKind::RowOutOfRange
            } else {
                ErrorKind::AlreadyAssigned
            }),
    {
        if column.index >= self.num_advice {
            return Err(
                Error {
                    component: Component::Layouter,
                    kind: ErrorKind::UnknownColumn,
                    column: column.index,
                    row,
                },
            );
        }
        if row >= self.advice.len() {
            return Err(
                Error {
                    component: Component::Layouter,
                    kind: ErrorKind::RowOutOfRange,
                    column: column.index,
                    row,
                },
            );
        }
        if self.advice[row][column.index].is_some() {
            return Err(
                Error {
                    component: Component::Layouter,
                    kind: ErrorKind::AlreadyAssigned,
                    column: column.index,
                    row,
                },
            );
        }
        self.advice[row][column.index] = Some(value);
        assert(self@ =~= old(self)@.assign(column, row as int, value@));
        Ok(AssignedCell { cell: Cell { column: Column::Advice(column), row }, value })
    }

    /// Enables a selector at a row. Fails, changing nothing, if the selector
    /// or the row does not exist.
    pub fn enable_selector(&mut self, selector: Selector, row: usize) -> (r: Result<(), Error>)
        requires
            old(self).wf(),
        ensures
            final(self).wf(),
            r is Ok <==> selector.index < old(self)@.num_selectors && row < old(self)@.rows,
            r is Ok ==> final(self)@ == old(self)@.enable(selector, row as int),
            r matches Err(e) ==> *final(self) == *old(self) && e.component == Component::Layouter
                && e.column == selector.index && e.row == row && e.kind == (if selector.index
                >= old(self)@.num_selectors {
                ErrorKind::UnknownSelector
            } else {
                ErrorKind::RowOutOfRange
            }),
    {
        if selector.index >= self.num_selectors {
            return Err(
                Error {
                    component: Component::Layouter,
                    kind: ErrorKind::UnknownSelector,
                    column: selector.index,
                    row,
                },
            );
        }
        if row >= self.enabled.len() {
            return Err(
                Error {
                    component: Component::Layouter,
                    kind: ErrorKind::RowOutOfRange,
                    column: selector.index,
                    row,
                },
            );
        }
        self.enabled[row][selector.index] = true;
        assert(self@ =~= old(self)@.enable(selector, row as int));
        Ok(())
    }

    /// Adds a copy constraint between two cells.
    pub fn constrain_equal(&mut self, left: Cell, right: Cell)
        requires
            old(self).wf(),
        ensures
            final(self).wf(),
            final(self)@ == old(self)@.copy(left, right),
    {
        self.copies.push((left, right));
        assert(self@ =~= old(self)@.copy(left, right));
    }

    /// Gives the table column its values. Fails, changing nothing, if the
    /// column does not exist or already holds its values.
    pub fn load_table(&mut self, table: TableColumn, content: Vec<Felt>) -> (r: Result<(), Error>)
        requires
            old(self).wf(),
        ensures
            final(self).wf(),
            r is Ok <==> table.index < old(self)@.num_tables && !old(self)@.tables.dom().contains(
                table.index as int,
            ),
            r is Ok ==> final(self)@ == old(self)@.load(table, values(content@)),
            r matches Err(e) ==> *final(self) == *old(self) && e.component == Component::Layouter
                && e.column == table.index && e.row == 0 && e.kind == (if table.index >= old(
                self,
            )@.num_tables {
                ErrorKind::UnknownTable
            } else {
                ErrorKind::TableAlreadyLoaded
            }),
    {
        if table.index >= self.tables.len() {
            return Err(
                Error {
                    component: Component::Layouter,
                    kind: ErrorKind::UnknownTable,
                    column: table.index,
                    row: 0,
                },
            );
        }
        if self.tables[table.index].is_some() {
            return Err(
                Error {
                    component: Component::Layouter,
                    kind: ErrorKind::TableAlreadyLoaded,
                    column: table.index,
                    row: 0,
                },
            );
        }
        let ghost content_values = values(content@);
        self.tables[table.index] = Some(content);
        assert(self@ =~= old(self)@.load(table, content_values));
        Ok(())
    }
}

} // verus!
