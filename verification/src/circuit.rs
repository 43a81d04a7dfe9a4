//! Columns, selectors, polynomial expressions, and the constraint system that
//! chips register their gates and lookups in.

use crate::field::{fadd, fmul, fneg, Felt};
use vstd::prelude::*;

verus! {

/// A column of witness cells.
#[derive(Clone, Copy, Debug, PartialEq, Eq, Structural)]
pub struct AdviceColumn {
    pub index: usize,
}

/// A column of public inputs.
#[derive(Clone, Copy, Debug, PartialEq, Eq, Structural)]
pub struct InstanceColumn {
    pub index: usize,
}

/// A column of precomputed values that lookups range over.
#[derive(Clone, Copy, Debug, PartialEq, Eq, Structural)]
pub struct TableColumn {
    pub index: usize,
}

/// A per-row switch: a gate or lookup binds only the rows where its selector
/// is enabled.
#[derive(Clone, Copy, Debug, PartialEq, Eq, Structural)]
pub struct Selector {
    pub index: usize,
}

/// A column that copy constraints may relate.
#[derive(Clone, Copy, Debug, PartialEq, Eq, Structural)]
pub enum Column {
    Advice(AdviceColumn),
    Instance(InstanceColumn),
}

/// One slot of the register file.
#[derive(Clone, Copy, Debug, PartialEq, Eq, Structural)]
pub struct Cell {
    pub column: Column,
    pub row: usize,
}

/// Which row a query reads, relative to the row a gate is evaluated at.
#[derive(Clone, Copy, Debug, PartialEq, Eq, Structural)]
pub enum Rotation {
    Prev,
    Cur,
}

impl Rotation {
/// The row read, relative to the row of evaluation.
    pub open spec fn offset(self) -> int {
        match self {
            Rotation::Prev => -1,
            Rotation::Cur => 0,
        }
    }
}

/// The value of the witness cell at `(column, row)`, if it has one.
pub open spec fn cell_at(cells: Map<(int, int), int>, column: int, row: int) -> Option<int> {
    if cells.dom().contains((column, row)) {
        Some(cells[(column, row)])
    } else {
        None
    }
}

/// A polynomial over witness cells of the current and the previous row.
#[derive(Debug)]
pub enum Expression {
    Constant(Felt),
    Advice(AdviceColumn, Rotation),
    Negated(Box<Expression>),
    Sum(Box<Expression>, Box<Expression>),
    Product(Box<Expression>, Box<Expression>),
}

impl Clone for Expression {
    /// A copy of the whole tree.
    fn clone(&self) -> (r: Expression)
        ensures
            r == *self,
    {
        self.duplicate()
    }
}

impl Expression {
    /// The value of the polynomial at `row`, or nothing if it reads a cell
    /// that holds no value.
    pub open spec fn eval(self, cells: Map<(int, int), int>, row: int) -> Option<int>
        decreases self,
    {
        match self {
            Expression::Constant(c) => Some(c@),
            Expression::Advice(column, rotation) => cell_at(
                cells,
                column.index as int,
                row + rotation.offset(),
            ),
            Expression::Negated(a) => match a.eval(cells, row) {
                Some(x) => Some(fneg(x)),
                None => None,
            },
            Expression::Sum(a, b) => match (a.eval(cells, row), b.eval(cells, row)) {
                (Some(x), Some(y)) => Some(fadd(x, y)),
                _ => None,
            },
            Expression::Product(a, b) => match (a.eval(cells, row), b.eval(cells, row)) {
                (Some(x), Some(y)) => Some(fmul(x, y)),
                _ => None,
            },
        }
    }

/// The cell of `column` at `rotation`.
    pub open spec fn query(column: AdviceColumn, rotation: Rotation) -> Expression {
        Expression::Advice(column, rotation)
    }

/// `-a`.
    pub open spec fn negation_of(a: Expression) -> Expression {
        Expression::Negated(Box::new(a))
    }

/// `a + b`.
    pub open spec fn sum_of(a: Expression, b: Expression) -> Expression {
        Expression::Sum(Box::new(a), Box::new(b))
    }

/// `a * b`.
    pub open spec fn product_of(a: Expression, b: Expression) -> Expression {
        Expression::Product(Box::new(a), Box::new(b))
    }

/// `a - b`, as `a + (-b)`.
    pub open spec fn difference_of(a: Expression, b: Expression) -> Expression {
        Expression::sum_of(a, Expression::negation_of(b))
    }

/// The constant polynomial.
    pub fn constant(value: Felt) -> (r: Expression)
        ensures
            r == Expression::Constant(value),
    {
        Expression::Constant(value)
    }

/// The cell of `column` at `rotation`.
    pub fn advice(column: AdviceColumn, rotation: Rotation) -> (r: Expression)
        ensures
            r == Expression::query(column, rotation),
    {
        Expression::Advice(column, rotation)
    }

/// `-self`.
    pub fn negated(self) -> (r: Expression)
        ensures
            r == Expression::negation_of(self),
    {
        Expression::Negated(Box::new(self))
    }

/// `self + rhs`.
    pub fn plus(self, rhs: Expression) -> (r: Expression)
        ensures
            r == Expression::sum_of(self, rhs),
    {
        Expression::Sum(Box::new(self), Box::new(rhs))
    }

/// `self * rhs`.
    pub fn times(self, rhs: Expression) -> (r: Expression)
        ensures
            r == Expression::product_of(self, rhs),
    {
        Expression::Product(Box::new(self), Box::new(rhs))
    }

/// `self - rhs`, as `self + (-rhs)`.
    pub fn minus(self, rhs: Expression) -> (r: Expression)
        ensures
            r == Expression::difference_of(self, rhs),
    {
        self.plus(rhs.negated())
    }

    /// A copy of the whole tree.
    pub fn duplicate(&self) -> (r: Expression)
        ensures
            r == *self,
        decreases self,
    {
        match self {
            Expression::Constant(c) => Expression::Constant(*c),
            Expression::Advice(column, rotation) => Expression::Advice(*column, *rotation),
            Expression::Negated(a) => Expression::Negated(Box::new(a.duplicate())),
            Expression::Sum(a, b) => Expression::Sum(
                Box::new(a.duplicate()),
                Box::new(b.duplicate()),
            ),
            Expression::Product(a, b) => Expression::Product(
                Box::new(a.duplicate()),
                Box::new(b.duplicate()),
            ),
        }
    }
}

/// A polynomial has the same value on two register files that agree on the
/// row it is evaluated at and on the row before.
pub proof fn lemma_eval_frame(
    e: Expression,
    cells: Map<(int, int), int>,
    other: Map<(int, int), int>,
    row: int,
)
    requires
        forall|column: int, r: int|
            r == row || r == row - 1 ==> #[trigger] cell_at(cells, column, r) == cell_at(
                other,
                column,
                r,
            ),
    ensures
        e.eval(cells, row) == e.eval(other, row),
    decreases e,
{
    match e {
        Expression::Constant(c) => {},
        Expression::Advice(column, rotation) => {},
        Expression::Negated(a) => {
            lemma_eval_frame(*a, cells, other, row);
        },
        Expression::Sum(a, b) => {
            lemma_eval_frame(*a, cells, other, row);
            lemma_eval_frame(*b, cells, other, row);
        },
        Expression::Product(a, b) => {
            lemma_eval_frame(*a, cells, other, row);
            lemma_eval_frame(*b, cells, other, row);
        },
    }
}

/// Polynomials that must vanish on every row where the selector is enabled.
#[derive(Debug)]
pub struct Gate {
    pub name: &'static str,
    pub selector: Selector,
    pub polys: Vec<Expression>,
}

/// Expressions whose values, on every row where the selector is enabled, must
/// each occur in the table column.
#[derive(Debug)]
pub struct Lookup {
    pub name: &'static str,
    pub selector: Selector,
    pub inputs: Vec<Expression>,
    pub table: TableColumn,
}

/// What a gate says, apart from how it is stored.
pub struct GateView {
    pub name: Seq<char>,
    pub selector: Selector,
    pub polys: Seq<Expression>,
}

/// What a lookup says, apart from how it is stored.
pub struct LookupView {
    pub name: Seq<char>,
    pub selector: Selector,
    pub inputs: Seq<Expression>,
    pub table: TableColumn,
}

impl View for Gate {
    type V = GateView;

    open spec fn view(&self) -> GateView {
        GateView { name: self.name@, selector: self.selector, polys: self.polys@ }
    }
}

impl View for Lookup {
    type V = LookupView;

    open spec fn view(&self) -> LookupView {
        LookupView {
            name: self.name@,
            selector: self.selector,
            inputs: self.inputs@,
            table: self.table,
        }
    }
}

/// The content of a constraint system: how many columns of each kind it has,
/// which columns may take part in copy constraints, and its gates and lookups
/// in the order they were registered.
pub struct System {
    pub num_advice: nat,
    pub num_instance: nat,
    pub num_selectors: nat,
    pub num_tables: nat,
    pub equality: Set<Column>,
    pub gates: Seq<GateView>,
    pub lookups: Seq<LookupView>,
}

impl System {
/// The system with nothing in it.
    pub open spec fn empty() -> System {
        System {
            num_advice: 0,
            num_instance: 0,
            num_selectors: 0,
            num_tables: 0,
            equality: Set::empty(),
            gates: Seq::empty(),
            lookups: Seq::empty(),
        }
    }

    /// Every gate and every lookup is under a selector that the system has.
    pub open spec fn numbered(self) -> bool {
        &&& forall|g: int|
            0 <= g < self.gates.len() ==> (#[trigger] self.gates[g]).selector.index
                < self.num_selectors
        &&& forall|l: int|
            0 <= l < self.lookups.len() ==> (#[trigger] self.lookups[l]).selector.index
                < self.num_selectors
    }

/// The system with `column` among those that copy constraints may relate.
    pub open spec fn with_equality(self, column: Column) -> System {
        System { equality: self.equality.insert(column), ..self }
    }

/// The system with one more gate.
    pub open spec fn with_gate(self, gate: GateView) -> System {
        System { gates: self.gates.push(gate), ..self }
    }

/// The system with one more lookup.
    pub open spec fn with_lookup(self, lookup: LookupView) -> System {
        System { lookups: self.lookups.push(lookup), ..self }
    }
}

/// The builder that chips are configured in.
pub struct ConstraintSystem {
    num_advice: usize,
    num_instance: usize,
    num_selectors: usize,
    num_tables: usize,
    equality: Vec<Column>,
    gates: Vec<Gate>,
    lookups: Vec<Lookup>,
}

/// What was registered so far.
impl View for ConstraintSystem {
    type V = System;

    closed spec fn view(&self) -> System {
        System {
            num_advice: self.num_advice as nat,
            num_instance: self.num_instance as nat,
            num_selectors: self.num_selectors as nat,
            num_tables: self.num_tables as nat,
            equality: self.equality@.to_set(),
            gates: self.gates@.map_values(|g: Gate| g@),
            lookups: self.lookups@.map_values(|l: Lookup| l@),
        }
    }
}

impl ConstraintSystem {
/// A constraint system with nothing in it.
    pub fn new() -> (r: ConstraintSystem)
        ensures
            r@ == System::empty(),
    {
        let r = ConstraintSystem {
            num_advice: 0,
            num_instance: 0,
            num_selectors: 0,
            num_tables: 0,
            equality: Vec::new(),
            gates: Vec::new(),
            lookups: Vec::new(),
        };
        assert(r@.equality =~= Set::empty());
        assert(r@.gates =~= Seq::empty());
        assert(r@.lookups =~= Seq::empty());
        r
    }

    /// Adds a witness column.
    pub fn advice_column(&mut self) -> (r: AdviceColumn)
        requires
            old(self)@.num_advice < usize::MAX,
        ensures
            r.index == old(self)@.num_advice,
            final(self)@ == (System { num_advice: old(self)@.num_advice + 1, ..old(self)@ }),
    {
        let r = AdviceColumn { index: self.num_advice };
        self.num_advice = self.num_advice + 1;
        r
    }

    /// Adds a public-input column.
    pub fn instance_column(&mut self) -> (r: InstanceColumn)
        requires
            old(self)@.num_instance < usize::MAX,
        ensures
            r.index == old(self)@.num_instance,
            final(self)@ == (System { num_instance: old(self)@.num_instance + 1, ..old(self)@ }),
    {
        let r = InstanceColumn { index: self.num_instance };
        self.num_instance = self.num_instance + 1;
        r
    }

    /// Adds a selector.
    pub fn selector(&mut self) -> (r: Selector)
        requires
            old(self)@.num_selectors < usize::MAX,
        ensures
            r.index == old(self)@.num_selectors,
            final(self)@ == (System { num_selectors: old(self)@.num_selectors + 1, ..old(self)@ }),
    {
        let r = Selector { index: self.num_selectors };
        self.num_selectors = self.num_selectors + 1;
        r
    }

    /// Adds a table column.
    pub fn lookup_table_column(&mut self) -> (r: TableColumn)
        requires
            old(self)@.num_tables < usize::MAX,
        ensures
            r.index == old(self)@.num_tables,
            final(self)@ == (System { num_tables: old(self)@.num_tables + 1, ..old(self)@ }),
    {
        let r = TableColumn { index: self.num_tables };
        self.num_tables = self.num_tables + 1;
        r
    }

    /// Marks the column as one that copy constraints relate. A proof system
    /// that the description is entered into needs the mark; the debug
    /// evaluator checks every copy constraint, whatever its columns.
    pub fn enable_equality(&mut self, column: Column)
        ensures
            final(self)@ == old(self)@.with_equality(column),
    {
        self.equality.push(column);
        assert(self.equality@.to_set() =~= old(self).equality@.to_set().insert(column)) by {
            let before = old(self).equality@;
            let after = self.equality@;
            assert forall|c: Column| after.to_set().contains(c) implies before.to_set().insert(
                column,
            ).contains(c) by {
                let i = choose|i: int| 0 <= i < after.len() && after[i] == c;
                if i < before.len() {
                    assert(before[i] == c);
                }
            }
            assert forall|c: Column| before.to_set().insert(column).contains(c) implies after.to_set().contains(
                c,
            ) by {
                if c == column {
                    assert(after[before.len() as int] == c);
                } else {
                    let i = choose|i: int| 0 <= i < before.len() && before[i] == c;
                    assert(after[i] == c);
                }
            }
        }
    }

    /// Registers a gate: each polynomial must vanish wherever the selector is
    /// enabled.
    pub fn create_gate(&mut self, name: &'static str, selector: Selector, polys: Vec<Expression>)
        ensures
            final(self)@ == old(self)@.with_gate(
                GateView { name: name@, selector: selector, polys: polys@ },
            ),
    {
        self.gates.push(Gate { name, selector, polys });
        assert(self@.gates =~= old(self)@.gates.push(
            GateView { name: name@, selector: selector, polys: polys@ },
        ));
    }

    /// Registers a lookup: the value of each input must occur in the table
    /// wherever the selector is enabled.
    pub fn lookup(
        &mut self,
        name: &'static str,
        selector: Selector,
        inputs: Vec<Expression>,
        table: TableColumn,
    )
        ensures
            final(self)@ == old(self)@.with_lookup(
                LookupView { name: name@, selector: selector, inputs: inputs@, table: table },
            ),
    {
        self.lookups.push(Lookup { name, selector, inputs, table });
        assert(self@.lookups =~= old(self)@.lookups.push(
            LookupView { name: name@, selector: selector, inputs: inputs@, table: table },
        ));
    }

    /// Ends configuration: what was registered can no longer change.
    pub fn freeze(self) -> (r: Description)
        ensures
            r@ == self@,
    {
        Description { system: self }
    }
}

/// A finished constraint system, shared by every assignment pass.
pub struct Description {
    system: ConstraintSystem,
}

/// What was registered.
impl View for Description {
    type V = System;

    closed spec fn view(&self) -> System {
        self.system@
    }
}

impl Description {
/// The number of witness columns.
    pub fn num_advice(&self) -> (r: usize)
        ensures
            r == self@.num_advice,
    {
        self.system.num_advice
    }

/// The number of public-input columns.
    pub fn num_instance(&self) -> (r: usize)
        ensures
            r == self@.num_instance,
    {
        self.system.num_instance
    }

/// The number of selectors.
    pub fn num_selectors(&self) -> (r: usize)
        ensures
            r == self@.num_selectors,
    {
        self.system.num_selectors
    }

/// The number of table columns.
    pub fn num_tables(&self) -> (r: usize)
        ensures
            r == self@.num_tables,
    {
        self.system.num_tables
    }

    /// The columns that may take part in copy constraints, as registered.
    pub fn equality(&self) -> (r: &Vec<Column>)
        ensures
            r@.to_set() == self@.equality,
    {
        &self.system.equality
    }

/// The gates, in the order they were registered.
    pub fn gates(&self) -> (r: &Vec<Gate>)
        ensures
            r@.len() == self@.gates.len(),
            forall|i: int| 0 <= i < r@.len() ==> (#[trigger] r@[i])@ == self@.gates[i],
    {
        &self.system.gates
    }

/// The lookups, in the order they were registered.
    pub fn lookups(&self) -> (r: &Vec<Lookup>)
        ensures
            r@.len() == self@.lookups.len(),
            forall|i: int| 0 <= i < r@.len() ==> (#[trigger] r@[i])@ == self@.lookups[i],
    {
        &self.system.lookups
    }
}

} // verus!
