//! The lookup chip: a value beside its limbs, most significant first. A gate
//! makes the limbs add up to the value, each with the weight of its
//! position, and a lookup makes every limb a row of a table that holds the
//! numbers below two to the power of the limb width.

use crate::chips::utils::{check_limbs, lemma_reconstruction_bound, reconstruction, valid_limbs};
use crate::circuit::{
    cell_at, AdviceColumn, Cell, Column, ConstraintSystem, Expression, GateView, InstanceColumn,
    LookupView, Rotation, Selector, System, TableColumn,
};
use crate::dev::{
    constraint_holds, copy_holds, extends, gate_position, input_holds, lemma_extension,
    lookup_position, lookups_hold, satisfied, table_has,
};
use crate::field::{
    constant, fadd, fmul, lemma_add_negation, lemma_constant_value, lemma_residue, modulus, Felt,
};
use crate::layouter::{
    columns_fault, lemma_columns_fit, public_cell, values, AssignedCell, CellValue, Component,
    Error, ErrorKind, Layouter, Trace, MAX_ROWS,
};
use vstd::arithmetic::div_mod::{lemma_add_mod_noop, lemma_small_mod};
use vstd::arithmetic::power2::{
    lemma2_to64, lemma2_to64_rest, lemma_pow2_adds, lemma_pow2_strictly_increases, pow2,
};
use vstd::bits::{lemma_u64_pow2_no_overflow, lemma_u64_shl_is_mul};
use vstd::prelude::*;

verus! {

/// The widest limb that a table is built for, in bits. The table holds a
/// field element for every number below two to the power of the limb width
/// and is held in memory whole; this is the limit that the machine sets.
pub const MAX_TABLE_BITS: u32 = 16;

/// The columns, selectors and limb width of the lookup chip. Its gate is
/// under the simple selector, the lookup under the complex one. The limb
/// width is at most `MAX_TABLE_BITS`, the widest that a table is built for.
#[derive(Clone, Debug)]
pub struct OverflowCheckV2Config {
    pub limb_bits: u32,
    pub value: AdviceColumn,
    pub decomposed_values: Vec<AdviceColumn>,
    pub table: TableColumn,
    pub instance: InstanceColumn,
    pub simple_selector: Selector,
    pub complex_selector: Selector,
}

/// The numbers below two to the power `bits`, in order.
pub open spec fn range_table(bits: nat) -> Seq<int> {
    Seq::new(pow2(bits), |i: int| i)
}

/// The columns as columns that copy constraints may relate.
pub open spec fn advice_columns(columns: Seq<AdviceColumn>) -> Set<Column> {
    Set::new(
        |c: Column|
            exists|i: int| 0 <= i < columns.len() && c == Column::Advice(#[trigger] columns[i]),
    )
}

/// The values given, where all are given.
pub open spec fn known(given: Seq<Option<Felt>>) -> Seq<int> {
    Seq::new(given.len(), |i: int| given[i].unwrap()@)
}

/// The first of the first `n` values that is not given.
pub open spec fn missing_before(given: Seq<Option<Felt>>, n: nat) -> Option<int>
    decreases n,
{
    if n == 0 {
        None
    } else {
        match missing_before(given, (n - 1) as nat) {
            Some(i) => Some(i),
            None => if given[n - 1] is None {
                Some(n - 1)
            } else {
                None
            },
        }
    }
}

/// A value missing among the first `n` is the first missing of all.
pub proof fn lemma_missing_extends(given: Seq<Option<Felt>>, n: nat)
    requires
        n <= given.len(),
        missing_before(given, n) is Some,
    ensures
        missing_before(given, given.len()) == missing_before(given, n),
    decreases given.len() - n,
{
    if n < given.len() {
        lemma_missing_extends(given, n + 1);
    }
}

/// Where none is missing, every value is given.
pub proof fn lemma_none_missing(given: Seq<Option<Felt>>, n: nat)
    requires
        n <= given.len(),
        missing_before(given, n) is None,
    ensures
        forall|i: int| 0 <= i < n ==> (#[trigger] given[i]) is Some,
    decreases n,
{
    if n > 0 {
        lemma_none_missing(given, (n - 1) as nat);
    }
}

/// The register file with the first `n` limbs written into `row`.
pub open spec fn assign_limbs(
    t: Trace,
    columns: Seq<AdviceColumn>,
    row: int,
    digits: Seq<int>,
    n: nat,
) -> Trace
    decreases n,
{
    if n == 0 {
        t
    } else {
        assign_limbs(t, columns, row, digits, (n - 1) as nat).assign(
            columns[n - 1],
            row,
            digits[n - 1],
        )
    }
}

/// Writing limbs changes the cells of their columns in the row, and nothing
/// else.
pub proof fn lemma_assign_limbs(
    t: Trace,
    columns: Seq<AdviceColumn>,
    row: int,
    digits: Seq<int>,
    n: nat,
)
    requires
        n <= columns.len(),
        n <= digits.len(),
        forall|i: int, j: int| 0 <= i < j < columns.len() ==> columns[i] != columns[j],
    ensures
        assign_limbs(t, columns, row, digits, n) == (Trace {
            cells: assign_limbs(t, columns, row, digits, n).cells,
            ..t
        }),
        forall|c: int, r: int|
            r != row ==> #[trigger] cell_at(assign_limbs(t, columns, row, digits, n).cells, c, r)
                == cell_at(t.cells, c, r),
        forall|c: int|
            (forall|j: int| 0 <= j < n ==> (#[trigger] columns[j]).index != c) ==> cell_at(
                assign_limbs(t, columns, row, digits, n).cells,
                c,
                row,
            ) == cell_at(t.cells, c, row),
        forall|j: int|
            0 <= j < n ==> cell_at(
                assign_limbs(t, columns, row, digits, n).cells,
                (#[trigger] columns[j]).index as int,
                row,
            ) == Some(digits[j]),
    decreases n,
{
    if n > 0 {
        let m = (n - 1) as nat;
        lemma_assign_limbs(t, columns, row, digits, m);
        let before = assign_limbs(t, columns, row, digits, m);
        let after = assign_limbs(t, columns, row, digits, n);
        assert(after == before.assign(columns[n - 1], row, digits[n - 1]));
        assert forall|c: int, r: int| r != row implies #[trigger] cell_at(after.cells, c, r)
            == cell_at(t.cells, c, r) by {
            assert(cell_at(before.cells, c, r) == cell_at(t.cells, c, r));
        }
        assert forall|c: int|
            (forall|j: int| 0 <= j < n ==> (#[trigger] columns[j]).index != c) implies cell_at(
            after.cells,
            c,
            row,
        ) == cell_at(t.cells, c, row) by {
            assert(columns[n - 1].index != c);
            assert(forall|j: int| 0 <= j < m ==> (#[trigger] columns[j]).index != c);
            assert(cell_at(before.cells, c, row) == cell_at(t.cells, c, row));
        }
        assert forall|j: int| 0 <= j < n implies cell_at(
            after.cells,
            (#[trigger] columns[j]).index as int,
            row,
        ) == Some(digits[j]) by {
            if j < m {
                assert(columns[j] != columns[n - 1]);
                assert(cell_at(before.cells, columns[j].index as int, row) == Some(digits[j]));
            }
        }
    }
}

impl OverflowCheckV2Config {
    /// The limb width and the number of limb columns go together, and a
    /// table can be built for the width.
    pub open spec fn valid(self) -> bool {
        valid_limbs(self.limb_bits as nat, self.decomposed_values@.len()) && self.limb_bits
            <= MAX_TABLE_BITS
    }

    /// The value column and the limb columns, in that order.
    pub open spec fn columns(self) -> Seq<AdviceColumn> {
        seq![self.value] + self.decomposed_values@
    }

    /// The weight of limb `i`: two to the power of the bits below it.
    pub open spec fn weight(self, i: int) -> int {
        pow2((self.limb_bits * (self.decomposed_values@.len() - 1 - i)) as nat) as int
    }

    /// The last limb plus the first `n` limbs, each times its weight.
    pub open spec fn decomposed_sum(self, n: nat) -> Expression
        decreases n,
    {
        if n == 0 {
            Expression::query(self.decomposed_values@.last(), Rotation::Cur)
        } else {
            Expression::sum_of(
                self.decomposed_sum((n - 1) as nat),
                Expression::product_of(
                    Expression::query(self.decomposed_values@[n - 1], Rotation::Cur),
                    Expression::Constant(constant(self.weight(n - 1))),
                ),
            )
        }
    }

    /// The limbs with their weights, minus the value.
    pub open spec fn equality_poly(self) -> Expression {
        Expression::difference_of(
            self.decomposed_sum((self.decomposed_values@.len() - 1) as nat),
            Expression::query(self.value, Rotation::Cur),
        )
    }

    /// The chip's gate.
    pub open spec fn gate(self) -> GateView {
        GateView {
            name: "check decomposed values"@,
            selector: self.simple_selector,
            polys: seq![self.equality_poly()],
        }
    }

    /// The lookup of the chip: every limb, in the table.
    pub open spec fn range_lookup(self) -> LookupView {
        LookupView {
            name: "range check decomposed_values"@,
            selector: self.complex_selector,
            inputs: Seq::new(
                self.decomposed_values@.len(),
                |i: int| Expression::query(self.decomposed_values@[i], Rotation::Cur),
            ),
            table: self.table,
        }
    }

    /// The system after the chip was configured in it.
    pub open spec fn installed(self, s: System) -> System {
        System {
            equality: s.equality.insert(Column::Advice(self.value)).union(
                advice_columns(self.decomposed_values@),
            ).insert(Column::Instance(self.instance)),
            gates: s.gates.push(self.gate()),
            lookups: s.lookups.push(self.range_lookup()),
            ..s
        }
    }

    /// Why a row cannot be laid out, if it cannot: a column that is missing
    /// or given twice, a selector or the table column that is missing, a
    /// table column that holds something other than the numbers below two
    /// to the power of the limb width, a
    /// number of limbs other than the number of limb columns, a value or a
    /// limb that is not given, or no room for the row.
    pub open spec fn assign_fault(
        self,
        t: Trace,
        update_value: Option<Felt>,
        decomposed_values: Seq<Option<Felt>>,
    ) -> Option<Error> {
        let fault = |kind: ErrorKind, column: usize|
            Some(
                Error {
                    component: Component::LookupRange,
                    kind: kind,
                    column: column,
                    row: t.rows as usize,
                },
            );
        match columns_fault(t, Component::LookupRange, self.columns()) {
            Some(e) => Some(e),
            None => if self.simple_selector.index >= t.num_selectors {
                fault(ErrorKind::UnknownSelector, self.simple_selector.index)
            } else if self.complex_selector.index >= t.num_selectors {
                fault(ErrorKind::UnknownSelector, self.complex_selector.index)
            } else if self.table.index >= t.num_tables {
                fault(ErrorKind::UnknownTable, self.table.index)
            } else if t.tables.dom().contains(self.table.index as int)
                && t.tables[self.table.index as int] != range_table(self.limb_bits as nat) {
                fault(ErrorKind::TableAlreadyLoaded, self.table.index)
            } else if decomposed_values.len() != self.decomposed_values@.len() {
                fault(ErrorKind::InvalidParameters, 0)
            } else if update_value is None {
                fault(ErrorKind::NotAssigned, self.value.index)
            } else if missing_before(decomposed_values, decomposed_values.len()) is Some {
                fault(
                    ErrorKind::NotAssigned,
                    self.decomposed_values@[missing_before(
                        decomposed_values,
                        decomposed_values.len(),
                    ).unwrap()].index,
                )
            } else if t.rows + 1 > MAX_ROWS {
                fault(ErrorKind::OutOfRows, 0)
            } else {
                None
            },
        }
    }

    /// The register file with the table of the chip in it: loaded with the
    /// numbers below two to the power of the limb width, unless the table
    /// column already holds them.
    pub open spec fn with_table(self, t: Trace) -> Trace {
        if t.tables.dom().contains(self.table.index as int) {
            t
        } else {
            t.load(self.table, range_table(self.limb_bits as nat))
        }
    }

    /// The register file after a row for `value` and the limbs `digits`: the
    /// table is there, and one more row holds the value and the limbs, with
    /// both selectors enabled.
    pub open spec fn assigned(self, t: Trace, value: int, digits: Seq<int>) -> Trace {
        let start = t.rows as int;
        assign_limbs(
            self.with_table(t).blank_rows(1).enable(self.simple_selector, start).enable(
                self.complex_selector,
                start,
            ).assign(self.value, start, value),
            self.decomposed_values@,
            start,
            digits,
            digits.len(),
        )
    }
}

impl OverflowCheckV2Config {
    /// The lookup of the chip is lookup `l` of the system.
    pub open spec fn looked_up_in(self, s: System, l: int) -> bool {
        0 <= l < s.lookups.len() && s.lookups[l] == self.range_lookup()
    }
}

/// A row with a limb that is not below two to the power of the limb width
/// fails the lookup at that limb, and the register file is not satisfied,
/// if the lookup of the chip is in the system.
pub proof fn lemma_limb_out_of_range(
    config: OverflowCheckV2Config,
    s: System,
    t: Trace,
    update_value: Option<Felt>,
    decomposed_values: Seq<Option<Felt>>,
    l: int,
    i: int,
)
    requires
        t.wf(),
        config.looked_up_in(s, l),
        config.assign_fault(t, update_value, decomposed_values) is None,
        0 <= i < decomposed_values.len(),
        known(decomposed_values)[i] >= pow2(config.limb_bits as nat),
    ensures
        !input_holds(
            s,
            config.assigned(t, update_value.unwrap()@, known(decomposed_values)),
            l,
            t.rows as int,
            i,
        ),
        !satisfied(s, config.assigned(t, update_value.unwrap()@, known(decomposed_values))),
{
    let digits = known(decomposed_values);
    let start = t.rows as int;
    let base = config.with_table(t).blank_rows(1).enable(config.simple_selector, start).enable(
        config.complex_selector,
        start,
    ).assign(config.value, start, update_value.unwrap()@);
    let u = config.assigned(t, update_value.unwrap()@, digits);
    let columns = config.columns();
    lemma_columns_fit(t, Component::LookupRange, columns);
    assert forall|a: int, b: int|
        0 <= a < b < config.decomposed_values@.len() implies config.decomposed_values@[a]
        != config.decomposed_values@[b] by {
        assert(columns[a + 1] == config.decomposed_values@[a]);
        assert(columns[b + 1] == config.decomposed_values@[b]);
    }
    lemma_assign_limbs(base, config.decomposed_values@, start, digits, digits.len());
    assert(u.enabled == base.enabled);
    assert(u.selected(config.complex_selector, start));
    assert(cell_at(u.cells, config.decomposed_values@[i].index as int, start) == Some(digits[i]));
    assert(s.lookups[l].inputs[i] == Expression::query(
        config.decomposed_values@[i],
        Rotation::Cur,
    ));
    assert(s.lookups[l].inputs[i].eval(u.cells, start) == Some(digits[i]));
    assert(u.tables[config.table.index as int] == range_table(config.limb_bits as nat));
    assert(!table_has(u, config.table, digits[i]));
    assert(lookup_position(s, u, l, start, i));
    assert(!input_holds(s, u, l, start, i));
    assert(!lookups_hold(s, u));
}

/// The first `n` limbs, each times the weight of its position among all.
pub open spec fn positional(digits: Seq<int>, bits: nat, n: nat) -> int
    decreases n,
{
    if n == 0 {
        0
    } else {
        positional(digits, bits, (n - 1) as nat) + digits[n - 1] * pow2(
            (bits * (digits.len() - n)) as nat,
        )
    }
}

/// The first `n` limbs with their weights come to what those limbs stand
/// for by themselves, times the weight of the last of them.
pub proof fn lemma_positional(digits: Seq<int>, bits: nat, n: nat)
    requires
        n <= digits.len(),
    ensures
        positional(digits, bits, n) == reconstruction(digits.take(n as int), bits) * pow2(
            (bits * (digits.len() - n)) as nat,
        ),
    decreases n,
{
    if n == 0 {
        assert(reconstruction(digits.take(0), bits) * pow2((bits * (digits.len() - 0)) as nat) == 0)
            by (nonlinear_arith)
            requires
                reconstruction(digits.take(0), bits) == 0,
        ;
    } else {
        let m = (n - 1) as nat;
        lemma_positional(digits, bits, m);
        let front = reconstruction(digits.take(m as int), bits);
        let low: nat = (bits * (digits.len() - n)) as nat;
        let b = pow2(bits) as int;
        let w = pow2(low) as int;
        assert(bits * (digits.len() - n) >= 0 && bits * (digits.len() - m) == bits * (digits.len()
            - n) + bits) by (nonlinear_arith)
            requires
                n <= digits.len(),
                m == n - 1,
        ;
        lemma_pow2_adds(low, bits);
        assert(digits.take(n as int).drop_last() =~= digits.take(m as int));
        assert(digits.take(n as int).last() == digits[n - 1]);
        assert(reconstruction(digits.take(n as int), bits) == front * b + digits[n - 1]);
        assert((front * b + digits[n - 1]) * w == front * (w * b) + digits[n - 1] * w)
            by (nonlinear_arith);
    }
}

/// Two to the power 254 is below the field characteristic.
pub proof fn lemma_pow2_254()
    ensures
        pow2(254) < modulus(),
        forall|e: nat| e <= 254 ==> #[trigger] pow2(e) < modulus(),
{
    lemma2_to64();
    lemma_pow2_adds(64, 64);
    lemma_pow2_adds(128, 64);
    lemma_pow2_adds(192, 62);
    lemma2_to64_rest();
    assert(pow2(128) == 0x1_0000_0000_0000_0000_0000_0000_0000_0000);
    assert(pow2(192) == 0x1_0000_0000_0000_0000_0000_0000_0000_0000_0000_0000_0000_0000);
    assert(pow2(254) == 0x4000_0000_0000_0000_0000_0000_0000_0000_0000_0000_0000_0000_0000_0000_0000_0000);
    assert forall|e: nat| e <= 254 implies #[trigger] pow2(e) < modulus() by {
        if e < 254 {
            lemma_pow2_strictly_increases(e, 254);
        }
    }
}

impl OverflowCheckV2Config {
    /// The columns of the chip are among `num_advice` witness columns and
    /// are pairwise different, its selectors are among `num_selectors`, and
    /// its table column is among `num_tables`.
    pub open spec fn fits(self, num_advice: nat, num_selectors: nat, num_tables: nat) -> bool {
        &&& forall|i: int|
            0 <= i < self.columns().len() ==> (#[trigger] self.columns()[i]).index < num_advice
        &&& forall|i: int, j: int|
            0 <= i < j < self.columns().len() ==> self.columns()[i] != self.columns()[j]
        &&& self.simple_selector.index < num_selectors
        &&& self.complex_selector.index < num_selectors
        &&& self.table.index < num_tables
    }

    /// Every gate under either selector of the chip is the chip's, under
    /// the simple one, and every lookup under either is the chip's.
    pub open spec fn governs(self, s: System) -> bool {
        &&& forall|g: int|
            0 <= g < s.gates.len() && ((#[trigger] s.gates[g]).selector == self.simple_selector
                || s.gates[g].selector == self.complex_selector) ==> s.gates[g].selector
                == self.simple_selector && s.gates[g].polys == self.gate().polys
        &&& forall|l: int|
            0 <= l < s.lookups.len() && ((#[trigger] s.lookups[l]).selector
                == self.simple_selector || s.lookups[l].selector == self.complex_selector)
                ==> s.lookups[l].selector == self.complex_selector && s.lookups[l].inputs
                == self.range_lookup().inputs && s.lookups[l].table == self.table
    }
}

/// A chip configured under two selectors that differ and that nothing else
/// uses governs the rows where they are enabled, and its lookup is the last
/// of the system.
pub proof fn lemma_installed_governs(config: OverflowCheckV2Config, s: System)
    requires
        config.simple_selector != config.complex_selector,
        forall|g: int|
            0 <= g < s.gates.len() ==> (#[trigger] s.gates[g]).selector != config.simple_selector
                && s.gates[g].selector != config.complex_selector,
        forall|l: int|
            0 <= l < s.lookups.len() ==> (#[trigger] s.lookups[l]).selector
                != config.simple_selector && s.lookups[l].selector != config.complex_selector,
    ensures
        config.governs(config.installed(s)),
        config.looked_up_in(config.installed(s), s.lookups.len() as int),
{
    let u = config.installed(s);
    assert forall|g: int| 0 <= g < s.gates.len() implies #[trigger] u.gates[g] == s.gates[g] by {}
    assert forall|l: int| 0 <= l < s.lookups.len() implies #[trigger] u.lookups[l]
        == s.lookups[l] by {}
    assert(u.gates[s.gates.len() as int] == config.gate());
    assert(u.lookups[s.lookups.len() as int] == config.range_lookup());
}

/// With every limb in its cell, the limbs with their weights evaluate to
/// the last limb plus the first `n` with their weights, in the field.
pub proof fn lemma_decomposed_sum_eval(
    config: OverflowCheckV2Config,
    cells: Map<(int, int), int>,
    row: int,
    digits: Seq<int>,
    n: nat,
)
    requires
        config.valid(),
        digits.len() == config.decomposed_values@.len(),
        n < digits.len(),
        forall|j: int|
            0 <= j < digits.len() ==> cell_at(
                cells,
                (#[trigger] config.decomposed_values@[j]).index as int,
                row,
            ) == Some(digits[j]),
        forall|j: int| 0 <= j < digits.len() ==> 0 <= #[trigger] digits[j] < modulus(),
    ensures
        config.decomposed_sum(n).eval(cells, row) == Some(
            (digits.last() + positional(digits, config.limb_bits as nat, n)) % modulus(),
        ),
    decreases n,
{
    let last = config.decomposed_values@.len() - 1;
    if n == 0 {
        reveal_with_fuel(Expression::eval, 2);
        assert(config.decomposed_values@.last() == config.decomposed_values@[last]);
        lemma_small_mod(digits.last() as nat, modulus() as nat);
    } else {
        let m = (n - 1) as nat;
        lemma_decomposed_sum_eval(config, cells, row, digits, m);
        let low: nat = (config.limb_bits * (digits.len() - n)) as nat;
        assert(0 <= config.limb_bits * (digits.len() - n) <= config.limb_bits * digits.len())
            by (nonlinear_arith)
            requires
                0 < n <= digits.len(),
        ;
        assert(config.weight(n - 1) == pow2(low));
        lemma_pow2_254();
        let before = digits.last() + positional(digits, config.limb_bits as nat, m);
        let term = digits[n - 1] * pow2(low);
        lemma_weighted_term_eval(
            config.decomposed_sum(m),
            config.decomposed_values@[n - 1],
            pow2(low) as int,
            cells,
            row,
            before % modulus(),
            digits[n - 1],
        );
        lemma_sum_of_residue(before, term);
    }
}

/// A polynomial plus a cell times a weight evaluates to the sum, in the
/// field, of what the polynomial evaluates to and the product of what the
/// cell holds and the weight.
pub proof fn lemma_weighted_term_eval(
    sum: Expression,
    column: AdviceColumn,
    weight: int,
    cells: Map<(int, int), int>,
    row: int,
    before: int,
    digit: int,
)
    requires
        sum.eval(cells, row) == Some(before),
        cell_at(cells, column.index as int, row) == Some(digit),
        0 <= weight < modulus(),
    ensures
        Expression::sum_of(
            sum,
            Expression::product_of(
                Expression::query(column, Rotation::Cur),
                Expression::Constant(constant(weight)),
            ),
        ).eval(cells, row) == Some(fadd(before, fmul(digit, weight))),
{
    reveal_with_fuel(Expression::eval, 3);
    lemma_constant_value(weight);
}

/// Adding a product to a residue of a sum, in the field, gives the residue
/// of the whole sum.
pub proof fn lemma_sum_of_residue(before: int, term: int)
    ensures
        fadd(before % modulus(), term % modulus()) == (before + term) % modulus(),
{
    lemma_add_mod_noop(before, term, modulus());
}

/// A row leaves what the register file held as it was: the rows, the
/// public inputs, the copy constraints, and a table that was there.
pub proof fn lemma_assigned_extends(
    config: OverflowCheckV2Config,
    t: Trace,
    update_value: Option<Felt>,
    decomposed_values: Seq<Option<Felt>>,
)
    requires
        t.wf(),
        config.assign_fault(t, update_value, decomposed_values) is None,
    ensures
        extends(t, config.assigned(t, update_value.unwrap()@, known(decomposed_values))),
        config.assigned(t, update_value.unwrap()@, known(decomposed_values)).copies == t.copies,
        config.assigned(t, update_value.unwrap()@, known(decomposed_values)).rows == t.rows + 1,
{
    let digits = known(decomposed_values);
    let start = t.rows as int;
    let base = config.with_table(t).blank_rows(1).enable(config.simple_selector, start).enable(
        config.complex_selector,
        start,
    ).assign(config.value, start, update_value.unwrap()@);
    let u = config.assigned(t, update_value.unwrap()@, digits);
    let columns = config.columns();
    let limbs = config.decomposed_values@;
    lemma_columns_fit(t, Component::LookupRange, columns);
    assert forall|a: int, b: int| 0 <= a < b < limbs.len() implies limbs[a] != limbs[b] by {
        assert(columns[a + 1] == limbs[a]);
        assert(columns[b + 1] == limbs[b]);
    }
    lemma_assign_limbs(base, limbs, start, digits, limbs.len());
    assert forall|column: int, row: int| row < t.rows implies #[trigger] cell_at(
        u.cells,
        column,
        row,
    ) == cell_at(t.cells, column, row) by {
        assert(cell_at(u.cells, column, row) == cell_at(base.cells, column, row));
    }
}

/// A row whose limbs are all below two to the power of the limb width and
/// stand for the value keeps a satisfied register file satisfied, if the
/// chip governs its selectors.
pub proof fn lemma_assigned_satisfied(
    config: OverflowCheckV2Config,
    s: System,
    t: Trace,
    update_value: Option<Felt>,
    decomposed_values: Seq<Option<Felt>>,
)
    requires
        t.wf(),
        satisfied(s, t),
        config.valid(),
        config.governs(s),
        config.assign_fault(t, update_value, decomposed_values) is None,
        forall|i: int|
            0 <= i < decomposed_values.len() ==> #[trigger] known(decomposed_values)[i] < pow2(
                config.limb_bits as nat,
            ),
        update_value.unwrap()@ == reconstruction(known(decomposed_values), config.limb_bits as nat),
    ensures
        config.assigned(t, update_value.unwrap()@, known(decomposed_values)).wf(),
        satisfied(s, config.assigned(t, update_value.unwrap()@, known(decomposed_values))),
{
    let digits = known(decomposed_values);
    let bits = config.limb_bits as nat;
    let value = update_value.unwrap()@;
    let start = t.rows as int;
    let base = config.with_table(t).blank_rows(1).enable(config.simple_selector, start).enable(
        config.complex_selector,
        start,
    ).assign(config.value, start, value);
    let u = config.assigned(t, value, digits);
    let columns = config.columns();
    let limbs = config.decomposed_values@;
    let count = limbs.len();
    lemma_columns_fit(t, Component::LookupRange, columns);
    assert forall|a: int, b: int| 0 <= a < b < count implies limbs[a] != limbs[b] by {
        assert(columns[a + 1] == limbs[a]);
        assert(columns[b + 1] == limbs[b]);
    }
    assert forall|a: int| 0 <= a < count implies (#[trigger] limbs[a]) != config.value
        && limbs[a].index < t.num_advice by {
        assert(columns[a + 1] == limbs[a]);
        assert(columns[0] == config.value);
    }
    assert(columns[0].index < t.num_advice);
    lemma_missing_none(decomposed_values);
    assert forall|j: int| 0 <= j < count implies 0 <= #[trigger] digits[j] < modulus() by {
        lemma_residue(decomposed_values[j].unwrap());
    }
    lemma_residue(update_value.unwrap());
    lemma_assign_limbs(base, limbs, start, digits, count);
    assert(u.wf()) by {
        assert forall|k: (int, int)| #[trigger] u.cells.dom().contains(k) implies 0 <= k.0
            < u.num_advice && 0 <= k.1 < u.rows && 0 <= u.cells[k] < modulus() by {
            if k.1 != start {
                assert(cell_at(u.cells, k.0, k.1) == cell_at(t.cells, k.0, k.1));
            } else if exists|j: int| 0 <= j < count && (#[trigger] limbs[j]).index == k.0 {
                let j = choose|j: int| 0 <= j < count && (#[trigger] limbs[j]).index == k.0;
                assert(cell_at(u.cells, limbs[j].index as int, start) == Some(digits[j]));
            } else {
                assert(cell_at(u.cells, k.0, start) == cell_at(base.cells, k.0, start));
            }
        }
    }
    assert(extends(t, u)) by {
        assert forall|column: int, row: int| row < t.rows implies #[trigger] cell_at(
            u.cells,
            column,
            row,
        ) == cell_at(t.cells, column, row) by {
            assert(cell_at(u.cells, column, row) == cell_at(base.cells, column, row));
        }
    }
    lemma_extension(s, t, u);
    // the equality
    lemma_decomposed_sum_eval(config, u.cells, start, digits, (count - 1) as nat);
    lemma_positional(digits, bits, (count - 1) as nat);
    lemma_reconstruction_bound(digits, bits);
    lemma_pow2_254();
    lemma2_to64();
    let front = reconstruction(digits.take(count - 1), bits);
    assert(bits * (count - (count - 1)) == bits) by (nonlinear_arith);
    assert(digits.take(count - 1) =~= digits.drop_last());
    assert(reconstruction(digits, bits) == front * pow2(bits) + digits.last());
    assert(digits.last() + positional(digits, bits, (count - 1) as nat) == value);
    assert(cell_at(u.cells, config.value.index as int, start) == Some(value)) by {
        assert(cell_at(u.cells, config.value.index as int, start) == cell_at(
            base.cells,
            config.value.index as int,
            start,
        ));
    }
    assert(config.equality_poly().eval(u.cells, start) == Some(0int)) by {
        reveal_with_fuel(Expression::eval, 3);
        lemma_small_mod(value as nat, modulus() as nat);
        lemma_add_negation(value, value);
    }
    assert forall|g: int, row: int, k: int| gate_position(s, u, g, row, k) implies
        #[trigger] constraint_holds(s, u, g, row, k) by {
        if row < t.rows {
            assert(gate_position(s, t, g, row, k));
        } else if u.selected(s.gates[g].selector, row) {
            assert(s.gates[g].selector == config.simple_selector || s.gates[g].selector
                == config.complex_selector);
            assert(s.gates[g].polys == config.gate().polys);
        }
    }
    assert forall|l: int, row: int, k: int| lookup_position(s, u, l, row, k) implies
        #[trigger] input_holds(s, u, l, row, k) by {
        if row < t.rows {
            assert(lookup_position(s, t, l, row, k));
        } else if u.selected(s.lookups[l].selector, row) {
            assert(s.lookups[l].selector == config.simple_selector || s.lookups[l].selector
                == config.complex_selector);
            assert(s.lookups[l].inputs[k] == Expression::query(limbs[k], Rotation::Cur));
            assert(cell_at(u.cells, limbs[k].index as int, start) == Some(digits[k]));
            assert(s.lookups[l].inputs[k].eval(u.cells, start) == Some(digits[k]));
            assert(u.tables[config.table.index as int] == range_table(bits));
            assert(range_table(bits)[digits[k]] == digits[k]);
        }
    }
    assert forall|i: int| 0 <= i < u.copies.len() implies #[trigger] copy_holds(u, i) by {}
}

/// Where no value is missing, every value is given.
pub proof fn lemma_missing_none(given: Seq<Option<Felt>>)
    requires
        missing_before(given, given.len()) is None,
    ensures
        forall|i: int| 0 <= i < given.len() ==> (#[trigger] given[i]) is Some,
{
    lemma_none_missing(given, given.len());
}

/// After a row, the table column holds the numbers below two to the power
/// of the limb width, and nothing else.
pub proof fn lemma_assigned_table(
    config: OverflowCheckV2Config,
    t: Trace,
    update_value: Option<Felt>,
    decomposed_values: Seq<Option<Felt>>,
)
    requires
        config.assign_fault(t, update_value, decomposed_values) is None,
    ensures
        config.assigned(t, update_value.unwrap()@, known(decomposed_values)).tables.dom().contains(
            config.table.index as int,
        ),
        config.assigned(
            t,
            update_value.unwrap()@,
            known(decomposed_values),
        ).tables[config.table.index as int] == range_table(config.limb_bits as nat),
{
    let digits = known(decomposed_values);
    let start = t.rows as int;
    let base = config.with_table(t).blank_rows(1).enable(config.simple_selector, start).enable(
        config.complex_selector,
        start,
    ).assign(config.value, start, update_value.unwrap()@);
    let columns = config.columns();
    let limbs = config.decomposed_values@;
    lemma_columns_fit(t, Component::LookupRange, columns);
    assert forall|a: int, b: int| 0 <= a < b < limbs.len() implies limbs[a] != limbs[b] by {
        assert(columns[a + 1] == limbs[a]);
        assert(columns[b + 1] == limbs[b]);
    }
    lemma_assign_limbs(base, limbs, start, digits, limbs.len());
}

/// Whether the table column holds the numbers below two to the power
/// `bits`, in order, and nothing else.
fn holds_range(layouter: &Layouter, table: TableColumn, bits: u32) -> (r: bool)
    requires
        bits <= MAX_TABLE_BITS,
    ensures
        r == (layouter@.tables.dom().contains(table.index as int)
            && layouter@.tables[table.index as int] == range_table(bits as nat)),
{
    proof {
        lemma2_to64();
        lemma_u64_pow2_no_overflow(bits as nat);
        lemma_u64_shl_is_mul(1, bits as u64);
        if bits < 16 {
            lemma_pow2_strictly_increases(bits as nat, 16);
        }
    }
    let size: u64 = 1u64 << bits;
    match layouter.table(table) {
        None => false,
        Some(content) => {
            if content.len() != size as usize {
                assert(values(content@).len() != range_table(bits as nat).len());
                return false;
            }
            let mut i: usize = 0;
            while i < content.len()
                invariant
                    i <= content@.len(),
                    content@.len() == size,
                    size == pow2(bits as nat),
                    size <= 0x1_0000,
                    layouter@.tables.dom().contains(table.index as int),
                    layouter@.tables[table.index as int] == values(content@),
                    forall|j: int| 0 <= j < i ==> values(content@)[j] == j,
                decreases content@.len() - i,
            {
                let same = match content[i].to_u64() {
                    Some(v) => v == i as u64,
                    None => false,
                };
                if !same {
                    assert(values(content@)[i as int] != range_table(bits as nat)[i as int]);
                    return false;
                }
                i = i + 1;
            }
            assert(values(content@) =~= range_table(bits as nat));
            true
        },
    }
}

/// The lookup chip.
#[derive(Debug)]
pub struct OverflowChipV2 {
    config: OverflowCheckV2Config,
}

/// The numbers below two to the power `bits`, in order.
fn build_table(bits: u32) -> (r: Vec<Felt>)
    requires
        bits <= MAX_TABLE_BITS,
    ensures
        values(r@) == range_table(bits as nat),
{
    proof {
        lemma2_to64();
        lemma_u64_pow2_no_overflow(bits as nat);
        lemma_u64_shl_is_mul(1, bits as u64);
        if bits < 16 {
            lemma_pow2_strictly_increases(bits as nat, 16);
        }
    }
    let size: u64 = 1u64 << bits;
    let mut table: Vec<Felt> = Vec::new();
    let mut i: u64 = 0;
    while i < size
        invariant
            i <= size,
            size == pow2(bits as nat),
            size <= 0x1_0000,
            table@.len() == i,
            forall|j: int| 0 <= j < i ==> (#[trigger] table@[j])@ == j,
        decreases size - i,
    {
        table.push(Felt::from_u64(i));
        i = i + 1;
    }
    assert(values(table@) =~= range_table(bits as nat));
    table
}

/// The values given, if all are given; else the index of the first that is
/// not.
fn gather_digits(given: &Vec<Option<Felt>>) -> (r: Result<Vec<Felt>, usize>)
    ensures
        match r {
            Ok(digits) => missing_before(given@, given@.len()) is None && values(digits@) == known(
                given@,
            ),
            Err(i) => missing_before(given@, given@.len()) == Some(i as int) && i < given@.len(),
        },
{
    let mut digits: Vec<Felt> = Vec::new();
    let mut j: usize = 0;
    while j < given.len()
        invariant
            j <= given@.len(),
            missing_before(given@, j as nat) is None,
            digits@.len() == j,
            forall|k: int| 0 <= k < j ==> given@[k] == Some(#[trigger] digits@[k]),
        decreases given@.len() - j,
    {
        match given[j] {
            Some(d) => {
                digits.push(d);
            },
            None => {
                proof {
                    lemma_missing_extends(given@, (j + 1) as nat);
                }
                return Err(j);
            },
        }
        j = j + 1;
    }
    assert(values(digits@) =~= known(given@));
    Ok(digits)
}

/// Writes the limbs into the row, each into its column.
fn place_limbs(
    layouter: &mut Layouter,
    columns: &Vec<AdviceColumn>,
    row: usize,
    digits: &Vec<Felt>,
) -> (r: Vec<AssignedCell>)
    requires
        old(layouter).wf(),
        columns@.len() == digits@.len(),
        row < old(layouter)@.rows,
        forall|a: int, b: int| 0 <= a < b < columns@.len() ==> columns@[a] != columns@[b],
        forall|a: int|
            0 <= a < columns@.len() ==> (#[trigger] columns@[a]).index < old(layouter)@.num_advice
                && cell_at(old(layouter)@.cells, columns@[a].index as int, row as int) is None,
    ensures
        final(layouter).wf(),
        final(layouter)@ == assign_limbs(
            old(layouter)@,
            columns@,
            row as int,
            values(digits@),
            digits@.len(),
        ),
        r@.len() == digits@.len(),
        forall|k: int|
            0 <= k < r@.len() ==> (#[trigger] r@[k])@ == CellValue::at(
                columns@[k],
                row as int,
                values(digits@)[k],
            ),
{
    let ghost base = layouter@;
    let count = columns.len();
    let mut cells: Vec<AssignedCell> = Vec::new();
    let mut n: usize = 0;
    while n < count
        invariant
            n <= count,
            count == columns@.len(),
            count == digits@.len(),
            layouter.wf(),
            row < base.rows,
            forall|a: int, b: int| 0 <= a < b < columns@.len() ==> columns@[a] != columns@[b],
            forall|a: int|
                0 <= a < columns@.len() ==> (#[trigger] columns@[a]).index < base.num_advice
                    && cell_at(base.cells, columns@[a].index as int, row as int) is None,
            layouter@ == assign_limbs(base, columns@, row as int, values(digits@), n as nat),
            cells@.len() == n,
            forall|k: int|
                0 <= k < n ==> (#[trigger] cells@[k])@ == CellValue::at(
                    columns@[k],
                    row as int,
                    values(digits@)[k],
                ),
        decreases count - n,
    {
        proof {
            lemma_assign_limbs(base, columns@, row as int, values(digits@), n as nat);
            assert forall|k: int| 0 <= k < n implies (#[trigger] columns@[k]).index
                != columns@[n as int].index by {
                assert(columns@[k] != columns@[n as int]);
            }
            assert(cell_at(layouter@.cells, columns@[n as int].index as int, row as int)
                == cell_at(base.cells, columns@[n as int].index as int, row as int));
        }
        match layouter.assign_advice(columns[n], row, digits[n]) {
            Ok(cell) => {
                cells.push(cell);
            },
            Err(_) => {
                assert(false);
            },
        }
        n = n + 1;
    }
    cells
}

impl OverflowCheckV2Config {
    /// A copy of the configuration.
    pub fn duplicate(&self) -> (r: OverflowCheckV2Config)
        ensures
            r.limb_bits == self.limb_bits,
            r.value == self.value,
            r.decomposed_values@ == self.decomposed_values@,
            r.table == self.table,
            r.instance == self.instance,
            r.simple_selector == self.simple_selector,
            r.complex_selector == self.complex_selector,
    {
        let mut columns: Vec<AdviceColumn> = Vec::new();
        let mut i: usize = 0;
        while i < self.decomposed_values.len()
            invariant
                i <= self.decomposed_values@.len(),
                columns@ == self.decomposed_values@.take(i as int),
            decreases self.decomposed_values@.len() - i,
        {
            columns.push(self.decomposed_values[i]);
            assert(columns@ =~= self.decomposed_values@.take(i + 1));
            i = i + 1;
        }
        assert(self.decomposed_values@.take(i as int) =~= self.decomposed_values@);
        OverflowCheckV2Config {
            limb_bits: self.limb_bits,
            value: self.value,
            decomposed_values: columns,
            table: self.table,
            instance: self.instance,
            simple_selector: self.simple_selector,
            complex_selector: self.complex_selector,
        }
    }
}

impl Clone for OverflowChipV2 {
    /// A chip for a copy of the configuration.
    fn clone(&self) -> (r: OverflowChipV2)
        ensures
            r.config().limb_bits == self.config().limb_bits,
            r.config().decomposed_values@ == self.config().decomposed_values@,
    {
        proof {
            use_type_invariant(self);
        }
        OverflowChipV2 { config: self.config.duplicate() }
    }
}

impl OverflowChipV2 {
    /// The configuration was checked when the chip was constructed.
    #[verifier::type_invariant]
    spec fn checked(self) -> bool {
        self.config.valid()
    }

    /// What the chip was constructed with.
    pub closed spec fn config(&self) -> OverflowCheckV2Config {
        self.config
    }

    /// The chip for a configuration. Fails if the limb width and the number
    /// of limb columns do not go together, or the width is above
    /// `MAX_TABLE_BITS`.
    pub fn construct(config: OverflowCheckV2Config) -> (r: Result<OverflowChipV2, Error>)
        ensures
            r is Ok <==> config.valid(),
            r matches Ok(chip) ==> chip.config() == config,
            r matches Err(e) ==> e == (Error {
                component: Component::LookupRange,
                kind: ErrorKind::InvalidParameters,
                column: 0,
                row: 0,
            }),
    {
        if check_limbs(config.limb_bits, config.decomposed_values.len()) && config.limb_bits
            <= MAX_TABLE_BITS {
            Ok(OverflowChipV2 { config })
        } else {
            Err(
                Error {
                    component: Component::LookupRange,
                    kind: ErrorKind::InvalidParameters,
                    column: 0,
                    row: 0,
                },
            )
        }
    }

    /// Lets the value column, the limb columns and the public column take
    /// part in copy constraints, and registers its gate under the simple
    /// selector and the lookup under the complex one. Fails, changing
    /// nothing, if the limb width and the number of limb columns do not go
    /// together or the width is above `MAX_TABLE_BITS`.
    #[verifier::loop_isolation(false)]
    pub fn configure(
        meta: &mut ConstraintSystem,
        limb_bits: u32,
        value: AdviceColumn,
        decomposed_values: Vec<AdviceColumn>,
        instance: InstanceColumn,
        table: TableColumn,
        simple_selector: Selector,
        complex_selector: Selector,
    ) -> (r: Result<OverflowCheckV2Config, Error>)
        ensures
            r is Ok <==> valid_limbs(limb_bits as nat, decomposed_values@.len()) && limb_bits
                <= MAX_TABLE_BITS,
            r matches Ok(config) ==> config.limb_bits == limb_bits && config.value == value
                && config.decomposed_values@ == decomposed_values@ && config.instance == instance
                && config.table == table && config.simple_selector == simple_selector
                && config.complex_selector == complex_selector && final(meta)@ == config.installed(
                old(meta)@,
            ),
            r matches Err(e) ==> *final(meta) == *old(meta) && e == (Error {
                component: Component::LookupRange,
                kind: ErrorKind::InvalidParameters,
                column: 0,
                row: 0,
            }),
    {
        let count = decomposed_values.len();
        if !(check_limbs(limb_bits, count) && limb_bits <= MAX_TABLE_BITS) {
            return Err(
                Error {
                    component: Component::LookupRange,
                    kind: ErrorKind::InvalidParameters,
                    column: 0,
                    row: 0,
                },
            );
        }
        let config = OverflowCheckV2Config {
            limb_bits,
            value,
            decomposed_values,
            table,
            instance,
            simple_selector,
            complex_selector,
        };
        let ghost columns = config.decomposed_values@;
        let ghost s = meta@;
        meta.enable_equality(Column::Advice(value));
        let ghost base = meta@.equality;
        assert(meta@ == (System { equality: base.union(advice_columns(columns.take(0))), ..s }))
            by {
            assert(base.union(advice_columns(columns.take(0))) =~= base);
        }
        let mut i: usize = 0;
        while i < count
            invariant
                i <= count,
                count == columns.len(),
                columns == config.decomposed_values@,
                meta@ == (System {
                    equality: base.union(advice_columns(columns.take(i as int))),
                    ..s
                }),
            decreases count - i,
        {
            meta.enable_equality(Column::Advice(config.decomposed_values[i]));
            proof {
                let before = base.union(advice_columns(columns.take(i as int)));
                let after = base.union(advice_columns(columns.take(i + 1)));
                assert forall|c: Column| before.insert(Column::Advice(columns[i as int])).contains(
                    c,
                ) implies after.contains(c) by {
                    if c == Column::Advice(columns[i as int]) {
                        assert(columns.take(i + 1)[i as int] == columns[i as int]);
                    } else if !base.contains(c) {
                        let j = choose|j: int|
                            0 <= j < columns.take(i as int).len() && c == Column::Advice(
                                #[trigger] columns.take(i as int)[j],
                            );
                        assert(columns.take(i + 1)[j] == columns.take(i as int)[j]);
                    }
                }
                assert forall|c: Column| after.contains(c) implies before.insert(
                    Column::Advice(columns[i as int]),
                ).contains(c) by {
                    if !base.contains(c) {
                        let j = choose|j: int|
                            0 <= j < columns.take(i + 1).len() && c == Column::Advice(
                                #[trigger] columns.take(i + 1)[j],
                            );
                        if j < i {
                            assert(columns.take(i as int)[j] == columns.take(i + 1)[j]);
                        }
                    }
                }
                assert(before.insert(Column::Advice(columns[i as int])) =~= after);
            }
            i = i + 1;
        }
        assert(columns.take(count as int) =~= columns);
        meta.enable_equality(Column::Instance(instance));

        let mut sum = Expression::advice(config.decomposed_values[count - 1], Rotation::Cur);
        let mut n: usize = 0;
        while n < count - 1
            invariant
                n <= count - 1,
                count == columns.len(),
                columns == config.decomposed_values@,
                config.limb_bits == limb_bits,
                valid_limbs(limb_bits as nat, count as nat),
                sum == config.decomposed_sum(n as nat),
            decreases count - 1 - n,
        {
            assert(0 <= limb_bits * (count - 1 - n) <= 254) by (nonlinear_arith)
                requires
                    0 <= n < count,
                    limb_bits >= 0,
                    (limb_bits as nat) * (count as nat) <= 254,
            ;
            assert(count <= 254) by (nonlinear_arith)
                requires
                    limb_bits >= 1,
                    (limb_bits as nat) * (count as nat) <= 254,
            ;
            let exponent: u32 = limb_bits * ((count - 1 - n) as u32);
            sum = sum.plus(
                Expression::advice(config.decomposed_values[n], Rotation::Cur).times(
                    Expression::constant(Felt::power_of_two(exponent)),
                ),
            );
            n = n + 1;
        }
        let mut polys: Vec<Expression> = Vec::new();
        polys.push(sum.minus(Expression::advice(value, Rotation::Cur)));
        assert(polys@ =~= config.gate().polys);
        meta.create_gate("check decomposed values", simple_selector, polys);

        let mut inputs: Vec<Expression> = Vec::new();
        let mut k: usize = 0;
        while k < count
            invariant
                k <= count,
                count == columns.len(),
                columns == config.decomposed_values@,
                inputs@.len() == k,
                forall|j: int|
                    0 <= j < k ==> #[trigger] inputs@[j] == Expression::query(
                        columns[j],
                        Rotation::Cur,
                    ),
            decreases count - k,
        {
            inputs.push(Expression::advice(config.decomposed_values[k], Rotation::Cur));
            k = k + 1;
        }
        assert(inputs@ =~= config.range_lookup().inputs);
        meta.lookup("range check decomposed_values", complex_selector, inputs, table);
        Ok(config)
    }

    /// Lays out one row: the value, and its limbs beside it, with its gate
    /// and the lookup enabled; the table is loaded first if it is not there,
    /// so that afterwards the table column holds exactly the numbers below
    /// two to the power of the limb width.
    /// Returns the cell of the value and the cells of the limbs. Fails,
    /// changing nothing, as `assign_fault` says.
    pub fn assign(
        &self,
        layouter: &mut Layouter,
        update_value: Option<Felt>,
        decomposed_values: Vec<Option<Felt>>,
    ) -> (r: Result<(AssignedCell, Vec<AssignedCell>), Error>)
        requires
            old(layouter).wf(),
        ensures
            final(layouter).wf(),
            match r {
                Ok((value, limbs)) => {
                    let t = old(layouter)@;
                    let digits = known(decomposed_values@);
                    &&& self.config().assign_fault(t, update_value, decomposed_values@) is None
                    &&& final(layouter)@.tables.dom().contains(self.config().table.index as int)
                    &&& final(layouter)@.tables[self.config().table.index as int] == range_table(
                        self.config().limb_bits as nat,
                    )
                    &&& final(layouter)@ == self.config().assigned(
                        t,
                        update_value.unwrap()@,
                        digits,
                    )
                    &&& value@ == CellValue::at(
                        self.config().value,
                        t.rows as int,
                        update_value.unwrap()@,
                    )
                    &&& limbs@.len() == digits.len()
                    &&& forall|i: int|
                        0 <= i < limbs@.len() ==> (#[trigger] limbs@[i])@ == CellValue::at(
                            self.config().decomposed_values@[i],
                            t.rows as int,
                            digits[i],
                        )
                },
                Err(e) => self.config().assign_fault(
                    old(layouter)@,
                    update_value,
                    decomposed_values@,
                ) == Some(e) && *final(layouter) == *old(layouter),
            },
    {
        let config = &self.config;
        let count = config.decomposed_values.len();
        let ghost t = layouter@;
        proof {
            use_type_invariant(self);
            layouter.lemma_view_wf();
        }
        let columns = self.columns();
        if let Some(e) = layouter.check_columns(Component::LookupRange, &columns) {
            return Err(e);
        }
        let rows = layouter.rows();
        if config.simple_selector.index >= layouter.num_selectors() {
            return Err(
                Error {
                    component: Component::LookupRange,
                    kind: ErrorKind::UnknownSelector,
                    column: config.simple_selector.index,
                    row: rows,
                },
            );
        }
        if config.complex_selector.index >= layouter.num_selectors() {
            return Err(
                Error {
                    component: Component::LookupRange,
                    kind: ErrorKind::UnknownSelector,
                    column: config.complex_selector.index,
                    row: rows,
                },
            );
        }
        if config.table.index >= layouter.num_tables() {
            return Err(
                Error {
                    component: Component::LookupRange,
                    kind: ErrorKind::UnknownTable,
                    column: config.table.index,
                    row: rows,
                },
            );
        }
        if layouter.table_loaded(config.table) && !holds_range(
            layouter,
            config.table,
            config.limb_bits,
        ) {
            return Err(
                Error {
                    component: Component::LookupRange,
                    kind: ErrorKind::TableAlreadyLoaded,
                    column: config.table.index,
                    row: rows,
                },
            );
        }
        if decomposed_values.len() != count {
            return Err(
                Error {
                    component: Component::LookupRange,
                    kind: ErrorKind::InvalidParameters,
                    column: 0,
                    row: rows,
                },
            );
        }
        let value = match update_value {
            Some(v) => v,
            None => {
                return Err(
                    Error {
                        component: Component::LookupRange,
                        kind: ErrorKind::NotAssigned,
                        column: config.value.index,
                        row: rows,
                    },
                );
            },
        };
        let digits = match gather_digits(&decomposed_values) {
            Ok(digits) => digits,
            Err(i) => {
                return Err(
                    Error {
                        component: Component::LookupRange,
                        kind: ErrorKind::NotAssigned,
                        column: config.decomposed_values[i].index,
                        row: rows,
                    },
                );
            },
        };
        if rows >= MAX_ROWS {
            return Err(
                Error {
                    component: Component::LookupRange,
                    kind: ErrorKind::OutOfRows,
                    column: 0,
                    row: rows,
                },
            );
        }
        proof {
            lemma_columns_fit(t, Component::LookupRange, columns@);
            assert forall|a: int, b: int|
                0 <= a < b < count implies config.decomposed_values@[a]
                != config.decomposed_values@[b] by {
                assert(columns@[a + 1] == config.decomposed_values@[a]);
                assert(columns@[b + 1] == config.decomposed_values@[b]);
            }
            assert forall|a: int| 0 <= a < count implies (#[trigger] config.decomposed_values@[a])
                != config.value && config.decomposed_values@[a].index < t.num_advice by {
                assert(columns@[a + 1] == config.decomposed_values@[a]);
                assert(columns@[0] == config.value);
            }
            assert(columns@[0].index < t.num_advice);
        }
        if !layouter.table_loaded(config.table) {
            let table = build_table(config.limb_bits);
            match layouter.load_table(config.table, table) {
                Ok(()) => {},
                Err(e) => {
                    return Err(e);
                },
            }
        }
        let start = match layouter.begin_region(1) {
            Ok(start) => start,
            Err(e) => {
                return Err(e);
            },
        };
        match layouter.enable_selector(config.simple_selector, start) {
            Ok(()) => {},
            Err(e) => {
                return Err(e);
            },
        }
        match layouter.enable_selector(config.complex_selector, start) {
            Ok(()) => {},
            Err(e) => {
                return Err(e);
            },
        }
        let value_cell = match layouter.assign_advice(config.value, start, value) {
            Ok(cell) => cell,
            Err(e) => {
                return Err(e);
            },
        };
        proof {
            let base = layouter@;
            assert forall|a: int| 0 <= a < count implies cell_at(
                base.cells,
                (#[trigger] config.decomposed_values@[a]).index as int,
                start as int,
            ) is None by {
                assert(config.decomposed_values@[a] != config.value);
            }
        }
        assert(digits@.len() == count) by {
            assert(values(digits@).len() == known(decomposed_values@).len());
        }
        let cells = place_limbs(layouter, &config.decomposed_values, start, &digits);
        proof {
            lemma_assigned_table(self.config, t, update_value, decomposed_values@);
        }
        Ok((value_cell, cells))
    }

    /// The value column and the limb columns, in that order.
    fn columns(&self) -> (r: Vec<AdviceColumn>)
        ensures
            r@ == self.config().columns(),
    {
        let config = &self.config;
        let count = config.decomposed_values.len();
        let mut columns: Vec<AdviceColumn> = Vec::new();
        columns.push(config.value);
        let mut i: usize = 0;
        while i < count
            invariant
                i <= count,
                count == config.decomposed_values@.len(),
                columns@ == seq![config.value] + config.decomposed_values@.take(i as int),
            decreases count - i,
        {
            columns.push(config.decomposed_values[i]);
            assert(columns@ =~= seq![config.value] + config.decomposed_values@.take(i + 1));
            i = i + 1;
        }
        assert(config.decomposed_values@.take(count as int) =~= config.decomposed_values@);
        columns
    }

    /// Ties a cell to the public input at `row`. Fails, changing nothing, if
    /// there is no public input at that row.
    pub fn expose_public(&self, layouter: &mut Layouter, cell: &AssignedCell, row: usize) -> (r:
        Result<(), Error>)
        requires
            old(layouter).wf(),
        ensures
            final(layouter).wf(),
            r is Ok <==> old(layouter)@.public(self.config().instance.index as int, row as int)
                is Some,
            r is Ok ==> final(layouter)@ == old(layouter)@.copy(
                cell.cell,
                public_cell(self.config().instance, row as int),
            ),
            r matches Err(e) ==> *final(layouter) == *old(layouter) && e == (Error {
                component: Component::LookupRange,
                kind: ErrorKind::NotAssigned,
                column: self.config().instance.index,
                row: row,
            }),
    {
        let instance = self.config.instance;
        if layouter.public(instance, row).is_none() {
            return Err(
                Error {
                    component: Component::LookupRange,
                    kind: ErrorKind::NotAssigned,
                    column: instance.index,
                    row,
                },
            );
        }
        layouter.constrain_equal(cell.cell, Cell { column: Column::Instance(instance), row });
        Ok(())
    }
}

} // verus!
