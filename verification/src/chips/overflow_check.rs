//! The carry-cascade chip: a running sum kept in two limbs of sixteen bits,
//! `c` above `d`, with a third digit `b` above them that takes what the two
//! limbs cannot hold. A zero test on `b` makes a row with a carry-out
//! unsatisfiable.
//!
//! Each step lays out two rows, as the add-carry chip does: the limbs of the
//! step before, then the value added, the new limbs and the inverse witness
//! of the new `b`.

use crate::chips::is_zero::{
    flag_expression, flag_of, lemma_flag_expression_eval, zero_test_gate, zero_test_poly,
    IsZeroChip, IsZeroConfig,
};
use crate::chips::utils::{add_carry, widened_sum};
use crate::circuit::{
    cell_at, AdviceColumn, Cell, Column, ConstraintSystem, Expression, GateView, InstanceColumn,
    Rotation, Selector, System,
};
use crate::dev::{
    constraint_holds, copy_holds, extends, gate_position, gates_hold, input_holds,
    lemma_extension, lemma_held_residue, lemma_value_kept, lookup_position, satisfied,
};
use crate::field::{
    constant, fadd, fmul, fsub, inverse_or_zero, inverse_witness, lemma_add_negation,
    lemma_constant_value, lemma_residue, modulus, Felt,
};
use crate::layouter::{
    advice_cell, columns_fault, lemma_columns_fit, public_cell, AssignedCell, CellValue,
    Component, Error, ErrorKind, Layouter, Trace, MAX_ROWS,
};
use vstd::arithmetic::power2::lemma2_to64;
use vstd::prelude::*;

verus! {

/// The width of a limb, in bits.
pub const LIMB_BITS: u32 = 16;

/// The columns and selectors of the carry-cascade chip. Of the witness
/// columns, the first holds the value added, the second the inverse witness
/// of `b`, the others `b`, `c` and `d`. The first selector governs the sum,
/// the second the test that `b` is zero.
#[derive(Clone, Debug)]
pub struct OverFlowCheckConfig {
    pub advice: [AdviceColumn; 5],
    pub instance: InstanceColumn,
    pub is_zero: IsZeroConfig,
    pub selector: [Selector; 2],
}

/// The limbs after a step that adds `a` to `(prev_b, prev_c, prev_d)`: the
/// sum of `a` and the two low limbs is split at sixteen bits; if its upper
/// part needs more than sixteen bits, that part is added to `prev_b` and
/// split again, else `b` is zero.
pub open spec fn step_limbs(a: int, prev_b: int, prev_c: int, prev_d: int) -> (int, int, int) {
    let first = widened_sum(LIMB_BITS as nat, a, prev_c, prev_d);
    let hi = first / 0x1_0000;
    let lo = first % 0x1_0000;
    if hi >= 0x1_0000 {
        let second = widened_sum(LIMB_BITS as nat, 0, prev_b, hi);
        (second / 0x1_0000, second % 0x1_0000, lo)
    } else {
        (0, hi, lo)
    }
}

impl OverFlowCheckConfig {
    /// The column of the value added.
    pub open spec fn col_a(self) -> AdviceColumn {
        self.advice[0]
    }

    /// The column of the inverse witness of `b`.
    pub open spec fn col_b_inv(self) -> AdviceColumn {
        self.is_zero.value_inv
    }

    /// The column of `b`, the carry-out digit.
    pub open spec fn col_b(self) -> AdviceColumn {
        self.advice[2]
    }

    /// The column of `c`, the high limb.
    pub open spec fn col_c(self) -> AdviceColumn {
        self.advice[3]
    }

    /// The column of `d`, the low limb.
    pub open spec fn col_d(self) -> AdviceColumn {
        self.advice[4]
    }

    /// The columns that a step writes to.
    pub open spec fn columns(self) -> Seq<AdviceColumn> {
        seq![self.col_a(), self.col_b_inv(), self.col_b(), self.col_c(), self.col_d()]
    }

    /// The selector of the sum.
    pub open spec fn add_carry_selector(self) -> Selector {
        self.selector[0]
    }

    /// The selector of the test that `b` is zero.
    pub open spec fn overflow_check_selector(self) -> Selector {
        self.selector[1]
    }

    /// The configuration is one that `configure` returns: the zero test is
    /// on `b`, with its witness in the second column.
    pub open spec fn wf(self) -> bool {
        &&& self.is_zero.value_inv == self.advice[1]
        &&& self.is_zero.is_zero_expr == flag_expression(
            Expression::query(self.col_b(), Rotation::Cur),
            self.col_b_inv(),
        )
    }

    /// The sum before a step equals the sum after it:
    /// `a + b_prev * 2^32 + c_prev * 2^16 + d_prev - (b * 2^32 + c * 2^16 + d)`.
    pub open spec fn carry_identity(self) -> Expression {
        Expression::difference_of(
            Expression::sum_of(
                Expression::sum_of(
                    Expression::sum_of(
                        Expression::query(self.col_a(), Rotation::Cur),
                        Expression::product_of(
                            Expression::query(self.col_b(), Rotation::Prev),
                            Expression::Constant(constant(0x1_0000_0000)),
                        ),
                    ),
                    Expression::product_of(
                        Expression::query(self.col_c(), Rotation::Prev),
                        Expression::Constant(constant(0x1_0000)),
                    ),
                ),
                Expression::query(self.col_d(), Rotation::Prev),
            ),
            Expression::sum_of(
                Expression::sum_of(
                    Expression::product_of(
                        Expression::query(self.col_b(), Rotation::Cur),
                        Expression::Constant(constant(0x1_0000_0000)),
                    ),
                    Expression::product_of(
                        Expression::query(self.col_c(), Rotation::Cur),
                        Expression::Constant(constant(0x1_0000)),
                    ),
                ),
                Expression::query(self.col_d(), Rotation::Cur),
            ),
        )
    }

    /// One minus the flag of the zero test on `b`.
    pub open spec fn overflow_check(self) -> Expression {
        Expression::difference_of(Expression::Constant(constant(1)), self.is_zero.is_zero_expr)
    }

    /// The sum gate.
    pub open spec fn accumulate_gate(self) -> GateView {
        GateView {
            name: "accumulate constraint"@,
            selector: self.add_carry_selector(),
            polys: seq![self.carry_identity()],
        }
    }

    /// A gate that lets no carry-out pass.
    pub open spec fn overflow_gate(self) -> GateView {
        GateView {
            name: "overflow check"@,
            selector: self.overflow_check_selector(),
            polys: seq![self.overflow_check()],
        }
    }

    /// The system after the chip was configured in it.
    pub open spec fn installed(self, s: System) -> System {
        s.with_gate(
            zero_test_gate(
                self.overflow_check_selector(),
                Expression::query(self.col_b(), Rotation::Cur),
                self.col_b_inv(),
            ),
        ).with_equality(Column::Advice(self.col_a())).with_equality(
            Column::Advice(self.col_b_inv()),
        ).with_equality(Column::Advice(self.col_b())).with_equality(
            Column::Advice(self.col_c()),
        ).with_equality(Column::Advice(self.col_d())).with_equality(
            Column::Instance(self.instance),
        ).with_gate(self.accumulate_gate()).with_gate(self.overflow_gate())
    }

    /// Why the first row cannot be laid out, if it cannot: a limb column
    /// that is missing or given twice, a public input that is missing, or
    /// no room for the row.
    pub open spec fn first_row_fault(self, t: Trace) -> Option<Error> {
        match columns_fault(
            t,
            Component::CarryCascade,
            seq![self.col_b(), self.col_c(), self.col_d()],
        ) {
            Some(e) => Some(e),
            None => if t.public(self.instance.index as int, 0) is None {
                Some(
                    Error {
                        component: Component::CarryCascade,
                        kind: ErrorKind::NotAssigned,
                        column: self.instance.index,
                        row: 0,
                    },
                )
            } else if t.public(self.instance.index as int, 1) is None {
                Some(
                    Error {
                        component: Component::CarryCascade,
                        kind: ErrorKind::NotAssigned,
                        column: self.instance.index,
                        row: 1,
                    },
                )
            } else if t.public(self.instance.index as int, 2) is None {
                Some(
                    Error {
                        component: Component::CarryCascade,
                        kind: ErrorKind::NotAssigned,
                        column: self.instance.index,
                        row: 2,
                    },
                )
            } else if t.rows + 1 > MAX_ROWS {
                Some(
                    Error {
                        component: Component::CarryCascade,
                        kind: ErrorKind::OutOfRows,
                        column: 0,
                        row: t.rows as usize,
                    },
                )
            } else {
                None
            },
        }
    }

    /// The register file after the first row: one more row, in which `b`,
    /// `c` and `d` hold the public inputs of rows 0, 1 and 2 and are tied to
    /// them.
    pub open spec fn first_row(self, t: Trace) -> Trace {
        let start = t.rows as int;
        let public = t.instance[self.instance.index as int];
        t.blank_rows(1).assign(self.col_b(), start, public[0]).copy(
            advice_cell(self.col_b(), start),
            public_cell(self.instance, 0),
        ).assign(self.col_c(), start, public[1]).copy(
            advice_cell(self.col_c(), start),
            public_cell(self.instance, 1),
        ).assign(self.col_d(), start, public[2]).copy(
            advice_cell(self.col_d(), start),
            public_cell(self.instance, 2),
        )
    }

    /// Why a step cannot be laid out, if it cannot: a column that is missing
    /// or given twice, a selector that is missing, no value to add, a sum
    /// whose carry-out digit would not fit sixteen bits, or no room for the
    /// two rows. The row named is the first of the step.
    pub open spec fn advice_row_fault(
        self,
        t: Trace,
        a: Option<Felt>,
        prev_b: int,
        prev_c: int,
        prev_d: int,
    ) -> Option<Error> {
        match columns_fault(t, Component::CarryCascade, self.columns()) {
            Some(e) => Some(e),
            None => if self.add_carry_selector().index >= t.num_selectors {
                Some(
                    Error {
                        component: Component::CarryCascade,
                        kind: ErrorKind::UnknownSelector,
                        column: self.add_carry_selector().index,
                        row: t.rows as usize,
                    },
                )
            } else if self.overflow_check_selector().index >= t.num_selectors {
                Some(
                    Error {
                        component: Component::CarryCascade,
                        kind: ErrorKind::UnknownSelector,
                        column: self.overflow_check_selector().index,
                        row: t.rows as usize,
                    },
                )
            } else if a is None {
                Some(
                    Error {
                        component: Component::CarryCascade,
                        kind: ErrorKind::NotAssigned,
                        column: self.col_a().index,
                        row: t.rows as usize,
                    },
                )
            } else if step_limbs(a.unwrap()@, prev_b, prev_c, prev_d).0 >= 0x1_0000 {
                Some(
                    Error {
                        component: Component::CarryCascade,
                        kind: ErrorKind::Overflow,
                        column: self.col_b().index,
                        row: t.rows as usize,
                    },
                )
            } else if t.rows + 2 > MAX_ROWS {
                Some(
                    Error {
                        component: Component::CarryCascade,
                        kind: ErrorKind::OutOfRows,
                        column: 0,
                        row: t.rows as usize,
                    },
                )
            } else {
                None
            },
        }
    }

    /// The three limbs that the first row holds, with their cells.
    pub open spec fn first_limbs(self, t: Trace) -> (CellValue, CellValue, CellValue) {
        let public = t.instance[self.instance.index as int];
        (
            CellValue::at(self.col_b(), t.rows as int, public[0]),
            CellValue::at(self.col_c(), t.rows as int, public[1]),
            CellValue::at(self.col_d(), t.rows as int, public[2]),
        )
    }

    /// The register file after a step that adds `a` to the limbs carried
    /// over: two more rows, the first with the limbs carried over, tied to
    /// the cells they come from, the second with `a`, the new limbs and the
    /// inverse witness of the new `b`, under both selectors.
    pub open spec fn advice_row(
        self,
        t: Trace,
        a: int,
        prev_b: CellValue,
        prev_c: CellValue,
        prev_d: CellValue,
    ) -> Trace {
        let start = t.rows as int;
        let limbs = step_limbs(a, prev_b.value, prev_c.value, prev_d.value);
        t.blank_rows(2).enable(self.add_carry_selector(), start + 1).enable(
            self.overflow_check_selector(),
            start + 1,
        ).assign(self.col_b(), start, prev_b.value).copy(
            advice_cell(self.col_b(), start),
            prev_b.cell,
        ).assign(self.col_c(), start, prev_c.value).copy(
            advice_cell(self.col_c(), start),
            prev_c.cell,
        ).assign(self.col_d(), start, prev_d.value).copy(
            advice_cell(self.col_d(), start),
            prev_d.cell,
        ).assign(self.col_a(), start + 1, a).assign(self.col_c(), start + 1, limbs.1).assign(
            self.col_d(),
            start + 1,
            limbs.2,
        ).assign(self.col_b(), start + 1, limbs.0).assign(
            self.col_b_inv(),
            start + 1,
            inverse_or_zero(limbs.0),
        )
    }
}

impl OverFlowCheckConfig {
    /// The columns of the chip are among `num_advice` witness columns and
    /// are pairwise different, and its selectors are among `num_selectors`.
    pub open spec fn fits(self, num_advice: nat, num_selectors: nat) -> bool {
        &&& forall|i: int|
            0 <= i < 5 ==> (#[trigger] self.columns()[i]).index < num_advice
        &&& forall|i: int, j: int| 0 <= i < j < 5 ==> self.columns()[i] != self.columns()[j]
        &&& self.add_carry_selector().index < num_selectors
        &&& self.overflow_check_selector().index < num_selectors
    }

    /// The two selectors differ, every gate under the first is that of
    /// the sum, every gate under the second is the zero test on `b` or the
    /// gate that forbids a carry-out, and no lookup is under either.
    pub open spec fn governs(self, s: System) -> bool {
        &&& self.wf()
        &&& self.add_carry_selector() != self.overflow_check_selector()
        &&& forall|g: int|
            0 <= g < s.gates.len() && (#[trigger] s.gates[g]).selector == self.add_carry_selector()
                ==> s.gates[g].polys == self.accumulate_gate().polys
        &&& forall|g: int|
            0 <= g < s.gates.len() && (#[trigger] s.gates[g]).selector
                == self.overflow_check_selector() ==> s.gates[g].polys
                == self.overflow_gate().polys || s.gates[g].polys == seq![
                zero_test_poly(Expression::query(self.col_b(), Rotation::Cur), self.col_b_inv()),
            ]
        &&& forall|l: int|
            0 <= l < s.lookups.len() ==> (#[trigger] s.lookups[l]).selector
                != self.add_carry_selector() && s.lookups[l].selector
                != self.overflow_check_selector()
    }

    /// The gates that watch `b` are among the gates of the system.
    pub open spec fn watched(self, s: System) -> bool {
        exists|zero_test: int, overflow: int| #[trigger] self.watched_in(s, zero_test, overflow)
    }

    /// Both gates that watch `b` are among the gates of the system.
    pub open spec fn watched_in(self, s: System, zero_test: int, overflow: int) -> bool {
        &&& self.wf()
        &&& 0 <= zero_test < s.gates.len()
        &&& 0 <= overflow < s.gates.len()
        &&& s.gates[zero_test] == zero_test_gate(
            self.overflow_check_selector(),
            Expression::query(self.col_b(), Rotation::Cur),
            self.col_b_inv(),
        )
        &&& s.gates[overflow] == self.overflow_gate()
    }
}

/// A chip configured under two selectors that differ and that nothing else
/// uses governs the rows where they are enabled, and the gates that watch
/// `b` are the third and the last from the end.
pub proof fn lemma_installed_governs(config: OverFlowCheckConfig, s: System)
    requires
        config.wf(),
        config.add_carry_selector() != config.overflow_check_selector(),
        forall|g: int|
            0 <= g < s.gates.len() ==> (#[trigger] s.gates[g]).selector
                != config.add_carry_selector() && s.gates[g].selector
                != config.overflow_check_selector(),
        forall|l: int|
            0 <= l < s.lookups.len() ==> (#[trigger] s.lookups[l]).selector
                != config.add_carry_selector() && s.lookups[l].selector
                != config.overflow_check_selector(),
    ensures
        config.governs(config.installed(s)),
        config.watched_in(config.installed(s), s.gates.len() as int, s.gates.len() as int + 2),
{
    let u = config.installed(s);
    let n = s.gates.len() as int;
    assert(u.gates.len() == n + 3);
    assert(u.gates[n + 1] == config.accumulate_gate());
    assert(u.gates[n + 2] == config.overflow_gate());
    assert forall|g: int| 0 <= g < n implies #[trigger] u.gates[g] == s.gates[g] by {}
    assert forall|l: int| 0 <= l < u.lookups.len() implies #[trigger] u.lookups[l]
        == s.lookups[l] by {}
}

/// What the polynomials of the three gates come to on a row whose cells,
/// and those of the row before, hold the values named.
pub proof fn lemma_gate_eval(
    config: OverFlowCheckConfig,
    cells: Map<(int, int), int>,
    row: int,
    a: int,
    prev: (int, int, int),
    next: (int, int, int),
    b_inv: int,
)
    requires
        config.wf(),
        cell_at(cells, config.col_a().index as int, row) == Some(a),
        cell_at(cells, config.col_b().index as int, row - 1) == Some(prev.0),
        cell_at(cells, config.col_c().index as int, row - 1) == Some(prev.1),
        cell_at(cells, config.col_d().index as int, row - 1) == Some(prev.2),
        cell_at(cells, config.col_b().index as int, row) == Some(next.0),
        cell_at(cells, config.col_c().index as int, row) == Some(next.1),
        cell_at(cells, config.col_d().index as int, row) == Some(next.2),
        cell_at(cells, config.col_b_inv().index as int, row) == Some(b_inv),
    ensures
        config.carry_identity().eval(cells, row) == Some(
            fsub(
                fadd(
                    fadd(fadd(a, fmul(prev.0, 0x1_0000_0000)), fmul(prev.1, 0x1_0000)),
                    prev.2,
                ),
                fadd(fadd(fmul(next.0, 0x1_0000_0000), fmul(next.1, 0x1_0000)), next.2),
            ),
        ),
        config.overflow_check().eval(cells, row) == Some(fsub(1, flag_of(next.0, b_inv))),
        zero_test_poly(Expression::query(config.col_b(), Rotation::Cur), config.col_b_inv()).eval(
            cells,
            row,
        ) == Some(fmul(next.0, flag_of(next.0, b_inv))),
{
    reveal_with_fuel(Expression::eval, 7);
    lemma_constant_value(0x1_0000);
    lemma_constant_value(0x1_0000_0000);
    lemma_constant_value(1);
    lemma_add_negation(
        fadd(fadd(fadd(a, fmul(prev.0, 0x1_0000_0000)), fmul(prev.1, 0x1_0000)), prev.2),
        fadd(fadd(fmul(next.0, 0x1_0000_0000), fmul(next.1, 0x1_0000)), next.2),
    );
    lemma_flag_expression_eval(
        Expression::query(config.col_b(), Rotation::Cur),
        config.col_b_inv(),
        cells,
        row,
    );
    lemma_add_negation(1, flag_of(next.0, b_inv));
}

/// With a carry-out digit other than zero, no inverse witness makes both
/// the zero test and a gate that forbids a carry-out vanish.
pub proof fn lemma_carry_out_refused(b: int, b_inv: int)
    requires
        0 < b < modulus(),
    ensures
        !(fmul(b, flag_of(b, b_inv)) == 0 && fsub(1, flag_of(b, b_inv)) == 0),
{
    let flag = flag_of(b, b_inv);
    if fsub(1, flag) == 0 {
        assert(flag == 1);
        assert(b * flag == b) by (nonlinear_arith)
            requires
                flag == 1,
        ;
    }
}

/// A register file in which `b` is not zero on a row where the second
/// selector is enabled is not satisfied, whatever stands beside `b` as its
/// inverse witness.
pub proof fn lemma_carry_out_unsatisfiable(
    config: OverFlowCheckConfig,
    s: System,
    t: Trace,
    row: int,
    zero_test: int,
    overflow: int,
)
    requires
        config.watched_in(s, zero_test, overflow),
        0 <= row < t.rows,
        t.selected(config.overflow_check_selector(), row),
        t.advice(config.col_b().index as int, row) is Some,
        0 < t.advice(config.col_b().index as int, row).unwrap() < modulus(),
    ensures
        !gates_hold(s, t),
        !satisfied(s, t),
{
    let b = t.advice(config.col_b().index as int, row).unwrap();
    reveal_with_fuel(Expression::eval, 7);
    match t.advice(config.col_b_inv().index as int, row) {
        Some(b_inv) => {
            lemma_constant_value(1);
            lemma_flag_expression_eval(
                Expression::query(config.col_b(), Rotation::Cur),
                config.col_b_inv(),
                t.cells,
                row,
            );
            lemma_add_negation(1, flag_of(b, b_inv));
            lemma_carry_out_refused(b, b_inv);
            assert(!(constraint_holds(s, t, zero_test, row, 0) && constraint_holds(
                s,
                t,
                overflow,
                row,
                0,
            )));
        },
        None => {
            assert(!constraint_holds(s, t, zero_test, row, 0));
        },
    }
    assert(gate_position(s, t, zero_test, row, 0));
    assert(gate_position(s, t, overflow, row, 0));
}

/// A step continues the register file it is laid out on.
pub proof fn lemma_advice_row_extends(
    config: OverFlowCheckConfig,
    t: Trace,
    a: int,
    prev_b: CellValue,
    prev_c: CellValue,
    prev_d: CellValue,
)
    ensures
        extends(t, config.advice_row(t, a, prev_b, prev_c, prev_d)),
{
}

/// The first row keeps a satisfied register file satisfied.
pub proof fn lemma_first_row_satisfied(config: OverFlowCheckConfig, s: System, t: Trace)
    requires
        t.wf(),
        satisfied(s, t),
        config.first_row_fault(t) is None,
    ensures
        config.first_row(t).wf(),
        satisfied(s, config.first_row(t)),
        config.first_row(t).value(config.first_limbs(t).0.cell) == Some(
            config.first_limbs(t).0.value,
        ),
        config.first_row(t).value(config.first_limbs(t).1.cell) == Some(
            config.first_limbs(t).1.value,
        ),
        config.first_row(t).value(config.first_limbs(t).2.cell) == Some(
            config.first_limbs(t).2.value,
        ),
{
    let u = config.first_row(t);
    let start = t.rows as int;
    let columns = seq![config.col_b(), config.col_c(), config.col_d()];
    lemma_columns_fit(t, Component::CarryCascade, columns);
    assert(columns[0] != columns[1] && columns[0] != columns[2] && columns[1] != columns[2]);
    assert(columns[0].index < t.num_advice && columns[1].index < t.num_advice && columns[2].index
        < t.num_advice);
    assert(extends(t, u));
    lemma_extension(s, t, u);
    assert forall|g: int, row: int, k: int| gate_position(s, u, g, row, k) implies
        #[trigger] constraint_holds(s, u, g, row, k) by {
        if row < t.rows {
            assert(gate_position(s, t, g, row, k));
        }
    }
    assert forall|l: int, row: int, k: int| lookup_position(s, u, l, row, k) implies
        #[trigger] input_holds(s, u, l, row, k) by {
        if row < t.rows {
            assert(lookup_position(s, t, l, row, k));
        }
    }
    assert forall|i: int| 0 <= i < u.copies.len() implies #[trigger] copy_holds(u, i) by {
        if i >= t.copies.len() {
            assert(u.copies[i].0.row == start);
        }
    }
}

/// A step from a `b` of zero whose sum of the value added and the two low
/// limbs stays below two to the power 32 leaves `b` zero, and its limbs
/// make the polynomials of all three gates vanish.
pub proof fn lemma_step_vanishes(a: int, prev_c: int, prev_d: int)
    requires
        0 <= a < modulus(),
        0 <= prev_c < modulus(),
        0 <= prev_d < modulus(),
        widened_sum(LIMB_BITS as nat, a, prev_c, prev_d) < 0x1_0000_0000,
    ensures
        ({
            let first = widened_sum(LIMB_BITS as nat, a, prev_c, prev_d);
            let limbs = step_limbs(a, 0, prev_c, prev_d);
            &&& limbs == (0int, first / 0x1_0000, first % 0x1_0000)
            &&& 0 <= limbs.1 < modulus()
            &&& 0 <= limbs.2 < modulus()
            &&& fsub(
                fadd(fadd(fadd(a, fmul(0, 0x1_0000_0000)), fmul(prev_c, 0x1_0000)), prev_d),
                fadd(fadd(fmul(limbs.0, 0x1_0000_0000), fmul(limbs.1, 0x1_0000)), limbs.2),
            ) == 0
            &&& fsub(1, flag_of(0, 0)) == 0
            &&& fmul(0, flag_of(0, 0)) == 0
        }),
{
    lemma2_to64();
    let first = widened_sum(LIMB_BITS as nat, a, prev_c, prev_d);
    let limbs = step_limbs(a, 0, prev_c, prev_d);
    assert(0 <= first < modulus());
    assert(limbs == (0int, first / 0x1_0000, first % 0x1_0000));
    assert(limbs.1 * 0x1_0000 + limbs.2 == first);
    assert(fmul(limbs.1, 0x1_0000) == limbs.1 * 0x1_0000);
    assert(fmul(0, 0x1_0000_0000) == 0);
    assert(flag_of(0, 0) == 1) by {
        assert(0 * 0 == 0);
    }
    assert(fmul(0, 1) == 0);
}

/// A step without a carry-out keeps a satisfied register file satisfied, if
/// the chip governs its selectors, the limbs carried over are what their
/// cells hold, `b` was zero before, and the sum of the value added and the
/// two low limbs stays below two to the power 32.
pub proof fn lemma_advice_row_satisfied(
    config: OverFlowCheckConfig,
    s: System,
    t: Trace,
    a: Felt,
    prev_b: CellValue,
    prev_c: CellValue,
    prev_d: CellValue,
)
    requires
        t.wf(),
        satisfied(s, t),
        config.governs(s),
        config.advice_row_fault(t, Some(a), prev_b.value, prev_c.value, prev_d.value) is None,
        t.value(prev_b.cell) == Some(prev_b.value),
        t.value(prev_c.cell) == Some(prev_c.value),
        t.value(prev_d.cell) == Some(prev_d.value),
        prev_b.value == 0,
        widened_sum(LIMB_BITS as nat, a@, prev_c.value, prev_d.value) < 0x1_0000_0000,
    ensures
        config.advice_row(t, a@, prev_b, prev_c, prev_d).wf(),
        satisfied(s, config.advice_row(t, a@, prev_b, prev_c, prev_d)),
        step_limbs(a@, prev_b.value, prev_c.value, prev_d.value).0 == 0,
        config.advice_row(t, a@, prev_b, prev_c, prev_d).advice(
            config.col_b().index as int,
            t.rows as int + 1,
        ) == Some(step_limbs(a@, prev_b.value, prev_c.value, prev_d.value).0),
        config.advice_row(t, a@, prev_b, prev_c, prev_d).advice(
            config.col_c().index as int,
            t.rows as int + 1,
        ) == Some(step_limbs(a@, prev_b.value, prev_c.value, prev_d.value).1),
        config.advice_row(t, a@, prev_b, prev_c, prev_d).advice(
            config.col_d().index as int,
            t.rows as int + 1,
        ) == Some(step_limbs(a@, prev_b.value, prev_c.value, prev_d.value).2),
{
    let u = config.advice_row(t, a@, prev_b, prev_c, prev_d);
    let start = t.rows as int;
    let first = widened_sum(LIMB_BITS as nat, a@, prev_c.value, prev_d.value);
    let limbs = step_limbs(a@, prev_b.value, prev_c.value, prev_d.value);
    let inv = inverse_or_zero(limbs.0);
    let columns = config.columns();
    lemma2_to64();
    lemma_columns_fit(t, Component::CarryCascade, columns);
    assert(columns[0] != columns[1] && columns[0] != columns[2] && columns[0] != columns[3]
        && columns[0] != columns[4] && columns[1] != columns[2] && columns[1] != columns[3]
        && columns[1] != columns[4] && columns[2] != columns[3] && columns[2] != columns[4]
        && columns[3] != columns[4]);
    assert(columns[0].index < t.num_advice && columns[1].index < t.num_advice && columns[2].index
        < t.num_advice && columns[3].index < t.num_advice && columns[4].index < t.num_advice);
    lemma_residue(a);
    lemma_held_residue(t, prev_c.cell);
    lemma_held_residue(t, prev_d.cell);
    lemma_step_vanishes(a@, prev_c.value, prev_d.value);
    assert(inv == 0);
    assert(extends(t, u));
    lemma_extension(s, t, u);
    lemma_gate_eval(
        config,
        u.cells,
        start + 1,
        a@,
        (prev_b.value, prev_c.value, prev_d.value),
        limbs,
        inv,
    );
    assert forall|g: int, row: int, k: int| gate_position(s, u, g, row, k) implies
        #[trigger] constraint_holds(s, u, g, row, k) by {
        if row < t.rows {
            assert(gate_position(s, t, g, row, k));
        } else if u.selected(s.gates[g].selector, row) {
            assert(row == start + 1);
            assert(s.gates[g].selector == config.add_carry_selector() || s.gates[g].selector
                == config.overflow_check_selector());
        }
    }
    assert forall|l: int, row: int, k: int| lookup_position(s, u, l, row, k) implies
        #[trigger] input_holds(s, u, l, row, k) by {
        if row < t.rows {
            assert(lookup_position(s, t, l, row, k));
        } else if u.selected(s.lookups[l].selector, row) {
            assert(s.lookups[l].selector == config.add_carry_selector() || s.lookups[l].selector
                == config.overflow_check_selector());
        }
    }
    assert forall|i: int| 0 <= i < u.copies.len() implies #[trigger] copy_holds(u, i) by {
        if i >= t.copies.len() {
            lemma_value_kept(t, u, prev_b.cell);
            lemma_value_kept(t, u, prev_c.cell);
            lemma_value_kept(t, u, prev_d.cell);
            assert(u.copies[i].0.row == start);
        }
    }
}

/// A step whose sum of the value added and the two low limbs reaches two to
/// the power 32 gives a `b` other than zero, and leaves a register file that
/// is not satisfied.
pub proof fn lemma_overflowing_step_unsatisfiable(
    config: OverFlowCheckConfig,
    s: System,
    t: Trace,
    a: Felt,
    prev_b: CellValue,
    prev_c: CellValue,
    prev_d: CellValue,
    zero_test: int,
    overflow: int,
)
    requires
        t.wf(),
        config.watched_in(s, zero_test, overflow),
        config.advice_row_fault(t, Some(a), prev_b.value, prev_c.value, prev_d.value) is None,
        t.value(prev_b.cell) == Some(prev_b.value),
        t.value(prev_c.cell) == Some(prev_c.value),
        t.value(prev_d.cell) == Some(prev_d.value),
        widened_sum(LIMB_BITS as nat, a@, prev_c.value, prev_d.value) >= 0x1_0000_0000,
        prev_b.value * 0x1_0000 + widened_sum(LIMB_BITS as nat, a@, prev_c.value, prev_d.value)
            / 0x1_0000 < modulus(),
    ensures
        step_limbs(a@, prev_b.value, prev_c.value, prev_d.value).0 != 0,
        !gates_hold(s, config.advice_row(t, a@, prev_b, prev_c, prev_d)),
        !satisfied(s, config.advice_row(t, a@, prev_b, prev_c, prev_d)),
{
    let u = config.advice_row(t, a@, prev_b, prev_c, prev_d);
    let start = t.rows as int;
    let first = widened_sum(LIMB_BITS as nat, a@, prev_c.value, prev_d.value);
    let hi = first / 0x1_0000;
    let limbs = step_limbs(a@, prev_b.value, prev_c.value, prev_d.value);
    let columns = config.columns();
    lemma2_to64();
    lemma_columns_fit(t, Component::CarryCascade, columns);
    assert(columns[0] != columns[1] && columns[0] != columns[2] && columns[0] != columns[3]
        && columns[0] != columns[4] && columns[1] != columns[2] && columns[1] != columns[3]
        && columns[1] != columns[4] && columns[2] != columns[3] && columns[2] != columns[4]
        && columns[3] != columns[4]);
    lemma_residue(a);
    lemma_held_residue(t, prev_b.cell);
    lemma_held_residue(t, prev_c.cell);
    lemma_held_residue(t, prev_d.cell);
    assert(hi >= 0x1_0000);
    let second = widened_sum(LIMB_BITS as nat, 0, prev_b.value, hi);
    assert(fmul(prev_b.value, 0x1_0000) == prev_b.value * 0x1_0000);
    assert(second == prev_b.value * 0x1_0000 + hi);
    assert(limbs.0 == second / 0x1_0000);
    assert(limbs.0 >= 1);
    assert(0 <= limbs.0 < modulus());
    assert(u.advice(config.col_b().index as int, start + 1) == Some(limbs.0));
    lemma_carry_out_unsatisfiable(config, s, u, start + 1, zero_test, overflow);
}

/// The carry-cascade chip.
#[derive(Clone, Debug)]
pub struct OverFlowChip {
    config: OverFlowCheckConfig,
}

impl OverFlowChip {
    /// What the chip was constructed with.
    pub closed spec fn config(&self) -> OverFlowCheckConfig {
        self.config
    }

    /// The chip for a configuration.
    pub fn construct(config: OverFlowCheckConfig) -> (r: OverFlowChip)
        ensures
            r.config() == config,
    {
        OverFlowChip { config }
    }

    /// The limbs after a step that adds `a` to the limbs carried over: `b`,
    /// `c` and `d`. The sum of `a` and the two low limbs is split at
    /// sixteen bits; an upper part that needs more than sixteen bits is
    /// added to `prev_b` and split again. Nothing if `b` would not fit
    /// sixteen bits.
    pub fn next_limbs(a: &Felt, prev_b: &Felt, prev_c: &Felt, prev_d: &Felt) -> (r: Option<
        (Felt, Felt, Felt),
    >)
        ensures
            r is Some <==> step_limbs(a@, prev_b@, prev_c@, prev_d@).0 < 0x1_0000,
            r matches Some(limbs) ==> (limbs.0@, limbs.1@, limbs.2@) == step_limbs(
                a@,
                prev_b@,
                prev_c@,
                prev_d@,
            ),
    {
        proof {
            lemma2_to64();
        }
        let (hi, lo) = add_carry(LIMB_BITS, a, prev_c, prev_d);
        let mut sum_overflow = Felt::zero();
        let mut sum_hi = hi;
        if !hi.less_than(&Felt::from_u64(0x1_0000)) {
            let (ov, folded) = add_carry(LIMB_BITS, &Felt::zero(), prev_b, &hi);
            sum_overflow = ov;
            sum_hi = folded;
        }
        if sum_overflow.less_than(&Felt::from_u64(0x1_0000)) {
            Some((sum_overflow, sum_hi, lo))
        } else {
            None
        }
    }

    /// Registers the zero test on `b` under the second selector, lets the
    /// five witness columns and the public column take part in copy
    /// constraints, and registers the sum gate under the first
    /// selector and a gate that forbids a carry-out under the second.
    pub fn configure(
        meta: &mut ConstraintSystem,
        advice: [AdviceColumn; 5],
        selector: [Selector; 2],
        instance: InstanceColumn,
    ) -> (r: OverFlowCheckConfig)
        ensures
            r.advice == advice,
            r.selector == selector,
            r.instance == instance,
            r.wf(),
            final(meta)@ == r.installed(old(meta)@),
    {
        let col_a = advice[0];
        let col_b_inv = advice[1];
        let col_b = advice[2];
        let col_c = advice[3];
        let col_d = advice[4];
        let add_carry_selector = selector[0];
        let overflow_check_selector = selector[1];
        let is_zero = IsZeroChip::configure(
            meta,
            overflow_check_selector,
            Expression::advice(col_b, Rotation::Cur),
            col_b_inv,
        );

        meta.enable_equality(Column::Advice(col_a));
        meta.enable_equality(Column::Advice(col_b_inv));
        meta.enable_equality(Column::Advice(col_b));
        meta.enable_equality(Column::Advice(col_c));
        meta.enable_equality(Column::Advice(col_d));
        meta.enable_equality(Column::Instance(instance));

        let before = Expression::advice(col_a, Rotation::Cur).plus(
            Expression::advice(col_b, Rotation::Prev).times(
                Expression::constant(Felt::from_u64(0x1_0000_0000)),
            ),
        ).plus(
            Expression::advice(col_c, Rotation::Prev).times(
                Expression::constant(Felt::from_u64(0x1_0000)),
            ),
        ).plus(Expression::advice(col_d, Rotation::Prev));
        let after = Expression::advice(col_b, Rotation::Cur).times(
            Expression::constant(Felt::from_u64(0x1_0000_0000)),
        ).plus(
            Expression::advice(col_c, Rotation::Cur).times(
                Expression::constant(Felt::from_u64(0x1_0000)),
            ),
        ).plus(Expression::advice(col_d, Rotation::Cur));
        let check = Expression::constant(Felt::one()).minus(is_zero.expr());
        let config = OverFlowCheckConfig { advice, instance, is_zero, selector };

        let mut sum_polys: Vec<Expression> = Vec::new();
        sum_polys.push(before.minus(after));
        assert(sum_polys@ =~= config.accumulate_gate().polys);
        meta.create_gate("accumulate constraint", add_carry_selector, sum_polys);
        let mut check_polys: Vec<Expression> = Vec::new();
        check_polys.push(check);
        assert(check_polys@ =~= config.overflow_gate().polys);
        meta.create_gate("overflow check", overflow_check_selector, check_polys);
        config
    }

    /// Lays out the first row: `b`, `c` and `d` take the public inputs of
    /// rows 0, 1 and 2. Fails, changing nothing, as `first_row_fault` says.
    pub fn assign_first_row(&self, layouter: &mut Layouter) -> (r: Result<
        (AssignedCell, AssignedCell, AssignedCell),
        Error,
    >)
        requires
            old(layouter).wf(),
        ensures
            final(layouter).wf(),
            match r {
                Ok((b, c, d)) => {
                    let t = old(layouter)@;
                    &&& self.config().first_row_fault(t) is None
                    &&& final(layouter)@ == self.config().first_row(t)
                    &&& (b@, c@, d@) == self.config().first_limbs(t)
                },
                Err(e) => self.config().first_row_fault(old(layouter)@) == Some(e)
                    && *final(layouter) == *old(layouter),
            },
    {
        let col_b = self.config.advice[2];
        let col_c = self.config.advice[3];
        let col_d = self.config.advice[4];
        let instance = self.config.instance;
        let ghost t = layouter@;
        proof {
            layouter.lemma_view_wf();
        }
        let mut columns: Vec<AdviceColumn> = Vec::new();
        columns.push(col_b);
        columns.push(col_c);
        columns.push(col_d);
        assert(columns@ =~= seq![col_b, col_c, col_d]);
        if let Some(e) = layouter.check_columns(Component::CarryCascade, &columns) {
            return Err(e);
        }
        proof {
            lemma_columns_fit(t, Component::CarryCascade, columns@);
            assert(columns@[0] != columns@[1] && columns@[0] != columns@[2] && columns@[1]
                != columns@[2]);
        }
        let b0 = match layouter.public(instance, 0) {
            Some(v) => v,
            None => {
                return Err(
                    Error {
                        component: Component::CarryCascade,
                        kind: ErrorKind::NotAssigned,
                        column: instance.index,
                        row: 0,
                    },
                );
            },
        };
        let c0 = match layouter.public(instance, 1) {
            Some(v) => v,
            None => {
                return Err(
                    Error {
                        component: Component::CarryCascade,
                        kind: ErrorKind::NotAssigned,
                        column: instance.index,
                        row: 1,
                    },
                );
            },
        };
        let d0 = match layouter.public(instance, 2) {
            Some(v) => v,
            None => {
                return Err(
                    Error {
                        component: Component::CarryCascade,
                        kind: ErrorKind::NotAssigned,
                        column: instance.index,
                        row: 2,
                    },
                );
            },
        };
        let rows = layouter.rows();
        let start = match layouter.begin_region(1) {
            Ok(start) => start,
            Err(_) => {
                return Err(
                    Error {
                        component: Component::CarryCascade,
                        kind: ErrorKind::OutOfRows,
                        column: 0,
                        row: rows,
                    },
                );
            },
        };
        let b_cell = match layouter.assign_advice(col_b, start, b0) {
            Ok(cell) => cell,
            Err(e) => {
                return Err(e);
            },
        };
        layouter.constrain_equal(b_cell.cell, Cell { column: Column::Instance(instance), row: 0 });
        let c_cell = match layouter.assign_advice(col_c, start, c0) {
            Ok(cell) => cell,
            Err(e) => {
                return Err(e);
            },
        };
        layouter.constrain_equal(c_cell.cell, Cell { column: Column::Instance(instance), row: 1 });
        let d_cell = match layouter.assign_advice(col_d, start, d0) {
            Ok(cell) => cell,
            Err(e) => {
                return Err(e);
            },
        };
        layouter.constrain_equal(d_cell.cell, Cell { column: Column::Instance(instance), row: 2 });
        Ok((b_cell, c_cell, d_cell))
    }

    /// Lays out one step: adds `a` to the number that the limbs carried over
    /// stand for and returns the new limbs `b`, `c` and `d`. Fails, changing
    /// nothing, as `advice_row_fault` says; among the faults is a sum that
    /// the three limbs cannot hold.
    pub fn assign_advice_row(
        &self,
        layouter: &mut Layouter,
        a: Option<Felt>,
        prev_b: AssignedCell,
        prev_c: AssignedCell,
        prev_d: AssignedCell,
    ) -> (r: Result<(AssignedCell, AssignedCell, AssignedCell), Error>)
        requires
            old(layouter).wf(),
        ensures
            final(layouter).wf(),
            match r {
                Ok((b, c, d)) => {
                    let t = old(layouter)@;
                    let limbs = step_limbs(
                        a.unwrap()@,
                        prev_b.value@,
                        prev_c.value@,
                        prev_d.value@,
                    );
                    &&& self.config().advice_row_fault(
                        t,
                        a,
                        prev_b.value@,
                        prev_c.value@,
                        prev_d.value@,
                    ) is None
                    &&& inverse_witness(limbs.0, inverse_or_zero(limbs.0))
                    &&& final(layouter)@ == self.config().advice_row(
                        t,
                        a.unwrap()@,
                        prev_b@,
                        prev_c@,
                        prev_d@,
                    )
                    &&& b@ == CellValue::at(self.config().col_b(), t.rows as int + 1, limbs.0)
                    &&& c@ == CellValue::at(self.config().col_c(), t.rows as int + 1, limbs.1)
                    &&& d@ == CellValue::at(self.config().col_d(), t.rows as int + 1, limbs.2)
                },
                Err(e) => self.config().advice_row_fault(
                    old(layouter)@,
                    a,
                    prev_b.value@,
                    prev_c.value@,
                    prev_d.value@,
                ) == Some(e) && *final(layouter) == *old(layouter),
            },
    {
        let is_zero_chip = IsZeroChip::construct(self.config.is_zero.duplicate());
        let col_a = self.config.advice[0];
        let col_b_inv = self.config.is_zero.value_inv;
        let col_b = self.config.advice[2];
        let col_c = self.config.advice[3];
        let col_d = self.config.advice[4];
        let add_carry_selector = self.config.selector[0];
        let overflow_check_selector = self.config.selector[1];
        let ghost t = layouter@;
        proof {
            layouter.lemma_view_wf();
            lemma2_to64();
        }
        let mut columns: Vec<AdviceColumn> = Vec::new();
        columns.push(col_a);
        columns.push(col_b_inv);
        columns.push(col_b);
        columns.push(col_c);
        columns.push(col_d);
        assert(columns@ =~= self.config.columns());
        if let Some(e) = layouter.check_columns(Component::CarryCascade, &columns) {
            return Err(e);
        }
        proof {
            lemma_columns_fit(t, Component::CarryCascade, columns@);
            assert(columns@[0] != columns@[1] && columns@[0] != columns@[2] && columns@[0]
                != columns@[3] && columns@[0] != columns@[4] && columns@[1] != columns@[2]
                && columns@[1] != columns@[3] && columns@[1] != columns@[4] && columns@[2]
                != columns@[3] && columns@[2] != columns@[4] && columns@[3] != columns@[4]);
            assert(columns@[0].index < t.num_advice && columns@[1].index < t.num_advice
                && columns@[2].index < t.num_advice && columns@[3].index < t.num_advice
                && columns@[4].index < t.num_advice);
        }
        let rows = layouter.rows();
        if add_carry_selector.index >= layouter.num_selectors() {
            return Err(
                Error {
                    component: Component::CarryCascade,
                    kind: ErrorKind::UnknownSelector,
                    column: add_carry_selector.index,
                    row: rows,
                },
            );
        }
        if overflow_check_selector.index >= layouter.num_selectors() {
            return Err(
                Error {
                    component: Component::CarryCascade,
                    kind: ErrorKind::UnknownSelector,
                    column: overflow_check_selector.index,
                    row: rows,
                },
            );
        }
        let value = match a {
            Some(v) => v,
            None => {
                return Err(
                    Error {
                        component: Component::CarryCascade,
                        kind: ErrorKind::NotAssigned,
                        column: col_a.index,
                        row: rows,
                    },
                );
            },
        };
        let (sum_overflow, sum_hi, lo) = match OverFlowChip::next_limbs(
            &value,
            &prev_b.value,
            &prev_c.value,
            &prev_d.value,
        ) {
            Some(limbs) => limbs,
            None => {
                return Err(
                    Error {
                        component: Component::CarryCascade,
                        kind: ErrorKind::Overflow,
                        column: col_b.index,
                        row: rows,
                    },
                );
            },
        };
        let start = match layouter.begin_region(2) {
            Ok(start) => start,
            Err(_) => {
                return Err(
                    Error {
                        component: Component::CarryCascade,
                        kind: ErrorKind::OutOfRows,
                        column: 0,
                        row: rows,
                    },
                );
            },
        };
        match layouter.enable_selector(add_carry_selector, start + 1) {
            Ok(()) => {},
            Err(e) => {
                return Err(e);
            },
        }
        match layouter.enable_selector(overflow_check_selector, start + 1) {
            Ok(()) => {},
            Err(e) => {
                return Err(e);
            },
        }
        match layouter.assign_advice(col_b, start, prev_b.value) {
            Ok(cell) => {
                layouter.constrain_equal(cell.cell, prev_b.cell);
            },
            Err(e) => {
                return Err(e);
            },
        }
        match layouter.assign_advice(col_c, start, prev_c.value) {
            Ok(cell) => {
                layouter.constrain_equal(cell.cell, prev_c.cell);
            },
            Err(e) => {
                return Err(e);
            },
        }
        match layouter.assign_advice(col_d, start, prev_d.value) {
            Ok(cell) => {
                layouter.constrain_equal(cell.cell, prev_d.cell);
            },
            Err(e) => {
                return Err(e);
            },
        }
        match layouter.assign_advice(col_a, start + 1, value) {
            Ok(_) => {},
            Err(e) => {
                return Err(e);
            },
        }

        let c_cell = match layouter.assign_advice(col_c, start + 1, sum_hi) {
            Ok(cell) => cell,
            Err(e) => {
                return Err(e);
            },
        };
        let d_cell = match layouter.assign_advice(col_d, start + 1, lo) {
            Ok(cell) => cell,
            Err(e) => {
                return Err(e);
            },
        };
        let b_cell = match layouter.assign_advice(col_b, start + 1, sum_overflow) {
            Ok(cell) => cell,
            Err(e) => {
                return Err(e);
            },
        };
        match is_zero_chip.assign(layouter, start + 1, Some(sum_overflow)) {
            Ok(()) => {},
            Err(e) => {
                return Err(e);
            },
        }
        Ok((b_cell, c_cell, d_cell))
    }

    /// Ties a cell to the public input at `row`. Fails, changing nothing, if
    /// there is no public input at that row.
    pub fn expose_public(&self, layouter: &mut Layouter, cell: &AssignedCell, row: usize) -> (r:
        Result<(), Error>)
        requires
            old(layouter).wf(),
        ensures
            final(layouter).wf(),
            r is Ok <==> old(layouter)@.public(self.config().instance.index as int, row as int)
                is Some,
            r is Ok ==> final(layouter)@ == old(layouter)@.copy(
                cell.cell,
                public_cell(self.config().instance, row as int),
            ),
            r matches Err(e) ==> *final(layouter) == *old(layouter) && e == (Error {
                component: Component::CarryCascade,
                kind: ErrorKind::NotAssigned,
                column: self.config().instance.index,
                row: row,
            }),
    {
        let instance = self.config.instance;
        if layouter.public(instance, row).is_none() {
            return Err(
                Error {
                    component: Component::CarryCascade,
                    kind: ErrorKind::NotAssigned,
                    column: instance.index,
                    row,
                },
            );
        }
        layouter.constrain_equal(cell.cell, Cell { column: Column::Instance(instance), row });
        Ok(())
    }
}

} // verus!
