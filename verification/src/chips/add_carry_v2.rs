//! The add-carry chip: a running sum kept in two limbs of sixteen bits, a
//! high limb and a low limb, one accumulation per row.
//!
//! Each step lays out two rows. The first repeats the limbs of the step
//! before, tied to them by copy constraints; the second holds the value
//! added, the new limbs and the inverse witness of the new high limb. Its
//! gate relates the second row to the first: the limbs before and the value
//! add up to the limbs after, and the new high limb `b` is zero. The high
//! limb is held to zero by two polynomials, `b * (1 - b * b_inv)` and
//! `b * b_inv`: where both vanish, so does their sum, which is `b`. A step
//! whose sum needs a high limb is laid out and never satisfied; a step
//! whose sum two limbs cannot hold is not laid out at all.

use crate::chips::is_zero::{flag_of, lemma_flag_expression_eval, zero_test_poly};
use crate::chips::utils::{add_carry, widened_sum};
use crate::circuit::{
    cell_at, AdviceColumn, Cell, Column, ConstraintSystem, Expression, GateView, InstanceColumn,
    Rotation, Selector, System,
};
use crate::dev::{
    constraint_holds, copy_holds, extends, gate_position, gates_hold, input_holds,
    lemma_extension, lemma_held_residue, lemma_value_kept, lookup_position, satisfied,
};
use crate::field::{
    constant, fadd, fmul, fsub, inverse_or_zero, inverse_witness, lemma_add_negation,
    lemma_constant_value, lemma_residue, modulus, Felt,
};
use crate::layouter::{
    advice_cell, columns_fault, lemma_columns_fit, public_cell, AssignedCell, CellValue,
    Component, Error, ErrorKind, Layouter, Trace, MAX_ROWS,
};
use vstd::arithmetic::power2::lemma2_to64;
use vstd::prelude::*;

verus! {

/// The width of a limb, in bits.
pub const LIMB_BITS: u32 = 16;

/// The columns and the selector of the add-carry chip. Of the witness
/// columns, the first holds the value added, the second the inverse witness
/// of the high limb, the third the high limb and the fourth the low limb.
#[derive(Clone, Copy, Debug)]
pub struct AddCarryV2Config {
    pub advice: [AdviceColumn; 4],
    pub instance: InstanceColumn,
    pub selector: Selector,
}

impl AddCarryV2Config {
    /// The column of the value added.
    pub open spec fn col_a(self) -> AdviceColumn {
        self.advice[0]
    }

    /// The column of the inverse witness of the high limb.
    pub open spec fn col_b_inv(self) -> AdviceColumn {
        self.advice[1]
    }

    /// The column of the high limb.
    pub open spec fn col_b(self) -> AdviceColumn {
        self.advice[2]
    }

    /// The column of the low limb.
    pub open spec fn col_c(self) -> AdviceColumn {
        self.advice[3]
    }

    /// The sum before a step equals the sum after it:
    /// `a + b_prev * 2^16 + c_prev - (b * 2^16 + c)`.
    pub open spec fn carry_identity(self) -> Expression {
        Expression::difference_of(
            Expression::sum_of(
                Expression::sum_of(
                    Expression::query(self.col_a(), Rotation::Cur),
                    Expression::product_of(
                        Expression::query(self.col_b(), Rotation::Prev),
                        Expression::Constant(constant(0x1_0000)),
                    ),
                ),
                Expression::query(self.col_c(), Rotation::Prev),
            ),
            Expression::sum_of(
                Expression::product_of(
                    Expression::query(self.col_b(), Rotation::Cur),
                    Expression::Constant(constant(0x1_0000)),
                ),
                Expression::query(self.col_c(), Rotation::Cur),
            ),
        )
    }

    /// The high limb times the flag of its zero test:
    /// `b * (1 - b * b_inv)`.
    pub open spec fn high_limb_check(self) -> Expression {
        zero_test_poly(Expression::query(self.col_b(), Rotation::Cur), self.col_b_inv())
    }

    /// The high limb times its inverse witness: `b * b_inv`. With
    /// `high_limb_check` it leaves the high limb nothing but zero.
    pub open spec fn carry_refused(self) -> Expression {
        Expression::product_of(
            Expression::query(self.col_b(), Rotation::Cur),
            Expression::query(self.col_b_inv(), Rotation::Cur),
        )
    }

    /// The chip's gate.
    pub open spec fn gate(self) -> GateView {
        GateView {
            name: "accumulate constraint"@,
            selector: self.selector,
            polys: seq![self.carry_identity(), self.high_limb_check(), self.carry_refused()],
        }
    }

    /// The system after the chip was configured in it.
    pub open spec fn installed(self, s: System) -> System {
        s.with_equality(Column::Advice(self.col_a())).with_equality(
            Column::Advice(self.col_b_inv()),
        ).with_equality(Column::Advice(self.col_b())).with_equality(
            Column::Advice(self.col_c()),
        ).with_equality(Column::Instance(self.instance)).with_gate(self.gate())
    }

    /// Why the first row cannot be laid out, if it cannot: a limb column
    /// that is missing or given twice, a public input that is missing, or
    /// no room for the row.
    pub open spec fn first_row_fault(self, t: Trace) -> Option<Error> {
        match columns_fault(t, Component::AddCarry, seq![self.col_b(), self.col_c()]) {
            Some(e) => Some(e),
            None => if t.public(self.instance.index as int, 0) is None {
                Some(
                    Error {
                        component: Component::AddCarry,
                        kind: ErrorKind::NotAssigned,
                        column: self.instance.index,
                        row: 0,
                    },
                )
            } else if t.public(self.instance.index as int, 1) is None {
                Some(
                    Error {
                        component: Component::AddCarry,
                        kind: ErrorKind::NotAssigned,
                        column: self.instance.index,
                        row: 1,
                    },
                )
            } else if t.rows + 1 > MAX_ROWS {
                Some(
                    Error {
                        component: Component::AddCarry,
                        kind: ErrorKind::OutOfRows,
                        column: 0,
                        row: t.rows as usize,
                    },
                )
            } else {
                None
            },
        }
    }

    /// The register file after the first row: one more row, in which the two
    /// limbs hold the public inputs of rows 0 and 1 and are tied to them.
    pub open spec fn first_row(self, t: Trace) -> Trace {
        let start = t.rows as int;
        t.blank_rows(1).assign(
            self.col_b(),
            start,
            t.instance[self.instance.index as int][0],
        ).copy(advice_cell(self.col_b(), start), public_cell(self.instance, 0)).assign(
            self.col_c(),
            start,
            t.instance[self.instance.index as int][1],
        ).copy(advice_cell(self.col_c(), start), public_cell(self.instance, 1))
    }

    /// The two limbs that the first row holds, with their cells.
    pub open spec fn first_limbs(self, t: Trace) -> (CellValue, CellValue) {
        (
            CellValue::at(
                self.col_b(),
                t.rows as int,
                t.instance[self.instance.index as int][0],
            ),
            CellValue::at(
                self.col_c(),
                t.rows as int,
                t.instance[self.instance.index as int][1],
            ),
        )
    }

    /// Why a step cannot be laid out, if it cannot: a column that is missing
    /// or given twice, a selector that is missing, no value to add, a sum
    /// whose high limb would not fit sixteen bits, or no room for the two
    /// rows. The row named is the first of the step.
    pub open spec fn advice_row_fault(
        self,
        t: Trace,
        a: Option<Felt>,
        prev_b: int,
        prev_c: int,
    ) -> Option<Error> {
        match columns_fault(t, Component::AddCarry, self.advice@) {
            Some(e) => Some(e),
            None => if self.selector.index >= t.num_selectors {
                Some(
                    Error {
                        component: Component::AddCarry,
                        kind: ErrorKind::UnknownSelector,
                        column: self.selector.index,
                        row: t.rows as usize,
                    },
                )
            } else if a is None {
                Some(
                    Error {
                        component: Component::AddCarry,
                        kind: ErrorKind::NotAssigned,
                        column: self.col_a().index,
                        row: t.rows as usize,
                    },
                )
            } else if Self::step_limbs(a.unwrap()@, prev_b, prev_c).0 >= 0x1_0000 {
                Some(
                    Error {
                        component: Component::AddCarry,
                        kind: ErrorKind::Overflow,
                        column: self.col_b().index,
                        row: t.rows as usize,
                    },
                )
            } else if t.rows + 2 > MAX_ROWS {
                Some(
                    Error {
                        component: Component::AddCarry,
                        kind: ErrorKind::OutOfRows,
                        column: 0,
                        row: t.rows as usize,
                    },
                )
            } else {
                None
            },
        }
    }

    /// The limbs after a step that adds `a` to `(prev_b, prev_c)`: the
    /// quotient and the remainder of the sum by two to the power 16.
    pub open spec fn step_limbs(a: int, prev_b: int, prev_c: int) -> (int, int) {
        let sum = widened_sum(LIMB_BITS as nat, a, prev_b, prev_c);
        (sum / 0x1_0000, sum % 0x1_0000)
    }

    /// The register file after a step that adds `a` to the limbs `prev_b`
    /// and `prev_c`: two more rows, the first with the limbs carried over,
    /// tied to the cells they come from, the second with `a`, the new limbs
    /// and the inverse witness of the new high limb, under the selector.
    pub open spec fn advice_row(
        self,
        t: Trace,
        a: int,
        prev_b: CellValue,
        prev_c: CellValue,
    ) -> Trace {
        let start = t.rows as int;
        let limbs = Self::step_limbs(a, prev_b.value, prev_c.value);
        t.blank_rows(2).enable(self.selector, start + 1).assign(
            self.col_b(),
            start,
            prev_b.value,
        ).copy(advice_cell(self.col_b(), start), prev_b.cell).assign(
            self.col_c(),
            start,
            prev_c.value,
        ).copy(advice_cell(self.col_c(), start), prev_c.cell).assign(
            self.col_a(),
            start + 1,
            a,
        ).assign(self.col_b(), start + 1, limbs.0).assign(self.col_c(), start + 1, limbs.1).assign(
            self.col_b_inv(),
            start + 1,
            inverse_or_zero(limbs.0),
        )
    }
}

impl AddCarryV2Config {
    /// The columns of the chip are among `num_advice` witness columns and
    /// are pairwise different, and its selector is among `num_selectors`.
    pub open spec fn fits(self, num_advice: nat, num_selectors: nat) -> bool {
        &&& forall|i: int| 0 <= i < 4 ==> (#[trigger] self.advice[i]).index < num_advice
        &&& forall|i: int, j: int| 0 <= i < j < 4 ==> self.advice[i] != self.advice[j]
        &&& self.selector.index < num_selectors
    }

    /// Gate `g` of the system is the chip's gate.
    pub open spec fn installed_in(self, s: System, g: int) -> bool {
        0 <= g < s.gates.len() && s.gates[g] == self.gate()
    }

    /// The chip's gate is among the gates of the system.
    pub open spec fn installed_somewhere(self, s: System) -> bool {
        exists|g: int| #[trigger] self.installed_in(s, g)
    }

    /// Every gate under the selector of the chip is the chip's gate,
    /// and no lookup is under it.
    pub open spec fn governs(self, s: System) -> bool {
        &&& forall|g: int|
            0 <= g < s.gates.len() && (#[trigger] s.gates[g]).selector == self.selector
                ==> s.gates[g].polys == self.gate().polys
        &&& forall|l: int|
            0 <= l < s.lookups.len() ==> (#[trigger] s.lookups[l]).selector != self.selector
    }
}

/// A chip configured under a selector that nothing else uses governs the
/// rows where that selector is enabled.
pub proof fn lemma_installed_governs(config: AddCarryV2Config, s: System)
    requires
        forall|g: int|
            0 <= g < s.gates.len() ==> (#[trigger] s.gates[g]).selector != config.selector,
        forall|l: int|
            0 <= l < s.lookups.len() ==> (#[trigger] s.lookups[l]).selector != config.selector,
    ensures
        config.governs(config.installed(s)),
        config.installed_in(config.installed(s), s.gates.len() as int),
{
    let u = config.installed(s);
    assert forall|g: int|
        0 <= g < u.gates.len() && (#[trigger] u.gates[g]).selector
            == config.selector implies u.gates[g].polys == config.gate().polys by {
        if g < s.gates.len() {
            assert(u.gates[g] == s.gates[g]);
        }
    }
    assert forall|l: int| 0 <= l < u.lookups.len() implies (#[trigger] u.lookups[l]).selector
        != config.selector by {
        assert(u.lookups[l] == s.lookups[l]);
    }
}

/// What the three polynomials of its gate come to on a row whose cells, and
/// those of the row before, hold the values named.
pub proof fn lemma_gate_eval(
    config: AddCarryV2Config,
    cells: Map<(int, int), int>,
    row: int,
    a: int,
    prev_b: int,
    prev_c: int,
    b: int,
    c: int,
    b_inv: int,
)
    requires
        cell_at(cells, config.col_a().index as int, row) == Some(a),
        cell_at(cells, config.col_b().index as int, row - 1) == Some(prev_b),
        cell_at(cells, config.col_c().index as int, row - 1) == Some(prev_c),
        cell_at(cells, config.col_b().index as int, row) == Some(b),
        cell_at(cells, config.col_c().index as int, row) == Some(c),
        cell_at(cells, config.col_b_inv().index as int, row) == Some(b_inv),
    ensures
        config.carry_identity().eval(cells, row) == Some(
            fsub(fadd(fadd(a, fmul(prev_b, 0x1_0000)), prev_c), fadd(fmul(b, 0x1_0000), c)),
        ),
        config.high_limb_check().eval(cells, row) == Some(fmul(b, flag_of(b, b_inv))),
        config.carry_refused().eval(cells, row) == Some(fmul(b, b_inv)),
{
    reveal_with_fuel(Expression::eval, 6);
    lemma_constant_value(0x1_0000);
    lemma_add_negation(
        fadd(fadd(a, fmul(prev_b, 0x1_0000)), prev_c),
        fadd(fmul(b, 0x1_0000), c),
    );
    lemma_flag_expression_eval(
        Expression::query(config.col_b(), Rotation::Cur),
        config.col_b_inv(),
        cells,
        row,
    );
}

/// The limbs of a step whose high limb comes to zero, with zero as the
/// inverse witness, make all three polynomials of its gate vanish.
pub proof fn lemma_step_vanishes(a: int, prev_b: int, prev_c: int)
    requires
        AddCarryV2Config::step_limbs(a, prev_b, prev_c).0 == 0,
    ensures
        ({
            let limbs = AddCarryV2Config::step_limbs(a, prev_b, prev_c);
            &&& fsub(
                fadd(fadd(a, fmul(prev_b, 0x1_0000)), prev_c),
                fadd(fmul(limbs.0, 0x1_0000), limbs.1),
            ) == 0
            &&& fmul(0, flag_of(0, 0)) == 0
            &&& fmul(0, 0) == 0
            &&& 0 <= limbs.1 < modulus()
        }),
{
    lemma2_to64();
    let sum = widened_sum(LIMB_BITS as nat, a, prev_b, prev_c);
    let c = sum % 0x1_0000;
    assert(0 <= sum < modulus());
    assert(c == sum);
    assert(fmul(0, 0x1_0000) == 0);
    assert(0 * flag_of(0, 0) == 0);
    assert(0 * 0 == 0);
}

/// With a high limb other than zero, no inverse witness makes both
/// polynomials that watch the high limb vanish.
pub proof fn lemma_high_limb_refused(b: int, b_inv: int)
    requires
        0 < b < modulus(),
    ensures
        !(fmul(b, flag_of(b, b_inv)) == 0 && fmul(b, b_inv) == 0),
{
    if fmul(b, b_inv) == 0 {
        assert(flag_of(b, b_inv) == 1);
        assert(b * 1 == b);
    }
}

/// A register file in which the high limb is not zero on a row where the
/// selector is enabled violates the chip's gate, whatever stands beside the
/// high limb as its inverse witness.
pub proof fn lemma_carry_unsatisfiable(
    config: AddCarryV2Config,
    s: System,
    t: Trace,
    row: int,
    g: int,
)
    requires
        config.installed_in(s, g),
        0 <= row < t.rows,
        t.selected(config.selector, row),
        t.advice(config.col_b().index as int, row) is Some,
        0 < t.advice(config.col_b().index as int, row).unwrap() < modulus(),
    ensures
        !gates_hold(s, t),
        !satisfied(s, t),
{
    let b = t.advice(config.col_b().index as int, row).unwrap();
    reveal_with_fuel(Expression::eval, 3);
    match t.advice(config.col_b_inv().index as int, row) {
        Some(b_inv) => {
            lemma_flag_expression_eval(
                Expression::query(config.col_b(), Rotation::Cur),
                config.col_b_inv(),
                t.cells,
                row,
            );
            lemma_high_limb_refused(b, b_inv);
            assert(!(constraint_holds(s, t, g, row, 1) && constraint_holds(s, t, g, row, 2)));
        },
        None => {
            assert(!constraint_holds(s, t, g, row, 2));
        },
    }
    assert(gate_position(s, t, g, row, 1));
    assert(gate_position(s, t, g, row, 2));
}

/// A step continues the register file it is laid out on.
pub proof fn lemma_advice_row_extends(
    config: AddCarryV2Config,
    t: Trace,
    a: int,
    prev_b: CellValue,
    prev_c: CellValue,
)
    ensures
        extends(t, config.advice_row(t, a, prev_b, prev_c)),
{
}

/// A step whose new high limb is not zero leaves a register file that
/// violates the chip's gate.
pub proof fn lemma_carrying_step_unsatisfiable(
    config: AddCarryV2Config,
    s: System,
    t: Trace,
    a: Felt,
    prev_b: CellValue,
    prev_c: CellValue,
    g: int,
)
    requires
        config.installed_in(s, g),
        config.advice_row_fault(t, Some(a), prev_b.value, prev_c.value) is None,
        AddCarryV2Config::step_limbs(a@, prev_b.value, prev_c.value).0 != 0,
    ensures
        !gates_hold(s, config.advice_row(t, a@, prev_b, prev_c)),
        !satisfied(s, config.advice_row(t, a@, prev_b, prev_c)),
{
    let u = config.advice_row(t, a@, prev_b, prev_c);
    let start = t.rows as int;
    let limbs = AddCarryV2Config::step_limbs(a@, prev_b.value, prev_c.value);
    let columns = config.advice@;
    lemma2_to64();
    lemma_columns_fit(t, Component::AddCarry, columns);
    assert(columns[0] != columns[1] && columns[0] != columns[2] && columns[0] != columns[3]
        && columns[1] != columns[2] && columns[1] != columns[3] && columns[2] != columns[3]);
    assert(0 < limbs.0 < 0x1_0000);
    assert(u.advice(config.col_b().index as int, start + 1) == Some(limbs.0));
    lemma_carry_unsatisfiable(config, s, u, start + 1, g);
}

/// The first row keeps a satisfied register file satisfied.
pub proof fn lemma_first_row_satisfied(config: AddCarryV2Config, s: System, t: Trace)
    requires
        t.wf(),
        satisfied(s, t),
        config.first_row_fault(t) is None,
    ensures
        config.first_row(t).wf(),
        satisfied(s, config.first_row(t)),
        config.first_row(t).value(config.first_limbs(t).0.cell) == Some(
            config.first_limbs(t).0.value,
        ),
        config.first_row(t).value(config.first_limbs(t).1.cell) == Some(
            config.first_limbs(t).1.value,
        ),
{
    let u = config.first_row(t);
    let start = t.rows as int;
    let columns = seq![config.col_b(), config.col_c()];
    lemma_columns_fit(t, Component::AddCarry, columns);
    assert(columns[0] != columns[1]);
    assert(columns[0].index < t.num_advice && columns[1].index < t.num_advice);
    assert(extends(t, u));
    lemma_extension(s, t, u);
    assert forall|g: int, row: int, k: int| gate_position(s, u, g, row, k) implies
        #[trigger] constraint_holds(s, u, g, row, k) by {
        if row < t.rows {
            assert(gate_position(s, t, g, row, k));
        }
    }
    assert forall|l: int, row: int, k: int| lookup_position(s, u, l, row, k) implies
        #[trigger] input_holds(s, u, l, row, k) by {
        if row < t.rows {
            assert(lookup_position(s, t, l, row, k));
        }
    }
    assert forall|i: int| 0 <= i < u.copies.len() implies #[trigger] copy_holds(u, i) by {
        if i >= t.copies.len() {
            assert(u.copies[i].0.row == start);
        }
    }
}

/// A step whose new high limb is zero keeps a satisfied register file
/// satisfied, if the chip governs its selector and the limbs carried over
/// are what their cells hold.
pub proof fn lemma_advice_row_satisfied(
    config: AddCarryV2Config,
    s: System,
    t: Trace,
    a: Felt,
    prev_b: CellValue,
    prev_c: CellValue,
)
    requires
        t.wf(),
        satisfied(s, t),
        config.governs(s),
        config.advice_row_fault(t, Some(a), prev_b.value, prev_c.value) is None,
        t.value(prev_b.cell) == Some(prev_b.value),
        t.value(prev_c.cell) == Some(prev_c.value),
        AddCarryV2Config::step_limbs(a@, prev_b.value, prev_c.value).0 == 0,
    ensures
        config.advice_row(t, a@, prev_b, prev_c).wf(),
        satisfied(s, config.advice_row(t, a@, prev_b, prev_c)),
        config.advice_row(t, a@, prev_b, prev_c).advice(
            config.col_b().index as int,
            t.rows as int + 1,
        ) == Some(AddCarryV2Config::step_limbs(a@, prev_b.value, prev_c.value).0),
        config.advice_row(t, a@, prev_b, prev_c).advice(
            config.col_c().index as int,
            t.rows as int + 1,
        ) == Some(AddCarryV2Config::step_limbs(a@, prev_b.value, prev_c.value).1),
{
    let u = config.advice_row(t, a@, prev_b, prev_c);
    let start = t.rows as int;
    let limbs = AddCarryV2Config::step_limbs(a@, prev_b.value, prev_c.value);
    let inv = inverse_or_zero(limbs.0);
    let columns = config.advice@;
    lemma_columns_fit(t, Component::AddCarry, columns);
    assert(columns[0] != columns[1] && columns[0] != columns[2] && columns[0] != columns[3]
        && columns[1] != columns[2] && columns[1] != columns[3] && columns[2] != columns[3]);
    assert(columns[0].index < t.num_advice && columns[1].index < t.num_advice && columns[2].index
        < t.num_advice && columns[3].index < t.num_advice);
    lemma_residue(a);
    lemma_held_residue(t, prev_b.cell);
    lemma_held_residue(t, prev_c.cell);
    lemma_step_vanishes(a@, prev_b.value, prev_c.value);
    assert(inv == 0);
    assert(extends(t, u));
    lemma_extension(s, t, u);
    lemma_gate_eval(
        config,
        u.cells,
        start + 1,
        a@,
        prev_b.value,
        prev_c.value,
        limbs.0,
        limbs.1,
        inv,
    );
    assert forall|g: int, row: int, k: int| gate_position(s, u, g, row, k) implies
        #[trigger] constraint_holds(s, u, g, row, k) by {
        if row < t.rows {
            assert(gate_position(s, t, g, row, k));
        } else if u.selected(s.gates[g].selector, row) {
            assert(row == start + 1);
            assert(s.gates[g].selector == config.selector);
            assert(s.gates[g].polys == config.gate().polys);
        }
    }
    assert forall|l: int, row: int, k: int| lookup_position(s, u, l, row, k) implies
        #[trigger] input_holds(s, u, l, row, k) by {
        if row < t.rows {
            assert(lookup_position(s, t, l, row, k));
        } else if u.selected(s.lookups[l].selector, row) {
            assert(s.lookups[l].selector == config.selector);
        }
    }
    assert forall|i: int| 0 <= i < u.copies.len() implies #[trigger] copy_holds(u, i) by {
        if i >= t.copies.len() {
            lemma_value_kept(t, u, prev_b.cell);
            lemma_value_kept(t, u, prev_c.cell);
            assert(u.copies[i].0.row == start);
        }
    }
}

/// The add-carry chip.
#[derive(Clone, Copy, Debug)]
pub struct AddCarryV2Chip {
    config: AddCarryV2Config,
}

impl AddCarryV2Chip {
    /// What the chip was constructed with.
    pub closed spec fn config(&self) -> AddCarryV2Config {
        self.config
    }

    /// The chip for a configuration.
    pub fn construct(config: AddCarryV2Config) -> (r: AddCarryV2Chip)
        ensures
            r.config() == config,
    {
        AddCarryV2Chip { config }
    }

    /// The limbs after a step that adds `a` to the limbs `prev_b` and
    /// `prev_c`: the high limb, then the low one. Nothing if the high limb
    /// would not fit sixteen bits.
    pub fn next_limbs(a: &Felt, prev_b: &Felt, prev_c: &Felt) -> (r: Option<(Felt, Felt)>)
        ensures
            r is Some <==> AddCarryV2Config::step_limbs(a@, prev_b@, prev_c@).0 < 0x1_0000,
            r matches Some(limbs) ==> limbs.0@ == AddCarryV2Config::step_limbs(
                a@,
                prev_b@,
                prev_c@,
            ).0 && limbs.1@ == AddCarryV2Config::step_limbs(a@, prev_b@, prev_c@).1,
    {
        proof {
            lemma2_to64();
        }
        let (hi, lo) = add_carry(LIMB_BITS, a, prev_b, prev_c);
        if hi.less_than(&Felt::from_u64(0x1_0000)) {
            Some((hi, lo))
        } else {
            None
        }
    }

    /// Lets the four witness columns and the public column take part in copy
    /// constraints, and registers the chip's gate under the selector: the
    /// sum before a step equals the sum after it, and the new high limb is
    /// zero.
    pub fn configure(
        meta: &mut ConstraintSystem,
        advice: [AdviceColumn; 4],
        selector: Selector,
        instance: InstanceColumn,
    ) -> (r: AddCarryV2Config)
        ensures
            r.advice == advice,
            r.selector == selector,
            r.instance == instance,
            final(meta)@ == r.installed(old(meta)@),
    {
        let col_a = advice[0];
        let col_b_inv = advice[1];
        let col_b = advice[2];
        let col_c = advice[3];
        let config = AddCarryV2Config { advice, instance, selector };

        meta.enable_equality(Column::Advice(col_a));
        meta.enable_equality(Column::Advice(col_b_inv));
        meta.enable_equality(Column::Advice(col_b));
        meta.enable_equality(Column::Advice(col_c));
        meta.enable_equality(Column::Instance(instance));

        let before = Expression::advice(col_a, Rotation::Cur).plus(
            Expression::advice(col_b, Rotation::Prev).times(
                Expression::constant(Felt::from_u64(0x1_0000)),
            ),
        ).plus(Expression::advice(col_c, Rotation::Prev));
        let after = Expression::advice(col_b, Rotation::Cur).times(
            Expression::constant(Felt::from_u64(0x1_0000)),
        ).plus(Expression::advice(col_c, Rotation::Cur));
        let check = Expression::advice(col_b, Rotation::Cur).times(
            Expression::constant(Felt::one()).minus(
                Expression::advice(col_b, Rotation::Cur).times(
                    Expression::advice(col_b_inv, Rotation::Cur),
                ),
            ),
        );
        let mut polys: Vec<Expression> = Vec::new();
        polys.push(before.minus(after));
        polys.push(check);
        polys.push(
            Expression::advice(col_b, Rotation::Cur).times(
                Expression::advice(col_b_inv, Rotation::Cur),
            ),
        );
        assert(polys@ =~= config.gate().polys);
        meta.create_gate("accumulate constraint", selector, polys);
        config
    }

    /// Lays out the first row: the two limbs take the public inputs of rows
    /// 0 and 1. Fails, changing nothing, as `first_row_fault` says.
    pub fn assign_first_row(&self, layouter: &mut Layouter) -> (r: Result<
        (AssignedCell, AssignedCell),
        Error,
    >)
        requires
            old(layouter).wf(),
        ensures
            final(layouter).wf(),
            match r {
                Ok((b, c)) => {
                    let t = old(layouter)@;
                    &&& self.config().first_row_fault(t) is None
                    &&& final(layouter)@ == self.config().first_row(t)
                    &&& b@ == self.config().first_limbs(t).0
                    &&& c@ == self.config().first_limbs(t).1
                },
                Err(e) => self.config().first_row_fault(old(layouter)@) == Some(e)
                    && *final(layouter) == *old(layouter),
            },
    {
        let col_b = self.config.advice[2];
        let col_c = self.config.advice[3];
        let instance = self.config.instance;
        let ghost t = layouter@;
        proof {
            layouter.lemma_view_wf();
        }
        let mut columns: Vec<AdviceColumn> = Vec::new();
        columns.push(col_b);
        columns.push(col_c);
        assert(columns@ =~= seq![col_b, col_c]);
        if let Some(e) = layouter.check_columns(Component::AddCarry, &columns) {
            return Err(e);
        }
        proof {
            lemma_columns_fit(t, Component::AddCarry, columns@);
            assert(columns@[0] != columns@[1]);
        }
        let b0 = match layouter.public(instance, 0) {
            Some(v) => v,
            None => {
                return Err(
                    Error {
                        component: Component::AddCarry,
                        kind: ErrorKind::NotAssigned,
                        column: instance.index,
                        row: 0,
                    },
                );
            },
        };
        let c0 = match layouter.public(instance, 1) {
            Some(v) => v,
            None => {
                return Err(
                    Error {
                        component: Component::AddCarry,
                        kind: ErrorKind::NotAssigned,
                        column: instance.index,
                        row: 1,
                    },
                );
            },
        };
        let rows = layouter.rows();
        let start = match layouter.begin_region(1) {
            Ok(start) => start,
            Err(_) => {
                return Err(
                    Error {
                        component: Component::AddCarry,
                        kind: ErrorKind::OutOfRows,
                        column: 0,
                        row: rows,
                    },
                );
            },
        };
        let b_cell = match layouter.assign_advice(col_b, start, b0) {
            Ok(cell) => cell,
            Err(e) => {
                return Err(e);
            },
        };
        layouter.constrain_equal(b_cell.cell, Cell { column: Column::Instance(instance), row: 0 });
        let c_cell = match layouter.assign_advice(col_c, start, c0) {
            Ok(cell) => cell,
            Err(e) => {
                return Err(e);
            },
        };
        layouter.constrain_equal(c_cell.cell, Cell { column: Column::Instance(instance), row: 1 });
        Ok((b_cell, c_cell))
    }

    /// Lays out one step: adds `a` to the number that the limbs `prev_b` and
    /// `prev_c` stand for, and splits the sum into the new limbs, which are
    /// returned. Fails, changing nothing, as `advice_row_fault` says; among
    /// the faults is a sum that two limbs of sixteen bits cannot hold.
    pub fn assign_advice_row(
        &self,
        layouter: &mut Layouter,
        a: Option<Felt>,
        prev_b: AssignedCell,
        prev_c: AssignedCell,
    ) -> (r: Result<(AssignedCell, AssignedCell), Error>)
        requires
            old(layouter).wf(),
        ensures
            final(layouter).wf(),
            match r {
                Ok((b, c)) => {
                    let t = old(layouter)@;
                    let limbs = AddCarryV2Config::step_limbs(
                        a.unwrap()@,
                        prev_b.value@,
                        prev_c.value@,
                    );
                    &&& self.config().advice_row_fault(t, a, prev_b.value@, prev_c.value@)
                        is None
                    &&& inverse_witness(limbs.0, inverse_or_zero(limbs.0))
                    &&& final(layouter)@ == self.config().advice_row(
                        t,
                        a.unwrap()@,
                        prev_b@,
                        prev_c@,
                    )
                    &&& b@ == CellValue::at(self.config().col_b(), t.rows as int + 1, limbs.0)
                    &&& c@ == CellValue::at(self.config().col_c(), t.rows as int + 1, limbs.1)
                },
                Err(e) => self.config().advice_row_fault(
                    old(layouter)@,
                    a,
                    prev_b.value@,
                    prev_c.value@,
                ) == Some(e) && *final(layouter) == *old(layouter),
            },
    {
        let col_a = self.config.advice[0];
        let col_b_inv = self.config.advice[1];
        let col_b = self.config.advice[2];
        let col_c = self.config.advice[3];
        let selector = self.config.selector;
        let ghost t = layouter@;
        proof {
            layouter.lemma_view_wf();
            lemma2_to64();
        }
        let mut columns: Vec<AdviceColumn> = Vec::new();
        columns.push(col_a);
        columns.push(col_b_inv);
        columns.push(col_b);
        columns.push(col_c);
        assert(columns@ =~= self.config.advice@);
        if let Some(e) = layouter.check_columns(Component::AddCarry, &columns) {
            return Err(e);
        }
        proof {
            lemma_columns_fit(t, Component::AddCarry, columns@);
            assert(columns@[0] != columns@[1] && columns@[0] != columns@[2] && columns@[0]
                != columns@[3] && columns@[1] != columns@[2] && columns@[1] != columns@[3]
                && columns@[2] != columns@[3]);
            assert(columns@[0].index < t.num_advice && columns@[1].index < t.num_advice
                && columns@[2].index < t.num_advice && columns@[3].index < t.num_advice);
        }
        let rows = layouter.rows();
        if selector.index >= layouter.num_selectors() {
            return Err(
                Error {
                    component: Component::AddCarry,
                    kind: ErrorKind::UnknownSelector,
                    column: selector.index,
                    row: rows,
                },
            );
        }
        let value = match a {
            Some(v) => v,
            None => {
                return Err(
                    Error {
                        component: Component::AddCarry,
                        kind: ErrorKind::NotAssigned,
                        column: col_a.index,
                        row: rows,
                    },
                );
            },
        };
        let (hi, lo) = match AddCarryV2Chip::next_limbs(&value, &prev_b.value, &prev_c.value) {
            Some(limbs) => limbs,
            None => {
                return Err(
                    Error {
                        component: Component::AddCarry,
                        kind: ErrorKind::Overflow,
                        column: col_b.index,
                        row: rows,
                    },
                );
            },
        };
        let start = match layouter.begin_region(2) {
            Ok(start) => start,
            Err(_) => {
                return Err(
                    Error {
                        component: Component::AddCarry,
                        kind: ErrorKind::OutOfRows,
                        column: 0,
                        row: rows,
                    },
                );
            },
        };
        match layouter.enable_selector(selector, start + 1) {
            Ok(()) => {},
            Err(e) => {
                return Err(e);
            },
        }
        match layouter.assign_advice(col_b, start, prev_b.value) {
            Ok(cell) => {
                layouter.constrain_equal(cell.cell, prev_b.cell);
            },
            Err(e) => {
                return Err(e);
            },
        }
        match layouter.assign_advice(col_c, start, prev_c.value) {
            Ok(cell) => {
                layouter.constrain_equal(cell.cell, prev_c.cell);
            },
            Err(e) => {
                return Err(e);
            },
        }
        match layouter.assign_advice(col_a, start + 1, value) {
            Ok(_) => {},
            Err(e) => {
                return Err(e);
            },
        }
        let b_cell = match layouter.assign_advice(col_b, start + 1, hi) {
            Ok(cell) => cell,
            Err(e) => {
                return Err(e);
            },
        };
        let c_cell = match layouter.assign_advice(col_c, start + 1, lo) {
            Ok(cell) => cell,
            Err(e) => {
                return Err(e);
            },
        };
        let b_inv = hi.inverse_or_zero();
        match layouter.assign_advice(col_b_inv, start + 1, b_inv) {
            Ok(_) => {},
            Err(e) => {
                return Err(e);
            },
        }
        Ok((b_cell, c_cell))
    }

    /// Ties a cell to the public input at `row`. Fails, changing nothing, if
    /// there is no public input at that row.
    pub fn expose_public(&self, layouter: &mut Layouter, cell: &AssignedCell, row: usize) -> (r:
        Result<(), Error>)
        requires
            old(layouter).wf(),
        ensures
            final(layouter).wf(),
            r is Ok <==> old(layouter)@.public(self.config().instance.index as int, row as int)
                is Some,
            r is Ok ==> final(layouter)@ == old(layouter)@.copy(
                cell.cell,
                public_cell(self.config().instance, row as int),
            ),
            r matches Err(e) ==> *final(layouter) == *old(layouter) && e == (Error {
                component: Component::AddCarry,
                kind: ErrorKind::NotAssigned,
                column: self.config().instance.index,
                row: row,
            }),
    {
        let instance = self.config.instance;
        if layouter.public(instance, row).is_none() {
            return Err(
                Error {
                    component: Component::AddCarry,
                    kind: ErrorKind::NotAssigned,
                    column: instance.index,
                    row,
                },
            );
        }
        layouter.constrain_equal(cell.cell, Cell { column: Column::Instance(instance), row });
        Ok(())
    }
}

} // verus!
