//! A pass of the carry-cascade chip over a sequence of values.

use crate::chips::overflow_check::{
    lemma_advice_row_extends, lemma_advice_row_satisfied, lemma_first_row_satisfied,
    lemma_installed_governs, lemma_overflowing_step_unsatisfiable, step_limbs,
    OverFlowCheckConfig, OverFlowChip,
};
use crate::chips::utils::widened_sum;
use crate::circuit::{ConstraintSystem, Description, System};
use crate::circuits::add_carry_v2::{lemma_total_bounds, total};
use crate::dev::{
    extends, first_failure, gates_hold, lemma_copy_satisfied, lemma_held_residue,
    lemma_violation_stays, satisfied, verify, Failure,
};
use crate::field::{fmul, lemma_residue, modulus, Felt};
use crate::layouter::{
    column_values, lemma_columns_fine, public_cell, AssignedCell, CellValue, Component, Error,
    ErrorKind, Layouter, Trace, MAX_ROWS,
};
use vstd::arithmetic::power2::lemma2_to64;
use vstd::prelude::*;

verus! {

/// How far a pass has come: the register file, the limbs of the running sum
/// with their cells, and the fault that stopped the pass, if one did.
pub struct Pass {
    pub trace: Trace,
    pub fault: Option<Error>,
    pub b: CellValue,
    pub c: CellValue,
    pub d: CellValue,
}

/// The pass after one more step, which adds `value`. A step that cannot be
/// laid out stops the pass where it is.
pub open spec fn stepped(config: OverFlowCheckConfig, before: Pass, value: Option<Felt>) -> Pass {
    match config.advice_row_fault(
        before.trace,
        value,
        before.b.value,
        before.c.value,
        before.d.value,
    ) {
        Some(e) => Pass { fault: Some(e), ..before },
        None => {
            let a = value.unwrap()@;
            let limbs = step_limbs(a, before.b.value, before.c.value, before.d.value);
            Pass {
                trace: config.advice_row(before.trace, a, before.b, before.c, before.d),
                fault: None,
                b: CellValue::at(config.col_b(), before.trace.rows as int + 1, limbs.0),
                c: CellValue::at(config.col_c(), before.trace.rows as int + 1, limbs.1),
                d: CellValue::at(config.col_d(), before.trace.rows as int + 1, limbs.2),
            }
        },
    }
}

/// The pass after one step for each value, in order, from `start` on. A
/// pass that was stopped stays where it is.
pub open spec fn accumulated(
    config: OverFlowCheckConfig,
    start: Pass,
    values: Seq<Option<Felt>>,
) -> Pass
    decreases values.len(),
{
    if values.len() == 0 {
        start
    } else {
        let before = accumulated(config, start, values.drop_last());
        if before.fault is Some {
            before
        } else {
            stepped(config, before, values.last())
        }
    }
}

/// A pass with the cell `held` tied to the public input at `row`; a public
/// input that is missing stops the pass.
pub open spec fn exposed(
    config: OverFlowCheckConfig,
    pass: Pass,
    held: CellValue,
    row: usize,
) -> Pass {
    if pass.fault is Some {
        pass
    } else if pass.trace.public(config.instance.index as int, row as int) is None {
        Pass {
            fault: Some(
                Error {
                    component: Component::CarryCascade,
                    kind: ErrorKind::NotAssigned,
                    column: config.instance.index,
                    row: row,
                },
            ),
            ..pass
        }
    } else {
        Pass {
            trace: pass.trace.copy(held.cell, public_cell(config.instance, row as int)),
            ..pass
        }
    }
}

/// A pass that stopped within the first `n` values is the pass over all.
pub proof fn lemma_accumulated_stops(
    config: OverFlowCheckConfig,
    start: Pass,
    values: Seq<Option<Felt>>,
    n: int,
)
    requires
        0 <= n <= values.len(),
        accumulated(config, start, values.take(n)).fault is Some,
    ensures
        accumulated(config, start, values) == accumulated(config, start, values.take(n)),
    decreases values.len() - n,
{
    if n < values.len() {
        assert(values.take(n + 1).drop_last() =~= values.take(n));
        lemma_accumulated_stops(config, start, values, n + 1);
    } else {
        assert(values.take(n) =~= values);
    }
}

/// Steps leave the public inputs as they are.
pub proof fn lemma_instance_kept(
    config: OverFlowCheckConfig,
    start: Pass,
    values: Seq<Option<Felt>>,
)
    ensures
        accumulated(config, start, values).trace.instance == start.trace.instance,
    decreases values.len(),
{
    if values.len() > 0 {
        lemma_instance_kept(config, start, values.drop_last());
    }
}

/// The values to accumulate, and the rows of the public inputs that the
/// final `b`, `c` and `d` are tied to.
#[derive(Debug)]
pub struct OverflowCheckCircuit {
    pub values: Vec<Option<Felt>>,
    pub b_row: usize,
    pub c_row: usize,
    pub d_row: usize,
}

impl OverflowCheckCircuit {
    /// The pass at its start on a register file `t`: after the first row.
    pub open spec fn started(config: OverFlowCheckConfig, t: Trace) -> Pass {
        Pass {
            trace: config.first_row(t),
            fault: None,
            b: config.first_limbs(t).0,
            c: config.first_limbs(t).1,
            d: config.first_limbs(t).2,
        }
    }

    /// The whole pass on a register file `t`: the first row, one step for
    /// each value, and the final limbs tied to their public inputs.
    pub open spec fn synthesized(self, config: OverFlowCheckConfig, t: Trace) -> Pass {
        match config.first_row_fault(t) {
            Some(e) => Pass { trace: t, fault: Some(e), ..Self::started(config, t) },
            None => {
                let steps = accumulated(config, Self::started(config, t), self.values@);
                exposed(
                    config,
                    exposed(
                        config,
                        exposed(config, steps, steps.b, self.b_row),
                        steps.c,
                        self.c_row,
                    ),
                    steps.d,
                    self.d_row,
                )
            },
        }
    }

    /// Five witness columns, two selectors and a public column for the
    /// chip, and the chip configured in them.
    pub fn configure(meta: &mut ConstraintSystem) -> (r: OverFlowCheckConfig)
        requires
            old(meta)@.num_advice + 5 <= usize::MAX,
            old(meta)@.num_selectors + 2 <= usize::MAX,
            old(meta)@.num_instance < usize::MAX,
        ensures
            r.wf(),
            forall|i: int|
                0 <= i < 5 ==> (#[trigger] r.advice[i]).index == old(meta)@.num_advice + i,
            forall|i: int|
                0 <= i < 2 ==> (#[trigger] r.selector[i]).index == old(meta)@.num_selectors + i,
            r.instance.index == old(meta)@.num_instance,
            final(meta)@ == r.installed(
                System {
                    num_advice: old(meta)@.num_advice + 5,
                    num_selectors: old(meta)@.num_selectors + 2,
                    num_instance: old(meta)@.num_instance + 1,
                    ..old(meta)@
                },
            ),
            old(meta)@.numbered() ==> r.governs(final(meta)@) && final(meta)@.numbered()
                && r.watched_in(
                final(meta)@,
                old(meta)@.gates.len() as int,
                old(meta)@.gates.len() as int + 2,
            ),
            r.fits(final(meta)@.num_advice, final(meta)@.num_selectors),
            old(meta)@.numbered() ==> r.watched(final(meta)@),
    {
        let col_a = meta.advice_column();
        let col_b_inv = meta.advice_column();
        let col_b = meta.advice_column();
        let col_c = meta.advice_column();
        let col_d = meta.advice_column();
        let add_carry_selector = meta.selector();
        let overflow_check_selector = meta.selector();
        let instance = meta.instance_column();
        let ghost before = meta@;
        let config = OverFlowChip::configure(
            meta,
            [col_a, col_b_inv, col_b, col_c, col_d],
            [add_carry_selector, overflow_check_selector],
            instance,
        );
        proof {
            if old(meta)@.numbered() {
                assert forall|g: int| 0 <= g < before.gates.len() implies
                    (#[trigger] before.gates[g]).selector
                    != config.add_carry_selector() && before.gates[g].selector
                    != config.overflow_check_selector() by {
                    assert(before.gates[g] == old(meta)@.gates[g]);
                }
                assert forall|l: int| 0 <= l < before.lookups.len() implies
                    (#[trigger] before.lookups[l]).selector
                    != config.add_carry_selector() && before.lookups[l].selector
                    != config.overflow_check_selector() by {
                    assert(before.lookups[l] == old(meta)@.lookups[l]);
                }
                lemma_installed_governs(config, before);
                let after = meta@;
                assert forall|g: int| 0 <= g < after.gates.len() implies
                    (#[trigger] after.gates[g]).selector.index
                    < after.num_selectors by {
                    if g < before.gates.len() {
                        assert(after.gates[g] == old(meta)@.gates[g]);
                    }
                }
                assert forall|l: int| 0 <= l < after.lookups.len() implies
                    (#[trigger] after.lookups[l]).selector.index
                    < after.num_selectors by {
                    assert(after.lookups[l] == old(meta)@.lookups[l]);
                }
            }
        }
        config
    }

    /// The values are all given and, added to what the initial low limbs
    /// stand for, stay below two to the power 32; the initial `b` is zero;
    /// the public inputs that the final limbs are tied to are those limbs;
    /// and there is room for the rows.
    pub open spec fn within_width(self, config: OverFlowCheckConfig, t: Trace) -> bool {
        let column = config.instance.index as int;
        &&& t.public(column, 0) == Some(0int)
        &&& t.public(column, 1) is Some
        &&& t.public(column, 2) is Some
        &&& forall|i: int| 0 <= i < self.values@.len() ==> (#[trigger] self.values@[i]) is Some
        &&& t.public(column, 1).unwrap() * 0x1_0000 + t.public(column, 2).unwrap() + total(
            self.values@,
        ) < 0x1_0000_0000
        &&& t.public(column, self.b_row as int) == Some(0int)
        &&& t.public(column, self.c_row as int) == Some(self.synthesized(config, t).c.value)
        &&& t.public(column, self.d_row as int) == Some(self.synthesized(config, t).d.value)
        &&& t.rows + 1 + 2 * self.values@.len() <= MAX_ROWS
    }

    /// The initial `b` is zero, the initial low limbs stand for a number
    /// below two to the power 32, and that number and the values add up to
    /// two to the power 32 or more, yet stay below the field characteristic.
    pub open spec fn beyond_width(self, config: OverFlowCheckConfig, t: Trace) -> bool {
        let column = config.instance.index as int;
        let initial = t.public(column, 1).unwrap() * 0x1_0000 + t.public(column, 2).unwrap();
        &&& t.public(column, 0) == Some(0int)
        &&& initial < 0x1_0000_0000
        &&& initial + total(self.values@) >= 0x1_0000_0000
        &&& initial + total(self.values@) < modulus()
    }

    /// Lays the pass out on a register file of its own, with the public
    /// inputs given, and checks it against the description. On a
    /// description in which the chip governs its selectors, a pass within
    /// the tracked width always passes if the chip fits, and a pass that
    /// goes beyond the tracked width never does.
    pub fn run(
        &self,
        description: &Description,
        config: OverFlowCheckConfig,
        instance: Vec<Vec<Felt>>,
    ) -> (r: Result<Layouter, Failure>)
        ensures
            ({
                let start = Trace::start(description@, column_values(instance@));
                let pass = self.synthesized(config, start);
                &&& match r {
                    Ok(layouter) => layouter.wf() && layouter@ == pass.trace && pass.fault is None
                        && satisfied(description@, pass.trace),
                    Err(Failure::Layout(e)) => pass.fault == Some(e),
                    Err(Failure::Constraint(f)) => pass.fault is None && first_failure(
                        description@,
                        pass.trace,
                        f,
                    ),
                }
                &&& config.governs(description@) && config.fits(
                    description@.num_advice,
                    description@.num_selectors,
                ) && self.within_width(config, start) ==> r is Ok
                &&& config.governs(description@) && config.watched(description@)
                    && self.beyond_width(config, start) ==> r is Err
            }),
    {
        let mut layouter = Layouter::new(description, instance);
        let ghost start = layouter@;
        proof {
            layouter.lemma_view_wf();
            assert(satisfied(description@, start));
            if config.governs(description@) && config.fits(
                description@.num_advice,
                description@.num_selectors,
            ) && self.within_width(config, start) {
                lemma_synthesized_unstopped(*self, config, start);
                lemma_synthesized_satisfied(*self, config, description@, start);
            }
            if config.governs(description@) && config.watched(description@) && self.beyond_width(
                config,
                start,
            ) && self.synthesized(config, start).fault is None {
                lemma_synthesized_unsatisfied(*self, config, description@, start);
            }
        }
        match self.synthesize(config, &mut layouter) {
            Err(e) => Err(Failure::Layout(e)),
            Ok(_) => match verify(description, &layouter) {
                Ok(()) => Ok(layouter),
                Err(f) => Err(Failure::Constraint(f)),
            },
        }
    }

    /// Lays out the whole pass and returns the final limbs. A step that
    /// cannot be laid out stops the pass; what was laid out before it stays.
    #[verifier::loop_isolation(false)]
    pub fn synthesize(&self, config: OverFlowCheckConfig, layouter: &mut Layouter) -> (r: Result<
        (AssignedCell, AssignedCell, AssignedCell),
        Error,
    >)
        requires
            old(layouter).wf(),
        ensures
            final(layouter).wf(),
            final(layouter)@ == self.synthesized(config, old(layouter)@).trace,
            match r {
                Ok((b, c, d)) => {
                    let pass = self.synthesized(config, old(layouter)@);
                    pass.fault is None && b@ == pass.b && c@ == pass.c && d@ == pass.d
                },
                Err(e) => self.synthesized(config, old(layouter)@).fault == Some(e),
            },
    {
        let chip = OverFlowChip::construct(config);
        let ghost t = layouter@;
        let (mut b, mut c, mut d) = match chip.assign_first_row(layouter) {
            Ok(limbs) => limbs,
            Err(e) => {
                return Err(e);
            },
        };
        let ghost start = Self::started(config, t);
        let mut i: usize = 0;
        assert(self.values@.take(0) =~= Seq::<Option<Felt>>::empty());
        while i < self.values.len()
            invariant
                i <= self.values@.len(),
                layouter.wf(),
                chip.config() == config,
                accumulated(config, start, self.values@.take(i as int)) == (Pass {
                    trace: layouter@,
                    fault: None,
                    b: b@,
                    c: c@,
                    d: d@,
                }),
            decreases self.values@.len() - i,
        {
            assert(self.values@.take(i + 1).drop_last() =~= self.values@.take(i as int));
            assert(self.values@.take(i + 1).last() == self.values@[i as int]);
            match chip.assign_advice_row(layouter, self.values[i], b, c, d) {
                Ok((next_b, next_c, next_d)) => {
                    b = next_b;
                    c = next_c;
                    d = next_d;
                },
                Err(e) => {
                    proof {
                        lemma_accumulated_stops(config, start, self.values@, i + 1);
                    }
                    return Err(e);
                },
            }
            i = i + 1;
        }
        assert(self.values@.take(i as int) =~= self.values@);
        match chip.expose_public(layouter, &b, self.b_row) {
            Ok(()) => {},
            Err(e) => {
                return Err(e);
            },
        }
        match chip.expose_public(layouter, &c, self.c_row) {
            Ok(()) => {},
            Err(e) => {
                return Err(e);
            },
        }
        match chip.expose_public(layouter, &d, self.d_row) {
            Ok(()) => {},
            Err(e) => {
                return Err(e);
            },
        }
        Ok((b, c, d))
    }
}

/// A pass whose limbs are what their cells hold, with a register file that
/// is well formed and satisfied, a `b` of zero, and low limbs that stand for
/// `sum`.
pub open spec fn sound(s: System, pass: Pass, sum: int) -> bool {
    &&& pass.fault is None
    &&& pass.trace.wf()
    &&& satisfied(s, pass.trace)
    &&& pass.trace.value(pass.b.cell) == Some(pass.b.value)
    &&& pass.trace.value(pass.c.cell) == Some(pass.c.value)
    &&& pass.trace.value(pass.d.cell) == Some(pass.d.value)
    &&& pass.b.value == 0
    &&& pass.c.value * 0x1_0000 + pass.d.value == sum
}

/// A step that the low limbs have room for keeps a pass sound, and adds the
/// value to what the low limbs stand for, if the chip governs its selectors.
pub proof fn lemma_stepped_sound(
    config: OverFlowCheckConfig,
    s: System,
    before: Pass,
    value: Option<Felt>,
    sum: int,
)
    requires
        config.governs(s),
        sound(s, before, sum),
        stepped(config, before, value).fault is None,
        sum + value.unwrap()@ < 0x1_0000_0000,
    ensures
        sound(s, stepped(config, before, value), sum + value.unwrap()@),
{
    let a = value.unwrap();
    lemma_residue(a);
    lemma_held_residue(before.trace, before.c.cell);
    lemma_held_residue(before.trace, before.d.cell);
    lemma2_to64();
    let first = widened_sum(16, a@, before.c.value, before.d.value);
    assert(first == a@ + before.c.value * 0x1_0000 + before.d.value);
    lemma_advice_row_satisfied(config, s, before.trace, a, before.b, before.c, before.d);
    let limbs = step_limbs(a@, before.b.value, before.c.value, before.d.value);
    assert(limbs == (0int, first / 0x1_0000, first % 0x1_0000));
}

/// Steps keep a pass sound, and the two low limbs come to stand for the sum
/// of what they stood for and the values, if the chip governs its
/// selectors, the pass is not stopped, and the sum stays below two to the
/// power 32.
pub proof fn lemma_accumulated_satisfied(
    config: OverFlowCheckConfig,
    s: System,
    start: Pass,
    values: Seq<Option<Felt>>,
    sum: int,
)
    requires
        config.governs(s),
        sound(s, start, sum),
        sum + total(values) < 0x1_0000_0000,
        accumulated(config, start, values).fault is None,
    ensures
        sound(s, accumulated(config, start, values), sum + total(values)),
    decreases values.len(),
{
    if values.len() > 0 {
        let front = values.drop_last();
        let before = accumulated(config, start, front);
        lemma_total_bounds(front);
        lemma_residue(values.last().unwrap());
        lemma_accumulated_satisfied(config, s, start, front, sum);
        lemma_stepped_sound(config, s, before, values.last(), sum + total(front));
    }
}

/// A pass over values whose sum with what the initial low limbs stand for
/// stays below two to the power 32, from an initial `b` of zero, leaves a
/// satisfied register file, if the chip governs its selectors, the register
/// file was satisfied before, the pass was not stopped, and the public
/// inputs that the final limbs are tied to are those limbs.
pub proof fn lemma_synthesized_satisfied(
    circuit: OverflowCheckCircuit,
    config: OverFlowCheckConfig,
    s: System,
    t: Trace,
)
    requires
        t.wf(),
        satisfied(s, t),
        config.governs(s),
        circuit.synthesized(config, t).fault is None,
        t.public(config.instance.index as int, 0) == Some(0int),
        t.public(config.instance.index as int, 1).unwrap() * 0x1_0000 + t.public(
            config.instance.index as int,
            2,
        ).unwrap() + total(circuit.values@) < 0x1_0000_0000,
        t.public(config.instance.index as int, circuit.b_row as int) == Some(0int),
        t.public(config.instance.index as int, circuit.c_row as int) == Some(
            circuit.synthesized(config, t).c.value,
        ),
        t.public(config.instance.index as int, circuit.d_row as int) == Some(
            circuit.synthesized(config, t).d.value,
        ),
    ensures
        satisfied(s, circuit.synthesized(config, t).trace),
        circuit.synthesized(config, t).b.value == 0,
        circuit.synthesized(config, t).c.value * 0x1_0000 + circuit.synthesized(
            config,
            t,
        ).d.value == t.public(config.instance.index as int, 1).unwrap() * 0x1_0000 + t.public(
            config.instance.index as int,
            2,
        ).unwrap() + total(circuit.values@),
{
    let start = OverflowCheckCircuit::started(config, t);
    lemma_first_row_satisfied(config, s, t);
    let steps = accumulated(config, start, circuit.values@);
    lemma_accumulated_satisfied(
        config,
        s,
        start,
        circuit.values@,
        start.c.value * 0x1_0000 + start.d.value,
    );
    lemma_instance_kept(config, start, circuit.values@);
    let first = exposed(config, steps, steps.b, circuit.b_row);
    let second = exposed(config, first, steps.c, circuit.c_row);
    lemma_copy_satisfied(
        s,
        steps.trace,
        steps.b.cell,
        public_cell(config.instance, circuit.b_row as int),
    );
    lemma_copy_satisfied(
        s,
        first.trace,
        steps.c.cell,
        public_cell(config.instance, circuit.c_row as int),
    );
    lemma_copy_satisfied(
        s,
        second.trace,
        steps.d.cell,
        public_cell(config.instance, circuit.d_row as int),
    );
}

/// A step that the low limbs have room for is not stopped, if the chip
/// fits the register file and there is room for its rows. It leaves the
/// columns, the selectors and the public inputs as they are, and adds two
/// rows.
pub proof fn lemma_stepped_unstopped(
    config: OverFlowCheckConfig,
    before: Pass,
    value: Option<Felt>,
)
    requires
        before.fault is None,
        config.fits(before.trace.num_advice, before.trace.num_selectors),
        value is Some,
        before.b.value == 0,
        0 <= before.c.value,
        0 <= before.d.value,
        before.c.value * 0x1_0000 + before.d.value + value.unwrap()@ < 0x1_0000_0000,
        before.trace.rows + 2 <= MAX_ROWS,
    ensures
        ({
            let after = stepped(config, before, value);
            &&& after.fault is None
            &&& after.trace.num_advice == before.trace.num_advice
            &&& after.trace.num_selectors == before.trace.num_selectors
            &&& after.trace.instance == before.trace.instance
            &&& after.trace.rows == before.trace.rows + 2
            &&& after.b.value == 0
            &&& 0 <= after.c.value
            &&& 0 <= after.d.value
            &&& after.c.value * 0x1_0000 + after.d.value == before.c.value * 0x1_0000
                + before.d.value + value.unwrap()@
        }),
{
    lemma_columns_fine(before.trace, Component::CarryCascade, config.columns());
    lemma_residue(value.unwrap());
    lemma2_to64();
    let a = value.unwrap()@;
    assert(fmul(before.c.value, 0x1_0000) == before.c.value * 0x1_0000);
    let first = widened_sum(16, a, before.c.value, before.d.value);
    assert(first == a + before.c.value * 0x1_0000 + before.d.value);
    assert(step_limbs(a, before.b.value, before.c.value, before.d.value) == (
        0int,
        first / 0x1_0000,
        first % 0x1_0000,
    ));
}

/// Steps that the low limbs have room for are not stopped, if the chip
/// fits the register file and there is room for the rows.
pub proof fn lemma_accumulated_unstopped(
    config: OverFlowCheckConfig,
    start: Pass,
    values: Seq<Option<Felt>>,
)
    requires
        start.fault is None,
        config.fits(start.trace.num_advice, start.trace.num_selectors),
        forall|i: int| 0 <= i < values.len() ==> (#[trigger] values[i]) is Some,
        start.b.value == 0,
        0 <= start.c.value,
        0 <= start.d.value,
        start.c.value * 0x1_0000 + start.d.value + total(values) < 0x1_0000_0000,
        start.trace.rows + 2 * values.len() <= MAX_ROWS,
    ensures
        ({
            let end = accumulated(config, start, values);
            &&& end.fault is None
            &&& end.trace.num_advice == start.trace.num_advice
            &&& end.trace.num_selectors == start.trace.num_selectors
            &&& end.trace.instance == start.trace.instance
            &&& end.trace.rows == start.trace.rows + 2 * values.len()
            &&& end.b.value == 0
            &&& 0 <= end.c.value
            &&& 0 <= end.d.value
            &&& end.c.value * 0x1_0000 + end.d.value == start.c.value * 0x1_0000 + start.d.value
                + total(values)
        }),
    decreases values.len(),
{
    if values.len() > 0 {
        let front = values.drop_last();
        assert forall|i: int| 0 <= i < front.len() implies (#[trigger] front[i]) is Some by {
            assert(front[i] == values[i]);
        }
        lemma_total_bounds(front);
        lemma_residue(values.last().unwrap());
        lemma_accumulated_unstopped(config, start, front);
        lemma_stepped_unstopped(config, accumulated(config, start, front), values.last());
    }
}

/// A pass within the tracked width, with columns and selectors that the
/// register file has, is not stopped.
pub proof fn lemma_synthesized_unstopped(
    circuit: OverflowCheckCircuit,
    config: OverFlowCheckConfig,
    t: Trace,
)
    requires
        t.wf(),
        config.fits(t.num_advice, t.num_selectors),
        circuit.within_width(config, t),
    ensures
        circuit.synthesized(config, t).fault is None,
{
    let limbs = seq![config.col_b(), config.col_c(), config.col_d()];
    assert forall|i: int| 0 <= i < limbs.len() implies (#[trigger] limbs[i]).index
        < t.num_advice by {
        assert(limbs[i] == config.columns()[i + 2]);
    }
    assert forall|i: int, j: int| 0 <= i < j < limbs.len() implies limbs[i] != limbs[j] by {
        assert(limbs[i] == config.columns()[i + 2] && limbs[j] == config.columns()[j + 2]);
    }
    lemma_columns_fine(t, Component::CarryCascade, limbs);
    assert(0 <= t.instance[config.instance.index as int][1]);
    assert(0 <= t.instance[config.instance.index as int][2]);
    lemma_accumulated_unstopped(config, OverflowCheckCircuit::started(config, t), circuit.values@);
}

/// Tying a cell to a public input continues the register file.
pub proof fn lemma_exposed_extends(
    config: OverFlowCheckConfig,
    pass: Pass,
    held: CellValue,
    row: usize,
)
    ensures
        extends(pass.trace, exposed(config, pass, held, row).trace),
{
}

/// A step that takes what the low limbs stand for to two to the power 32
/// or beyond, from below it and from a `b` of zero, leaves a register file
/// that violates a gate, if the gates that watch `b` are in the system and
/// the sum stays below the field characteristic.
pub proof fn lemma_stepped_beyond(
    config: OverFlowCheckConfig,
    s: System,
    before: Pass,
    value: Option<Felt>,
    sum: int,
)
    requires
        config.watched(s),
        sound(s, before, sum),
        stepped(config, before, value).fault is None,
        sum < 0x1_0000_0000,
        sum + value.unwrap()@ >= 0x1_0000_0000,
        sum + value.unwrap()@ < modulus(),
    ensures
        !gates_hold(s, stepped(config, before, value).trace),
{
    let a = value.unwrap();
    lemma_residue(a);
    lemma_held_residue(before.trace, before.c.cell);
    lemma_held_residue(before.trace, before.d.cell);
    lemma2_to64();
    let first = widened_sum(16, a@, before.c.value, before.d.value);
    assert(fmul(before.c.value, 0x1_0000) == before.c.value * 0x1_0000);
    assert(first == a@ + before.c.value * 0x1_0000 + before.d.value);
    let (zero_test, overflow) = choose|zero_test: int, overflow: int| #[trigger]
        config.watched_in(s, zero_test, overflow);
    lemma_overflowing_step_unsatisfiable(
        config,
        s,
        before.trace,
        a,
        before.b,
        before.c,
        before.d,
        zero_test,
        overflow,
    );
}

/// A step on a register file that violates a gate leaves one that does.
pub proof fn lemma_stepped_violation_stays(
    config: OverFlowCheckConfig,
    s: System,
    before: Pass,
    value: Option<Felt>,
)
    requires
        !gates_hold(s, before.trace),
    ensures
        !gates_hold(s, stepped(config, before, value).trace),
{
    lemma_advice_row_extends(
        config,
        before.trace,
        value.unwrap()@,
        before.b,
        before.c,
        before.d,
    );
    lemma_violation_stays(s, before.trace, stepped(config, before, value).trace);
}

/// Steps that take what the low limbs stand for to two to the power 32 or
/// beyond, from below it and from a `b` of zero, leave a register file that
/// violates a gate, if the chip governs its selectors, the gates that watch
/// `b` are in the system, and the sum stays below the field characteristic.
pub proof fn lemma_accumulated_unsatisfied(
    config: OverFlowCheckConfig,
    s: System,
    start: Pass,
    values: Seq<Option<Felt>>,
    sum: int,
)
    requires
        config.governs(s),
        config.watched(s),
        sound(s, start, sum),
        sum < 0x1_0000_0000,
        sum + total(values) >= 0x1_0000_0000,
        sum + total(values) < modulus(),
        accumulated(config, start, values).fault is None,
    ensures
        !gates_hold(s, accumulated(config, start, values).trace),
    decreases values.len(),
{
    if values.len() > 0 {
        let front = values.drop_last();
        let before = accumulated(config, start, front);
        lemma_total_bounds(front);
        lemma_residue(values.last().unwrap());
        if sum + total(front) >= 0x1_0000_0000 {
            lemma_accumulated_unsatisfied(config, s, start, front, sum);
            lemma_stepped_violation_stays(config, s, before, values.last());
        } else {
            lemma_accumulated_satisfied(config, s, start, front, sum);
            lemma_stepped_beyond(config, s, before, values.last(), sum + total(front));
        }
    }
}

/// A pass that goes beyond the tracked width leaves a register file that
/// is not satisfied, if it is not stopped, the chip governs its selectors,
/// and the gates that watch `b` are in the system.
pub proof fn lemma_synthesized_unsatisfied(
    circuit: OverflowCheckCircuit,
    config: OverFlowCheckConfig,
    s: System,
    t: Trace,
)
    requires
        t.wf(),
        satisfied(s, t),
        config.governs(s),
        config.watched(s),
        circuit.beyond_width(config, t),
        circuit.synthesized(config, t).fault is None,
    ensures
        !satisfied(s, circuit.synthesized(config, t).trace),
{
    let start = OverflowCheckCircuit::started(config, t);
    lemma_first_row_satisfied(config, s, t);
    let steps = accumulated(config, start, circuit.values@);
    lemma_accumulated_unsatisfied(
        config,
        s,
        start,
        circuit.values@,
        start.c.value * 0x1_0000 + start.d.value,
    );
    let first = exposed(config, steps, steps.b, circuit.b_row);
    let second = exposed(config, first, steps.c, circuit.c_row);
    let third = exposed(config, second, steps.d, circuit.d_row);
    lemma_exposed_extends(config, steps, steps.b, circuit.b_row);
    lemma_exposed_extends(config, first, steps.c, circuit.c_row);
    lemma_exposed_extends(config, second, steps.d, circuit.d_row);
    lemma_violation_stays(s, steps.trace, first.trace);
    lemma_violation_stays(s, first.trace, second.trace);
    lemma_violation_stays(s, second.trace, third.trace);
}

} // verus!
