//! Debug evaluation: every gate, lookup and copy constraint of a description
//! is checked against a filled register file, and the first one that fails
//! is reported.

use crate::circuit::{
    cell_at, lemma_eval_frame, Cell, Column, Description, System, TableColumn,
};
use crate::field::{modulus, Felt};
use crate::layouter::{option_value, Error, Layouter, Trace};
use vstd::prelude::*;

verus! {

/// The first constraint that a register file violates.
#[derive(Clone, Copy, Debug, PartialEq, Eq)]
pub enum VerifyFailure {
    /// A polynomial of a gate has a value other than zero on a row where the
    /// gate is enabled.
    ConstraintNotSatisfied { gate: usize, constraint: usize, row: usize, value: Felt },
    /// A polynomial of a gate reads a cell without a value on a row where the
    /// gate is enabled.
    CellNotAssigned { gate: usize, constraint: usize, row: usize },
    /// An input of a lookup, on a row where the lookup is enabled, has a
    /// value that is not in the table, or has none.
    Lookup { lookup: usize, input: usize, row: usize, found: Option<Felt> },
    /// The two cells of a copy constraint differ, or the first has no value.
    Permutation { copy: usize, left: Option<Felt>, right: Option<Felt> },
}

/// Why a pass did not come to a satisfied register file: a step could not
/// be laid out, or what was laid out violates a constraint.
#[derive(Clone, Copy, Debug, PartialEq, Eq)]
pub enum Failure {
    Layout(Error),
    Constraint(VerifyFailure),
}

/// Order in which constraints are checked: by gate (or lookup), then by row,
/// then by polynomial (or input).
pub open spec fn before(a: (int, int, int), b: (int, int, int)) -> bool {
    a.0 < b.0 || (a.0 == b.0 && (a.1 < b.1 || (a.1 == b.1 && a.2 < b.2)))
}

/// Polynomial `k` of gate `gate` vanishes at `row`, or that gate is not
/// enabled there.
pub open spec fn constraint_holds(s: System, t: Trace, gate: int, row: int, k: int) -> bool {
    t.selected(s.gates[gate].selector, row) ==> s.gates[gate].polys[k].eval(t.cells, row) == Some(
        0int,
    )
}

/// The table column holds its values, and `value` is among them.
pub open spec fn table_has(t: Trace, table: TableColumn, value: int) -> bool {
    t.tables.dom().contains(table.index as int) && t.tables[table.index as int].contains(value)
}

/// Input `k` of lookup `lookup` has at `row` a value of the table, or the
/// lookup is not enabled there.
pub open spec fn input_holds(s: System, t: Trace, lookup: int, row: int, k: int) -> bool {
    t.selected(s.lookups[lookup].selector, row) ==> match s.lookups[lookup].inputs[k].eval(
        t.cells,
        row,
    ) {
        Some(v) => table_has(t, s.lookups[lookup].table, v),
        None => false,
    }
}

/// The two cells of copy constraint `i` hold the same value.
pub open spec fn copy_holds(t: Trace, i: int) -> bool {
    t.value(t.copies[i].0) is Some && t.value(t.copies[i].0) == t.value(t.copies[i].1)
}

/// Polynomial `k` of gate `g` exists, and so does `row`.
pub open spec fn gate_position(s: System, t: Trace, g: int, row: int, k: int) -> bool {
    0 <= g < s.gates.len() && 0 <= row < t.rows && 0 <= k < s.gates[g].polys.len()
}

/// Input `k` of lookup `l` exists, and so does `row`.
pub open spec fn lookup_position(s: System, t: Trace, l: int, row: int, k: int) -> bool {
    0 <= l < s.lookups.len() && 0 <= row < t.rows && 0 <= k < s.lookups[l].inputs.len()
}

/// Every polynomial checked before position `(g, row, k)` holds.
pub open spec fn gates_hold_before(s: System, t: Trace, g: int, row: int, k: int) -> bool {
    forall|g2: int, r2: int, k2: int|
        gate_position(s, t, g2, r2, k2) && before((g2, r2, k2), (g, row, k))
            ==> #[trigger] constraint_holds(s, t, g2, r2, k2)
}

/// Every lookup input checked before position `(l, row, k)` holds.
pub open spec fn lookups_hold_before(s: System, t: Trace, l: int, row: int, k: int) -> bool {
    forall|l2: int, r2: int, k2: int|
        lookup_position(s, t, l2, r2, k2) && before((l2, r2, k2), (l, row, k))
            ==> #[trigger] input_holds(s, t, l2, r2, k2)
}

/// Every polynomial of every gate vanishes on every row where its gate is
/// enabled.
pub open spec fn gates_hold(s: System, t: Trace) -> bool {
    forall|g: int, row: int, k: int|
        gate_position(s, t, g, row, k) ==> #[trigger] constraint_holds(s, t, g, row, k)
}

/// Every input of every lookup is in the table on every row where its
/// lookup is enabled.
pub open spec fn lookups_hold(s: System, t: Trace) -> bool {
    forall|l: int, row: int, k: int|
        lookup_position(s, t, l, row, k) ==> #[trigger] input_holds(s, t, l, row, k)
}

/// The two cells of every copy constraint hold the same value.
pub open spec fn copies_hold(t: Trace) -> bool {
    forall|i: int| 0 <= i < t.copies.len() ==> #[trigger] copy_holds(t, i)
}

/// The register file meets every constraint of the system.
pub open spec fn satisfied(s: System, t: Trace) -> bool {
    gates_hold(s, t) && lookups_hold(s, t) && copies_hold(t)
}

/// `f` names the first constraint that fails, in the order gates, lookups,
/// copy constraints, and tells the values found there.
pub open spec fn first_failure(s: System, t: Trace, f: VerifyFailure) -> bool {
    match f {
        VerifyFailure::ConstraintNotSatisfied { gate, constraint, row, value } => {
            &&& gate_position(s, t, gate as int, row as int, constraint as int)
            &&& gates_hold_before(s, t, gate as int, row as int, constraint as int)
            &&& t.selected(s.gates[gate as int].selector, row as int)
            &&& s.gates[gate as int].polys[constraint as int].eval(t.cells, row as int) == Some(
                value@,
            )
            &&& value@ != 0
        },
        VerifyFailure::CellNotAssigned { gate, constraint, row } => {
            &&& gate_position(s, t, gate as int, row as int, constraint as int)
            &&& gates_hold_before(s, t, gate as int, row as int, constraint as int)
            &&& t.selected(s.gates[gate as int].selector, row as int)
            &&& s.gates[gate as int].polys[constraint as int].eval(t.cells, row as int) is None
        },
        VerifyFailure::Lookup { lookup, input, row, found } => {
            &&& gates_hold(s, t)
            &&& lookup_position(s, t, lookup as int, row as int, input as int)
            &&& lookups_hold_before(s, t, lookup as int, row as int, input as int)
            &&& !input_holds(s, t, lookup as int, row as int, input as int)
            &&& option_value(found) == s.lookups[lookup as int].inputs[input as int].eval(
                t.cells,
                row as int,
            )
        },
        VerifyFailure::Permutation { copy, left, right } => {
            &&& gates_hold(s, t)
            &&& lookups_hold(s, t)
            &&& 0 <= copy < t.copies.len()
            &&& forall|i: int| 0 <= i < copy ==> #[trigger] copy_holds(t, i)
            &&& !copy_holds(t, copy as int)
            &&& option_value(left) == t.value(t.copies[copy as int].0)
            &&& option_value(right) == t.value(t.copies[copy as int].1)
        },
    }
}

/// A register file with a first failure is not satisfied.
pub proof fn lemma_failure_refutes(s: System, t: Trace, f: VerifyFailure)
    requires
        first_failure(s, t, f),
    ensures
        !satisfied(s, t),
{
    match f {
        VerifyFailure::ConstraintNotSatisfied { gate, constraint, row, value } => {
            assert(!constraint_holds(s, t, gate as int, row as int, constraint as int));
        },
        VerifyFailure::CellNotAssigned { gate, constraint, row } => {
            assert(!constraint_holds(s, t, gate as int, row as int, constraint as int));
        },
        VerifyFailure::Lookup { lookup, input, row, found } => {
            assert(!input_holds(s, t, lookup as int, row as int, input as int));
        },
        VerifyFailure::Permutation { copy, left, right } => {
            assert(!copy_holds(t, copy as int));
        },
    }
}

/// `u` continues `t`: what `t` holds, `u` holds unchanged, and whatever else
/// `u` holds lies in rows that `t` does not have, or is a table or a copy
/// constraint that `t` does not have.
pub open spec fn extends(t: Trace, u: Trace) -> bool {
    &&& t.rows <= u.rows
    &&& t.instance == u.instance
    &&& forall|column: int, row: int|
        row < t.rows ==> #[trigger] cell_at(u.cells, column, row) == cell_at(t.cells, column, row)
    &&& forall|k: (int, int)|
        k.1 < t.rows ==> (#[trigger] u.enabled.contains(k) <==> t.enabled.contains(k))
    &&& forall|i: int| #[trigger]
        t.tables.dom().contains(i) ==> u.tables.dom().contains(i) && u.tables[i] == t.tables[i]
    &&& t.copies.len() <= u.copies.len()
    &&& forall|i: int| 0 <= i < t.copies.len() ==> #[trigger] u.copies[i] == t.copies[i]
}

/// What a satisfied register file meets, every register file that continues
/// it meets too: the gates and lookups on the rows that were there, and the
/// copy constraints that were there.
pub proof fn lemma_extension(s: System, t: Trace, u: Trace)
    requires
        t.wf(),
        extends(t, u),
        satisfied(s, t),
    ensures
        forall|g: int, row: int, k: int|
            gate_position(s, t, g, row, k) ==> #[trigger] constraint_holds(s, u, g, row, k),
        forall|l: int, row: int, k: int|
            lookup_position(s, t, l, row, k) ==> #[trigger] input_holds(s, u, l, row, k),
        forall|i: int| 0 <= i < t.copies.len() ==> #[trigger] copy_holds(u, i),
{
    assert forall|g: int, row: int, k: int| gate_position(s, t, g, row, k) implies
        #[trigger] constraint_holds(s, u, g, row, k) by {
        assert(constraint_holds(s, t, g, row, k));
        assert(u.enabled.contains((s.gates[g].selector.index as int, row))
            <==> t.enabled.contains((s.gates[g].selector.index as int, row)));
        lemma_eval_frame(s.gates[g].polys[k], u.cells, t.cells, row);
    }
    assert forall|l: int, row: int, k: int| lookup_position(s, t, l, row, k) implies
        #[trigger] input_holds(s, u, l, row, k) by {
        assert(input_holds(s, t, l, row, k));
        assert(u.enabled.contains((s.lookups[l].selector.index as int, row))
            <==> t.enabled.contains((s.lookups[l].selector.index as int, row)));
        lemma_eval_frame(s.lookups[l].inputs[k], u.cells, t.cells, row);
    }
    assert forall|i: int| 0 <= i < t.copies.len() implies #[trigger] copy_holds(u, i) by {
        assert(copy_holds(t, i));
        assert(u.copies[i] == t.copies[i]);
        lemma_value_kept(t, u, t.copies[i].0);
        lemma_value_kept(t, u, t.copies[i].1);
    }
}

/// A register file that violates a gate still does when it is continued.
pub proof fn lemma_violation_stays(s: System, t: Trace, u: Trace)
    requires
        extends(t, u),
        !gates_hold(s, t),
    ensures
        !gates_hold(s, u),
        !satisfied(s, u),
{
    let (g, row, k) = choose|g: int, row: int, k: int|
        gate_position(s, t, g, row, k) && !#[trigger] constraint_holds(s, t, g, row, k);
    assert(u.enabled.contains((s.gates[g].selector.index as int, row)) <==> t.enabled.contains(
        (s.gates[g].selector.index as int, row),
    ));
    lemma_eval_frame(s.gates[g].polys[k], u.cells, t.cells, row);
    assert(gate_position(s, u, g, row, k));
    assert(!constraint_holds(s, u, g, row, k));
}

/// A cell that holds a value keeps it in every register file that continues
/// the one it is in.
pub proof fn lemma_value_kept(t: Trace, u: Trace, cell: Cell)
    requires
        t.wf(),
        extends(t, u),
        t.value(cell) is Some,
    ensures
        u.value(cell) == t.value(cell),
{
    match cell.column {
        Column::Advice(c) => {
            assert(t.cells.dom().contains((c.index as int, cell.row as int)));
            assert(cell_at(u.cells, c.index as int, cell.row as int) == cell_at(
                t.cells,
                c.index as int,
                cell.row as int,
            ));
        },
        Column::Instance(c) => {},
    }
}

/// What a cell of a well-formed register file holds is a residue.
pub proof fn lemma_held_residue(t: Trace, cell: Cell)
    requires
        t.wf(),
        t.value(cell) is Some,
    ensures
        0 <= t.value(cell).unwrap() < modulus(),
{
    match cell.column {
        Column::Advice(c) => {
            assert(t.cells.dom().contains((c.index as int, cell.row as int)));
        },
        Column::Instance(c) => {
            assert(0 <= t.instance[c.index as int][cell.row as int] < modulus());
        },
    }
}

/// A copy constraint that is added keeps a register file satisfied exactly
/// where its two cells hold the same value.
pub proof fn lemma_copy_satisfied(s: System, t: Trace, left: Cell, right: Cell)
    ensures
        satisfied(s, t.copy(left, right)) <==> satisfied(s, t) && t.value(left) is Some && t.value(
            left,
        ) == t.value(right),
{
    let u = t.copy(left, right);
    let n = t.copies.len() as int;
    assert(u.copies[n] == (left, right));
    if satisfied(s, u) {
        assert forall|g: int, row: int, k: int| gate_position(s, t, g, row, k) implies
            #[trigger] constraint_holds(s, t, g, row, k) by {
            assert(constraint_holds(s, u, g, row, k));
        }
        assert forall|l: int, row: int, k: int| lookup_position(s, t, l, row, k) implies
            #[trigger] input_holds(s, t, l, row, k) by {
            assert(input_holds(s, u, l, row, k));
        }
        assert forall|i: int| 0 <= i < t.copies.len() implies #[trigger] copy_holds(t, i) by {
            assert(copy_holds(u, i));
            assert(u.copies[i] == t.copies[i]);
        }
        assert(copy_holds(u, n));
    }
    if satisfied(s, t) && t.value(left) is Some && t.value(left) == t.value(right) {
        assert forall|g: int, row: int, k: int| gate_position(s, u, g, row, k) implies
            #[trigger] constraint_holds(s, u, g, row, k) by {
            assert(constraint_holds(s, t, g, row, k));
        }
        assert forall|l: int, row: int, k: int| lookup_position(s, u, l, row, k) implies
            #[trigger] input_holds(s, u, l, row, k) by {
            assert(input_holds(s, t, l, row, k));
        }
        assert forall|i: int| 0 <= i < u.copies.len() implies #[trigger] copy_holds(u, i) by {
            if i < n {
                assert(copy_holds(t, i));
                assert(u.copies[i] == t.copies[i]);
            }
        }
    }
}

/// The first polynomial of a gate that fails, if one does.
fn check_gates(description: &Description, layouter: &Layouter) -> (r: Option<VerifyFailure>)
    requires
        layouter.wf(),
    ensures
        r is None ==> gates_hold(description@, layouter@),
        r matches Some(f) ==> first_failure(description@, layouter@, f) && (f
            is ConstraintNotSatisfied || f is CellNotAssigned),
{
    let ghost s = description@;
    let ghost t = layouter@;
    let gates = description.gates();
    let rows = layouter.rows();
    let mut g: usize = 0;
    while g < gates.len()
        invariant
            layouter.wf(),
            s == description@,
            t == layouter@,
            rows == t.rows,
            gates@.len() == s.gates.len(),
            forall|i: int| 0 <= i < gates@.len() ==> (#[trigger] gates@[i])@ == s.gates[i],
            g <= gates@.len(),
            gates_hold_before(s, t, g as int, 0, 0),
        decreases gates@.len() - g,
    {
        let gate = &gates[g];
        assert(gate@ == s.gates[g as int]);
        let mut row: usize = 0;
        while row < rows
            invariant
                layouter.wf(),
                s == description@,
                t == layouter@,
                rows == t.rows,
                g < s.gates.len(),
                gate@ == s.gates[g as int],
                row <= rows,
                gates_hold_before(s, t, g as int, row as int, 0),
            decreases rows - row,
        {
            if layouter.selected(gate.selector, row) {
                let mut k: usize = 0;
                while k < gate.polys.len()
                    invariant
                        layouter.wf(),
                        s == description@,
                        t == layouter@,
                        rows == t.rows,
                        g < s.gates.len(),
                        gate@ == s.gates[g as int],
                        row < rows,
                        k <= gate.polys@.len(),
                        t.selected(gate.selector, row as int),
                        gates_hold_before(s, t, g as int, row as int, k as int),
                    decreases gate.polys@.len() - k,
                {
                    match layouter.evaluate(&gate.polys[k], row) {
                        None => {
                            return Some(
                                VerifyFailure::CellNotAssigned { gate: g, constraint: k, row },
                            );
                        },
                        Some(value) => {
                            if !value.is_zero() {
                                return Some(
                                    VerifyFailure::ConstraintNotSatisfied {
                                        gate: g,
                                        constraint: k,
                                        row,
                                        value,
                                    },
                                );
                            }
                        },
                    }
                    assert(constraint_holds(s, t, g as int, row as int, k as int));
                    k = k + 1;
                }
            }
            assert forall|g2: int, r2: int, k2: int|
                gate_position(s, t, g2, r2, k2) && before((g2, r2, k2), (g as int, row + 1, 0))
                implies #[trigger] constraint_holds(s, t, g2, r2, k2) by {
                if !before((g2, r2, k2), (g as int, row as int, 0)) {
                    assert(g2 == g && r2 == row);
                    if t.selected(gate.selector, row as int) {
                        assert(before(
                            (g2, r2, k2),
                            (g as int, row as int, gate.polys@.len() as int),
                        ));
                    }
                }
            }
            row = row + 1;
        }
        g = g + 1;
    }
    None
}

/// The first input of a lookup that fails, if one does and no gate does.
fn check_lookups(description: &Description, layouter: &Layouter) -> (r: Option<VerifyFailure>)
    requires
        layouter.wf(),
        gates_hold(description@, layouter@),
    ensures
        r is None ==> lookups_hold(description@, layouter@),
        r matches Some(f) ==> first_failure(description@, layouter@, f) && f is Lookup,
{
    let ghost s = description@;
    let ghost t = layouter@;
    let lookups = description.lookups();
    let rows = layouter.rows();
    let mut l: usize = 0;
    while l < lookups.len()
        invariant
            layouter.wf(),
            s == description@,
            t == layouter@,
            gates_hold(s, t),
            rows == t.rows,
            lookups@.len() == s.lookups.len(),
            forall|i: int| 0 <= i < lookups@.len() ==> (#[trigger] lookups@[i])@ == s.lookups[i],
            l <= lookups@.len(),
            lookups_hold_before(s, t, l as int, 0, 0),
        decreases lookups@.len() - l,
    {
        let lookup = &lookups[l];
        assert(lookup@ == s.lookups[l as int]);
        let mut row: usize = 0;
        while row < rows
            invariant
                layouter.wf(),
                s == description@,
                t == layouter@,
                gates_hold(s, t),
                rows == t.rows,
                l < s.lookups.len(),
                lookup@ == s.lookups[l as int],
                row <= rows,
                lookups_hold_before(s, t, l as int, row as int, 0),
            decreases rows - row,
        {
            if layouter.selected(lookup.selector, row) {
                let mut k: usize = 0;
                while k < lookup.inputs.len()
                    invariant
                        layouter.wf(),
                        s == description@,
                        t == layouter@,
                        gates_hold(s, t),
                        rows == t.rows,
                        l < s.lookups.len(),
                        lookup@ == s.lookups[l as int],
                        row < rows,
                        k <= lookup.inputs@.len(),
                        t.selected(lookup.selector, row as int),
                        lookups_hold_before(s, t, l as int, row as int, k as int),
                    decreases lookup.inputs@.len() - k,
                {
                    let value = layouter.evaluate(&lookup.inputs[k], row);
                    let found = match &value {
                        None => false,
                        Some(v) => layouter.table_contains(lookup.table, v),
                    };
                    if !found {
                        return Some(
                            VerifyFailure::Lookup { lookup: l, input: k, row, found: value },
                        );
                    }
                    assert(input_holds(s, t, l as int, row as int, k as int));
                    k = k + 1;
                }
            }
            assert forall|l2: int, r2: int, k2: int|
                lookup_position(s, t, l2, r2, k2) && before((l2, r2, k2), (l as int, row + 1, 0))
                implies #[trigger] input_holds(s, t, l2, r2, k2) by {
                if !before((l2, r2, k2), (l as int, row as int, 0)) {
                    assert(l2 == l && r2 == row);
                    if t.selected(lookup.selector, row as int) {
                        assert(before(
                            (l2, r2, k2),
                            (l as int, row as int, lookup.inputs@.len() as int),
                        ));
                    }
                }
            }
            row = row + 1;
        }
        l = l + 1;
    }
    None
}

/// The first copy constraint that fails, if one does and no gate or lookup
/// does.
fn check_copies(description: &Description, layouter: &Layouter) -> (r: Option<VerifyFailure>)
    requires
        layouter.wf(),
        gates_hold(description@, layouter@),
        lookups_hold(description@, layouter@),
    ensures
        r is None ==> copies_hold(layouter@),
        r matches Some(f) ==> first_failure(description@, layouter@, f) && f is Permutation,
{
    let ghost t = layouter@;
    let n = layouter.num_copies();
    let mut i: usize = 0;
    while i < n
        invariant
            layouter.wf(),
            t == layouter@,
            gates_hold(description@, t),
            lookups_hold(description@, t),
            n == t.copies.len(),
            i <= n,
            forall|j: int| 0 <= j < i ==> #[trigger] copy_holds(t, j),
        decreases n - i,
    {
        let pair = layouter.copy(i);
        let left = layouter.value(pair.0);
        let right = layouter.value(pair.1);
        let same = match (&left, &right) {
            (Some(a), Some(b)) => a.equals(b),
            _ => false,
        };
        if !same {
            return Some(VerifyFailure::Permutation { copy: i, left, right });
        }
        assert(copy_holds(t, i as int));
        i = i + 1;
    }
    None
}

/// Checks the register file against every gate, lookup and copy constraint
/// of the description, gates first, and reports the first failure.
pub fn verify(description: &Description, layouter: &Layouter) -> (r: Result<(), VerifyFailure>)
    requires
        layouter.wf(),
    ensures
        r is Ok <==> satisfied(description@, layouter@),
        r matches Err(f) ==> first_failure(description@, layouter@, f),
{
    if let Some(f) = check_gates(description, layouter) {
        proof {
            lemma_failure_refutes(description@, layouter@, f);
        }
        return Err(f);
    }
    if let Some(f) = check_lookups(description, layouter) {
        proof {
            lemma_failure_refutes(description@, layouter@, f);
        }
        return Err(f);
    }
    if let Some(f) = check_copies(description, layouter) {
        proof {
            lemma_failure_refutes(description@, layouter@, f);
        }
        return Err(f);
    }
    Ok(())
}

} // verus!
