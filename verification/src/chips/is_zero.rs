//! The zero test: from a value `x` and a witness `x_inv` it derives a flag,
//! `1 - x * x_inv`, and constrains `x * flag` to vanish. The flag is then one
//! exactly where `x` is zero.

use crate::circuit::{
    cell_at, AdviceColumn, ConstraintSystem, Expression, GateView, Rotation, Selector,
};
use crate::field::{
    constant, fmul, fsub, inverse, inverse_or_zero, inverse_witness, lemma_add_negation,
    lemma_constant_value, lemma_inverse_unique, lemma_no_zero_divisor, lemma_residue, modulus,
    Felt,
};
use crate::layouter::{Component, Error, ErrorKind, Layouter};
use vstd::prelude::*;

verus! {

/// The flag that goes with the value `x` and the witness `x_inv`.
pub open spec fn flag_of(x: int, x_inv: int) -> int {
    fsub(1, fmul(x, x_inv))
}

/// The two constraints of the zero test on a triple of residues.
pub open spec fn accepts(x: int, x_inv: int, flag: int) -> bool {
    flag == flag_of(x, x_inv) && fmul(x, flag) == 0
}

/// The zero test accepts `(0, x_inv, flag)` exactly where the flag is one,
/// whatever `x_inv` is, and `(x, x_inv, flag)` for a value other than zero
/// exactly where `x_inv` is the inverse of `x` and the flag is zero.
/// `inverse` stands for the inverse of `x`, which `Felt::invert` computes.
pub proof fn lemma_zero_test(x: int, x_inv: int, flag: int, inverse: int)
    requires
        0 <= x < modulus(),
        0 <= x_inv < modulus(),
        0 <= flag < modulus(),
        0 <= inverse < modulus(),
        x != 0 ==> fmul(x, inverse) == 1,
    ensures
        x == 0 ==> (accepts(x, x_inv, flag) <==> flag == 1),
        x != 0 ==> (accepts(x, x_inv, flag) <==> x_inv == inverse && flag == 0),
{
    if x == 0 {
        assert(x * x_inv == 0) by (nonlinear_arith)
            requires
                x == 0,
        ;
        assert(x * flag == 0) by (nonlinear_arith)
            requires
                x == 0,
        ;
    } else {
        if accepts(x, x_inv, flag) {
            lemma_no_zero_divisor(x, inverse, flag);
            lemma_inverse_unique(x, x_inv, inverse);
        }
        if x_inv == inverse && flag == 0 {
            assert(x * flag == 0) by (nonlinear_arith)
                requires
                    flag == 0,
            ;
        }
    }
}

/// Tells whether the zero test accepts a triple. It accepts zero with the
/// flag one, whatever the witness, a value other than zero with its inverse
/// as the witness and the flag zero, and nothing else.
pub fn check(x: &Felt, x_inv: &Felt, flag: &Felt) -> (r: bool)
    ensures
        r == accepts(x@, x_inv@, flag@),
        r == (if x@ == 0 {
            flag@ == 1
        } else {
            x_inv@ == inverse(x@) && flag@ == 0
        }),
{
    let inverse = x.inverse_or_zero();
    proof {
        lemma_residue(*x);
        lemma_residue(*x_inv);
        lemma_residue(*flag);
        lemma_zero_test(x@, x_inv@, flag@, inverse@);
    }
    flag.equals(&Felt::one().minus(&x.times(x_inv))) && x.times(flag).is_zero()
}

/// The flag as a polynomial: one minus the value times the cell that holds
/// the witness.
pub open spec fn flag_expression(value: Expression, value_inv: AdviceColumn) -> Expression {
    Expression::difference_of(
        Expression::Constant(constant(1)),
        Expression::product_of(value, Expression::query(value_inv, Rotation::Cur)),
    )
}

/// The constraint of the zero test as a polynomial: the value times the flag.
pub open spec fn zero_test_poly(value: Expression, value_inv: AdviceColumn) -> Expression {
    Expression::product_of(value, flag_expression(value, value_inv))
}

/// A gate that the zero test registers.
pub open spec fn zero_test_gate(
    q_enable: Selector,
    value: Expression,
    value_inv: AdviceColumn,
) -> GateView {
    GateView {
        name: "is_zero"@,
        selector: q_enable,
        polys: seq![zero_test_poly(value, value_inv)],
    }
}

/// The flag polynomial evaluates to the flag of the value and the witness
/// cell, where both are there.
pub proof fn lemma_flag_expression_eval(
    value: Expression,
    value_inv: AdviceColumn,
    cells: Map<(int, int), int>,
    row: int,
)
    ensures
        flag_expression(value, value_inv).eval(cells, row) == match (
            value.eval(cells, row),
            cell_at(cells, value_inv.index as int, row),
        ) {
            (Some(x), Some(x_inv)) => Some(flag_of(x, x_inv)),
            _ => None::<int>,
        },
{
    reveal_with_fuel(Expression::eval, 4);
    lemma_constant_value(1);
    match (value.eval(cells, row), cell_at(cells, value_inv.index as int, row)) {
        (Some(x), Some(x_inv)) => {
            lemma_add_negation(1, fmul(x, x_inv));
        },
        _ => {},
    }
}

/// What the zero test was configured with.
#[derive(Clone, Debug)]
pub struct IsZeroConfig {
    pub value_inv: AdviceColumn,
    pub is_zero_expr: Expression,
}

impl IsZeroConfig {
    /// A copy of the configuration.
    pub fn duplicate(&self) -> (r: IsZeroConfig)
        ensures
            r == *self,
    {
        IsZeroConfig { value_inv: self.value_inv, is_zero_expr: self.is_zero_expr.duplicate() }
    }

    /// The flag, for use in other gates.
    pub fn expr(&self) -> (r: Expression)
        ensures
            r == self.is_zero_expr,
    {
        self.is_zero_expr.duplicate()
    }
}

/// The zero test.
#[derive(Clone, Debug)]
pub struct IsZeroChip {
    config: IsZeroConfig,
}

impl IsZeroChip {
    /// What the chip was constructed with.
    pub closed spec fn config(&self) -> IsZeroConfig {
        self.config
    }

    /// The chip for a configuration.
    pub fn construct(config: IsZeroConfig) -> (r: IsZeroChip)
        ensures
            r.config() == config,
    {
        IsZeroChip { config }
    }

    /// Registers a gate `value * (1 - value * value_inv)` under the
    /// selector, and returns the flag `1 - value * value_inv`.
    pub fn configure(
        meta: &mut ConstraintSystem,
        q_enable: Selector,
        value: Expression,
        value_inv: AdviceColumn,
    ) -> (r: IsZeroConfig)
        ensures
            r.value_inv == value_inv,
            r.is_zero_expr == flag_expression(value, value_inv),
            final(meta)@ == old(meta)@.with_gate(zero_test_gate(q_enable, value, value_inv)),
    {
        let flag = Expression::constant(Felt::one()).minus(
            value.duplicate().times(Expression::advice(value_inv, Rotation::Cur)),
        );
        let mut polys: Vec<Expression> = Vec::new();
        polys.push(value.times(flag.duplicate()));
        assert(polys@ =~= seq![zero_test_poly(value, value_inv)]);
        meta.create_gate("is_zero", q_enable, polys);
        IsZeroConfig { value_inv, is_zero_expr: flag }
    }

    /// Puts beside `value` the witness that the zero test needs: the inverse
    /// of the value, or zero for zero. Fails, changing nothing, if no value
    /// is given or the cell cannot be assigned.
    pub fn assign(&self, layouter: &mut Layouter, row: usize, value: Option<Felt>) -> (r: Result<
        (),
        Error,
    >)
        requires
            old(layouter).wf(),
        ensures
            final(layouter).wf(),
            r is Ok <==> value is Some && self.config().value_inv.index < old(layouter)@.num_advice
                && row < old(layouter)@.rows && old(layouter)@.advice(
                self.config().value_inv.index as int,
                row as int,
            ) is None,
            r is Ok ==> inverse_witness(value.unwrap()@, inverse_or_zero(value.unwrap()@))
                && final(layouter)@ == old(layouter)@.assign(
                self.config().value_inv,
                row as int,
                inverse_or_zero(value.unwrap()@),
            ),
            r matches Err(e) ==> *final(layouter) == *old(layouter) && e.column
                == self.config().value_inv.index && e.row == row && (if value is None {
                e.component == Component::ZeroTest && e.kind == ErrorKind::NotAssigned
            } else {
                e.component == Component::Layouter && e.kind == (if self.config().value_inv.index
                    >= old(layouter)@.num_advice {
                    ErrorKind::UnknownColumn
                } else if row >= old(layouter)@.rows {
                    ErrorKind::RowOutOfRange
                } else {
                    ErrorKind::AlreadyAssigned
                })
            }),
    {
        match value {
            None => Err(
                Error {
                    component: Component::ZeroTest,
                    kind: ErrorKind::NotAssigned,
                    column: self.config.value_inv.index,
                    row,
                },
            ),
            Some(v) => {
                let inv = v.inverse_or_zero();
                match layouter.assign_advice(self.config.value_inv, row, inv) {
                    Ok(_) => Ok(()),
                    Err(e) => Err(e),
                }
            },
        }
    }
}

} // verus!
