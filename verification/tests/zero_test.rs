use overflow_chips::chips::is_zero::{check, IsZeroChip, IsZeroConfig};
use overflow_chips::circuit::{
    AdviceColumn, ConstraintSystem, Description, Expression, Rotation, Selector,
};
use overflow_chips::dev::{verify, VerifyFailure};
use overflow_chips::field::Felt;
use overflow_chips::layouter::{Component, Error, ErrorKind, Layouter};

fn felt(v: u64) -> Felt {
    Felt::from_u64(v)
}

struct Gadget {
    description: Description,
    x: AdviceColumn,
    x_inv: AdviceColumn,
    flag: AdviceColumn,
    enable: Selector,
    config: IsZeroConfig,
}

/// The zero test on column `x`, and a gate that makes column `flag` hold
/// the flag of the test.
fn gadget() -> Gadget {
    let mut meta = ConstraintSystem::new();
    let x = meta.advice_column();
    let x_inv = meta.advice_column();
    let flag = meta.advice_column();
    let enable = meta.selector();
    let config =
        IsZeroChip::configure(&mut meta, enable, Expression::advice(x, Rotation::Cur), x_inv);
    meta.create_gate(
        "flag",
        enable,
        vec![Expression::advice(flag, Rotation::Cur).minus(config.expr())],
    );
    Gadget { description: meta.freeze(), x, x_inv, flag, enable, config }
}

fn accepted(g: &Gadget, x: Felt, x_inv: Felt, flag: Felt) -> Result<(), VerifyFailure> {
    let mut layouter = Layouter::new(&g.description, vec![]);
    layouter.begin_region(1).unwrap();
    layouter.enable_selector(g.enable, 0).unwrap();
    layouter.assign_advice(g.x, 0, x).unwrap();
    layouter.assign_advice(g.x_inv, 0, x_inv).unwrap();
    layouter.assign_advice(g.flag, 0, flag).unwrap();
    verify(&g.description, &layouter)
}

#[test]
fn configure_registers_one_gate_and_returns_the_flag() {
    let g = gadget();
    assert_eq!(g.config.value_inv, g.x_inv);
    let gates = g.description.gates();
    assert_eq!(gates.len(), 2);
    assert_eq!(gates[0].name, "is_zero");
    assert_eq!(gates[0].selector, g.enable);
    assert_eq!(gates[0].polys.len(), 1);
    let mut layouter = Layouter::new(&g.description, vec![]);
    layouter.begin_region(1).unwrap();
    layouter.assign_advice(g.x, 0, felt(3)).unwrap();
    layouter.assign_advice(g.x_inv, 0, felt(5)).unwrap();
    // flag = 1 - 3 * 5, constraint = 3 * flag
    let flag = Felt::zero().minus(&felt(14));
    assert_eq!(layouter.evaluate(&g.config.expr(), 0), Some(flag));
    assert_eq!(layouter.evaluate(&g.config.is_zero_expr, 0), Some(flag));
    assert_eq!(layouter.evaluate(&gates[0].polys[0], 0), Some(Felt::zero().minus(&felt(42))));
    assert_eq!(layouter.evaluate(&g.config.duplicate().is_zero_expr, 0), Some(flag));
}

#[test]
fn zero_is_accepted_with_flag_one_whatever_the_witness() {
    let g = gadget();
    let minus_one = Felt::zero().minus(&felt(1));
    for x_inv in [felt(0), felt(1), felt(7), felt(65536), minus_one] {
        assert_eq!(accepted(&g, felt(0), x_inv, felt(1)), Ok(()));
        for flag in [felt(0), felt(2), minus_one] {
            assert_eq!(
                accepted(&g, felt(0), x_inv, flag),
                Err(VerifyFailure::ConstraintNotSatisfied {
                    gate: 1,
                    constraint: 0,
                    row: 0,
                    value: flag.minus(&felt(1)),
                })
            );
        }
    }
}

#[test]
fn a_value_other_than_zero_is_accepted_with_its_inverse_and_flag_zero_only() {
    let g = gadget();
    let minus_one = Felt::zero().minus(&felt(1));
    for x in [felt(1), felt(2), felt(5), felt(65536), minus_one] {
        let inverse = x.invert().unwrap();
        assert_eq!(accepted(&g, x, inverse, felt(0)), Ok(()));
        // the right witness with another flag
        for flag in [felt(1), felt(2), minus_one] {
            assert_eq!(
                accepted(&g, x, inverse, flag),
                Err(VerifyFailure::ConstraintNotSatisfied {
                    gate: 1,
                    constraint: 0,
                    row: 0,
                    value: flag,
                })
            );
        }
        // another witness, with the flag that goes with it and with others
        for x_inv in [felt(0), inverse.plus(&felt(1)), Felt::zero().minus(&inverse), x] {
            if x_inv == inverse {
                continue;
            }
            let flag = felt(1).minus(&x.times(&x_inv));
            assert_eq!(
                accepted(&g, x, x_inv, flag),
                Err(VerifyFailure::ConstraintNotSatisfied {
                    gate: 0,
                    constraint: 0,
                    row: 0,
                    value: x.times(&flag),
                })
            );
            for other in [felt(0), felt(1)] {
                if other != flag {
                    assert!(accepted(&g, x, x_inv, other).is_err());
                }
            }
        }
    }
}

#[test]
fn assign_supplies_the_inverse_or_zero() {
    let g = gadget();
    let chip = IsZeroChip::construct(g.config.duplicate());
    let mut layouter = Layouter::new(&g.description, vec![]);
    layouter.begin_region(3).unwrap();
    assert_eq!(chip.assign(&mut layouter, 0, Some(felt(0))), Ok(()));
    assert_eq!(layouter.advice(g.x_inv, 0), Some(felt(0)));
    assert_eq!(chip.assign(&mut layouter, 1, Some(felt(2))), Ok(()));
    assert_eq!(layouter.advice(g.x_inv, 1), felt(2).invert());
    assert_eq!(layouter.advice(g.x_inv, 1).unwrap().times(&felt(2)), felt(1));
    // with the witness that `assign` supplies, the test accepts
    for (row, x) in [(0usize, 0u64), (1, 2)] {
        layouter.enable_selector(g.enable, row).unwrap();
        layouter.assign_advice(g.x, row, felt(x)).unwrap();
        layouter.assign_advice(g.flag, row, felt(if x == 0 { 1 } else { 0 })).unwrap();
    }
    assert_eq!(verify(&g.description, &layouter), Ok(()));
}

#[test]
fn assign_fails_without_changing_anything() {
    let g = gadget();
    let chip = IsZeroChip::construct(g.config.duplicate());
    let mut layouter = Layouter::new(&g.description, vec![]);
    layouter.begin_region(2).unwrap();
    assert_eq!(
        chip.assign(&mut layouter, 0, None),
        Err(Error { component: Component::ZeroTest, kind: ErrorKind::NotAssigned, column: 1, row: 0 })
    );
    assert_eq!(layouter.advice(g.x_inv, 0), None);
    assert_eq!(
        chip.assign(&mut layouter, 2, Some(felt(1))),
        Err(Error {
            component: Component::Layouter,
            kind: ErrorKind::RowOutOfRange,
            column: 1,
            row: 2
        })
    );
    assert_eq!(chip.assign(&mut layouter, 1, Some(felt(3))), Ok(()));
    assert_eq!(
        chip.assign(&mut layouter, 1, Some(felt(5))),
        Err(Error {
            component: Component::Layouter,
            kind: ErrorKind::AlreadyAssigned,
            column: 1,
            row: 1
        })
    );
    assert_eq!(layouter.advice(g.x_inv, 1), felt(3).invert());
    let elsewhere = IsZeroChip::construct(IsZeroConfig {
        value_inv: AdviceColumn { index: 9 },
        is_zero_expr: g.config.expr(),
    });
    assert_eq!(
        elsewhere.assign(&mut layouter, 0, Some(felt(5))),
        Err(Error {
            component: Component::Layouter,
            kind: ErrorKind::UnknownColumn,
            column: 9,
            row: 0
        })
    );
}

#[test]
fn check_accepts_what_the_constraints_accept() {
    let g = gadget();
    let minus_one = Felt::zero().minus(&felt(1));
    let samples = [felt(0), felt(1), felt(2), felt(5), felt(2).invert().unwrap(), minus_one];
    for x in samples {
        for x_inv in samples {
            for flag in samples {
                let expected = if x.is_zero() {
                    flag == felt(1)
                } else {
                    Some(x_inv) == x.invert() && flag.is_zero()
                };
                assert_eq!(check(&x, &x_inv, &flag), expected);
                assert_eq!(accepted(&g, x, x_inv, flag).is_ok(), expected);
            }
        }
    }
}

#[test]
fn configurations_and_expressions_can_be_cloned() {
    let g = gadget();
    let mut layouter = Layouter::new(&g.description, vec![]);
    layouter.begin_region(1).unwrap();
    layouter.assign_advice(g.x, 0, felt(3)).unwrap();
    layouter.assign_advice(g.x_inv, 0, felt(5)).unwrap();
    let flag = Felt::zero().minus(&felt(14));
    let expression = g.config.is_zero_expr.clone();
    assert_eq!(layouter.evaluate(&expression, 0), Some(flag));
    let config = g.config.clone();
    assert_eq!(config.value_inv, g.x_inv);
    assert_eq!(layouter.evaluate(&config.is_zero_expr, 0), Some(flag));
    let chip = IsZeroChip::construct(config).clone();
    let mut layouter = Layouter::new(&g.description, vec![]);
    layouter.begin_region(1).unwrap();
    assert_eq!(chip.assign(&mut layouter, 0, Some(felt(2))), Ok(()));
    assert_eq!(layouter.advice(g.x_inv, 0), felt(2).invert());
}
