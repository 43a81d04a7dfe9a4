use overflow_chips::circuit::{
    AdviceColumn, Cell, Column, ConstraintSystem, Description, Expression, InstanceColumn,
    Rotation, Selector, TableColumn,
};
use overflow_chips::dev::{verify, VerifyFailure};
use overflow_chips::field::Felt;
use overflow_chips::layouter::{AssignedCell, Component, Error, ErrorKind, Layouter, MAX_ROWS};

fn felt(v: u64) -> Felt {
    Felt::from_u64(v)
}

fn layouter_error(kind: ErrorKind, column: usize, row: usize) -> Error {
    Error { component: Component::Layouter, kind, column, row }
}

struct Setup {
    description: Description,
    a: AdviceColumn,
    b: AdviceColumn,
    instance: InstanceColumn,
    equal: Selector,
    ranged: Selector,
    table: TableColumn,
}

/// Two witness columns; under `equal`, `a - b` and `a * a - b_prev` must
/// vanish; under `ranged`, `a + 1` must be in the table.
fn setup() -> Setup {
    let mut meta = ConstraintSystem::new();
    let a = meta.advice_column();
    let b = meta.advice_column();
    let instance = meta.instance_column();
    let equal = meta.selector();
    let ranged = meta.selector();
    let table = meta.lookup_table_column();
    meta.enable_equality(Column::Advice(a));
    meta.enable_equality(Column::Instance(instance));
    meta.create_gate(
        "equal",
        equal,
        vec![
            Expression::advice(a, Rotation::Cur).minus(Expression::advice(b, Rotation::Cur)),
            Expression::advice(a, Rotation::Cur)
                .times(Expression::advice(a, Rotation::Cur))
                .minus(Expression::advice(b, Rotation::Prev)),
        ],
    );
    meta.lookup(
        "ranged",
        ranged,
        vec![Expression::advice(a, Rotation::Cur).plus(Expression::constant(felt(1)))],
        table,
    );
    Setup { description: meta.freeze(), a, b, instance, equal, ranged, table }
}

#[test]
fn description_records_what_was_registered() {
    let s = setup();
    assert_eq!(s.description.num_advice(), 2);
    assert_eq!(s.description.num_instance(), 1);
    assert_eq!(s.description.num_selectors(), 2);
    assert_eq!(s.description.num_tables(), 1);
    assert_eq!((s.a.index, s.b.index, s.equal.index, s.ranged.index), (0, 1, 0, 1));
    assert_eq!(
        s.description.equality(),
        &vec![Column::Advice(s.a), Column::Instance(s.instance)]
    );
    assert_eq!(s.description.gates().len(), 1);
    assert_eq!(s.description.gates()[0].name, "equal");
    assert_eq!(s.description.gates()[0].selector, s.equal);
    assert_eq!(s.description.gates()[0].polys.len(), 2);
    assert_eq!(s.description.lookups().len(), 1);
    assert_eq!(s.description.lookups()[0].table, s.table);
}

#[test]
fn expressions_evaluate_in_the_field() {
    let s = setup();
    let mut layouter = Layouter::new(&s.description, vec![]);
    assert_eq!(layouter.begin_region(2), Ok(0));
    layouter.assign_advice(s.a, 0, felt(3)).unwrap();
    layouter.assign_advice(s.b, 0, felt(5)).unwrap();
    layouter.assign_advice(s.a, 1, felt(7)).unwrap();
    let a = || Expression::advice(s.a, Rotation::Cur);
    let b = || Expression::advice(s.b, Rotation::Cur);
    assert_eq!(layouter.evaluate(&a().plus(b()), 0), Some(felt(8)));
    assert_eq!(layouter.evaluate(&a().times(b()), 0), Some(felt(15)));
    assert_eq!(layouter.evaluate(&b().minus(a()), 0), Some(felt(2)));
    assert_eq!(layouter.evaluate(&a().minus(b()), 0), Some(Felt::zero().minus(&felt(2))));
    assert_eq!(layouter.evaluate(&a().negated().plus(a()), 0), Some(felt(0)));
    assert_eq!(layouter.evaluate(&Expression::constant(felt(9)), 1), Some(felt(9)));
    assert_eq!(
        layouter.evaluate(&a().plus(Expression::advice(s.a, Rotation::Prev)), 1),
        Some(felt(10))
    );
    // a cell without a value, and the row before the first
    assert_eq!(layouter.evaluate(&a().plus(b()), 1), None);
    assert_eq!(layouter.evaluate(&Expression::advice(s.a, Rotation::Prev), 0), None);
    assert_eq!(layouter.evaluate(&a(), 2), None);
    assert_eq!(
        layouter.evaluate(&Expression::advice(AdviceColumn { index: 2 }, Rotation::Cur), 0),
        None
    );
    let copy = a().times(b()).duplicate();
    assert_eq!(layouter.evaluate(&copy, 0), Some(felt(15)));
}

#[test]
fn layouter_reports_what_it_cannot_do() {
    let s = setup();
    let mut layouter = Layouter::new(&s.description, vec![vec![felt(4)]]);
    assert_eq!(layouter.rows(), 0);
    assert_eq!(
        layouter.assign_advice(s.a, 0, felt(1)),
        Err(layouter_error(ErrorKind::RowOutOfRange, 0, 0))
    );
    assert_eq!(layouter.begin_region(3), Ok(0));
    assert_eq!(layouter.begin_region(1), Ok(3));
    assert_eq!(layouter.rows(), 4);
    assert_eq!(
        layouter.begin_region(MAX_ROWS - 3),
        Err(layouter_error(ErrorKind::OutOfRows, 0, 4))
    );
    assert_eq!(layouter.rows(), 4);
    assert_eq!(
        layouter.assign_advice(s.a, 1, felt(1)),
        Ok(AssignedCell { cell: Cell { column: Column::Advice(s.a), row: 1 }, value: felt(1) })
    );
    assert_eq!(layouter.advice(s.a, 1), Some(felt(1)));
    assert_eq!(layouter.advice(s.a, 0), None);
    assert_eq!(
        layouter.assign_advice(s.a, 1, felt(2)),
        Err(layouter_error(ErrorKind::AlreadyAssigned, 0, 1))
    );
    assert_eq!(layouter.advice(s.a, 1), Some(felt(1)));
    assert_eq!(
        layouter.assign_advice(AdviceColumn { index: 2 }, 1, felt(2)),
        Err(layouter_error(ErrorKind::UnknownColumn, 2, 1))
    );
    assert_eq!(
        layouter.assign_advice(s.b, 4, felt(2)),
        Err(layouter_error(ErrorKind::RowOutOfRange, 1, 4))
    );
    assert_eq!(layouter.enable_selector(s.equal, 2), Ok(()));
    assert!(layouter.selected(s.equal, 2));
    assert!(!layouter.selected(s.equal, 1));
    assert!(!layouter.selected(s.ranged, 2));
    assert_eq!(
        layouter.enable_selector(Selector { index: 2 }, 2),
        Err(layouter_error(ErrorKind::UnknownSelector, 2, 2))
    );
    assert_eq!(
        layouter.enable_selector(s.ranged, 4),
        Err(layouter_error(ErrorKind::RowOutOfRange, 1, 4))
    );
    assert_eq!(layouter.public(s.instance, 0), Some(felt(4)));
    assert_eq!(layouter.public(s.instance, 1), None);
    assert_eq!(layouter.public(InstanceColumn { index: 1 }, 0), None);
    assert!(!layouter.table_loaded(s.table));
    assert_eq!(
        layouter.load_table(TableColumn { index: 1 }, vec![felt(0)]),
        Err(layouter_error(ErrorKind::UnknownTable, 1, 0))
    );
    assert_eq!(layouter.load_table(s.table, vec![felt(0), felt(5)]), Ok(()));
    assert!(layouter.table_loaded(s.table));
    assert_eq!(layouter.table(s.table), Some(&vec![felt(0), felt(5)]));
    assert!(layouter.table_contains(s.table, &felt(5)));
    assert!(!layouter.table_contains(s.table, &felt(1)));
    assert_eq!(
        layouter.load_table(s.table, vec![felt(1)]),
        Err(layouter_error(ErrorKind::TableAlreadyLoaded, 0, 0))
    );
    assert!(!layouter.table_contains(s.table, &felt(1)));
    assert_eq!(layouter.num_copies(), 0);
    let left = Cell { column: Column::Advice(s.a), row: 1 };
    let right = Cell { column: Column::Instance(s.instance), row: 0 };
    layouter.constrain_equal(left, right);
    assert_eq!(layouter.num_copies(), 1);
    assert_eq!(layouter.copy(0), (left, right));
    assert_eq!(layouter.value(left), Some(felt(1)));
    assert_eq!(layouter.value(right), Some(felt(4)));
}

#[test]
fn columns_are_checked_in_order() {
    let s = setup();
    let mut layouter = Layouter::new(&s.description, vec![]);
    layouter.begin_region(5).unwrap();
    let missing = AdviceColumn { index: 7 };
    assert_eq!(layouter.check_columns(Component::AddCarry, &vec![s.a, s.b]), None);
    assert_eq!(layouter.check_columns(Component::AddCarry, &vec![]), None);
    assert_eq!(
        layouter.check_columns(Component::AddCarry, &vec![s.a, missing, s.a]),
        Some(Error {
            component: Component::AddCarry,
            kind: ErrorKind::UnknownColumn,
            column: 7,
            row: 5
        })
    );
    assert_eq!(
        layouter.check_columns(Component::ZeroTest, &vec![s.b, s.a, s.b, missing]),
        Some(Error {
            component: Component::ZeroTest,
            kind: ErrorKind::DuplicateColumn,
            column: 1,
            row: 5
        })
    );
}

#[test]
fn a_register_file_without_enabled_rows_is_satisfied() {
    let s = setup();
    let mut layouter = Layouter::new(&s.description, vec![]);
    assert_eq!(verify(&s.description, &layouter), Ok(()));
    layouter.begin_region(3).unwrap();
    layouter.assign_advice(s.a, 1, felt(1)).unwrap();
    assert_eq!(verify(&s.description, &layouter), Ok(()));
}

#[test]
fn gates_bind_the_enabled_rows_only() {
    let s = setup();
    let mut layouter = Layouter::new(&s.description, vec![]);
    layouter.begin_region(3).unwrap();
    layouter.assign_advice(s.b, 0, felt(9)).unwrap();
    layouter.assign_advice(s.a, 1, felt(3)).unwrap();
    layouter.assign_advice(s.b, 1, felt(3)).unwrap();
    layouter.assign_advice(s.a, 2, felt(4)).unwrap();
    layouter.assign_advice(s.b, 2, felt(5)).unwrap();
    layouter.enable_selector(s.equal, 1).unwrap();
    assert_eq!(verify(&s.description, &layouter), Ok(()));
    layouter.enable_selector(s.equal, 2).unwrap();
    assert_eq!(
        verify(&s.description, &layouter),
        Err(VerifyFailure::ConstraintNotSatisfied {
            gate: 0,
            constraint: 0,
            row: 2,
            value: Felt::zero().minus(&felt(1)),
        })
    );
}

#[test]
fn the_first_failing_polynomial_is_reported() {
    let s = setup();
    let mut layouter = Layouter::new(&s.description, vec![]);
    layouter.begin_region(3).unwrap();
    layouter.assign_advice(s.b, 0, felt(10)).unwrap();
    layouter.assign_advice(s.a, 1, felt(3)).unwrap();
    layouter.assign_advice(s.b, 1, felt(3)).unwrap();
    layouter.assign_advice(s.a, 2, felt(4)).unwrap();
    layouter.assign_advice(s.b, 2, felt(5)).unwrap();
    layouter.enable_selector(s.equal, 2).unwrap();
    layouter.enable_selector(s.equal, 1).unwrap();
    // row 1 fails its second polynomial (9 - 10), row 2 its first
    assert_eq!(
        verify(&s.description, &layouter),
        Err(VerifyFailure::ConstraintNotSatisfied {
            gate: 0,
            constraint: 1,
            row: 1,
            value: Felt::zero().minus(&felt(1)),
        })
    );
}

#[test]
fn a_cell_without_a_value_under_a_gate_is_reported() {
    let s = setup();
    let mut layouter = Layouter::new(&s.description, vec![]);
    layouter.begin_region(2).unwrap();
    layouter.assign_advice(s.a, 1, felt(3)).unwrap();
    layouter.enable_selector(s.equal, 1).unwrap();
    assert_eq!(
        verify(&s.description, &layouter),
        Err(VerifyFailure::CellNotAssigned { gate: 0, constraint: 0, row: 1 })
    );
    layouter.assign_advice(s.b, 1, felt(3)).unwrap();
    assert_eq!(
        verify(&s.description, &layouter),
        Err(VerifyFailure::CellNotAssigned { gate: 0, constraint: 1, row: 1 })
    );
}

#[test]
fn a_gate_on_the_first_row_cannot_read_the_row_before() {
    let s = setup();
    let mut layouter = Layouter::new(&s.description, vec![]);
    layouter.begin_region(1).unwrap();
    layouter.assign_advice(s.a, 0, felt(3)).unwrap();
    layouter.assign_advice(s.b, 0, felt(3)).unwrap();
    layouter.enable_selector(s.equal, 0).unwrap();
    assert_eq!(
        verify(&s.description, &layouter),
        Err(VerifyFailure::CellNotAssigned { gate: 0, constraint: 1, row: 0 })
    );
}

#[test]
fn lookups_need_the_value_in_the_table() {
    let s = setup();
    let mut layouter = Layouter::new(&s.description, vec![]);
    layouter.begin_region(3).unwrap();
    layouter.assign_advice(s.a, 0, felt(1)).unwrap();
    layouter.assign_advice(s.a, 1, felt(2)).unwrap();
    layouter.enable_selector(s.ranged, 0).unwrap();
    layouter.enable_selector(s.ranged, 1).unwrap();
    // no table yet
    assert_eq!(
        verify(&s.description, &layouter),
        Err(VerifyFailure::Lookup { lookup: 0, input: 0, row: 0, found: Some(felt(2)) })
    );
    layouter.load_table(s.table, vec![felt(2), felt(7)]).unwrap();
    assert_eq!(
        verify(&s.description, &layouter),
        Err(VerifyFailure::Lookup { lookup: 0, input: 0, row: 1, found: Some(felt(3)) })
    );
    layouter.enable_selector(s.ranged, 2).unwrap();
    assert_eq!(
        verify(&s.description, &layouter),
        Err(VerifyFailure::Lookup { lookup: 0, input: 0, row: 1, found: Some(felt(3)) })
    );
}

#[test]
fn lookups_need_the_input_to_have_a_value() {
    let s = setup();
    let mut layouter = Layouter::new(&s.description, vec![]);
    layouter.begin_region(1).unwrap();
    layouter.load_table(s.table, vec![felt(2), felt(7)]).unwrap();
    layouter.enable_selector(s.ranged, 0).unwrap();
    assert_eq!(
        verify(&s.description, &layouter),
        Err(VerifyFailure::Lookup { lookup: 0, input: 0, row: 0, found: None })
    );
    layouter.assign_advice(s.a, 0, felt(6)).unwrap();
    assert_eq!(verify(&s.description, &layouter), Ok(()));
}

#[test]
fn copy_constraints_need_equal_values() {
    let s = setup();
    let mut layouter = Layouter::new(&s.description, vec![vec![felt(4), felt(5)]]);
    layouter.begin_region(2).unwrap();
    let first = layouter.assign_advice(s.a, 0, felt(4)).unwrap();
    let second = layouter.assign_advice(s.a, 1, felt(4)).unwrap();
    layouter.constrain_equal(first.cell, second.cell);
    layouter.constrain_equal(first.cell, Cell { column: Column::Instance(s.instance), row: 0 });
    assert_eq!(verify(&s.description, &layouter), Ok(()));
    layouter.constrain_equal(second.cell, Cell { column: Column::Instance(s.instance), row: 1 });
    layouter.constrain_equal(first.cell, Cell { column: Column::Advice(s.b), row: 0 });
    assert_eq!(
        verify(&s.description, &layouter),
        Err(VerifyFailure::Permutation { copy: 2, left: Some(felt(4)), right: Some(felt(5)) })
    );
}

#[test]
fn copy_constraints_need_both_cells() {
    let s = setup();
    let mut layouter = Layouter::new(&s.description, vec![vec![felt(4)]]);
    layouter.begin_region(1).unwrap();
    let first = layouter.assign_advice(s.a, 0, felt(4)).unwrap();
    layouter.constrain_equal(first.cell, Cell { column: Column::Instance(s.instance), row: 3 });
    assert_eq!(
        verify(&s.description, &layouter),
        Err(VerifyFailure::Permutation { copy: 0, left: Some(felt(4)), right: None })
    );
    let mut layouter = Layouter::new(&s.description, vec![vec![felt(4)]]);
    layouter.begin_region(1).unwrap();
    let unassigned = Cell { column: Column::Advice(s.b), row: 0 };
    layouter.constrain_equal(unassigned, unassigned);
    assert_eq!(
        verify(&s.description, &layouter),
        Err(VerifyFailure::Permutation { copy: 0, left: None, right: None })
    );
}

#[test]
fn gates_are_checked_before_lookups_and_lookups_before_copies() {
    let s = setup();
    let mut layouter = Layouter::new(&s.description, vec![vec![felt(1)]]);
    layouter.begin_region(2).unwrap();
    layouter.assign_advice(s.b, 0, felt(9)).unwrap();
    let a = layouter.assign_advice(s.a, 1, felt(3)).unwrap();
    layouter.assign_advice(s.b, 1, felt(3)).unwrap();
    layouter.constrain_equal(a.cell, Cell { column: Column::Instance(s.instance), row: 0 });
    layouter.enable_selector(s.ranged, 1).unwrap();
    layouter.load_table(s.table, vec![]).unwrap();
    assert_eq!(
        verify(&s.description, &layouter),
        Err(VerifyFailure::Lookup { lookup: 0, input: 0, row: 1, found: Some(felt(4)) })
    );
    layouter.enable_selector(s.equal, 0).unwrap();
    assert_eq!(
        verify(&s.description, &layouter),
        Err(VerifyFailure::CellNotAssigned { gate: 0, constraint: 0, row: 0 })
    );
}
