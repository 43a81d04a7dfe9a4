use std::collections::HashMap;

use halo2_proofs::circuit::{Cell as Halo2Cell, Layouter as Halo2Layouter, SimpleFloorPlanner, Value};
use halo2_proofs::dev::MockProver;
use halo2_proofs::pasta::Fp;
use halo2_proofs::plonk::{
    Advice, Circuit, Column as Halo2Column, ConstraintSystem as Halo2System, Error as Halo2Error,
    Expression as Halo2Expression, Instance, Selector as Halo2Selector,
    TableColumn as Halo2Table, VirtualCells,
};
use halo2_proofs::poly::Rotation as Halo2Rotation;
use overflow_chips::chips::overflow_check_v2::OverflowChipV2;
use overflow_chips::circuit::{
    AdviceColumn, Column, ConstraintSystem, Description, Expression, Rotation, Selector,
    TableColumn,
};
use overflow_chips::circuits::add_carry_v2::AddCarryV2Circuit;
use overflow_chips::circuits::overflow_check::OverflowCheckCircuit;
use overflow_chips::dev::verify;
use overflow_chips::field::Felt;
use overflow_chips::layouter::Layouter;

fn felt(v: u64) -> Felt {
    Felt::from_u64(v)
}

fn to_fp(value: &Felt) -> Fp {
    Fp::from_raw(value.to_limbs())
}

#[derive(Clone, Debug)]
struct Columns {
    advice: Vec<Halo2Column<Advice>>,
    instance: Vec<Halo2Column<Instance>>,
    selectors: Vec<Halo2Selector>,
    tables: Vec<Halo2Table>,
}

fn expression(e: &Expression, columns: &Columns, cells: &mut VirtualCells<'_, Fp>) -> Halo2Expression<Fp> {
    match e {
        Expression::Constant(c) => Halo2Expression::Constant(to_fp(c)),
        Expression::Advice(column, rotation) => cells.query_advice(
            columns.advice[column.index],
            match rotation {
                Rotation::Prev => Halo2Rotation::prev(),
                Rotation::Cur => Halo2Rotation::cur(),
            },
        ),
        Expression::Negated(a) => -expression(a, columns, cells),
        Expression::Sum(a, b) => expression(a, columns, cells) + expression(b, columns, cells),
        Expression::Product(a, b) => expression(a, columns, cells) * expression(b, columns, cells),
    }
}

fn install(description: &Description, meta: &mut Halo2System<Fp>) -> Columns {
    let in_lookups = |index: usize| description.lookups().iter().any(|l| l.selector.index == index);
    let columns = Columns {
        advice: (0..description.num_advice()).map(|_| meta.advice_column()).collect(),
        instance: (0..description.num_instance()).map(|_| meta.instance_column()).collect(),
        selectors: (0..description.num_selectors())
            .map(|i| if in_lookups(i) { meta.complex_selector() } else { meta.selector() })
            .collect(),
        tables: (0..description.num_tables()).map(|_| meta.lookup_table_column()).collect(),
    };
    for column in description.equality() {
        match column {
            Column::Advice(c) => meta.enable_equality(columns.advice[c.index]),
            Column::Instance(c) => meta.enable_equality(columns.instance[c.index]),
        }
    }
    for gate in description.gates() {
        meta.create_gate(gate.name, |cells| {
            let s = cells.query_selector(columns.selectors[gate.selector.index]);
            gate.polys
                .iter()
                .map(|poly| s.clone() * expression(poly, &columns, cells))
                .collect::<Vec<_>>()
        });
    }
    for lookup in description.lookups() {
        // one lookup argument for each input: each is looked up by itself
        for input in lookup.inputs.iter() {
            meta.lookup(|cells| {
                let s = cells.query_selector(columns.selectors[lookup.selector.index]);
                vec![(s * expression(input, &columns, cells), columns.tables[lookup.table.index])]
            });
        }
    }
    columns
}

fn replay(
    register_file: &Layouter,
    columns: &Columns,
    mut layouter: impl Halo2Layouter<Fp>,
) -> Result<(), Halo2Error> {
    for (index, table) in columns.tables.iter().enumerate() {
        if let Some(content) = register_file.table(TableColumn { index }) {
            layouter.assign_table(
                || "table",
                |mut cells| {
                    for (row, value) in content.iter().enumerate() {
                        cells.assign_cell(|| "entry", *table, row, || Value::known(to_fp(value)))?;
                    }
                    Ok(())
                },
            )?;
        }
    }
    let assigned: HashMap<(usize, usize), Halo2Cell> = layouter.assign_region(
        || "register file",
        |mut region| {
            let mut assigned = HashMap::new();
            for row in 0..register_file.rows() {
                for (index, selector) in columns.selectors.iter().enumerate() {
                    if register_file.selected(Selector { index }, row) {
                        selector.enable(&mut region, row)?;
                    }
                }
                for (index, column) in columns.advice.iter().enumerate() {
                    if let Some(value) = register_file.advice(AdviceColumn { index }, row) {
                        let cell =
                            region.assign_advice(|| "cell", *column, row, || Value::known(to_fp(&value)))?;
                        assigned.insert((index, row), cell.cell());
                    }
                }
            }
            for i in 0..register_file.num_copies() {
                let (left, right) = register_file.copy(i);
                if let (Column::Advice(l), Column::Advice(r)) = (left.column, right.column) {
                    region.constrain_equal(assigned[&(l.index, left.row)], assigned[&(r.index, right.row)])?;
                }
            }
            Ok(assigned)
        },
    )?;
    for i in 0..register_file.num_copies() {
        let (left, right) = register_file.copy(i);
        if let (Column::Advice(a), Column::Instance(p)) = (left.column, right.column) {
            layouter.constrain_instance(assigned[&(a.index, left.row)], columns.instance[p.index], right.row)?;
        }
    }
    Ok(())
}

#[derive(Clone, Debug, Default)]
struct AddCarry {
    values: Vec<u64>,
    public: Vec<u64>,
}

fn add_carry_register_file(circuit: &AddCarry) -> (Description, Layouter) {
    let mut meta = ConstraintSystem::new();
    let config = AddCarryV2Circuit::configure(&mut meta);
    let description = meta.freeze();
    let public = circuit.public.iter().map(|v| felt(*v)).collect();
    let mut register_file = Layouter::new(&description, vec![public]);
    let pass = AddCarryV2Circuit {
        values: circuit.values.iter().map(|v| Some(felt(*v))).collect(),
        high_row: 2,
        low_row: 3,
    };
    pass.synthesize(config, &mut register_file).unwrap();
    (description, register_file)
}

impl Circuit<Fp> for AddCarry {
    type Config = Columns;
    type FloorPlanner = SimpleFloorPlanner;

    fn without_witnesses(&self) -> Self {
        Self::default()
    }

    fn configure(meta: &mut Halo2System<Fp>) -> Columns {
        install(&add_carry_register_file(&AddCarry::default_public()).0, meta)
    }

    fn synthesize(&self, columns: Columns, layouter: impl Halo2Layouter<Fp>) -> Result<(), Halo2Error> {
        replay(&add_carry_register_file(self).1, &columns, layouter)
    }
}

impl AddCarry {
    fn default_public() -> AddCarry {
        AddCarry { values: vec![], public: vec![0, 0, 0, 0] }
    }
}

#[derive(Clone, Debug, Default)]
struct CarryCascade {
    values: Vec<u64>,
    public: Vec<u64>,
}

fn carry_cascade_register_file(circuit: &CarryCascade) -> (Description, Layouter) {
    let mut meta = ConstraintSystem::new();
    let config = OverflowCheckCircuit::configure(&mut meta);
    let description = meta.freeze();
    let public = circuit.public.iter().map(|v| felt(*v)).collect();
    let mut register_file = Layouter::new(&description, vec![public]);
    let pass = OverflowCheckCircuit {
        values: circuit.values.iter().map(|v| Some(felt(*v))).collect(),
        b_row: 3,
        c_row: 4,
        d_row: 5,
    };
    pass.synthesize(config, &mut register_file).unwrap();
    (description, register_file)
}

impl Circuit<Fp> for CarryCascade {
    type Config = Columns;
    type FloorPlanner = SimpleFloorPlanner;

    fn without_witnesses(&self) -> Self {
        Self::default()
    }

    fn configure(meta: &mut Halo2System<Fp>) -> Columns {
        let empty = CarryCascade { values: vec![], public: vec![0; 6] };
        install(&carry_cascade_register_file(&empty).0, meta)
    }

    fn synthesize(&self, columns: Columns, layouter: impl Halo2Layouter<Fp>) -> Result<(), Halo2Error> {
        replay(&carry_cascade_register_file(self).1, &columns, layouter)
    }
}

/// Rows of the lookup chip with limbs of four bits, three to a value.
#[derive(Clone, Debug, Default)]
struct Ranged {
    rows: Vec<(u64, [u64; 3])>,
}

fn ranged_register_file(circuit: &Ranged) -> (Description, Layouter) {
    let mut meta = ConstraintSystem::new();
    let value = meta.advice_column();
    let limbs = vec![meta.advice_column(), meta.advice_column(), meta.advice_column()];
    let instance = meta.instance_column();
    let table = meta.lookup_table_column();
    let simple = meta.selector();
    let complex = meta.selector();
    let config =
        OverflowChipV2::configure(&mut meta, 4, value, limbs, instance, table, simple, complex).unwrap();
    let description = meta.freeze();
    let chip = OverflowChipV2::construct(config).unwrap();
    let mut register_file = Layouter::new(&description, vec![]);
    for (value, limbs) in circuit.rows.iter() {
        let limbs = limbs.iter().map(|v| Some(felt(*v))).collect();
        chip.assign(&mut register_file, Some(felt(*value)), limbs).unwrap();
    }
    (description, register_file)
}

impl Circuit<Fp> for Ranged {
    type Config = Columns;
    type FloorPlanner = SimpleFloorPlanner;

    fn without_witnesses(&self) -> Self {
        Self::default()
    }

    fn configure(meta: &mut Halo2System<Fp>) -> Columns {
        install(&ranged_register_file(&Ranged::default()).0, meta)
    }

    fn synthesize(&self, columns: Columns, layouter: impl Halo2Layouter<Fp>) -> Result<(), Halo2Error> {
        replay(&ranged_register_file(self).1, &columns, layouter)
    }
}

fn public(values: &[u64]) -> Vec<Vec<Fp>> {
    vec![values.iter().map(|v| Fp::from(*v)).collect()]
}

#[test]
fn halo2_accepts_two_then_seven_with_nine_and_not_with_eight() {
    let k = 5;
    let circuit = AddCarry { values: vec![2, 7], public: vec![0, 0, 0, 9] };
    let prover = MockProver::run(k, &circuit, public(&[0, 0, 0, 9])).unwrap();
    assert_eq!(prover.verify(), Ok(()));
    let prover = MockProver::run(k, &circuit, public(&[0, 0, 0, 8])).unwrap();
    assert!(prover.verify().is_err());
}

#[test]
fn halo2_and_the_debug_evaluator_agree_on_the_add_carry_chip() {
    let cases: [(&[u64], [u64; 4], bool); 8] = [
        (&[2, 7], [0, 0, 0, 9], true),
        (&[2, 7], [0, 0, 0, 8], false),
        (&[2, 7], [0, 1, 0, 10], true),
        (&[], [0, 5, 0, 5], true),
        // a carry into the high limb is refused, whatever is made public
        (&[65535, 3], [0, 0, 1, 2], false),
        (&[65535, 3], [0, 0, 0, 2], false),
        (&[65536], [0, 0, 1, 0], false),
        (&[1, 2, 3, 4], [0, 0, 0, 10], true),
    ];
    for (values, instance, passes) in cases {
        let circuit = AddCarry { values: values.to_vec(), public: instance.to_vec() };
        let (description, register_file) = add_carry_register_file(&circuit);
        assert_eq!(verify(&description, &register_file).is_ok(), passes);
        let theirs = MockProver::run(6, &circuit, public(&instance)).unwrap().verify().is_ok();
        assert_eq!(theirs, passes);
    }
}

#[test]
fn halo2_and_the_debug_evaluator_agree_on_the_carry_cascade_chip() {
    let cases: [(&[u64], [u64; 6]); 6] = [
        (&[65535, 1], [0, 0, 0, 0, 1, 0]),
        (&[65535, 1], [0, 0, 0, 0, 1, 1]),
        (&[1 << 32], [0, 0, 0, 1, 0, 0]),
        (&[(1 << 32) - 1], [0, 0, 0, 0, 65535, 65535]),
        (&[5], [0, 2, 3, 0, 2, 8]),
        (&[5], [1, 2, 3, 0, 2, 8]),
    ];
    for (values, instance) in cases {
        let circuit = CarryCascade { values: values.to_vec(), public: instance.to_vec() };
        let (description, register_file) = carry_cascade_register_file(&circuit);
        let ours = verify(&description, &register_file).is_ok();
        let theirs = MockProver::run(6, &circuit, public(&instance)).unwrap().verify().is_ok();
        assert_eq!(ours, theirs);
    }
}

#[test]
fn halo2_and_the_debug_evaluator_agree_on_the_lookup_chip() {
    let cases: [&[(u64, [u64; 3])]; 5] = [
        &[(0x123, [1, 2, 3])],
        &[(0x123, [1, 2, 4])],
        &[(16, [0, 0, 16])],
        &[(0xfff, [15, 15, 15]), (0, [0, 0, 0])],
        &[(0xfff, [15, 15, 15]), (0x100, [0, 16, 0])],
    ];
    for rows in cases {
        let circuit = Ranged { rows: rows.to_vec() };
        let (description, register_file) = ranged_register_file(&circuit);
        let ours = verify(&description, &register_file).is_ok();
        let theirs = MockProver::run(6, &circuit, vec![vec![]]).unwrap().verify().is_ok();
        assert_eq!(ours, theirs);
    }
}
