use overflow_chips::chips::overflow_check_v2::{OverflowCheckV2Config, OverflowChipV2};
use overflow_chips::chips::utils::decompose;
use overflow_chips::circuit::{
    AdviceColumn, Cell, Column, ConstraintSystem, Description, InstanceColumn, Selector,
    TableColumn,
};
use overflow_chips::circuits::overflow_check_v2::OverflowCheckV2Circuit;
use overflow_chips::dev::{verify, Failure, VerifyFailure};
use overflow_chips::field::Felt;
use overflow_chips::layouter::{Component, Error, ErrorKind, Layouter};

fn felt(v: u64) -> Felt {
    Felt::from_u64(v)
}

fn known(values: &[u64]) -> Vec<Option<Felt>> {
    values.iter().map(|v| Some(felt(*v))).collect()
}

fn fault(kind: ErrorKind, column: usize, row: usize) -> Error {
    Error { component: Component::LookupRange, kind, column, row }
}

fn configured(bits: u32, limbs: usize) -> (Description, OverflowCheckV2Config) {
    let mut meta = ConstraintSystem::new();
    let value = meta.advice_column();
    let decomposed: Vec<AdviceColumn> = (0..limbs).map(|_| meta.advice_column()).collect();
    let instance = meta.instance_column();
    let table = meta.lookup_table_column();
    let simple = meta.selector();
    let complex = meta.selector();
    let config =
        OverflowChipV2::configure(&mut meta, bits, value, decomposed, instance, table, simple, complex)
            .unwrap();
    (meta.freeze(), config)
}

fn again(config: &OverflowCheckV2Config) -> OverflowCheckV2Config {
    OverflowCheckV2Config {
        limb_bits: config.limb_bits,
        value: config.value,
        decomposed_values: config.decomposed_values.clone(),
        table: config.table,
        instance: config.instance,
        simple_selector: config.simple_selector,
        complex_selector: config.complex_selector,
    }
}

fn run(value: u64, limbs: &[u64]) -> (Result<(), VerifyFailure>, Layouter) {
    let (description, config) = configured(16, 3);
    let chip = OverflowChipV2::construct(config).unwrap();
    let mut layouter = Layouter::new(&description, vec![]);
    chip.assign(&mut layouter, Some(felt(value)), known(limbs)).unwrap();
    (verify(&description, &layouter), layouter)
}

#[test]
fn configuration() {
    let (description, config) = configured(16, 3);
    assert_eq!(config.limb_bits, 16);
    assert_eq!(config.value, AdviceColumn { index: 0 });
    assert_eq!(
        config.decomposed_values,
        vec![AdviceColumn { index: 1 }, AdviceColumn { index: 2 }, AdviceColumn { index: 3 }]
    );
    assert_eq!(
        description.equality(),
        &vec![
            Column::Advice(AdviceColumn { index: 0 }),
            Column::Advice(AdviceColumn { index: 1 }),
            Column::Advice(AdviceColumn { index: 2 }),
            Column::Advice(AdviceColumn { index: 3 }),
            Column::Instance(InstanceColumn { index: 0 }),
        ]
    );
    assert_eq!(description.gates().len(), 1);
    assert_eq!(description.gates()[0].name, "check decomposed values");
    assert_eq!(description.gates()[0].selector, config.simple_selector);
    assert_eq!(description.gates()[0].polys.len(), 1);
    assert_eq!(description.lookups().len(), 1);
    assert_eq!(description.lookups()[0].name, "range check decomposed_values");
    assert_eq!(description.lookups()[0].selector, config.complex_selector);
    assert_eq!(description.lookups()[0].inputs.len(), 3);
    assert_eq!(description.lookups()[0].table, config.table);

    let mut layouter = Layouter::new(&description, vec![]);
    layouter.begin_region(1).unwrap();
    for (column, value) in [(0, 100), (1, 2), (2, 3), (3, 5)] {
        layouter.assign_advice(AdviceColumn { index: column }, 0, felt(value)).unwrap();
    }
    // 5 + 2 * 2^32 + 3 * 2^16 - 100
    assert_eq!(
        layouter.evaluate(&description.gates()[0].polys[0], 0),
        Some(felt((2 << 32) + 3 * 65536 - 95))
    );
    for (input, value) in [(0, 2), (1, 3), (2, 5)] {
        assert_eq!(layouter.evaluate(&description.lookups()[0].inputs[input], 0), Some(felt(value)));
    }
}

#[test]
fn parameters_are_checked() {
    for (bits, limbs) in [(0u32, 3usize), (17, 3), (64, 3), (16, 0), (16, 16), (1, 255)] {
        let mut meta = ConstraintSystem::new();
        let value = meta.advice_column();
        let decomposed: Vec<AdviceColumn> = (0..limbs).map(|_| meta.advice_column()).collect();
        let instance = meta.instance_column();
        let table = meta.lookup_table_column();
        let simple = meta.selector();
        let complex = meta.selector();
        let config = OverflowCheckV2Config {
            limb_bits: bits,
            value,
            decomposed_values: decomposed.clone(),
            table,
            instance,
            simple_selector: simple,
            complex_selector: complex,
        };
        assert_eq!(
            OverflowChipV2::construct(config).err(),
            Some(fault(ErrorKind::InvalidParameters, 0, 0))
        );
        assert_eq!(
            OverflowChipV2::configure(
                &mut meta, bits, value, decomposed, instance, table, simple, complex
            )
            .err(),
            Some(fault(ErrorKind::InvalidParameters, 0, 0))
        );
        let description = meta.freeze();
        assert_eq!(description.gates().len(), 0);
        assert_eq!(description.lookups().len(), 0);
        assert_eq!(description.equality().len(), 0);
    }
    for (bits, limbs) in [(16u32, 3usize), (16, 15), (1, 254), (8, 1)] {
        let (_, config) = configured(bits, limbs);
        assert!(OverflowChipV2::construct(config).is_ok());
    }
}

#[test]
fn a_decomposition_within_range_is_satisfied() {
    let (verdict, layouter) = run(4587520000, &[1, 4464, 0]);
    assert_eq!(verdict, Ok(()));
    assert_eq!(layouter.rows(), 1);
    assert_eq!(layouter.advice(AdviceColumn { index: 0 }, 0), Some(felt(4587520000)));
    assert_eq!(layouter.advice(AdviceColumn { index: 1 }, 0), Some(felt(1)));
    assert_eq!(layouter.advice(AdviceColumn { index: 2 }, 0), Some(felt(4464)));
    assert_eq!(layouter.advice(AdviceColumn { index: 3 }, 0), Some(felt(0)));
    assert!(layouter.selected(Selector { index: 0 }, 0));
    assert!(layouter.selected(Selector { index: 1 }, 0));
    assert_eq!(run(70000, &[0, 1, 4464]).0, Ok(()));
    assert_eq!(run(0, &[0, 0, 0]).0, Ok(()));
    assert_eq!(run((1 << 48) - 1, &[65535, 65535, 65535]).0, Ok(()));
}

#[test]
fn the_table_holds_the_numbers_below_two_to_the_limb_width() {
    let (_, layouter) = run(70000, &[0, 1, 4464]);
    let table = layouter.table(TableColumn { index: 0 }).unwrap();
    assert_eq!(table.len(), 65536);
    for i in [0usize, 1, 2, 4464, 65534, 65535] {
        assert_eq!(table[i], felt(i as u64));
    }
    assert!(layouter.table_contains(TableColumn { index: 0 }, &felt(65535)));
    assert!(!layouter.table_contains(TableColumn { index: 0 }, &felt(65536)));

    let (description, config) = configured(3, 2);
    let chip = OverflowChipV2::construct(config).unwrap();
    let mut layouter = Layouter::new(&description, vec![]);
    chip.assign(&mut layouter, Some(felt(0o52)), known(&[5, 2])).unwrap();
    let expected: Vec<Felt> = (0..8).map(felt).collect();
    assert_eq!(layouter.table(TableColumn { index: 0 }), Some(&expected));
    assert_eq!(verify(&description, &layouter), Ok(()));
}

#[test]
fn a_decomposition_that_does_not_add_up_fails_the_equality() {
    assert_eq!(
        run(70000, &[1, 4464, 0]).0,
        Err(VerifyFailure::ConstraintNotSatisfied {
            gate: 0,
            constraint: 0,
            row: 0,
            value: felt(4587520000 - 70000),
        })
    );
    assert_eq!(
        run(70000, &[0, 1, 4463]).0,
        Err(VerifyFailure::ConstraintNotSatisfied {
            gate: 0,
            constraint: 0,
            row: 0,
            value: Felt::zero().minus(&felt(1)),
        })
    );
}

#[test]
fn a_limb_out_of_range_fails_the_lookup_though_the_limbs_add_up() {
    assert_eq!(
        run(65536, &[0, 0, 65536]).0,
        Err(VerifyFailure::Lookup { lookup: 0, input: 2, row: 0, found: Some(felt(65536)) })
    );
    assert_eq!(
        run(70000, &[0, 0, 70000]).0,
        Err(VerifyFailure::Lookup { lookup: 0, input: 2, row: 0, found: Some(felt(70000)) })
    );
    assert_eq!(
        run(1 << 32, &[0, 65536, 0]).0,
        Err(VerifyFailure::Lookup { lookup: 0, input: 1, row: 0, found: Some(felt(65536)) })
    );
    assert_eq!(
        run((65536 << 32) + 65536, &[65536, 0, 65536]).0,
        Err(VerifyFailure::Lookup { lookup: 0, input: 0, row: 0, found: Some(felt(65536)) })
    );
}

#[test]
fn the_failing_row_is_reported_and_the_others_stay() {
    let (description, config) = configured(16, 3);
    let chip = OverflowChipV2::construct(config).unwrap();
    let mut layouter = Layouter::new(&description, vec![]);
    chip.assign(&mut layouter, Some(felt(70000)), known(&[0, 1, 4464])).unwrap();
    assert_eq!(verify(&description, &layouter), Ok(()));
    chip.assign(&mut layouter, Some(felt(65536)), known(&[0, 0, 65536])).unwrap();
    chip.assign(&mut layouter, Some(felt(9)), known(&[0, 0, 9])).unwrap();
    assert_eq!(layouter.rows(), 3);
    assert_eq!(layouter.table(TableColumn { index: 0 }).unwrap().len(), 65536);
    assert_eq!(layouter.advice(AdviceColumn { index: 3 }, 0), Some(felt(4464)));
    assert_eq!(
        verify(&description, &layouter),
        Err(VerifyFailure::Lookup { lookup: 0, input: 2, row: 1, found: Some(felt(65536)) })
    );
    // checking changes nothing
    assert_eq!(layouter.rows(), 3);
    assert_eq!(layouter.advice(AdviceColumn { index: 3 }, 1), Some(felt(65536)));
}

#[test]
fn the_limbs_of_decompose_are_satisfied() {
    let (description, config) = configured(16, 3);
    let chip = OverflowChipV2::construct(config).unwrap();
    let mut layouter = Layouter::new(&description, vec![]);
    for v in [0u64, 1, 65535, 65536, 70000, 4587520000, (1 << 48) - 1] {
        let limbs = decompose(&felt(v), 16, 3).unwrap().into_iter().map(Some).collect();
        chip.assign(&mut layouter, Some(felt(v)), limbs).unwrap();
    }
    assert_eq!(layouter.rows(), 7);
    assert_eq!(verify(&description, &layouter), Ok(()));

    let (description, config) = configured(5, 7);
    let chip = OverflowChipV2::construct(config).unwrap();
    let mut layouter = Layouter::new(&description, vec![]);
    let v = felt((1 << 35) - 12345);
    let limbs = decompose(&v, 5, 7).unwrap().into_iter().map(Some).collect();
    chip.assign(&mut layouter, Some(v), limbs).unwrap();
    assert_eq!(verify(&description, &layouter), Ok(()));
}

#[test]
fn assign_returns_the_cells_and_they_can_be_exposed() {
    let (description, config) = configured(16, 3);
    let chip = OverflowChipV2::construct(config).unwrap();
    let mut layouter = Layouter::new(&description, vec![vec![felt(70000), felt(4464), felt(2)]]);
    let (value, limbs) =
        chip.assign(&mut layouter, Some(felt(70000)), known(&[0, 1, 4464])).unwrap();
    assert_eq!(value.value, felt(70000));
    assert_eq!(value.cell, Cell { column: Column::Advice(AdviceColumn { index: 0 }), row: 0 });
    assert_eq!(limbs.len(), 3);
    for (i, expected) in [0u64, 1, 4464].into_iter().enumerate() {
        assert_eq!(limbs[i].value, felt(expected));
        assert_eq!(
            limbs[i].cell,
            Cell { column: Column::Advice(AdviceColumn { index: i + 1 }), row: 0 }
        );
    }
    assert_eq!(chip.expose_public(&mut layouter, &value, 0), Ok(()));
    assert_eq!(chip.expose_public(&mut layouter, &limbs[2], 1), Ok(()));
    assert_eq!(verify(&description, &layouter), Ok(()));
    assert_eq!(
        chip.expose_public(&mut layouter, &limbs[1], 3),
        Err(fault(ErrorKind::NotAssigned, 0, 3))
    );
    assert_eq!(chip.expose_public(&mut layouter, &limbs[1], 2), Ok(()));
    assert_eq!(
        verify(&description, &layouter),
        Err(VerifyFailure::Permutation { copy: 2, left: Some(felt(1)), right: Some(felt(2)) })
    );
}

#[test]
fn assign_faults_change_nothing() {
    let (description, config) = configured(16, 3);
    let chip = OverflowChipV2::construct(again(&config)).unwrap();
    let mut layouter = Layouter::new(&description, vec![]);
    assert_eq!(
        chip.assign(&mut layouter, None, known(&[0, 1, 4464])).err(),
        Some(fault(ErrorKind::NotAssigned, 0, 0))
    );
    assert_eq!(
        chip.assign(&mut layouter, Some(felt(1)), vec![Some(felt(0)), None, None]).err(),
        Some(fault(ErrorKind::NotAssigned, 2, 0))
    );
    assert_eq!(
        chip.assign(&mut layouter, Some(felt(1)), known(&[0, 1])).err(),
        Some(fault(ErrorKind::InvalidParameters, 0, 0))
    );
    assert_eq!(
        chip.assign(&mut layouter, None, known(&[0, 1, 2, 3])).err(),
        Some(fault(ErrorKind::InvalidParameters, 0, 0))
    );
    assert_eq!(layouter.rows(), 0);
    assert!(!layouter.table_loaded(TableColumn { index: 0 }));

    let twice = OverflowChipV2::construct(OverflowCheckV2Config {
        decomposed_values: vec![config.decomposed_values[0], config.value, config.decomposed_values[2]],
        ..again(&config)
    })
    .unwrap();
    assert_eq!(
        twice.assign(&mut layouter, Some(felt(1)), known(&[0, 0, 1])).err(),
        Some(fault(ErrorKind::DuplicateColumn, 0, 0))
    );
    let elsewhere = OverflowChipV2::construct(OverflowCheckV2Config {
        decomposed_values: vec![
            config.decomposed_values[0],
            config.decomposed_values[1],
            AdviceColumn { index: 4 },
        ],
        ..again(&config)
    })
    .unwrap();
    assert_eq!(
        elsewhere.assign(&mut layouter, Some(felt(1)), known(&[0, 0, 1])).err(),
        Some(fault(ErrorKind::UnknownColumn, 4, 0))
    );
    let unselected = OverflowChipV2::construct(OverflowCheckV2Config {
        complex_selector: Selector { index: 2 },
        ..again(&config)
    })
    .unwrap();
    assert_eq!(
        unselected.assign(&mut layouter, Some(felt(1)), known(&[0, 0, 1])).err(),
        Some(fault(ErrorKind::UnknownSelector, 2, 0))
    );
    let untabled = OverflowChipV2::construct(OverflowCheckV2Config {
        table: TableColumn { index: 1 },
        ..again(&config)
    })
    .unwrap();
    assert_eq!(
        untabled.assign(&mut layouter, Some(felt(1)), known(&[0, 0, 1])).err(),
        Some(fault(ErrorKind::UnknownTable, 1, 0))
    );
    assert_eq!(layouter.rows(), 0);
    assert!(!layouter.table_loaded(TableColumn { index: 0 }));
    assert_eq!(config.instance, InstanceColumn { index: 0 });
}

fn circuit_run(bits: u32, value: Felt, limbs: Vec<Option<Felt>>) -> Result<Layouter, Failure> {
    let mut meta = ConstraintSystem::new();
    let config = OverflowCheckV2Circuit::configure(&mut meta, bits, limbs.len()).unwrap();
    let description = meta.freeze();
    let circuit = OverflowCheckV2Circuit { value: Some(value), decomposed_values: limbs };
    circuit.run(&description, config, vec![])
}

#[test]
fn the_circuit_configures_the_chip_in_columns_of_its_own() {
    let mut meta = ConstraintSystem::new();
    meta.advice_column();
    meta.selector();
    let config = OverflowCheckV2Circuit::configure(&mut meta, 16, 3).unwrap();
    assert_eq!(config.limb_bits, 16);
    assert_eq!(config.value, AdviceColumn { index: 1 });
    assert_eq!(
        config.decomposed_values,
        vec![AdviceColumn { index: 2 }, AdviceColumn { index: 3 }, AdviceColumn { index: 4 }]
    );
    assert_eq!(config.instance, InstanceColumn { index: 0 });
    assert_eq!(config.table, TableColumn { index: 0 });
    assert_eq!(config.simple_selector, Selector { index: 1 });
    assert_eq!(config.complex_selector, Selector { index: 2 });
    let description = meta.freeze();
    assert_eq!(description.num_advice(), 5);
    assert_eq!(description.num_selectors(), 3);
    assert_eq!(description.gates().len(), 1);
    assert_eq!(description.lookups().len(), 1);

    let mut meta = ConstraintSystem::new();
    assert_eq!(
        OverflowCheckV2Circuit::configure(&mut meta, 17, 3).err(),
        Some(fault(ErrorKind::InvalidParameters, 0, 0))
    );
    assert_eq!(meta.freeze().num_advice(), 0);
}

#[test]
fn limbs_within_range_that_stand_for_the_value_always_pass() {
    for (bits, limbs) in [(16u32, 3usize), (1, 8), (4, 5), (16, 15), (7, 1)] {
        let most = bits * (limbs as u32);
        for value in [felt(0), felt(1), felt(70000), Felt::power_of_two(most - 1)] {
            let Ok(digits) = decompose(&value, bits, limbs) else {
                continue;
            };
            let layouter = circuit_run(bits, value, digits.into_iter().map(Some).collect()).unwrap();
            assert_eq!(layouter.rows(), 1);
        }
    }
}

#[test]
fn a_limb_out_of_range_never_passes() {
    let cases: [(u64, [u64; 3]); 5] = [
        (65536, [0, 0, 65536]),
        (70000, [0, 0, 70000]),
        (1 << 32, [0, 65536, 0]),
        (5, [65536, 70000, 1]),
        (0, [0, 0, u64::MAX]),
    ];
    for (value, limbs) in cases {
        let verdict = circuit_run(16, felt(value), known(&limbs));
        assert!(matches!(verdict, Err(Failure::Constraint(_))));
    }
    assert_eq!(
        circuit_run(16, felt(65536), known(&[0, 0, 65536])).err(),
        Some(Failure::Constraint(VerifyFailure::Lookup {
            lookup: 0,
            input: 2,
            row: 0,
            found: Some(felt(65536)),
        }))
    );
}

#[test]
fn the_circuit_tells_why_a_row_did_not_pass() {
    assert_eq!(
        circuit_run(16, felt(70000), known(&[1, 4464, 0])).err(),
        Some(Failure::Constraint(VerifyFailure::ConstraintNotSatisfied {
            gate: 0,
            constraint: 0,
            row: 0,
            value: felt(4587520000 - 70000),
        }))
    );
    assert_eq!(
        circuit_run(16, felt(1), vec![Some(felt(0)), None, Some(felt(1))]).err(),
        Some(Failure::Layout(fault(ErrorKind::NotAssigned, 2, 0)))
    );
    let (description, config) = configured(16, 3);
    let circuit = OverflowCheckV2Circuit { value: None, decomposed_values: known(&[0, 0, 1]) };
    assert_eq!(
        circuit.run(&description, again(&config), vec![]).err(),
        Some(Failure::Layout(fault(ErrorKind::NotAssigned, 0, 0)))
    );
    let circuit = OverflowCheckV2Circuit { value: Some(felt(1)), decomposed_values: known(&[0, 0, 1]) };
    let unfit = OverflowCheckV2Config { limb_bits: 17, ..again(&config) };
    assert_eq!(
        circuit.run(&description, unfit, vec![]).err(),
        Some(Failure::Layout(fault(ErrorKind::InvalidParameters, 0, 0)))
    );
}

#[test]
fn a_table_that_is_not_the_range_is_refused() {
    let (description, config) = configured(16, 3);
    let chip = OverflowChipV2::construct(again(&config)).unwrap();
    let refused = fault(ErrorKind::TableAlreadyLoaded, 0, 0);
    let tables: [Vec<Felt>; 4] = [
        vec![felt(0), felt(65536)],
        vec![],
        (0..65535).map(felt).collect(),
        (0..65536).map(|i| felt(if i == 7 { 65536 } else { i })).collect(),
    ];
    for table in tables {
        let mut layouter = Layouter::new(&description, vec![]);
        layouter.load_table(config.table, table.clone()).unwrap();
        assert_eq!(
            chip.assign(&mut layouter, Some(felt(65536)), known(&[0, 0, 65536])).err(),
            Some(refused)
        );
        assert_eq!(
            chip.assign(&mut layouter, Some(felt(1)), known(&[0, 0, 1])).err(),
            Some(refused)
        );
        assert_eq!(layouter.rows(), 0);
        assert_eq!(layouter.table(config.table), Some(&table));
    }
    // the range itself, loaded by someone else, is as good as the chip's own
    let mut layouter = Layouter::new(&description, vec![]);
    layouter.load_table(config.table, (0..65536).map(felt).collect()).unwrap();
    chip.assign(&mut layouter, Some(felt(70000)), known(&[0, 1, 4464])).unwrap();
    assert_eq!(verify(&description, &layouter), Ok(()));
    chip.assign(&mut layouter, Some(felt(65536)), known(&[0, 0, 65536])).unwrap();
    assert_eq!(
        verify(&description, &layouter),
        Err(VerifyFailure::Lookup { lookup: 0, input: 2, row: 1, found: Some(felt(65536)) })
    );
    // the range of another width is not
    let (description, narrow) = configured(8, 3);
    let chip = OverflowChipV2::construct(narrow).unwrap();
    let mut layouter = Layouter::new(&description, vec![]);
    layouter.load_table(config.table, (0..65536).map(felt).collect()).unwrap();
    assert_eq!(chip.assign(&mut layouter, Some(felt(1)), known(&[0, 0, 1])).err(), Some(refused));
    let cloned = chip.clone();
    let mut layouter = Layouter::new(&description, vec![]);
    cloned.assign(&mut layouter, Some(felt(0x010203)), known(&[1, 2, 3])).unwrap();
    assert_eq!(layouter.table(config.table).unwrap().len(), 256);
    assert_eq!(verify(&description, &layouter), Ok(()));
}
