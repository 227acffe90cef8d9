use halo2_proofs::pasta::group::ff::PrimeField;
use halo2_proofs::pasta::Fp;

use range_check::circuit::{Layouter, RegionOp};
use range_check::error::{AssignmentError, ConfigurationError, Error};
use range_check::field::FieldElement;
use range_check::plonk::{Column, ConstraintSystem, Expression, Selector, TableColumn};
use range_check::range_check::RangeCheckConfig;
use range_check::table::{RangeCheckTable, TableTransform};
use range_check::value::Value;

fn fe(value: u64) -> FieldElement {
    FieldElement::from_u64(value)
}

fn to_fp(element: &FieldElement) -> Fp {
    Fp::from_repr(element.to_repr()).unwrap()
}

/// Evaluates an expression on a grid whose selectors are all `selector` and
/// whose advice cells all hold `cell`.
fn evaluate(expression: &Expression, selector: bool, cell: Fp) -> Fp {
    match expression {
        Expression::Constant(c) => to_fp(c),
        Expression::Selector(_) => Fp::from(selector as u64),
        Expression::Advice { .. } => cell,
        Expression::Negated(e) => -evaluate(e, selector, cell),
        Expression::Sum(a, b) => evaluate(a, selector, cell) + evaluate(b, selector, cell),
        Expression::Product(a, b) => evaluate(a, selector, cell) * evaluate(b, selector, cell),
    }
}

fn configured(
    range: usize,
    bits: usize,
    transform: TableTransform,
) -> (ConstraintSystem, RangeCheckConfig) {
    let mut meta = ConstraintSystem::new();
    let value = meta.advice_column();
    let config = RangeCheckConfig::configure(&mut meta, value, range, bits, transform).unwrap();
    (meta, config)
}

#[test]
fn configure_allocates_selectors_and_table() {
    let (meta, config) = configured(8, 8, TableTransform::Identity);
    assert_eq!(
        config,
        RangeCheckConfig {
            value: Column { index: 0 },
            q_range_check: Selector { index: 0, simple: true },
            q_lookup: Selector { index: 1, simple: false },
            table: RangeCheckTable {
                value: TableColumn { index: 0 },
                lookup_num_bits: 8,
                transform: TableTransform::Identity,
            },
            range: 8,
        }
    );
    assert_eq!(meta.advice_columns.len(), 1);
    assert_eq!(meta.selectors, vec![config.q_range_check, config.q_lookup]);
    assert_eq!(meta.table_columns, vec![config.table.value]);
    assert!(meta.equality.is_empty());
    assert!(meta.constants.is_empty());
}

#[test]
fn configure_registers_the_range_gate() {
    let (meta, _) = configured(8, 8, TableTransform::Identity);
    assert_eq!(meta.gates.len(), 1);
    assert_eq!(meta.gates[0].name, "Range check");
    let polynomial = &meta.gates[0].polynomial;
    for value in 0..8u64 {
        assert_eq!(evaluate(polynomial, true, Fp::from(value)), Fp::zero());
    }
    assert_eq!(evaluate(polynomial, true, Fp::from(8)), Fp::from(40320));
    assert_eq!(evaluate(polynomial, false, Fp::from(8)), Fp::zero());
}

#[test]
fn configure_registers_the_lookup() {
    let (meta, config) = configured(8, 8, TableTransform::Identity);
    assert_eq!(meta.lookups.len(), 1);
    assert_eq!(meta.lookups[0].table, config.table.value);
    let input = &meta.lookups[0].input;
    assert_eq!(evaluate(input, true, Fp::from(200)), Fp::from(200));
    assert_eq!(evaluate(input, false, Fp::from(200)), Fp::zero());
}

#[test]
fn configure_looks_the_square_up_in_a_table_of_squares() {
    let (meta, _) = configured(8, 8, TableTransform::Square);
    let input = &meta.lookups[0].input;
    assert_eq!(evaluate(input, true, Fp::from(12)), Fp::from(144));
    assert_eq!(evaluate(input, false, Fp::from(12)), Fp::zero());
}

#[test]
fn range_check_refuses_a_table_without_bits() {
    let mut meta = ConstraintSystem::new();
    let value = meta.advice_column();
    let result = RangeCheckConfig::configure(&mut meta, value, 8, 0, TableTransform::Identity);
    assert_eq!(result, Err(Error::Configuration(ConfigurationError::TableWidth)));
    assert!(meta.selectors.is_empty());
    assert!(meta.table_columns.is_empty());
    assert!(meta.gates.is_empty());
    assert!(meta.lookups.is_empty());
}

#[test]
fn range_check_assign_small_fills_one_row() {
    let (_, config) = configured(8, 8, TableTransform::Identity);
    let mut layouter = Layouter::new(16);
    assert_eq!(config.assign_small(&mut layouter, Value::Known(fe(5))), Ok(()));
    assert_eq!(layouter.regions.len(), 1);
    let region = &layouter.regions[0];
    assert_eq!(region.name, "Assign value");
    assert_eq!(region.index, 0);
    assert_eq!(
        region.ops,
        vec![
            RegionOp::EnableSelector { selector: config.q_range_check, offset: 0 },
            RegionOp::AssignAdvice { column: config.value, offset: 0, value: Value::Known(fe(5)) },
        ]
    );
}

#[test]
fn assign_lookup_fills_one_row() {
    let (_, config) = configured(8, 8, TableTransform::Identity);
    let mut layouter = Layouter::new(300);
    config.table.load(&mut layouter).unwrap();
    assert_eq!(config.assign_lookup(&mut layouter, Value::Unknown), Ok(()));
    let region = &layouter.regions[0];
    assert_eq!(region.name, "Assign value in lookup");
    assert_eq!(
        region.ops,
        vec![
            RegionOp::EnableSelector { selector: config.q_lookup, offset: 0 },
            RegionOp::AssignAdvice { column: config.value, offset: 0, value: Value::Unknown },
        ]
    );
}

#[test]
fn assign_lookup_needs_the_table() {
    let (_, config) = configured(8, 8, TableTransform::Identity);
    let mut layouter = Layouter::new(300);
    assert_eq!(
        config.assign_lookup(&mut layouter, Value::Known(fe(5))),
        Err(Error::Configuration(ConfigurationError::TableNotLoaded))
    );
    assert!(layouter.regions.is_empty());
}

#[test]
fn assign_needs_a_row() {
    let (_, config) = configured(8, 1, TableTransform::Identity);
    let mut layouter = Layouter::new(0);
    assert_eq!(
        config.assign_small(&mut layouter, Value::Known(fe(5))),
        Err(Error::Assignment(AssignmentError::NotEnoughRows))
    );
    assert!(layouter.regions.is_empty());
}

#[test]
fn assign_picks_the_check_by_the_range() {
    let (_, config) = configured(8, 8, TableTransform::Identity);
    let mut layouter = Layouter::new(300);
    config.table.load(&mut layouter).unwrap();
    assert_eq!(config.assign(&mut layouter, Value::Known(fe(3)), 7), Ok(()));
    assert_eq!(config.assign(&mut layouter, Value::Known(fe(3)), 8), Ok(()));
    assert_eq!(config.assign(&mut layouter, Value::Known(fe(3)), 9), Ok(()));
    assert_eq!(config.assign(&mut layouter, Value::Known(fe(3)), 256), Ok(()));
    assert_eq!(layouter.regions[0].name, "Assign value");
    assert_eq!(layouter.regions[1].name, "Assign value");
    assert_eq!(layouter.regions[2].name, "Assign value in lookup");
    assert_eq!(layouter.regions[3].name, "Assign value in lookup");
    assert_eq!(layouter.regions[3].index, 3);
}

#[test]
fn assign_checks_the_bound_itself_by_the_gate() {
    let (_, config) = configured(8, 8, TableTransform::Identity);
    let mut layouter = Layouter::new(300);
    config.table.load(&mut layouter).unwrap();
    assert_eq!(config.assign(&mut layouter, Value::Known(fe(8)), 8), Ok(()));
    assert_eq!(
        layouter.regions[0].ops,
        vec![
            RegionOp::EnableSelector { selector: config.q_range_check, offset: 0 },
            RegionOp::AssignAdvice { column: config.value, offset: 0, value: Value::Known(fe(8)) },
        ]
    );
}

#[test]
fn assign_by_the_gate_needs_no_table() {
    let (_, config) = configured(8, 8, TableTransform::Identity);
    let mut layouter = Layouter::new(300);
    assert_eq!(config.assign(&mut layouter, Value::Known(fe(3)), 8), Ok(()));
    assert_eq!(
        config.assign(&mut layouter, Value::Known(fe(3)), 9),
        Err(Error::Configuration(ConfigurationError::TableNotLoaded))
    );
    assert_eq!(layouter.regions.len(), 1);
}
