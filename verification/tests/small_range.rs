use halo2_proofs::pasta::group::ff::PrimeField;
use halo2_proofs::pasta::Fp;

use range_check::circuit::{Layouter, RegionOp};
use range_check::error::{AssignmentError, Error};
use range_check::field::FieldElement;
use range_check::plonk::{Column, ConstraintSystem, Expression, Selector};
use range_check::small_range::{range_check_polynomial, range_expression, SmallRangeConfig};
use range_check::value::Value;

fn fe(value: u64) -> FieldElement {
    FieldElement::from_u64(value)
}

fn to_fp(element: &FieldElement) -> Fp {
    Fp::from_repr(element.to_repr()).unwrap()
}

/// Evaluates an expression on a grid whose selectors are all `selector` and
/// whose advice cells all hold `cell`.
fn evaluate(expression: &Expression, selector: bool, cell: Fp) -> Fp {
    match expression {
        Expression::Constant(c) => to_fp(c),
        Expression::Selector(_) => Fp::from(selector as u64),
        Expression::Advice { .. } => cell,
        Expression::Negated(e) => -evaluate(e, selector, cell),
        Expression::Sum(a, b) => evaluate(a, selector, cell) + evaluate(b, selector, cell),
        Expression::Product(a, b) => evaluate(a, selector, cell) * evaluate(b, selector, cell),
    }
}

fn degree(expression: &Expression) -> usize {
    match expression {
        Expression::Constant(_) => 0,
        Expression::Selector(_) => 1,
        Expression::Advice { .. } => 1,
        Expression::Negated(e) => degree(e),
        Expression::Sum(a, b) => degree(a).max(degree(b)),
        Expression::Product(a, b) => degree(a) + degree(b),
    }
}

#[test]
fn polynomial_vanishes_below_the_bound() {
    for value in 0..8 {
        assert!(range_check_polynomial(&fe(value), 8).is_zero());
    }
}

#[test]
fn polynomial_does_not_vanish_at_the_bound() {
    assert!(!range_check_polynomial(&fe(8), 8).is_zero());
    assert_eq!(range_check_polynomial(&fe(8), 8), fe(40320));
}

#[test]
fn polynomial_is_the_product_of_the_differences() {
    assert_eq!(range_check_polynomial(&fe(10), 3), fe(10 * 9 * 8));
    assert_eq!(range_check_polynomial(&fe(5), 1), fe(5));
    assert_eq!(range_check_polynomial(&fe(1 << 20), 2), fe((1 << 20) * ((1 << 20) - 1)));
}

#[test]
fn polynomial_of_an_empty_range_is_one() {
    assert_eq!(range_check_polynomial(&fe(0), 0), fe(1));
    assert_eq!(range_check_polynomial(&fe(77), 0), fe(1));
}

#[test]
fn polynomial_does_not_vanish_on_negative_values() {
    // -1 in the field is far above any small bound.
    let mut bytes = [0u8; 32];
    bytes[4] = 0xed;
    bytes[5] = 0x30;
    bytes[6] = 0x2d;
    bytes[7] = 0x99;
    bytes[8] = 0x1b;
    bytes[9] = 0xf9;
    bytes[10] = 0x4c;
    bytes[11] = 0x09;
    bytes[12] = 0xfc;
    bytes[13] = 0x98;
    bytes[14] = 0x46;
    bytes[15] = 0x22;
    bytes[31] = 0x40;
    let minus_one = FieldElement::from_repr(bytes).unwrap();
    assert_eq!(to_fp(&minus_one), -Fp::one());
    assert!(!range_check_polynomial(&minus_one, 8).is_zero());
    // (-1)(-2)(-3) = -6
    assert_eq!(to_fp(&range_check_polynomial(&minus_one, 3)), -Fp::from(6));
}

#[test]
fn range_expression_evaluates_to_the_polynomial() {
    let mut meta = ConstraintSystem::new();
    let column = meta.advice_column();
    for range in [0usize, 1, 3, 8] {
        let expression = range_expression(&meta, column, range);
        for value in [0u64, 1, 2, 7, 8, 9, 1000] {
            assert_eq!(
                evaluate(&expression, true, Fp::from(value)),
                to_fp(&range_check_polynomial(&fe(value), range))
            );
        }
    }
}

#[test]
fn small_configure_allocates_a_simple_selector() {
    let mut meta = ConstraintSystem::new();
    meta.complex_selector();
    let value = meta.advice_column();
    let config = SmallRangeConfig::configure(&mut meta, value, 8);
    assert_eq!(
        config,
        SmallRangeConfig {
            value: Column { index: 0 },
            q_range_check: Selector { index: 1, simple: true },
            range: 8,
        }
    );
    assert_eq!(meta.selectors.len(), 2);
    assert!(meta.table_columns.is_empty());
    assert!(meta.lookups.is_empty());
}

#[test]
fn small_configure_registers_a_gate_of_degree_range_plus_one() {
    for range in [0usize, 1, 8, 20] {
        let mut meta = ConstraintSystem::new();
        let value = meta.advice_column();
        SmallRangeConfig::configure(&mut meta, value, range);
        assert_eq!(meta.gates.len(), 1);
        assert_eq!(meta.gates[0].name, "Range check");
        assert_eq!(degree(&meta.gates[0].polynomial), range + 1);
    }
}

#[test]
fn small_gate_holds_exactly_below_the_bound() {
    let mut meta = ConstraintSystem::new();
    let value = meta.advice_column();
    SmallRangeConfig::configure(&mut meta, value, 8);
    let polynomial = &meta.gates[0].polynomial;
    for cell in 0..8u64 {
        assert_eq!(evaluate(polynomial, true, Fp::from(cell)), Fp::zero());
    }
    for cell in [8u64, 9, 100, u64::MAX] {
        assert_ne!(evaluate(polynomial, true, Fp::from(cell)), Fp::zero());
        assert_eq!(evaluate(polynomial, false, Fp::from(cell)), Fp::zero());
    }
}

#[test]
fn small_assign_fills_one_row() {
    let mut meta = ConstraintSystem::new();
    let value = meta.advice_column();
    let config = SmallRangeConfig::configure(&mut meta, value, 8);
    let mut layouter = Layouter::new(10);
    assert_eq!(config.assign(&mut layouter, Value::Known(fe(8))), Ok(()));
    assert_eq!(config.assign(&mut layouter, Value::Unknown), Ok(()));
    assert_eq!(layouter.regions.len(), 2);
    assert_eq!(layouter.regions[0].name, "Assign value");
    assert_eq!(
        layouter.regions[0].ops,
        vec![
            RegionOp::EnableSelector { selector: config.q_range_check, offset: 0 },
            RegionOp::AssignAdvice { column: value, offset: 0, value: Value::Known(fe(8)) },
        ]
    );
    assert_eq!(layouter.regions[1].index, 1);
    assert_eq!(
        layouter.regions[1].ops[1],
        RegionOp::AssignAdvice { column: value, offset: 0, value: Value::Unknown }
    );
}

#[test]
fn small_assign_needs_a_row() {
    let mut meta = ConstraintSystem::new();
    let value = meta.advice_column();
    let config = SmallRangeConfig::configure(&mut meta, value, 8);
    let mut layouter = Layouter::new(0);
    assert_eq!(
        config.assign(&mut layouter, Value::Known(fe(1))),
        Err(Error::Assignment(AssignmentError::NotEnoughRows))
    );
    assert!(layouter.regions.is_empty());
}
