use range_check::field::FieldElement;
use range_check::plonk::{
    Column, ConstraintSystem, Expression, FixedColumn, Rotation, Selector, TableColumn,
};

#[test]
fn a_new_constraint_system_is_empty() {
    let meta = ConstraintSystem::new();
    assert!(meta.advice_columns.is_empty());
    assert!(meta.fixed_columns.is_empty());
    assert!(meta.table_columns.is_empty());
    assert!(meta.selectors.is_empty());
    assert!(meta.gates.is_empty());
    assert!(meta.lookups.is_empty());
    assert!(meta.equality.is_empty());
    assert!(meta.constants.is_empty());
}

#[test]
fn columns_are_numbered_by_kind() {
    let mut meta = ConstraintSystem::new();
    assert_eq!(meta.advice_column(), Column { index: 0 });
    assert_eq!(meta.fixed_column(), FixedColumn { index: 0 });
    assert_eq!(meta.advice_column(), Column { index: 1 });
    assert_eq!(meta.lookup_table_column(), TableColumn { index: 0 });
    assert_eq!(meta.lookup_table_column(), TableColumn { index: 1 });
    assert_eq!(meta.advice_column(), Column { index: 2 });
    assert_eq!(meta.advice_columns.len(), 3);
    assert_eq!(meta.fixed_columns, vec![FixedColumn { index: 0 }]);
    assert_eq!(meta.table_columns.len(), 2);
}

#[test]
fn selectors_share_one_numbering() {
    let mut meta = ConstraintSystem::new();
    assert_eq!(meta.selector(), Selector { index: 0, simple: true });
    assert_eq!(meta.complex_selector(), Selector { index: 1, simple: false });
    assert_eq!(meta.selector(), Selector { index: 2, simple: true });
    assert_eq!(
        meta.selectors,
        vec![
            Selector { index: 0, simple: true },
            Selector { index: 1, simple: false },
            Selector { index: 2, simple: true },
        ]
    );
}

#[test]
fn rotations() {
    assert_eq!(Rotation::cur(), Rotation(0));
    assert_eq!(Rotation::next(), Rotation(1));
}

#[test]
fn equality_and_constants_are_recorded_in_order() {
    let mut meta = ConstraintSystem::new();
    let a = meta.advice_column();
    let b = meta.advice_column();
    let f = meta.fixed_column();
    meta.enable_equality(b);
    meta.enable_equality(a);
    meta.enable_constant(f);
    assert_eq!(meta.equality, vec![b, a]);
    assert_eq!(meta.constants, vec![f]);
}

#[test]
fn queries_build_leaves() {
    let mut meta = ConstraintSystem::new();
    let column = meta.advice_column();
    let selector = meta.complex_selector();
    match meta.query_advice(column, Rotation::next()) {
        Expression::Advice { column: c, rotation } => {
            assert_eq!(c, column);
            assert_eq!(rotation, Rotation(1));
        }
        other => panic!("not an advice query: {:?}", other),
    }
    match meta.query_selector(selector) {
        Expression::Selector(s) => assert_eq!(s, selector),
        other => panic!("not a selector query: {:?}", other),
    }
}

#[test]
fn minus_adds_the_negation() {
    let one = Expression::Constant(FieldElement::from_u64(1));
    let two = Expression::Constant(FieldElement::from_u64(2));
    match one.minus(two) {
        Expression::Sum(a, b) => {
            assert!(matches!(*a, Expression::Constant(c) if c == FieldElement::from_u64(1)));
            match *b {
                Expression::Negated(inner) => {
                    assert!(
                        matches!(*inner, Expression::Constant(c) if c == FieldElement::from_u64(2))
                    );
                }
                other => panic!("not a negation: {:?}", other),
            }
        }
        other => panic!("not a sum: {:?}", other),
    }
}

#[test]
fn times_builds_a_product() {
    let two = Expression::Constant(FieldElement::from_u64(2));
    let three = Expression::Constant(FieldElement::from_u64(3));
    match two.times(three) {
        Expression::Product(a, b) => {
            assert!(matches!(*a, Expression::Constant(c) if c == FieldElement::from_u64(2)));
            assert!(matches!(*b, Expression::Constant(c) if c == FieldElement::from_u64(3)));
        }
        other => panic!("not a product: {:?}", other),
    }
}

#[test]
fn gates_and_lookups_are_recorded_in_order() {
    let mut meta = ConstraintSystem::new();
    let column = meta.advice_column();
    let table = meta.lookup_table_column();
    let first = meta.query_advice(column, Rotation::cur());
    let second = meta.query_advice(column, Rotation::next());
    meta.create_gate("first", first);
    meta.create_gate("second", second);
    assert_eq!(meta.gates.len(), 2);
    assert_eq!(meta.gates[0].name, "first");
    assert_eq!(meta.gates[1].name, "second");
    let input = meta.query_advice(column, Rotation::cur());
    assert_eq!(meta.lookup(input, table), 0);
    let input = meta.query_advice(column, Rotation::cur());
    assert_eq!(meta.lookup(input, table), 1);
    assert_eq!(meta.lookups[1].table, table);
}
