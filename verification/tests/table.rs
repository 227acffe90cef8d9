use std::collections::HashSet;

use range_check::circuit::Layouter;
use range_check::error::{AssignmentError, ConfigurationError, Error};
use range_check::field::FieldElement;
use range_check::plonk::{ConstraintSystem, TableColumn};
use range_check::table::{RangeCheckTable, TableTransform, MAX_LOOKUP_BITS};

fn elements(values: impl Iterator<Item = u64>) -> Vec<FieldElement> {
    values.map(FieldElement::from_u64).collect()
}

fn table(lookup_num_bits: usize, transform: TableTransform) -> RangeCheckTable {
    RangeCheckTable { value: TableColumn { index: 0 }, lookup_num_bits, transform }
}

#[test]
fn configure_allocates_one_table_column() {
    let mut meta = ConstraintSystem::new();
    meta.lookup_table_column();
    let configured = RangeCheckTable::configure(&mut meta, 8, TableTransform::Identity).unwrap();
    assert_eq!(
        configured,
        RangeCheckTable {
            value: TableColumn { index: 1 },
            lookup_num_bits: 8,
            transform: TableTransform::Identity,
        }
    );
    assert_eq!(meta.table_columns.len(), 2);
}

#[test]
fn configure_refuses_a_table_without_bits() {
    let mut meta = ConstraintSystem::new();
    assert_eq!(
        RangeCheckTable::configure(&mut meta, 0, TableTransform::Identity),
        Err(Error::Configuration(ConfigurationError::TableWidth))
    );
    assert!(meta.table_columns.is_empty());
}

#[test]
fn configure_refuses_a_table_that_is_too_wide() {
    let mut meta = ConstraintSystem::new();
    assert_eq!(MAX_LOOKUP_BITS, 31);
    assert_eq!(
        RangeCheckTable::configure(&mut meta, 32, TableTransform::Square),
        Err(Error::Configuration(ConfigurationError::TableWidth))
    );
    assert!(RangeCheckTable::configure(&mut meta, 31, TableTransform::Square).is_ok());
}

#[test]
fn a_plain_table_holds_every_limb_once() {
    let values = table(8, TableTransform::Identity).values().unwrap();
    assert_eq!(values, elements(0..256));
    let distinct: HashSet<[u8; 32]> = values.iter().map(|v| v.to_repr()).collect();
    assert_eq!(distinct.len(), 256);
}

#[test]
fn a_table_of_one_bit() {
    assert_eq!(table(1, TableTransform::Identity).values().unwrap(), elements(0..2));
}

#[test]
fn a_table_of_squares() {
    let values = table(3, TableTransform::Square).values().unwrap();
    assert_eq!(values, elements([0, 1, 4, 9, 16, 25, 36, 49].into_iter()));
    let wide = table(8, TableTransform::Square).values().unwrap();
    assert_eq!(wide.len(), 256);
    assert_eq!(wide[255], FieldElement::from_u64(255 * 255));
    let distinct: HashSet<[u8; 32]> = wide.iter().map(|v| v.to_repr()).collect();
    assert_eq!(distinct.len(), 256);
}

#[test]
fn values_refuses_a_width_that_no_table_has() {
    assert_eq!(
        table(0, TableTransform::Identity).values(),
        Err(Error::Configuration(ConfigurationError::TableWidth))
    );
    assert_eq!(
        table(40, TableTransform::Identity).values(),
        Err(Error::Configuration(ConfigurationError::TableWidth))
    );
}

#[test]
fn load_fills_the_column() {
    let mut layouter = Layouter::new(300);
    let plain = table(8, TableTransform::Identity);
    assert_eq!(plain.load(&mut layouter), Ok(()));
    assert_eq!(layouter.tables.len(), 1);
    assert_eq!(layouter.tables[0].column, plain.value);
    assert_eq!(layouter.tables[0].values, elements(0..256));
    assert!(layouter.regions.is_empty());
}

#[test]
fn load_twice_is_refused() {
    let mut layouter = Layouter::new(300);
    let plain = table(4, TableTransform::Identity);
    assert_eq!(plain.load(&mut layouter), Ok(()));
    assert_eq!(
        plain.load(&mut layouter),
        Err(Error::Configuration(ConfigurationError::TableAlreadyLoaded))
    );
    assert_eq!(layouter.tables.len(), 1);
}

#[test]
fn load_needs_a_row_for_every_value() {
    let mut layouter = Layouter::new(255);
    assert_eq!(
        table(8, TableTransform::Identity).load(&mut layouter),
        Err(Error::Assignment(AssignmentError::NotEnoughRows))
    );
    assert!(layouter.tables.is_empty());
    let mut exact = Layouter::new(256);
    assert_eq!(table(8, TableTransform::Identity).load(&mut exact), Ok(()));
}

#[test]
fn load_refuses_a_width_that_no_table_has() {
    let mut layouter = Layouter::new(300);
    assert_eq!(
        table(0, TableTransform::Identity).load(&mut layouter),
        Err(Error::Configuration(ConfigurationError::TableWidth))
    );
    assert!(layouter.tables.is_empty());
}
