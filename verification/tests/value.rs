use range_check::error::AssignmentError;
use range_check::value::Value;

#[test]
fn known_and_unknown() {
    assert_eq!(Value::known(5u64), Value::Known(5));
    assert_eq!(Value::<u64>::unknown(), Value::Unknown);
    assert_ne!(Value::known(5u64), Value::unknown());
}

#[test]
fn into_known_reads_a_known_value() {
    assert_eq!(Value::known(9u8).into_known(), Ok(9));
}

#[test]
fn into_known_fails_on_an_unknown_value() {
    assert_eq!(Value::<u8>::unknown().into_known(), Err(AssignmentError::UnknownValue));
}

#[test]
fn transpose_vec_of_a_known_vector() {
    let entries = Value::known(vec![3u64, 1, 4]).transpose_vec(3);
    assert_eq!(entries, vec![Value::Known(3), Value::Known(1), Value::Known(4)]);
}

#[test]
fn transpose_vec_of_an_unknown_vector() {
    let entries = Value::<Vec<u64>>::unknown().transpose_vec(4);
    assert_eq!(entries, vec![Value::Unknown; 4]);
}

#[test]
fn transpose_vec_of_no_entries() {
    assert_eq!(Value::known(Vec::<u64>::new()).transpose_vec(0), vec![]);
    assert_eq!(Value::<Vec<u64>>::unknown().transpose_vec(0), vec![]);
}
