//! Values that may not be known yet.
//!
//! A circuit is laid out twice: once to fix its shape, when no witness is at
//! hand, and once to fill the witness in. `Value` carries a witness through
//! both passes.

use vstd::prelude::*;

use crate::error::AssignmentError;

verus! {

/// A witness value: known during witness generation, unknown while only the
/// shape of the circuit is determined.
#[derive(Clone, Copy, Debug, PartialEq, Eq)]
pub enum Value<T> {
    /// No witness is at hand: only the shape of the circuit is laid out.
    Unknown,
    /// The witness.
    Known(T),
}

impl<T: View> View for Value<T> {
    type V = Value<T::V>;

    open spec fn view(&self) -> Value<T::V> {
        match *self {
            Value::Unknown => Value::Unknown,
            Value::Known(v) => Value::Known(v@),
        }
    }
}

impl<T> Value<T> {
    /// A value that is not known yet.
    pub fn unknown() -> (value: Self)
        ensures
            value == Value::<T>::Unknown,
    {
        Value::Unknown
    }

    /// A known value.
    pub fn known(inner: T) -> (value: Self)
        ensures
            value == Value::Known(inner),
    {
        Value::Known(inner)
    }

    /// Reads the value out, which fails while it is unknown.
    pub fn into_known(self) -> (inner: Result<T, AssignmentError>)
        ensures
            inner == match self {
                Value::Known(v) => Ok::<T, AssignmentError>(v),
                Value::Unknown => Err::<T, AssignmentError>(AssignmentError::UnknownValue),
            },
    {
        match self {
            Value::Known(v) => Ok(v),
            Value::Unknown => Err(AssignmentError::UnknownValue),
        }
    }
}

impl<T: Copy> Value<Vec<T>> {
    /// Turns a possibly unknown vector of `length` entries into a vector of
    /// `length` possibly unknown entries.
    pub fn transpose_vec(self, length: usize) -> (entries: Vec<Value<T>>)
        requires
            self matches Value::Known(v) ==> v@.len() == length,
        ensures
            entries@.len() == length,
            forall|i: int|
                0 <= i < length ==> #[trigger] entries@[i] == match self {
                    Value::Known(v) => Value::Known(v@[i]),
                    Value::Unknown => Value::Unknown,
                },
    {
        let mut entries: Vec<Value<T>> = Vec::new();
        let mut i: usize = 0;
        while i < length
            invariant
                i <= length,
                self matches Value::Known(v) ==> v@.len() == length,
                entries@.len() == i,
                forall|j: int|
                    0 <= j < i ==> #[trigger] entries@[j] == match self {
                        Value::Known(v) => Value::Known(v@[j]),
                        Value::Unknown => Value::Unknown,
                    },
            decreases length - i,
        {
            let entry = match &self {
                Value::Known(v) => Value::Known(v[i]),
                Value::Unknown => Value::Unknown,
            };
            entries.push(entry);
            i = i + 1;
        }
        entries
    }
}

} // verus!
