//! What can go wrong while a circuit is described or assigned.

use vstd::prelude::*;

verus! {

/// A fault in how a circuit is put together. Circuit construction stops at
/// the first one.
#[derive(Clone, Copy, Debug, PartialEq, Eq)]
pub enum ConfigurationError {
    /// The bit width to decompose is zero or not a multiple of the limb width.
    DecompositionSize,
    /// A lookup table was asked for with no bits, or with more than a table
    /// column can hold.
    TableWidth,
    /// A lookup table was loaded a second time.
    TableAlreadyLoaded,
    /// A gadget that looks values up was assigned before its table was loaded.
    TableNotLoaded,
}

/// A fault while values are placed in a region. It ends the region.
#[derive(Clone, Copy, Debug, PartialEq, Eq)]
pub enum AssignmentError {
    /// A value was read as known while only the shape of the circuit is
    /// being laid out.
    UnknownValue,
    /// A cell lies beyond the rows that the region may use.
    NotEnoughRows,
}

/// Any fault of circuit construction.
#[derive(Clone, Copy, Debug, PartialEq, Eq)]
pub enum Error {
    /// The circuit is put together wrongly.
    Configuration(ConfigurationError),
    /// A region could not be filled.
    Assignment(AssignmentError),
}

} // verus!
