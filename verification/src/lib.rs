//! Range-check gadgets for PLONKish circuits over the Pallas base field.
//!
//! The crate describes three ways of constraining a witnessed field element
//! to a numeric range:
//! - [`small_range`]: a low-degree polynomial identity, for small bounds;
//! - [`range_check`]: that identity together with a lookup against a
//!   precomputed [`table`], for a bound of one table width;
//! - [`decompose`]: a [`running_sum`] decomposition into limbs of one table
//!   width each, for larger widths.
//!
//! The gadgets record what they ask of the arithmetization: columns, gates
//! and lookups in a [`plonk::ConstraintSystem`], cell assignments in a
//! [`circuit::Layouter`]. A backend adapter replays the record on a proving
//! system. What the recorded constraints mean is fixed by
//! [`plonk::Expression::eval`], and the gadgets' contracts and lemmas say
//! which values they accept.

pub mod bits;
pub mod circuit;
pub mod decompose;
pub mod error;
pub mod field;
pub mod plonk;
pub mod range_check;
pub mod running_sum;
pub mod small_range;
pub mod table;
pub mod value;
