//! The lookup table of a range check: one row for every limb value.

use vstd::arithmetic::power2::{lemma2_to64, lemma_pow2_strictly_increases, pow2};
use vstd::prelude::*;

use crate::circuit::{values_view, Layouter, TableAssignment};
use crate::error::{AssignmentError, ConfigurationError, Error};
use crate::field::{fp_from_u64, FieldElement};
use crate::plonk::{ConstraintSystem, TableColumn};

verus! {

/// The widest table that can be asked for, in bits.
pub const MAX_LOOKUP_BITS: usize = 31;

/// What row `i` of a table holds.
#[derive(Clone, Copy, Debug, PartialEq, Eq)]
pub enum TableTransform {
    /// Row `i` holds `i`: the table of a plain range check.
    Identity,
    /// Row `i` holds `i * i`: the table of a squared-membership check.
    Square,
}

/// A lookup table with `2^lookup_num_bits` rows in one table column.
#[derive(Clone, Copy, Debug, PartialEq, Eq)]
pub struct RangeCheckTable {
    pub value: TableColumn,
    pub lookup_num_bits: usize,
    pub transform: TableTransform,
}

impl RangeCheckTable {
    /// The number of rows: `2^lookup_num_bits`.
    pub open spec fn range(self) -> nat {
        pow2(self.lookup_num_bits as nat)
    }

    /// What row `i` holds.
    pub open spec fn entry(self, i: nat) -> nat {
        match self.transform {
            TableTransform::Identity => i,
            TableTransform::Square => i * i,
        }
    }

    /// The rows of the table, from row 0.
    pub open spec fn rows(self) -> Seq<nat> {
        Seq::new(self.range(), |i: int| self.entry(i as nat))
    }

    /// Whether some row of the table holds `value`.
    pub open spec fn holds(self, value: nat) -> bool {
        exists|i: nat| i < self.range() && #[trigger] self.entry(i) == value
    }

    /// Whether the width is one that a table can have.
    pub open spec fn valid_width(lookup_num_bits: usize) -> bool {
        0 < lookup_num_bits <= MAX_LOOKUP_BITS
    }

    /// Allocates the table's column. A table has at least one bit and at
    /// most [`MAX_LOOKUP_BITS`].
    pub fn configure(
        meta: &mut ConstraintSystem,
        lookup_num_bits: usize,
        transform: TableTransform,
    ) -> (result: Result<RangeCheckTable, Error>)
        ensures
            match result {
                Ok(table) => {
                    &&& Self::valid_width(lookup_num_bits)
                    &&& table == (RangeCheckTable {
                        value: TableColumn { index: old(meta).table_columns@.len() as usize },
                        lookup_num_bits,
                        transform,
                    })
                    &&& *final(meta) == (ConstraintSystem {
                        table_columns: final(meta).table_columns,
                        ..*old(meta)
                    })
                    &&& final(meta).table_columns@ == old(meta).table_columns@.push(table.value)
                },
                Err(e) => {
                    &&& !Self::valid_width(lookup_num_bits)
                    &&& e == Error::Configuration(ConfigurationError::TableWidth)
                    &&& *final(meta) == *old(meta)
                },
            },
    {
        if lookup_num_bits == 0 || lookup_num_bits > MAX_LOOKUP_BITS {
            return Err(Error::Configuration(ConfigurationError::TableWidth));
        }
        let value = meta.lookup_table_column();
        Ok(RangeCheckTable { value, lookup_num_bits, transform })
    }

    /// Computes the rows of the table: row `i` holds `i`, or `i * i` for the
    /// squared variant, for every `i` below `2^lookup_num_bits`.
    pub fn values(&self) -> (result: Result<Vec<FieldElement>, Error>)
        ensures
            match result {
                Ok(values) => Self::valid_width(self.lookup_num_bits) && values_view(values@)
                    == self.rows(),
                Err(e) => !Self::valid_width(self.lookup_num_bits) && e == Error::Configuration(
                    ConfigurationError::TableWidth,
                ),
            },
    {
        if self.lookup_num_bits == 0 || self.lookup_num_bits > MAX_LOOKUP_BITS {
            return Err(Error::Configuration(ConfigurationError::TableWidth));
        }
        proof {
            lemma2_to64();
            vstd::bits::lemma_u64_shl_is_mul(1u64, self.lookup_num_bits as u64);
            if self.lookup_num_bits < 31 {
                lemma_pow2_strictly_increases(self.lookup_num_bits as nat, 31);
            }
            lemma_pow2_strictly_increases(self.lookup_num_bits as nat, 32);
        }
        let range: u64 = 1u64 << (self.lookup_num_bits as u64);
        let mut values: Vec<FieldElement> = Vec::new();
        let mut i: u64 = 0;
        while i < range
            invariant
                i <= range,
                range == self.range(),
                range <= 0x8000_0000,
                values@.len() == i,
                forall|j: int| 0 <= j < i ==> (#[trigger] values@[j])@ == self.entry(j as nat),
            decreases range - i,
        {
            let entry: u64 = match self.transform {
                TableTransform::Identity => i,
                TableTransform::Square => {
                    assert(i * i <= 0x8000_0000 * 0x8000_0000) by (nonlinear_arith)
                        requires
                            i <= 0x8000_0000,
                    ;
                    i * i
                },
            };
            values.push(fp_from_u64(entry));
            i = i + 1;
        }
        proof {
            assert(values_view(values@) =~= self.rows());
        }
        Ok(values)
    }

    /// Loads the table into its column: `2^lookup_num_bits` rows, row `i`
    /// holding `i`, or `i * i` for the squared variant. The table is loaded
    /// once, before any gadget that looks values up in it is assigned.
    pub fn load(&self, layouter: &mut Layouter) -> (result: Result<(), Error>)
        ensures
            match result {
                Ok(()) => {
                    &&& Self::valid_width(self.lookup_num_bits)
                    &&& !old(layouter).table_loaded(self.value)
                    &&& self.range() <= old(layouter).usable_rows
                    &&& final(layouter).usable_rows == old(layouter).usable_rows
                    &&& final(layouter).regions == old(layouter).regions
                    &&& final(layouter).tables@.len() == old(layouter).tables@.len() + 1
                    &&& final(layouter).tables@.drop_last() == old(layouter).tables@
                    &&& final(layouter).tables@.last().column == self.value
                    &&& values_view(final(layouter).tables@.last().values@) == self.rows()
                },
                Err(e) => {
                    &&& *final(layouter) == *old(layouter)
                    &&& e == if !Self::valid_width(self.lookup_num_bits) {
                        Error::Configuration(ConfigurationError::TableWidth)
                    } else if old(layouter).table_loaded(self.value) {
                        Error::Configuration(ConfigurationError::TableAlreadyLoaded)
                    } else {
                        Error::Assignment(AssignmentError::NotEnoughRows)
                    }
                    &&& !Self::valid_width(self.lookup_num_bits) || old(layouter).table_loaded(
                        self.value,
                    ) || self.range() > old(layouter).usable_rows
                },
            },
    {
        let values = self.values()?;
        proof {
            assert(values_view(values@).len() == values@.len());
            assert(self.rows().len() == self.range());
        }
        let result = layouter.assign_table(self.value, values);
        proof {
            if result.is_ok() {
                assert(layouter.tables@.drop_last() =~= old(layouter).tables@);
                assert(layouter.tables@.last() == (TableAssignment { column: self.value, values }));
            }
        }
        result
    }
}

/// The rows of a table are the values `entry(i)` for `i` below
/// `2^lookup_num_bits`, each exactly once; for the plain table these are the
/// integers below `2^lookup_num_bits`.
pub proof fn lemma_table_complete(table: RangeCheckTable)
    ensures
        table.rows().len() == table.range(),
        table.rows().no_duplicates(),
        forall|v: nat| table.rows().contains(v) <==> table.holds(v),
        table.transform == TableTransform::Identity ==> forall|v: nat|
            table.rows().contains(v) <==> v < table.range(),
{
    let rows = table.rows();
    assert forall|i: int, j: int|
        0 <= i < rows.len() && 0 <= j < rows.len() && i != j implies rows[i] != rows[j] by {
        if table.transform == TableTransform::Square {
            assert(i * i != j * j) by (nonlinear_arith)
                requires
                    0 <= i,
                    0 <= j,
                    i != j,
            ;
        }
    }
    assert forall|v: nat| rows.contains(v) <==> table.holds(v) by {
        if rows.contains(v) {
            let i = choose|i: int| 0 <= i < rows.len() && rows[i] == v;
            assert(table.entry(i as nat) == v);
        }
        if table.holds(v) {
            let i = choose|i: nat| i < table.range() && #[trigger] table.entry(i) == v;
            assert(rows[i as int] == v);
        }
    }
    if table.transform == TableTransform::Identity {
        assert forall|v: nat| rows.contains(v) <==> v < table.range() by {
            if v < table.range() {
                assert(table.entry(v) == v);
            }
        }
    }
}

} // verus!
