//! Range checks on a single cell: the polynomial identity for a small
//! bound, and a lookup against a table for a bound of one table width.
//!
//! ```text
//!   value | q_range_check | q_lookup | table_value
//!   ------+---------------+----------+------------
//!    v_0  |       1       |    0     |      0
//!    v_1  |       0       |    1     |      1
//! ```

use vstd::arithmetic::div_mod::{lemma_mul_mod_noop_general, lemma_small_mod};
use vstd::arithmetic::power2::lemma_pow2_pos;
use vstd::prelude::*;

use crate::circuit::{Layouter, RegionView};
use crate::error::{AssignmentError, ConfigurationError, Error};
use crate::field::{field_mul, lemma_modulus_bounds, modulus, FieldElement};
use crate::plonk::{
    selector_value, Column, ConstraintSystem, Expression, Grid, Lookup, Rotation, Selector,
    TableColumn,
};
use crate::small_range::{
    is_range_gate, lemma_single_cell_layout, single_cell_region, SmallRangeConfig,
};
use crate::table::{RangeCheckTable, TableTransform, MAX_LOOKUP_BITS};
use crate::value::Value;

verus! {

/// What the lookup of a table asks of `value`: the value itself for a plain
/// table, its square in the field for a table of squares.
pub open spec fn lookup_image(transform: TableTransform, value: nat) -> nat {
    match transform {
        TableTransform::Identity => value % modulus(),
        TableTransform::Square => field_mul(value, value),
    }
}

/// Whether `lookup` looks the cell of `column` at the current row up in
/// `table`, gated by `selector`: where the selector is off, the lookup sees
/// zero.
pub open spec fn is_cell_lookup(
    lookup: Lookup,
    selector: Selector,
    column: Column,
    table: RangeCheckTable,
) -> bool {
    &&& lookup.table == table.value
    &&& lookup.input.well_formed()
    &&& !lookup.input.contains_simple_selector()
    &&& lookup.input.degree() == match table.transform {
        TableTransform::Identity => 2nat,
        TableTransform::Square => 3nat,
    }
    &&& forall|grid: Grid, row: int|
        #[trigger] lookup.input.eval(grid, row) == field_mul(
            selector_value(grid, selector, row),
            lookup_image(table.transform, (grid.advice)(column, row)),
        )
}

/// The verdict of the lookup range check with a plain table: where the
/// selector of the lookup is on, the table holds the lookup's input exactly
/// when the cell, a field element, is below `2^lookup_num_bits`. Where the
/// selector is off, the table holds the input whatever the cell holds.
pub proof fn lemma_cell_lookup_verdict(
    lookup: Lookup,
    selector: Selector,
    column: Column,
    table: RangeCheckTable,
    grid: Grid,
    row: int,
)
    requires
        table.transform == TableTransform::Identity,
        is_cell_lookup(lookup, selector, column, table),
        (grid.advice)(column, row) < modulus(),
    ensures
        table.holds(lookup.input.eval(grid, row)) <==> (!(grid.selectors)(selector, row) || (
        grid.advice)(column, row) < table.range()),
{
    let p = modulus();
    let v = (grid.advice)(column, row);
    let input = lookup.input.eval(grid, row);
    lemma_modulus_bounds();
    lemma_pow2_pos(254);
    lemma_pow2_pos(table.lookup_num_bits as nat);
    lemma_small_mod(v, p);
    lemma_small_mod(0, p);
    let s = selector_value(grid, selector, row);
    if (grid.selectors)(selector, row) {
        assert(s * (v % p) == v) by (nonlinear_arith)
            requires
                s == 1,
                v % p == v,
        ;
        assert(input == v);
    } else {
        assert(s * (v % p) == 0) by (nonlinear_arith)
            requires
                s == 0,
        ;
        assert(input == 0);
    }
    if table.holds(input) {
        let i = choose|i: nat| i < table.range() && #[trigger] table.entry(i) == input;
        assert(input < table.range());
    }
    if input < table.range() {
        assert(table.entry(input) == input);
    }
}

/// The configuration of the two range checks on one advice column.
#[derive(Clone, Copy, Debug, PartialEq, Eq)]
pub struct RangeCheckConfig {
    pub value: Column,
    pub q_range_check: Selector,
    pub q_lookup: Selector,
    pub table: RangeCheckTable,
    pub range: usize,
}

impl RangeCheckConfig {
    /// The small range check of this configuration.
    pub open spec fn small(self) -> SmallRangeConfig {
        SmallRangeConfig { value: self.value, q_range_check: self.q_range_check, range: self.range }
    }

    /// Sets up both range checks on the advice column `value`: a gate that
    /// enforces the range polynomial of bound `range` where `q_range_check`
    /// is on, and a lookup of the cell in a table of `lookup_num_bits` bits
    /// where `q_lookup` is on. With a table of squares the lookup asks for
    /// the square of the cell.
    ///
    /// A table width of zero or above the widest table is refused, and
    /// nothing is allocated then.
    pub fn configure(
        meta: &mut ConstraintSystem,
        value: Column,
        range: usize,
        lookup_num_bits: usize,
        transform: TableTransform,
    ) -> (result: Result<RangeCheckConfig, Error>)
        ensures
            match result {
                Ok(config) => {
                    &&& RangeCheckTable::valid_width(lookup_num_bits)
                    &&& config == (RangeCheckConfig {
                        value,
                        q_range_check: Selector {
                            index: old(meta).selectors@.len() as usize,
                            simple: true,
                        },
                        q_lookup: Selector {
                            index: (old(meta).selectors@.len() + 1) as usize,
                            simple: false,
                        },
                        table: RangeCheckTable {
                            value: TableColumn {
                                index: old(meta).table_columns@.len() as usize,
                            },
                            lookup_num_bits,
                            transform,
                        },
                        range,
                    })
                    &&& final(meta).advice_columns == old(meta).advice_columns
                    &&& final(meta).fixed_columns == old(meta).fixed_columns
                    &&& final(meta).selectors@ == old(meta).selectors@.push(
                        config.q_range_check,
                    ).push(config.q_lookup)
                    &&& final(meta).table_columns@ == old(meta).table_columns@.push(
                        config.table.value,
                    )
                    &&& final(meta).equality == old(meta).equality
                    &&& final(meta).constants == old(meta).constants
                    &&& final(meta).gates@.len() == old(meta).gates@.len() + 1
                    &&& final(meta).gates@.drop_last() == old(meta).gates@
                    &&& final(meta).gates@.last().name@ == "Range check"@
                    &&& is_range_gate(
                        final(meta).gates@.last(),
                        config.q_range_check,
                        value,
                        range as nat,
                    )
                    &&& final(meta).lookups@.len() == old(meta).lookups@.len() + 1
                    &&& final(meta).lookups@.drop_last() == old(meta).lookups@
                    &&& is_cell_lookup(
                        final(meta).lookups@.last(),
                        config.q_lookup,
                        value,
                        config.table,
                    )
                },
                Err(e) => {
                    &&& !RangeCheckTable::valid_width(lookup_num_bits)
                    &&& e == Error::Configuration(ConfigurationError::TableWidth)
                    &&& *final(meta) == *old(meta)
                },
            },
    {
        if lookup_num_bits == 0 || lookup_num_bits > MAX_LOOKUP_BITS {
            return Err(Error::Configuration(ConfigurationError::TableWidth));
        }
        let small = SmallRangeConfig::configure(meta, value, range);
        // A lookup may only be gated by a selector that is not simple.
        let q_lookup = meta.complex_selector();
        let table = RangeCheckTable::configure(meta, lookup_num_bits, transform)?;

        let cell = meta.query_advice(value, Rotation::cur());
        let image = match transform {
            TableTransform::Identity => cell,
            TableTransform::Square => {
                let again = meta.query_advice(value, Rotation::cur());
                cell.times(again)
            },
        };
        let input = meta.query_selector(q_lookup).times(image);
        proof {
            reveal_with_fuel(Expression::eval, 3);
            reveal_with_fuel(Expression::degree, 3);
            reveal_with_fuel(Expression::contains_simple_selector, 3);
            reveal_with_fuel(Expression::well_formed, 3);
            assert forall|grid: Grid, row: int|
                #[trigger] input.eval(grid, row) == field_mul(
                    selector_value(grid, q_lookup, row),
                    lookup_image(transform, (grid.advice)(value, row)),
                ) by {
                let v = (grid.advice)(value, row);
                let s = selector_value(grid, q_lookup, row);
                if transform == TableTransform::Identity {
                    lemma_mul_mod_noop_general(s as int, v as int, modulus() as int);
                    lemma_small_mod(s, modulus());
                    lemma_modulus_bounds();
                    lemma_pow2_pos(254);
                }
            }
        }
        meta.lookup(input, table.value);
        proof {
            assert(meta.lookups@.drop_last() =~= old(meta).lookups@);
        }
        Ok(
            RangeCheckConfig {
                value,
                q_range_check: small.q_range_check,
                q_lookup,
                table,
                range,
            },
        )
    }

    /// Assigns `value` to a region of one row and switches on the check that
    /// `range` calls for: the polynomial gate where `range` is at most the
    /// bound of that gate, the lookup where it is larger.
    ///
    /// The lookup needs its table loaded. `range` may not exceed the number
    /// of rows of the table.
    pub fn assign(
        &self,
        layouter: &mut Layouter,
        value: Value<FieldElement>,
        range: usize,
    ) -> (result: Result<(), Error>)
        requires
            range <= self.table.range(),
        ensures
            range <= self.range ==> result == self.small().assign_outcome(*old(layouter)),
            range <= self.range ==> self.small().assigned(
                *old(layouter),
                *final(layouter),
                value@,
                result,
            ),
            range > self.range ==> result == self.assign_lookup_outcome(*old(layouter)),
            range > self.range ==> self.lookup_assigned(
                *old(layouter),
                *final(layouter),
                value@,
                result,
            ),
    {
        if range <= self.range {
            self.assign_small(layouter, value)
        } else {
            self.assign_lookup(layouter, value)
        }
    }

    /// Assigns `value` to a region of one row, with the polynomial gate
    /// switched on: the small range check.
    pub fn assign_small(&self, layouter: &mut Layouter, value: Value<FieldElement>) -> (result:
        Result<(), Error>)
        ensures
            result == self.small().assign_outcome(*old(layouter)),
            self.small().assigned(*old(layouter), *final(layouter), value@, result),
    {
        let small = SmallRangeConfig {
            value: self.value,
            q_range_check: self.q_range_check,
            range: self.range,
        };
        small.assign(layouter, value)
    }

    /// How [`RangeCheckConfig::assign_lookup`] ends on a given layouter: it
    /// fails where the table has not been loaded, and where a region has no
    /// row at all.
    pub open spec fn assign_lookup_outcome(self, layouter: Layouter) -> Result<(), Error> {
        if !layouter.table_loaded(self.table.value) {
            Err(Error::Configuration(ConfigurationError::TableNotLoaded))
        } else if layouter.usable_rows == 0 {
            Err(Error::Assignment(AssignmentError::NotEnoughRows))
        } else {
            Ok(())
        }
    }

    /// What [`RangeCheckConfig::assign_lookup`] does to the layouter: on
    /// success one region named "Assign value in lookup" is added, in which
    /// `q_lookup` is on at row 0 and row 0 of the column holds the value; on
    /// failure nothing changes.
    pub open spec fn lookup_assigned(
        self,
        before: Layouter,
        after: Layouter,
        value: Value<nat>,
        result: Result<(), Error>,
    ) -> bool {
        &&& after.usable_rows == before.usable_rows
        &&& after.tables == before.tables
        &&& match result {
            Ok(()) => {
                &&& after.regions@.len() == before.regions@.len() + 1
                &&& after.regions@.drop_last() == before.regions@
                &&& after.regions@.last()@ == single_cell_region(
                    "Assign value in lookup"@,
                    before.regions@.len() as usize,
                    before.usable_rows,
                    self.q_lookup,
                    self.value,
                    value,
                )
            },
            Err(_) => after.regions == before.regions,
        }
    }

    /// The verdict on a region of the lookup range check with a plain
    /// table: a grid that holds the region that
    /// [`RangeCheckConfig::assign_lookup`] fills for a known value meets the
    /// lookup at the region's row exactly when the value is below
    /// `2^lookup_num_bits`.
    pub proof fn lemma_lookup_accepts_iff_in_range(
        self,
        lookup: Lookup,
        grid: Grid,
        region: RegionView,
        value: nat,
    )
        requires
            self.table.transform == TableTransform::Identity,
            is_cell_lookup(lookup, self.q_lookup, self.value, self.table),
            region.ops == single_cell_region(
                region.name,
                region.index,
                region.usable_rows,
                self.q_lookup,
                self.value,
                Value::Known(value),
            ).ops,
            region.realized_by(grid),
            value < modulus(),
        ensures
            self.table.holds(lookup.input.eval(grid, 0)) <==> value < self.table.range(),
    {
        lemma_single_cell_layout(region, grid, self.q_lookup, self.value, value);
        lemma_cell_lookup_verdict(lookup, self.q_lookup, self.value, self.table, grid, 0);
    }

    /// Assigns `value` to a region of one row, with the lookup switched on:
    /// the range check of one table width. The table must have been loaded.
    pub fn assign_lookup(&self, layouter: &mut Layouter, value: Value<FieldElement>) -> (result:
        Result<(), Error>)
        ensures
            result == self.assign_lookup_outcome(*old(layouter)),
            self.lookup_assigned(*old(layouter), *final(layouter), value@, result),
    {
        if !layouter.has_table(self.table.value) {
            return Err(Error::Configuration(ConfigurationError::TableNotLoaded));
        }
        let mut region = layouter.region("Assign value in lookup");
        region.enable_selector(self.q_lookup, 0)?;
        region.assign_advice(self.value, 0, value)?;
        proof {
            assert(region@.ops =~= single_cell_region(
                "Assign value in lookup"@,
                old(layouter).regions@.len() as usize,
                old(layouter).usable_rows,
                self.q_lookup,
                self.value,
                value@,
            ).ops);
        }
        layouter.assign_region(region);
        proof {
            assert(layouter.regions@.drop_last() =~= old(layouter).regions@);
        }
        Ok(())
    }
}

} // verus!
