//! The decomposition range check: a value fits in `num_bits` bits when it
//! can be cut into `num_bits / K` limbs of `K` bits, each found in a table
//! of `K` bits, with nothing left over.
//!
//! The gadget fills one column with the running sum `z_0, ..., z_C` of the
//! value, looks up the limb `z_i - z_{i+1} * 2^K` of every pair of
//! consecutive rows, and ties `z_C` to the constant zero.

use vstd::arithmetic::div_mod::{
    lemma_fundamental_div_mod, lemma_mod_add_multiples_vanish, lemma_small_mod,
};
use vstd::arithmetic::power2::{
    lemma2_to64, lemma_pow2_adds, lemma_pow2_pos, lemma_pow2_strictly_increases, pow2,
};
use vstd::prelude::*;

use crate::circuit::{AssignedCell, Cell, Layouter, RegionOp, RegionView};
use crate::error::{AssignmentError, ConfigurationError, Error};
use crate::field::{
    field_mul, field_sub, fp_from_u64, lemma_add_neg_is_sub, lemma_modulus_bounds, modulus,
    FieldElement,
};
use crate::plonk::{
    selector_value, Column, ConstraintSystem, Expression, FixedColumn, Grid, Lookup, Rotation,
    Selector, TableColumn,
};
use crate::running_sum::{
    compute_running_sum, lemma_running_sum_step, lemma_terminal_zero_iff_in_range, running_sum,
};
use crate::table::{RangeCheckTable, TableTransform, MAX_LOOKUP_BITS};
use crate::value::Value;

verus! {

/// The limb that two consecutive running-sum cells imply, in the field:
/// `z_cur - z_next * 2^lookup_num_bits`.
pub open spec fn limb_expression(z_cur: nat, z_next: nat, lookup_num_bits: nat) -> nat {
    field_sub(z_cur, field_mul(z_next, pow2(lookup_num_bits)))
}

/// Whether `lookup` looks up, in `table`, the limb implied by the cells of
/// `column` at the current and the next row, gated by `selector`: where the
/// selector is off, the lookup sees the zero limb.
pub open spec fn is_limb_lookup(
    lookup: Lookup,
    selector: Selector,
    column: Column,
    table: RangeCheckTable,
) -> bool {
    &&& lookup.table == table.value
    &&& lookup.input.well_formed()
    &&& !lookup.input.contains_simple_selector()
    &&& lookup.input.degree() == 2
    &&& forall|grid: Grid, row: int|
        #[trigger] lookup.input.eval(grid, row) == field_mul(
            selector_value(grid, selector, row),
            limb_expression(
                (grid.advice)(column, row),
                (grid.advice)(column, row + 1),
                table.lookup_num_bits as nat,
            ),
        )
}

/// The configuration of a decomposition range check.
#[derive(Clone, Copy, Debug, PartialEq, Eq)]
pub struct DecomposeConfig {
    pub running_sum: Column,
    pub q_decompose: Selector,
    pub constant: FixedColumn,
    pub table: RangeCheckTable,
}

impl DecomposeConfig {
    /// The number of limbs of a decomposition of `num_bits` bits.
    pub open spec fn num_limbs(self, num_bits: usize) -> nat {
        (num_bits / self.table.lookup_num_bits) as nat
    }

    /// Sets up a decomposition into limbs of `lookup_num_bits` bits: one
    /// advice column for the running sum, open to equality constraints; a
    /// fixed column for constants; a plain table of `lookup_num_bits` bits;
    /// and a lookup of the limb of every two consecutive running-sum cells,
    /// where `q_decompose` is on.
    ///
    /// A limb width of zero or above the widest table is refused, and
    /// nothing is allocated then.
    pub fn configure(meta: &mut ConstraintSystem, lookup_num_bits: usize) -> (result: Result<
        DecomposeConfig,
        Error,
    >)
        ensures
            match result {
                Ok(config) => {
                    &&& RangeCheckTable::valid_width(lookup_num_bits)
                    &&& config == (DecomposeConfig {
                        running_sum: Column { index: old(meta).advice_columns@.len() as usize },
                        q_decompose: Selector {
                            index: old(meta).selectors@.len() as usize,
                            simple: false,
                        },
                        constant: FixedColumn { index: old(meta).fixed_columns@.len() as usize },
                        table: RangeCheckTable {
                            value: TableColumn {
                                index: old(meta).table_columns@.len() as usize,
                            },
                            lookup_num_bits,
                            transform: TableTransform::Identity,
                        },
                    })
                    &&& final(meta).advice_columns@ == old(meta).advice_columns@.push(
                        config.running_sum,
                    )
                    &&& final(meta).fixed_columns@ == old(meta).fixed_columns@.push(
                        config.constant,
                    )
                    &&& final(meta).selectors@ == old(meta).selectors@.push(config.q_decompose)
                    &&& final(meta).table_columns@ == old(meta).table_columns@.push(
                        config.table.value,
                    )
                    &&& final(meta).equality@ == old(meta).equality@.push(config.running_sum)
                    &&& final(meta).constants@ == old(meta).constants@.push(config.constant)
                    &&& final(meta).gates == old(meta).gates
                    &&& final(meta).lookups@.len() == old(meta).lookups@.len() + 1
                    &&& final(meta).lookups@.drop_last() == old(meta).lookups@
                    &&& is_limb_lookup(
                        final(meta).lookups@.last(),
                        config.q_decompose,
                        config.running_sum,
                        config.table,
                    )
                },
                Err(e) => {
                    &&& !RangeCheckTable::valid_width(lookup_num_bits)
                    &&& e == Error::Configuration(ConfigurationError::TableWidth)
                    &&& *final(meta) == *old(meta)
                },
            },
    {
        if lookup_num_bits == 0 || lookup_num_bits > MAX_LOOKUP_BITS {
            return Err(Error::Configuration(ConfigurationError::TableWidth));
        }
        let running_sum = meta.advice_column();
        let q_decompose = meta.complex_selector();
        let table = RangeCheckTable::configure(meta, lookup_num_bits, TableTransform::Identity)?;

        // A fixed column holds the constant that closes the running sum, and
        // the running sum takes part in the permutation.
        let constant = meta.fixed_column();
        meta.enable_constant(constant);
        meta.enable_equality(running_sum);

        proof {
            lemma2_to64();
            vstd::bits::lemma_u64_shl_is_mul(1u64, lookup_num_bits as u64);
            lemma_pow2_strictly_increases(lookup_num_bits as nat, 32);
        }
        let q = meta.query_selector(q_decompose);
        let z_cur = meta.query_advice(running_sum, Rotation::cur());
        let z_next = meta.query_advice(running_sum, Rotation::next());
        let base = Expression::Constant(fp_from_u64(1u64 << (lookup_num_bits as u64)));
        let scaled = z_next.times(base);
        proof {
            reveal_with_fuel(Expression::contains_simple_selector, 2);
        }
        let chunk = z_cur.minus(scaled);
        let input = q.times(chunk);
        proof {
            reveal_with_fuel(Expression::eval, 5);
            reveal_with_fuel(Expression::degree, 5);
            reveal_with_fuel(Expression::contains_simple_selector, 5);
            reveal_with_fuel(Expression::well_formed, 5);
            assert forall|grid: Grid, row: int|
                #[trigger] input.eval(grid, row) == field_mul(
                    selector_value(grid, q_decompose, row),
                    limb_expression(
                        (grid.advice)(running_sum, row),
                        (grid.advice)(running_sum, row + 1),
                        lookup_num_bits as nat,
                    ),
                ) by {
                lemma_add_neg_is_sub(
                    (grid.advice)(running_sum, row),
                    field_mul((grid.advice)(running_sum, row + 1), pow2(lookup_num_bits as nat)),
                );
            }
        }
        meta.lookup(input, table.value);
        proof {
            assert(meta.lookups@.drop_last() =~= old(meta).lookups@);
        }
        Ok(DecomposeConfig { running_sum, q_decompose, constant, table })
    }

    /// How [`DecomposeConfig::assign`] ends, which depends on the shape of
    /// the circuit alone and never on the witness:
    /// - the limb width must be one that a table can have;
    /// - `num_bits` must be a positive multiple of the limb width;
    /// - the table must have been loaded;
    /// - the running sum takes one row more than there are limbs.
    pub open spec fn assign_outcome(self, layouter: Layouter, num_bits: usize) -> Result<
        (),
        Error,
    > {
        if !RangeCheckTable::valid_width(self.table.lookup_num_bits) {
            Err(Error::Configuration(ConfigurationError::TableWidth))
        } else if num_bits == 0 || num_bits % self.table.lookup_num_bits != 0 {
            Err(Error::Configuration(ConfigurationError::DecompositionSize))
        } else if !layouter.table_loaded(self.table.value) {
            Err(Error::Configuration(ConfigurationError::TableNotLoaded))
        } else if self.num_limbs(num_bits) + 1 > layouter.usable_rows {
            Err(Error::Assignment(AssignmentError::NotEnoughRows))
        } else {
            Ok(())
        }
    }

    /// Entry `index` of the running sum of a possibly unknown value.
    pub open spec fn running_sum_value(self, value: Value<nat>, index: nat) -> Value<nat> {
        match value {
            Value::Known(v) => Value::Known(
                running_sum(v, self.table.lookup_num_bits as nat, index),
            ),
            Value::Unknown => Value::Unknown,
        }
    }

    /// The steps that fill the region of a decomposition of `source` into
    /// `num_bits` bits, in order:
    /// - `source` is copied to row 0 of the running sum;
    /// - `z_{i+1}` is assigned to row `i + 1`, for every limb `i`;
    /// - the selector is switched on at row `i`, for every limb `i`;
    /// - the last cell of the running sum is tied to the constant zero.
    pub open spec fn region_ops(
        self,
        source: AssignedCell<nat>,
        region_index: usize,
        num_bits: usize,
    ) -> Seq<RegionOp<nat>> {
        let count = self.num_limbs(num_bits);
        seq![RegionOp::CopyAdvice { source, column: self.running_sum, offset: 0 }] + Seq::new(
            count,
            |i: int|
                RegionOp::AssignAdvice {
                    column: self.running_sum,
                    offset: (i + 1) as usize,
                    value: self.running_sum_value(source.value, (i + 1) as nat),
                },
        ) + Seq::new(
            count,
            |i: int| RegionOp::EnableSelector { selector: self.q_decompose, offset: i as usize },
        ) + seq![
            RegionOp::ConstrainConstant {
                cell: Cell { region_index, column: self.running_sum, offset: count as usize },
                constant: 0,
            },
        ]
    }

    /// Decomposes the value of the cell `value` into `num_bits /
    /// lookup_num_bits` limbs and lays the running sum out in a new region,
    /// so that the circuit accepts exactly the values below `2^num_bits`.
    ///
    /// Whether this succeeds is decided by the shape of the circuit alone
    /// (see [`DecomposeConfig::assign_outcome`]). On success one region named
    /// "Decompose value" is added, filled by the steps of
    /// [`DecomposeConfig::region_ops`]; on failure the layouter is left as it
    /// was.
    #[verifier::loop_isolation(false)]
    pub fn assign(
        &self,
        layouter: &mut Layouter,
        value: &AssignedCell<FieldElement>,
        num_bits: usize,
    ) -> (result: Result<(), Error>)
        ensures
            result == self.assign_outcome(*old(layouter), num_bits),
            final(layouter).usable_rows == old(layouter).usable_rows,
            final(layouter).tables == old(layouter).tables,
            match result {
                Ok(()) => {
                    &&& final(layouter).regions@.len() == old(layouter).regions@.len() + 1
                    &&& final(layouter).regions@.drop_last() == old(layouter).regions@
                    &&& final(layouter).regions@.last()@ == (RegionView {
                        name: "Decompose value"@,
                        index: old(layouter).regions@.len() as usize,
                        usable_rows: old(layouter).usable_rows,
                        ops: self.region_ops(
                            value@,
                            old(layouter).regions@.len() as usize,
                            num_bits,
                        ),
                    })
                },
                Err(_) => final(layouter).regions == old(layouter).regions,
            },
    {
        let lookup_num_bits = self.table.lookup_num_bits;
        if lookup_num_bits == 0 || lookup_num_bits > MAX_LOOKUP_BITS {
            return Err(Error::Configuration(ConfigurationError::TableWidth));
        }
        if num_bits == 0 || num_bits % lookup_num_bits != 0 {
            return Err(Error::Configuration(ConfigurationError::DecompositionSize));
        }
        if !layouter.has_table(self.table.value) {
            return Err(Error::Configuration(ConfigurationError::TableNotLoaded));
        }
        let count: usize = num_bits / lookup_num_bits;
        let mut region = layouter.region("Decompose value");
        let ghost expected = self.region_ops(value@, region.index, num_bits);

        // Copy in the witness value as `z_0`.
        let mut z = region.copy_advice(value, self.running_sum, 0)?;

        // Compute the running sum `z_1, ..., z_C`, where the value is known.
        let sums: Value<Vec<FieldElement>> = match value.value {
            Value::Known(v) => Value::Known(compute_running_sum(&v, num_bits, lookup_num_bits)),
            Value::Unknown => Value::Unknown,
        };
        let entries = sums.transpose_vec(count);

        // Assign the running sum below `z_0`.
        let mut i: usize = 0;
        while i < count
            invariant
                i <= count,
                count == self.num_limbs(num_bits),
                entries@.len() == count,
                forall|j: int|
                    0 <= j < count ==> (#[trigger] entries@[j])@ == self.running_sum_value(
                        value@.value,
                        (j + 1) as nat,
                    ),
                region@.name == "Decompose value"@,
                region.index == old(layouter).regions@.len(),
                region.usable_rows == old(layouter).usable_rows,
                i < region.usable_rows,
                region@.ops == expected.subrange(0, i + 1),
                expected == self.region_ops(value@, region.index, num_bits),
                z.cell == (Cell {
                    region_index: region.index,
                    column: self.running_sum,
                    offset: i,
                }),
                *layouter == *old(layouter),
            decreases count - i,
        {
            z = region.assign_advice(self.running_sum, i + 1, entries[i])?;
            proof {
                assert(region@.ops =~= expected.subrange(0, i + 2));
            }
            i = i + 1;
        }

        // Enable the lookup on every pair of consecutive rows.
        let mut row: usize = 0;
        while row < count
            invariant
                row <= count,
                count == self.num_limbs(num_bits),
                region@.name == "Decompose value"@,
                region.index == old(layouter).regions@.len(),
                region.usable_rows == old(layouter).usable_rows,
                count < region.usable_rows,
                region@.ops == expected.subrange(0, count + 1 + row),
                expected == self.region_ops(value@, region.index, num_bits),
                *layouter == *old(layouter),
            decreases count - row,
        {
            region.enable_selector(self.q_decompose, row)?;
            proof {
                assert(region@.ops =~= expected.subrange(0, count + 2 + row));
            }
            row = row + 1;
        }

        // Constrain the last running-sum cell to zero.
        region.constrain_constant(z.cell, fp_from_u64(0));
        proof {
            assert(region@.ops =~= expected);
        }
        layouter.assign_region(region);
        proof {
            assert(layouter.regions@.drop_last() =~= old(layouter).regions@);
        }
        Ok(())
    }
}

/// What the gadget asks of the cells `z_0, ..., z_C` of a running-sum
/// column: the limb of every two consecutive cells is below
/// `2^lookup_num_bits`, and the last cell is zero.
pub open spec fn chain_satisfied(cells: Seq<nat>, lookup_num_bits: nat) -> bool {
    &&& cells.len() > 0
    &&& forall|i: int|
        0 <= i < cells.len() - 1 ==> limb_expression(
            #[trigger] cells[i],
            cells[i + 1],
            lookup_num_bits,
        ) < pow2(lookup_num_bits)
    &&& cells.last() == 0
}

/// The running sum of `value` with `count` limbs: `z_0, ..., z_count`.
pub open spec fn running_sum_cells(value: nat, lookup_num_bits: nat, count: nat) -> Seq<nat> {
    Seq::new(count + 1, |i: int| running_sum(value, lookup_num_bits, i as nat))
}

/// Completeness: the running sum of a value below `2^(count *
/// lookup_num_bits)` satisfies what the gadget asks.
pub proof fn lemma_chain_complete(value: nat, lookup_num_bits: nat, count: nat)
    requires
        value < modulus(),
        value < pow2(count * lookup_num_bits),
    ensures
        chain_satisfied(running_sum_cells(value, lookup_num_bits, count), lookup_num_bits),
{
    let k = lookup_num_bits;
    let cells = running_sum_cells(value, k, count);
    let p = modulus();
    lemma_terminal_zero_iff_in_range(value, k, count);
    assert forall|i: int| 0 <= i < cells.len() - 1 implies limb_expression(
        #[trigger] cells[i],
        cells[i + 1],
        k,
    ) < pow2(k) by {
        lemma_running_sum_step(value, k, i as nat);
        lemma_running_sum_at_most(value, k, i as nat);
        let z = cells[i];
        let next = cells[i + 1];
        let shifted = next * pow2(k);
        assert(shifted <= z);
        lemma_small_mod(shifted, p);
        lemma_small_mod((z - shifted) as nat, p);
    }
}

/// No entry of a running sum exceeds the value.
proof fn lemma_running_sum_at_most(value: nat, lookup_num_bits: nat, index: nat)
    ensures
        running_sum(value, lookup_num_bits, index) <= value,
{
    lemma_pow2_pos(index * lookup_num_bits);
    vstd::arithmetic::div_mod::lemma_div_nonincreasing(
        value as int,
        pow2(index * lookup_num_bits) as int,
    );
}

/// Cell `index` of a chain that satisfies what the gadget asks fits in the
/// bits of the limbs above it.
proof fn lemma_chain_bound(cells: Seq<nat>, lookup_num_bits: nat, index: nat)
    requires
        chain_satisfied(cells, lookup_num_bits),
        forall|i: int| 0 <= i < cells.len() ==> cells[i] < modulus(),
        pow2(((cells.len() - 1) * lookup_num_bits) as nat) <= modulus(),
        index < cells.len(),
    ensures
        cells[index as int] < pow2(((cells.len() - 1 - index) * lookup_num_bits) as nat),
    decreases cells.len() - index,
{
    let k = lookup_num_bits;
    let n = (cells.len() - 1) as nat;
    let p = modulus();
    if index == n {
        lemma2_to64();
        assert((cells.len() - 1 - index) * k == 0) by (nonlinear_arith)
            requires
                cells.len() - 1 - index == 0,
        ;
    } else {
        lemma_chain_bound(cells, k, index + 1);
        let above = ((n - index - 1) * k) as nat;
        let here = ((n - index) * k) as nat;
        assert(here == above + k) by (nonlinear_arith)
            requires
                here == (n - index) * k,
                above == (n - index - 1) * k,
        ;
        assert(here <= n * k) by (nonlinear_arith)
            requires
                here == (n - index) * k,
                index <= n,
        ;
        lemma_pow2_adds(above, k);
        lemma_pow2_pos(k);
        if here < n * k {
            lemma_pow2_strictly_increases(here, n * k);
        }
        let z = cells[index as int];
        let next = cells[index as int + 1];
        let bound = pow2(above);
        let shifted = next * pow2(k);
        assert(shifted + pow2(k) <= bound * pow2(k)) by (nonlinear_arith)
            requires
                shifted == next * pow2(k),
                next + 1 <= bound,
        ;
        lemma_small_mod(shifted, p);
        let c = limb_expression(z, next, k);
        assert(c == ((z - shifted) % (p as int)) as nat);
        assert(c < pow2(k));
        if z >= shifted {
            lemma_small_mod((z - shifted) as nat, p);
        } else {
            lemma_mod_add_multiples_vanish(z - shifted, p as int);
            lemma_small_mod((p + z - shifted) as nat, p);
        }
    }
}

/// Soundness: where cells `z_0, ..., z_C` of field elements satisfy what the
/// gadget asks, `z_0` is below `2^(C * lookup_num_bits)`. Where that power
/// exceeds the field order, every field element is below it.
pub proof fn lemma_chain_sound(cells: Seq<nat>, lookup_num_bits: nat)
    requires
        chain_satisfied(cells, lookup_num_bits),
        forall|i: int| 0 <= i < cells.len() ==> cells[i] < modulus(),
    ensures
        cells[0] < pow2(((cells.len() - 1) * lookup_num_bits) as nat),
{
    if pow2(((cells.len() - 1) * lookup_num_bits) as nat) <= modulus() {
        lemma_chain_bound(cells, lookup_num_bits, 0);
    }
}

impl DecomposeConfig {
    /// The cells `z_0, ..., z_count` of the running-sum column in a grid.
    pub open spec fn cells(self, grid: Grid, count: nat) -> Seq<nat> {
        Seq::new(count + 1, |i: int| (grid.advice)(self.running_sum, i))
    }

    /// Whether a grid is laid out as [`DecomposeConfig::assign`] lays a
    /// region out: the selector is on at the rows of the limbs and off at
    /// the last row, and the cells hold field elements.
    pub open spec fn laid_out(self, grid: Grid, count: nat) -> bool {
        &&& forall|row: int|
            0 <= row <= count ==> (#[trigger] (grid.selectors)(self.q_decompose, row) <==> row
                < count)
        &&& forall|row: int|
            0 <= row <= count ==> #[trigger] (grid.advice)(self.running_sum, row) < modulus()
    }

    /// Whether a grid meets the constraints of the gadget on the rows of a
    /// region of `count` limbs: the lookup holds at every row, and the last
    /// cell equals the constant zero.
    pub open spec fn accepts(self, lookup: Lookup, grid: Grid, count: nat) -> bool {
        &&& forall|row: int|
            0 <= row <= count ==> self.table.holds(#[trigger] lookup.input.eval(grid, row))
        &&& (grid.advice)(self.running_sum, count as int) == 0
    }

    /// The constraints of the gadget say of a grid what `chain_satisfied`
    /// says of its running-sum cells.
    pub proof fn lemma_accepts_is_chain_satisfied(self, lookup: Lookup, grid: Grid, count: nat)
        requires
            RangeCheckTable::valid_width(self.table.lookup_num_bits),
            self.table.transform == TableTransform::Identity,
            is_limb_lookup(lookup, self.q_decompose, self.running_sum, self.table),
            self.laid_out(grid, count),
        ensures
            self.accepts(lookup, grid, count) <==> chain_satisfied(
                self.cells(grid, count),
                self.table.lookup_num_bits as nat,
            ),
    {
        let k = self.table.lookup_num_bits as nat;
        let cells = self.cells(grid, count);
        let p = modulus();
        lemma_modulus_bounds();
        lemma_pow2_pos(254);
        lemma_pow2_pos(k);
        assert forall|row: int| 0 <= row <= count implies (self.table.holds(
            #[trigger] lookup.input.eval(grid, row),
        ) <==> (row < count ==> limb_expression(cells[row], cells[row + 1], k) < pow2(k))) by {
            let input = lookup.input.eval(grid, row);
            let on = (grid.selectors)(self.q_decompose, row);
            assert(on <==> row < count);
            let limb = limb_expression(
                (grid.advice)(self.running_sum, row),
                (grid.advice)(self.running_sum, row + 1),
                k,
            );
            if row < count {
                assert(limb == limb_expression(cells[row], cells[row + 1], k));
                assert(limb < p) by {
                    vstd::arithmetic::div_mod::lemma_mod_bound(
                        (grid.advice)(self.running_sum, row) - field_mul(
                            (grid.advice)(self.running_sum, row + 1),
                            pow2(k),
                        ),
                        p as int,
                    );
                }
                assert(selector_value(grid, self.q_decompose, row) * limb == limb)
                    by (nonlinear_arith)
                    requires
                        selector_value(grid, self.q_decompose, row) == 1,
                ;
                lemma_small_mod(limb, p);
                assert(input == limb);
            } else {
                assert(selector_value(grid, self.q_decompose, row) * limb == 0)
                    by (nonlinear_arith)
                    requires
                        selector_value(grid, self.q_decompose, row) == 0,
                ;
                lemma_small_mod(0, p);
                assert(input == 0);
            }
            if self.table.holds(input) {
                let i = choose|i: nat| i < self.table.range() && #[trigger] self.table.entry(i)
                    == input;
                assert(input < pow2(k));
            }
            if input < pow2(k) {
                assert(self.table.entry(input) == input);
            }
        }
        if self.accepts(lookup, grid, count) {
            assert forall|i: int| 0 <= i < cells.len() - 1 implies limb_expression(
                #[trigger] cells[i],
                cells[i + 1],
                k,
            ) < pow2(k) by {
                assert(self.table.holds(lookup.input.eval(grid, i)));
            }
        }
        if chain_satisfied(cells, k) {
            assert forall|row: int| 0 <= row <= count implies self.table.holds(
                #[trigger] lookup.input.eval(grid, row),
            ) by {
                if row < count {
                    assert(limb_expression(cells[row], cells[row + 1], k) < pow2(k));
                }
            }
        }
    }

    /// Soundness of the gadget: a grid that meets its constraints holds, in
    /// the first running-sum cell, a value below `2^num_bits`, whatever the
    /// other running-sum cells hold.
    pub proof fn lemma_accepted_value_in_range(self, lookup: Lookup, grid: Grid, count: nat)
        requires
            RangeCheckTable::valid_width(self.table.lookup_num_bits),
            self.table.transform == TableTransform::Identity,
            is_limb_lookup(lookup, self.q_decompose, self.running_sum, self.table),
            self.laid_out(grid, count),
            self.accepts(lookup, grid, count),
        ensures
            (grid.advice)(self.running_sum, 0) < pow2(count * (self.table.lookup_num_bits as nat)),
    {
        self.lemma_accepts_is_chain_satisfied(lookup, grid, count);
        let cells = self.cells(grid, count);
        assert forall|i: int| 0 <= i < cells.len() implies cells[i] < modulus() by {
            assert((grid.advice)(self.running_sum, i) < modulus());
        }
        lemma_chain_sound(cells, self.table.lookup_num_bits as nat);
    }

    /// Completeness of the gadget: a grid whose running-sum cells hold the
    /// running sum of a value below `2^num_bits` meets its constraints.
    pub proof fn lemma_value_in_range_accepted(
        self,
        lookup: Lookup,
        grid: Grid,
        count: nat,
        value: nat,
    )
        requires
            RangeCheckTable::valid_width(self.table.lookup_num_bits),
            self.table.transform == TableTransform::Identity,
            is_limb_lookup(lookup, self.q_decompose, self.running_sum, self.table),
            self.laid_out(grid, count),
            self.cells(grid, count) == running_sum_cells(
                value,
                self.table.lookup_num_bits as nat,
                count,
            ),
            value < pow2(count * (self.table.lookup_num_bits as nat)),
        ensures
            self.accepts(lookup, grid, count),
    {
        let k = self.table.lookup_num_bits as nat;
        let cells = self.cells(grid, count);
        lemma2_to64();
        assert((0 as nat) * k == 0);
        assert(cells[0] == running_sum(value, k, 0));
        assert(value == (grid.advice)(self.running_sum, 0));
        lemma_chain_complete(value, k, count);
        self.lemma_accepts_is_chain_satisfied(lookup, grid, count);
    }

    /// What a grid that holds a region of the gadget looks like: the
    /// selector is on at the rows of the limbs, and the running-sum cells
    /// hold the running sum of the value.
    pub proof fn lemma_region_layout(
        self,
        grid: Grid,
        cell: Cell,
        value: nat,
        region: RegionView,
        num_bits: usize,
    )
        requires
            RangeCheckTable::valid_width(self.table.lookup_num_bits),
            value < modulus(),
            region.ops == self.region_ops(
                AssignedCell { cell, value: Value::Known(value) },
                region.index,
                num_bits,
            ),
            region.realized_by(grid),
        ensures
            self.laid_out(grid, self.num_limbs(num_bits)),
            self.cells(grid, self.num_limbs(num_bits)) == running_sum_cells(
                value,
                self.table.lookup_num_bits as nat,
                self.num_limbs(num_bits),
            ),
    {
        let k = self.table.lookup_num_bits as nat;
        let count = self.num_limbs(num_bits);
        let ops = region.ops;
        let source = AssignedCell { cell, value: Value::Known(value) };
        assert(ops.len() == 2 * count + 2);
        assert(count <= usize::MAX);
        assert forall|row: int| 0 <= row <= count implies (#[trigger] (grid.selectors)(
            self.q_decompose,
            row,
        ) <==> row < count) by {
            if row < count {
                assert(ops[1 + count + row] == RegionOp::<nat>::EnableSelector {
                    selector: self.q_decompose,
                    offset: row as usize,
                });
                assert(region.enables(self.q_decompose, row));
            }
            if region.enables(self.q_decompose, row) {
                let i = choose|i: int|
                    0 <= i < ops.len() && (#[trigger] ops[i] matches RegionOp::EnableSelector {
                        selector: s,
                        offset: o,
                    } && s == self.q_decompose && o == row);
                assert(count + 1 <= i < 2 * count + 1);
                assert(ops[i] == RegionOp::<nat>::EnableSelector {
                    selector: self.q_decompose,
                    offset: (i - count - 1) as usize,
                });
            }
        }
        assert forall|row: int| 0 <= row <= count implies #[trigger] (grid.advice)(
            self.running_sum,
            row,
        ) == running_sum(value, k, row as nat) by {
            if row == 0 {
                assert(ops[0] == RegionOp::<nat>::CopyAdvice {
                    source,
                    column: self.running_sum,
                    offset: 0,
                });
                assert(region.assigns(self.running_sum, 0, value));
                lemma2_to64();
                assert((0 as nat) * k == 0);
                assert(running_sum(value, k, 0) == value / 1);
            } else {
                assert(ops[row] == RegionOp::<nat>::AssignAdvice {
                    column: self.running_sum,
                    offset: row as usize,
                    value: Value::Known(running_sum(value, k, row as nat)),
                });
                assert(region.assigns(
                    self.running_sum,
                    row,
                    running_sum(value, k, row as nat),
                ));
            }
        }
        assert forall|row: int| 0 <= row <= count implies #[trigger] (grid.advice)(
            self.running_sum,
            row,
        ) < modulus() by {
            lemma_running_sum_at_most(value, k, row as nat);
        }
        assert(self.cells(grid, count) =~= running_sum_cells(value, k, count));
    }

    /// The verdict on a region of the gadget: a grid that holds the region
    /// that [`DecomposeConfig::assign`] fills for a known value meets the
    /// constraints of the gadget exactly when the value is below
    /// `2^num_bits`.
    pub proof fn lemma_accepts_iff_in_range(
        self,
        lookup: Lookup,
        grid: Grid,
        cell: Cell,
        value: nat,
        region: RegionView,
        num_bits: usize,
    )
        requires
            RangeCheckTable::valid_width(self.table.lookup_num_bits),
            self.table.transform == TableTransform::Identity,
            is_limb_lookup(lookup, self.q_decompose, self.running_sum, self.table),
            num_bits % self.table.lookup_num_bits == 0,
            value < modulus(),
            region.ops == self.region_ops(
                AssignedCell { cell, value: Value::Known(value) },
                region.index,
                num_bits,
            ),
            region.realized_by(grid),
        ensures
            self.accepts(lookup, grid, self.num_limbs(num_bits)) <==> value < pow2(
                num_bits as nat,
            ),
    {
        let k = self.table.lookup_num_bits as nat;
        let count = self.num_limbs(num_bits);
        self.lemma_region_layout(grid, cell, value, region, num_bits);
        lemma_fundamental_div_mod(num_bits as int, k as int);
        assert(count * k == num_bits) by (nonlinear_arith)
            requires
                num_bits == k * count,
        ;
        let cells = self.cells(grid, count);
        assert(cells[count as int] == running_sum(value, k, count));
        lemma_terminal_zero_iff_in_range(value, k, count);
        if value < pow2(num_bits as nat) {
            self.lemma_value_in_range_accepted(lookup, grid, count, value);
        }
    }

    /// The steps of a region do not depend on the witness but for the values
    /// that they carry: with the values forgotten, the steps for a known
    /// value are the steps for an unknown one.
    pub proof fn lemma_shape_independent_of_witness(
        self,
        cell: Cell,
        value: nat,
        region_index: usize,
        num_bits: usize,
    )
        ensures
            self.region_ops(
                AssignedCell { cell, value: Value::Known(value) },
                region_index,
                num_bits,
            ).map_values(|op: RegionOp<nat>| op.shape()) == self.region_ops(
                AssignedCell { cell, value: Value::Unknown },
                region_index,
                num_bits,
            ).map_values(|op: RegionOp<nat>| op.shape()),
    {
        let known = self.region_ops(
            AssignedCell { cell, value: Value::Known(value) },
            region_index,
            num_bits,
        ).map_values(|op: RegionOp<nat>| op.shape());
        let unknown = self.region_ops(
            AssignedCell { cell, value: Value::Unknown },
            region_index,
            num_bits,
        ).map_values(|op: RegionOp<nat>| op.shape());
        assert(known =~= unknown);
    }
}

} // verus!
