//! The small range check: a polynomial identity that holds of a cell
//! exactly when the cell is one of the integers below a small bound.
//!
//! The identity is the product of `value - i` over the integers `i` below
//! the bound, gated by a selector. Its degree grows with the bound, so the
//! check is meant for bounds up to a few tens.

use vstd::arithmetic::div_mod::{lemma_mod_add_multiples_vanish, lemma_small_mod};
use vstd::arithmetic::power2::{lemma2_to64_rest, lemma_pow2_pos, lemma_pow2_strictly_increases};
use vstd::prelude::*;

use crate::circuit::{Layouter, RegionOp, RegionView};
use crate::error::{AssignmentError, Error};
use crate::field::{
    field_mul, field_sub, fp_from_u64, fp_mul, fp_sub, lemma_add_neg_is_sub, lemma_modulus_bounds,
    modulus, FieldElement,
};
use crate::plonk::{
    selector_value, Column, ConstraintSystem, Expression, Gate, Grid, Rotation, Selector,
};
use crate::value::Value;

verus! {

/// The range polynomial at `value`: the product of `value - i` over the
/// integers `i` below `range`, in the field.
pub open spec fn range_product(value: nat, range: nat) -> nat
    decreases range,
{
    if range == 0 {
        1
    } else {
        field_mul(range_product(value, (range - 1) as nat), field_sub(value, (range - 1) as nat))
    }
}

/// Whether `gate` is the range polynomial of `column` at the current row,
/// gated by `selector`: a polynomial that a backend takes, of degree
/// `range + 1`, with the value of the gated range polynomial at every row of
/// every grid.
pub open spec fn is_range_gate(gate: Gate, selector: Selector, column: Column, range: nat) -> bool {
    &&& gate.polynomial.well_formed()
    &&& gate.polynomial.degree() == range + 1
    &&& forall|grid: Grid, row: int|
        #[trigger] gate.polynomial.eval(grid, row) == field_mul(
            selector_value(grid, selector, row),
            range_product((grid.advice)(column, row), range),
        )
}

/// The range polynomial of bound `range` vanishes at every integer below
/// `range`.
pub proof fn lemma_range_product_vanishes_in_range(value: nat, range: nat)
    requires
        value < range,
    ensures
        range_product(value, range) == 0,
    decreases range,
{
    let p = modulus();
    let last = (range - 1) as nat;
    lemma_modulus_bounds();
    lemma_pow2_pos(254);
    let head = range_product(value, last);
    let factor = field_sub(value, last);
    lemma_small_mod(0, p);
    if value == last {
        assert(factor == 0);
    } else {
        lemma_range_product_vanishes_in_range(value, last);
        assert(head == 0);
    }
    assert(head * factor == 0) by (nonlinear_arith)
        requires
            head == 0 || factor == 0,
    ;
}

/// The range polynomial is a field element.
pub proof fn lemma_range_product_reduced(value: nat, range: nat)
    ensures
        range_product(value, range) < modulus(),
{
    lemma_modulus_bounds();
    lemma_pow2_pos(254);
    if range > 0 {
        let last = (range - 1) as nat;
        vstd::arithmetic::div_mod::lemma_mod_bound(
            (range_product(value, last) * field_sub(value, last)) as int,
            modulus() as int,
        );
    }
}

/// The verdict of the small range check at a cell at which the range
/// polynomial is zero exactly when the cell is below the bound: a range
/// gate holds at that row exactly when its selector is off there or the
/// cell holds an integer below the bound.
///
/// [`range_check_polynomial`] establishes the premise for the value that it
/// is called on.
pub proof fn lemma_range_gate_verdict(
    gate: Gate,
    selector: Selector,
    column: Column,
    range: nat,
    grid: Grid,
    row: int,
)
    requires
        is_range_gate(gate, selector, column, range),
        range_product((grid.advice)(column, row), range) == 0 <==> (grid.advice)(column, row)
            < range,
    ensures
        gate.polynomial.eval(grid, row) == 0 <==> (!(grid.selectors)(selector, row) || (
        grid.advice)(column, row) < range),
{
    let p = modulus();
    let v = (grid.advice)(column, row);
    let s = selector_value(grid, selector, row);
    let product = range_product(v, range);
    lemma_range_product_reduced(v, range);
    if (grid.selectors)(selector, row) {
        assert(s * product == product) by (nonlinear_arith)
            requires
                s == 1,
        ;
        lemma_small_mod(product, p);
    } else {
        lemma_range_gate_complete(gate, selector, column, range, grid, row);
    }
}

/// The verdict of the small range check on an accepted value: where the
/// selector of a range gate is on and the cell holds an integer below the
/// bound, its polynomial is zero. Where the selector is off, the polynomial
/// is zero whatever the cell holds.
pub proof fn lemma_range_gate_complete(
    gate: Gate,
    selector: Selector,
    column: Column,
    range: nat,
    grid: Grid,
    row: int,
)
    requires
        is_range_gate(gate, selector, column, range),
        !(grid.selectors)(selector, row) || (grid.advice)(column, row) < range,
    ensures
        gate.polynomial.eval(grid, row) == 0,
{
    let p = modulus();
    let v = (grid.advice)(column, row);
    lemma_modulus_bounds();
    lemma_pow2_pos(254);
    lemma_small_mod(0, p);
    if (grid.selectors)(selector, row) {
        lemma_range_product_vanishes_in_range(v, range);
    }
    assert(selector_value(grid, selector, row) * range_product(v, range) == 0)
        by (nonlinear_arith)
        requires
            selector_value(grid, selector, row) == 0 || range_product(v, range) == 0,
    ;
}

/// The region that a range check on one cell fills: the selector is
/// switched on at row 0, and the value is assigned to row 0 of the column.
pub open spec fn single_cell_region(
    name: Seq<char>,
    index: usize,
    usable_rows: usize,
    selector: Selector,
    column: Column,
    value: Value<nat>,
) -> RegionView {
    RegionView {
        name,
        index,
        usable_rows,
        ops: seq![
            RegionOp::EnableSelector { selector, offset: 0 },
            RegionOp::AssignAdvice { column, offset: 0, value },
        ],
    }
}

/// A grid that holds a region of one cell with a known value has the
/// selector on at row 0, and the value in row 0 of the column.
pub proof fn lemma_single_cell_layout(
    region: RegionView,
    grid: Grid,
    selector: Selector,
    column: Column,
    value: nat,
)
    requires
        region.ops == single_cell_region(
            region.name,
            region.index,
            region.usable_rows,
            selector,
            column,
            Value::Known(value),
        ).ops,
        region.realized_by(grid),
    ensures
        (grid.selectors)(selector, 0),
        (grid.advice)(column, 0) == value,
{
    assert(region.ops[0] == RegionOp::<nat>::EnableSelector { selector, offset: 0 });
    assert(region.enables(selector, 0));
    assert(region.ops[1] == RegionOp::<nat>::AssignAdvice {
        column,
        offset: 0,
        value: Value::Known(value),
    });
    assert(region.assigns(column, 0, value));
}

/// The configuration of a small range check on one advice column.
#[derive(Clone, Copy, Debug, PartialEq, Eq)]
pub struct SmallRangeConfig {
    pub value: Column,
    pub q_range_check: Selector,
    pub range: usize,
}

impl SmallRangeConfig {
    /// Sets up the small range check of bound `range` on the advice column
    /// `value`: a simple selector, and a gate named "Range check" that
    /// enforces the range polynomial where the selector is on.
    pub fn configure(meta: &mut ConstraintSystem, value: Column, range: usize) -> (config:
        SmallRangeConfig)
        ensures
            config == (SmallRangeConfig {
                value,
                q_range_check: Selector {
                    index: old(meta).selectors@.len() as usize,
                    simple: true,
                },
                range,
            }),
            final(meta).advice_columns == old(meta).advice_columns,
            final(meta).fixed_columns == old(meta).fixed_columns,
            final(meta).table_columns == old(meta).table_columns,
            final(meta).selectors@ == old(meta).selectors@.push(config.q_range_check),
            final(meta).lookups == old(meta).lookups,
            final(meta).equality == old(meta).equality,
            final(meta).constants == old(meta).constants,
            final(meta).gates@.len() == old(meta).gates@.len() + 1,
            final(meta).gates@.drop_last() == old(meta).gates@,
            final(meta).gates@.last().name@ == "Range check"@,
            is_range_gate(final(meta).gates@.last(), config.q_range_check, value, range as nat),
    {
        let q_range_check = meta.selector();
        let product = range_expression(meta, value, range);
        let polynomial = meta.query_selector(q_range_check).times(product);
        proof {
            reveal_with_fuel(Expression::eval, 2);
            reveal_with_fuel(Expression::degree, 2);
            reveal_with_fuel(Expression::well_formed, 2);
            assert forall|grid: Grid, row: int|
                #[trigger] polynomial.eval(grid, row) == field_mul(
                    selector_value(grid, q_range_check, row),
                    range_product((grid.advice)(value, row), range as nat),
                ) by {
                assert(product.eval(grid, row) == range_product(
                    (grid.advice)(value, row),
                    range as nat,
                ));
            }
        }
        meta.create_gate("Range check", polynomial);
        proof {
            assert(is_range_gate(meta.gates@.last(), q_range_check, value, range as nat));
            assert(meta.gates@.drop_last() =~= old(meta).gates@);
        }
        SmallRangeConfig { value, q_range_check, range }
    }

    /// How [`SmallRangeConfig::assign`] ends on a given layouter: it fails
    /// only where a region has no row at all.
    pub open spec fn assign_outcome(self, layouter: Layouter) -> Result<(), Error> {
        if layouter.usable_rows == 0 {
            Err(Error::Assignment(AssignmentError::NotEnoughRows))
        } else {
            Ok(())
        }
    }

    /// What [`SmallRangeConfig::assign`] does to the layouter: on success
    /// one region named "Assign value" is added, in which `q_range_check` is
    /// on at row 0 and row 0 of the column holds the value; on failure
    /// nothing changes.
    pub open spec fn assigned(
        self,
        before: Layouter,
        after: Layouter,
        value: Value<nat>,
        result: Result<(), Error>,
    ) -> bool {
        &&& after.usable_rows == before.usable_rows
        &&& after.tables == before.tables
        &&& match result {
            Ok(()) => {
                &&& after.regions@.len() == before.regions@.len() + 1
                &&& after.regions@.drop_last() == before.regions@
                &&& after.regions@.last()@ == single_cell_region(
                    "Assign value"@,
                    before.regions@.len() as usize,
                    before.usable_rows,
                    self.q_range_check,
                    self.value,
                    value,
                )
            },
            Err(_) => after.regions == before.regions,
        }
    }

    /// A grid that holds the region that [`SmallRangeConfig::assign`] fills
    /// for a value below the bound meets the range gate at the region's row.
    pub proof fn lemma_in_range_accepted(
        self,
        gate: Gate,
        grid: Grid,
        region: RegionView,
        value: nat,
    )
        requires
            is_range_gate(gate, self.q_range_check, self.value, self.range as nat),
            region.ops == single_cell_region(
                region.name,
                region.index,
                region.usable_rows,
                self.q_range_check,
                self.value,
                Value::Known(value),
            ).ops,
            region.realized_by(grid),
            value < self.range,
        ensures
            gate.polynomial.eval(grid, 0) == 0,
    {
        lemma_single_cell_layout(region, grid, self.q_range_check, self.value, value);
        lemma_range_gate_complete(gate, self.q_range_check, self.value, self.range as nat, grid, 0);
    }

    /// The verdict on a region of the small range check: a grid that holds
    /// the region that [`SmallRangeConfig::assign`] fills for a known value
    /// meets the range gate at the region's row exactly when the value is
    /// below the bound, given that the range polynomial is zero at the value
    /// exactly when the value is below the bound.
    ///
    /// [`range_check_polynomial`] establishes the premise for the value that
    /// it is called on.
    pub proof fn lemma_accepts_iff_in_range(
        self,
        gate: Gate,
        grid: Grid,
        region: RegionView,
        value: nat,
    )
        requires
            is_range_gate(gate, self.q_range_check, self.value, self.range as nat),
            region.ops == single_cell_region(
                region.name,
                region.index,
                region.usable_rows,
                self.q_range_check,
                self.value,
                Value::Known(value),
            ).ops,
            region.realized_by(grid),
            range_product(value, self.range as nat) == 0 <==> value < self.range,
        ensures
            gate.polynomial.eval(grid, 0) == 0 <==> value < self.range,
    {
        lemma_single_cell_layout(region, grid, self.q_range_check, self.value, value);
        lemma_range_gate_verdict(gate, self.q_range_check, self.value, self.range as nat, grid, 0);
    }

    /// Assigns `value` to a region of one row, with `q_range_check` on.
    ///
    /// A value outside the range is assigned like any other: the identity
    /// then does not hold, which is for the verifier of the circuit to find.
    pub fn assign(&self, layouter: &mut Layouter, value: Value<FieldElement>) -> (result: Result<
        (),
        Error,
    >)
        ensures
            result == self.assign_outcome(*old(layouter)),
            self.assigned(*old(layouter), *final(layouter), value@, result),
    {
        let mut region = layouter.region("Assign value");
        region.enable_selector(self.q_range_check, 0)?;
        region.assign_advice(self.value, 0, value)?;
        proof {
            assert(region@.ops =~= single_cell_region(
                "Assign value"@,
                old(layouter).regions@.len() as usize,
                old(layouter).usable_rows,
                self.q_range_check,
                self.value,
                value@,
            ).ops);
        }
        layouter.assign_region(region);
        proof {
            assert(layouter.regions@.drop_last() =~= old(layouter).regions@);
        }
        Ok(())
    }
}

/// Builds the range polynomial of `column` at the current row: the product
/// of `column - i` over the integers `i` below `range`.
pub fn range_expression(meta: &ConstraintSystem, column: Column, range: usize) -> (product:
    Expression)
    ensures
        product.well_formed(),
        !product.contains_simple_selector(),
        product.degree() == range,
        forall|grid: Grid, row: int|
            #[trigger] product.eval(grid, row) == range_product(
                (grid.advice)(column, row),
                range as nat,
            ),
{
    let mut product = Expression::Constant(fp_from_u64(1));
    let mut i: usize = 0;
    while i < range
        invariant
            i <= range,
            product.well_formed(),
            !product.contains_simple_selector(),
            product.degree() == i,
            forall|grid: Grid, row: int|
                #[trigger] product.eval(grid, row) == range_product(
                    (grid.advice)(column, row),
                    i as nat,
                ),
        decreases range - i,
    {
        let cell = meta.query_advice(column, Rotation::cur());
        let constant = Expression::Constant(fp_from_u64(i as u64));
        let factor = cell.minus(constant);
        let ghost before = product;
        product = product.times(factor);
        proof {
            reveal_with_fuel(Expression::eval, 4);
            reveal_with_fuel(Expression::degree, 4);
            reveal_with_fuel(Expression::contains_simple_selector, 4);
            reveal_with_fuel(Expression::well_formed, 4);
            assert forall|grid: Grid, row: int|
                #[trigger] product.eval(grid, row) == range_product(
                    (grid.advice)(column, row),
                    (i + 1) as nat,
                ) by {
                let v = (grid.advice)(column, row);
                assert(before.eval(grid, row) == range_product(v, i as nat));
                lemma_add_neg_is_sub(v, i as nat);
            }
        }
        i = i + 1;
    }
    product
}

/// Evaluates the range polynomial of bound `range` at `value`. The result is
/// zero exactly when `value`, as an integer, is below `range`.
pub fn range_check_polynomial(value: &FieldElement, range: usize) -> (product: FieldElement)
    ensures
        product@ == range_product(value@, range as nat),
        product@ == 0 <==> value@ < range,
{
    let mut product = fp_from_u64(1);
    let mut i: usize = 0;
    proof {
        use_type_invariant(value);
    }
    while i < range
        invariant
            i <= range,
            value@ < modulus(),
            product@ == range_product(value@, i as nat),
            product@ == 0 <==> value@ < i,
        decreases range - i,
    {
        let constant = fp_from_u64(i as u64);
        let factor = fp_sub(value, &constant);
        let next = fp_mul(&product, &factor);
        proof {
            let p = modulus();
            lemma_modulus_bounds();
            lemma2_to64_rest();
            lemma_pow2_strictly_increases(64, 254);
            // The factor is zero exactly at `value == i`.
            if value@ >= i {
                lemma_small_mod((value@ - i) as nat, p);
            } else {
                lemma_mod_add_multiples_vanish(value@ - i, p as int);
                lemma_small_mod((p + value@ - i) as nat, p);
            }
            assert(factor@ == 0 <==> value@ == i);
            if product@ == 0 || factor@ == 0 {
                assert(product@ * factor@ == 0) by (nonlinear_arith)
                    requires
                        product@ == 0 || factor@ == 0,
                ;
                lemma_small_mod(0, p);
            }
        }
        product = next;
        i = i + 1;
    }
    product
}

} // verus!
