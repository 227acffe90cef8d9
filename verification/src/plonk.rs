//! A description of what a gadget asks of the constraint system: columns,
//! selectors, polynomial gates and lookups.
//!
//! Gadgets record their requests in a [`ConstraintSystem`]; an adapter then
//! makes the same requests of a proving backend. The meaning of a gate or a
//! lookup input is fixed here by [`Expression::eval`].

use vstd::prelude::*;

use crate::field::{field_add, field_mul, field_neg, FieldElement};

verus! {

/// An advice column: a wire that holds witness values.
#[derive(Clone, Copy, Debug, PartialEq, Eq)]
pub struct Column {
    pub index: usize,
}

/// A fixed column: its cells are part of the circuit, not of the witness.
#[derive(Clone, Copy, Debug, PartialEq, Eq)]
pub struct FixedColumn {
    pub index: usize,
}

/// A fixed column that may only serve as a lookup table.
#[derive(Clone, Copy, Debug, PartialEq, Eq)]
pub struct TableColumn {
    pub index: usize,
}

/// A per-row switch for a gate or a lookup. Only a selector that is not
/// `simple` may appear in a lookup input.
#[derive(Clone, Copy, Debug, PartialEq, Eq)]
pub struct Selector {
    pub index: usize,
    pub simple: bool,
}

/// A row offset relative to the row at which a gate is evaluated.
#[derive(Clone, Copy, Debug, PartialEq, Eq)]
pub struct Rotation(pub i32);

impl Rotation {
    /// The row itself.
    pub fn cur() -> (rotation: Rotation)
        ensures
            rotation == Rotation(0),
    {
        Rotation(0)
    }

    /// The row below.
    pub fn next() -> (rotation: Rotation)
        ensures
            rotation == Rotation(1),
    {
        Rotation(1)
    }
}

/// The cells and switches of a grid, as far as expressions read them:
/// `advice(column, row)` is the canonical representative of the cell's
/// content, `selectors(selector, row)` says whether the switch is on.
pub struct Grid {
    pub advice: spec_fn(Column, int) -> nat,
    pub selectors: spec_fn(Selector, int) -> bool,
}

/// A selector as a field element: one where it is on, zero where it is off.
pub open spec fn selector_value(grid: Grid, selector: Selector, row: int) -> nat {
    if (grid.selectors)(selector, row) {
        1
    } else {
        0
    }
}

/// A polynomial over the cells of a row and its neighbours.
#[derive(Debug)]
pub enum Expression {
    /// A constant of the field.
    Constant(FieldElement),
    /// A selector at the current row: one where it is on, zero where off.
    Selector(Selector),
    /// The cell of an advice column at a rotation from the current row.
    Advice { column: Column, rotation: Rotation },
    /// The negation of an expression.
    Negated(Box<Expression>),
    /// The sum of two expressions.
    Sum(Box<Expression>, Box<Expression>),
    /// The product of two expressions.
    Product(Box<Expression>, Box<Expression>),
}

impl Expression {
    /// The value of the expression at `row` of a grid, in the field.
    pub open spec fn eval(self, grid: Grid, row: int) -> nat
        decreases self,
    {
        match self {
            Expression::Constant(c) => c@,
            Expression::Selector(s) => selector_value(grid, s, row),
            Expression::Advice { column, rotation } => (grid.advice)(column, row + rotation.0),
            Expression::Negated(e) => field_neg(e.eval(grid, row)),
            Expression::Sum(a, b) => field_add(a.eval(grid, row), b.eval(grid, row)),
            Expression::Product(a, b) => field_mul(a.eval(grid, row), b.eval(grid, row)),
        }
    }

    /// The degree of the expression as a polynomial in the cells and
    /// selectors of the grid.
    pub open spec fn degree(self) -> nat
        decreases self,
    {
        match self {
            Expression::Constant(_) => 0,
            Expression::Selector(_) => 1,
            Expression::Advice { .. } => 1,
            Expression::Negated(e) => e.degree(),
            Expression::Sum(a, b) => if a.degree() >= b.degree() {
                a.degree()
            } else {
                b.degree()
            },
            Expression::Product(a, b) => a.degree() + b.degree(),
        }
    }

    /// Whether a simple selector occurs in the expression.
    pub open spec fn contains_simple_selector(self) -> bool
        decreases self,
    {
        match self {
            Expression::Constant(_) => false,
            Expression::Selector(s) => s.simple,
            Expression::Advice { .. } => false,
            Expression::Negated(e) => e.contains_simple_selector(),
            Expression::Sum(a, b) => a.contains_simple_selector() || b.contains_simple_selector(),
            Expression::Product(a, b) => a.contains_simple_selector()
                || b.contains_simple_selector(),
        }
    }

    /// Whether a backend takes the expression: no simple selector occurs
    /// under a sum, and none occurs on both sides of a product.
    pub open spec fn well_formed(self) -> bool
        decreases self,
    {
        match self {
            Expression::Constant(_) => true,
            Expression::Selector(_) => true,
            Expression::Advice { .. } => true,
            Expression::Negated(e) => e.well_formed(),
            Expression::Sum(a, b) => {
                &&& !a.contains_simple_selector()
                &&& !b.contains_simple_selector()
                &&& a.well_formed()
                &&& b.well_formed()
            },
            Expression::Product(a, b) => {
                &&& !(a.contains_simple_selector() && b.contains_simple_selector())
                &&& a.well_formed()
                &&& b.well_formed()
            },
        }
    }

    /// The difference `self - other`, built as `self + (-other)`. A simple
    /// selector may occur in neither operand: a backend refuses such a
    /// difference.
    pub fn minus(self, other: Expression) -> (difference: Expression)
        requires
            !self.contains_simple_selector(),
            !other.contains_simple_selector(),
        ensures
            difference == Expression::Sum(
                Box::new(self),
                Box::new(Expression::Negated(Box::new(other))),
            ),
    {
        Expression::Sum(Box::new(self), Box::new(Expression::Negated(Box::new(other))))
    }

    /// The product `self * other`. A simple selector may occur in one
    /// operand at most: a backend refuses a product of two expressions with
    /// simple selectors.
    pub fn times(self, other: Expression) -> (product: Expression)
        requires
            !(self.contains_simple_selector() && other.contains_simple_selector()),
        ensures
            product == Expression::Product(Box::new(self), Box::new(other)),
    {
        Expression::Product(Box::new(self), Box::new(other))
    }
}

/// A polynomial identity: `polynomial` must evaluate to zero at every row.
#[derive(Debug)]
pub struct Gate {
    pub name: &'static str,
    pub polynomial: Expression,
}

/// A lookup: at every row, the value of `input` must be one of the values
/// that `table` holds.
#[derive(Debug)]
pub struct Lookup {
    pub input: Expression,
    pub table: TableColumn,
}

/// The requests that gadgets have made while a circuit was configured.
/// Columns and selectors are numbered in the order in which they were
/// allocated, each kind by itself.
#[derive(Debug)]
pub struct ConstraintSystem {
    pub advice_columns: Vec<Column>,
    pub fixed_columns: Vec<FixedColumn>,
    pub table_columns: Vec<TableColumn>,
    pub selectors: Vec<Selector>,
    pub gates: Vec<Gate>,
    pub lookups: Vec<Lookup>,
    pub equality: Vec<Column>,
    pub constants: Vec<FixedColumn>,
}

impl ConstraintSystem {
    /// A constraint system of which nothing has been asked yet.
    pub fn new() -> (meta: ConstraintSystem)
        ensures
            meta.advice_columns@.len() == 0,
            meta.fixed_columns@.len() == 0,
            meta.table_columns@.len() == 0,
            meta.selectors@.len() == 0,
            meta.gates@.len() == 0,
            meta.lookups@.len() == 0,
            meta.equality@.len() == 0,
            meta.constants@.len() == 0,
    {
        ConstraintSystem {
            advice_columns: Vec::new(),
            fixed_columns: Vec::new(),
            table_columns: Vec::new(),
            selectors: Vec::new(),
            gates: Vec::new(),
            lookups: Vec::new(),
            equality: Vec::new(),
            constants: Vec::new(),
        }
    }

    /// Allocates a new advice column.
    pub fn advice_column(&mut self) -> (column: Column)
        ensures
            column.index == old(self).advice_columns@.len(),
            *final(self) == (ConstraintSystem {
                advice_columns: final(self).advice_columns,
                ..*old(self)
            }),
            final(self).advice_columns@ == old(self).advice_columns@.push(column),
    {
        let column = Column { index: self.advice_columns.len() };
        self.advice_columns.push(column);
        column
    }

    /// Allocates a new fixed column.
    pub fn fixed_column(&mut self) -> (column: FixedColumn)
        ensures
            column.index == old(self).fixed_columns@.len(),
            *final(self) == (ConstraintSystem {
                fixed_columns: final(self).fixed_columns,
                ..*old(self)
            }),
            final(self).fixed_columns@ == old(self).fixed_columns@.push(column),
    {
        let column = FixedColumn { index: self.fixed_columns.len() };
        self.fixed_columns.push(column);
        column
    }

    /// Allocates a new column for a lookup table.
    pub fn lookup_table_column(&mut self) -> (column: TableColumn)
        ensures
            column.index == old(self).table_columns@.len(),
            *final(self) == (ConstraintSystem {
                table_columns: final(self).table_columns,
                ..*old(self)
            }),
            final(self).table_columns@ == old(self).table_columns@.push(column),
    {
        let column = TableColumn { index: self.table_columns.len() };
        self.table_columns.push(column);
        column
    }

    /// Allocates a new simple selector, for use in gates only.
    pub fn selector(&mut self) -> (selector: Selector)
        ensures
            selector == (Selector { index: old(self).selectors@.len() as usize, simple: true }),
            *final(self) == (ConstraintSystem { selectors: final(self).selectors, ..*old(self) }),
            final(self).selectors@ == old(self).selectors@.push(selector),
    {
        let selector = Selector { index: self.selectors.len(), simple: true };
        self.selectors.push(selector);
        selector
    }

    /// Allocates a new selector that may also gate a lookup.
    pub fn complex_selector(&mut self) -> (selector: Selector)
        ensures
            selector == (Selector { index: old(self).selectors@.len() as usize, simple: false }),
            *final(self) == (ConstraintSystem { selectors: final(self).selectors, ..*old(self) }),
            final(self).selectors@ == old(self).selectors@.push(selector),
    {
        let selector = Selector { index: self.selectors.len(), simple: false };
        self.selectors.push(selector);
        selector
    }

    /// Lets the cells of `column` take part in equality constraints.
    pub fn enable_equality(&mut self, column: Column)
        ensures
            *final(self) == (ConstraintSystem {
                equality: final(self).equality,
                ..*old(self)
            }),
            final(self).equality@ == old(self).equality@.push(column),
    {
        self.equality.push(column);
    }

    /// Lets `column` hold the constants that cells are constrained to.
    pub fn enable_constant(&mut self, column: FixedColumn)
        ensures
            *final(self) == (ConstraintSystem {
                constants: final(self).constants,
                ..*old(self)
            }),
            final(self).constants@ == old(self).constants@.push(column),
    {
        self.constants.push(column);
    }

    /// The expression that reads `selector` at the current row.
    pub fn query_selector(&self, selector: Selector) -> (expression: Expression)
        ensures
            expression == Expression::Selector(selector),
    {
        Expression::Selector(selector)
    }

    /// The expression that reads `column` at the row `at` away from the
    /// current one.
    pub fn query_advice(&self, column: Column, at: Rotation) -> (expression: Expression)
        ensures
            expression == (Expression::Advice { column, rotation: at }),
    {
        Expression::Advice { column, rotation: at }
    }

    /// Registers the identity `polynomial == 0`, to hold at every row. The
    /// polynomial must be one that a backend takes.
    pub fn create_gate(&mut self, name: &'static str, polynomial: Expression)
        requires
            polynomial.well_formed(),
        ensures
            *final(self) == (ConstraintSystem { gates: final(self).gates, ..*old(self) }),
            final(self).gates@ == old(self).gates@.push(Gate { name, polynomial }),
    {
        self.gates.push(Gate { name, polynomial });
    }

    /// Registers a lookup of `input` in `table`, to hold at every row, and
    /// returns its index. The input must be one that a backend takes, and
    /// no simple selector may occur in it: a backend refuses such a lookup.
    pub fn lookup(&mut self, input: Expression, table: TableColumn) -> (index: usize)
        requires
            input.well_formed(),
            !input.contains_simple_selector(),
        ensures
            index == old(self).lookups@.len(),
            *final(self) == (ConstraintSystem { lookups: final(self).lookups, ..*old(self) }),
            final(self).lookups@ == old(self).lookups@.push(Lookup { input, table }),
    {
        let index = self.lookups.len();
        self.lookups.push(Lookup { input, table });
        index
    }
}

} // verus!
