//! A record of what gadgets assign while a circuit is synthesized: regions
//! of cells, enabled selectors, equality constraints and table contents.
//!
//! Gadgets write into a [`Region`] and hand it to a [`Layouter`]; an adapter
//! then replays the record on a proving backend. Where the regions end up on
//! the grid is the backend's business.

use vstd::prelude::*;

use crate::error::{AssignmentError, ConfigurationError, Error};
use crate::field::FieldElement;
use crate::plonk::{Column, Grid, Selector, TableColumn};
use crate::value::Value;

verus! {

/// A cell of a region: a column and a row offset within the region.
#[derive(Clone, Copy, Debug, PartialEq, Eq)]
pub struct Cell {
    pub region_index: usize,
    pub column: Column,
    pub offset: usize,
}

/// A cell together with the value that was assigned to it.
#[derive(Clone, Copy, Debug, PartialEq, Eq)]
pub struct AssignedCell<V> {
    pub cell: Cell,
    pub value: Value<V>,
}

impl<V: View> View for AssignedCell<V> {
    type V = AssignedCell<V::V>;

    open spec fn view(&self) -> AssignedCell<V::V> {
        AssignedCell { cell: self.cell, value: self.value@ }
    }
}

/// One step of filling a region.
#[derive(Clone, Copy, Debug, PartialEq, Eq)]
pub enum RegionOp<V> {
    /// Puts `value` into the cell at `column`, `offset`.
    AssignAdvice { column: Column, offset: usize, value: Value<V> },
    /// Puts the value of `source` into the cell at `column`, `offset` and
    /// ties the two cells by an equality constraint.
    CopyAdvice { source: AssignedCell<V>, column: Column, offset: usize },
    /// Switches `selector` on at row `offset`.
    EnableSelector { selector: Selector, offset: usize },
    /// Ties `cell` to the public constant `constant`.
    ConstrainConstant { cell: Cell, constant: V },
}

impl<V: View> View for RegionOp<V> {
    type V = RegionOp<V::V>;

    open spec fn view(&self) -> RegionOp<V::V> {
        match *self {
            RegionOp::AssignAdvice { column, offset, value } => RegionOp::AssignAdvice {
                column,
                offset,
                value: value@,
            },
            RegionOp::CopyAdvice { source, column, offset } => RegionOp::CopyAdvice {
                source: source@,
                column,
                offset,
            },
            RegionOp::EnableSelector { selector, offset } => RegionOp::EnableSelector {
                selector,
                offset,
            },
            RegionOp::ConstrainConstant { cell, constant } => RegionOp::ConstrainConstant {
                cell,
                constant: constant@,
            },
        }
    }
}

impl RegionOp<nat> {
    /// The step with its witness forgotten: what is left is the shape that
    /// the step gives the region.
    pub open spec fn shape(self) -> RegionOp<nat> {
        match self {
            RegionOp::AssignAdvice { column, offset, value } => RegionOp::AssignAdvice {
                column,
                offset,
                value: Value::Unknown,
            },
            RegionOp::CopyAdvice { source, column, offset } => RegionOp::CopyAdvice {
                source: AssignedCell { cell: source.cell, value: Value::Unknown },
                column,
                offset,
            },
            RegionOp::EnableSelector { selector, offset } => self,
            RegionOp::ConstrainConstant { cell, constant } => self,
        }
    }
}

/// The steps of a region with each field element replaced by its canonical
/// representative.
pub open spec fn ops_view(ops: Seq<RegionOp<FieldElement>>) -> Seq<RegionOp<nat>> {
    ops.map_values(|op: RegionOp<FieldElement>| op@)
}

/// A named group of rows that one gadget fills, with offsets counted from
/// the region's first row.
#[derive(Debug)]
pub struct Region {
    pub name: &'static str,
    pub index: usize,
    pub usable_rows: usize,
    pub ops: Vec<RegionOp<FieldElement>>,
}

/// A region as specifications see it.
pub struct RegionView {
    pub name: Seq<char>,
    pub index: usize,
    pub usable_rows: usize,
    pub ops: Seq<RegionOp<nat>>,
}

impl RegionView {
    /// The region after one more step.
    pub open spec fn with_op(self, op: RegionOp<nat>) -> RegionView {
        RegionView { ops: self.ops.push(op), ..self }
    }

    /// Whether some step switches `selector` on at row `offset`.
    pub open spec fn enables(self, selector: Selector, offset: int) -> bool {
        exists|i: int|
            0 <= i < self.ops.len() && (#[trigger] self.ops[i] matches RegionOp::EnableSelector {
                selector: s,
                offset: o,
            } && s == selector && o == offset)
    }

    /// Whether some step puts the known value `value` into the cell at
    /// `column`, `offset`, be it assigned or copied there.
    pub open spec fn assigns(self, column: Column, offset: int, value: nat) -> bool {
        exists|i: int|
            0 <= i < self.ops.len() && match #[trigger] self.ops[i] {
                RegionOp::AssignAdvice { column: c, offset: o, value: v } => c == column && o
                    == offset && v == Value::Known(value),
                RegionOp::CopyAdvice { source, column: c, offset: o } => c == column && o == offset
                    && source.value == Value::Known(value),
                _ => false,
            }
    }

    /// Whether a grid holds what the steps of the region put there, with
    /// rows counted from the region's first row: a selector is on exactly
    /// where a step switches it on, and a cell holds the value that a step
    /// puts into it.
    pub open spec fn realized_by(self, grid: Grid) -> bool {
        &&& forall|selector: Selector, offset: int|
            0 <= offset ==> (#[trigger] (grid.selectors)(selector, offset) <==> self.enables(
                selector,
                offset,
            ))
        &&& forall|column: Column, offset: int, value: nat| #[trigger]
            self.assigns(column, offset, value) ==> (grid.advice)(column, offset) == value
    }
}

impl View for Region {
    type V = RegionView;

    open spec fn view(&self) -> RegionView {
        RegionView {
            name: self.name@,
            index: self.index,
            usable_rows: self.usable_rows,
            ops: ops_view(self.ops@),
        }
    }
}

impl Region {
    /// Assigns `value` to the advice cell at `column`, `offset`. Fails, and
    /// leaves the region as it was, where `offset` is beyond the region's
    /// rows.
    pub fn assign_advice(
        &mut self,
        column: Column,
        offset: usize,
        value: Value<FieldElement>,
    ) -> (result: Result<AssignedCell<FieldElement>, Error>)
        ensures
            match result {
                Ok(assigned) => {
                    &&& offset < old(self).usable_rows
                    &&& assigned == (AssignedCell {
                        cell: Cell { region_index: old(self).index, column, offset },
                        value,
                    })
                    &&& final(self)@ == old(self)@.with_op(
                        RegionOp::AssignAdvice { column, offset, value: value@ },
                    )
                },
                Err(e) => {
                    &&& offset >= old(self).usable_rows
                    &&& e == Error::Assignment(AssignmentError::NotEnoughRows)
                    &&& *final(self) == *old(self)
                },
            },
    {
        if offset >= self.usable_rows {
            return Err(Error::Assignment(AssignmentError::NotEnoughRows));
        }
        let op = RegionOp::AssignAdvice { column, offset, value };
        self.ops.push(op);
        proof {
            assert(ops_view(self.ops@) =~= ops_view(old(self).ops@).push(op@));
        }
        Ok(AssignedCell { cell: Cell { region_index: self.index, column, offset }, value })
    }

    /// Copies the value of `source` into the advice cell at `column`,
    /// `offset`, under an equality constraint between the two cells. Fails,
    /// and leaves the region as it was, where `offset` is beyond the
    /// region's rows.
    pub fn copy_advice(
        &mut self,
        source: &AssignedCell<FieldElement>,
        column: Column,
        offset: usize,
    ) -> (result: Result<AssignedCell<FieldElement>, Error>)
        ensures
            match result {
                Ok(assigned) => {
                    &&& offset < old(self).usable_rows
                    &&& assigned == (AssignedCell {
                        cell: Cell { region_index: old(self).index, column, offset },
                        value: source.value,
                    })
                    &&& final(self)@ == old(self)@.with_op(
                        RegionOp::CopyAdvice { source: source@, column, offset },
                    )
                },
                Err(e) => {
                    &&& offset >= old(self).usable_rows
                    &&& e == Error::Assignment(AssignmentError::NotEnoughRows)
                    &&& *final(self) == *old(self)
                },
            },
    {
        if offset >= self.usable_rows {
            return Err(Error::Assignment(AssignmentError::NotEnoughRows));
        }
        let op = RegionOp::CopyAdvice { source: *source, column, offset };
        self.ops.push(op);
        proof {
            assert(ops_view(self.ops@) =~= ops_view(old(self).ops@).push(op@));
        }
        Ok(
            AssignedCell {
                cell: Cell { region_index: self.index, column, offset },
                value: source.value,
            },
        )
    }

    /// Switches `selector` on at row `offset`. Fails, and leaves the region
    /// as it was, where `offset` is beyond the region's rows.
    pub fn enable_selector(&mut self, selector: Selector, offset: usize) -> (result: Result<
        (),
        Error,
    >)
        ensures
            match result {
                Ok(()) => {
                    &&& offset < old(self).usable_rows
                    &&& final(self)@ == old(self)@.with_op(
                        RegionOp::EnableSelector { selector, offset },
                    )
                },
                Err(e) => {
                    &&& offset >= old(self).usable_rows
                    &&& e == Error::Assignment(AssignmentError::NotEnoughRows)
                    &&& *final(self) == *old(self)
                },
            },
    {
        if offset >= self.usable_rows {
            return Err(Error::Assignment(AssignmentError::NotEnoughRows));
        }
        let op = RegionOp::EnableSelector { selector, offset };
        self.ops.push(op);
        proof {
            assert(ops_view(self.ops@) =~= ops_view(old(self).ops@).push(op@));
        }
        Ok(())
    }

    /// Constrains `cell` to hold the public constant `constant`.
    pub fn constrain_constant(&mut self, cell: Cell, constant: FieldElement)
        ensures
            final(self)@ == old(self)@.with_op(
                RegionOp::ConstrainConstant { cell, constant: constant@ },
            ),
    {
        let op = RegionOp::ConstrainConstant { cell, constant };
        self.ops.push(op);
        proof {
            assert(ops_view(self.ops@) =~= ops_view(old(self).ops@).push(op@));
        }
    }
}

/// The rows of one lookup table column.
#[derive(Debug)]
pub struct TableAssignment {
    pub column: TableColumn,
    pub values: Vec<FieldElement>,
}

/// The canonical representatives of a sequence of field elements.
pub open spec fn values_view(values: Seq<FieldElement>) -> Seq<nat> {
    values.map_values(|v: FieldElement| v@)
}

/// Everything that has been assigned while a circuit was synthesized.
#[derive(Debug)]
pub struct Layouter {
    pub usable_rows: usize,
    pub tables: Vec<TableAssignment>,
    pub regions: Vec<Region>,
}

impl Layouter {
    /// Whether a table has been loaded into `column`.
    pub open spec fn table_loaded(self, column: TableColumn) -> bool {
        exists|i: int| 0 <= i < self.tables@.len() && #[trigger] self.tables@[i].column == column
    }

    /// A layouter with `usable_rows` rows for each region and table, and
    /// nothing assigned yet.
    pub fn new(usable_rows: usize) -> (layouter: Layouter)
        ensures
            layouter.usable_rows == usable_rows,
            layouter.tables@.len() == 0,
            layouter.regions@.len() == 0,
    {
        Layouter { usable_rows, tables: Vec::new(), regions: Vec::new() }
    }

    /// Says whether a table has been loaded into `column`.
    pub fn has_table(&self, column: TableColumn) -> (loaded: bool)
        ensures
            loaded == self.table_loaded(column),
    {
        let mut i: usize = 0;
        while i < self.tables.len()
            invariant
                i <= self.tables@.len(),
                forall|j: int| 0 <= j < i ==> (#[trigger] self.tables@[j]).column != column,
            decreases self.tables@.len() - i,
        {
            if self.tables[i].column.index == column.index {
                return true;
            }
            i = i + 1;
        }
        false
    }

    /// Loads `values` into the table column `column`, one value per row from
    /// row 0. A column is loaded once, and the table has to fit into the
    /// usable rows.
    pub fn assign_table(&mut self, column: TableColumn, values: Vec<FieldElement>) -> (result:
        Result<(), Error>)
        ensures
            match result {
                Ok(()) => {
                    &&& !old(self).table_loaded(column)
                    &&& values@.len() <= old(self).usable_rows
                    &&& final(self).usable_rows == old(self).usable_rows
                    &&& final(self).regions == old(self).regions
                    &&& final(self).tables@ == old(self).tables@.push(
                        TableAssignment { column, values },
                    )
                },
                Err(e) => {
                    &&& *final(self) == *old(self)
                    &&& e == if old(self).table_loaded(column) {
                        Error::Configuration(ConfigurationError::TableAlreadyLoaded)
                    } else {
                        Error::Assignment(AssignmentError::NotEnoughRows)
                    }
                    &&& old(self).table_loaded(column) || values@.len() > old(self).usable_rows
                },
            },
    {
        if self.has_table(column) {
            return Err(Error::Configuration(ConfigurationError::TableAlreadyLoaded));
        }
        if values.len() > self.usable_rows {
            return Err(Error::Assignment(AssignmentError::NotEnoughRows));
        }
        self.tables.push(TableAssignment { column, values });
        Ok(())
    }

    /// Opens a region named `name`. It takes effect once it is handed to
    /// [`Layouter::assign_region`].
    pub fn region(&self, name: &'static str) -> (region: Region)
        ensures
            region.name == name,
            region.index == self.regions@.len(),
            region.usable_rows == self.usable_rows,
            region.ops@.len() == 0,
    {
        Region { name, index: self.regions.len(), usable_rows: self.usable_rows, ops: Vec::new() }
    }

    /// Adds a filled region to the circuit.
    pub fn assign_region(&mut self, region: Region)
        ensures
            final(self).usable_rows == old(self).usable_rows,
            final(self).tables == old(self).tables,
            final(self).regions@ == old(self).regions@.push(region),
    {
        self.regions.push(region);
    }
}

} // verus!
