//! The assignment of one synthesis pass: cells kept in an arena and named by
//! their index there, the selectors switched on, the copy constraints between
//! cells and the cells bound to public-input slots. Each region is one fresh
//! row.

use crate::circuit::{Column, ColumnKind, ConstraintSystem, Selector};
use crate::value::Value;
use vstd::prelude::*;

verus! {

#[derive(Clone, Copy, Debug)]
pub struct CellRec {
    pub column: usize,
    pub row: usize,
    pub value: Value,
}

/// A handle on an assigned cell: its index in the arena, and its value.
#[derive(Clone, Copy, Debug)]
pub struct AssignedCell {
    pub cell: usize,
    pub value: Value,
}

#[derive(Clone, Copy, Debug, PartialEq, Eq, Structural)]
pub enum Error {
    /// A column or selector that the geometry does not declare.
    NotDeclared,
    /// A row outside the opened regions, or past the last usable row.
    NotEnoughRows,
    /// The cell was assigned before; cells are never reassigned.
    AlreadyAssigned,
    /// A copy constraint on a column that equality was not enabled on.
    NotInPermutation,
    /// A handle that names no assigned cell.
    UnknownCell,
}

/// The value of the cell at `(column, row)`, the latest assigned there.
pub open spec fn lookup(cells: Seq<CellRec>, column: usize, row: usize) -> Option<Value>
    decreases cells.len(),
{
    if cells.len() == 0 {
        None
    } else if cells.last().column == column && cells.last().row == row {
        Some(cells.last().value)
    } else {
        lookup(cells.drop_last(), column, row)
    }
}

pub open spec fn advice(index: usize) -> Column {
    Column { kind: ColumnKind::Advice, index }
}

pub proof fn lemma_lookup_fresh_row(cells: Seq<CellRec>, column: usize, row: usize)
    requires
        forall|k: int| 0 <= k < cells.len() ==> cells[k].row < row,
    ensures
        lookup(cells, column, row) == None::<Value>,
    decreases cells.len(),
{
    if cells.len() > 0 {
        lemma_lookup_fresh_row(cells.drop_last(), column, row);
    }
}

#[derive(Debug)]
pub struct Layouter {
    pub num_advice: usize,
    pub num_instance: usize,
    pub num_selectors: usize,
    pub equality: Vec<Column>,
    /// The rows available, for regions and for public-input slots alike.
    pub num_rows: usize,
    /// The row that the next region gets.
    pub next_row: usize,
    pub cells: Vec<CellRec>,
    /// Pairs (selector, row).
    pub enabled: Vec<(usize, usize)>,
    /// Pairs of cell indices whose values must agree.
    pub copies: Vec<(usize, usize)>,
    /// Triples (cell, instance column, row).
    pub exposed: Vec<(usize, usize, usize)>,
}

impl Layouter {
    /// Every cell lies in an opened region.
    pub open spec fn wf(&self) -> bool {
        &&& self.next_row <= self.num_rows
        &&& forall|k: int| 0 <= k < self.cells@.len() ==> self.cells@[k].row < self.next_row
    }

    pub open spec fn has_equality(&self, c: Column) -> bool {
        self.equality@.contains(c)
    }

    pub open spec fn same_geometry(&self, o: &Layouter) -> bool {
        &&& self.num_advice == o.num_advice
        &&& self.num_instance == o.num_instance
        &&& self.num_selectors == o.num_selectors
        &&& self.equality@ == o.equality@
        &&& self.num_rows == o.num_rows
    }

    pub open spec fn declares_advice(&self, c: Column) -> bool {
        c.kind == ColumnKind::Advice && c.index < self.num_advice
    }

    pub open spec fn value_at(&self, column: usize, row: usize) -> Option<Value> {
        lookup(self.cells@, column, row)
    }

    /// Why `assign_advice(c, row, _)` fails, if it does.
    pub open spec fn assign_error(&self, c: Column, row: usize) -> Option<Error> {
        if !self.declares_advice(c) {
            Some(Error::NotDeclared)
        } else if row >= self.next_row {
            Some(Error::NotEnoughRows)
        } else if self.value_at(c.index, row).is_some() {
            Some(Error::AlreadyAssigned)
        } else {
            None
        }
    }

    /// Why `copy_advice(src, c, row)` fails, if it does.
    pub open spec fn copy_error(&self, src: usize, c: Column, row: usize) -> Option<Error> {
        if src >= self.cells@.len() {
            Some(Error::UnknownCell)
        } else if !self.has_equality(advice(self.cells@[src as int].column)) || !self.has_equality(c) {
            Some(Error::NotInPermutation)
        } else {
            self.assign_error(c, row)
        }
    }

    /// Why `constrain_instance(cell, inst, row)` fails, if it does.
    pub open spec fn instance_error(&self, cell: usize, inst: Column, row: usize) -> Option<Error> {
        if cell >= self.cells@.len() {
            Some(Error::UnknownCell)
        } else if inst.kind != ColumnKind::Instance || inst.index >= self.num_instance {
            Some(Error::NotDeclared)
        } else if row >= self.num_rows {
            Some(Error::NotEnoughRows)
        } else if !self.has_equality(advice(self.cells@[cell as int].column)) || !self.has_equality(inst) {
            Some(Error::NotInPermutation)
        } else {
            None
        }
    }

    /// An empty assignment over the geometry of `cs`, with `num_rows` rows.
    pub fn new(cs: &ConstraintSystem, num_rows: usize) -> (r: Layouter)
        ensures
            r.wf(),
            r.num_advice == cs.num_advice,
            r.num_instance == cs.num_instance,
            r.num_selectors == cs.num_selectors,
            r.equality@ == cs.equality@,
            r.num_rows == num_rows,
            r.next_row == 0,
            r.cells@.len() == 0,
            r.enabled@.len() == 0,
            r.copies@.len() == 0,
            r.exposed@.len() == 0,
    {
        let mut equality: Vec<Column> = Vec::new();
        let mut i: usize = 0;
        while i < cs.equality.len()
            invariant
                i <= cs.equality@.len(),
                equality@ == cs.equality@.subrange(0, i as int),
            decreases cs.equality@.len() - i,
        {
            equality.push(cs.equality[i]);
            proof {
                assert(cs.equality@.subrange(0, i + 1) =~= cs.equality@.subrange(0, i as int).push(cs.equality@[i as int]));
            }
            i = i + 1;
        }
        proof {
            assert(cs.equality@.subrange(0, cs.equality@.len() as int) =~= cs.equality@);
        }
        Layouter {
            num_advice: cs.num_advice,
            num_instance: cs.num_instance,
            num_selectors: cs.num_selectors,
            equality,
            num_rows,
            next_row: 0,
            cells: Vec::new(),
            enabled: Vec::new(),
            copies: Vec::new(),
            exposed: Vec::new(),
        }
    }

    pub fn has_equality_exec(&self, c: Column) -> (r: bool)
        ensures
            r == self.has_equality(c),
    {
        let mut i: usize = 0;
        while i < self.equality.len()
            invariant
                i <= self.equality@.len(),
                forall|j: int| 0 <= j < i ==> self.equality@[j] != c,
            decreases self.equality@.len() - i,
        {
            if self.equality[i] == c {
                return true;
            }
            i = i + 1;
        }
        false
    }

    /// The value of the cell at `(column, row)`, if one was assigned.
    pub fn find(&self, column: usize, row: usize) -> (r: Option<Value>)
        ensures
            r == self.value_at(column, row),
    {
        let mut i: usize = self.cells.len();
        proof {
            assert(self.cells@.subrange(0, i as int) =~= self.cells@);
        }
        while i > 0
            invariant
                i <= self.cells@.len(),
                lookup(self.cells@, column, row) == lookup(self.cells@.subrange(0, i as int), column, row),
            decreases i,
        {
            let c = self.cells[i - 1];
            proof {
                assert(self.cells@.subrange(0, i as int).drop_last() =~= self.cells@.subrange(0, i - 1));
            }
            if c.column == column && c.row == row {
                return Some(c.value);
            }
            i = i - 1;
        }
        None
    }

    /// Opens a region: the next unused row.
    pub fn region(&mut self) -> (r: Result<usize, Error>)
        ensures
            old(self).wf() ==> final(self).wf(),
            final(self).same_geometry(old(self)),
            final(self).cells@ == old(self).cells@,
            final(self).enabled@ == old(self).enabled@,
            final(self).copies@ == old(self).copies@,
            final(self).exposed@ == old(self).exposed@,
            old(self).next_row < old(self).num_rows <==> r.is_ok(),
            r.is_ok() ==> r == Ok::<usize, Error>(old(self).next_row) && final(self).next_row == old(self).next_row + 1,
            r.is_err() ==> r == Err::<usize, Error>(Error::NotEnoughRows) && final(self).next_row == old(self).next_row,
    {
        if self.next_row < self.num_rows {
            let r = self.next_row;
            self.next_row = self.next_row + 1;
            Ok(r)
        } else {
            Err(Error::NotEnoughRows)
        }
    }

    /// Switches `s` on at `row`, a row of an opened region.
    pub fn enable_selector(&mut self, s: Selector, row: usize) -> (r: Result<(), Error>)
        ensures
            final(self).same_geometry(old(self)),
            final(self).next_row == old(self).next_row,
            final(self).cells@ == old(self).cells@,
            final(self).copies@ == old(self).copies@,
            final(self).exposed@ == old(self).exposed@,
            r.is_ok() <==> (s.index < old(self).num_selectors && row < old(self).next_row),
            r.is_ok() ==> final(self).enabled@ == old(self).enabled@.push((s.index, row)),
            r.is_err() ==> r == Err::<(), Error>(if s.index >= old(self).num_selectors {
                Error::NotDeclared
            } else {
                Error::NotEnoughRows
            }) && final(self).enabled@ == old(self).enabled@,
    {
        if s.index >= self.num_selectors {
            Err(Error::NotDeclared)
        } else if row >= self.next_row {
            Err(Error::NotEnoughRows)
        } else {
            self.enabled.push((s.index, row));
            Ok(())
        }
    }

    /// Assigns `v` to the cell of advice column `c` at `row`.
    pub fn assign_advice(&mut self, c: Column, row: usize, v: Value) -> (r: Result<AssignedCell, Error>)
        ensures
            old(self).wf() ==> final(self).wf(),
            final(self).same_geometry(old(self)),
            final(self).next_row == old(self).next_row,
            final(self).enabled@ == old(self).enabled@,
            final(self).copies@ == old(self).copies@,
            final(self).exposed@ == old(self).exposed@,
            match r {
                Ok(h) => {
                    &&& old(self).assign_error(c, row).is_none()
                    &&& h.cell == old(self).cells@.len()
                    &&& h.value == v
                    &&& final(self).cells@ == old(self).cells@.push(
                        CellRec { column: c.index, row, value: v },
                    )
                },
                Err(e) => {
                    &&& old(self).assign_error(c, row) == Some(e)
                    &&& final(self).cells@ == old(self).cells@
                },
            },
    {
        if !(c.kind == ColumnKind::Advice && c.index < self.num_advice) {
            return Err(Error::NotDeclared);
        }
        if row >= self.next_row {
            return Err(Error::NotEnoughRows);
        }
        if self.find(c.index, row).is_some() {
            return Err(Error::AlreadyAssigned);
        }
        let h = AssignedCell { cell: self.cells.len(), value: v };
        self.cells.push(CellRec { column: c.index, row, value: v });
        Ok(h)
    }

    /// Assigns the value of `src` to the cell of advice column `c` at `row`,
    /// and constrains the two cells to be equal.
    pub fn copy_advice(&mut self, src: &AssignedCell, c: Column, row: usize) -> (r: Result<AssignedCell, Error>)
        ensures
            old(self).wf() ==> final(self).wf(),
            final(self).same_geometry(old(self)),
            final(self).next_row == old(self).next_row,
            final(self).enabled@ == old(self).enabled@,
            final(self).exposed@ == old(self).exposed@,
            match r {
                Ok(h) => {
                    &&& old(self).copy_error(src.cell, c, row).is_none()
                    &&& h.cell == old(self).cells@.len()
                    &&& h.value == src.value
                    &&& final(self).cells@ == old(self).cells@.push(
                        CellRec { column: c.index, row, value: src.value },
                    )
                    &&& final(self).copies@ == old(self).copies@.push((src.cell, h.cell))
                },
                Err(e) => {
                    &&& old(self).copy_error(src.cell, c, row) == Some(e)
                    &&& final(self).cells@ == old(self).cells@
                    &&& final(self).copies@ == old(self).copies@
                },
            },
    {
        if src.cell >= self.cells.len() {
            return Err(Error::UnknownCell);
        }
        let from = Column { kind: ColumnKind::Advice, index: self.cells[src.cell].column };
        if !self.has_equality_exec(from) || !self.has_equality_exec(c) {
            return Err(Error::NotInPermutation);
        }
        let h = self.assign_advice(c, row, src.value)?;
        self.copies.push((src.cell, h.cell));
        Ok(h)
    }

    /// Constrains the cell `cell` to equal the public input at `row` of
    /// instance column `inst`.
    pub fn constrain_instance(&mut self, cell: usize, inst: Column, row: usize) -> (r: Result<(), Error>)
        ensures
            old(self).wf() ==> final(self).wf(),
            final(self).same_geometry(old(self)),
            final(self).next_row == old(self).next_row,
            final(self).cells@ == old(self).cells@,
            final(self).enabled@ == old(self).enabled@,
            final(self).copies@ == old(self).copies@,
            match r {
                Ok(_) => {
                    &&& old(self).instance_error(cell, inst, row).is_none()
                    &&& final(self).exposed@ == old(self).exposed@.push((cell, inst.index, row))
                },
                Err(e) => {
                    &&& old(self).instance_error(cell, inst, row) == Some(e)
                    &&& final(self).exposed@ == old(self).exposed@
                },
            },
    {
        if cell >= self.cells.len() {
            return Err(Error::UnknownCell);
        }
        if !(inst.kind == ColumnKind::Instance && inst.index < self.num_instance) {
            return Err(Error::NotDeclared);
        }
        if row >= self.num_rows {
            return Err(Error::NotEnoughRows);
        }
        let from = Column { kind: ColumnKind::Advice, index: self.cells[cell].column };
        if !self.has_equality_exec(from) || !self.has_equality_exec(inst) {
            return Err(Error::NotInPermutation);
        }
        self.exposed.push((cell, inst.index, row));
        Ok(())
    }
}

} // verus!
