//! The recurrence `t(n) = t(n - 1) + t(n - 2)` as a circuit: three advice
//! columns and one gate `q_fib * (elem_1 + elem_2 - elem_3) = 0`, one row
//! per step, each row's first two cells copied from the row before, and the
//! last sum bound to a public input.
//!
//! ```text
//! | elem_1 | elem_2 | elem_3 | q_fib |
//! |   1    |   1    |   2    |   1   |
//! |   1    |   2    |   3    |   1   |
//! |   2    |   3    |   5    |   1   |
//! ```

use crate::circuit::{Column, ColumnKind, ConstraintSystem, Selector};
use crate::layout::{advice, lookup, AssignedCell, CellRec, Error, Layouter};
use crate::check::{gate_holds, input_sum, known_at};
use crate::field::{field_add, modulus, Fe};
use crate::value::{value_add, Value};
use vstd::prelude::*;

verus! {

/// Term `n` of the sequence `t(0) = a`, `t(1) = b`,
/// `t(n) = t(n - 2) + t(n - 1)` over the field; unknown once a seed is.
pub open spec fn term(a: Option<nat>, b: Option<nat>, n: nat) -> Option<nat>
    decreases n,
{
    if n == 0 {
        a
    } else if n == 1 {
        b
    } else {
        value_add(term(a, b, (n - 2) as nat), term(a, b, (n - 1) as nat))
    }
}

#[derive(Clone, Copy, Debug)]
pub struct Config {
    pub elem_1: Column,
    pub elem_2: Column,
    pub elem_3: Column,
    pub q_fib: Selector,
    pub instance: Column,
}

impl Layouter {
    /// Nothing but the geometry is compared here: the whole assignment is
    /// as in `o`.
    pub open spec fn unchanged_from(&self, o: &Layouter) -> bool {
        &&& self.same_geometry(o)
        &&& self.next_row == o.next_row
        &&& self.cells@ == o.cells@
        &&& self.enabled@ == o.enabled@
        &&& self.copies@ == o.copies@
        &&& self.exposed@ == o.exposed@
    }
}

impl Config {
    pub open spec fn distinct(&self) -> bool {
        &&& self.elem_1.index != self.elem_2.index
        &&& self.elem_1.index != self.elem_3.index
        &&& self.elem_2.index != self.elem_3.index
    }

    /// The three advice columns and the selector exist in `lay`'s geometry.
    pub open spec fn declared_in(&self, lay: &Layouter) -> bool {
        &&& lay.declares_advice(self.elem_1)
        &&& lay.declares_advice(self.elem_2)
        &&& lay.declares_advice(self.elem_3)
        &&& self.q_fib.index < lay.num_selectors
    }

    /// Why `init` fails, if it does.
    pub open spec fn init_error(&self, lay: &Layouter) -> Option<Error> {
        if lay.next_row >= lay.num_rows {
            Some(Error::NotEnoughRows)
        } else if !self.declared_in(lay) {
            Some(Error::NotDeclared)
        } else if !self.distinct() {
            Some(Error::AlreadyAssigned)
        } else {
            None
        }
    }

    /// Why `assign` fails on the handles `prev_2`, `prev_3`, if it does.
    pub open spec fn assign_error(&self, lay: &Layouter, prev_2: usize, prev_3: usize) -> Option<Error> {
        if self.init_error(lay).is_some() {
            self.init_error(lay)
        } else if prev_2 >= lay.cells@.len() || prev_3 >= lay.cells@.len() {
            Some(Error::UnknownCell)
        } else if !lay.has_equality(self.elem_1) || !lay.has_equality(self.elem_2) || !lay.has_equality(
            advice(lay.cells@[prev_2 as int].column),
        ) || !lay.has_equality(advice(lay.cells@[prev_3 as int].column)) {
            Some(Error::NotInPermutation)
        } else {
            None
        }
    }

    /// The only gate that `q_fib` controls in `cs` is
    /// `elem_1 + elem_2 - elem_3`.
    pub open spec fn sole_gate(&self, cs: &ConstraintSystem) -> bool {
        forall|g: int|
            0 <= g < cs.gates@.len() && cs.gates@[g].selector == self.q_fib.index ==> {
                &&& cs.gates@[g].inputs@ == seq![self.elem_1.index, self.elem_2.index]
                &&& cs.gates@[g].output == self.elem_3.index
            }
    }

    /// Declares the columns, the selector and the recurrence constraint in `cs`.
    pub fn configure(cs: &mut ConstraintSystem) -> (r: Config)
        requires
            old(cs).num_advice + 3 <= usize::MAX,
            old(cs).num_instance < usize::MAX,
            old(cs).num_selectors < usize::MAX,
        ensures
            old(cs).wf() ==> final(cs).wf() && r.sole_gate(final(cs)),
            r.elem_1 == advice(old(cs).num_advice),
            r.elem_2 == advice((old(cs).num_advice + 1) as usize),
            r.elem_3 == advice((old(cs).num_advice + 2) as usize),
            r.instance == (Column { kind: ColumnKind::Instance, index: old(cs).num_instance }),
            r.q_fib == (Selector { index: old(cs).num_selectors }),
            final(cs).num_advice == old(cs).num_advice + 3,
            final(cs).num_instance == old(cs).num_instance + 1,
            final(cs).num_selectors == old(cs).num_selectors + 1,
            forall|x: Column|
                final(cs).has_equality(x) <==> (old(cs).has_equality(x) || x == r.elem_1 || x == r.elem_2
                    || x == r.elem_3 || x == r.instance),
            final(cs).gates@.len() == old(cs).gates@.len() + 1,
            forall|g: int| 0 <= g < old(cs).gates@.len() ==> final(cs).gates@[g] == old(cs).gates@[g],
            final(cs).gates@.last().selector == r.q_fib.index,
            final(cs).gates@.last().inputs@ == seq![r.elem_1.index, r.elem_2.index],
            final(cs).gates@.last().output == r.elem_3.index,
    {
        let ghost start = *cs;
        let elem_1 = cs.advice_column();
        cs.enable_equality(elem_1);
        let ghost s1 = *cs;
        let elem_2 = cs.advice_column();
        cs.enable_equality(elem_2);
        let ghost s2 = *cs;
        let elem_3 = cs.advice_column();
        cs.enable_equality(elem_3);
        let ghost s3 = *cs;
        let instance = cs.instance_column();
        cs.enable_equality(instance);
        let ghost s4 = *cs;
        let q_fib = cs.selector();
        proof {
            assert forall|x: Column|
                cs.has_equality(x) <==> (start.has_equality(x) || x == elem_1 || x == elem_2 || x == elem_3
                    || x == instance) by {
                assert(s1.has_equality(x) <==> (start.has_equality(x) || x == elem_1));
                assert(s2.has_equality(x) <==> (s1.has_equality(x) || x == elem_2));
                assert(s3.has_equality(x) <==> (s2.has_equality(x) || x == elem_3));
                assert(s4.has_equality(x) <==> (s3.has_equality(x) || x == instance));
                assert(cs.equality@ == s4.equality@);
            }
        }
        let inputs: Vec<Column> = vec![elem_1, elem_2];
        cs.create_gate(String::from_str("fibonacci"), q_fib, inputs, elem_3);
        proof {
            assert(inputs@.map_values(|c: Column| c.index) =~= seq![elem_1.index, elem_2.index]);
        }
        Config { elem_1, elem_2, elem_3, q_fib, instance }
    }

    fn check_declared(&self, lay: &Layouter) -> (r: Result<(), Error>)
        ensures
            match r {
                Ok(_) => self.init_error(lay).is_none(),
                Err(e) => self.init_error(lay) == Some(e),
            },
    {
        if lay.next_row >= lay.num_rows {
            return Err(Error::NotEnoughRows);
        }
        let ok_1 = self.elem_1.kind == ColumnKind::Advice && self.elem_1.index < lay.num_advice;
        let ok_2 = self.elem_2.kind == ColumnKind::Advice && self.elem_2.index < lay.num_advice;
        let ok_3 = self.elem_3.kind == ColumnKind::Advice && self.elem_3.index < lay.num_advice;
        if !(ok_1 && ok_2 && ok_3 && self.q_fib.index < lay.num_selectors) {
            return Err(Error::NotDeclared);
        }
        if self.elem_1.index == self.elem_2.index || self.elem_1.index == self.elem_3.index
            || self.elem_2.index == self.elem_3.index {
            return Err(Error::AlreadyAssigned);
        }
        Ok(())
    }

    /// Seeds a fresh row with `elem_1`, `elem_2` and their sum under `q_fib`;
    /// hands back the cells of the second and third column.
    pub fn init(&self, lay: &mut Layouter, elem_1: Value, elem_2: Value) -> (r: Result<
        (AssignedCell, AssignedCell),
        Error,
    >)
        requires
            old(lay).wf(),
        ensures
            final(lay).wf(),
            match r {
                Ok((h2, h3)) => {
                    let row = old(lay).next_row;
                    let n = old(lay).cells@.len();
                    &&& self.init_error(old(lay)).is_none()
                    &&& final(lay).same_geometry(old(lay))
                    &&& final(lay).next_row == row + 1
                    &&& h3.value@ == value_add(elem_1@, elem_2@)
                    &&& h2 == (AssignedCell { cell: (n + 1) as usize, value: elem_2 })
                    &&& h3.cell == n + 2
                    &&& final(lay).cells@ == old(lay).cells@.push(
                        CellRec { column: self.elem_1.index, row, value: elem_1 },
                    ).push(CellRec { column: self.elem_2.index, row, value: elem_2 }).push(
                        CellRec { column: self.elem_3.index, row, value: h3.value },
                    )
                    &&& final(lay).enabled@ == old(lay).enabled@.push((self.q_fib.index, row))
                    &&& final(lay).copies@ == old(lay).copies@
                    &&& final(lay).exposed@ == old(lay).exposed@
                },
                Err(e) => {
                    &&& self.init_error(old(lay)) == Some(e)
                    &&& final(lay).unchanged_from(old(lay))
                },
            },
    {
        self.check_declared(lay)?;
        let ghost start = *lay;
        let row = lay.region()?;
        lay.enable_selector(self.q_fib, row)?;
        proof {
            crate::layout::lemma_lookup_fresh_row(lay.cells@, self.elem_1.index, row);
        }
        let c1 = lay.assign_advice(self.elem_1, row, elem_1)?;
        proof {
            crate::layout::lemma_lookup_fresh_row(start.cells@, self.elem_2.index, row);
            assert(lay.cells@.drop_last() =~= start.cells@);
        }
        let c2 = lay.assign_advice(self.elem_2, row, elem_2)?;
        let sum = c1.value.add(&c2.value);
        proof {
            crate::layout::lemma_lookup_fresh_row(start.cells@, self.elem_3.index, row);
            assert(lay.cells@.drop_last().drop_last() =~= start.cells@);
            assert(lookup(lay.cells@.drop_last(), self.elem_3.index, row) == None::<Value>);
            assert(lookup(lay.cells@, self.elem_3.index, row) == None::<Value>);
        }
        let c3 = lay.assign_advice(self.elem_3, row, sum)?;
        Ok((c2, c3))
    }

    /// Advances one step on a fresh row: copies `prev_2` into `elem_1` and
    /// `prev_3` into `elem_2`, constraining each copy equal to its source,
    /// and assigns their sum to `elem_3` under `q_fib`; hands back the cells
    /// of the second and third column.
    pub fn assign(&self, lay: &mut Layouter, prev_2: &AssignedCell, prev_3: &AssignedCell) -> (r: Result<
        (AssignedCell, AssignedCell),
        Error,
    >)
        requires
            old(lay).wf(),
        ensures
            final(lay).wf(),
            match r {
                Ok((h2, h3)) => {
                    let row = old(lay).next_row;
                    let n = old(lay).cells@.len();
                    &&& self.assign_error(old(lay), prev_2.cell, prev_3.cell).is_none()
                    &&& final(lay).same_geometry(old(lay))
                    &&& final(lay).next_row == row + 1
                    &&& h3.value@ == value_add(prev_2.value@, prev_3.value@)
                    &&& h2 == (AssignedCell { cell: (n + 1) as usize, value: prev_3.value })
                    &&& h3.cell == n + 2
                    &&& final(lay).cells@ == old(lay).cells@.push(
                        CellRec { column: self.elem_1.index, row, value: prev_2.value },
                    ).push(CellRec { column: self.elem_2.index, row, value: prev_3.value }).push(
                        CellRec { column: self.elem_3.index, row, value: h3.value },
                    )
                    &&& final(lay).enabled@ == old(lay).enabled@.push((self.q_fib.index, row))
                    &&& final(lay).copies@ == old(lay).copies@.push((prev_2.cell, n as usize)).push(
                        (prev_3.cell, (n + 1) as usize),
                    )
                    &&& final(lay).exposed@ == old(lay).exposed@
                },
                Err(e) => {
                    &&& self.assign_error(old(lay), prev_2.cell, prev_3.cell) == Some(e)
                    &&& final(lay).unchanged_from(old(lay))
                },
            },
    {
        self.check_declared(lay)?;
        if prev_2.cell >= lay.cells.len() || prev_3.cell >= lay.cells.len() {
            return Err(Error::UnknownCell);
        }
        let from_2 = Column { kind: ColumnKind::Advice, index: lay.cells[prev_2.cell].column };
        let from_3 = Column { kind: ColumnKind::Advice, index: lay.cells[prev_3.cell].column };
        if !lay.has_equality_exec(self.elem_1) || !lay.has_equality_exec(self.elem_2)
            || !lay.has_equality_exec(from_2) || !lay.has_equality_exec(from_3) {
            return Err(Error::NotInPermutation);
        }
        let ghost start = *lay;
        let row = lay.region()?;
        lay.enable_selector(self.q_fib, row)?;
        proof {
            crate::layout::lemma_lookup_fresh_row(lay.cells@, self.elem_1.index, row);
        }
        let c1 = lay.copy_advice(prev_2, self.elem_1, row)?;
        proof {
            crate::layout::lemma_lookup_fresh_row(start.cells@, self.elem_2.index, row);
            assert(lay.cells@.drop_last() =~= start.cells@);
            assert(lay.cells@[prev_3.cell as int] == start.cells@[prev_3.cell as int]);
        }
        let c2 = lay.copy_advice(prev_3, self.elem_2, row)?;
        let sum = c1.value.add(&c2.value);
        proof {
            crate::layout::lemma_lookup_fresh_row(start.cells@, self.elem_3.index, row);
            assert(lay.cells@.drop_last().drop_last() =~= start.cells@);
            assert(lookup(lay.cells@.drop_last(), self.elem_3.index, row) == None::<Value>);
            assert(lookup(lay.cells@, self.elem_3.index, row) == None::<Value>);
        }
        let c3 = lay.assign_advice(self.elem_3, row, sum)?;
        Ok((c2, c3))
    }

    /// Binds `cell` to the public input at `row` of the instance column.
    pub fn expose_public(&self, lay: &mut Layouter, cell: &AssignedCell, row: usize) -> (r: Result<(), Error>)
        ensures
            old(lay).wf() ==> final(lay).wf(),
            final(lay).same_geometry(old(lay)),
            final(lay).next_row == old(lay).next_row,
            final(lay).cells@ == old(lay).cells@,
            final(lay).enabled@ == old(lay).enabled@,
            final(lay).copies@ == old(lay).copies@,
            match r {
                Ok(_) => {
                    &&& old(lay).instance_error(cell.cell, self.instance, row).is_none()
                    &&& final(lay).exposed@ == old(lay).exposed@.push((cell.cell, self.instance.index, row))
                },
                Err(e) => {
                    &&& old(lay).instance_error(cell.cell, self.instance, row) == Some(e)
                    &&& final(lay).exposed@ == old(lay).exposed@
                },
            },
    {
        lay.constrain_instance(cell.cell, self.instance, row)
    }
}


/// Copy constraint `k` of a trace: step `k / 2` copies the second
/// (`k` even) or third (`k` odd) cell of its row into the next row.
pub open spec fn is_copy_pair(c: (usize, usize), k: int) -> bool {
    c.0 == 3 * (k / 2) + 1 + k % 2 && c.1 == 3 * (k / 2) + 3 + k % 2
}

impl Config {
    /// The advice column of arena cell `j` in a trace: rows hold three cells.
    pub open spec fn cell_column(&self, j: int) -> usize {
        if j % 3 == 0 {
            self.elem_1.index
        } else if j % 3 == 1 {
            self.elem_2.index
        } else {
            self.elem_3.index
        }
    }

    /// The geometry of a trace of `steps` steps after the seed row: which
    /// cell lies where, which rows are gated, which cells are copies of which,
    /// and the one bound cell. None of it depends on the seeds.
    pub open spec fn trace_shape(&self, lay: &Layouter, steps: nat) -> bool {
        &&& lay.next_row == steps + 1
        &&& lay.cells@.len() == 3 * (steps + 1)
        &&& forall|j: int|
            #![trigger lay.cells@[j]]
            0 <= j < lay.cells@.len() ==> lay.cells@[j].row == j / 3 && lay.cells@[j].column == self.cell_column(j)
        &&& lay.enabled@.len() == steps + 1
        &&& forall|r: int| 0 <= r <= steps ==> lay.enabled@[r] == (self.q_fib.index, r as usize)
        &&& lay.copies@.len() == 2 * steps
        &&& forall|k: int| 0 <= k < lay.copies@.len() ==> is_copy_pair(lay.copies@[k], k)
        &&& lay.exposed@.len() == 1
        &&& lay.exposed@[0].0 == 3 * steps + 2
        &&& lay.exposed@[0].1 == self.instance.index
        &&& lay.exposed@[0].2 == 0
    }

    /// Cell `3 * r + i` of the trace holds term `r + i`.
    pub open spec fn trace_values(&self, lay: &Layouter, a: Option<nat>, b: Option<nat>) -> bool {
        forall|j: int|
            #![trigger lay.cells@[j]]
            0 <= j < lay.cells@.len() ==> lay.cells@[j].value@ == term(a, b, (j / 3 + j % 3) as nat)
    }

    /// Why `synthesize` fails, if it does.
    pub open spec fn synthesis_error(&self, cs: &ConstraintSystem, steps: usize, num_rows: usize) -> Option<Error> {
        if steps >= num_rows {
            Some(Error::NotEnoughRows)
        } else if !(self.elem_1.kind == ColumnKind::Advice && self.elem_1.index < cs.num_advice
            && self.elem_2.kind == ColumnKind::Advice && self.elem_2.index < cs.num_advice
            && self.elem_3.kind == ColumnKind::Advice && self.elem_3.index < cs.num_advice
            && self.q_fib.index < cs.num_selectors && self.instance.kind == ColumnKind::Instance
            && self.instance.index < cs.num_instance) {
            Some(Error::NotDeclared)
        } else if !self.distinct() {
            Some(Error::AlreadyAssigned)
        } else if !(cs.has_equality(self.elem_1) && cs.has_equality(self.elem_2) && cs.has_equality(
            self.elem_3,
        ) && cs.has_equality(self.instance)) {
            Some(Error::NotInPermutation)
        } else {
            None
        }
    }

    /// One synthesis pass over `num_rows` rows: seeds the first row with
    /// `elem_1` and `elem_2`, advances `steps` times, and binds the last sum
    /// to the first public input of the instance column.
    pub fn synthesize(&self, cs: &ConstraintSystem, elem_1: Value, elem_2: Value, steps: usize, num_rows: usize) -> (r:
        Result<Layouter, Error>)
        ensures
            match r {
                Ok(lay) => {
                    &&& self.synthesis_error(cs, steps, num_rows).is_none()
                    &&& lay.wf()
                    &&& lay.num_advice == cs.num_advice
                    &&& lay.num_instance == cs.num_instance
                    &&& lay.num_selectors == cs.num_selectors
                    &&& lay.equality@ == cs.equality@
                    &&& lay.num_rows == num_rows
                    &&& self.trace_shape(&lay, steps as nat)
                    &&& self.trace_values(&lay, elem_1@, elem_2@)
                    &&& lay.cells@[3 * steps + 2].value@ == term(elem_1@, elem_2@, (steps + 2) as nat)
                },
                Err(e) => self.synthesis_error(cs, steps, num_rows) == Some(e),
            },
    {
        if steps >= num_rows {
            return Err(Error::NotEnoughRows);
        }
        if !(self.elem_1.kind == ColumnKind::Advice && self.elem_1.index < cs.num_advice
            && self.elem_2.kind == ColumnKind::Advice && self.elem_2.index < cs.num_advice
            && self.elem_3.kind == ColumnKind::Advice && self.elem_3.index < cs.num_advice
            && self.q_fib.index < cs.num_selectors && self.instance.kind == ColumnKind::Instance
            && self.instance.index < cs.num_instance) {
            return Err(Error::NotDeclared);
        }
        if self.elem_1.index == self.elem_2.index || self.elem_1.index == self.elem_3.index
            || self.elem_2.index == self.elem_3.index {
            return Err(Error::AlreadyAssigned);
        }
        if !(cs.is_equality_enabled(self.elem_1) && cs.is_equality_enabled(self.elem_2)
            && cs.is_equality_enabled(self.elem_3) && cs.is_equality_enabled(self.instance)) {
            return Err(Error::NotInPermutation);
        }
        let mut lay = Layouter::new(cs, num_rows);
        let (mut h2, mut h3) = self.init(&mut lay, elem_1, elem_2)?;
        proof {
            assert forall|j: int| 0 <= j < lay.cells@.len() implies lay.cells@[j].row == j / 3
                && lay.cells@[j].column == self.cell_column(j) && lay.cells@[j].value@ == term(
                elem_1@,
                elem_2@,
                (j / 3 + j % 3) as nat,
            ) by {
                assert(term(elem_1@, elem_2@, 2) == value_add(term(elem_1@, elem_2@, 0), term(elem_1@, elem_2@, 1)));
            }
            assert(lay.exposed@.len() == 0);
        }
        let mut i: usize = 0;
        while i < steps
            invariant
                i <= steps < num_rows,
                self.synthesis_error(cs, steps, num_rows).is_none(),
                lay.wf(),
                lay.num_advice == cs.num_advice,
                lay.num_instance == cs.num_instance,
                lay.num_selectors == cs.num_selectors,
                lay.equality@ == cs.equality@,
                lay.num_rows == num_rows,
                lay.next_row == i + 1,
                lay.cells@.len() == 3 * (i + 1),
                forall|j: int|
                    #![trigger lay.cells@[j]]
                    0 <= j < lay.cells@.len() ==> lay.cells@[j].row == j / 3 && lay.cells@[j].column
                        == self.cell_column(j),
                lay.enabled@.len() == i + 1,
                forall|r: int| 0 <= r <= i ==> lay.enabled@[r] == (self.q_fib.index, r as usize),
                lay.copies@.len() == 2 * i,
                forall|k: int| 0 <= k < lay.copies@.len() ==> is_copy_pair(lay.copies@[k], k),
                lay.exposed@.len() == 0,
                self.trace_values(&lay, elem_1@, elem_2@),
                h2.cell == 3 * i + 1,
                h3.cell == 3 * i + 2,
                h2.value == lay.cells@[3 * i + 1].value,
                h3.value == lay.cells@[3 * i + 2].value,
            decreases steps - i,
        {
            let ghost before = lay;
            proof {
                assert((3 * i + 1) % 3 == 1 && (3 * i + 2) % 3 == 2);
                assert(lay.cells@[3 * i + 1].column == self.cell_column(3 * i + 1));
                assert(lay.cells@[3 * i + 2].column == self.cell_column(3 * i + 2));
                assert(advice(lay.cells@[h2.cell as int].column) == self.elem_2);
                assert(advice(lay.cells@[h3.cell as int].column) == self.elem_3);
                assert(lay.has_equality(self.elem_2));
                assert(lay.has_equality(self.elem_3));
            }
            let (n2, n3) = self.assign(&mut lay, &h2, &h3)?;
            proof {
                let n = 3 * (i + 1);
                assert forall|j: int| 0 <= j < lay.cells@.len() implies lay.cells@[j].row == j / 3
                    && lay.cells@[j].column == self.cell_column(j) && lay.cells@[j].value@ == term(
                    elem_1@,
                    elem_2@,
                    (j / 3 + j % 3) as nat,
                ) by {
                    if j < n {
                        assert(lay.cells@[j] == before.cells@[j]);
                        assert(before.cells@[j].row == j / 3);
                    } else {
                        let t = (i + 1) as nat;
                        assert(j / 3 == t) by (nonlinear_arith)
                            requires
                                3 * t <= j < 3 * t + 3,
                        ;
                        assert(before.next_row == t);
                        assert(lay.cells@[j].row == t);
                        assert(term(elem_1@, elem_2@, t + 2) == value_add(term(elem_1@, elem_2@, t), term(elem_1@, elem_2@, t + 1)));
                    }
                }
                assert forall|k: int| 0 <= k < lay.copies@.len() implies is_copy_pair(lay.copies@[k], k) by {
                    if k < 2 * i {
                        assert(lay.copies@[k] == before.copies@[k]);
                    }
                }
            }
            h2 = n2;
            h3 = n3;
            i = i + 1;
        }
        proof {
            assert((3 * i + 2) % 3 == 2 && (3 * i + 2) / 3 == i);
            assert(lay.cells@[3 * i + 2].column == self.cell_column(3 * i + 2));
            assert(lay.cells@[3 * i + 2].value@ == term(elem_1@, elem_2@, (i + 2) as nat));
            assert(advice(lay.cells@[h3.cell as int].column) == self.elem_3);
            assert(lay.has_equality(self.elem_3));
            assert(lay.has_equality(self.instance));
        }
        self.expose_public(&mut lay, &h3, 0)?;
        Ok(lay)
    }
}


/// The same recurrence over the integers: `s(0) = a`, `s(1) = b`,
/// `s(n) = s(n - 2) + s(n - 1)`.
pub open spec fn int_term(a: nat, b: nat, n: nat) -> nat
    decreases n,
{
    if n == 0 {
        a
    } else if n == 1 {
        b
    } else {
        int_term(a, b, (n - 2) as nat) + int_term(a, b, (n - 1) as nat)
    }
}

/// A known value below the modulus, as every element's value is.
pub open spec fn known_element(v: Option<nat>) -> bool {
    v.is_some() && v.unwrap() < modulus()
}

/// With known seeds every term of the field recurrence is known, and is the
/// integer recurrence reduced modulo the field's order.
pub proof fn lemma_term_is_reduced_integer_term(a: nat, b: nat, n: nat)
    requires
        a < modulus(),
        b < modulus(),
    ensures
        term(Some(a), Some(b), n) == Some(int_term(a, b, n) % modulus()),
    decreases n,
{
    crate::field::lemma_modulus_positive();
    if n <= 1 {
        vstd::arithmetic::div_mod::lemma_small_mod(a, modulus());
        vstd::arithmetic::div_mod::lemma_small_mod(b, modulus());
    } else {
        lemma_term_is_reduced_integer_term(a, b, (n - 2) as nat);
        lemma_term_is_reduced_integer_term(a, b, (n - 1) as nat);
        vstd::arithmetic::div_mod::lemma_add_mod_noop(
            int_term(a, b, (n - 2) as nat) as int,
            int_term(a, b, (n - 1) as nat) as int,
            modulus() as int,
        );
    }
}

proof fn lemma_term_known(a: Option<nat>, b: Option<nat>, n: nat)
    requires
        known_element(a),
        known_element(b),
    ensures
        known_element(term(a, b, n)),
{
    crate::field::lemma_modulus_positive();
    lemma_term_is_reduced_integer_term(a.unwrap(), b.unwrap(), n);
}

/// The cell at `(column, row)` that nothing else shares is the one found.
proof fn lemma_lookup_unique(cells: Seq<CellRec>, column: usize, row: usize, k: int)
    requires
        0 <= k < cells.len(),
        cells[k].column == column && cells[k].row == row,
        forall|j: int| 0 <= j < cells.len() && j != k ==> !(cells[j].column == column && cells[j].row == row),
    ensures
        lookup(cells, column, row) == Some(cells[k].value),
    decreases cells.len(),
{
    if k != cells.len() - 1 {
        assert(!(cells.last().column == column && cells.last().row == row));
        lemma_lookup_unique(cells.drop_last(), column, row, k);
    }
}

impl Config {
    /// In a trace, the cell of column `i` (0, 1 or 2) at row `r` is the arena
    /// cell `3 * r + i`, and holds term `r + i`.
    proof fn lemma_trace_cell(&self, lay: &Layouter, a: Option<nat>, b: Option<nat>, steps: nat, r: int, i: int)
        requires
            self.distinct(),
            self.trace_shape(lay, steps),
            self.trace_values(lay, a, b),
            0 <= r <= steps,
            0 <= i < 3,
        ensures
            lookup(lay.cells@, self.cell_column(3 * r + i), r as usize) == Some(lay.cells@[3 * r + i].value),
            known_at(lay.cells@, self.cell_column(3 * r + i), r as usize) == term(a, b, (r + i) as nat),
    {
        let k = 3 * r + i;
        assert(k / 3 == r && k % 3 == i) by (nonlinear_arith)
            requires
                k == 3 * r + i,
                0 <= i < 3,
        ;
        assert(lay.cells@[k].row == r);
        assert forall|j: int|
            0 <= j < lay.cells@.len() && j != k implies !(lay.cells@[j].column == self.cell_column(k)
                && lay.cells@[j].row == r as usize) by {
            if lay.cells@[j].row == r as usize && lay.cells@[j].column == self.cell_column(k) {
                assert(lay.cells@[j].row == j / 3);
                assert(j % 3 == i);
                assert(j == 3 * (j / 3) + j % 3) by (nonlinear_arith);
            }
        }
        lemma_lookup_unique(lay.cells@, self.cell_column(k), r as usize, k);
    }

    /// With known seeds, every row of a trace satisfies its constraint and every copy
    /// constraint joins equal known values.
    pub proof fn lemma_trace_gates_and_copies_hold(
        &self,
        cs: &ConstraintSystem,
        lay: &Layouter,
        a: Option<nat>,
        b: Option<nat>,
        steps: nat,
    )
        requires
            self.distinct(),
            self.sole_gate(cs),
            self.trace_shape(lay, steps),
            self.trace_values(lay, a, b),
            known_element(a),
            known_element(b),
        ensures
            lay.gates_hold(cs),
            lay.copies_hold(),
    {
        assert forall|e: int| 0 <= e < lay.enabled@.len() implies lay.gates_hold_at(cs, e) by {
            let row = e as usize;
            assert(lay.enabled@[e] == (self.q_fib.index, row));
            self.lemma_trace_cell(lay, a, b, steps, e, 0);
            self.lemma_trace_cell(lay, a, b, steps, e, 1);
            self.lemma_trace_cell(lay, a, b, steps, e, 2);
            assert(self.cell_column(3 * e) == self.elem_1.index) by {
                assert((3 * e) % 3 == 0) by (nonlinear_arith);
            }
            assert(self.cell_column(3 * e + 1) == self.elem_2.index) by {
                assert((3 * e + 1) % 3 == 1) by (nonlinear_arith);
            }
            assert(self.cell_column(3 * e + 2) == self.elem_3.index) by {
                assert((3 * e + 2) % 3 == 2) by (nonlinear_arith);
            }
            lemma_term_known(a, b, e as nat);
            lemma_term_known(a, b, (e + 1) as nat);
            let x = term(a, b, e as nat).unwrap();
            crate::field::lemma_modulus_positive();
            vstd::arithmetic::div_mod::lemma_small_mod(x, modulus());
            let cols = seq![self.elem_1.index, self.elem_2.index];
            assert(cols.drop_last() =~= seq![self.elem_1.index]);
            assert(cols.drop_last().drop_last() =~= Seq::<usize>::empty());
            assert(known_at(lay.cells@, self.elem_1.index, row) == Some(x));
            assert(input_sum(lay.cells@, cols.drop_last().drop_last(), row) == Some(0nat));
            assert(cols.drop_last().last() == self.elem_1.index);
            assert(input_sum(lay.cells@, cols.drop_last(), row) == Some(field_add(0, x)));
            assert(term(a, b, (e + 2) as nat) == value_add(term(a, b, e as nat), term(a, b, (e + 1) as nat)));
            assert forall|g: int|
                0 <= g < cs.gates@.len() && cs.gates@[g].selector == lay.enabled@[e].0 implies gate_holds(
                cs.gates@[g],
                lay.cells@,
                lay.enabled@[e].1,
            ) by {
                assert(cs.gates@[g].inputs@ == cols);
            }
        }
        assert forall|k: int| 0 <= k < lay.copies@.len() implies lay.copy_holds(k) by {
            let s = k / 2;
            let m = k % 2;
            assert(0 <= s < steps && 0 <= m < 2 && 3 * s + 4 + m <= 3 * steps + 2) by (nonlinear_arith)
                requires
                    0 <= k < 2 * steps,
                    s == k / 2,
                    m == k % 2,
            ;
            assert(is_copy_pair(lay.copies@[k], k));
            let src = lay.copies@[k].0 as int;
            let dst = lay.copies@[k].1 as int;
            assert(src / 3 == s && src % 3 == 1 + m && dst / 3 == s + 1 && dst % 3 == m) by (nonlinear_arith)
                requires
                    src == 3 * s + 1 + m,
                    dst == 3 * s + 3 + m,
                    0 <= m < 2,
            ;
            assert(lay.cells@[src].value@ == term(a, b, (s + 1 + m) as nat));
            assert(lay.cells@[dst].value@ == term(a, b, (s + 1 + m) as nat));
            lemma_term_known(a, b, (s + 1 + m) as nat);
        }
    }

    /// A trace with known seeds satisfies the circuit exactly when the
    /// instance column's first public input equals the last term computed.
    pub proof fn lemma_satisfied_iff_public_output_matches(
        &self,
        cs: &ConstraintSystem,
        lay: &Layouter,
        a: Option<nat>,
        b: Option<nat>,
        steps: nat,
        instance: Seq<Vec<Fe>>,
    )
        requires
            self.distinct(),
            self.sole_gate(cs),
            self.trace_shape(lay, steps),
            self.trace_values(lay, a, b),
            known_element(a),
            known_element(b),
        ensures
            lay.satisfied(cs, instance) <==> {
                &&& self.instance.index < instance.len()
                &&& instance[self.instance.index as int]@.len() > 0
                &&& term(a, b, steps + 2) == Some(instance[self.instance.index as int]@[0].val())
            },
    {
        self.lemma_trace_gates_and_copies_hold(cs, lay, a, b, steps);
        let last: int = 3 * steps as int + 2;
        assert(last / 3 == steps && last % 3 == 2) by (nonlinear_arith)
            requires
                last == 3 * steps + 2,
        ;
        assert(lay.cells@[last].value@ == term(a, b, steps + 2));
        if lay.satisfied(cs, instance) {
            assert(lay.binding_holds(instance, 0));
        }
    }
}

/// Two traces of one configuration and one number of steps, whatever their
/// seeds (known or unknown), agree on everything but the cells' values:
/// where each cell lies, which rows are gated, the copy constraints and the
/// public binding.
pub proof fn lemma_shape_independent_of_values(
    config: Config,
    l1: &Layouter,
    l2: &Layouter,
    steps: nat,
)
    requires
        config.trace_shape(l1, steps),
        config.trace_shape(l2, steps),
    ensures
        l1.next_row == l2.next_row,
        l1.cells@.len() == l2.cells@.len(),
        forall|j: int|
            0 <= j < l1.cells@.len() ==> l1.cells@[j].column == l2.cells@[j].column && l1.cells@[j].row
                == l2.cells@[j].row,
        l1.enabled@ == l2.enabled@,
        l1.copies@ == l2.copies@,
        l1.exposed@ == l2.exposed@,
{
    assert(l1.enabled@ =~= l2.enabled@);
    assert forall|k: int| 0 <= k < l1.copies@.len() implies l1.copies@[k] == l2.copies@[k] by {
        assert(is_copy_pair(l1.copies@[k], k));
        assert(is_copy_pair(l2.copies@[k], k));
    }
    assert(l1.copies@ =~= l2.copies@);
    assert(l1.exposed@ =~= l2.exposed@);
}

} // verus!
