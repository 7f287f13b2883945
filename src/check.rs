//! Decides whether an assignment satisfies its circuit: every enabled gate
//! holds at its row, every copy constraint joins equal known values, and
//! every bound cell equals its public input.

use crate::circuit::{ConstraintSystem, Gate};
use crate::field::{field_add, Fe};
use crate::layout::{lookup, CellRec, Layouter};
use crate::value::Value;
use vstd::prelude::*;

verus! {

/// The known value at `(column, row)`, if a cell there holds one.
pub open spec fn known_at(cells: Seq<CellRec>, column: usize, row: usize) -> Option<nat> {
    match lookup(cells, column, row) {
        Some(v) => v@,
        None => None,
    }
}

/// The field sum of the cells of `columns` at `row`, if all are known.
pub open spec fn input_sum(cells: Seq<CellRec>, columns: Seq<usize>, row: usize) -> Option<nat>
    decreases columns.len(),
{
    if columns.len() == 0 {
        Some(0)
    } else {
        match (input_sum(cells, columns.drop_last(), row), known_at(cells, columns.last(), row)) {
            (Some(s), Some(x)) => Some(field_add(s, x)),
            _ => None,
        }
    }
}

/// The relation of `g` holds at `row`: its inputs sum to its output.
pub open spec fn gate_holds(g: Gate, cells: Seq<CellRec>, row: usize) -> bool {
    match (input_sum(cells, g.inputs@, row), known_at(cells, g.output, row)) {
        (Some(s), Some(o)) => s == o,
        _ => false,
    }
}

impl Layouter {
    /// Every gate of `cs` under the selector enabled by entry `i` holds there.
    pub open spec fn gates_hold_at(&self, cs: &ConstraintSystem, i: int) -> bool {
        forall|g: int|
            0 <= g < cs.gates@.len() && cs.gates@[g].selector == self.enabled@[i].0 ==> gate_holds(
                cs.gates@[g],
                self.cells@,
                self.enabled@[i].1,
            )
    }

    pub open spec fn gates_hold(&self, cs: &ConstraintSystem) -> bool {
        forall|i: int| 0 <= i < self.enabled@.len() ==> self.gates_hold_at(cs, i)
    }

    pub open spec fn copy_holds(&self, k: int) -> bool {
        let (a, b) = self.copies@[k];
        &&& a < self.cells@.len()
        &&& b < self.cells@.len()
        &&& self.cells@[a as int].value@.is_some()
        &&& self.cells@[a as int].value@ == self.cells@[b as int].value@
    }

    pub open spec fn copies_hold(&self) -> bool {
        forall|k: int| 0 <= k < self.copies@.len() ==> self.copy_holds(k)
    }

    pub open spec fn binding_holds(&self, instance: Seq<Vec<Fe>>, k: int) -> bool {
        let (c, ic, ir) = self.exposed@[k];
        &&& c < self.cells@.len()
        &&& ic < instance.len()
        &&& ir < instance[ic as int]@.len()
        &&& self.cells@[c as int].value@ == Some(instance[ic as int]@[ir as int].val())
    }

    pub open spec fn bindings_hold(&self, instance: Seq<Vec<Fe>>) -> bool {
        forall|k: int| 0 <= k < self.exposed@.len() ==> self.binding_holds(instance, k)
    }

    pub open spec fn satisfied(&self, cs: &ConstraintSystem, instance: Seq<Vec<Fe>>) -> bool {
        &&& self.gates_hold(cs)
        &&& self.copies_hold()
        &&& self.bindings_hold(instance)
    }

    /// Whether `g` holds at `row`.
    pub fn gate_holds_exec(&self, g: &Gate, row: usize) -> (r: bool)
        ensures
            r == gate_holds(*g, self.cells@, row),
    {
        let mut acc = Fe::zero();
        let mut i: usize = 0;
        while i < g.inputs.len()
            invariant
                i <= g.inputs@.len(),
                input_sum(self.cells@, g.inputs@.subrange(0, i as int), row) == Some(acc.val()),
            decreases g.inputs@.len() - i,
        {
            proof {
                let pre = g.inputs@.subrange(0, i as int + 1);
                assert(pre.drop_last() =~= g.inputs@.subrange(0, i as int));
            }
            match self.find(g.inputs[i], row) {
                Some(Value::Known(x)) => {
                    acc = acc.add(&x);
                },
                _ => {
                    proof {
                        lemma_input_sum_none(self.cells@, g.inputs@, i as int + 1, row);
                        assert(g.inputs@.subrange(0, g.inputs@.len() as int) =~= g.inputs@);
                    }
                    return false;
                },
            }
            i = i + 1;
        }
        proof {
            assert(g.inputs@.subrange(0, g.inputs@.len() as int) =~= g.inputs@);
        }
        match self.find(g.output, row) {
            Some(Value::Known(o)) => acc.same(&o),
            _ => false,
        }
    }

    /// Whether the assignment satisfies `cs` with the public inputs
    /// `instance`, one vector per instance column.
    pub fn is_satisfied(&self, cs: &ConstraintSystem, instance: &Vec<Vec<Fe>>) -> (r: bool)
        ensures
            r == self.satisfied(cs, instance@),
    {
        let mut i: usize = 0;
        while i < self.enabled.len()
            invariant
                i <= self.enabled@.len(),
                forall|j: int| 0 <= j < i ==> self.gates_hold_at(cs, j),
            decreases self.enabled@.len() - i,
        {
            let (sel, row) = self.enabled[i];
            let mut g: usize = 0;
            while g < cs.gates.len()
                invariant
                    i < self.enabled@.len(),
                    (sel, row) == self.enabled@[i as int],
                    g <= cs.gates@.len(),
                    forall|h: int|
                        0 <= h < g && cs.gates@[h].selector == sel ==> gate_holds(cs.gates@[h], self.cells@, row),
                decreases cs.gates@.len() - g,
            {
                if cs.gates[g].selector == sel && !self.gate_holds_exec(&cs.gates[g], row) {
                    proof {
                        assert(!self.gates_hold_at(cs, i as int));
                    }
                    return false;
                }
                g = g + 1;
            }
            i = i + 1;
        }
        let mut k: usize = 0;
        while k < self.copies.len()
            invariant
                k <= self.copies@.len(),
                self.gates_hold(cs),
                forall|j: int| 0 <= j < k ==> self.copy_holds(j),
            decreases self.copies@.len() - k,
        {
            let (a, b) = self.copies[k];
            if a >= self.cells.len() || b >= self.cells.len() {
                proof {
                    assert(!self.copy_holds(k as int));
                }
                return false;
            }
            if !self.cells[a].value.known_eq(&self.cells[b].value) {
                proof {
                    assert(!self.copy_holds(k as int));
                }
                return false;
            }
            k = k + 1;
        }
        let mut k: usize = 0;
        while k < self.exposed.len()
            invariant
                k <= self.exposed@.len(),
                self.gates_hold(cs),
                self.copies_hold(),
                forall|j: int| 0 <= j < k ==> self.binding_holds(instance@, j),
            decreases self.exposed@.len() - k,
        {
            let (c, ic, ir) = self.exposed[k];
            if c >= self.cells.len() || ic >= instance.len() || ir >= instance[ic].len() {
                proof {
                    assert(!self.binding_holds(instance@, k as int));
                }
                return false;
            }
            if !self.cells[c].value.known_eq(&Value::known(instance[ic][ir])) {
                proof {
                    assert(!self.binding_holds(instance@, k as int));
                }
                return false;
            }
            k = k + 1;
        }
        true
    }
}

/// Once a prefix of the inputs has an unknown or missing cell, so does the
/// whole list.
proof fn lemma_input_sum_none(cells: Seq<CellRec>, columns: Seq<usize>, n: int, row: usize)
    requires
        0 < n <= columns.len(),
        input_sum(cells, columns.subrange(0, n), row).is_none(),
    ensures
        input_sum(cells, columns, row).is_none(),
    decreases columns.len() - n,
{
    if n < columns.len() {
        assert(columns.subrange(0, n + 1).drop_last() =~= columns.subrange(0, n));
        lemma_input_sum_none(cells, columns, n + 1, row);
    } else {
        assert(columns.subrange(0, n) =~= columns);
    }
}

} // verus!
