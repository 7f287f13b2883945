//! The circuit's geometry: columns, selectors, copy-constraint eligibility and
//! gates. A gate enabled by a selector at a row demands that the sum of its
//! input cells at that row equal its output cell at that row.

use vstd::prelude::*;

verus! {

#[derive(Clone, Copy, Debug, PartialEq, Eq, Structural)]
pub enum ColumnKind {
    /// Private, per-row witness values.
    Advice,
    /// Values that the verifier knows too.
    Instance,
}

#[derive(Clone, Copy, Debug, PartialEq, Eq, Structural)]
pub struct Column {
    pub kind: ColumnKind,
    pub index: usize,
}

#[derive(Clone, Copy, Debug, PartialEq, Eq, Structural)]
pub struct Selector {
    pub index: usize,
}

/// `selector * (inputs[0] + inputs[1] + ... - output) = 0`, over advice
/// columns of the current row.
#[derive(Debug)]
pub struct Gate {
    pub name: String,
    pub selector: usize,
    pub inputs: Vec<usize>,
    pub output: usize,
}

#[derive(Debug)]
pub struct ConstraintSystem {
    pub num_advice: usize,
    pub num_instance: usize,
    pub num_selectors: usize,
    /// The columns whose cells may take part in copy constraints.
    pub equality: Vec<Column>,
    pub gates: Vec<Gate>,
}

impl ConstraintSystem {
    /// Every gate is controlled by a declared selector.
    pub open spec fn wf(&self) -> bool {
        forall|g: int| 0 <= g < self.gates@.len() ==> self.gates@[g].selector < self.num_selectors
    }

    pub open spec fn has_equality(&self, c: Column) -> bool {
        self.equality@.contains(c)
    }

    /// Everything but the counters is as in `other`.
    pub open spec fn same_but_counts(&self, other: &ConstraintSystem) -> bool {
        &&& self.equality@ == other.equality@
        &&& self.gates@ == other.gates@
    }

    pub fn new() -> (r: ConstraintSystem)
        ensures
            r.wf(),
            r.num_advice == 0,
            r.num_instance == 0,
            r.num_selectors == 0,
            r.equality@.len() == 0,
            r.gates@.len() == 0,
    {
        ConstraintSystem {
            num_advice: 0,
            num_instance: 0,
            num_selectors: 0,
            equality: Vec::new(),
            gates: Vec::new(),
        }
    }

    pub fn advice_column(&mut self) -> (r: Column)
        requires
            old(self).num_advice < usize::MAX,
        ensures
            r == (Column { kind: ColumnKind::Advice, index: old(self).num_advice }),
            final(self).num_advice == old(self).num_advice + 1,
            final(self).num_instance == old(self).num_instance,
            final(self).num_selectors == old(self).num_selectors,
            final(self).same_but_counts(old(self)),
    {
        let r = Column { kind: ColumnKind::Advice, index: self.num_advice };
        self.num_advice = self.num_advice + 1;
        r
    }

    pub fn instance_column(&mut self) -> (r: Column)
        requires
            old(self).num_instance < usize::MAX,
        ensures
            r == (Column { kind: ColumnKind::Instance, index: old(self).num_instance }),
            final(self).num_advice == old(self).num_advice,
            final(self).num_instance == old(self).num_instance + 1,
            final(self).num_selectors == old(self).num_selectors,
            final(self).same_but_counts(old(self)),
    {
        let r = Column { kind: ColumnKind::Instance, index: self.num_instance };
        self.num_instance = self.num_instance + 1;
        r
    }

    pub fn selector(&mut self) -> (r: Selector)
        requires
            old(self).num_selectors < usize::MAX,
        ensures
            r == (Selector { index: old(self).num_selectors }),
            final(self).num_advice == old(self).num_advice,
            final(self).num_instance == old(self).num_instance,
            final(self).num_selectors == old(self).num_selectors + 1,
            final(self).same_but_counts(old(self)),
    {
        let r = Selector { index: self.num_selectors };
        self.num_selectors = self.num_selectors + 1;
        r
    }

    /// Whether `c` may take part in copy constraints.
    pub fn is_equality_enabled(&self, c: Column) -> (r: bool)
        ensures
            r == self.has_equality(c),
    {
        let mut i: usize = 0;
        while i < self.equality.len()
            invariant
                i <= self.equality@.len(),
                forall|j: int| 0 <= j < i ==> self.equality@[j] != c,
            decreases self.equality@.len() - i,
        {
            if self.equality[i] == c {
                return true;
            }
            i = i + 1;
        }
        false
    }

    /// Lets the cells of `c` take part in copy constraints; a column is
    /// listed once however often this is called.
    pub fn enable_equality(&mut self, c: Column)
        ensures
            forall|x: Column| final(self).has_equality(x) <==> (old(self).has_equality(x) || x == c),
            final(self).num_advice == old(self).num_advice,
            final(self).num_instance == old(self).num_instance,
            final(self).num_selectors == old(self).num_selectors,
            final(self).gates@ == old(self).gates@,
    {
        if !self.is_equality_enabled(c) {
            self.equality.push(c);
            proof {
                assert forall|x: Column| self.has_equality(x) <==> (old(self).has_equality(x) || x == c) by {
                    if old(self).has_equality(x) {
                        let j = choose|j: int| 0 <= j < old(self).equality@.len() && old(self).equality@[j] == x;
                        assert(self.equality@[j] == x);
                    }
                    if x == c {
                        assert(self.equality@[self.equality@.len() - 1] == x);
                    }
                }
            }
        }
    }

    /// Registers a gate under `selector`.
    pub fn create_gate(&mut self, name: String, selector: Selector, inputs: Vec<Column>, output: Column)
        ensures
            final(self).gates@.len() == old(self).gates@.len() + 1,
            forall|g: int| 0 <= g < old(self).gates@.len() ==> final(self).gates@[g] == old(self).gates@[g],
            final(self).gates@.last().selector == selector.index,
            final(self).gates@.last().inputs@ == inputs@.map_values(|c: Column| c.index),
            final(self).gates@.last().output == output.index,
            final(self).num_advice == old(self).num_advice,
            final(self).num_instance == old(self).num_instance,
            final(self).num_selectors == old(self).num_selectors,
            final(self).equality@ == old(self).equality@,
            old(self).wf() && selector.index < old(self).num_selectors ==> final(self).wf(),
    {
        let mut idx: Vec<usize> = Vec::new();
        let mut i: usize = 0;
        while i < inputs.len()
            invariant
                i <= inputs@.len(),
                idx@ == inputs@.subrange(0, i as int).map_values(|c: Column| c.index),
            decreases inputs@.len() - i,
        {
            idx.push(inputs[i].index);
            proof {
                assert(inputs@.subrange(0, i + 1) =~= inputs@.subrange(0, i as int).push(inputs@[i as int]));
            }
            i = i + 1;
        }
        proof {
            assert(inputs@.subrange(0, inputs@.len() as int) =~= inputs@);
        }
        self.gates.push(Gate { name, selector: selector.index, inputs: idx, output: output.index });
    }
}

} // verus!
