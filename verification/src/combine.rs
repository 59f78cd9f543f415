//! The merge half of the field-state algebra.
//!
//! Merging two records combines their slots field by field, right-hand side
//! biased: an explicit right-hand value always wins, a right-hand `Unused`
//! keeps the left slot unchanged, and when both sides carry defaults the
//! right-hand rule wins.

use vstd::prelude::*;
use crate::tup_struct::{FieldSlot, SlotSpec, Tup, TupSpec};

verus! {

/// The merge rule table, one cell per pair of field states.
pub open spec fn spec_combine(lhs: SlotSpec, rhs: SlotSpec) -> SlotSpec {
    match (lhs, rhs) {
        (SlotSpec::Unused, SlotSpec::Unused) => SlotSpec::Unused,
        (SlotSpec::Unused, SlotSpec::Used(v2)) => SlotSpec::Used(v2),
        (SlotSpec::Unused, SlotSpec::Defaulted { rule, stored }) => SlotSpec::Defaulted {
            rule,
            stored,
        },
        (SlotSpec::Used(v), SlotSpec::Unused) => SlotSpec::Used(v),
        (SlotSpec::Used(v), SlotSpec::Used(v2)) => SlotSpec::Used(v2),
        (SlotSpec::Used(v), SlotSpec::Defaulted { rule, stored }) => SlotSpec::Used(v),
        (SlotSpec::Defaulted { rule, stored }, SlotSpec::Unused) => SlotSpec::Defaulted {
            rule,
            stored,
        },
        (SlotSpec::Defaulted { rule, stored }, SlotSpec::Used(v2)) => SlotSpec::Used(v2),
        (
            SlotSpec::Defaulted { rule: r1, stored: s1 },
            SlotSpec::Defaulted { rule: r2, stored: s2 },
        ) => SlotSpec::Defaulted { rule: r2, stored: s2 },
    }
}

/// The merge of two records over the same field universe: each slot combined
/// by the rule table.
pub open spec fn spec_combine_tup(a: TupSpec, b: TupSpec) -> TupSpec {
    TupSpec {
        names: a.names,
        slots: Seq::new(a.slots.len(), |i: int| spec_combine(a.slots[i], b.slots[i])),
    }
}

/// Defines how two operands are merged, right-hand side biased.
pub trait CanCombine: View + Sized {
    /// Whether the two operands fit together for a merge.
    spec fn combinable(&self, rhs: &Self) -> bool;

    /// The shape of the merged operand.
    spec fn combined_spec(&self, rhs: &Self) -> Self::V;

    /// Merges the two operands.
    fn combine(self, rhs: Self) -> (r: Self)
        requires
            self.combinable(&rhs),
        ensures
            r@ == self.combined_spec(&rhs),
    ;
}

impl CanCombine for FieldSlot {
    /// Any two field slots merge: the rule table is total.
    open spec fn combinable(&self, rhs: &Self) -> bool {
        true
    }

    open spec fn combined_spec(&self, rhs: &Self) -> SlotSpec {
        spec_combine((*self)@, (*rhs)@)
    }

    fn combine(self, rhs: Self) -> (r: Self) {
        match rhs {
            FieldSlot::Used(v2) => FieldSlot::Used(v2),
            FieldSlot::Unused => self,
            FieldSlot::Defaulted { rule: r2, stored: s2 } => match self {
                FieldSlot::Used(v) => FieldSlot::Used(v),
                FieldSlot::Unused => FieldSlot::Defaulted { rule: r2, stored: s2 },
                FieldSlot::Defaulted { rule: r1, stored: s1 } => FieldSlot::Defaulted {
                    rule: r2,
                    stored: s2,
                },
            },
        }
    }
}

impl CanCombine for Tup {
    /// Two records merge when both are well formed over the same field
    /// universe.
    open spec fn combinable(&self, rhs: &Self) -> bool {
        &&& (*self)@.wf()
        &&& (*rhs)@.wf()
        &&& (*self)@.names == (*rhs)@.names
    }

    open spec fn combined_spec(&self, rhs: &Self) -> TupSpec {
        spec_combine_tup((*self)@, (*rhs)@)
    }

    fn combine(self, rhs: Self) -> (r: Self) {
        let ghost av = self@;
        let ghost bv = rhs@;
        let Tup { names, slots } = self;
        let Tup { names: rhs_names, slots: rhs_slots } = rhs;
        let mut merged: Vec<FieldSlot> = Vec::new();
        let mut i: usize = 0;
        while i < slots.len()
            invariant
                i <= slots@.len(),
                slots@.len() == rhs_slots@.len(),
                av.slots.len() == slots@.len(),
                bv.slots.len() == rhs_slots@.len(),
                forall|j: int| 0 <= j < slots@.len() ==> (#[trigger] slots@[j])@ == av.slots[j],
                forall|j: int| 0 <= j < rhs_slots@.len()
                    ==> (#[trigger] rhs_slots@[j])@ == bv.slots[j],
                merged@.len() == i,
                forall|j: int| 0 <= j < i ==> (#[trigger] merged@[j])@ == spec_combine(
                    av.slots[j],
                    bv.slots[j],
                ),
            decreases slots@.len() - i,
        {
            let m = slots[i].dup().combine(rhs_slots[i].dup());
            merged.push(m);
            i = i + 1;
        }
        let r = Tup { names, slots: merged };
        proof {
            assert(r@.names =~= av.names);
            assert(r@.slots =~= spec_combine_tup(av, bv).slots);
        }
        r
    }
}

/// Merge right-bias law: wherever the right operand's field is `Used`, the
/// merged record carries the right operand's slot, whatever the left state.
pub proof fn lemma_combine_right_bias(a: TupSpec, b: TupSpec)
    requires
        a.wf(),
        b.wf(),
        a.names == b.names,
    ensures
        forall|i: int| 0 <= i < a.slots.len() && (#[trigger] b.slots[i]) is Used
            ==> spec_combine_tup(a, b).slots[i] == b.slots[i],
{
}

/// Merge left-preservation law: wherever the right operand's field is
/// absent (`Unused`), the merged record keeps the left operand's slot,
/// state and value alike.
pub proof fn lemma_combine_left_preserved(a: TupSpec, b: TupSpec)
    requires
        a.wf(),
        b.wf(),
        a.names == b.names,
    ensures
        forall|i: int| 0 <= i < a.slots.len() && (#[trigger] b.slots[i]) is Unused
            ==> spec_combine_tup(a, b).slots[i] == a.slots[i],
{
}

/// When both sides carry defaults, the right-hand rule wins.
pub proof fn lemma_combine_default_right(a: TupSpec, b: TupSpec)
    requires
        a.wf(),
        b.wf(),
        a.names == b.names,
    ensures
        forall|i: int| 0 <= i < a.slots.len() && (#[trigger] a.slots[i]) is Defaulted
            && (#[trigger] b.slots[i]) is Defaulted
            ==> spec_combine_tup(a, b).slots[i] == b.slots[i],
{
}

} // verus!
