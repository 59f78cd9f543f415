//! The conversion half of the field-state algebra.
//!
//! A record is reshaped field by field towards a declared target shape. Five
//! (state, target) pairs have a rule; every other pair is rejected, so no
//! conversion can silently drop data.

use vstd::prelude::*;
use crate::chars::{clone_chars, to_chars};
use crate::tup_struct::{
    DefaultRule, DefaultRuleSpec, FieldSlot, SlotSpec, Tup, TupSpec, UnknownField, Value,
    ValueSpec, args_view, name_known, names_view, sem,
};

verus! {

/// The field shape a conversion site declares for one field.
pub enum FieldShape {
    Used,
    Unused,
    Defaulted(DefaultRule),
}

/// The mathematical shape of a `FieldShape`.
pub enum FieldShapeSpec {
    Used,
    Unused,
    Defaulted(DefaultRuleSpec),
}

impl View for FieldShape {
    type V = FieldShapeSpec;

    open spec fn view(&self) -> FieldShapeSpec {
        match self {
            FieldShape::Used => FieldShapeSpec::Used,
            FieldShape::Unused => FieldShapeSpec::Unused,
            FieldShape::Defaulted(d) => FieldShapeSpec::Defaulted(d@),
        }
    }
}

/// The deep view of a target shape list.
pub open spec fn shapes_view(shapes: Seq<FieldShape>) -> Seq<FieldShapeSpec> {
    Seq::new(shapes.len(), |i: int| shapes[i]@)
}

/// The conversion rule table: the five permitted (state, target) pairs and
/// what each yields; every other pair has no rule.
///
/// - `Unused` to `Unused`: the unit placeholder stays.
/// - `Used` to `Used`: the value passes through unchanged.
/// - `Unused` to `Defaulted(D)`: the slot becomes `D`'s materialized default.
/// - `Used` to `Defaulted(D)`: the concrete value passes through unchanged.
/// - `Defaulted(D)` to `Used`: the stored value passes through unchanged.
pub open spec fn spec_convert(source: SlotSpec, target: FieldShapeSpec) -> Option<SlotSpec> {
    match (source, target) {
        (SlotSpec::Unused, FieldShapeSpec::Unused) => Some(SlotSpec::Unused),
        (SlotSpec::Used(v), FieldShapeSpec::Used) => Some(SlotSpec::Used(v)),
        (SlotSpec::Unused, FieldShapeSpec::Defaulted(d)) => Some(
            SlotSpec::Defaulted { rule: d, stored: d.value },
        ),
        (SlotSpec::Used(v), FieldShapeSpec::Defaulted(d)) => Some(
            SlotSpec::Defaulted { rule: d, stored: v },
        ),
        (SlotSpec::Defaulted { rule, stored }, FieldShapeSpec::Used) => Some(
            SlotSpec::Used(stored),
        ),
        _ => None,
    }
}

/// Whether every field of the record has a conversion rule towards the
/// declared target shape.
pub open spec fn convertible(source: TupSpec, target: Seq<FieldShapeSpec>) -> bool {
    forall|i: int| 0 <= i < source.slots.len()
        ==> spec_convert(#[trigger] source.slots[i], target[i]) is Some
}

/// The record a permitted conversion yields.
pub open spec fn spec_convert_tup(source: TupSpec, target: Seq<FieldShapeSpec>) -> TupSpec {
    TupSpec {
        names: source.names,
        slots: Seq::new(
            source.slots.len(),
            |i: int| spec_convert(source.slots[i], target[i]).unwrap(),
        ),
    }
}

/// A conversion was asked of a field for which no rule exists.
pub struct ConvertError {
    pub field: Vec<char>,
}

/// A helper trait to figure out whether one field slot can be reshaped.
pub trait CanInto: View + Sized {
    /// The converted slot, when a rule permits the conversion.
    spec fn into_spec(&self, target: &FieldShape) -> Option<Self::V>;

    /// Reshapes the operand towards the target shape; `None` when no rule
    /// permits it.
    fn into(self, target: &FieldShape) -> (r: Option<Self>)
        ensures
            match r {
                Some(v) => self.into_spec(target) == Some(v@),
                None => self.into_spec(target) is None,
            },
    ;
}

impl CanInto for FieldSlot {
    open spec fn into_spec(&self, target: &FieldShape) -> Option<SlotSpec> {
        spec_convert((*self)@, (*target)@)
    }

    fn into(self, target: &FieldShape) -> (r: Option<Self>) {
        match (self, target) {
            (FieldSlot::Unused, FieldShape::Unused) => Some(FieldSlot::Unused),
            (FieldSlot::Used(v), FieldShape::Used) => Some(FieldSlot::Used(v)),
            (FieldSlot::Unused, FieldShape::Defaulted(d)) => Some(
                FieldSlot::Defaulted { rule: d.dup(), stored: d.value.dup() },
            ),
            (FieldSlot::Used(v), FieldShape::Defaulted(d)) => Some(
                FieldSlot::Defaulted { rule: d.dup(), stored: v },
            ),
            (FieldSlot::Defaulted { rule, stored }, FieldShape::Used) => Some(
                FieldSlot::Used(stored),
            ),
            _ => None,
        }
    }
}

impl Tup {
    /// Reshapes the record towards a declared target shape, field by field.
    /// Succeeds exactly when every field's (state, target) pair has a rule in
    /// the conversion table; otherwise names a field without one.
    pub fn convert(self, target: &Vec<FieldShape>) -> (r: Result<Tup, ConvertError>)
        requires
            self@.wf(),
            target@.len() == self@.slots.len(),
        ensures
            (r is Ok) <==> convertible(self@, shapes_view(target@)),
            match r {
                Ok(t) => {
                    &&& t@.wf()
                    &&& t@ == spec_convert_tup(self@, shapes_view(target@))
                },
                Err(e) => exists|i: int| 0 <= i < self@.slots.len()
                    && self@.names[i] == e.field@
                    && spec_convert(#[trigger] self@.slots[i], shapes_view(target@)[i]) is None,
            },
    {
        let ghost sv = self@;
        let ghost tv = shapes_view(target@);
        let mut out: Vec<FieldSlot> = Vec::new();
        let mut i: usize = 0;
        while i < self.slots.len()
            invariant
                i <= self.slots@.len(),
                sv == self@,
                tv == shapes_view(target@),
                target@.len() == self.slots@.len(),
                sv.slots.len() == self.slots@.len(),
                sv.names.len() == self.slots@.len(),
                self.names@.len() == self.slots@.len(),
                out@.len() == i,
                forall|j: int| 0 <= j < i
                    ==> spec_convert(sv.slots[j], tv[j]) == Some((#[trigger] out@[j])@),
            decreases self.slots@.len() - i,
        {
            match CanInto::into(self.slots[i].dup(), &target[i]) {
                Some(s) => {
                    proof {
                        assert(self.slots@[i as int]@ == sv.slots[i as int]);
                        assert(shapes_view(target@)[i as int] == target@[i as int]@);
                    }
                    out.push(s);
                },
                None => {
                    proof {
                        assert(self.slots@[i as int]@ == sv.slots[i as int]);
                        assert(shapes_view(target@)[i as int] == target@[i as int]@);
                        assert(spec_convert(sv.slots[i as int], tv[i as int]) is None);
                        assert(self.names@[i as int]@ == sv.names[i as int]);
                        if convertible(sv, tv) {
                            assert(spec_convert(sv.slots[i as int], tv[i as int]) is Some);
                        }
                    }
                    return Err(ConvertError { field: clone_chars(&self.names[i]) });
                },
            }
            i = i + 1;
        }
        proof {
            assert forall|j: int| 0 <= j < sv.slots.len() implies
                spec_convert(#[trigger] sv.slots[j], tv[j]) is Some by {
                assert(spec_convert(sv.slots[j], tv[j]) == Some((out@[j])@));
            }
        }
        let Tup { names, slots } = self;
        let t = Tup { names, slots: out };
        proof {
            assert(t@.names =~= sv.names);
            assert forall|j: int| 0 <= j < sv.slots.len() implies
                #[trigger] t@.slots[j] == spec_convert_tup(sv, tv).slots[j] by {
                assert(spec_convert(sv.slots[j], tv[j]) == Some(t@.slots[j]));
            }
            assert(t@.slots =~= spec_convert_tup(sv, tv).slots);
        }
        Ok(t)
    }
}

/// A copy of the `From` idea, kept apart from the standard trait: reshapes a
/// source record into this type's shape, against a declared target.
pub trait TupFrom<Src>: View + Sized {
    /// What the conversion asks of its operands.
    spec fn from_req(source: &Src, target: &Vec<FieldShape>) -> bool;

    /// Whether the conversion is permitted.
    spec fn from_ok(source: &Src, target: &Vec<FieldShape>) -> bool;

    /// The shape of the converted record.
    spec fn from_spec(source: &Src, target: &Vec<FieldShape>) -> Self::V;

    /// Performs the conversion.
    fn from_tup(source: Src, target: &Vec<FieldShape>) -> (r: Result<Self, ConvertError>)
        requires
            Self::from_req(&source, target),
        ensures
            (r is Ok) <==> Self::from_ok(&source, target),
            match r {
                Ok(t) => t@ == Self::from_spec(&source, target),
                Err(_) => true,
            },
    ;
}

impl TupFrom<Tup> for Tup {
    open spec fn from_req(source: &Tup, target: &Vec<FieldShape>) -> bool {
        &&& (*source)@.wf()
        &&& target@.len() == (*source)@.slots.len()
    }

    open spec fn from_ok(source: &Tup, target: &Vec<FieldShape>) -> bool {
        convertible((*source)@, shapes_view(target@))
    }

    open spec fn from_spec(source: &Tup, target: &Vec<FieldShape>) -> TupSpec {
        spec_convert_tup((*source)@, shapes_view(target@))
    }

    fn from_tup(source: Tup, target: &Vec<FieldShape>) -> (r: Result<Self, ConvertError>) {
        source.convert(target)
    }
}

/// A copy of the `Into` idea, kept apart from the standard trait; the
/// counterpart of `TupFrom`.
pub trait TupInto<Dst: View>: Sized {
    /// What the conversion asks of its operands.
    spec fn into_req(&self, target: &Vec<FieldShape>) -> bool;

    /// Whether the conversion is permitted.
    spec fn into_ok(&self, target: &Vec<FieldShape>) -> bool;

    /// The shape of the converted record.
    spec fn into_tup_spec(&self, target: &Vec<FieldShape>) -> Dst::V;

    /// Performs the conversion.
    fn into_tup(self, target: &Vec<FieldShape>) -> (r: Result<Dst, ConvertError>)
        requires
            self.into_req(target),
        ensures
            (r is Ok) <==> self.into_ok(target),
            match r {
                Ok(t) => t@ == self.into_tup_spec(target),
                Err(_) => true,
            },
    ;
}

impl<Src, Dst: View + TupFrom<Src>> TupInto<Dst> for Src {
    open spec fn into_req(&self, target: &Vec<FieldShape>) -> bool {
        Dst::from_req(self, target)
    }

    open spec fn into_ok(&self, target: &Vec<FieldShape>) -> bool {
        Dst::from_ok(self, target)
    }

    open spec fn into_tup_spec(&self, target: &Vec<FieldShape>) -> Dst::V {
        Dst::from_spec(self, target)
    }

    fn into_tup(self, target: &Vec<FieldShape>) -> (r: Result<Dst, ConvertError>) {
        Dst::from_tup(self, target)
    }
}

/// Conversion totality law: each of the five pairs of the table has a rule,
/// and the rule preserves the semantic value — except that an `Unused` field
/// reshaped onto a default rule materializes exactly that rule's default.
pub proof fn lemma_convert_totality(source: SlotSpec, target: FieldShapeSpec)
    ensures
        (source is Unused && target is Unused) ==> spec_convert(source, target) == Some(
            SlotSpec::Unused,
        ),
        (source is Used && target is Used) ==> spec_convert(source, target) == Some(source),
        (source is Unused && target is Defaulted) ==> spec_convert(source, target) == Some(
            SlotSpec::Defaulted { rule: target->Defaulted_0, stored: target->Defaulted_0.value },
        ),
        (source is Used && target is Defaulted) ==> spec_convert(source, target) == Some(
            SlotSpec::Defaulted { rule: target->Defaulted_0, stored: source->Used_0 },
        ),
        (source is Defaulted && target is Used) ==> spec_convert(source, target) == Some(
            SlotSpec::Used(source->Defaulted_stored),
        ),
        (spec_convert(source, target) is Some && !(source is Unused && target is Defaulted))
            ==> sem(spec_convert(source, target).unwrap()) == sem(source),
        (source is Unused && target is Defaulted)
            ==> sem(spec_convert(source, target).unwrap()) == target->Defaulted_0.value,
{
}

/// Conversion rejection law: every (state, target) pair outside the table is
/// rejected — there is no rule, so no conversion path can silently drop a
/// value.
pub proof fn lemma_convert_rejection(source: SlotSpec, target: FieldShapeSpec)
    ensures
        spec_convert(source, target) is Some <==> {
            ||| (source is Unused && target is Unused)
            ||| (source is Used && target is Used)
            ||| (source is Unused && target is Defaulted)
            ||| (source is Used && target is Defaulted)
            ||| (source is Defaulted && target is Used)
        },
{
}

/// Rebuilds a record's `count` field into a one-field record whose `count`
/// is backed by a default rule materializing 3, as the example program's
/// conversion chain does; the field's value carries over unchanged.
pub fn test(arg: Tup) -> (r: Result<Tup, UnknownField>)
    requires
        arg@.wf(),
    ensures
        (r is Ok) <==> name_known(arg@.names, "count"@),
        match r {
            Ok(t) => {
                &&& t@.wf()
                &&& t@.names == seq!["count"@]
                &&& t@.slots == seq![
                    SlotSpec::Defaulted {
                        rule: DefaultRuleSpec { id: "count_default"@, value: ValueSpec::Int(3) },
                        stored: arg@.get("count"@)->Some_0,
                    },
                ]
                &&& t@.get("count"@) == arg@.get("count"@)
            },
            Err(e) => e.name@ == "count"@,
        },
{
    let count = to_chars("count");
    let v = match arg.get(&count) {
        Some(v) => v,
        None => {
            return Err(UnknownField { name: count });
        },
    };
    let ghost got = arg@.get("count"@);
    let mut registry: Vec<Vec<char>> = Vec::new();
    registry.push(clone_chars(&count));
    let mut args: Vec<(Vec<char>, Value)> = Vec::new();
    args.push((clone_chars(&count), v));
    proof {
        assert(names_view(registry@) =~= seq![count@]);
        assert(args_view(args@) =~= seq![(count@, args@[0].1@)]);
        assert(names_view(registry@)[0] == count@);
        assert(args_view(args@)[0].0 == count@);
        assert(name_known(names_view(registry@), args_view(args@)[0].0));
    }
    let built = match Tup::new(&registry, &args) {
        Ok(t) => t,
        Err(_) => {
            proof {
                assert(false);
            }
            return Err(UnknownField { name: count });
        },
    };
    let rule = DefaultRule { id: to_chars("count_default"), value: Value::Int(3) };
    let mut shape: Vec<FieldShape> = Vec::new();
    shape.push(FieldShape::Defaulted(rule));
    let converted = match built.convert(&shape) {
        Ok(t) => t,
        Err(_) => {
            proof {
                assert(spec_convert(built@.slots[0], shapes_view(shape@)[0]) is Some);
                assert(false);
            }
            return Err(UnknownField { name: count });
        },
    };
    proof {
        assert(converted@.names[0] == "count"@);
        assert(sem(converted@.slots[0]) == got.unwrap());
        let j = choose|j: int| 0 <= j < converted@.names.len() && converted@.names[j] == "count"@;
        assert(j == 0);
    }
    Ok(converted)
}

} // verus!
