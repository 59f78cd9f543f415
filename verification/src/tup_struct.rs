//! The record ("named tuple") model.
//!
//! A record has one slot per field of the global registry, in canonical
//! order. Each slot carries its field state: `Used` with a real value,
//! `Unused` with the unit placeholder, or `Defaulted` with the default rule
//! that backs it and the value the slot currently holds.

use vstd::prelude::*;
use crate::chars::{chars_eq, clone_chars};
use crate::order::canon_sorted;

verus! {

/// A unit struct indicating that an argument has been set.
#[derive(Clone, Copy, PartialEq, Eq, Structural)]
pub struct Used;

/// A unit struct indicating that an argument has not been set.
#[derive(Clone, Copy, PartialEq, Eq, Structural)]
pub struct Unused;

/// A field value. The generated record stores one per registered field; a
/// field absent from an invocation holds the unit placeholder.
pub enum Value {
    Unit,
    Bool(bool),
    Int(i64),
    Text(Vec<char>),
}

/// The mathematical shape of a `Value`.
pub enum ValueSpec {
    Unit,
    Bool(bool),
    Int(int),
    Text(Seq<char>),
}

impl View for Value {
    type V = ValueSpec;

    open spec fn view(&self) -> ValueSpec {
        match self {
            Value::Unit => ValueSpec::Unit,
            Value::Bool(b) => ValueSpec::Bool(*b),
            Value::Int(n) => ValueSpec::Int(*n as int),
            Value::Text(t) => ValueSpec::Text(t@),
        }
    }
}

impl Value {
    /// Copies the value.
    pub fn dup(&self) -> (r: Value)
        ensures
            r@ == self@,
    {
        match self {
            Value::Unit => Value::Unit,
            Value::Bool(b) => Value::Bool(*b),
            Value::Int(n) => Value::Int(*n),
            Value::Text(t) => Value::Text(clone_chars(t)),
        }
    }

    /// Decides semantic equality of two values.
    pub fn eq_value(&self, other: &Value) -> (r: bool)
        ensures
            r == (self@ == other@),
    {
        match (self, other) {
            (Value::Unit, Value::Unit) => true,
            (Value::Bool(a), Value::Bool(b)) => a == b,
            (Value::Int(a), Value::Int(b)) => a == b,
            (Value::Text(a), Value::Text(b)) => chars_eq(a, b),
            _ => false,
        }
    }
}

/// A default rule: the identifier of the zero-argument rule item together
/// with the value that rule materializes.
pub struct DefaultRule {
    pub id: Vec<char>,
    pub value: Value,
}

/// The mathematical shape of a `DefaultRule`.
pub struct DefaultRuleSpec {
    pub id: Seq<char>,
    pub value: ValueSpec,
}

impl View for DefaultRule {
    type V = DefaultRuleSpec;

    open spec fn view(&self) -> DefaultRuleSpec {
        DefaultRuleSpec { id: self.id@, value: self.value@ }
    }
}

impl DefaultRule {
    /// Copies the rule.
    pub fn dup(&self) -> (r: DefaultRule)
        ensures
            r@ == self@,
    {
        DefaultRule { id: clone_chars(&self.id), value: self.value.dup() }
    }
}

/// One field slot of a record, carrying the field's state.
pub enum FieldSlot {
    /// The field was supplied: the slot holds a real value.
    Used(Value),
    /// The field is absent: the slot holds the unit placeholder.
    Unused,
    /// The field is backed by a default rule; `stored` is the value the slot
    /// currently holds (the rule's materialization, or a value passed through
    /// from a `Used` slot).
    Defaulted { rule: DefaultRule, stored: Value },
}

/// The mathematical shape of a `FieldSlot`.
pub enum SlotSpec {
    Used(ValueSpec),
    Unused,
    Defaulted { rule: DefaultRuleSpec, stored: ValueSpec },
}

impl View for FieldSlot {
    type V = SlotSpec;

    open spec fn view(&self) -> SlotSpec {
        match self {
            FieldSlot::Used(v) => SlotSpec::Used(v@),
            FieldSlot::Unused => SlotSpec::Unused,
            FieldSlot::Defaulted { rule, stored } => SlotSpec::Defaulted {
                rule: rule@,
                stored: stored@,
            },
        }
    }
}

/// The semantic value of a slot: what a reader of the field observes.
/// The field's state is not part of it.
pub open spec fn sem(s: SlotSpec) -> ValueSpec {
    match s {
        SlotSpec::Used(v) => v,
        SlotSpec::Unused => ValueSpec::Unit,
        SlotSpec::Defaulted { rule, stored } => stored,
    }
}

impl FieldSlot {
    /// Copies the slot.
    pub fn dup(&self) -> (r: FieldSlot)
        ensures
            r@ == self@,
    {
        match self {
            FieldSlot::Used(v) => FieldSlot::Used(v.dup()),
            FieldSlot::Unused => FieldSlot::Unused,
            FieldSlot::Defaulted { rule, stored } => FieldSlot::Defaulted {
                rule: rule.dup(),
                stored: stored.dup(),
            },
        }
    }

    /// Reads the slot's semantic value.
    pub fn read(&self) -> (r: Value)
        ensures
            r@ == sem(self@),
    {
        match self {
            FieldSlot::Used(v) => v.dup(),
            FieldSlot::Unused => Value::Unit,
            FieldSlot::Defaulted { rule, stored } => stored.dup(),
        }
    }
}

/// The record: one named slot per registered field, in canonical order.
pub struct Tup {
    pub names: Vec<Vec<char>>,
    pub slots: Vec<FieldSlot>,
}

/// The mathematical shape of a record.
pub struct TupSpec {
    pub names: Seq<Seq<char>>,
    pub slots: Seq<SlotSpec>,
}

impl View for Tup {
    type V = TupSpec;

    open spec fn view(&self) -> TupSpec {
        TupSpec {
            names: Seq::new(self.names@.len(), |i: int| self.names@[i]@),
            slots: Seq::new(self.slots@.len(), |i: int| self.slots@[i]@),
        }
    }
}

impl TupSpec {
    /// A well-formed record: names in canonical order (hence distinct), one
    /// slot per name.
    pub open spec fn wf(self) -> bool {
        &&& canon_sorted(self.names)
        &&& self.slots.len() == self.names.len()
    }

    /// The semantic values of all slots, in registry order.
    pub open spec fn sems(self) -> Seq<ValueSpec> {
        Seq::new(self.slots.len(), |i: int| sem(self.slots[i]))
    }

    /// Looks a field up by name: its semantic value, or `None` for a name
    /// outside the record's field universe.
    pub open spec fn get(self, name: Seq<char>) -> Option<ValueSpec> {
        if exists|i: int| 0 <= i < self.names.len() && self.names[i] == name {
            let i = choose|i: int| 0 <= i < self.names.len() && self.names[i] == name;
            Some(sem(self.slots[i]))
        } else {
            None
        }
    }
}

/// An assignment list: names unique.
pub open spec fn unique_names(args: Seq<(Seq<char>, ValueSpec)>) -> bool {
    forall|i: int, j: int| 0 <= i < j < args.len() ==> (#[trigger] args[i]).0 != (#[trigger] args[j]).0
}

/// Whether an assignment list supplies the given field.
pub open spec fn supplies(args: Seq<(Seq<char>, ValueSpec)>, name: Seq<char>) -> bool {
    exists|k: int| 0 <= k < args.len() && (#[trigger] args[k]).0 == name
}

/// The value an assignment list supplies for the given field.
pub open spec fn supplied_value(args: Seq<(Seq<char>, ValueSpec)>, name: Seq<char>) -> ValueSpec {
    let k = choose|k: int| 0 <= k < args.len() && (#[trigger] args[k]).0 == name;
    args[k].1
}

/// The record the constructor builds over a registry from an assignment
/// list: a supplied field's slot is `Used` with its value, every other slot
/// is `Unused`.
pub open spec fn spec_new(registry: Seq<Seq<char>>, args: Seq<(Seq<char>, ValueSpec)>) -> TupSpec {
    TupSpec {
        names: registry,
        slots: Seq::new(
            registry.len(),
            |i: int| if supplies(args, registry[i]) {
                SlotSpec::Used(supplied_value(args, registry[i]))
            } else {
                SlotSpec::Unused
            },
        ),
    }
}

/// Whether a name list holds the given name.
pub open spec fn name_known(names: Seq<Seq<char>>, name: Seq<char>) -> bool {
    exists|i: int| 0 <= i < names.len() && names[i] == name
}

/// An invocation named a field the registry does not know; the build must
/// fail loudly rather than drop the field.
pub struct UnknownField {
    pub name: Vec<char>,
}

/// Finds the index of a name in a name list.
pub fn find_name(names: &Vec<Vec<char>>, name: &Vec<char>) -> (r: Option<usize>)
    ensures
        match r {
            Some(i) => i < names@.len() && names@[i as int]@ == name@,
            None => forall|i: int| 0 <= i < names@.len() ==> (#[trigger] names@[i])@ != name@,
        },
{
    let mut i: usize = 0;
    while i < names.len()
        invariant
            i <= names@.len(),
            forall|j: int| 0 <= j < i ==> (#[trigger] names@[j])@ != name@,
        decreases names@.len() - i,
    {
        if chars_eq(&names[i], name) {
            return Some(i);
        }
        i = i + 1;
    }
    None
}

/// The deep view of an assignment list.
pub open spec fn args_view(args: Seq<(Vec<char>, Value)>) -> Seq<(Seq<char>, ValueSpec)> {
    Seq::new(args.len(), |i: int| (args[i].0@, args[i].1@))
}

/// The deep view of a name list.
pub open spec fn names_view(names: Seq<Vec<char>>) -> Seq<Seq<char>> {
    Seq::new(names.len(), |i: int| names[i]@)
}

impl Tup {
    /// The constructor the generator emits for one invocation: builds the
    /// record over the registry's field universe from the invocation's
    /// (already sorted and deduplicated) assignments. Fails loudly when an
    /// assignment names a field outside the registry.
    pub fn new(registry: &Vec<Vec<char>>, args: &Vec<(Vec<char>, Value)>) -> (r: Result<
        Tup,
        UnknownField,
    >)
        requires
            canon_sorted(names_view(registry@)),
            unique_names(args_view(args@)),
        ensures
            match r {
                Ok(t) => {
                    &&& t@.wf()
                    &&& t@ == spec_new(names_view(registry@), args_view(args@))
                },
                Err(e) => !name_known(names_view(registry@), e.name@)
                    && supplies(args_view(args@), e.name@),
            },
            (r is Ok) <==> (forall|k: int| 0 <= k < args@.len()
                ==> name_known(names_view(registry@), (#[trigger] args@[k]).0@)),
    {
        let ghost regv = names_view(registry@);
        let ghost argv = args_view(args@);

        // Every assignment must name a registered field.
        let mut k: usize = 0;
        while k < args.len()
            invariant
                k <= args@.len(),
                argv == args_view(args@),
                regv == names_view(registry@),
                forall|j: int| 0 <= j < k ==> name_known(regv, (#[trigger] args@[j]).0@),
            decreases args@.len() - k,
        {
            match find_name(registry, &args[k].0) {
                None => {
                    proof {
                        if name_known(regv, args@[k as int].0@) {
                            let i = choose|i: int| 0 <= i < regv.len()
                                && regv[i] == args@[k as int].0@;
                            assert(registry@[i]@ == regv[i]);
                            assert(false);
                        }
                        assert(argv[k as int].0 == args@[k as int].0@);
                    }
                    return Err(UnknownField { name: clone_chars(&args[k].0) });
                },
                Some(idx) => {
                    proof {
                        assert(regv[idx as int] == registry@[idx as int]@);
                        assert(name_known(regv, args@[k as int].0@));
                    }
                },
            }
            k = k + 1;
        }

        // Build one slot per registered field.
        let mut slots: Vec<FieldSlot> = Vec::new();
        let mut names: Vec<Vec<char>> = Vec::new();
        let mut i: usize = 0;
        while i < registry.len()
            invariant
                i <= registry@.len(),
                argv == args_view(args@),
                regv == names_view(registry@),
                unique_names(argv),
                forall|j: int| 0 <= j < args@.len()
                    ==> name_known(regv, (#[trigger] args@[j]).0@),
                names@.len() == i,
                slots@.len() == i,
                forall|j: int| 0 <= j < i ==> (#[trigger] names@[j])@ == regv[j],
                forall|j: int| 0 <= j < i ==> (#[trigger] slots@[j])@ == spec_new(
                    regv,
                    argv,
                ).slots[j],
            decreases registry@.len() - i,
        {
            let slot = match find_arg(args, &registry[i]) {
                Some(v) => {
                    proof {
                        assert(registry@[i as int]@ == regv[i as int]);
                        lemma_supplied_unique(argv, regv[i as int]);
                        let k2 = choose|k2: int| 0 <= k2 < args@.len()
                            && (#[trigger] args@[k2]).0@ == registry@[i as int]@
                            && args@[k2].1@ == v@;
                        assert(argv[k2] == (args@[k2].0@, args@[k2].1@));
                        assert(argv[k2].0 == regv[i as int] && argv[k2].1 == v@);
                        assert(v@ == supplied_value(argv, regv[i as int]));
                    }
                    FieldSlot::Used(v)
                },
                None => {
                    proof {
                        assert(registry@[i as int]@ == regv[i as int]);
                        if supplies(argv, regv[i as int]) {
                            let k2 = choose|k2: int| 0 <= k2 < argv.len()
                                && (#[trigger] argv[k2]).0 == regv[i as int];
                            assert(argv[k2].0 == args@[k2].0@);
                        }
                    }
                    FieldSlot::Unused
                },
            };
            names.push(clone_chars(&registry[i]));
            slots.push(slot);
            i = i + 1;
        }
        let t = Tup { names, slots };
        proof {
            assert(t@.names =~= regv);
            assert(t@.slots =~= spec_new(regv, argv).slots);
        }
        Ok(t)
    }

    /// Reads one field's semantic value: the supplied value of a `Used`
    /// field, the stored value of a `Defaulted` field, the unit placeholder
    /// of an `Unused` field, and `None` for an unregistered name.
    pub fn get(&self, name: &Vec<char>) -> (r: Option<Value>)
        requires
            self@.wf(),
        ensures
            match r {
                Some(v) => self@.get(name@) == Some(v@),
                None => self@.get(name@) is None,
            },
    {
        match find_name(&self.names, name) {
            Some(i) => {
                proof {
                    assert(self@.names[i as int] == self.names@[i as int]@);
                    let j = choose|j: int| 0 <= j < self@.names.len() && self@.names[j] == name@;
                    crate::order::lemma_lex_lt_irreflexive(name@);
                    assert(j == i as int);
                    assert(self@.slots[i as int] == self.slots@[i as int]@);
                }
                Some(self.slots[i].read())
            },
            None => None,
        }
    }
}

/// Looks an assignment list up by field name.
fn find_arg(args: &Vec<(Vec<char>, Value)>, name: &Vec<char>) -> (r: Option<Value>)
    ensures
        match r {
            Some(v) => supplies(args_view(args@), name@) && exists|k: int|
                0 <= k < args@.len() && (#[trigger] args@[k]).0@ == name@ && args@[k].1@ == v@,
            None => !supplies(args_view(args@), name@),
        },
{
    let mut k: usize = 0;
    while k < args.len()
        invariant
            k <= args@.len(),
            forall|j: int| 0 <= j < k ==> (#[trigger] args@[j]).0@ != name@,
        decreases args@.len() - k,
    {
        if chars_eq(&args[k].0, name) {
            proof {
                assert(args_view(args@)[k as int].0 == name@);
            }
            return Some(args[k].1.dup());
        }
        k = k + 1;
    }
    proof {
        assert forall|j: int| 0 <= j < args_view(args@).len() implies
            (#[trigger] args_view(args@)[j]).0 != name@ by {
            assert(args_view(args@)[j].0 == args@[j].0@);
        }
    }
    None
}

/// Round-trip law: a record built over a registry from an assignment list
/// reads back, for every supplied field, exactly the supplied value, and for
/// every other registered field the unit placeholder.
pub proof fn lemma_round_trip(registry: Seq<Seq<char>>, args: Seq<(Seq<char>, ValueSpec)>)
    requires
        canon_sorted(registry),
        unique_names(args),
        forall|k: int| 0 <= k < args.len() ==> name_known(registry, (#[trigger] args[k]).0),
    ensures
        forall|k: int| 0 <= k < args.len()
            ==> spec_new(registry, args).get((#[trigger] args[k]).0) == Some(args[k].1),
        forall|i: int| 0 <= i < registry.len() && !supplies(args, #[trigger] registry[i])
            ==> spec_new(registry, args).get(registry[i]) == Some(ValueSpec::Unit),
{
    let t = spec_new(registry, args);
    assert(t.names == registry);
    assert forall|k: int| 0 <= k < args.len() implies
        t.get((#[trigger] args[k]).0) == Some(args[k].1) by {
        let name = args[k].0;
        assert(name_known(registry, name));
        let i = choose|i: int| 0 <= i < registry.len() && registry[i] == name;
        assert(0 <= i < t.names.len() && t.names[i] == name);
        let j = choose|j: int| 0 <= j < t.names.len() && t.names[j] == name;
        if i != j {
            crate::order::lemma_lex_lt_irreflexive(name);
            assert(false);
        }
        assert(supplies(args, name));
        lemma_supplied_unique(args, name);
        assert(t.slots[i] == SlotSpec::Used(supplied_value(args, name)));
        assert(supplied_value(args, name) == args[k].1);
    }
    assert forall|i: int| 0 <= i < registry.len() && !supplies(args, #[trigger] registry[i])
        implies t.get(registry[i]) == Some(ValueSpec::Unit) by {
        let name = registry[i];
        assert(0 <= i < t.names.len() && t.names[i] == name);
        let j = choose|j: int| 0 <= j < t.names.len() && t.names[j] == name;
        if i != j {
            crate::order::lemma_lex_lt_irreflexive(name);
            assert(false);
        }
        assert(t.slots[i] == SlotSpec::Unused);
    }
}

/// With unique names, any supplied value found by search is the supplied
/// value.
proof fn lemma_supplied_unique(args: Seq<(Seq<char>, ValueSpec)>, name: Seq<char>)
    requires
        unique_names(args),
        supplies(args, name),
    ensures
        forall|k: int| 0 <= k < args.len() && (#[trigger] args[k]).0 == name
            ==> args[k].1 == supplied_value(args, name),
{
    let w = choose|k: int| 0 <= k < args.len() && (#[trigger] args[k]).0 == name;
    assert forall|k: int| 0 <= k < args.len() && (#[trigger] args[k]).0 == name implies
        args[k].1 == supplied_value(args, name) by {
        if k != w {
            if k < w {
                assert(args[k].0 != args[w].0);
            } else {
                assert(args[w].0 != args[k].0);
            }
        }
    }
}

} // verus!
