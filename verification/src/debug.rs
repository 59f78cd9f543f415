//! Debug formatting of records.
//!
//! A record renders as `tup { name: value, ... }` with one entry per field
//! whose state is not `Unused`, in registry order. A defaulted field also
//! shows its rule's materialized default after the stored value.

use vstd::prelude::*;
use crate::chars::{clone_chars, to_chars};
use crate::tup_struct::{FieldSlot, SlotSpec, Tup, TupSpec, Value, ValueSpec, names_view};
use crate::chars::{spec_join, lemma_join_push};

verus! {

/// One character of a rendered text value, with `"` and `\` escaped.
pub open spec fn escape_char(c: char) -> Seq<char> {
    if c == '"' {
        seq!['\\', '"']
    } else if c == '\\' {
        seq!['\\', '\\']
    } else {
        seq![c]
    }
}

/// A rendered text value's characters.
pub open spec fn escape_chars(s: Seq<char>) -> Seq<char>
    decreases s.len(),
{
    if s.len() == 0 {
        Seq::empty()
    } else {
        escape_char(s[0]) + escape_chars(s.drop_first())
    }
}

proof fn lemma_escape_push(s: Seq<char>, c: char)
    ensures
        escape_chars(s.push(c)) == escape_chars(s) + escape_char(c),
    decreases s.len(),
{
    if s.len() == 0 {
        reveal_with_fuel(escape_chars, 3);
        assert(s.push(c).drop_first() =~= Seq::<char>::empty());
        assert(s.push(c)[0] == c);
        assert(escape_char(c) + Seq::<char>::empty() =~= escape_char(c));
        assert(escape_chars(s.push(c)) =~= escape_char(c));
        assert(escape_chars(s) + escape_char(c) =~= escape_char(c));
    } else {
        assert(s.push(c).drop_first() =~= s.drop_first().push(c));
        lemma_escape_push(s.drop_first(), c);
        assert(escape_chars(s.push(c)) =~= escape_char(s[0]) + (escape_chars(s.drop_first())
            + escape_char(c)));
        assert(escape_char(s[0]) + (escape_chars(s.drop_first()) + escape_char(c))
            =~= (escape_char(s[0]) + escape_chars(s.drop_first())) + escape_char(c));
    }
}

/// The digit character of one decimal digit.
pub open spec fn digit_char(d: int) -> char {
    (48 + d) as char
}

/// The decimal rendering of a non-negative number.
pub open spec fn spec_decimal(n: int) -> Seq<char>
    decreases n,
{
    if n < 10 {
        seq![digit_char(if n < 0 { 0 } else { n % 10 })]
    } else {
        spec_decimal(n / 10) + seq![digit_char(n % 10)]
    }
}

/// The decimal rendering of an integer, sign included.
pub open spec fn spec_render_int(n: int) -> Seq<char> {
    if n < 0 {
        seq!['-'] + spec_decimal(-n)
    } else {
        spec_decimal(n)
    }
}

/// The rendering of one field value.
pub open spec fn spec_render_value(v: ValueSpec) -> Seq<char> {
    match v {
        ValueSpec::Unit => "()"@,
        ValueSpec::Bool(b) => if b {
            "true"@
        } else {
            "false"@
        },
        ValueSpec::Int(n) => spec_render_int(n),
        ValueSpec::Text(t) => seq!['"'] + escape_chars(t) + seq!['"'],
    }
}

/// The debug entries one slot contributes: none for an `Unused` field, the
/// stored value for a `Used` field, and the stored value together with the
/// rule's default for a `Defaulted` field.
pub open spec fn spec_debug_entry(name: Seq<char>, slot: SlotSpec) -> Seq<Seq<char>> {
    match slot {
        SlotSpec::Unused => Seq::empty(),
        SlotSpec::Used(v) => seq![name + ": "@ + spec_render_value(v)],
        SlotSpec::Defaulted { rule, stored } => seq![
            name + ": "@ + spec_render_value(stored) + " = "@ + spec_render_value(rule.value)
        ],
    }
}

/// All debug entries of a record, in registry order.
pub open spec fn spec_debug_entries(names: Seq<Seq<char>>, slots: Seq<SlotSpec>) -> Seq<Seq<char>>
    decreases slots.len(),
{
    if slots.len() == 0 || names.len() == 0 {
        Seq::empty()
    } else {
        spec_debug_entry(names[0], slots[0]) + spec_debug_entries(
            names.drop_first(),
            slots.drop_first(),
        )
    }
}

/// The full debug rendering of a record.
pub open spec fn spec_debug(t: TupSpec) -> Seq<char> {
    let entries = spec_debug_entries(t.names, t.slots);
    if entries.len() == 0 {
        "tup"@
    } else {
        "tup { "@ + spec_join(entries, ", "@) + " }"@
    }
}

pub proof fn lemma_debug_entries_push(
    names: Seq<Seq<char>>,
    slots: Seq<SlotSpec>,
    name: Seq<char>,
    slot: SlotSpec,
)
    requires
        names.len() == slots.len(),
    ensures
        spec_debug_entries(names.push(name), slots.push(slot)) == spec_debug_entries(names, slots)
            + spec_debug_entry(name, slot),
    decreases slots.len(),
{
    if slots.len() == 0 {
        reveal_with_fuel(spec_debug_entries, 3);
        assert(names.push(name)[0] == name);
        assert(slots.push(slot)[0] == slot);
        assert(names.push(name).drop_first() =~= Seq::<Seq<char>>::empty());
        assert(slots.push(slot).drop_first() =~= Seq::<SlotSpec>::empty());
        assert(spec_debug_entry(name, slot) + Seq::<Seq<char>>::empty() =~= spec_debug_entry(
            name,
            slot,
        ));
        assert(spec_debug_entries(names.push(name), slots.push(slot)) =~= spec_debug_entry(
            name,
            slot,
        ));
        assert(spec_debug_entries(names, slots) + spec_debug_entry(name, slot) =~= spec_debug_entry(
            name,
            slot,
        ));
    } else {
        assert(names.push(name).drop_first() =~= names.drop_first().push(name));
        assert(slots.push(slot).drop_first() =~= slots.drop_first().push(slot));
        lemma_debug_entries_push(names.drop_first(), slots.drop_first(), name, slot);
        assert(spec_debug_entries(names.push(name), slots.push(slot)) =~= spec_debug_entry(
            names[0],
            slots[0],
        ) + (spec_debug_entries(names.drop_first(), slots.drop_first()) + spec_debug_entry(
            name,
            slot,
        )));
        assert(spec_debug_entry(names[0], slots[0]) + (spec_debug_entries(
            names.drop_first(),
            slots.drop_first(),
        ) + spec_debug_entry(name, slot)) =~= (spec_debug_entry(names[0], slots[0])
            + spec_debug_entries(names.drop_first(), slots.drop_first())) + spec_debug_entry(
            name,
            slot,
        ));
    }
}

/// Renders the decimal digits of a non-negative number.
pub fn render_digits(n: u64) -> (r: Vec<char>)
    ensures
        r@ == spec_decimal(n as int),
    decreases n,
{
    if n < 10 {
        let d: u8 = 48 + (n as u8);
        let c: char = d as char;
        let mut out: Vec<char> = Vec::new();
        out.push(c);
        proof {
            assert(out@ =~= seq![digit_char(n as int % 10)]);
        }
        out
    } else {
        let mut out = render_digits(n / 10);
        let d: u8 = 48 + ((n % 10) as u8);
        let c: char = d as char;
        out.push(c);
        proof {
            assert(out@ =~= spec_decimal(n as int / 10) + seq![digit_char(n as int % 10)]);
        }
        out
    }
}

/// Renders one field value.
pub fn render_value(v: &Value) -> (r: Vec<char>)
    ensures
        r@ == spec_render_value(v@),
{
    match v {
        Value::Unit => to_chars("()"),
        Value::Bool(b) => {
            if *b {
                to_chars("true")
            } else {
                to_chars("false")
            }
        },
        Value::Int(n) => {
            if *n < 0 {
                let m: u64 = if *n == i64::MIN {
                    9223372036854775808u64
                } else {
                    (-*n) as u64
                };
                let mut out: Vec<char> = Vec::new();
                out.push('-');
                let mut digits = render_digits(m);
                out.append(&mut digits);
                proof {
                    assert(out@ =~= seq!['-'] + spec_decimal(m as int));
                }
                out
            } else {
                render_digits(*n as u64)
            }
        },
        Value::Text(t) => {
            let mut out: Vec<char> = Vec::new();
            out.push('"');
            let mut i: usize = 0;
            while i < t.len()
                invariant
                    i <= t@.len(),
                    out@ == seq!['"'] + escape_chars(t@.subrange(0, i as int)),
                decreases t@.len() - i,
            {
                let c: char = t[i];
                if c == '"' || c == '\\' {
                    out.push('\\');
                }
                out.push(c);
                proof {
                    assert(t@.subrange(0, i as int + 1) =~= t@.subrange(0, i as int).push(c));
                    lemma_escape_push(t@.subrange(0, i as int), c);
                    assert(out@ =~= seq!['"'] + escape_chars(t@.subrange(0, i as int + 1)));
                }
                i = i + 1;
            }
            out.push('"');
            proof {
                assert(t@.subrange(0, i as int) =~= t@);
                assert(out@ =~= seq!['"'] + escape_chars(t@) + seq!['"']);
            }
            out
        },
    }
}

/// A trait that turns one slot into its debug entries, depending on the
/// slot's field state.
pub trait ConvertToDebugStruct: View + Sized {
    /// The entries this slot contributes.
    spec fn debug_entry_spec(&self, name: Seq<char>) -> Seq<Seq<char>>;

    /// Appends this slot's entries.
    fn convert(self, entries: &mut Vec<Vec<char>>, name: &Vec<char>)
        ensures
            names_view(final(entries)@) == names_view(old(entries)@)
                + self.debug_entry_spec(name@),
    ;
}

impl ConvertToDebugStruct for FieldSlot {
    open spec fn debug_entry_spec(&self, name: Seq<char>) -> Seq<Seq<char>> {
        spec_debug_entry(name, (*self)@)
    }

    fn convert(self, entries: &mut Vec<Vec<char>>, name: &Vec<char>) {
        match self {
            FieldSlot::Unused => {
                proof {
                    assert(names_view(final(entries)@) =~= names_view(old(entries)@)
                        + self.debug_entry_spec(name@));
                }
            },
            FieldSlot::Used(v) => {
                let mut entry = clone_chars(name);
                let mut sep = to_chars(": ");
                entry.append(&mut sep);
                let mut val = render_value(&v);
                entry.append(&mut val);
                let ghost e = entry@;
                entries.push(entry);
                proof {
                    assert(names_view(final(entries)@) =~= names_view(old(entries)@).push(e));
                    assert(names_view(old(entries)@).push(e) =~= names_view(old(entries)@)
                        + self.debug_entry_spec(name@));
                }
            },
            FieldSlot::Defaulted { rule, stored } => {
                let mut entry = clone_chars(name);
                let mut sep = to_chars(": ");
                entry.append(&mut sep);
                let mut val = render_value(&stored);
                entry.append(&mut val);
                let mut eq = to_chars(" = ");
                entry.append(&mut eq);
                let mut dflt = render_value(&rule.value);
                entry.append(&mut dflt);
                let ghost e = entry@;
                entries.push(entry);
                proof {
                    assert(names_view(final(entries)@) =~= names_view(old(entries)@).push(e));
                    assert(names_view(old(entries)@).push(e) =~= names_view(old(entries)@)
                        + self.debug_entry_spec(name@));
                }
            },
        }
    }
}

impl Tup {
    /// The debug formatting the generator emits: every field whose state is
    /// not `Unused`, in registry order, under the trailing type name `tup`.
    pub fn debug_render(&self) -> (r: Vec<char>)
        requires
            self@.wf(),
        ensures
            r@ == spec_debug(self@),
    {
        let ghost nv = self@.names;
        let ghost sv = self@.slots;
        let mut entries: Vec<Vec<char>> = Vec::new();
        let mut i: usize = 0;
        proof {
            assert(names_view(entries@) =~= Seq::<Seq<char>>::empty());
            assert(nv.subrange(0, 0) =~= Seq::<Seq<char>>::empty());
            assert(sv.subrange(0, 0) =~= Seq::<SlotSpec>::empty());
        }
        while i < self.slots.len()
            invariant
                i <= self.slots@.len(),
                nv == self@.names,
                sv == self@.slots,
                self.names@.len() == self.slots@.len(),
                nv.len() == sv.len(),
                sv.len() == self.slots@.len(),
                names_view(entries@) == spec_debug_entries(
                    nv.subrange(0, i as int),
                    sv.subrange(0, i as int),
                ),
            decreases self.slots@.len() - i,
        {
            let slot = self.slots[i].dup();
            proof {
                assert(slot@ == sv[i as int]);
                assert(self.names@[i as int]@ == nv[i as int]);
            }
            ConvertToDebugStruct::convert(slot, &mut entries, &self.names[i]);
            proof {
                assert(nv.subrange(0, i as int + 1) =~= nv.subrange(0, i as int).push(
                    nv[i as int],
                ));
                assert(sv.subrange(0, i as int + 1) =~= sv.subrange(0, i as int).push(
                    sv[i as int],
                ));
                lemma_debug_entries_push(
                    nv.subrange(0, i as int),
                    sv.subrange(0, i as int),
                    nv[i as int],
                    sv[i as int],
                );
            }
            i = i + 1;
        }
        proof {
            assert(nv.subrange(0, i as int) =~= nv);
            assert(sv.subrange(0, i as int) =~= sv);
        }
        if entries.len() == 0 {
            return to_chars("tup");
        }
        let mut out = to_chars("tup { ");
        let ghost ev = names_view(entries@);
        let mut k: usize = 0;
        while k < entries.len()
            invariant
                k <= entries@.len(),
                entries@.len() > 0,
                ev == names_view(entries@),
                out@ == "tup { "@ + (if k == 0 {
                    Seq::<char>::empty()
                } else {
                    spec_join(ev.subrange(0, k as int), ", "@)
                }) + (if 0 < k < entries@.len() {
                    ", "@
                } else {
                    Seq::<char>::empty()
                }),
            decreases entries@.len() - k,
        {
            let mut part = clone_chars(&entries[k]);
            out.append(&mut part);
            proof {
                assert(entries@[k as int]@ == ev[k as int]);
                assert(ev.subrange(0, k as int + 1) =~= ev.subrange(0, k as int).push(
                    ev[k as int],
                ));
                lemma_join_push(ev.subrange(0, k as int), ev[k as int], ", "@);
            }
            if k + 1 < entries.len() {
                let mut sep = to_chars(", ");
                out.append(&mut sep);
            }
            k = k + 1;
        }
        let mut tail = to_chars(" }");
        out.append(&mut tail);
        proof {
            assert(ev.subrange(0, k as int) =~= ev);
            assert(out@ =~= "tup { "@ + spec_join(ev, ", "@) + " }"@);
        }
        out
    }
}

/// Debug formatting omits unused fields altogether: removing an `Unused`
/// field from a record leaves the rendered entries unchanged.
pub proof fn lemma_debug_omits_unused(names: Seq<Seq<char>>, slots: Seq<SlotSpec>, i: int)
    requires
        names.len() == slots.len(),
        0 <= i < slots.len(),
        slots[i] is Unused,
    ensures
        spec_debug_entries(names.remove(i), slots.remove(i)) == spec_debug_entries(names, slots),
    decreases i,
{
    if i == 0 {
        assert(names.remove(0) =~= names.drop_first());
        assert(slots.remove(0) =~= slots.drop_first());
        assert(spec_debug_entry(names[0], slots[0]) =~= Seq::<Seq<char>>::empty());
        assert(spec_debug_entries(names, slots) =~= spec_debug_entries(
            names.drop_first(),
            slots.drop_first(),
        ));
    } else {
        assert(names.remove(i).drop_first() =~= names.drop_first().remove(i - 1));
        assert(slots.remove(i).drop_first() =~= slots.drop_first().remove(i - 1));
        assert(names.remove(i)[0] == names[0]);
        assert(slots.remove(i)[0] == slots[0]);
        lemma_debug_omits_unused(names.drop_first(), slots.drop_first(), i - 1);
    }
}

} // verus!
