//! Equality, ordering and hashing of records.
//!
//! All three walk the fields in ascending registry order and look only at
//! the slots' semantic values: the field states are representational and
//! never compared.

use vstd::prelude::*;
use core::cmp::Ordering;
use crate::chars::chars_eq;
use crate::order::{lex_lt, lex_cmp};
use crate::tup_struct::{Tup, TupSpec, Value, ValueSpec, sem};

verus! {

/// An arbitrary fixed rank of the value variants, so that values of
/// different kinds still order one way.
pub open spec fn value_rank(v: ValueSpec) -> int {
    match v {
        ValueSpec::Unit => 0,
        ValueSpec::Bool(_) => 1,
        ValueSpec::Int(_) => 2,
        ValueSpec::Text(_) => 3,
    }
}

/// The strict order on field values: by variant rank, then by payload.
pub open spec fn value_lt(a: ValueSpec, b: ValueSpec) -> bool {
    if value_rank(a) != value_rank(b) {
        value_rank(a) < value_rank(b)
    } else {
        match (a, b) {
            (ValueSpec::Bool(x), ValueSpec::Bool(y)) => !x && y,
            (ValueSpec::Int(x), ValueSpec::Int(y)) => x < y,
            (ValueSpec::Text(x), ValueSpec::Text(y)) => lex_lt(x, y),
            _ => false,
        }
    }
}

/// The strict lexicographic order on value rows: the first differing
/// position decides.
pub open spec fn vals_lt(a: Seq<ValueSpec>, b: Seq<ValueSpec>) -> bool
    decreases a.len(),
{
    if a.len() == 0 || b.len() == 0 {
        false
    } else if a[0] != b[0] {
        value_lt(a[0], b[0])
    } else {
        vals_lt(a.drop_first(), b.drop_first())
    }
}

/// Records compare equal when they share a field universe and every field's
/// semantic value agrees; the field states take no part.
pub open spec fn tup_eq_spec(a: TupSpec, b: TupSpec) -> bool {
    &&& a.names == b.names
    &&& a.sems() == b.sems()
}

/// Compares two values.
pub fn value_cmp(a: &Value, b: &Value) -> (r: Ordering)
    ensures
        r == Ordering::Equal <==> a@ == b@,
        r == Ordering::Less <==> value_lt(a@, b@),
        r == Ordering::Greater <==> value_lt(b@, a@),
{
    match (a, b) {
        (Value::Unit, Value::Unit) => Ordering::Equal,
        (Value::Bool(x), Value::Bool(y)) => {
            if *x == *y {
                Ordering::Equal
            } else if !*x {
                Ordering::Less
            } else {
                Ordering::Greater
            }
        },
        (Value::Int(x), Value::Int(y)) => {
            if *x < *y {
                Ordering::Less
            } else if *x == *y {
                Ordering::Equal
            } else {
                Ordering::Greater
            }
        },
        (Value::Text(x), Value::Text(y)) => lex_cmp(x, y),
        (Value::Unit, _) => Ordering::Less,
        (Value::Bool(_), Value::Unit) => Ordering::Greater,
        (Value::Bool(_), _) => Ordering::Less,
        (Value::Int(_), Value::Unit) => Ordering::Greater,
        (Value::Int(_), Value::Bool(_)) => Ordering::Greater,
        (Value::Int(_), _) => Ordering::Less,
        (Value::Text(_), _) => Ordering::Greater,
    }
}

/// Skipping an equal prefix does not change how two value rows compare.
proof fn lemma_vals_lt_skip(a: Seq<ValueSpec>, b: Seq<ValueSpec>, i: int)
    requires
        0 <= i <= a.len(),
        i <= b.len(),
        a.subrange(0, i) == b.subrange(0, i),
    ensures
        vals_lt(a, b) == vals_lt(a.skip(i), b.skip(i)),
    decreases i,
{
    if i > 0 {
        assert(a.len() > 0 && b.len() > 0);
        assert(a.subrange(0, i)[0] == a[0]);
        assert(b.subrange(0, i)[0] == b[0]);
        assert(a[0] == b[0]);
        assert forall|j: int| 0 <= j < i - 1 implies
            #[trigger] a.drop_first().subrange(0, i - 1)[j] == b.drop_first().subrange(0, i - 1)[j] by {
            assert(a.drop_first().subrange(0, i - 1)[j] == a.drop_first()[j]);
            assert(a.drop_first()[j] == a[j + 1]);
            assert(b.drop_first().subrange(0, i - 1)[j] == b.drop_first()[j]);
            assert(b.drop_first()[j] == b[j + 1]);
            assert(a.subrange(0, i)[j + 1] == a[j + 1]);
            assert(b.subrange(0, i)[j + 1] == b[j + 1]);
        }
        assert(a.drop_first().subrange(0, i - 1) =~= b.drop_first().subrange(0, i - 1));
        lemma_vals_lt_skip(a.drop_first(), b.drop_first(), i - 1);
        assert(a.drop_first().skip(i - 1) =~= a.skip(i));
        assert(b.drop_first().skip(i - 1) =~= b.skip(i));
    } else {
        assert(a.skip(0) =~= a);
        assert(b.skip(0) =~= b);
    }
}

impl Tup {
    /// The ordering the generator emits: lexicographic over the fields'
    /// semantic values, walked in ascending registry order, short-circuiting
    /// on the first field that differs.
    pub fn cmp(&self, other: &Tup) -> (r: Ordering)
        requires
            self@.wf(),
            other@.wf(),
            self@.names == other@.names,
        ensures
            r == Ordering::Equal <==> self@.sems() == other@.sems(),
            r == Ordering::Less <==> vals_lt(self@.sems(), other@.sems()),
            r == Ordering::Greater <==> vals_lt(other@.sems(), self@.sems()),
    {
        let ghost av = self@.sems();
        let ghost bv = other@.sems();
        let mut i: usize = 0;
        let n = self.slots.len();
        loop
            invariant
                i <= n,
                n == self.slots@.len(),
                n == other.slots@.len(),
                av == self@.sems(),
                bv == other@.sems(),
                av.len() == n,
                bv.len() == n,
                av.subrange(0, i as int) == bv.subrange(0, i as int),
            decreases n - i,
        {
            proof {
                lemma_vals_lt_skip(av, bv, i as int);
                lemma_vals_lt_skip(bv, av, i as int);
            }
            if i == n {
                proof {
                    assert(av =~= av.subrange(0, i as int));
                    assert(bv =~= bv.subrange(0, i as int));
                }
                return Ordering::Equal;
            }
            let x = self.slots[i].read();
            let y = other.slots[i].read();
            proof {
                assert(x@ == av[i as int]);
                assert(y@ == bv[i as int]);
                assert(av.skip(i as int)[0] == av[i as int]);
                assert(bv.skip(i as int)[0] == bv[i as int]);
            }
            match value_cmp(&x, &y) {
                Ordering::Equal => {
                    proof {
                        assert(av.subrange(0, i as int + 1) =~= bv.subrange(0, i as int + 1));
                    }
                    i = i + 1;
                },
                Ordering::Less => {
                    proof {
                        if vals_lt(bv, av) {
                            assert(value_lt(bv[i as int], av[i as int]));
                        }
                    }
                    return Ordering::Less;
                },
                Ordering::Greater => {
                    proof {
                        if vals_lt(av, bv) {
                            assert(value_lt(av[i as int], bv[i as int]));
                        }
                    }
                    return Ordering::Greater;
                },
            }
        }
    }
}

impl PartialEq for Tup {
    /// The equality the generator emits: the conjunction of per-field
    /// equality over the semantic values, in registry order; the phantom
    /// field states are never compared.
    fn eq(&self, other: &Tup) -> (r: bool) {
        if self.names.len() != other.names.len() || self.slots.len() != other.slots.len() {
            proof {
                assert(self@.names.len() != other@.names.len()
                    || self@.sems().len() != other@.sems().len());
            }
            return false;
        }
        let mut i: usize = 0;
        while i < self.names.len()
            invariant
                i <= self.names@.len(),
                self.names@.len() == other.names@.len(),
                self.slots@.len() == other.slots@.len(),
                forall|j: int| 0 <= j < i ==> self@.names[j] == other@.names[j],
            decreases self.names@.len() - i,
        {
            if !chars_eq(&self.names[i], &other.names[i]) {
                proof {
                    assert(self@.names[i as int] != other@.names[i as int]);
                }
                return false;
            }
            proof {
                assert(self@.names[i as int] == other@.names[i as int]);
            }
            i = i + 1;
        }
        proof {
            assert(self@.names =~= other@.names);
        }
        let mut k: usize = 0;
        while k < self.slots.len()
            invariant
                k <= self.slots@.len(),
                self.slots@.len() == other.slots@.len(),
                self@.names == other@.names,
                forall|j: int| 0 <= j < k ==> self@.sems()[j] == other@.sems()[j],
            decreases self.slots@.len() - k,
        {
            let x = self.slots[k].read();
            let y = other.slots[k].read();
            if !x.eq_value(&y) {
                proof {
                    assert(self@.sems()[k as int] != other@.sems()[k as int]);
                }
                return false;
            }
            proof {
                assert(self@.sems()[k as int] == other@.sems()[k as int]);
            }
            k = k + 1;
        }
        proof {
            assert(self@.sems() =~= other@.sems());
        }
        true
    }
}

impl vstd::std_specs::cmp::PartialEqSpecImpl for Tup {
    open spec fn obeys_eq_spec() -> bool {
        true
    }

    open spec fn eq_spec(&self, other: &Tup) -> bool {
        tup_eq_spec((*self)@, (*other)@)
    }
}

impl Eq for Tup {

}

/// Equality ignores the field states: two records over the same universe
/// whose fields agree semantically compare equal, whatever default rules
/// back their absent fields.
pub proof fn lemma_eq_ignores_state(a: TupSpec, b: TupSpec)
    requires
        a.names == b.names,
        a.slots.len() == b.slots.len(),
        forall|i: int| 0 <= i < a.slots.len() ==> sem(#[trigger] a.slots[i]) == sem(b.slots[i]),
    ensures
        tup_eq_spec(a, b),
{
    assert(a.sems() =~= b.sems());
}

/// The ordering, too, ignores the field states.
pub proof fn lemma_cmp_ignores_state(a: TupSpec, b: TupSpec)
    requires
        a.names == b.names,
        a.slots.len() == b.slots.len(),
        forall|i: int| 0 <= i < a.slots.len() ==> sem(#[trigger] a.slots[i]) == sem(b.slots[i]),
    ensures
        !vals_lt(a.sems(), b.sems()),
        !vals_lt(b.sems(), a.sems()),
{
    assert(a.sems() =~= b.sems());
    lemma_vals_lt_irreflexive(a.sems());
}

proof fn lemma_vals_lt_irreflexive(a: Seq<ValueSpec>)
    ensures
        !vals_lt(a, a),
    decreases a.len(),
{
    if a.len() > 0 {
        lemma_vals_lt_irreflexive(a.drop_first());
        if a[0] != a[0] {
        }
    }
}

/// The multiplier of the hash fold.
pub open spec fn hash_mult() -> u64 {
    31
}

/// One step of the hash fold.
pub open spec fn mix(h: u64, x: u64) -> u64 {
    vstd::wrapping::u64_specs::wrapping_add(vstd::wrapping::u64_specs::wrapping_mul(h, hash_mult()), x)
}

/// The hash of a character row folded onto `h`.
pub open spec fn hash_chars(s: Seq<char>, h: u64) -> u64
    decreases s.len(),
{
    if s.len() == 0 {
        h
    } else {
        hash_chars(s.drop_first(), mix(h, s[0] as u64))
    }
}

/// The hash of one value folded onto `h`: the variant's rank, then its
/// payload.
pub open spec fn hash_value(v: ValueSpec, h: u64) -> u64 {
    match v {
        ValueSpec::Unit => mix(h, 0),
        ValueSpec::Bool(b) => mix(mix(h, 1), if b { 1 } else { 0 }),
        ValueSpec::Int(n) => mix(mix(h, 2), n as u64),
        ValueSpec::Text(t) => hash_chars(t, mix(h, 3)),
    }
}

/// The hash of a value row folded left to right onto `h`.
pub open spec fn hash_vals(vs: Seq<ValueSpec>, h: u64) -> u64
    decreases vs.len(),
{
    if vs.len() == 0 {
        h
    } else {
        hash_vals(vs.drop_first(), hash_value(vs[0], h))
    }
}

/// Folds one character row into the hash.
fn hash_chars_exec(s: &Vec<char>, h: u64) -> (r: u64)
    ensures
        r == hash_chars(s@, h),
{
    let mut acc = h;
    let mut i: usize = 0;
    proof {
        assert(s@.skip(0) =~= s@);
    }
    while i < s.len()
        invariant
            i <= s@.len(),
            hash_chars(s@.skip(i as int), acc) == hash_chars(s@, h),
        decreases s@.len() - i,
    {
        let c: char = s[i];
        proof {
            assert(s@.skip(i as int)[0] == s@[i as int]);
            assert(s@.skip(i as int).drop_first() =~= s@.skip(i as int + 1));
        }
        acc = acc.wrapping_mul(31).wrapping_add(c as u64);
        i = i + 1;
    }
    proof {
        assert(s@.skip(i as int) =~= Seq::<char>::empty());
    }
    acc
}

impl Value {
    /// Folds the value into the hash.
    pub fn hash_into(&self, h: u64) -> (r: u64)
        ensures
            r == hash_value(self@, h),
    {
        match self {
            Value::Unit => h.wrapping_mul(31).wrapping_add(0),
            Value::Bool(b) => {
                let t = h.wrapping_mul(31).wrapping_add(1);
                t.wrapping_mul(31).wrapping_add(if *b { 1 } else { 0 })
            },
            Value::Int(n) => {
                let t = h.wrapping_mul(31).wrapping_add(2);
                #[verifier::truncate]
                let u = *n as u64;
                t.wrapping_mul(31).wrapping_add(u)
            },
            Value::Text(tx) => {
                let t = h.wrapping_mul(31).wrapping_add(3);
                hash_chars_exec(tx, t)
            },
        }
    }
}

impl Tup {
    /// The hash the generator emits: the fields' semantic values folded in
    /// registry order.
    pub fn hash_tup(&self) -> (r: u64)
        requires
            self@.wf(),
        ensures
            r == hash_vals(self@.sems(), 0),
    {
        let ghost vs = self@.sems();
        let mut acc: u64 = 0;
        let mut i: usize = 0;
        proof {
            assert(vs.skip(0) =~= vs);
        }
        while i < self.slots.len()
            invariant
                i <= self.slots@.len(),
                vs == self@.sems(),
                vs.len() == self.slots@.len(),
                hash_vals(vs.skip(i as int), acc) == hash_vals(vs, 0),
            decreases self.slots@.len() - i,
        {
            let v = self.slots[i].read();
            proof {
                assert(vs.skip(i as int)[0] == vs[i as int]);
                assert(vs.skip(i as int).drop_first() =~= vs.skip(i as int + 1));
                assert(v@ == vs[i as int]);
            }
            acc = v.hash_into(acc);
            i = i + 1;
        }
        proof {
            assert(vs.skip(i as int) =~= Seq::<ValueSpec>::empty());
        }
        acc
    }
}

} // verus!
