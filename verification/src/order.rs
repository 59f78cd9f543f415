//! The canonical order on field names.
//!
//! Everywhere names are ordered — the registry, parsed invocations, the
//! generated record's field walk — the same total order is used: descending
//! lexicographic order on the name's characters, so that a name that compares
//! greater sorts earlier.

use vstd::prelude::*;
use core::cmp::Ordering;

verus! {

/// Strict lexicographic order on character sequences: `a` comes before `b`.
pub open spec fn lex_lt(a: Seq<char>, b: Seq<char>) -> bool
    decreases a.len(),
{
    if b.len() == 0 {
        false
    } else if a.len() == 0 {
        true
    } else if a[0] != b[0] {
        a[0] < b[0]
    } else {
        lex_lt(a.drop_first(), b.drop_first())
    }
}

/// The canonical strict order: `a` sorts before `b` when `a` is
/// lexicographically greater.
pub open spec fn canon_lt(a: Seq<char>, b: Seq<char>) -> bool {
    lex_lt(b, a)
}

/// The canonical non-strict order.
pub open spec fn canon_le(a: Seq<char>, b: Seq<char>) -> bool {
    a == b || lex_lt(b, a)
}

/// A sequence of names stands in the canonical order, strictly: every earlier
/// name sorts before every later one, so the names are also pairwise distinct.
pub open spec fn canon_sorted(names: Seq<Seq<char>>) -> bool {
    forall|i: int, j: int| 0 <= i < j < names.len() ==> canon_lt(#[trigger] names[i], #[trigger] names[j])
}

pub proof fn lemma_lex_lt_irreflexive(a: Seq<char>)
    ensures
        !lex_lt(a, a),
    decreases a.len(),
{
    if a.len() > 0 {
        lemma_lex_lt_irreflexive(a.drop_first());
    }
}

pub proof fn lemma_lex_lt_asymmetric(a: Seq<char>, b: Seq<char>)
    requires
        lex_lt(a, b),
    ensures
        !lex_lt(b, a),
    decreases a.len(),
{
    if b.len() == 0 {
    } else if a.len() == 0 {
    } else if a[0] != b[0] {
    } else {
        lemma_lex_lt_asymmetric(a.drop_first(), b.drop_first());
    }
}

pub proof fn lemma_lex_lt_transitive(a: Seq<char>, b: Seq<char>, c: Seq<char>)
    requires
        lex_lt(a, b),
        lex_lt(b, c),
    ensures
        lex_lt(a, c),
    decreases a.len(),
{
    if a.len() == 0 {
    } else if b.len() == 0 {
    } else if c.len() == 0 {
    } else {
        if a[0] == b[0] && b[0] == c[0] {
            lemma_lex_lt_transitive(a.drop_first(), b.drop_first(), c.drop_first());
        }
    }
}

pub proof fn lemma_lex_lt_connected(a: Seq<char>, b: Seq<char>)
    requires
        a != b,
    ensures
        lex_lt(a, b) || lex_lt(b, a),
    decreases a.len(),
{
    if a.len() == 0 {
        if b.len() == 0 {
            assert(a =~= b);
        }
    } else if b.len() == 0 {
    } else if a[0] != b[0] {
    } else {
        if a.drop_first() == b.drop_first() {
            assert(a =~= seq![a[0]] + a.drop_first());
            assert(b =~= seq![b[0]] + b.drop_first());
            assert(a == b);
        }
        lemma_lex_lt_connected(a.drop_first(), b.drop_first());
    }
}

/// The canonical non-strict order is a total ordering, in the sense vstd's
/// sorting lemmas expect.
pub proof fn lemma_canon_le_total_ordering()
    ensures
        vstd::relations::total_ordering(|a: Seq<char>, b: Seq<char>| canon_le(a, b)),
{
    let leq = |a: Seq<char>, b: Seq<char>| canon_le(a, b);
    assert forall|a: Seq<char>, b: Seq<char>| #[trigger] leq(a, b) && #[trigger] leq(b, a)
        implies a == b by {
        if a != b {
            lemma_lex_lt_asymmetric(b, a);
        }
    }
    assert forall|a: Seq<char>, b: Seq<char>, c: Seq<char>|
        #[trigger] leq(a, b) && #[trigger] leq(b, c) implies leq(a, c) by {
        if a != b && b != c {
            lemma_lex_lt_transitive(c, b, a);
        }
    }
    assert forall|a: Seq<char>, b: Seq<char>| #[trigger] leq(a, b) || #[trigger] leq(b, a) by {
        if a != b {
            lemma_lex_lt_connected(a, b);
        }
    }
}

/// Skipping an equal prefix does not change how two sequences compare.
proof fn lemma_lex_lt_skip(a: Seq<char>, b: Seq<char>, i: int)
    requires
        0 <= i <= a.len(),
        i <= b.len(),
        a.subrange(0, i) == b.subrange(0, i),
    ensures
        lex_lt(a, b) == lex_lt(a.skip(i), b.skip(i)),
    decreases i,
{
    if i > 0 {
        assert(a.len() > 0 && b.len() > 0);
        assert(a.subrange(0, i)[0] == a[0]);
        assert(b.subrange(0, i)[0] == b[0]);
        assert(a[0] == b[0]);
        assert forall|j: int| 0 <= j < i - 1 implies
            #[trigger] a.drop_first().subrange(0, i - 1)[j] == b.drop_first().subrange(0, i - 1)[j] by {
            assert(a.drop_first().subrange(0, i - 1)[j] == a.drop_first()[j]);
            assert(a.drop_first()[j] == a[j + 1]);
            assert(b.drop_first().subrange(0, i - 1)[j] == b.drop_first()[j]);
            assert(b.drop_first()[j] == b[j + 1]);
            assert(a.subrange(0, i)[j + 1] == a[j + 1]);
            assert(b.subrange(0, i)[j + 1] == b[j + 1]);
        }
        assert(a.drop_first().subrange(0, i - 1) =~= b.drop_first().subrange(0, i - 1));
        lemma_lex_lt_skip(a.drop_first(), b.drop_first(), i - 1);
        assert(a.drop_first().skip(i - 1) =~= a.skip(i));
        assert(b.drop_first().skip(i - 1) =~= b.skip(i));
    } else {
        assert(a.skip(0) =~= a);
        assert(b.skip(0) =~= b);
    }
}

/// Compares two names in plain lexicographic order.
pub fn lex_cmp(a: &Vec<char>, b: &Vec<char>) -> (r: Ordering)
    ensures
        r == Ordering::Equal <==> a@ == b@,
        r == Ordering::Less <==> lex_lt(a@, b@),
        r == Ordering::Greater <==> lex_lt(b@, a@),
{
    proof {
        if a@ != b@ {
            lemma_lex_lt_connected(a@, b@);
        }
        if lex_lt(a@, b@) {
            lemma_lex_lt_asymmetric(a@, b@);
        }
        if lex_lt(b@, a@) {
            lemma_lex_lt_asymmetric(b@, a@);
        }
    }
    let mut i: usize = 0;
    loop
        invariant
            i <= a@.len(),
            i <= b@.len(),
            a@.subrange(0, i as int) == b@.subrange(0, i as int),
        decreases a@.len() - i,
    {
        proof {
            lemma_lex_lt_skip(a@, b@, i as int);
            lemma_lex_lt_skip(b@, a@, i as int);
        }
        if i == a.len() && i == b.len() {
            proof {
                assert(a@ =~= a@.subrange(0, i as int));
                assert(b@ =~= b@.subrange(0, i as int));
            }
            return Ordering::Equal;
        } else if i == a.len() {
            proof {
                assert(a@.skip(i as int).len() == 0);
                assert(b@.skip(i as int).len() > 0);
            }
            assert(lex_lt(a@, b@));
            return Ordering::Less;
        } else if i == b.len() {
            proof {
                assert(b@.skip(i as int).len() == 0);
                assert(a@.skip(i as int).len() > 0);
            }
            assert(lex_lt(b@, a@));
            return Ordering::Greater;
        } else {
            let ca: char = a[i];
            let cb: char = b[i];
            if ca < cb {
                proof {
                    assert(a@.skip(i as int)[0] == a@[i as int]);
                    assert(b@.skip(i as int)[0] == b@[i as int]);
                }
                assert(lex_lt(a@, b@));
                return Ordering::Less;
            } else if cb < ca {
                proof {
                    assert(a@.skip(i as int)[0] == a@[i as int]);
                    assert(b@.skip(i as int)[0] == b@[i as int]);
                }
                assert(lex_lt(b@, a@));
                return Ordering::Greater;
            } else {
                proof {
                    assert(a@[i as int] == b@[i as int]);
                    assert(a@.subrange(0, i as int + 1) =~= b@.subrange(0, i as int + 1));
                }
                i = i + 1;
            }
        }
    }
}

/// Compares two names in the canonical order: the lexicographically greater
/// name sorts earlier.
pub fn canon_cmp(a: &Vec<char>, b: &Vec<char>) -> (r: Ordering)
    ensures
        r == Ordering::Equal <==> a@ == b@,
        r == Ordering::Less <==> canon_lt(a@, b@),
        r == Ordering::Greater <==> canon_lt(b@, a@),
{
    match lex_cmp(a, b) {
        Ordering::Equal => Ordering::Equal,
        Ordering::Less => Ordering::Greater,
        Ordering::Greater => Ordering::Less,
    }
}

} // verus!
