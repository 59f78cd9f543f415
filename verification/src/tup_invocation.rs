//! One whole invocation's argument list.
//!
//! The comma-separated arguments are parsed under one of the two grammars,
//! then sorted by the canonical field-name order; a repeated field name is a
//! hard parse error. Which grammar applies is decided speculatively: the
//! type grammar is tried first and committed to only when it consumes the
//! whole input, otherwise the expression grammar is tried.

use vstd::prelude::*;
use crate::order::{canon_lt, canon_cmp, lemma_lex_lt_asymmetric, lemma_lex_lt_transitive};
use crate::chars::spec_join;
use crate::tup_struct::{name_known, names_view};
use crate::token::{Token, punct_is, tokens_wf};
use crate::tup_element::{
    ParseError, TupDefault, TupDefaultSpec, TupElement, TupElementSpec, TupType, TupTypeSpec,
    spec_parse_element, spec_parse_type, valid_ident,
};
use crate::token::spec_punct_is;
use core::cmp::Ordering;

verus! {

/// The deep view of an expression-argument list.
pub open spec fn elems_view(s: Seq<TupElement>) -> Seq<TupElementSpec> {
    Seq::new(s.len(), |i: int| s[i]@)
}

/// The deep view of a type-argument list.
pub open spec fn types_view(s: Seq<TupType>) -> Seq<TupTypeSpec> {
    Seq::new(s.len(), |i: int| s[i]@)
}


/// The whole comma-separated argument list from token `pos` on, under the
/// expression grammar, in source order; nothing when it does not parse.
pub open spec fn spec_parse_element_list(input: Seq<char>, toks: Seq<Token>, pos: int) -> Option<
    Seq<TupElementSpec>,
>
    decreases toks.len() - pos,
{
    if pos < 0 {
        None
    } else if pos >= toks.len() {
        Some(Seq::empty())
    } else {
        match spec_parse_element(input, toks, pos) {
            None => None,
            Some((e, p)) => if p <= pos || p > toks.len() {
                None
            } else if p >= toks.len() {
                Some(seq![e])
            } else if !spec_punct_is(input, toks[p], ',') {
                None
            } else {
                match spec_parse_element_list(input, toks, p + 1) {
                    None => None,
                    Some(rest) => Some(seq![e] + rest),
                }
            },
        }
    }
}

/// The whole comma-separated argument list from token `pos` on, under the
/// type grammar, in source order; nothing when it does not parse.
pub open spec fn spec_parse_type_list(input: Seq<char>, toks: Seq<Token>, pos: int) -> Option<
    Seq<TupTypeSpec>,
>
    decreases toks.len() - pos,
{
    if pos < 0 {
        None
    } else if pos >= toks.len() {
        Some(Seq::empty())
    } else {
        match spec_parse_type(input, toks, pos) {
            None => None,
            Some((e, p)) => if p <= pos || p > toks.len() {
                None
            } else if p >= toks.len() {
                Some(seq![e])
            } else if !spec_punct_is(input, toks[p], ',') {
                None
            } else {
                match spec_parse_type_list(input, toks, p + 1) {
                    None => None,
                    Some(rest) => Some(seq![e] + rest),
                }
            },
        }
    }
}

/// Strictly sorted by the canonical order of the field names; in
/// particular, the names are pairwise distinct.
pub open spec fn elems_sorted(s: Seq<TupElementSpec>) -> bool {
    forall|i: int, j: int| 0 <= i < j < s.len()
        ==> canon_lt((#[trigger] s[i]).name, (#[trigger] s[j]).name)
}

/// Strictly sorted by the canonical order of the field names.
pub open spec fn types_sorted(s: Seq<TupTypeSpec>) -> bool {
    forall|i: int, j: int| 0 <= i < j < s.len()
        ==> canon_lt((#[trigger] s[i]).name, (#[trigger] s[j]).name)
}

/// The name is a contiguous piece of the input text.
pub open spec fn name_from_input(name: Seq<char>, input: Seq<char>) -> bool {
    exists|a: int, b: int| 0 <= a <= b <= input.len() && name == input.subrange(a, b)
}

/// Two lists holding exactly the same elements.
pub open spec fn same_elems<T>(a: Seq<T>, b: Seq<T>) -> bool {
    forall|x: T| #[trigger] a.contains(x) <==> #[trigger] b.contains(x)
}

/// All field names pairwise distinct.
pub open spec fn elem_names_unique(s: Seq<TupElementSpec>) -> bool {
    forall|i: int, j: int| 0 <= i < j < s.len()
        ==> (#[trigger] s[i]).name != (#[trigger] s[j]).name
}

/// All field names pairwise distinct.
pub open spec fn type_names_unique(s: Seq<TupTypeSpec>) -> bool {
    forall|i: int, j: int| 0 <= i < j < s.len()
        ==> (#[trigger] s[i]).name != (#[trigger] s[j]).name
}

proof fn lemma_canon_lt_trans(a: Seq<char>, b: Seq<char>, c: Seq<char>)
    requires
        canon_lt(a, b),
        canon_lt(b, c),
    ensures
        canon_lt(a, c),
{
    lemma_lex_lt_transitive(c, b, a);
}

pub proof fn lemma_insert_contains<T>(s: Seq<T>, j: int, x: T, y: T)
    requires
        0 <= j <= s.len(),
    ensures
        s.insert(j, x).contains(y) <==> (s.contains(y) || y == x),
{
    s.insert_ensures(j, x);
    if s.insert(j, x).contains(y) {
        let i = choose|i: int| 0 <= i < s.insert(j, x).len() && s.insert(j, x)[i] == y;
        if i < j {
            assert(s[i] == y);
        } else if i == j {
        } else {
            assert(s[i - 1] == y);
        }
    }
    if y == x {
        assert(s.insert(j, x)[j] == y);
    }
    if s.contains(y) {
        let i = choose|i: int| 0 <= i < s.len() && s[i] == y;
        if i < j {
            assert(s.insert(j, x)[i] == y);
        } else {
            assert(s.insert(j, x)[i + 1] == y);
        }
    }
}

/// Sorts expression arguments by the canonical name order; a repeated name
/// is a hard error.
fn sort_elements(v: Vec<TupElement>) -> (r: Result<Vec<TupElement>, ParseError>)
    ensures
        match r {
            Ok(out) => {
                &&& elems_sorted(elems_view(out@))
                &&& same_elems(elems_view(out@), elems_view(v@))
                &&& out@.len() == v@.len()
            },
            Err(_) => !elem_names_unique(elems_view(v@)),
        },
        (r is Ok) <==> elem_names_unique(elems_view(v@)),
{
    let ghost ev = elems_view(v@);
    let mut out: Vec<TupElement> = Vec::new();
    let mut k: usize = 0;
    proof {
        assert(ev.subrange(0, 0) =~= Seq::<TupElementSpec>::empty());
    }
    while k < v.len()
        invariant
            k <= v@.len(),
            ev == elems_view(v@),
            out@.len() == k,
            elems_sorted(elems_view(out@)),
            same_elems(elems_view(out@), ev.subrange(0, k as int)),
            elem_names_unique(ev.subrange(0, k as int)),
        decreases v@.len() - k,
    {
        let x = take_element(&v, k);
        let ghost xv = x@;
        proof {
            assert(xv == ev[k as int]);
        }
        // Find the insertion slot among the already sorted elements.
        let mut j: usize = 0;
        loop
            invariant
                j <= out@.len(),
                out@.len() == k < v@.len(),
                ev == elems_view(v@),
                xv == ev[k as int],
                x@ == xv,
                elems_sorted(elems_view(out@)),
                same_elems(elems_view(out@), ev.subrange(0, k as int)),
                forall|m: int| 0 <= m < j
                    ==> canon_lt((#[trigger] elems_view(out@)[m]).name, xv.name),
            ensures
                j <= out@.len(),
                forall|m: int| 0 <= m < j
                    ==> canon_lt((#[trigger] elems_view(out@)[m]).name, xv.name),
                j < out@.len() ==> canon_lt(xv.name, elems_view(out@)[j as int].name),
            decreases out@.len() - j,
        {
            if j == out.len() {
                break;
            }
            match canon_cmp(&out[j].name, &x.name) {
                Ordering::Less => {
                    proof {
                        assert(elems_view(out@)[j as int].name == out@[j as int]@.name);
                    }
                    j = j + 1;
                },
                Ordering::Equal => {
                    proof {
                        assert(elems_view(out@)[j as int].name == xv.name);
                        assert(elems_view(out@).contains(elems_view(out@)[j as int]));
                        assert(ev.subrange(0, k as int).contains(elems_view(out@)[j as int]));
                        let i0 = choose|i0: int| 0 <= i0 < k
                            && #[trigger] ev.subrange(0, k as int)[i0] == elems_view(out@)[
                            j as int
                        ];
                        assert(ev[i0] == elems_view(out@)[j as int]);
                        assert(ev[i0].name == ev[k as int].name);
                        if elem_names_unique(ev) {
                            assert(ev[i0].name != ev[k as int].name);
                            assert(false);
                        }
                        assert(!elem_names_unique(ev));
                        assert(!elem_names_unique(elems_view(v@)));
                    }
                    return Err(ParseError { pos: x.name_pos });
                },
                Ordering::Greater => {
                    proof {
                        assert(elems_view(out@)[j as int].name == out@[j as int]@.name);
                    }
                    break;
                },
            }
        }
        proof {
            // The new element's name differs from every name collected so
            // far, so the prefix stays duplicate-free.
            assert forall|m: int| 0 <= m < k implies
                (#[trigger] ev.subrange(0, k as int)[m]).name != xv.name by {
                let y = ev.subrange(0, k as int)[m];
                assert(ev.subrange(0, k as int).contains(y));
                assert(elems_view(out@).contains(y));
                let idx = choose|idx: int|
                    0 <= idx < elems_view(out@).len() && #[trigger] elems_view(out@)[idx] == y;
                if idx < j {
                    assert(canon_lt(y.name, xv.name));
                } else {
                    assert(canon_lt(xv.name, elems_view(out@)[j as int].name));
                    if idx > j {
                        lemma_canon_lt_trans(
                            xv.name,
                            elems_view(out@)[j as int].name,
                            elems_view(out@)[idx].name,
                        );
                    }
                    assert(canon_lt(xv.name, y.name));
                }
                crate::order::lemma_lex_lt_irreflexive(xv.name);
            }
            assert forall|a2: int, b2: int| 0 <= a2 < b2 < k + 1 implies
                (#[trigger] ev.subrange(0, k as int + 1)[a2]).name != (#[trigger] ev.subrange(
                0,
                k as int + 1,
            )[b2]).name by {
                assert(ev.subrange(0, k as int + 1)[a2] == ev[a2]);
                assert(ev.subrange(0, k as int + 1)[b2] == ev[b2]);
                if b2 < k {
                    assert(ev.subrange(0, k as int)[a2] == ev[a2]);
                    assert(ev.subrange(0, k as int)[b2] == ev[b2]);
                } else {
                    assert(ev.subrange(0, k as int)[a2] == ev[a2]);
                    assert(ev.subrange(0, k as int)[a2].name != xv.name);
                }
            }
        }
        proof {
            // The insertion keeps the list sorted and adds exactly `x`.
            let ov = elems_view(out@);
            ov.insert_ensures(j as int, xv);
            let nv = ov.insert(j as int, xv);
            assert forall|a: int, b: int| 0 <= a < b < nv.len() implies
                canon_lt((#[trigger] nv[a]).name, (#[trigger] nv[b]).name) by {
                if b < j {
                    assert(nv[a] == ov[a] && nv[b] == ov[b]);
                } else if a > j {
                    assert(nv[a] == ov[a - 1] && nv[b] == ov[b - 1]);
                } else if a == j {
                    assert(nv[a] == xv && nv[b] == ov[b - 1]);
                    if j < out@.len() {
                        assert(canon_lt(xv.name, ov[j as int].name));
                        if b - 1 > j {
                            lemma_canon_lt_trans(xv.name, ov[j as int].name, ov[b - 1].name);
                        }
                    }
                } else if b == j {
                    assert(nv[a] == ov[a] && nv[b] == xv);
                    assert(canon_lt(ov[a].name, xv.name));
                } else {
                    // a < j < b
                    assert(nv[a] == ov[a] && nv[b] == ov[b - 1]);
                    assert(a < b - 1);
                    assert(canon_lt(ov[a].name, ov[b - 1].name));
                }
            }
        }
        let ghost ov = elems_view(out@);
        out.insert(j, x);
        proof {
            assert(elems_view(out@) =~= ov.insert(j as int, xv));
            assert forall|y: TupElementSpec| #[trigger] elems_view(out@).contains(y) implies
                ev.subrange(0, k as int + 1).contains(y) by {
                lemma_insert_contains(ov, j as int, xv, y);
                if y == xv {
                    assert(ev.subrange(0, k as int + 1)[k as int] == y);
                } else {
                    assert(ov.contains(y));
                    assert(ev.subrange(0, k as int).contains(y));
                    let i0 = choose|i0: int| 0 <= i0 < k && ev.subrange(0, k as int)[i0] == y;
                    assert(ev.subrange(0, k as int + 1)[i0] == y);
                }
            }
            assert forall|y: TupElementSpec| #[trigger] ev.subrange(0, k as int + 1).contains(y)
                implies elems_view(out@).contains(y) by {
                let i0 = choose|i0: int|
                    0 <= i0 < k + 1 && #[trigger] ev.subrange(0, k as int + 1)[i0] == y;
                lemma_insert_contains(ov, j as int, xv, y);
                if i0 < k {
                    assert(ev.subrange(0, k as int)[i0] == y);
                    assert(ev.subrange(0, k as int).contains(y));
                } else {
                    assert(y == xv);
                }
            }
        }
        k = k + 1;
    }
    proof {
        assert(ev.subrange(0, k as int) =~= ev);
    }
    Ok(out)
}

/// Reads element `k` out of the list without disturbing the rest.
fn take_element(src: &Vec<TupElement>, k: usize) -> (r: TupElement)
    requires
        k < src@.len(),
    ensures
        r@ == elems_view(src@)[k as int],
{
    let e = &src[k];
    let name = crate::chars::clone_chars(&e.name);
    let value = match &e.value {
        Some(v) => Some(crate::chars::clone_chars(v)),
        None => None,
    };
    TupElement { name, name_pos: e.name_pos, value }
}

/// Sorts type arguments by the canonical name order; a repeated name
/// is a hard error.
fn sort_types(v: Vec<TupType>) -> (r: Result<Vec<TupType>, ParseError>)
    ensures
        match r {
            Ok(out) => {
                &&& types_sorted(types_view(out@))
                &&& same_elems(types_view(out@), types_view(v@))
                &&& out@.len() == v@.len()
            },
            Err(_) => !type_names_unique(types_view(v@)),
        },
        (r is Ok) <==> type_names_unique(types_view(v@)),
{
    let ghost ev = types_view(v@);
    let mut out: Vec<TupType> = Vec::new();
    let mut k: usize = 0;
    proof {
        assert(ev.subrange(0, 0) =~= Seq::<TupTypeSpec>::empty());
    }
    while k < v.len()
        invariant
            k <= v@.len(),
            ev == types_view(v@),
            out@.len() == k,
            types_sorted(types_view(out@)),
            same_elems(types_view(out@), ev.subrange(0, k as int)),
            type_names_unique(ev.subrange(0, k as int)),
        decreases v@.len() - k,
    {
        let x = take_type(&v, k);
        let ghost xv = x@;
        proof {
            assert(xv == ev[k as int]);
        }
        // Find the insertion slot among the already sorted elements.
        let mut j: usize = 0;
        loop
            invariant
                j <= out@.len(),
                out@.len() == k < v@.len(),
                ev == types_view(v@),
                xv == ev[k as int],
                x@ == xv,
                types_sorted(types_view(out@)),
                same_elems(types_view(out@), ev.subrange(0, k as int)),
                forall|m: int| 0 <= m < j
                    ==> canon_lt((#[trigger] types_view(out@)[m]).name, xv.name),
            ensures
                j <= out@.len(),
                forall|m: int| 0 <= m < j
                    ==> canon_lt((#[trigger] types_view(out@)[m]).name, xv.name),
                j < out@.len() ==> canon_lt(xv.name, types_view(out@)[j as int].name),
            decreases out@.len() - j,
        {
            if j == out.len() {
                break;
            }
            match canon_cmp(&out[j].name, &x.name) {
                Ordering::Less => {
                    proof {
                        assert(types_view(out@)[j as int].name == out@[j as int]@.name);
                    }
                    j = j + 1;
                },
                Ordering::Equal => {
                    proof {
                        assert(types_view(out@)[j as int].name == xv.name);
                        assert(types_view(out@).contains(types_view(out@)[j as int]));
                        assert(ev.subrange(0, k as int).contains(types_view(out@)[j as int]));
                        let i0 = choose|i0: int| 0 <= i0 < k
                            && #[trigger] ev.subrange(0, k as int)[i0] == types_view(out@)[
                            j as int
                        ];
                        assert(ev[i0] == types_view(out@)[j as int]);
                        assert(ev[i0].name == ev[k as int].name);
                        if type_names_unique(ev) {
                            assert(ev[i0].name != ev[k as int].name);
                            assert(false);
                        }
                        assert(!type_names_unique(ev));
                        assert(!type_names_unique(types_view(v@)));
                    }
                    return Err(ParseError { pos: x.name_pos });
                },
                Ordering::Greater => {
                    proof {
                        assert(types_view(out@)[j as int].name == out@[j as int]@.name);
                    }
                    break;
                },
            }
        }
        proof {
            // The new element's name differs from every name collected so
            // far, so the prefix stays duplicate-free.
            assert forall|m: int| 0 <= m < k implies
                (#[trigger] ev.subrange(0, k as int)[m]).name != xv.name by {
                let y = ev.subrange(0, k as int)[m];
                assert(ev.subrange(0, k as int).contains(y));
                assert(types_view(out@).contains(y));
                let idx = choose|idx: int|
                    0 <= idx < types_view(out@).len() && #[trigger] types_view(out@)[idx] == y;
                if idx < j {
                    assert(canon_lt(y.name, xv.name));
                } else {
                    assert(canon_lt(xv.name, types_view(out@)[j as int].name));
                    if idx > j {
                        lemma_canon_lt_trans(
                            xv.name,
                            types_view(out@)[j as int].name,
                            types_view(out@)[idx].name,
                        );
                    }
                    assert(canon_lt(xv.name, y.name));
                }
                crate::order::lemma_lex_lt_irreflexive(xv.name);
            }
            assert forall|a2: int, b2: int| 0 <= a2 < b2 < k + 1 implies
                (#[trigger] ev.subrange(0, k as int + 1)[a2]).name != (#[trigger] ev.subrange(
                0,
                k as int + 1,
            )[b2]).name by {
                assert(ev.subrange(0, k as int + 1)[a2] == ev[a2]);
                assert(ev.subrange(0, k as int + 1)[b2] == ev[b2]);
                if b2 < k {
                    assert(ev.subrange(0, k as int)[a2] == ev[a2]);
                    assert(ev.subrange(0, k as int)[b2] == ev[b2]);
                } else {
                    assert(ev.subrange(0, k as int)[a2] == ev[a2]);
                    assert(ev.subrange(0, k as int)[a2].name != xv.name);
                }
            }
        }
        proof {
            // The insertion keeps the list sorted and adds exactly `x`.
            let ov = types_view(out@);
            ov.insert_ensures(j as int, xv);
            let nv = ov.insert(j as int, xv);
            assert forall|a: int, b: int| 0 <= a < b < nv.len() implies
                canon_lt((#[trigger] nv[a]).name, (#[trigger] nv[b]).name) by {
                if b < j {
                    assert(nv[a] == ov[a] && nv[b] == ov[b]);
                } else if a > j {
                    assert(nv[a] == ov[a - 1] && nv[b] == ov[b - 1]);
                } else if a == j {
                    assert(nv[a] == xv && nv[b] == ov[b - 1]);
                    if j < out@.len() {
                        assert(canon_lt(xv.name, ov[j as int].name));
                        if b - 1 > j {
                            lemma_canon_lt_trans(xv.name, ov[j as int].name, ov[b - 1].name);
                        }
                    }
                } else if b == j {
                    assert(nv[a] == ov[a] && nv[b] == xv);
                    assert(canon_lt(ov[a].name, xv.name));
                } else {
                    // a < j < b
                    assert(nv[a] == ov[a] && nv[b] == ov[b - 1]);
                    assert(a < b - 1);
                    assert(canon_lt(ov[a].name, ov[b - 1].name));
                }
            }
        }
        let ghost ov = types_view(out@);
        out.insert(j, x);
        proof {
            assert(types_view(out@) =~= ov.insert(j as int, xv));
            assert forall|y: TupTypeSpec| #[trigger] types_view(out@).contains(y) implies
                ev.subrange(0, k as int + 1).contains(y) by {
                lemma_insert_contains(ov, j as int, xv, y);
                if y == xv {
                    assert(ev.subrange(0, k as int + 1)[k as int] == y);
                } else {
                    assert(ov.contains(y));
                    assert(ev.subrange(0, k as int).contains(y));
                    let i0 = choose|i0: int| 0 <= i0 < k && ev.subrange(0, k as int)[i0] == y;
                    assert(ev.subrange(0, k as int + 1)[i0] == y);
                }
            }
            assert forall|y: TupTypeSpec| #[trigger] ev.subrange(0, k as int + 1).contains(y)
                implies types_view(out@).contains(y) by {
                let i0 = choose|i0: int|
                    0 <= i0 < k + 1 && #[trigger] ev.subrange(0, k as int + 1)[i0] == y;
                lemma_insert_contains(ov, j as int, xv, y);
                if i0 < k {
                    assert(ev.subrange(0, k as int)[i0] == y);
                    assert(ev.subrange(0, k as int).contains(y));
                } else {
                    assert(y == xv);
                }
            }
        }
        k = k + 1;
    }
    proof {
        assert(ev.subrange(0, k as int) =~= ev);
    }
    Ok(out)
}

/// Reads element `k` out of the list without disturbing the rest.
pub(crate) fn take_type(src: &Vec<TupType>, k: usize) -> (r: TupType)
    requires
        k < src@.len(),
    ensures
        r@ == types_view(src@)[k as int],
{
    let e = &src[k];
    let name = crate::chars::clone_chars(&e.name);
    let value = crate::chars::clone_chars(&e.value);
    let default = match &e.default {
        TupDefault::Absent => TupDefault::Absent,
        TupDefault::Unfinished { expr } => TupDefault::Unfinished {
            expr: crate::chars::clone_chars(expr),
        },
        TupDefault::Finished { id } => TupDefault::Finished {
            id: crate::chars::clone_chars(id),
        },
    };
    TupType { name, name_pos: e.name_pos, value, default }
}

/// Sorted output is a function of the argument set alone: two strictly
/// sorted lists holding the same elements are identical, so parsing the
/// same arguments in any input order yields one sorted output.
pub proof fn lemma_sorted_output_unique(a: Seq<TupElementSpec>, b: Seq<TupElementSpec>)
    requires
        elems_sorted(a),
        elems_sorted(b),
        same_elems(a, b),
    ensures
        a == b,
    decreases a.len(),
{
    if a.len() == 0 {
        if b.len() > 0 {
            assert(b.contains(b[0]));
            assert(a.contains(b[0]));
            assert(false);
        }
        assert(a =~= b);
    } else if b.len() == 0 {
        assert(a.contains(a[0]));
        assert(b.contains(a[0]));
        assert(false);
    } else {
        assert(a.contains(a[0]));
        assert(b.contains(a[0]));
        assert(b.contains(b[0]));
        assert(a.contains(b[0]));
        let k = choose|k: int| 0 <= k < b.len() && b[k] == a[0];
        let m = choose|m: int| 0 <= m < a.len() && a[m] == b[0];
        if k > 0 && m > 0 {
            assert(canon_lt(b[0].name, b[k].name));
            assert(canon_lt(a[0].name, a[m].name));
            lemma_lex_lt_asymmetric(a[0].name, b[0].name);
            assert(false);
        }
        assert(a[0] == b[0]);
        assert forall|y: TupElementSpec| #[trigger] a.drop_first().contains(y) implies
            b.drop_first().contains(y) by {
            let i = choose|i: int| 0 <= i < a.drop_first().len() && a.drop_first()[i] == y;
            assert(a[i + 1] == y);
            assert(a.contains(y));
            assert(b.contains(y));
            let p = choose|p: int| 0 <= p < b.len() && b[p] == y;
            assert(canon_lt(a[0].name, a[i + 1].name));
            if p == 0 {
                crate::order::lemma_lex_lt_irreflexive(a[0].name);
                assert(false);
            }
            assert(b.drop_first()[p - 1] == y);
        }
        assert forall|y: TupElementSpec| #[trigger] b.drop_first().contains(y) implies
            a.drop_first().contains(y) by {
            let i = choose|i: int| 0 <= i < b.drop_first().len() && b.drop_first()[i] == y;
            assert(b[i + 1] == y);
            assert(b.contains(y));
            assert(a.contains(y));
            let p = choose|p: int| 0 <= p < a.len() && a[p] == y;
            assert(canon_lt(b[0].name, b[i + 1].name));
            if p == 0 {
                crate::order::lemma_lex_lt_irreflexive(b[0].name);
                assert(false);
            }
            assert(a.drop_first()[p - 1] == y);
        }
        lemma_sorted_output_unique(a.drop_first(), b.drop_first());
        assert(a =~= seq![a[0]] + a.drop_first());
        assert(b =~= seq![b[0]] + b.drop_first());
    }
}

/// Sorted output is a function of the argument set alone: two strictly
/// sorted lists holding the same elements are identical, so parsing the
/// same arguments in any input order yields one sorted output.
pub proof fn lemma_sorted_type_output_unique(a: Seq<TupTypeSpec>, b: Seq<TupTypeSpec>)
    requires
        types_sorted(a),
        types_sorted(b),
        same_elems(a, b),
    ensures
        a == b,
    decreases a.len(),
{
    if a.len() == 0 {
        if b.len() > 0 {
            assert(b.contains(b[0]));
            assert(a.contains(b[0]));
            assert(false);
        }
        assert(a =~= b);
    } else if b.len() == 0 {
        assert(a.contains(a[0]));
        assert(b.contains(a[0]));
        assert(false);
    } else {
        assert(a.contains(a[0]));
        assert(b.contains(a[0]));
        assert(b.contains(b[0]));
        assert(a.contains(b[0]));
        let k = choose|k: int| 0 <= k < b.len() && b[k] == a[0];
        let m = choose|m: int| 0 <= m < a.len() && a[m] == b[0];
        if k > 0 && m > 0 {
            assert(canon_lt(b[0].name, b[k].name));
            assert(canon_lt(a[0].name, a[m].name));
            lemma_lex_lt_asymmetric(a[0].name, b[0].name);
            assert(false);
        }
        assert(a[0] == b[0]);
        assert forall|y: TupTypeSpec| #[trigger] a.drop_first().contains(y) implies
            b.drop_first().contains(y) by {
            let i = choose|i: int| 0 <= i < a.drop_first().len() && a.drop_first()[i] == y;
            assert(a[i + 1] == y);
            assert(a.contains(y));
            assert(b.contains(y));
            let p = choose|p: int| 0 <= p < b.len() && b[p] == y;
            assert(canon_lt(a[0].name, a[i + 1].name));
            if p == 0 {
                crate::order::lemma_lex_lt_irreflexive(a[0].name);
                assert(false);
            }
            assert(b.drop_first()[p - 1] == y);
        }
        assert forall|y: TupTypeSpec| #[trigger] b.drop_first().contains(y) implies
            a.drop_first().contains(y) by {
            let i = choose|i: int| 0 <= i < b.drop_first().len() && b.drop_first()[i] == y;
            assert(b[i + 1] == y);
            assert(b.contains(y));
            assert(a.contains(y));
            let p = choose|p: int| 0 <= p < a.len() && a[p] == y;
            assert(canon_lt(b[0].name, b[i + 1].name));
            if p == 0 {
                crate::order::lemma_lex_lt_irreflexive(b[0].name);
                assert(false);
            }
            assert(a.drop_first()[p - 1] == y);
        }
        lemma_sorted_type_output_unique(a.drop_first(), b.drop_first());
        assert(a =~= seq![a[0]] + a.drop_first());
        assert(b =~= seq![b[0]] + b.drop_first());
    }
}

/// A parsed, canonically sorted expression-position invocation.
pub struct TupElementInvocation(pub Vec<TupElement>);

/// A parsed, canonically sorted type-position invocation.
pub struct TupTypeInvocation(pub Vec<TupType>);

impl TupElementInvocation {
    /// Parses a whole comma-separated argument list under the expression
    /// grammar, to the end of the input, and sorts it canonically. It
    /// succeeds precisely when the whole input parses under the grammar
    /// with no repeated field name; the result is then the canonically
    /// sorted permutation of exactly the input's arguments, names and
    /// values unchanged.
    pub fn parse(input: &Vec<char>, toks: &Vec<Token>) -> (r: Result<
        TupElementInvocation,
        ParseError,
    >)
        requires
            tokens_wf(toks@, input@),
        ensures
            (r is Ok) <==> (spec_parse_element_list(input@, toks@, 0) matches Some(l)
                && elem_names_unique(l)),
            match r {
                Ok(inv) => {
                    &&& elems_sorted(elems_view(inv.0@))
                    &&& same_elems(
                        elems_view(inv.0@),
                        spec_parse_element_list(input@, toks@, 0)->Some_0,
                    )
                    &&& inv.0@.len() == spec_parse_element_list(input@, toks@, 0)->Some_0.len()
                    &&& forall|i: int| 0 <= i < inv.0@.len()
                        ==> valid_ident((#[trigger] elems_view(inv.0@)[i]).name)
                    &&& forall|i: int| 0 <= i < inv.0@.len()
                        ==> name_from_input((#[trigger] elems_view(inv.0@)[i]).name, input@)
                },
                Err(_) => true,
            },
    {
        let mut items: Vec<TupElement> = Vec::new();
        let mut pos: usize = 0;
        proof {
            match spec_parse_element_list(input@, toks@, 0) {
                Some(rest) => {
                    assert(Seq::<TupElementSpec>::empty() + rest =~= rest);
                },
                None => {},
            }
        }
        while pos < toks.len()
            invariant
                tokens_wf(toks@, input@),
                pos <= toks@.len(),
                forall|i: int| 0 <= i < items@.len()
                    ==> valid_ident((#[trigger] elems_view(items@)[i]).name),
                forall|i: int| 0 <= i < items@.len()
                    ==> name_from_input((#[trigger] elems_view(items@)[i]).name, input@),
                match spec_parse_element_list(input@, toks@, pos as int) {
                    Some(rest) => spec_parse_element_list(input@, toks@, 0) == Some(
                        elems_view(items@) + rest,
                    ),
                    None => spec_parse_element_list(input@, toks@, 0) is None,
                },
            decreases toks@.len() - pos,
        {
            let ghost ppos = pos as int;
            let ghost before = elems_view(items@);
            let (e, p) = match TupElement::parse(input, toks, pos) {
                Ok(x) => x,
                Err(e) => {
                    proof {
                        assert(spec_parse_element_list(input@, toks@, ppos) is None);
                    }
                    return Err(e);
                },
            };
            items.push(e);
            proof {
                assert(elems_view(items@) =~= before.push(e@));
                assert(crate::token::token_wf(toks@[ppos], input@));
                assert(name_from_input(e@.name, input@));
            }
            pos = p;
            if pos < toks.len() {
                let t = toks[pos];
                proof {
                    assert(crate::token::token_wf(toks@[pos as int], input@));
                }
                if punct_is(input, &t, ',') {
                    proof {
                        match spec_parse_element_list(input@, toks@, p as int + 1) {
                            Some(rest2) => {
                                assert(spec_parse_element_list(input@, toks@, ppos) == Some(
                                    seq![e@] + rest2,
                                ));
                                assert(before + (seq![e@] + rest2) =~= before.push(e@) + rest2);
                            },
                            None => {
                                assert(spec_parse_element_list(input@, toks@, ppos) is None);
                            },
                        }
                    }
                    pos = pos + 1;
                } else {
                    proof {
                        assert(spec_parse_element_list(input@, toks@, ppos) is None);
                    }
                    return Err(ParseError { pos: t.start });
                }
            } else {
                proof {
                    assert(spec_parse_element_list(input@, toks@, ppos) == Some(seq![e@]));
                    assert(before + seq![e@] =~= before.push(e@));
                    assert(spec_parse_element_list(input@, toks@, pos as int) == Some(
                        Seq::<TupElementSpec>::empty(),
                    ));
                    assert(before.push(e@) + Seq::<TupElementSpec>::empty() =~= before.push(e@));
                }
            }
        }
        proof {
            assert(spec_parse_element_list(input@, toks@, pos as int) == Some(
                Seq::<TupElementSpec>::empty(),
            ));
            assert(elems_view(items@) + Seq::<TupElementSpec>::empty() =~= elems_view(items@));
        }
        let ghost iv = elems_view(items@);
        let sorted = match sort_elements(items) {
            Ok(x) => x,
            Err(e) => {
                return Err(e);
            },
        };
        proof {
            assert forall|i: int| 0 <= i < sorted@.len() implies
                valid_ident((#[trigger] elems_view(sorted@)[i]).name) && name_from_input(
                elems_view(sorted@)[i].name,
                input@,
            ) by {
                assert(elems_view(sorted@).contains(elems_view(sorted@)[i]));
                assert(iv.contains(elems_view(sorted@)[i]));
                let k = choose|k: int| 0 <= k < iv.len() && iv[k] == elems_view(sorted@)[i];
                assert(valid_ident(iv[k].name));
                assert(name_from_input(iv[k].name, input@));
            }
        }
        Ok(TupElementInvocation(sorted))
    }
}

/// Parses a whole comma-separated argument list under the type grammar, to
/// the end of the input, in source order. It succeeds precisely when the
/// whole input parses under the grammar, and then returns exactly the
/// parsed (name, type, default) triples.
pub fn parse_type_list(input: &Vec<char>, toks: &Vec<Token>) -> (r: Result<Vec<TupType>, ParseError>)
    requires
        tokens_wf(toks@, input@),
    ensures
        (r is Ok) <==> spec_parse_type_list(input@, toks@, 0) is Some,
        match r {
            Ok(items) => {
                &&& types_view(items@) == spec_parse_type_list(input@, toks@, 0)->Some_0
                &&& forall|i: int| 0 <= i < items@.len()
                    ==> valid_ident((#[trigger] types_view(items@)[i]).name)
                &&& forall|i: int| 0 <= i < items@.len()
                    ==> name_from_input((#[trigger] types_view(items@)[i]).name, input@)
            },
            Err(_) => true,
        },
{
    let mut items: Vec<TupType> = Vec::new();
    let mut pos: usize = 0;
    proof {
        match spec_parse_type_list(input@, toks@, 0) {
            Some(rest) => {
                assert(Seq::<TupTypeSpec>::empty() + rest =~= rest);
            },
            None => {},
        }
    }
    while pos < toks.len()
        invariant
            tokens_wf(toks@, input@),
            pos <= toks@.len(),
            forall|i: int| 0 <= i < items@.len()
                ==> valid_ident((#[trigger] types_view(items@)[i]).name),
            forall|i: int| 0 <= i < items@.len()
                ==> name_from_input((#[trigger] types_view(items@)[i]).name, input@),
            match spec_parse_type_list(input@, toks@, pos as int) {
                Some(rest) => spec_parse_type_list(input@, toks@, 0) == Some(
                    types_view(items@) + rest,
                ),
                None => spec_parse_type_list(input@, toks@, 0) is None,
            },
        decreases toks@.len() - pos,
    {
        let ghost ppos = pos as int;
        let ghost before = types_view(items@);
        let (e, p) = match TupType::parse(input, toks, pos) {
            Ok(x) => x,
            Err(e) => {
                proof {
                    assert(spec_parse_type_list(input@, toks@, ppos) is None);
                }
                return Err(e);
            },
        };
        items.push(e);
        proof {
            assert(types_view(items@) =~= before.push(e@));
            assert(crate::token::token_wf(toks@[ppos], input@));
            assert(name_from_input(e@.name, input@));
        }
        pos = p;
        if pos < toks.len() {
            let t = toks[pos];
            proof {
                assert(crate::token::token_wf(toks@[pos as int], input@));
            }
            if punct_is(input, &t, ',') {
                proof {
                    match spec_parse_type_list(input@, toks@, p as int + 1) {
                        Some(rest2) => {
                            assert(spec_parse_type_list(input@, toks@, ppos) == Some(
                                seq![e@] + rest2,
                            ));
                            assert(before + (seq![e@] + rest2) =~= before.push(e@) + rest2);
                        },
                        None => {
                            assert(spec_parse_type_list(input@, toks@, ppos) is None);
                        },
                    }
                }
                pos = pos + 1;
            } else {
                proof {
                    assert(spec_parse_type_list(input@, toks@, ppos) is None);
                }
                return Err(ParseError { pos: t.start });
            }
        } else {
            proof {
                assert(spec_parse_type_list(input@, toks@, ppos) == Some(seq![e@]));
                assert(before + seq![e@] =~= before.push(e@));
                assert(spec_parse_type_list(input@, toks@, pos as int) == Some(
                    Seq::<TupTypeSpec>::empty(),
                ));
                assert(before.push(e@) + Seq::<TupTypeSpec>::empty() =~= before.push(e@));
            }
        }
    }
    proof {
        assert(spec_parse_type_list(input@, toks@, pos as int) == Some(
            Seq::<TupTypeSpec>::empty(),
        ));
        assert(types_view(items@) + Seq::<TupTypeSpec>::empty() =~= types_view(items@));
    }
    Ok(items)
}

impl TupTypeInvocation {
    /// Parses a whole comma-separated argument list under the type grammar,
    /// to the end of the input, and sorts it canonically. It succeeds
    /// precisely when the whole input parses under the grammar with no
    /// repeated field name; the result is then the canonically sorted
    /// permutation of exactly the input's arguments, types and default
    /// descriptors unchanged.
    pub fn parse(input: &Vec<char>, toks: &Vec<Token>) -> (r: Result<
        TupTypeInvocation,
        ParseError,
    >)
        requires
            tokens_wf(toks@, input@),
        ensures
            (r is Ok) <==> (spec_parse_type_list(input@, toks@, 0) matches Some(l)
                && type_names_unique(l)),
            match r {
                Ok(inv) => {
                    &&& types_sorted(types_view(inv.0@))
                    &&& same_elems(
                        types_view(inv.0@),
                        spec_parse_type_list(input@, toks@, 0)->Some_0,
                    )
                    &&& inv.0@.len() == spec_parse_type_list(input@, toks@, 0)->Some_0.len()
                    &&& forall|i: int| 0 <= i < inv.0@.len()
                        ==> valid_ident((#[trigger] types_view(inv.0@)[i]).name)
                    &&& forall|i: int| 0 <= i < inv.0@.len()
                        ==> name_from_input((#[trigger] types_view(inv.0@)[i]).name, input@)
                },
                Err(_) => true,
            },
    {
        let items = match parse_type_list(input, toks) {
            Ok(x) => x,
            Err(e) => {
                return Err(e);
            },
        };
        let ghost iv = types_view(items@);
        let sorted = match sort_types(items) {
            Ok(x) => x,
            Err(e) => {
                return Err(e);
            },
        };
        proof {
            assert forall|i: int| 0 <= i < sorted@.len() implies
                valid_ident((#[trigger] types_view(sorted@)[i]).name) && name_from_input(
                types_view(sorted@)[i].name,
                input@,
            ) by {
                assert(types_view(sorted@).contains(types_view(sorted@)[i]));
                assert(iv.contains(types_view(sorted@)[i]));
                let k = choose|k: int| 0 <= k < iv.len() && iv[k] == types_view(sorted@)[i];
                assert(valid_ident(iv[k].name));
                assert(name_from_input(iv[k].name, input@));
            }
        }
        Ok(TupTypeInvocation(sorted))
    }
}

/// One macro call, under whichever of the two grammars fits it.
pub enum Invocation {
    Expr(TupElementInvocation),
    Type(TupTypeInvocation),
}

/// Neither grammar consumed the argument list: the expression grammar's
/// error, with the type grammar's attached.
#[derive(Debug)]
pub struct InvocationError {
    pub expr_error: ParseError,
    pub type_error: ParseError,
}

/// Disambiguates one argument list between the two grammars: the type
/// grammar is tried first, speculatively, and committed to only when it
/// consumes the whole input with no repeated name; otherwise the expression
/// grammar is tried; when neither fits, both errors are reported, the
/// expression grammar's first, since it is the more common form. The
/// returned invocation holds exactly the canonically sorted arguments of
/// whichever grammar was committed to.
pub fn parse_invocation(input: &Vec<char>, toks: &Vec<Token>) -> (r: Result<
    Invocation,
    InvocationError,
>)
    requires
        tokens_wf(toks@, input@),
    ensures
        match r {
            Ok(Invocation::Type(inv)) => {
                &&& spec_parse_type_list(input@, toks@, 0) matches Some(l) && type_names_unique(l)
                &&& types_sorted(types_view(inv.0@))
                &&& same_elems(types_view(inv.0@), spec_parse_type_list(input@, toks@, 0)->Some_0)
                &&& inv.0@.len() == spec_parse_type_list(input@, toks@, 0)->Some_0.len()
                &&& forall|i: int| 0 <= i < inv.0@.len()
                    ==> valid_ident((#[trigger] types_view(inv.0@)[i]).name)
                &&& forall|i: int| 0 <= i < inv.0@.len()
                    ==> name_from_input((#[trigger] types_view(inv.0@)[i]).name, input@)
            },
            Ok(Invocation::Expr(inv)) => {
                &&& !(spec_parse_type_list(input@, toks@, 0) matches Some(l)
                    && type_names_unique(l))
                &&& spec_parse_element_list(input@, toks@, 0) matches Some(l)
                    && elem_names_unique(l)
                &&& elems_sorted(elems_view(inv.0@))
                &&& same_elems(
                    elems_view(inv.0@),
                    spec_parse_element_list(input@, toks@, 0)->Some_0,
                )
                &&& inv.0@.len() == spec_parse_element_list(input@, toks@, 0)->Some_0.len()
                &&& forall|i: int| 0 <= i < inv.0@.len()
                    ==> valid_ident((#[trigger] elems_view(inv.0@)[i]).name)
                &&& forall|i: int| 0 <= i < inv.0@.len()
                    ==> name_from_input((#[trigger] elems_view(inv.0@)[i]).name, input@)
            },
            Err(_) => {
                &&& !(spec_parse_type_list(input@, toks@, 0) matches Some(l)
                    && type_names_unique(l))
                &&& !(spec_parse_element_list(input@, toks@, 0) matches Some(l)
                    && elem_names_unique(l))
            },
        },
{
    let type_error = match TupTypeInvocation::parse(input, toks) {
        Ok(inv) => {
            return Ok(Invocation::Type(inv));
        },
        Err(e) => e,
    };
    match TupElementInvocation::parse(input, toks) {
        Ok(inv) => Ok(Invocation::Expr(inv)),
        Err(expr_error) => Err(InvocationError { expr_error, type_error }),
    }
}

/// Whether the argument list supplies the given field.
pub open spec fn has_elem(elems: Seq<TupElementSpec>, field: Seq<char>) -> bool {
    exists|k: int| 0 <= k < elems.len() && (#[trigger] elems[k]).name == field
}

/// The argument supplied for the given field.
pub open spec fn elem_at(elems: Seq<TupElementSpec>, field: Seq<char>) -> TupElementSpec {
    elems[choose|k: int| 0 <= k < elems.len() && (#[trigger] elems[k]).name == field]
}

/// Whether the type-argument list supplies the given field.
pub open spec fn has_type(elems: Seq<TupTypeSpec>, field: Seq<char>) -> bool {
    exists|k: int| 0 <= k < elems.len() && (#[trigger] elems[k]).name == field
}

/// The type argument supplied for the given field.
pub open spec fn type_at(elems: Seq<TupTypeSpec>, field: Seq<char>) -> TupTypeSpec {
    elems[choose|k: int| 0 <= k < elems.len() && (#[trigger] elems[k]).name == field]
}

/// The expression emitted for one field slot: the supplied value, the bare
/// name itself for shorthand, or the unit value for an absent field.
pub open spec fn expr_part(elems: Seq<TupElementSpec>, field: Seq<char>) -> Seq<char> {
    if has_elem(elems, field) {
        match elem_at(elems, field).value {
            Some(v) => v,
            None => elem_at(elems, field).name,
        }
    } else {
        "()"@
    }
}

/// The field-state marker emitted for one field slot of an expression
/// invocation.
pub open spec fn expr_phantom_part(elems: Seq<TupElementSpec>, field: Seq<char>) -> Seq<char> {
    if has_elem(elems, field) {
        "named_tup::__private::Used"@
    } else {
        "named_tup::__private::Unused"@
    }
}

/// The type emitted for one field slot of a type invocation.
pub open spec fn type_part(elems: Seq<TupTypeSpec>, field: Seq<char>) -> Seq<char> {
    if has_type(elems, field) {
        type_at(elems, field).value
    } else {
        "()"@
    }
}

/// The field-state marker emitted for one field slot of a type invocation:
/// `Used` for a plain field, the rule identifier for a defaulted one.
pub open spec fn type_phantom_part(elems: Seq<TupTypeSpec>, field: Seq<char>) -> Seq<char> {
    if has_type(elems, field) {
        match type_at(elems, field).default {
            TupDefaultSpec::Absent => "named_tup::__private::Used"@,
            TupDefaultSpec::Finished { id } => id,
            TupDefaultSpec::Unfinished { expr } => "named_tup::__private::Used"@,
        }
    } else {
        "named_tup::__private::Unused"@
    }
}

/// One inferred-type placeholder per registered field.
pub open spec fn underscores(n: int) -> Seq<Seq<char>> {
    Seq::new(if n < 0 { 0 } else { n as nat }, |i: int| "_"@)
}

/// The expansion of an expression invocation: the record type instantiated
/// with inferred value types and one field-state marker per field, applied
/// to one expression per field.
pub open spec fn spec_expr_expansion(registry: Seq<Seq<char>>, elems: Seq<TupElementSpec>) -> Seq<
    char,
> {
    "named_tup::__private::Tup::<"@ + spec_join(underscores(registry.len() as int), ", "@) + ", "@
        + spec_join(Seq::new(registry.len(), |i: int| expr_phantom_part(elems, registry[i])), ", "@)
        + ">::new("@ + spec_join(Seq::new(registry.len(), |i: int| expr_part(elems, registry[i])), ", "@)
        + ")"@
}

/// The expansion of a type invocation: the record type instantiated with
/// one value type and one field-state marker per registered field.
pub open spec fn spec_type_expansion(registry: Seq<Seq<char>>, elems: Seq<TupTypeSpec>) -> Seq<
    char,
> {
    "named_tup::__private::Tup::<"@ + spec_join(Seq::new(registry.len(), |i: int| type_part(elems, registry[i])), ", "@)
        + ", "@ + spec_join(Seq::new(registry.len(), |i: int| type_phantom_part(elems, registry[i])), ", "@)
        + ">"@
}

/// An invocation that cannot be expanded against the registry.
#[derive(Debug)]
pub enum ExpandError {
    /// The invocation names a field the registry does not know: the code
    /// must be regenerated, never silently narrowed.
    UnknownField { name: Vec<char> },
    /// A default expression was not yet lowered to a rule item by the
    /// default materializer.
    UnfinishedDefault { name: Vec<char> },
}

/// In a strictly sorted list, lookup by a held name gives that element.
proof fn lemma_elem_at(elems: Seq<TupElementSpec>, i: int)
    requires
        elems_sorted(elems),
        0 <= i < elems.len(),
    ensures
        has_elem(elems, elems[i].name),
        elem_at(elems, elems[i].name) == elems[i],
{
    assert(has_elem(elems, elems[i].name));
    let k = choose|k: int| 0 <= k < elems.len() && (#[trigger] elems[k]).name == elems[i].name;
    if k != i {
        crate::order::lemma_lex_lt_irreflexive(elems[i].name);
    }
}

/// In a strictly sorted list, lookup by a held name gives that element.
proof fn lemma_type_at(elems: Seq<TupTypeSpec>, i: int)
    requires
        types_sorted(elems),
        0 <= i < elems.len(),
    ensures
        has_type(elems, elems[i].name),
        type_at(elems, elems[i].name) == elems[i],
{
    assert(has_type(elems, elems[i].name));
    let k = choose|k: int| 0 <= k < elems.len() && (#[trigger] elems[k]).name == elems[i].name;
    if k != i {
        crate::order::lemma_lex_lt_irreflexive(elems[i].name);
    }
}

/// Finds the argument supplied for a field.
fn find_elem(elems: &Vec<TupElement>, name: &Vec<char>) -> (r: Option<usize>)
    ensures
        match r {
            Some(i) => i < elems@.len() && elems_view(elems@)[i as int].name == name@,
            None => !has_elem(elems_view(elems@), name@),
        },
{
    let mut k: usize = 0;
    while k < elems.len()
        invariant
            k <= elems@.len(),
            forall|j: int| 0 <= j < k ==> (#[trigger] elems_view(elems@)[j]).name != name@,
        decreases elems@.len() - k,
    {
        if crate::chars::chars_eq(&elems[k].name, name) {
            proof {
                assert(elems_view(elems@)[k as int].name == elems@[k as int]@.name);
            }
            return Some(k);
        }
        proof {
            assert(elems_view(elems@)[k as int].name == elems@[k as int]@.name);
        }
        k = k + 1;
    }
    None
}

/// Finds the type argument supplied for a field.
fn find_type(elems: &Vec<TupType>, name: &Vec<char>) -> (r: Option<usize>)
    ensures
        match r {
            Some(i) => i < elems@.len() && types_view(elems@)[i as int].name == name@,
            None => !has_type(types_view(elems@), name@),
        },
{
    let mut k: usize = 0;
    while k < elems.len()
        invariant
            k <= elems@.len(),
            forall|j: int| 0 <= j < k ==> (#[trigger] types_view(elems@)[j]).name != name@,
        decreases elems@.len() - k,
    {
        if crate::chars::chars_eq(&elems[k].name, name) {
            proof {
                assert(types_view(elems@)[k as int].name == elems@[k as int]@.name);
            }
            return Some(k);
        }
        proof {
            assert(types_view(elems@)[k as int].name == elems@[k as int]@.name);
        }
        k = k + 1;
    }
    None
}

impl TupElementInvocation {
    /// Expands the invocation against the registry: every supplied field is
    /// matched to its registry slot, absent fields become unit slots, and an
    /// argument naming an unregistered field fails loudly.
    pub fn into_token_stream(self, registry: &Vec<Vec<char>>) -> (r: Result<Vec<char>, ExpandError>)
        requires
            elems_sorted(elems_view(self.0@)),
        ensures
            (r is Ok) <==> (forall|k: int| 0 <= k < self.0@.len()
                ==> name_known(names_view(registry@), (#[trigger] elems_view(self.0@)[k]).name)),
            match r {
                Ok(text) => text@ == spec_expr_expansion(names_view(registry@), elems_view(self.0@)),
                Err(e) => e matches ExpandError::UnknownField { name }
                    && !name_known(names_view(registry@), name@)
                    && has_elem(elems_view(self.0@), name@),
            },
    {
        let ghost ev = elems_view(self.0@);
        let ghost regv = names_view(registry@);
        // Every supplied field must be a registered one.
        let mut k: usize = 0;
        while k < self.0.len()
            invariant
                k <= self.0@.len(),
                ev == elems_view(self.0@),
                regv == names_view(registry@),
                elems_sorted(ev),
                forall|j: int| 0 <= j < k ==> name_known(regv, (#[trigger] ev[j]).name),
            decreases self.0@.len() - k,
        {
            match crate::tup_struct::find_name(registry, &self.0[k].name) {
                Some(i) => {
                    proof {
                        assert(regv[i as int] == registry@[i as int]@);
                        assert(ev[k as int].name == self.0@[k as int]@.name);
                        assert(name_known(regv, ev[k as int].name));
                    }
                },
                None => {
                    proof {
                        assert(ev[k as int].name == self.0@[k as int]@.name);
                        if name_known(regv, ev[k as int].name) {
                            let i = choose|i: int| 0 <= i < regv.len() && regv[i] == ev[
                                k as int
                            ].name;
                            assert(registry@[i]@ == regv[i]);
                            assert(false);
                        }
                        lemma_elem_at(ev, k as int);
                    }
                    return Err(
                        ExpandError::UnknownField { name: crate::chars::clone_chars(&self.0[k].name) },
                    );
                },
            }
            k = k + 1;
        }
        // One slot per registered field, in registry order.
        let ghost phantom_full = Seq::new(regv.len(), |i: int| expr_phantom_part(ev, regv[i]));
        let ghost expr_full = Seq::new(regv.len(), |i: int| expr_part(ev, regv[i]));
        let mut holes: Vec<Vec<char>> = Vec::new();
        let mut phantoms: Vec<Vec<char>> = Vec::new();
        let mut exprs: Vec<Vec<char>> = Vec::new();
        let mut i: usize = 0;
        proof {
            assert(names_view(holes@) =~= underscores(regv.len() as int).subrange(0, 0));
            assert(names_view(phantoms@) =~= phantom_full.subrange(0, 0));
            assert(names_view(exprs@) =~= expr_full.subrange(0, 0));
        }
        while i < registry.len()
            invariant
                i <= registry@.len(),
                ev == elems_view(self.0@),
                regv == names_view(registry@),
                elems_sorted(ev),
                phantom_full == Seq::new(regv.len(), |i: int| expr_phantom_part(ev, regv[i])),
                expr_full == Seq::new(regv.len(), |i: int| expr_part(ev, regv[i])),
                names_view(holes@) == underscores(regv.len() as int).subrange(0, i as int),
                names_view(phantoms@) == phantom_full.subrange(0, i as int),
                names_view(exprs@) == expr_full.subrange(0, i as int),
            decreases registry@.len() - i,
        {
            let ghost h0 = names_view(holes@);
            let ghost p0 = names_view(phantoms@);
            let ghost e0 = names_view(exprs@);
            holes.push(crate::chars::to_chars("_"));
            proof {
                assert(regv[i as int] == registry@[i as int]@);
            }
            match find_elem(&self.0, &registry[i]) {
                Some(j) => {
                    proof {
                        lemma_elem_at(ev, j as int);
                        assert(elem_at(ev, regv[i as int]) == ev[j as int]);
                        assert(ev[j as int] == self.0@[j as int]@);
                    }
                    phantoms.push(crate::chars::to_chars("named_tup::__private::Used"));
                    let part = match &self.0[j].value {
                        Some(v) => crate::chars::clone_chars(v),
                        None => crate::chars::clone_chars(&self.0[j].name),
                    };
                    exprs.push(part);
                },
                None => {
                    phantoms.push(crate::chars::to_chars("named_tup::__private::Unused"));
                    exprs.push(crate::chars::to_chars("()"));
                },
            }
            proof {
                assert(names_view(holes@) =~= h0.push("_"@));
                assert(underscores(regv.len() as int).subrange(0, i as int + 1)
                    =~= underscores(regv.len() as int).subrange(0, i as int).push("_"@));
                assert(names_view(phantoms@) =~= p0.push(phantom_full[i as int]));
                assert(phantom_full.subrange(0, i as int + 1) =~= phantom_full.subrange(
                    0,
                    i as int,
                ).push(phantom_full[i as int]));
                assert(names_view(exprs@) =~= e0.push(expr_full[i as int]));
                assert(expr_full.subrange(0, i as int + 1) =~= expr_full.subrange(0, i as int).push(
                    expr_full[i as int],
                ));
            }
            i = i + 1;
        }
        proof {
            assert(underscores(regv.len() as int).subrange(0, i as int) =~= underscores(
                regv.len() as int,
            ));
            assert(phantom_full.subrange(0, i as int) =~= phantom_full);
            assert(expr_full.subrange(0, i as int) =~= expr_full);
        }
        let mut out = crate::chars::to_chars("named_tup::__private::Tup::<");
        let mut part = crate::chars::join_parts(&holes, ", ");
        out.append(&mut part);
        let mut sep = crate::chars::to_chars(", ");
        out.append(&mut sep);
        let mut part2 = crate::chars::join_parts(&phantoms, ", ");
        out.append(&mut part2);
        let mut mid = crate::chars::to_chars(">::new(");
        out.append(&mut mid);
        let mut part3 = crate::chars::join_parts(&exprs, ", ");
        out.append(&mut part3);
        let mut tail = crate::chars::to_chars(")");
        out.append(&mut tail);
        proof {
            assert(out@ =~= spec_expr_expansion(regv, ev));
        }
        Ok(out)
    }
}

impl TupTypeInvocation {
    /// Expands the invocation against the registry: every supplied field is
    /// matched to its registry slot, absent fields become unit slots, an
    /// argument naming an unregistered field fails loudly, and an inline
    /// default that was never lowered to a rule item is refused.
    pub fn into_token_stream(self, registry: &Vec<Vec<char>>) -> (r: Result<Vec<char>, ExpandError>)
        requires
            types_sorted(types_view(self.0@)),
        ensures
            (r is Ok) <==> ((forall|k: int| 0 <= k < self.0@.len()
                ==> name_known(names_view(registry@), (#[trigger] types_view(self.0@)[k]).name))
                && (forall|k: int| 0 <= k < self.0@.len()
                    ==> !((#[trigger] types_view(self.0@)[k]).default is Unfinished))),
            match r {
                Ok(text) => text@ == spec_type_expansion(names_view(registry@), types_view(self.0@)),
                Err(e) => match e {
                    ExpandError::UnknownField { name } => !name_known(
                        names_view(registry@),
                        name@,
                    ) && has_type(types_view(self.0@), name@),
                    ExpandError::UnfinishedDefault { name } => exists|k: int|
                        0 <= k < self.0@.len()
                        && (#[trigger] types_view(self.0@)[k]).name == name@
                        && types_view(self.0@)[k].default is Unfinished,
                },
            },
    {
        let ghost ev = types_view(self.0@);
        let ghost regv = names_view(registry@);
        // Every supplied field must be registered, and every default
        // already lowered.
        let mut k: usize = 0;
        while k < self.0.len()
            invariant
                k <= self.0@.len(),
                ev == types_view(self.0@),
                regv == names_view(registry@),
                types_sorted(ev),
                forall|j: int| 0 <= j < k ==> name_known(regv, (#[trigger] ev[j]).name),
                forall|j: int| 0 <= j < k ==> !((#[trigger] ev[j]).default is Unfinished),
            decreases self.0@.len() - k,
        {
            proof {
                assert(ev[k as int] == self.0@[k as int]@);
            }
            match crate::tup_struct::find_name(registry, &self.0[k].name) {
                Some(i) => {
                    proof {
                        assert(regv[i as int] == registry@[i as int]@);
                        assert(name_known(regv, ev[k as int].name));
                    }
                },
                None => {
                    proof {
                        if name_known(regv, ev[k as int].name) {
                            let i = choose|i: int| 0 <= i < regv.len() && regv[i] == ev[
                                k as int
                            ].name;
                            assert(registry@[i]@ == regv[i]);
                            assert(false);
                        }
                        lemma_type_at(ev, k as int);
                    }
                    return Err(
                        ExpandError::UnknownField { name: crate::chars::clone_chars(&self.0[k].name) },
                    );
                },
            }
            if matches!(&self.0[k].default, TupDefault::Unfinished { .. }) {
                return Err(
                    ExpandError::UnfinishedDefault { name: crate::chars::clone_chars(&self.0[k].name) },
                );
            }
            k = k + 1;
        }
        // One slot per registered field, in registry order.
        let ghost type_full = Seq::new(regv.len(), |i: int| type_part(ev, regv[i]));
        let ghost phantom_full = Seq::new(regv.len(), |i: int| type_phantom_part(ev, regv[i]));
        let mut types: Vec<Vec<char>> = Vec::new();
        let mut phantoms: Vec<Vec<char>> = Vec::new();
        let mut i: usize = 0;
        proof {
            assert(names_view(types@) =~= type_full.subrange(0, 0));
            assert(names_view(phantoms@) =~= phantom_full.subrange(0, 0));
        }
        while i < registry.len()
            invariant
                i <= registry@.len(),
                ev == types_view(self.0@),
                regv == names_view(registry@),
                types_sorted(ev),
                forall|j: int| 0 <= j < ev.len() ==> !((#[trigger] ev[j]).default is Unfinished),
                type_full == Seq::new(regv.len(), |i: int| type_part(ev, regv[i])),
                phantom_full == Seq::new(regv.len(), |i: int| type_phantom_part(ev, regv[i])),
                names_view(types@) == type_full.subrange(0, i as int),
                names_view(phantoms@) == phantom_full.subrange(0, i as int),
            decreases registry@.len() - i,
        {
            let ghost t0 = names_view(types@);
            let ghost p0 = names_view(phantoms@);
            proof {
                assert(regv[i as int] == registry@[i as int]@);
            }
            match find_type(&self.0, &registry[i]) {
                Some(j) => {
                    proof {
                        lemma_type_at(ev, j as int);
                        assert(type_at(ev, regv[i as int]) == ev[j as int]);
                        assert(ev[j as int] == self.0@[j as int]@);
                    }
                    types.push(crate::chars::clone_chars(&self.0[j].value));
                    let part = match &self.0[j].default {
                        TupDefault::Absent => crate::chars::to_chars("named_tup::__private::Used"),
                        TupDefault::Finished { id } => crate::chars::clone_chars(id),
                        TupDefault::Unfinished { .. } => crate::chars::to_chars(
                            "named_tup::__private::Used",
                        ),
                    };
                    phantoms.push(part);
                },
                None => {
                    types.push(crate::chars::to_chars("()"));
                    phantoms.push(crate::chars::to_chars("named_tup::__private::Unused"));
                },
            }
            proof {
                assert(names_view(types@) =~= t0.push(type_full[i as int]));
                assert(type_full.subrange(0, i as int + 1) =~= type_full.subrange(0, i as int).push(
                    type_full[i as int],
                ));
                assert(names_view(phantoms@) =~= p0.push(phantom_full[i as int]));
                assert(phantom_full.subrange(0, i as int + 1) =~= phantom_full.subrange(
                    0,
                    i as int,
                ).push(phantom_full[i as int]));
            }
            i = i + 1;
        }
        proof {
            assert(type_full.subrange(0, i as int) =~= type_full);
            assert(phantom_full.subrange(0, i as int) =~= phantom_full);
        }
        let mut out = crate::chars::to_chars("named_tup::__private::Tup::<");
        let mut part = crate::chars::join_parts(&types, ", ");
        out.append(&mut part);
        let mut sep = crate::chars::to_chars(", ");
        out.append(&mut sep);
        let mut part2 = crate::chars::join_parts(&phantoms, ", ");
        out.append(&mut part2);
        let mut tail = crate::chars::to_chars(">");
        out.append(&mut tail);
        proof {
            assert(out@ =~= spec_type_expansion(regv, ev));
        }
        Ok(out)
    }
}

} // verus!
