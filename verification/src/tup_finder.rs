//! The identifier scanner.
//!
//! Walks source text for `tup!(...)` and `Tup!(...)` invocations, parses
//! each argument list under the invocation grammar, and collects every
//! field name seen anywhere in the project. A file (or an argument list)
//! that does not parse contributes nothing; the scan never fails on it.

use vstd::prelude::*;
use crate::chars::{clone_chars, to_chars};
use crate::order::canon_sorted;
use crate::token::{
    Token, TokenKind, punct_is, punct2_is, spec_ident_is, spec_punct_is, spec_punct2_is,
    spec_tokenize, token_wf, tokens_wf, tokenize,
};
use crate::tup_element::valid_ident;
use crate::tup_invocation::{
    Invocation, elem_names_unique, elems_view, parse_invocation, spec_parse_element_list,
    spec_parse_type_list, type_names_unique, types_view,
};
use crate::tup_struct::{find_name, names_view};
use core::cmp::Ordering;

verus! {

/// All names in the list are valid identifiers.
pub open spec fn all_idents(names: Seq<Seq<char>>) -> bool {
    forall|i: int| 0 <= i < names.len() ==> valid_ident(#[trigger] names[i])
}

/// Position `i` of the token row heads a recognized invocation: a
/// single-segment `tup` or `Tup` path (no leading `::`) followed by `!` and
/// an opening bracket.
pub open spec fn spec_macro_head(input: Seq<char>, toks: Seq<Token>, i: int) -> bool {
    &&& 0 <= i
    &&& i + 2 < toks.len()
    &&& (spec_ident_is(input, toks[i], "tup"@) || spec_ident_is(input, toks[i], "Tup"@))
    &&& (i == 0 || !spec_punct2_is(input, toks[i - 1], ':', ':'))
    &&& spec_punct_is(input, toks[i + 1], '!')
    &&& toks[i + 2].kind == TokenKind::Open
}

/// The position of the close bracket matching the open bracket just before
/// position `i`, with `depth` brackets still open; nothing for an
/// unbalanced row.
pub open spec fn spec_matching_close(toks: Seq<Token>, i: int, depth: int) -> Option<int>
    decreases toks.len() - i,
{
    if i < 0 || i >= toks.len() {
        None
    } else if toks[i].kind == TokenKind::Open {
        spec_matching_close(toks, i + 1, depth + 1)
    } else if toks[i].kind == TokenKind::Close {
        if depth == 0 {
            Some(i)
        } else {
            spec_matching_close(toks, i + 1, depth - 1)
        }
    } else {
        spec_matching_close(toks, i + 1, depth)
    }
}

/// The argument names of one recognized invocation's bracketed group, under
/// the grammar the disambiguation commits to; nothing when neither grammar
/// fits the group or a field name repeats.
pub open spec fn spec_invocation_names(input: Seq<char>, group: Seq<Token>) -> Option<
    Seq<Seq<char>>,
> {
    let tl = spec_parse_type_list(input, group, 0);
    let el = spec_parse_element_list(input, group, 0);
    if tl is Some && type_names_unique(tl->Some_0) {
        Some(Seq::new(tl->Some_0.len(), |k: int| tl->Some_0[k].name))
    } else if el is Some && elem_names_unique(el->Some_0) {
        Some(Seq::new(el->Some_0.len(), |k: int| el->Some_0[k].name))
    } else {
        None
    }
}

/// The argument names the recognized invocation heading at position `i`
/// contributes; nothing when no recognized invocation heads there.
pub open spec fn spec_macro_names_at(input: Seq<char>, toks: Seq<Token>, i: int) -> Option<
    Seq<Seq<char>>,
> {
    if spec_macro_head(input, toks, i) {
        match spec_matching_close(toks, i + 3, 0) {
            Some(close) => spec_invocation_names(input, toks.subrange(i + 3, close)),
            None => None,
        }
    } else {
        None
    }
}

/// The name stands as an argument of a recognized invocation heading below
/// position `bound`.
pub open spec fn prefix_has_name(input: Seq<char>, toks: Seq<Token>, bound: int, y: Seq<char>) -> bool {
    exists|i: int| i < bound && ((#[trigger] spec_macro_names_at(input, toks, i)) matches Some(ns)
        && ns.contains(y))
}

/// The name stands as an argument of a recognized invocation somewhere in
/// the text; a text that does not lex holds none.
pub open spec fn file_has_name(input: Seq<char>, y: Seq<char>) -> bool {
    match spec_tokenize(input) {
        Some(toks) => prefix_has_name(input, toks, toks.len() as int, y),
        None => false,
    }
}

/// The name stands in one of the given texts.
pub open spec fn some_file_has_name(files: Seq<Vec<char>>, bound: int, y: Seq<char>) -> bool {
    exists|f: int| 0 <= f < bound && file_has_name((#[trigger] files[f])@, y)
}

/// Finds the index of the close bracket matching the open bracket at
/// `from`, exactly as `spec_matching_close` gives it.
fn matching_close(toks: &Vec<Token>, from: usize) -> (r: Option<usize>)
    requires
        from < toks@.len(),
    ensures
        match r {
            Some(j) => from < j < toks@.len() && spec_matching_close(toks@, from as int + 1, 0)
                == Some(j as int),
            None => spec_matching_close(toks@, from as int + 1, 0) is None,
        },
{
    let n = toks.len();
    let mut i = from + 1;
    let mut depth: usize = 0;
    while i < n
        invariant
            from < i <= n,
            n == toks@.len(),
            depth <= i - from - 1,
            spec_matching_close(toks@, from as int + 1, 0) == spec_matching_close(
                toks@,
                i as int,
                depth as int,
            ),
        decreases n - i,
    {
        if matches!(toks[i].kind, TokenKind::Open) {
            depth = depth + 1;
        } else if matches!(toks[i].kind, TokenKind::Close) {
            if depth == 0 {
                return Some(i);
            }
            depth = depth - 1;
        }
        i = i + 1;
    }
    None
}

/// Adds a name to the collection if it is not there yet.
fn insert_name(acc: &mut Vec<Vec<char>>, name: Vec<char>)
    requires
        all_idents(names_view(old(acc)@)),
        valid_ident(name@),
    ensures
        all_idents(names_view(final(acc)@)),
        forall|y: Seq<char>| #[trigger] names_view(final(acc)@).contains(y)
            <==> (names_view(old(acc)@).contains(y) || y == name@),
{
    let ghost before = names_view(acc@);
    match find_name(acc, &name) {
        Some(i) => {
            proof {
                assert(names_view(acc@)[i as int] == acc@[i as int]@);
                assert(names_view(acc@).contains(name@));
                assert forall|y: Seq<char>| #[trigger] names_view(acc@).contains(y)
                    implies (before.contains(y) || y == name@) by {
                }
            }
        },
        None => {
            acc.push(name);
            proof {
                assert(names_view(acc@) =~= before.push(name@));
                assert forall|y: Seq<char>| #[trigger] names_view(acc@).contains(y)
                    implies (before.contains(y) || y == name@) by {
                    let i = choose|i: int| 0 <= i < names_view(acc@).len() && names_view(
                        acc@,
                    )[i] == y;
                    if i < before.len() {
                        assert(before[i] == y);
                    }
                }
                assert forall|y: Seq<char>| before.contains(y) || y == name@
                    implies #[trigger] names_view(acc@).contains(y) by {
                    if before.contains(y) {
                        let i = choose|i: int| 0 <= i < before.len() && before[i] == y;
                        assert(names_view(acc@)[i] == y);
                    } else {
                        assert(names_view(acc@)[before.len() as int] == y);
                    }
                }
                assert forall|i: int| 0 <= i < names_view(acc@).len() implies
                    valid_ident(#[trigger] names_view(acc@)[i]) by {
                    if i < before.len() {
                        assert(before[i] == names_view(acc@)[i]);
                    }
                }
            }
        },
    }
}

/// Visits every macro call of one tokenized file: a single-segment `tup` or
/// `Tup` path followed by `!` and a bracketed argument list. The collection
/// afterwards holds a name precisely when it held it before or a recognized
/// invocation of this file supplies it; an argument list that does not
/// parse is skipped.
#[verifier::rlimit(100)]
fn visit_macros(input: &Vec<char>, toks: &Vec<Token>, acc: &mut Vec<Vec<char>>)
    requires
        tokens_wf(toks@, input@),
        all_idents(names_view(old(acc)@)),
    ensures
        all_idents(names_view(final(acc)@)),
        forall|y: Seq<char>| #[trigger] names_view(final(acc)@).contains(y)
            <==> names_view(old(acc)@).contains(y) || prefix_has_name(
                input@,
                toks@,
                toks@.len() as int,
                y,
            ),
{
    let tup_word = to_chars("tup");
    let tup_type_word = to_chars("Tup");
    let n = toks.len();
    let mut i: usize = 0;
    proof {
        assert forall|ii: int| ii < 0 implies
            spec_macro_names_at(input@, toks@, ii) is None by {
        }
    }
    while i < n
        invariant
            i <= n,
            n == toks@.len(),
            tokens_wf(toks@, input@),
            tup_word@ == "tup"@,
            tup_type_word@ == "Tup"@,
            all_idents(names_view(acc@)),
            forall|y: Seq<char>| #[trigger] names_view(acc@).contains(y)
                <==> names_view(old(acc)@).contains(y) || prefix_has_name(
                    input@,
                    toks@,
                    i as int,
                    y,
                ),
        decreases n - i,
    {
        let ghost acc0 = names_view(acc@);
        let ghost mna = spec_macro_names_at(input@, toks@, i as int);
        proof {
            assert(token_wf(toks@[i as int], input@));
        }
        let is_macro_name = {
            proof {
                assert(token_wf(toks@[i as int], input@));
            }
            crate::token::ident_is(input, &toks[i], &tup_word) || crate::token::ident_is(
                input,
                &toks[i],
                &tup_type_word,
            )
        };
        let preceded_by_path = if i > 0 {
            proof {
                assert(token_wf(toks@[i - 1 as int], input@));
            }
            punct2_is(input, &toks[i - 1], ':', ':')
        } else {
            false
        };
        if is_macro_name && !preceded_by_path && n - i > 2 {
            proof {
                assert(token_wf(toks@[i + 1 as int], input@));
            }
            if punct_is(input, &toks[i + 1], '!') && matches!(toks[i + 2].kind, TokenKind::Open) {
                match matching_close(toks, i + 2) {
                    Some(close) => {
                        let mut group: Vec<Token> = Vec::new();
                        let mut k = i + 3;
                        while k < close
                            invariant
                                i + 3 <= k <= close,
                                close < toks@.len(),
                                tokens_wf(toks@, input@),
                                group@.len() == k - (i + 3),
                                forall|m: int| 0 <= m < group@.len()
                                    ==> #[trigger] group@[m] == toks@[i + 3 + m],
                            decreases close - k,
                        {
                            group.push(toks[k]);
                            k = k + 1;
                        }
                        proof {
                            assert(group@ =~= toks@.subrange(i + 3, close as int));
                            assert forall|m: int| 0 <= m < group@.len() implies
                                token_wf(#[trigger] group@[m], input@) by {
                                assert(group@[m] == toks@[i + 3 + m]);
                            }
                            assert forall|a2: int, b2: int| 0 <= a2 < b2 < group@.len() implies
                                (#[trigger] group@[a2]).end <= (#[trigger] group@[b2]).start by {
                                assert(group@[a2] == toks@[i + 3 + a2]);
                                assert(group@[b2] == toks@[i + 3 + b2]);
                            }
                            assert(spec_macro_head(input@, toks@, i as int));
                        }
                        match parse_invocation(input, &group) {
                            Ok(Invocation::Expr(inv)) => {
                                let ghost l = spec_parse_element_list(input@, group@, 0)->Some_0;
                                let ghost ns = Seq::new(l.len(), |q: int| l[q].name);
                                proof {
                                    assert(mna == Some(ns));
                                }
                                let mut m: usize = 0;
                                while m < inv.0.len()
                                    invariant
                                        m <= inv.0@.len(),
                                        all_idents(names_view(acc@)),
                                        forall|q: int| 0 <= q < inv.0@.len()
                                            ==> valid_ident(
                                            (#[trigger] elems_view(inv.0@)[q]).name,
                                        ),
                                        forall|y: Seq<char>| #[trigger] names_view(
                                            acc@,
                                        ).contains(y) <==> acc0.contains(y) || exists|q: int|
                                            0 <= q < m && (#[trigger] elems_view(
                                            inv.0@,
                                        )[q]).name == y,
                                    decreases inv.0@.len() - m,
                                {
                                    proof {
                                        assert(elems_view(inv.0@)[m as int].name == inv.0@[
                                            m as int
                                        ]@.name);
                                    }
                                    insert_name(acc, clone_chars(&inv.0[m].name));
                                    proof {
                                        assert forall|y: Seq<char>| #[trigger] names_view(
                                            acc@,
                                        ).contains(y) implies acc0.contains(y) || exists|q: int|
                                            0 <= q < m + 1 && (#[trigger] elems_view(
                                            inv.0@,
                                        )[q]).name == y by {
                                            if !acc0.contains(y) {
                                                if y == elems_view(inv.0@)[m as int].name {
                                                    assert(0 <= m < m + 1 && elems_view(
                                                        inv.0@,
                                                    )[m as int].name == y);
                                                } else {
                                                    let q = choose|q: int| 0 <= q < m
                                                        && (#[trigger] elems_view(
                                                        inv.0@,
                                                    )[q]).name == y;
                                                    assert(0 <= q < m + 1);
                                                }
                                            }
                                        }
                                    }
                                    m = m + 1;
                                }
                                proof {
                                    // The inserted names are exactly the invocation's names.
                                    assert forall|y: Seq<char>| #[trigger] names_view(
                                        acc@,
                                    ).contains(y) <==> acc0.contains(y) || ns.contains(y) by {
                                        let iv = elems_view(inv.0@);
                                        if names_view(acc@).contains(y) && !acc0.contains(y) {
                                            let q = choose|q: int| 0 <= q < iv.len()
                                                && (#[trigger] iv[q]).name == y;
                                            assert(iv.contains(iv[q]));
                                            assert(l.contains(iv[q]));
                                            let k2 = choose|k2: int| 0 <= k2 < l.len()
                                                && #[trigger] l[k2] == iv[q];
                                            assert(ns[k2] == y);
                                            assert(ns.contains(y));
                                        }
                                        if ns.contains(y) {
                                            let k2 = choose|k2: int| 0 <= k2 < ns.len()
                                                && #[trigger] ns[k2] == y;
                                            assert(l[k2].name == y);
                                            assert(l.contains(l[k2]));
                                            assert(iv.contains(l[k2]));
                                            let q = choose|q: int| 0 <= q < iv.len()
                                                && #[trigger] iv[q] == l[k2];
                                            assert(iv[q].name == y);
                                        }
                                    }
                                }
                            },
                            Ok(Invocation::Type(inv)) => {
                                let ghost l = spec_parse_type_list(input@, group@, 0)->Some_0;
                                let ghost ns = Seq::new(l.len(), |q: int| l[q].name);
                                proof {
                                    assert(mna == Some(ns));
                                }
                                let mut m: usize = 0;
                                while m < inv.0.len()
                                    invariant
                                        m <= inv.0@.len(),
                                        all_idents(names_view(acc@)),
                                        forall|q: int| 0 <= q < inv.0@.len()
                                            ==> valid_ident(
                                            (#[trigger] types_view(inv.0@)[q]).name,
                                        ),
                                        forall|y: Seq<char>| #[trigger] names_view(
                                            acc@,
                                        ).contains(y) <==> acc0.contains(y) || exists|q: int|
                                            0 <= q < m && (#[trigger] types_view(
                                            inv.0@,
                                        )[q]).name == y,
                                    decreases inv.0@.len() - m,
                                {
                                    proof {
                                        assert(types_view(inv.0@)[m as int].name == inv.0@[
                                            m as int
                                        ]@.name);
                                    }
                                    insert_name(acc, clone_chars(&inv.0[m].name));
                                    proof {
                                        assert forall|y: Seq<char>| #[trigger] names_view(
                                            acc@,
                                        ).contains(y) implies acc0.contains(y) || exists|q: int|
                                            0 <= q < m + 1 && (#[trigger] types_view(
                                            inv.0@,
                                        )[q]).name == y by {
                                            if !acc0.contains(y) {
                                                if y == types_view(inv.0@)[m as int].name {
                                                    assert(0 <= m < m + 1 && types_view(
                                                        inv.0@,
                                                    )[m as int].name == y);
                                                } else {
                                                    let q = choose|q: int| 0 <= q < m
                                                        && (#[trigger] types_view(
                                                        inv.0@,
                                                    )[q]).name == y;
                                                    assert(0 <= q < m + 1);
                                                }
                                            }
                                        }
                                    }
                                    m = m + 1;
                                }
                                proof {
                                    assert forall|y: Seq<char>| #[trigger] names_view(
                                        acc@,
                                    ).contains(y) <==> acc0.contains(y) || ns.contains(y) by {
                                        let iv = types_view(inv.0@);
                                        if names_view(acc@).contains(y) && !acc0.contains(y) {
                                            let q = choose|q: int| 0 <= q < iv.len()
                                                && (#[trigger] iv[q]).name == y;
                                            assert(iv.contains(iv[q]));
                                            assert(l.contains(iv[q]));
                                            let k2 = choose|k2: int| 0 <= k2 < l.len()
                                                && #[trigger] l[k2] == iv[q];
                                            assert(ns[k2] == y);
                                            assert(ns.contains(y));
                                        }
                                        if ns.contains(y) {
                                            let k2 = choose|k2: int| 0 <= k2 < ns.len()
                                                && #[trigger] ns[k2] == y;
                                            assert(l[k2].name == y);
                                            assert(l.contains(l[k2]));
                                            assert(iv.contains(l[k2]));
                                            let q = choose|q: int| 0 <= q < iv.len()
                                                && #[trigger] iv[q] == l[k2];
                                            assert(iv[q].name == y);
                                        }
                                    }
                                }
                            },
                            Err(_) => {
                                proof {
                                    assert(mna is None);
                                }
                            },
                        }
                    },
                    None => {
                        proof {
                            assert(mna is None);
                        }
                    },
                }
            } else {
                proof {
                    assert(!spec_macro_head(input@, toks@, i as int));
                    assert(mna is None);
                }
            }
        } else {
            proof {
                assert(!spec_macro_head(input@, toks@, i as int));
                assert(mna is None);
            }
        }
        proof {
            assert forall|y: Seq<char>| #[trigger] names_view(acc@).contains(y)
                <==> names_view(old(acc)@).contains(y) || prefix_has_name(
                    input@,
                    toks@,
                    i as int + 1,
                    y,
                ) by {
                if names_view(acc@).contains(y) {
                    if !names_view(old(acc)@).contains(y) {
                        if acc0.contains(y) {
                            assert(prefix_has_name(input@, toks@, i as int, y));
                            let w = choose|w: int| w < i as int && ((#[trigger] spec_macro_names_at(
                                input@,
                                toks@,
                                w,
                            )) matches Some(ns2) && ns2.contains(y));
                            assert(w < i as int + 1);
                        } else {
                            assert(mna matches Some(ns2) && ns2.contains(y));
                            assert(prefix_has_name(input@, toks@, i as int + 1, y));
                        }
                    }
                }
                if prefix_has_name(input@, toks@, i as int + 1, y) {
                    let w = choose|w: int| w < i as int + 1 && ((#[trigger] spec_macro_names_at(
                        input@,
                        toks@,
                        w,
                    )) matches Some(ns2) && ns2.contains(y));
                    if w < i as int {
                        assert(prefix_has_name(input@, toks@, i as int, y));
                        assert(acc0.contains(y) || names_view(old(acc)@).contains(y));
                        assert(names_view(acc@).contains(y));
                    } else {
                        assert(mna matches Some(ns2) && ns2.contains(y));
                        assert(names_view(acc@).contains(y));
                    }
                }
                if names_view(old(acc)@).contains(y) {
                    assert(acc0.contains(y));
                    assert(names_view(acc@).contains(y));
                }
            }
        }
        i = i + 1;
    }
}

/// Whether the token at `i` is the given identifier word.
fn ident_is_word(input: &Vec<char>, toks: &Vec<Token>, i: usize, word: &Vec<char>) -> (r: bool)
    requires
        tokens_wf(toks@, input@),
        i < toks@.len(),
    ensures
        true,
{
    proof {
        assert(token_wf(toks@[i as int], input@));
    }
    crate::token::ident_is(input, &toks[i], word)
}

/// Sorts a collection of names into the canonical order, deduplicated,
/// holding exactly the collected names. This is also the path for a field
/// universe declared explicitly rather than discovered by the scan.
pub fn sort_names(v: Vec<Vec<char>>) -> (r: Vec<Vec<char>>)
    ensures
        canon_sorted(names_view(r@)),
        forall|y: Seq<char>| #[trigger] names_view(r@).contains(y)
            <==> names_view(v@).contains(y),
        all_idents(names_view(v@)) ==> all_idents(names_view(r@)),
{
    let ghost ev = names_view(v@);
    let mut out: Vec<Vec<char>> = Vec::new();
    let mut k: usize = 0;
    proof {
        assert(ev.subrange(0, 0) =~= Seq::<Seq<char>>::empty());
    }
    while k < v.len()
        invariant
            k <= v@.len(),
            ev == names_view(v@),
            canon_sorted(names_view(out@)),
            forall|y: Seq<char>| #[trigger] names_view(out@).contains(y)
                <==> ev.subrange(0, k as int).contains(y),
        decreases v@.len() - k,
    {
        let x = clone_chars(&v[k]);
        let ghost xv = x@;
        proof {
            assert(xv == ev[k as int]);
        }
        let mut j: usize = 0;
        let mut dup = false;
        loop
            invariant_except_break
                !dup,
            invariant
                j <= out@.len(),
                ev == names_view(v@),
                xv == ev[k as int],
                x@ == xv,
                k < v@.len(),
                canon_sorted(names_view(out@)),
                forall|y: Seq<char>| #[trigger] names_view(out@).contains(y)
                    <==> ev.subrange(0, k as int).contains(y),
                forall|m: int| 0 <= m < j
                    ==> crate::order::canon_lt(#[trigger] names_view(out@)[m], xv),
            ensures
                j <= out@.len(),
                forall|m: int| 0 <= m < j
                    ==> crate::order::canon_lt(#[trigger] names_view(out@)[m], xv),
                !dup ==> (j == out@.len() || crate::order::canon_lt(
                    xv,
                    names_view(out@)[j as int],
                )),
                dup ==> j < out@.len() && names_view(out@)[j as int] == xv,
            decreases out@.len() - j,
        {
            if j == out.len() {
                break;
            }
            match crate::order::canon_cmp(&out[j], &x) {
                Ordering::Less => {
                    proof {
                        assert(names_view(out@)[j as int] == out@[j as int]@);
                    }
                    j = j + 1;
                },
                Ordering::Equal => {
                    proof {
                        assert(names_view(out@)[j as int] == out@[j as int]@);
                    }
                    dup = true;
                    break;
                },
                Ordering::Greater => {
                    proof {
                        assert(names_view(out@)[j as int] == out@[j as int]@);
                    }
                    break;
                },
            }
        }
        if dup {
            proof {
                assert(names_view(out@).contains(xv));
                assert forall|y: Seq<char>| #[trigger] names_view(out@).contains(y)
                    <==> ev.subrange(0, k as int + 1).contains(y) by {
                    if ev.subrange(0, k as int + 1).contains(y) {
                        let i0 = choose|i0: int| 0 <= i0 < k + 1
                            && #[trigger] ev.subrange(0, k as int + 1)[i0] == y;
                        if i0 < k {
                            assert(ev.subrange(0, k as int)[i0] == y);
                        } else {
                            assert(y == xv);
                        }
                    }
                    if names_view(out@).contains(y) {
                        assert(ev.subrange(0, k as int).contains(y));
                        let i0 = choose|i0: int| 0 <= i0 < k
                            && #[trigger] ev.subrange(0, k as int)[i0] == y;
                        assert(ev.subrange(0, k as int + 1)[i0] == y);
                    }
                }
            }
        } else {
            proof {
                let ov = names_view(out@);
                ov.insert_ensures(j as int, xv);
                let nv = ov.insert(j as int, xv);
                assert forall|a: int, b: int| 0 <= a < b < nv.len() implies
                    crate::order::canon_lt(#[trigger] nv[a], #[trigger] nv[b]) by {
                    if b < j {
                        assert(nv[a] == ov[a] && nv[b] == ov[b]);
                    } else if a > j {
                        assert(nv[a] == ov[a - 1] && nv[b] == ov[b - 1]);
                    } else if a == j {
                        assert(nv[a] == xv && nv[b] == ov[b - 1]);
                        if j < out@.len() {
                            assert(crate::order::canon_lt(xv, ov[j as int]));
                            if b - 1 > j {
                                crate::order::lemma_lex_lt_transitive(
                                    ov[b - 1],
                                    ov[j as int],
                                    xv,
                                );
                            }
                        }
                    } else if b == j {
                        assert(nv[a] == ov[a] && nv[b] == xv);
                        assert(crate::order::canon_lt(ov[a], xv));
                    } else {
                        assert(nv[a] == ov[a] && nv[b] == ov[b - 1]);
                        assert(a < b - 1);
                        assert(crate::order::canon_lt(ov[a], ov[b - 1]));
                    }
                }
            }
            let ghost ov = names_view(out@);
            out.insert(j, x);
            proof {
                assert(names_view(out@) =~= ov.insert(j as int, xv));
                assert forall|y: Seq<char>| #[trigger] names_view(out@).contains(y) implies
                    ev.subrange(0, k as int + 1).contains(y) by {
                    crate::tup_invocation::lemma_insert_contains(ov, j as int, xv, y);
                    if y == xv {
                        assert(ev.subrange(0, k as int + 1)[k as int] == y);
                    } else {
                        assert(ov.contains(y));
                        assert(ev.subrange(0, k as int).contains(y));
                        let i0 = choose|i0: int| 0 <= i0 < k
                            && #[trigger] ev.subrange(0, k as int)[i0] == y;
                        assert(ev.subrange(0, k as int + 1)[i0] == y);
                    }
                }
                assert forall|y: Seq<char>| #[trigger] ev.subrange(0, k as int + 1).contains(y)
                    implies names_view(out@).contains(y) by {
                    let i0 = choose|i0: int|
                        0 <= i0 < k + 1 && #[trigger] ev.subrange(0, k as int + 1)[i0] == y;
                    crate::tup_invocation::lemma_insert_contains(ov, j as int, xv, y);
                    if i0 < k {
                        assert(ev.subrange(0, k as int)[i0] == y);
                        assert(ev.subrange(0, k as int).contains(y));
                    } else {
                        assert(y == xv);
                    }
                }
            }
        }
        k = k + 1;
    }
    proof {
        assert(ev.subrange(0, k as int) =~= ev);
        if all_idents(ev) {
            assert forall|i: int| 0 <= i < names_view(out@).len() implies
                valid_ident(#[trigger] names_view(out@)[i]) by {
                assert(names_view(out@).contains(names_view(out@)[i]));
                assert(ev.contains(names_view(out@)[i]));
                let i0 = choose|i0: int| 0 <= i0 < ev.len() && ev[i0] == names_view(out@)[i];
                assert(valid_ident(ev[i0]));
            }
        }
    }
    out
}

/// The scanner's whole contract: given every source file's text, the
/// deduplicated field-name universe, in the canonical order. The result
/// holds a name precisely when some file's text carries a recognized
/// `tup!`/`Tup!` invocation supplying it: nothing is invented and nothing
/// recognized is lost. A file that does not lex, and an argument list that
/// does not parse, contribute nothing; the scan itself never fails.
pub fn get_all_identifiers(files: &Vec<Vec<char>>) -> (r: Vec<Vec<char>>)
    ensures
        canon_sorted(names_view(r@)),
        all_idents(names_view(r@)),
        forall|y: Seq<char>| #[trigger] names_view(r@).contains(y) <==> some_file_has_name(
            files@,
            files@.len() as int,
            y,
        ),
{
    let mut acc: Vec<Vec<char>> = Vec::new();
    let mut f: usize = 0;
    proof {
        assert(names_view(acc@) =~= Seq::<Seq<char>>::empty());
    }
    while f < files.len()
        invariant
            f <= files@.len(),
            all_idents(names_view(acc@)),
            forall|y: Seq<char>| #[trigger] names_view(acc@).contains(y) <==> some_file_has_name(
                files@,
                f as int,
                y,
            ),
        decreases files@.len() - f,
    {
        let ghost acc0 = names_view(acc@);
        match tokenize(&files[f]) {
            Ok(toks) => {
                visit_macros(&files[f], &toks, &mut acc);
                proof {
                    assert(spec_tokenize(files@[f as int]@) == Some(toks@));
                    assert forall|y: Seq<char>| #[trigger] names_view(acc@).contains(y)
                        <==> some_file_has_name(files@, f as int + 1, y) by {
                        if names_view(acc@).contains(y) {
                            if acc0.contains(y) {
                                let g = choose|g: int|
                                    0 <= g < f && file_has_name((#[trigger] files@[g])@, y);
                                assert(0 <= g < f + 1 && file_has_name(files@[g]@, y));
                            } else {
                                assert(prefix_has_name(
                                    files@[f as int]@,
                                    toks@,
                                    toks@.len() as int,
                                    y,
                                ));
                                assert(file_has_name(files@[f as int]@, y));
                            }
                        }
                        if some_file_has_name(files@, f as int + 1, y) {
                            let g = choose|g: int|
                                0 <= g < f + 1 && file_has_name((#[trigger] files@[g])@, y);
                            if g < f {
                                assert(some_file_has_name(files@, f as int, y));
                                assert(acc0.contains(y));
                            } else {
                                assert(file_has_name(files@[f as int]@, y));
                                assert(prefix_has_name(
                                    files@[f as int]@,
                                    toks@,
                                    toks@.len() as int,
                                    y,
                                ));
                            }
                            assert(names_view(acc@).contains(y));
                        }
                    }
                }
            },
            Err(_) => {
                proof {
                    assert(spec_tokenize(files@[f as int]@) is None);
                    assert forall|y: Seq<char>| #[trigger] names_view(acc@).contains(y)
                        <==> some_file_has_name(files@, f as int + 1, y) by {
                        if names_view(acc@).contains(y) {
                            let g = choose|g: int|
                                0 <= g < f && file_has_name((#[trigger] files@[g])@, y);
                            assert(0 <= g < f + 1 && file_has_name(files@[g]@, y));
                        }
                        if some_file_has_name(files@, f as int + 1, y) {
                            let g = choose|g: int|
                                0 <= g < f + 1 && file_has_name((#[trigger] files@[g])@, y);
                            assert(g != f);
                            assert(some_file_has_name(files@, f as int, y));
                        }
                    }
                }
            },
        }
        f = f + 1;
    }
    let ghost accv = names_view(acc@);
    let r = sort_names(acc);
    proof {
        assert forall|y: Seq<char>| #[trigger] names_view(r@).contains(y)
            <==> some_file_has_name(files@, files@.len() as int, y) by {
            assert(names_view(r@).contains(y) <==> accv.contains(y));
        }
    }
    r
}

/// Scanner determinism: the canonical sort together with the membership
/// contract pins the collection completely — two canonically sorted
/// collections holding the same names are equal, so re-running the scan
/// over unchanged sources yields an identical, byte-identically serialized
/// registry snapshot.
pub proof fn lemma_scanner_deterministic(a: Seq<Seq<char>>, b: Seq<Seq<char>>)
    requires
        canon_sorted(a),
        canon_sorted(b),
        forall|y: Seq<char>| #[trigger] a.contains(y) <==> #[trigger] b.contains(y),
    ensures
        a == b,
    decreases a.len(),
{
    if a.len() == 0 {
        if b.len() > 0 {
            assert(b.contains(b[0]));
            assert(a.contains(b[0]));
            assert(false);
        }
        assert(a =~= b);
    } else if b.len() == 0 {
        assert(a.contains(a[0]));
        assert(b.contains(a[0]));
        assert(false);
    } else {
        assert(a.contains(a[0]));
        assert(b.contains(a[0]));
        assert(b.contains(b[0]));
        assert(a.contains(b[0]));
        let k = choose|k: int| 0 <= k < b.len() && b[k] == a[0];
        let m = choose|m: int| 0 <= m < a.len() && a[m] == b[0];
        if k > 0 && m > 0 {
            assert(crate::order::canon_lt(b[0], b[k]));
            assert(crate::order::canon_lt(a[0], a[m]));
            crate::order::lemma_lex_lt_asymmetric(a[0], b[0]);
            assert(false);
        }
        assert(a[0] == b[0]);
        assert forall|y: Seq<char>| #[trigger] a.drop_first().contains(y) implies
            b.drop_first().contains(y) by {
            let q = choose|q: int| 0 <= q < a.drop_first().len() && a.drop_first()[q] == y;
            assert(a[q + 1] == y);
            assert(a.contains(y));
            assert(b.contains(y));
            let p = choose|p: int| 0 <= p < b.len() && b[p] == y;
            assert(crate::order::canon_lt(a[0], a[q + 1]));
            if p == 0 {
                crate::order::lemma_lex_lt_irreflexive(a[0]);
                assert(false);
            }
            assert(b.drop_first()[p - 1] == y);
        }
        assert forall|y: Seq<char>| #[trigger] b.drop_first().contains(y) implies
            a.drop_first().contains(y) by {
            let q = choose|q: int| 0 <= q < b.drop_first().len() && b.drop_first()[q] == y;
            assert(b[q + 1] == y);
            assert(b.contains(y));
            assert(a.contains(y));
            let p = choose|p: int| 0 <= p < a.len() && a[p] == y;
            assert(crate::order::canon_lt(b[0], b[q + 1]));
            if p == 0 {
                crate::order::lemma_lex_lt_irreflexive(b[0]);
                assert(false);
            }
            assert(a.drop_first()[p - 1] == y);
        }
        lemma_scanner_deterministic(a.drop_first(), b.drop_first());
        assert(a =~= seq![a[0]] + a.drop_first());
        assert(b =~= seq![b[0]] + b.drop_first());
    }
}

/// Rescanning unchanged sources never rewrites the snapshot: two scan
/// results over the same sources hold the same names, so they are the same
/// canonically sorted collection, serialize byte-identically, and the
/// persisted registry snapshot is left alone.
pub proof fn lemma_rescan_never_rewrites(a: Seq<Seq<char>>, b: Seq<Seq<char>>)
    requires
        canon_sorted(a),
        canon_sorted(b),
        forall|y: Seq<char>| #[trigger] a.contains(y) <==> #[trigger] b.contains(y),
    ensures
        !crate::registry::spec_should_rewrite(
            Some(crate::registry::spec_file_contents(a)),
            crate::registry::spec_file_contents(b),
        ),
{
    lemma_scanner_deterministic(a, b);
}

} // verus!
