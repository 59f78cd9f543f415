//! The default materializer.
//!
//! An inline default expression (`name: type = expr`) is only a
//! placeholder: before generation it is lowered into a generated
//! zero-argument rule item implementing the default-producing trait, and
//! the invocation is rewritten to reference that rule by identifier
//! (`name: type == rule`). The rule items are collected alongside the
//! rewritten text.

use vstd::prelude::*;
use crate::chars::{cat, cat_lit, clone_chars, join_parts, spec_join, to_chars};
use crate::debug::spec_decimal;
use crate::token::{
    Token, TokenKind, copy_range, punct_is, spec_ident_is, spec_punct_is, spec_tokenize, token_wf,
    tokens_wf, tokenize,
};
use crate::tup_element::{TupDefault, TupDefaultSpec, TupType, TupTypeSpec, spec_type_tokens};
use crate::tup_finder::spec_matching_close;
use crate::tup_invocation::{parse_type_list, spec_parse_type_list, types_view};
use crate::tup_struct::names_view;

verus! {

/// Relies on `uuid::Uuid::new_v4` and `Uuid::as_u128`: a freshly drawn
/// random identifier tag. Nothing is promised of the value; `new_v4` panics
/// when the operating system's randomness source fails, an environmental
/// failure with no input to exclude.
#[verifier::external_body]
fn fresh_tag() -> u128 {
    uuid::Uuid::new_v4().as_u128()
}

/// Renders the decimal digits of a tag.
fn render_tag(n: u128) -> (r: Vec<char>)
    ensures
        r@ == spec_decimal(n as int),
    decreases n,
{
    if n < 10 {
        let d: u8 = 48 + (n as u8);
        let c: char = d as char;
        let mut out: Vec<char> = Vec::new();
        out.push(c);
        proof {
            assert(out@ =~= seq![crate::debug::digit_char(n as int % 10)]);
        }
        out
    } else {
        let mut out = render_tag(n / 10);
        let d: u8 = 48 + ((n % 10) as u8);
        let c: char = d as char;
        out.push(c);
        proof {
            assert(out@ =~= spec_decimal(n as int / 10) + seq![crate::debug::digit_char(
                n as int % 10,
            )]);
        }
        out
    }
}

/// The generated rule item's identifier.
pub open spec fn spec_rule_name(name: Seq<char>, tag: int) -> Seq<char> {
    "__"@ + name + "_"@ + spec_decimal(tag)
}

/// The generated rule item: a unit struct implementing the
/// default-producing trait with the declared type and the inline
/// expression.
pub open spec fn spec_rule_item(name: Seq<char>, ty: Seq<char>, expr: Seq<char>, tag: int) -> Seq<
    char,
> {
    "#[allow(non_camel_case_types)]\n#[derive(Default, Copy, Clone)]\nstruct "@ + spec_rule_name(
        name,
        tag,
    ) + ";\nimpl named_tup::__private::TupDefault for "@ + spec_rule_name(name, tag)
        + " {\n    type Output = "@ + ty + ";\n\n    fn default() -> Self::Output {\n        "@
        + expr + "\n    }\n}\n"@
}

/// Collects the rule items generated while lowering inline defaults.
pub struct TupDefaultReplace {
    pub struct_invocations: Vec<char>,
}

impl TupDefaultReplace {
    /// An empty collection.
    pub fn empty() -> (r: TupDefaultReplace)
        ensures
            r.struct_invocations@ == Seq::<char>::empty(),
    {
        TupDefaultReplace { struct_invocations: Vec::new() }
    }

    /// Lowers one argument's inline default, when it has one: generates the
    /// rule item under a fresh tagged name and rewrites the argument to
    /// reference it. An argument without an inline default is untouched.
    pub fn produce_expr_struct(&mut self, elem: &mut TupType, tag: u128)
        ensures
            final(elem).name@ == old(elem).name@,
            final(elem).value@ == old(elem).value@,
            match old(elem).default@ {
                TupDefaultSpec::Unfinished { expr } => {
                    &&& final(elem).default@ == (TupDefaultSpec::Finished {
                        id: spec_rule_name(old(elem).name@, tag as int),
                    })
                    &&& final(self).struct_invocations@ == old(self).struct_invocations@
                        + spec_rule_item(old(elem).name@, old(elem).value@, expr, tag as int)
                },
                _ => {
                    &&& final(elem).default@ == old(elem).default@
                    &&& final(self).struct_invocations@ == old(self).struct_invocations@
                },
            },
    {
        let is_unfinished = matches!(&elem.default, TupDefault::Unfinished { .. });
        if !is_unfinished {
            return ;
        }
        let expr = match &elem.default {
            TupDefault::Unfinished { expr } => clone_chars(expr),
            _ => Vec::new(),
        };
        let sname = to_chars("__");
        let sname = cat(sname, clone_chars(&elem.name));
        let sname = cat_lit(sname, "_");
        let sname = cat(sname, render_tag(tag));
        proof {
            assert(sname@ =~= spec_rule_name(elem.name@, tag as int));
        }
        let item = to_chars(
            "#[allow(non_camel_case_types)]\n#[derive(Default, Copy, Clone)]\nstruct ",
        );
        let item = cat(item, clone_chars(&sname));
        let item = cat_lit(item, ";\nimpl named_tup::__private::TupDefault for ");
        let item = cat(item, clone_chars(&sname));
        let item = cat_lit(item, " {\n    type Output = ");
        let item = cat(item, clone_chars(&elem.value));
        let item = cat_lit(item, ";\n\n    fn default() -> Self::Output {\n        ");
        let item = cat(item, clone_chars(&expr));
        let item = cat_lit(item, "\n    }\n}\n");
        let mut item = item;
        self.struct_invocations.append(&mut item);
        elem.default = TupDefault::Finished { id: sname };
        proof {
            assert(final(self).struct_invocations@ =~= old(self).struct_invocations@
                + spec_rule_item(
                old(elem).name@,
                old(elem).value@,
                old(elem).default@->Unfinished_expr,
                tag as int,
            ));
        }
    }

    /// Walks one item's text for `Tup!(...)` type invocations and lowers
    /// every inline default in them, rewriting each argument list in place.
    /// Walking the groups in order, every argument advances the tag counter
    /// by one, and an argument with an inline default takes the rule tag
    /// `base` plus the counter. Text that does not tokenize, and an argument
    /// list that does not parse under the type grammar, is left exactly as
    /// it stands.
    #[verifier::rlimit(100)]
    pub fn visit_type_macros(&mut self, input: &Vec<char>, base: u128) -> (r: Vec<char>)
        ensures
            match spec_tokenize(input@) {
                Some(toks) => {
                    &&& r@ == spec_visit(input@, toks, 0, 0, base, 0).0
                    &&& final(self).struct_invocations@ == old(self).struct_invocations@
                        + spec_visit(input@, toks, 0, 0, base, 0).1
                },
                None => {
                    &&& r@ == input@
                    &&& final(self).struct_invocations@ == old(self).struct_invocations@
                },
            },
    {
        let toks = match tokenize(input) {
            Ok(t) => t,
            Err(_) => {
                return clone_chars(input);
            },
        };
        let tup_type_word = to_chars("Tup");
        let n = toks.len();
        let mut out: Vec<char> = Vec::new();
        let mut copied: usize = 0;
        let mut ctr: u128 = 0;
        let ghost sinv0 = self.struct_invocations@;
        let ghost gen0 = Seq::<char>::empty();
        let mut i: usize = 0;
        proof {
            assert(spec_visit(input@, toks@, 0, 0, base, 0).0 == Seq::<char>::empty()
                + spec_visit(input@, toks@, 0, 0, base, 0).0);
            assert(Seq::<char>::empty() + spec_visit(input@, toks@, 0, 0, base, 0).0
                =~= spec_visit(input@, toks@, 0, 0, base, 0).0);
            assert(spec_visit(input@, toks@, 0, 0, base, 0).1 =~= Seq::<char>::empty()
                + spec_visit(input@, toks@, 0, 0, base, 0).1);
        }
        while i < n
            invariant
                i <= n,
                n == toks@.len(),
                tokens_wf(toks@, input@),
                tup_type_word@ == "Tup"@,
                copied <= input@.len(),
                forall|j: int| i <= j < n ==> copied <= (#[trigger] toks@[j]).start,
                self.struct_invocations@ == sinv0 + (self.struct_invocations@.skip(
                    sinv0.len() as int,
                )),
                spec_visit(input@, toks@, 0, 0, base, 0).0 == out@ + spec_visit(
                    input@,
                    toks@,
                    i as int,
                    copied as int,
                    base,
                    ctr,
                ).0,
                spec_visit(input@, toks@, 0, 0, base, 0).1 == self.struct_invocations@.skip(
                    sinv0.len() as int,
                ) + spec_visit(input@, toks@, i as int, copied as int, base, ctr).1,
                spec_visit(input@, toks@, 0, 0, base, 0).2 == spec_visit(
                    input@,
                    toks@,
                    i as int,
                    copied as int,
                    base,
                    ctr,
                ).2,
            decreases n - i,
        {
            let ghost istate = (i as int, copied as int, ctr);
            proof {
                assert(token_wf(toks@[i as int], input@));
            }
            let is_name = {
                proof {
                    assert(token_wf(toks@[i as int], input@));
                }
                crate::token::ident_is(input, &toks[i], &tup_type_word)
            };
            if is_name && n - i > 2 {
                proof {
                    assert(token_wf(toks@[i + 1 as int], input@));
                    assert(token_wf(toks@[i + 2 as int], input@));
                }
                if punct_is(input, &toks[i + 1], '!') && matches!(
                    toks[i + 2].kind,
                    TokenKind::Open,
                ) {
                    match find_group_close(&toks, i + 2) {
                        Some(close) => {
                            let mut group: Vec<Token> = Vec::new();
                            let mut k = i + 3;
                            while k < close
                                invariant
                                    i + 3 <= k <= close,
                                    close < toks@.len(),
                                    tokens_wf(toks@, input@),
                                    group@.len() == k - (i + 3),
                                    forall|m: int| 0 <= m < group@.len()
                                        ==> #[trigger] group@[m] == toks@[i + 3 + m],
                                decreases close - k,
                            {
                                group.push(toks[k]);
                                k = k + 1;
                            }
                            proof {
                                assert(group@ =~= toks@.subrange(i + 3, close as int));
                                assert forall|m: int| 0 <= m < group@.len() implies
                                    token_wf(#[trigger] group@[m], input@) by {
                                    assert(group@[m] == toks@[i + 3 + m]);
                                }
                                assert forall|a2: int, b2: int| 0 <= a2 < b2 < group@.len() implies
                                    (#[trigger] group@[a2]).end <= (#[trigger] group@[b2]).start by {
                                    assert(group@[a2] == toks@[i + 3 + a2]);
                                    assert(group@[b2] == toks@[i + 3 + b2]);
                                }
                                assert(spec_tup_type_macro_at(input@, toks@, i as int));
                            }
                            match parse_type_list(input, &group) {
                                Ok(items) => {
                                    let ghost itemsv = types_view(items@);
                                    let ghost ctr0 = ctr;
                                    let ghost gens0 = self.struct_invocations@;
                                    let ghost apieces = spec_arg_pieces(itemsv, base, ctr0);
                                    let ghost ipieces = spec_item_pieces(itemsv, base, ctr0);
                                    let mut arg_pieces: Vec<Vec<char>> = Vec::new();
                                    let mut m: usize = 0;
                                    proof {
                                        assert(names_view(arg_pieces@) =~= apieces.subrange(0, 0));
                                        assert(self.struct_invocations@ =~= gens0 + spec_join(
                                            ipieces.subrange(0, 0),
                                            ""@,
                                        ));
                                    }
                                    while m < items.len()
                                        invariant
                                            m <= items@.len(),
                                            itemsv == types_view(items@),
                                            itemsv.len() == items@.len(),
                                            apieces == spec_arg_pieces(itemsv, base, ctr0),
                                            ipieces == spec_item_pieces(itemsv, base, ctr0),
                                            ctr == ctr_at(ctr0, m as int),
                                            names_view(arg_pieces@) == apieces.subrange(
                                                0,
                                                m as int,
                                            ),
                                            self.struct_invocations@ == gens0 + spec_join(
                                                ipieces.subrange(0, m as int),
                                                ""@,
                                            ),
                                        decreases items@.len() - m,
                                    {
                                        let ghost ap0 = names_view(arg_pieces@);
                                        let ghost gcur = self.struct_invocations@;
                                        let mut elem = crate::tup_invocation::take_type(&items, m);
                                        let tag = base.wrapping_add(ctr);
                                        proof {
                                            assert(elem@ == itemsv[m as int]);
                                            assert(tag == spec_tag(base, ctr0, m as int)) by {
                                                assert(ctr == ctr_at(ctr0, m as int));
                                            }
                                        }
                                        self.produce_expr_struct(&mut elem, tag);
                                        proof {
                                            assert(elem@ == spec_lowered(
                                                itemsv[m as int],
                                                spec_tag(base, ctr0, m as int),
                                            ));
                                            assert(self.struct_invocations@ == gcur
                                                + spec_generated_item(
                                                itemsv[m as int],
                                                spec_tag(base, ctr0, m as int),
                                            ));
                                        }
                                        let piece = elem.to_tokens();
                                        proof {
                                            assert(piece@ == apieces[m as int]);
                                        }
                                        arg_pieces.push(piece);
                                        ctr = ctr.wrapping_add(1);
                                        proof {
                                            assert(names_view(arg_pieces@) =~= ap0.push(
                                                apieces[m as int],
                                            ));
                                            assert(apieces.subrange(0, m as int + 1)
                                                =~= apieces.subrange(0, m as int).push(
                                                apieces[m as int],
                                            ));
                                            assert(ipieces.subrange(0, m as int + 1)
                                                =~= ipieces.subrange(0, m as int).push(
                                                ipieces[m as int],
                                            ));
                                            crate::chars::lemma_join_push(
                                                ipieces.subrange(0, m as int),
                                                ipieces[m as int],
                                                ""@,
                                            );
                                            if ipieces.subrange(0, m as int).len() == 0 {
                                                assert(gcur + spec_generated_item(
                                                    itemsv[m as int],
                                                    spec_tag(base, ctr0, m as int),
                                                ) =~= gens0 + spec_join(
                                                    ipieces.subrange(0, m as int + 1),
                                                    ""@,
                                                ));
                                            } else {
                                                reveal_strlit("");
                                                assert(spec_join(
                                                    ipieces.subrange(0, m as int + 1),
                                                    ""@,
                                                ) =~= spec_join(ipieces.subrange(0, m as int), ""@)
                                                    + ""@ + ipieces[m as int]);
                                                assert(gcur + spec_generated_item(
                                                    itemsv[m as int],
                                                    spec_tag(base, ctr0, m as int),
                                                ) =~= gens0 + spec_join(
                                                    ipieces.subrange(0, m as int + 1),
                                                    ""@,
                                                ));
                                            }
                                            assert(ctr == ctr_at(ctr0, m as int + 1));
                                        }
                                        m = m + 1;
                                    }
                                    proof {
                                        assert(apieces.subrange(0, itemsv.len() as int)
                                            =~= apieces);
                                        assert(ipieces.subrange(0, itemsv.len() as int)
                                            =~= ipieces);
                                    }
                                    let rewritten = join_parts(&arg_pieces, ", ");
                                    let open_end = toks[i + 2].end;
                                    proof {
                                        assert(token_wf(toks@[i + 2 as int], input@));
                                        assert(token_wf(toks@[close as int], input@));
                                        assert(copied <= toks@[i + 2 as int].start);
                                    }
                                    let mut pre = copy_range(input, copied, open_end);
                                    out.append(&mut pre);
                                    let mut body = rewritten;
                                    out.append(&mut body);
                                    copied = toks[close].start;
                                    proof {
                                        // One unfolding of the walk at the
                                        // recognized invocation.
                                        let v = spec_visit(
                                            input@,
                                            toks@,
                                            istate.0,
                                            istate.1,
                                            base,
                                            istate.2,
                                        );
                                        let rec = spec_visit(
                                            input@,
                                            toks@,
                                            close as int + 1,
                                            toks@[close as int].start as int,
                                            base,
                                            ctr_at(ctr0, itemsv.len() as int),
                                        );
                                        assert(v.0 == input@.subrange(
                                            istate.1,
                                            toks@[i + 2 as int].end as int,
                                        ) + spec_join(apieces, ", "@) + rec.0);
                                        assert(v.1 == spec_join(ipieces, ""@) + rec.1);
                                        assert(v.2 == rec.2);
                                        assert(ctr == ctr_at(ctr0, itemsv.len() as int));
                                        assert(spec_visit(input@, toks@, 0, 0, base, 0).0 == out@
                                            + rec.0);
                                        assert(self.struct_invocations@.skip(sinv0.len() as int)
                                            =~= (gens0.skip(sinv0.len() as int)) + spec_join(
                                            ipieces,
                                            ""@,
                                        ));
                                        assert(spec_visit(input@, toks@, 0, 0, base, 0).1
                                            == self.struct_invocations@.skip(sinv0.len() as int)
                                            + rec.1);
                                        assert forall|j: int| close as int + 1 <= j < n implies
                                            copied <= (#[trigger] toks@[j]).start by {
                                            if j > close as int {
                                                assert(toks@[close as int].end <= toks@[j].start);
                                            }
                                        }
                                    }
                                    i = close;
                                },
                                Err(_) => {
                                    proof {
                                        assert(spec_parse_type_list(
                                            input@,
                                            toks@.subrange(i + 3, close as int),
                                            0,
                                        ) is None);
                                    }
                                },
                            }
                        },
                        None => {
                            proof {
                                assert(spec_matching_close(toks@, i as int + 3, 0) is None);
                            }
                        },
                    }
                } else {
                    proof {
                        assert(!spec_tup_type_macro_at(input@, toks@, i as int));
                    }
                }
            } else {
                proof {
                    assert(!spec_tup_type_macro_at(input@, toks@, i as int));
                }
            }
            i = i + 1;
        }
        if copied < input.len() {
            let mut rest = copy_range(input, copied, input.len());
            out.append(&mut rest);
        } else {
            proof {
                assert(input@.subrange(copied as int, input@.len() as int)
                    =~= Seq::<char>::empty());
                assert(out@ + input@.subrange(copied as int, input@.len() as int) =~= out@);
            }
        }
        proof {
            assert(spec_visit(input@, toks@, i as int, copied as int, base, ctr).0
                == input@.subrange(copied as int, input@.len() as int));
            assert(spec_visit(input@, toks@, i as int, copied as int, base, ctr).1
                == Seq::<char>::empty());
            assert(self.struct_invocations@.skip(sinv0.len() as int) + Seq::<char>::empty()
                =~= self.struct_invocations@.skip(sinv0.len() as int));
        }
        out
    }
}

/// A `Tup!` type macro heads position `i` of the token row.
pub open spec fn spec_tup_type_macro_at(input: Seq<char>, toks: Seq<Token>, i: int) -> bool {
    &&& 0 <= i
    &&& i + 2 < toks.len()
    &&& spec_ident_is(input, toks[i], "Tup"@)
    &&& spec_punct_is(input, toks[i + 1], '!')
    &&& toks[i + 2].kind == TokenKind::Open
}

/// The tag counter after `m` more lowered arguments.
pub open spec fn ctr_at(ctr: u128, m: int) -> u128 {
    (((ctr as int) + m) % 0x1_0000_0000_0000_0000_0000_0000_0000_0000int) as u128
}

/// The tag of the argument at counter offset `m`.
pub open spec fn spec_tag(base: u128, ctr: u128, m: int) -> u128 {
    vstd::wrapping::u128_specs::wrapping_add(base, ctr_at(ctr, m))
}

/// One argument after lowering with the given tag: an inline default
/// becomes a reference to the generated rule; any other argument is
/// untouched.
pub open spec fn spec_lowered(e: TupTypeSpec, tag: u128) -> TupTypeSpec {
    match e.default {
        TupDefaultSpec::Unfinished { expr } => TupTypeSpec {
            name: e.name,
            value: e.value,
            default: TupDefaultSpec::Finished { id: spec_rule_name(e.name, tag as int) },
        },
        _ => e,
    }
}

/// The rule item one argument generates: nothing unless it carries an
/// inline default.
pub open spec fn spec_generated_item(e: TupTypeSpec, tag: u128) -> Seq<char> {
    match e.default {
        TupDefaultSpec::Unfinished { expr } => spec_rule_item(e.name, e.value, expr, tag as int),
        _ => Seq::empty(),
    }
}

/// The rewritten argument texts of one group.
pub open spec fn spec_arg_pieces(items: Seq<TupTypeSpec>, base: u128, ctr: u128) -> Seq<Seq<char>> {
    Seq::new(items.len(), |m: int| spec_type_tokens(spec_lowered(items[m], spec_tag(base, ctr, m))))
}

/// The rule items of one group.
pub open spec fn spec_item_pieces(items: Seq<TupTypeSpec>, base: u128, ctr: u128) -> Seq<Seq<char>> {
    Seq::new(items.len(), |m: int| spec_generated_item(items[m], spec_tag(base, ctr, m)))
}

/// One walk over the token row from position `i` on, with the text up to
/// `copied` already emitted: the text still to be emitted, the rule items
/// generated along the way, and the tag counter afterwards. Each recognized
/// `Tup!` group whose arguments parse under the type grammar is re-emitted
/// with its inline defaults lowered; all other text is emitted byte for
/// byte.
pub open spec fn spec_visit(
    input: Seq<char>,
    toks: Seq<Token>,
    i: int,
    copied: int,
    base: u128,
    ctr: u128,
) -> (Seq<char>, Seq<char>, u128)
    decreases toks.len() - i,
{
    if i < 0 || !(0 <= copied <= input.len()) {
        (Seq::empty(), Seq::empty(), ctr)
    } else if i >= toks.len() {
        (input.subrange(copied, input.len() as int), Seq::empty(), ctr)
    } else if spec_tup_type_macro_at(input, toks, i) {
        match spec_matching_close(toks, i + 3, 0) {
            None => spec_visit(input, toks, i + 1, copied, base, ctr),
            Some(close) => match spec_parse_type_list(input, toks.subrange(i + 3, close), 0) {
                None => spec_visit(input, toks, i + 1, copied, base, ctr),
                Some(items) => if i + 3 <= close < toks.len() && copied <= toks[i + 2].end as int
                    && toks[i + 2].end <= input.len() && toks[close].start <= input.len() {
                    let rec = spec_visit(
                        input,
                        toks,
                        close + 1,
                        toks[close].start as int,
                        base,
                        ctr_at(ctr, items.len() as int),
                    );
                    (
                        input.subrange(copied, toks[i + 2].end as int) + spec_join(
                            spec_arg_pieces(items, base, ctr),
                            ", "@,
                        ) + rec.0,
                        spec_join(spec_item_pieces(items, base, ctr), ""@) + rec.1,
                        rec.2,
                    )
                } else {
                    (Seq::empty(), Seq::empty(), ctr)
                },
            },
        }
    } else {
        spec_visit(input, toks, i + 1, copied, base, ctr)
    }
}

/// Finds the index of the close bracket matching the open bracket at
/// `from`, exactly as `spec_matching_close` gives it.
fn find_group_close(toks: &Vec<Token>, from: usize) -> (r: Option<usize>)
    requires
        from < toks@.len(),
    ensures
        match r {
            Some(j) => from < j < toks@.len() && spec_matching_close(toks@, from as int + 1, 0)
                == Some(j as int),
            None => spec_matching_close(toks@, from as int + 1, 0) is None,
        },
{
    let n = toks.len();
    let mut i = from + 1;
    let mut depth: usize = 0;
    while i < n
        invariant
            from < i <= n,
            n == toks@.len(),
            depth <= i - from - 1,
            spec_matching_close(toks@, from as int + 1, 0) == spec_matching_close(
                toks@,
                i as int,
                depth as int,
            ),
        decreases n - i,
    {
        if matches!(toks[i].kind, TokenKind::Open) {
            depth = depth + 1;
        } else if matches!(toks[i].kind, TokenKind::Close) {
            if depth == 0 {
                return Some(i);
            }
            depth = depth - 1;
        }
        i = i + 1;
    }
    None
}

/// The whole default-materializing pass over one item's text: draws one
/// fresh random base tag, lowers every inline default into a generated rule
/// item, and hands back the generated items followed by the rewritten item.
/// For some base tag, the result is exactly the specified walk of the text.
pub fn tup_default(item: &Vec<char>) -> (r: Vec<char>)
    ensures
        exists|base: u128| r@ == #[trigger] spec_tup_default(item@, base),
{
    let base = fresh_tag();
    let mut replace = TupDefaultReplace::empty();
    let rewritten = replace.visit_type_macros(item, base);
    let r = cat(replace.struct_invocations, rewritten);
    proof {
        assert(r@ == spec_tup_default(item@, base));
    }
    r
}

/// The default materializer's whole output for one base tag: the generated
/// rule items, then the rewritten item text; text that does not tokenize is
/// returned unchanged.
pub open spec fn spec_tup_default(item: Seq<char>, base: u128) -> Seq<char> {
    match spec_tokenize(item) {
        Some(toks) => spec_visit(item, toks, 0, 0, base, 0).1 + spec_visit(
            item,
            toks,
            0,
            0,
            base,
            0,
        ).0,
        None => item,
    }
}

} // verus!
