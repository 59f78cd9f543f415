//! Named-tuple records built from a whole-project field universe.
//!
//! A build-time scanner collects every field name used in a `tup!` or `Tup!`
//! invocation, the registry keeps them as one deduplicated list in the
//! canonical order, the invocation parser turns one call's argument text into
//! a sorted list of field assignments, and the generator emits the record
//! type together with its trait machinery for that exact field universe.
//! The per-field state algebra (used / unused / defaulted) with its merge
//! and conversion rule tables is modelled directly on runtime values, so the
//! rules themselves are stated and checked here.

use vstd::prelude::*;

pub mod chars;
pub mod compare;
pub mod combine;
pub mod convert;
pub mod debug;
pub mod order;
pub mod registry;
pub mod sealed;
pub mod token;
pub mod tup_default;
pub mod tup_element;
pub mod tup_finder;
pub mod tup_info;
pub mod tup_invocation;
pub mod tup_struct;

pub use chars::{to_chars, to_string_exec};
use token::spec_tokenize;
pub use combine::CanCombine;
pub use convert::{CanInto, TupFrom, TupInto};
pub use debug::ConvertToDebugStruct;
pub use tup_default::tup_default;
pub use tup_finder::get_all_identifiers;
pub use tup_struct::{Tup, Unused, Used};

verus! {

/// A macro invocation that could not be expanded.
#[derive(Debug)]
pub enum MacroError {
    /// The argument text could not be tokenized.
    Lex(token::LexError),
    /// The argument list fits neither grammar.
    Parse(tup_element::ParseError),
    /// The argument list names an unregistered field, or carries a default
    /// not yet lowered to a rule item.
    Expand(tup_invocation::ExpandError),
}

/// The expression-position entry: parses one `tup!` call's argument text
/// and expands it against the registry. It succeeds precisely when the text
/// lexes and is empty or parses under the expression grammar with no
/// repeated field name and every argument registered. An empty argument
/// list expands to the default (all-unused) record; otherwise the result is
/// the expansion of the canonically sorted permutation of exactly this
/// call's arguments.
pub fn tup(input: &Vec<char>, registry: &Vec<Vec<char>>) -> (r: Result<Vec<char>, MacroError>)
    ensures
        (r is Ok) <==> (spec_tokenize(input@) matches Some(toks) && (toks.len() == 0 || {
            &&& tup_invocation::spec_parse_element_list(input@, toks, 0) matches Some(l)
            &&& tup_invocation::elem_names_unique(l)
            &&& forall|k: int| 0 <= k < l.len()
                ==> tup_struct::name_known(
                    tup_struct::names_view(registry@),
                    (#[trigger] l[k]).name,
                )
        })),
        match r {
            Ok(text) => {
                let toks = spec_tokenize(input@)->Some_0;
                if toks.len() == 0 {
                    text@ == "named_tup::__private::Tup::default()"@
                } else {
                    exists|sorted: Seq<tup_element::TupElementSpec>| {
                        &&& tup_invocation::elems_sorted(sorted)
                        &&& tup_invocation::same_elems(
                            sorted,
                            tup_invocation::spec_parse_element_list(input@, toks, 0)->Some_0,
                        )
                        &&& sorted.len() == tup_invocation::spec_parse_element_list(
                            input@,
                            toks,
                            0,
                        )->Some_0.len()
                        &&& text@ == tup_invocation::spec_expr_expansion(
                            tup_struct::names_view(registry@),
                            sorted,
                        )
                    }
                }
            },
            Err(_) => true,
        },
{
    let toks = match token::tokenize(input) {
        Ok(t) => t,
        Err(e) => {
            return Err(MacroError::Lex(e));
        },
    };
    if toks.len() == 0 {
        return Ok(to_chars("named_tup::__private::Tup::default()"));
    }
    let ghost l = tup_invocation::spec_parse_element_list(input@, toks@, 0);
    let inv = match tup_invocation::TupElementInvocation::parse(input, &toks) {
        Ok(i) => i,
        Err(e) => {
            return Err(MacroError::Parse(e));
        },
    };
    let ghost iv = tup_invocation::elems_view(inv.0@);
    let ghost regv = tup_struct::names_view(registry@);
    match inv.into_token_stream(registry) {
        Ok(text) => {
            proof {
                assert forall|k: int| 0 <= k < l->Some_0.len() implies
                    tup_struct::name_known(regv, (#[trigger] l->Some_0[k]).name) by {
                    assert(l->Some_0.contains(l->Some_0[k]));
                    assert(iv.contains(l->Some_0[k]));
                    let m = choose|m: int| 0 <= m < iv.len() && iv[m] == l->Some_0[k];
                    assert(tup_struct::name_known(regv, iv[m].name));
                }
            }
            Ok(text)
        },
        Err(e) => {
            proof {
                // The expansion named an unregistered field; that field is
                // one of this call's arguments.
                let name = e->UnknownField_name;
                assert(tup_invocation::has_elem(iv, name@));
                let m = choose|m: int| 0 <= m < iv.len() && (#[trigger] iv[m]).name == name@;
                assert(iv.contains(iv[m]));
                assert(l->Some_0.contains(iv[m]));
                let k = choose|k: int| 0 <= k < l->Some_0.len() && #[trigger] l->Some_0[k] == iv[
                    m
                ];
                assert(!tup_struct::name_known(regv, l->Some_0[k].name));
            }
            Err(MacroError::Expand(e))
        },
    }
}

/// The type-position entry: parses one `Tup!` call's argument text and
/// expands it to the record type instantiation. It succeeds precisely when
/// the text lexes and parses under the type grammar with no repeated field
/// name, every argument registered, and every default already lowered to a
/// rule item; the result is the expansion of the canonically sorted
/// permutation of exactly this call's arguments.
#[allow(non_snake_case)]
pub fn Tup(input: &Vec<char>, registry: &Vec<Vec<char>>) -> (r: Result<Vec<char>, MacroError>)
    ensures
        (r is Ok) <==> (spec_tokenize(input@) matches Some(toks) && {
            &&& tup_invocation::spec_parse_type_list(input@, toks, 0) matches Some(l)
            &&& tup_invocation::type_names_unique(l)
            &&& forall|k: int| 0 <= k < l.len()
                ==> tup_struct::name_known(
                    tup_struct::names_view(registry@),
                    (#[trigger] l[k]).name,
                )
            &&& forall|k: int| 0 <= k < l.len()
                ==> !((#[trigger] l[k]).default is Unfinished)
        }),
        match r {
            Ok(text) => {
                let toks = spec_tokenize(input@)->Some_0;
                exists|sorted: Seq<tup_element::TupTypeSpec>| {
                    &&& tup_invocation::types_sorted(sorted)
                    &&& tup_invocation::same_elems(
                        sorted,
                        tup_invocation::spec_parse_type_list(input@, toks, 0)->Some_0,
                    )
                    &&& sorted.len() == tup_invocation::spec_parse_type_list(
                        input@,
                        toks,
                        0,
                    )->Some_0.len()
                    &&& text@ == tup_invocation::spec_type_expansion(
                        tup_struct::names_view(registry@),
                        sorted,
                    )
                }
            },
            Err(_) => true,
        },
{
    let toks = match token::tokenize(input) {
        Ok(t) => t,
        Err(e) => {
            return Err(MacroError::Lex(e));
        },
    };
    let ghost l = tup_invocation::spec_parse_type_list(input@, toks@, 0);
    let inv = match tup_invocation::TupTypeInvocation::parse(input, &toks) {
        Ok(i) => i,
        Err(e) => {
            return Err(MacroError::Parse(e));
        },
    };
    let ghost iv = tup_invocation::types_view(inv.0@);
    let ghost regv = tup_struct::names_view(registry@);
    match inv.into_token_stream(registry) {
        Ok(text) => {
            proof {
                assert forall|k: int| 0 <= k < l->Some_0.len() implies
                    tup_struct::name_known(regv, (#[trigger] l->Some_0[k]).name) && !((
                    #[trigger] l->Some_0[k]).default is Unfinished) by {
                    assert(l->Some_0.contains(l->Some_0[k]));
                    assert(iv.contains(l->Some_0[k]));
                    let m = choose|m: int| 0 <= m < iv.len() && iv[m] == l->Some_0[k];
                    assert(tup_struct::name_known(regv, iv[m].name));
                    assert(!(iv[m].default is Unfinished));
                }
            }
            Ok(text)
        },
        Err(e) => {
            proof {
                if e is UnknownField {
                    let name = e->UnknownField_name;
                    assert(tup_invocation::has_type(iv, name@));
                    let m = choose|m: int| 0 <= m < iv.len() && (#[trigger] iv[m]).name == name@;
                    assert(iv.contains(iv[m]));
                    assert(l->Some_0.contains(iv[m]));
                    let k = choose|k: int|
                        0 <= k < l->Some_0.len() && #[trigger] l->Some_0[k] == iv[m];
                    assert(!tup_struct::name_known(regv, l->Some_0[k].name));
                } else {
                    let name = e->UnfinishedDefault_name;
                    let m = choose|m: int| 0 <= m < iv.len() && (#[trigger] iv[m]).name == name@
                        && iv[m].default is Unfinished;
                    assert(iv.contains(iv[m]));
                    assert(l->Some_0.contains(iv[m]));
                    let k = choose|k: int|
                        0 <= k < l->Some_0.len() && #[trigger] l->Some_0[k] == iv[m];
                    assert((l->Some_0[k]).default is Unfinished);
                }
            }
            Err(MacroError::Expand(e))
        },
    }
}

/// Emits the record type and its whole trait machinery for the registry's
/// field universe.
pub fn tup_struct_builder(registry: &Vec<Vec<char>>) -> (r: Vec<char>)
    ensures
        r@ == tup_info::spec_to_token_stream(tup_struct::names_view(registry@)),
{
    let info = tup_info::TupInfo::new(registry);
    info.to_token_stream()
}

/// Emits the sealing module for the registry's field universe.
pub fn sealed_trait_builder(registry: &Vec<Vec<char>>) -> (r: Vec<char>)
    ensures
        r@ == sealed::spec_sealed(registry@.len() as int),
{
    let info = tup_info::TupInfo::new(registry);
    proof {
        assert(tup_struct::names_view(info.fields@).len() == info.fields@.len());
        assert(tup_struct::names_view(registry@).len() == registry@.len());
    }
    sealed::to_token_stream(&info)
}

} // verus!
