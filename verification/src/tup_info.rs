//! The type and code generator.
//!
//! Given the registry's field list, emits the record type's definition —
//! one value slot and one phantom state slot per registered field — together
//! with its constructor and the trait machinery: default, debug, merge,
//! conversion, equality, ordering and hashing, all walking the fields in
//! registry order.

use vstd::prelude::*;
use crate::chars::{cat, cat_lit, clone_chars, join_parts, spec_join, to_chars};
use crate::debug::{render_digits, spec_decimal};
use crate::tup_struct::names_view;

verus! {

/// The value generic of field `i`.
pub open spec fn gen_t(i: int) -> Seq<char> {
    "T"@ + spec_decimal(i)
}

/// The phantom state generic of field `i`.
pub open spec fn gen_p(i: int) -> Seq<char> {
    "P"@ + spec_decimal(i)
}

/// The whole generic parameter list: every value generic, then every
/// phantom generic.
pub open spec fn spec_full_generics(n: int) -> Seq<char> {
    spec_join(
        Seq::new(if n < 0 { 0 } else { (2 * n) as nat }, |i: int| if i < n {
            gen_t(i)
        } else {
            gen_p(i - n)
        }),
        ", "@,
    )
}

/// Renders the value generic of field `i`.
pub fn gen_t_exec(i: usize) -> (r: Vec<char>)
    ensures
        r@ == gen_t(i as int),
{
    cat(to_chars("T"), render_digits(i as u64))
}

/// Renders the phantom state generic of field `i`.
pub fn gen_p_exec(i: usize) -> (r: Vec<char>)
    ensures
        r@ == gen_p(i as int),
{
    cat(to_chars("P"), render_digits(i as u64))
}

/// Everything the generator needs of one field universe: the field names
/// and the generic parameter names that go with them.
pub struct TupInfo {
    pub fields: Vec<Vec<char>>,
    pub generics: Vec<Vec<char>>,
    pub phantom_generics: Vec<Vec<char>>,
    pub full_generics: Vec<char>,
}

impl TupInfo {
    /// A well-formed generator state over its field universe.
    pub open spec fn wf(self) -> bool {
        &&& names_view(self.generics@) == Seq::new(
            self.fields@.len(),
            |i: int| gen_t(i),
        )
        &&& names_view(self.phantom_generics@) == Seq::new(
            self.fields@.len(),
            |i: int| gen_p(i),
        )
        &&& self.full_generics@ == spec_full_generics(self.fields@.len() as int)
    }

    /// Builds the generator state for a field universe: one value generic
    /// and one phantom generic per field, numbered in registry order.
    pub fn new(registry: &Vec<Vec<char>>) -> (r: TupInfo)
        ensures
            r.wf(),
            names_view(r.fields@) == names_view(registry@),
    {
        let n = registry.len();
        let mut fields: Vec<Vec<char>> = Vec::new();
        let mut generics: Vec<Vec<char>> = Vec::new();
        let mut phantom_generics: Vec<Vec<char>> = Vec::new();
        let mut all: Vec<Vec<char>> = Vec::new();
        let ghost tfull = Seq::new(n as nat, |i: int| gen_t(i));
        let ghost pfull = Seq::new(n as nat, |i: int| gen_p(i));
        let ghost afull = Seq::new((2 * n) as nat, |i: int| if i < n { gen_t(i) } else { gen_p(i - n) });
        let mut i: usize = 0;
        proof {
            assert(names_view(fields@) =~= names_view(registry@).subrange(0, 0));
            assert(names_view(generics@) =~= tfull.subrange(0, 0));
            assert(names_view(all@) =~= afull.subrange(0, 0));
        }
        while i < n
            invariant
                i <= n,
                n == registry@.len(),
                tfull == Seq::new(n as nat, |i: int| gen_t(i)),
                afull == Seq::new((2 * n) as nat, |i: int| if i < n {
                    gen_t(i)
                } else {
                    gen_p(i - n)
                }),
                names_view(fields@) == names_view(registry@).subrange(0, i as int),
                names_view(generics@) == tfull.subrange(0, i as int),
                names_view(all@) == afull.subrange(0, i as int),
            decreases n - i,
        {
            let ghost f0 = names_view(fields@);
            let ghost g0 = names_view(generics@);
            let ghost a0 = names_view(all@);
            fields.push(clone_chars(&registry[i]));
            let t = gen_t_exec(i);
            generics.push(clone_chars(&t));
            all.push(t);
            proof {
                assert(names_view(registry@)[i as int] == registry@[i as int]@);
                assert(names_view(fields@) =~= f0.push(names_view(registry@)[i as int]));
                assert(names_view(registry@).subrange(0, i as int + 1) =~= names_view(
                    registry@,
                ).subrange(0, i as int).push(names_view(registry@)[i as int]));
                assert(names_view(generics@) =~= g0.push(tfull[i as int]));
                assert(tfull.subrange(0, i as int + 1) =~= tfull.subrange(0, i as int).push(
                    tfull[i as int],
                ));
                assert(names_view(all@) =~= a0.push(afull[i as int]));
                assert(afull.subrange(0, i as int + 1) =~= afull.subrange(0, i as int).push(
                    afull[i as int],
                ));
            }
            i = i + 1;
        }
        let mut k: usize = 0;
        proof {
            assert(names_view(phantom_generics@) =~= pfull.subrange(0, 0));
        }
        while k < n
            invariant
                k <= n,
                n == registry@.len(),
                pfull == Seq::new(n as nat, |i: int| gen_p(i)),
                afull == Seq::new((2 * n) as nat, |i: int| if i < n {
                    gen_t(i)
                } else {
                    gen_p(i - n)
                }),
                names_view(phantom_generics@) == pfull.subrange(0, k as int),
                names_view(all@) == afull.subrange(0, n + k as int),
            decreases n - k,
        {
            let ghost p0 = names_view(phantom_generics@);
            let ghost a0 = names_view(all@);
            let p = gen_p_exec(k);
            phantom_generics.push(clone_chars(&p));
            all.push(p);
            proof {
                assert(names_view(phantom_generics@) =~= p0.push(pfull[k as int]));
                assert(pfull.subrange(0, k as int + 1) =~= pfull.subrange(0, k as int).push(
                    pfull[k as int],
                ));
                assert(names_view(all@) =~= a0.push(afull[n + k as int]));
                assert(afull.subrange(0, n + k as int + 1) =~= afull.subrange(0, n + k as int).push(
                    afull[n + k as int],
                ));
            }
            k = k + 1;
        }
        let full_generics = join_parts(&all, ", ");
        proof {
            assert(names_view(registry@).subrange(0, n as int) =~= names_view(registry@));
            assert(tfull.subrange(0, n as int) =~= tfull);
            assert(pfull.subrange(0, n as int) =~= pfull);
            assert(afull.subrange(0, (2 * n) as int) =~= afull);
            assert(full_generics@ == spec_full_generics(n as int));
        }
        TupInfo { fields, generics, phantom_generics, full_generics }
    }
}

/// A list of rendered parts grows one full-array cell at a time.
pub proof fn lemma_parts_step(before: Seq<Seq<char>>, full: Seq<Seq<char>>, i: int)
    requires
        0 <= i < full.len(),
        before == full.subrange(0, i),
    ensures
        before.push(full[i]) == full.subrange(0, i + 1),
{
    assert(before.push(full[i]) =~= full.subrange(0, i + 1));
}

/// One field declaration of the record type definition.
pub open spec fn def_decl_piece(fields: Seq<Seq<char>>, i: int) -> Seq<char> {
    "    pub "@ + fields[i] + ": "@ + gen_t(i) + ",\n"@
}

/// The record type definition: one public value slot per field, and one
/// phantom slot carrying every field state.
pub open spec fn spec_to_def(fields: Seq<Seq<char>>) -> Seq<char> {
    "#[derive(Copy, Clone)]\n#[must_use]\npub struct Tup<"@ + spec_full_generics(
        fields.len() as int,
    ) + "> {\n"@ + spec_join(Seq::new(fields.len(), |i: int| def_decl_piece(fields, i)), ""@)
        + "    _phantom: core::marker::PhantomData<("@ + spec_join(
        Seq::new(fields.len(), |i: int| gen_p(i)),
        ", "@,
    ) + ")>,\n}\n"@
}

impl TupInfo {
    /// Emits the record type's definition.
    pub fn to_def(&self) -> (r: Vec<char>)
        requires
            self.wf(),
        ensures
            r@ == spec_to_def(names_view(self.fields@)),
    {
        let ghost fv = names_view(self.fields@);
        let ghost full = Seq::new(fv.len(), |i: int| def_decl_piece(fv, i));
        let n = self.fields.len();
        let mut decls: Vec<Vec<char>> = Vec::new();
        let mut i: usize = 0;
        proof {
            assert(names_view(decls@) =~= full.subrange(0, 0));
        }
        while i < n
            invariant
                i <= n,
                n == self.fields@.len(),
                fv == names_view(self.fields@),
                full == Seq::new(fv.len(), |i: int| def_decl_piece(fv, i)),
                names_view(decls@) == full.subrange(0, i as int),
            decreases n - i,
        {
            let ghost d0 = names_view(decls@);
            let piece = to_chars("    pub ");
            let piece = cat(piece, clone_chars(&self.fields[i]));
            let piece = cat_lit(piece, ": ");
            let piece = cat(piece, gen_t_exec(i));
            let piece = cat_lit(piece, ",\n");
            proof {
                assert(fv[i as int] == self.fields@[i as int]@);
                assert(piece@ =~= full[i as int]);
            }
            decls.push(piece);
            proof {
                assert(names_view(decls@) =~= d0.push(full[i as int]));
                lemma_parts_step(d0, full, i as int);
            }
            i = i + 1;
        }
        proof {
            assert(full.subrange(0, i as int) =~= full);
        }
        let out = to_chars("#[derive(Copy, Clone)]\n#[must_use]\npub struct Tup<");
        let out = cat(out, clone_chars(&self.full_generics));
        let out = cat_lit(out, "> {\n");
        let out = cat(out, join_parts(&decls, ""));
        let out = cat_lit(out, "    _phantom: core::marker::PhantomData<(");
        let out = cat(out, join_parts(&self.phantom_generics, ", "));
        let out = cat_lit(out, ")>,\n}\n");
        proof {
            assert(out@ =~= spec_to_def(fv));
        }
        out
    }
}

/// A numbered generic with a prefix and a trailing bound or suffix.
pub open spec fn num_piece(prefix: Seq<char>, suffix: Seq<char>, i: int) -> Seq<char> {
    prefix + spec_decimal(i) + suffix
}

/// One constructor parameter.
pub open spec fn new_param_piece(fields: Seq<Seq<char>>, i: int) -> Seq<char> {
    fields[i] + ": "@ + gen_t(i)
}

/// One field of a struct literal, trailing comma included.
pub open spec fn field_comma_piece(fields: Seq<Seq<char>>, i: int) -> Seq<char> {
    fields[i] + ", "@
}

/// One unit field of the default struct literal.
pub open spec fn field_unit_piece(fields: Seq<Seq<char>>, i: int) -> Seq<char> {
    fields[i] + ": (), "@
}

/// One statement of the debug body.
pub open spec fn debug_body_piece(fields: Seq<Seq<char>>, i: int) -> Seq<char> {
    "        crate::tup_struct::ConvertToDebugStruct::convert(<"@ + gen_p(i)
        + " as core::default::Default>::default(), &mut debug_struct, \""@ + fields[i] + "\", &self."@
        + fields[i] + ");\n"@
}

/// One bound of the merge implementation's where clause.
pub open spec fn add_where_piece(i: int) -> Seq<char> {
    "("@ + gen_t(i) + ", RHST"@ + spec_decimal(i) + "): crate::combine::CanCombine<"@ + gen_p(i)
        + ", RHSP"@ + spec_decimal(i) + ">"@
}

/// One value slot of the merge implementation's output type.
pub open spec fn add_out_t_piece(i: int) -> Seq<char> {
    "<("@ + gen_t(i) + ", RHST"@ + spec_decimal(i) + ") as crate::combine::CanCombine<"@ + gen_p(i)
        + ", RHSP"@ + spec_decimal(i) + ">>::Output"@
}

/// One phantom slot of the merge implementation's output type.
pub open spec fn add_out_p_piece(i: int) -> Seq<char> {
    "<("@ + gen_t(i) + ", RHST"@ + spec_decimal(i) + ") as crate::combine::CanCombine<"@ + gen_p(i)
        + ", RHSP"@ + spec_decimal(i) + ">>::PhantomOutput"@
}

/// One field of the merge implementation's body.
pub open spec fn add_body_piece(fields: Seq<Seq<char>>, i: int) -> Seq<char> {
    fields[i] + ": crate::combine::CanCombine::<"@ + gen_p(i) + ", RHSP"@ + spec_decimal(i)
        + ">::combine((self."@ + fields[i] + ", rhs."@ + fields[i] + ")), "@
}

/// One bound of the conversion implementation's where clause.
pub open spec fn into_where_piece(i: int) -> Seq<char> {
    gen_t(i) + ": crate::convert::CanInto<"@ + gen_p(i) + ", NEWP"@ + spec_decimal(i) + ">"@
}

/// One value slot of the conversion implementation's output type.
pub open spec fn into_out_piece(i: int) -> Seq<char> {
    "<"@ + gen_t(i) + " as crate::convert::CanInto<"@ + gen_p(i) + ", NEWP"@ + spec_decimal(i)
        + ">>::Output"@
}

/// One field of the conversion implementation's body.
pub open spec fn into_body_piece(fields: Seq<Seq<char>>, i: int) -> Seq<char> {
    fields[i] + ": crate::convert::CanInto::<"@ + gen_p(i) + ", NEWP"@ + spec_decimal(i)
        + ">::into(current."@ + fields[i] + "), "@
}

/// One conjunct of the equality body.
pub open spec fn eq_term_piece(fields: Seq<Seq<char>>, i: int) -> Seq<char> {
    "(&self."@ + fields[i] + ") == (&other."@ + fields[i] + ")"@
}

/// One statement of the hash body.
pub open spec fn hash_body_piece(fields: Seq<Seq<char>>, i: int) -> Seq<char> {
    "        core::hash::Hash::hash(&self."@ + fields[i] + ", state);\n"@
}

/// Renders `prefix0suffix, prefix1suffix, ...` parts.
fn numbered_parts(prefix: &str, suffix: &str, n: usize) -> (r: Vec<Vec<char>>)
    ensures
        names_view(r@) == Seq::new(n as nat, |i: int| num_piece(prefix@, suffix@, i)),
{
    let ghost full = Seq::new(n as nat, |i: int| num_piece(prefix@, suffix@, i));
    let mut parts: Vec<Vec<char>> = Vec::new();
    let mut i: usize = 0;
    proof {
        assert(names_view(parts@) =~= full.subrange(0, 0));
    }
    while i < n
        invariant
            i <= n,
            full == Seq::new(n as nat, |i: int| num_piece(prefix@, suffix@, i)),
            names_view(parts@) == full.subrange(0, i as int),
        decreases n - i,
    {
        let ghost p0 = names_view(parts@);
        let piece = to_chars(prefix);
        let piece = cat(piece, render_digits(i as u64));
        let piece = cat(piece, to_chars(suffix));
        proof {
            assert(piece@ =~= full[i as int]);
        }
        parts.push(piece);
        proof {
            assert(names_view(parts@) =~= p0.push(full[i as int]));
            lemma_parts_step(p0, full, i as int);
        }
        i = i + 1;
    }
    proof {
        assert(full.subrange(0, i as int) =~= full);
    }
    parts
}

/// The constructor's parameter list.
fn new_param_parts(fields: &Vec<Vec<char>>) -> (r: Vec<Vec<char>>)
    ensures
        names_view(r@) == Seq::new(fields@.len(), |i: int| new_param_piece(names_view(fields@), i)),
{
    let ghost fv = names_view(fields@);
    let ghost full = Seq::new(fv.len(), |i: int| new_param_piece(fv, i));
    let mut parts: Vec<Vec<char>> = Vec::new();
    let mut i: usize = 0;
    proof {
        assert(names_view(parts@) =~= full.subrange(0, 0));
    }
    while i < fields.len()
        invariant
            i <= fields@.len(),
            fv == names_view(fields@),
            full == Seq::new(fv.len(), |i: int| new_param_piece(fv, i)),
            names_view(parts@) == full.subrange(0, i as int),
        decreases fields@.len() - i,
    {
        let ghost p0 = names_view(parts@);
        let piece = clone_chars(&fields[i]);
        let piece = cat_lit(piece, ": ");
        let piece = cat(piece, gen_t_exec(i));
        proof {
            assert(fv[i as int] == fields@[i as int]@);
            assert(piece@ =~= full[i as int]);
        }
        parts.push(piece);
        proof {
            assert(names_view(parts@) =~= p0.push(full[i as int]));
            lemma_parts_step(p0, full, i as int);
        }
        i = i + 1;
    }
    proof {
        assert(full.subrange(0, i as int) =~= full);
    }
    parts
}

/// The constructor body's field list.
fn field_comma_parts(fields: &Vec<Vec<char>>) -> (r: Vec<Vec<char>>)
    ensures
        names_view(r@) == Seq::new(fields@.len(), |i: int| field_comma_piece(names_view(fields@), i)),
{
    let ghost fv = names_view(fields@);
    let ghost full = Seq::new(fv.len(), |i: int| field_comma_piece(fv, i));
    let mut parts: Vec<Vec<char>> = Vec::new();
    let mut i: usize = 0;
    proof {
        assert(names_view(parts@) =~= full.subrange(0, 0));
    }
    while i < fields.len()
        invariant
            i <= fields@.len(),
            fv == names_view(fields@),
            full == Seq::new(fv.len(), |i: int| field_comma_piece(fv, i)),
            names_view(parts@) == full.subrange(0, i as int),
        decreases fields@.len() - i,
    {
        let ghost p0 = names_view(parts@);
        let piece = clone_chars(&fields[i]);
        let piece = cat_lit(piece, ", ");
        proof {
            assert(fv[i as int] == fields@[i as int]@);
            assert(piece@ =~= full[i as int]);
        }
        parts.push(piece);
        proof {
            assert(names_view(parts@) =~= p0.push(full[i as int]));
            lemma_parts_step(p0, full, i as int);
        }
        i = i + 1;
    }
    proof {
        assert(full.subrange(0, i as int) =~= full);
    }
    parts
}

/// The default body's field list.
fn field_unit_parts(fields: &Vec<Vec<char>>) -> (r: Vec<Vec<char>>)
    ensures
        names_view(r@) == Seq::new(fields@.len(), |i: int| field_unit_piece(names_view(fields@), i)),
{
    let ghost fv = names_view(fields@);
    let ghost full = Seq::new(fv.len(), |i: int| field_unit_piece(fv, i));
    let mut parts: Vec<Vec<char>> = Vec::new();
    let mut i: usize = 0;
    proof {
        assert(names_view(parts@) =~= full.subrange(0, 0));
    }
    while i < fields.len()
        invariant
            i <= fields@.len(),
            fv == names_view(fields@),
            full == Seq::new(fv.len(), |i: int| field_unit_piece(fv, i)),
            names_view(parts@) == full.subrange(0, i as int),
        decreases fields@.len() - i,
    {
        let ghost p0 = names_view(parts@);
        let piece = clone_chars(&fields[i]);
        let piece = cat_lit(piece, ": (), ");
        proof {
            assert(fv[i as int] == fields@[i as int]@);
            assert(piece@ =~= full[i as int]);
        }
        parts.push(piece);
        proof {
            assert(names_view(parts@) =~= p0.push(full[i as int]));
            lemma_parts_step(p0, full, i as int);
        }
        i = i + 1;
    }
    proof {
        assert(full.subrange(0, i as int) =~= full);
    }
    parts
}

/// The debug body's statements.
fn debug_body_parts(fields: &Vec<Vec<char>>) -> (r: Vec<Vec<char>>)
    ensures
        names_view(r@) == Seq::new(fields@.len(), |i: int| debug_body_piece(names_view(fields@), i)),
{
    let ghost fv = names_view(fields@);
    let ghost full = Seq::new(fv.len(), |i: int| debug_body_piece(fv, i));
    let mut parts: Vec<Vec<char>> = Vec::new();
    let mut i: usize = 0;
    proof {
        assert(names_view(parts@) =~= full.subrange(0, 0));
    }
    while i < fields.len()
        invariant
            i <= fields@.len(),
            fv == names_view(fields@),
            full == Seq::new(fv.len(), |i: int| debug_body_piece(fv, i)),
            names_view(parts@) == full.subrange(0, i as int),
        decreases fields@.len() - i,
    {
        let ghost p0 = names_view(parts@);
        let piece = to_chars("        crate::tup_struct::ConvertToDebugStruct::convert(<");
        let piece = cat(piece, gen_p_exec(i));
        let piece = cat_lit(piece, " as core::default::Default>::default(), &mut debug_struct, \"");
        let piece = cat(piece, clone_chars(&fields[i]));
        let piece = cat_lit(piece, "\", &self.");
        let piece = cat(piece, clone_chars(&fields[i]));
        let piece = cat_lit(piece, ");\n");
        proof {
            assert(fv[i as int] == fields@[i as int]@);
            assert(piece@ =~= full[i as int]);
        }
        parts.push(piece);
        proof {
            assert(names_view(parts@) =~= p0.push(full[i as int]));
            lemma_parts_step(p0, full, i as int);
        }
        i = i + 1;
    }
    proof {
        assert(full.subrange(0, i as int) =~= full);
    }
    parts
}

/// The merge implementation's where clause.
fn add_where_parts(n: usize) -> (r: Vec<Vec<char>>)
    ensures
        names_view(r@) == Seq::new(n as nat, |i: int| add_where_piece(i)),
{
    let ghost full = Seq::new(n as nat, |i: int| add_where_piece(i));
    let mut parts: Vec<Vec<char>> = Vec::new();
    let mut i: usize = 0;
    proof {
        assert(names_view(parts@) =~= full.subrange(0, 0));
    }
    while i < n
        invariant
            i <= n as nat,
            full == Seq::new(n as nat, |i: int| add_where_piece(i)),
            names_view(parts@) == full.subrange(0, i as int),
        decreases n - i,
    {
        let ghost p0 = names_view(parts@);
        let piece = to_chars("(");
        let piece = cat(piece, gen_t_exec(i));
        let piece = cat_lit(piece, ", RHST");
        let piece = cat(piece, render_digits(i as u64));
        let piece = cat_lit(piece, "): crate::combine::CanCombine<");
        let piece = cat(piece, gen_p_exec(i));
        let piece = cat_lit(piece, ", RHSP");
        let piece = cat(piece, render_digits(i as u64));
        let piece = cat_lit(piece, ">");
        proof {
            assert(piece@ =~= full[i as int]);
        }
        parts.push(piece);
        proof {
            assert(names_view(parts@) =~= p0.push(full[i as int]));
            lemma_parts_step(p0, full, i as int);
        }
        i = i + 1;
    }
    proof {
        assert(full.subrange(0, i as int) =~= full);
    }
    parts
}

/// The merge output type's value slots.
fn add_out_t_parts(n: usize) -> (r: Vec<Vec<char>>)
    ensures
        names_view(r@) == Seq::new(n as nat, |i: int| add_out_t_piece(i)),
{
    let ghost full = Seq::new(n as nat, |i: int| add_out_t_piece(i));
    let mut parts: Vec<Vec<char>> = Vec::new();
    let mut i: usize = 0;
    proof {
        assert(names_view(parts@) =~= full.subrange(0, 0));
    }
    while i < n
        invariant
            i <= n as nat,
            full == Seq::new(n as nat, |i: int| add_out_t_piece(i)),
            names_view(parts@) == full.subrange(0, i as int),
        decreases n - i,
    {
        let ghost p0 = names_view(parts@);
        let piece = to_chars("<(");
        let piece = cat(piece, gen_t_exec(i));
        let piece = cat_lit(piece, ", RHST");
        let piece = cat(piece, render_digits(i as u64));
        let piece = cat_lit(piece, ") as crate::combine::CanCombine<");
        let piece = cat(piece, gen_p_exec(i));
        let piece = cat_lit(piece, ", RHSP");
        let piece = cat(piece, render_digits(i as u64));
        let piece = cat_lit(piece, ">>::Output");
        proof {
            assert(piece@ =~= full[i as int]);
        }
        parts.push(piece);
        proof {
            assert(names_view(parts@) =~= p0.push(full[i as int]));
            lemma_parts_step(p0, full, i as int);
        }
        i = i + 1;
    }
    proof {
        assert(full.subrange(0, i as int) =~= full);
    }
    parts
}

/// The merge output type's phantom slots.
fn add_out_p_parts(n: usize) -> (r: Vec<Vec<char>>)
    ensures
        names_view(r@) == Seq::new(n as nat, |i: int| add_out_p_piece(i)),
{
    let ghost full = Seq::new(n as nat, |i: int| add_out_p_piece(i));
    let mut parts: Vec<Vec<char>> = Vec::new();
    let mut i: usize = 0;
    proof {
        assert(names_view(parts@) =~= full.subrange(0, 0));
    }
    while i < n
        invariant
            i <= n as nat,
            full == Seq::new(n as nat, |i: int| add_out_p_piece(i)),
            names_view(parts@) == full.subrange(0, i as int),
        decreases n - i,
    {
        let ghost p0 = names_view(parts@);
        let piece = to_chars("<(");
        let piece = cat(piece, gen_t_exec(i));
        let piece = cat_lit(piece, ", RHST");
        let piece = cat(piece, render_digits(i as u64));
        let piece = cat_lit(piece, ") as crate::combine::CanCombine<");
        let piece = cat(piece, gen_p_exec(i));
        let piece = cat_lit(piece, ", RHSP");
        let piece = cat(piece, render_digits(i as u64));
        let piece = cat_lit(piece, ">>::PhantomOutput");
        proof {
            assert(piece@ =~= full[i as int]);
        }
        parts.push(piece);
        proof {
            assert(names_view(parts@) =~= p0.push(full[i as int]));
            lemma_parts_step(p0, full, i as int);
        }
        i = i + 1;
    }
    proof {
        assert(full.subrange(0, i as int) =~= full);
    }
    parts
}

/// The merge body's field list.
fn add_body_parts(fields: &Vec<Vec<char>>) -> (r: Vec<Vec<char>>)
    ensures
        names_view(r@) == Seq::new(fields@.len(), |i: int| add_body_piece(names_view(fields@), i)),
{
    let ghost fv = names_view(fields@);
    let ghost full = Seq::new(fv.len(), |i: int| add_body_piece(fv, i));
    let mut parts: Vec<Vec<char>> = Vec::new();
    let mut i: usize = 0;
    proof {
        assert(names_view(parts@) =~= full.subrange(0, 0));
    }
    while i < fields.len()
        invariant
            i <= fields@.len(),
            fv == names_view(fields@),
            full == Seq::new(fv.len(), |i: int| add_body_piece(fv, i)),
            names_view(parts@) == full.subrange(0, i as int),
        decreases fields@.len() - i,
    {
        let ghost p0 = names_view(parts@);
        let piece = clone_chars(&fields[i]);
        let piece = cat_lit(piece, ": crate::combine::CanCombine::<");
        let piece = cat(piece, gen_p_exec(i));
        let piece = cat_lit(piece, ", RHSP");
        let piece = cat(piece, render_digits(i as u64));
        let piece = cat_lit(piece, ">::combine((self.");
        let piece = cat(piece, clone_chars(&fields[i]));
        let piece = cat_lit(piece, ", rhs.");
        let piece = cat(piece, clone_chars(&fields[i]));
        let piece = cat_lit(piece, ")), ");
        proof {
            assert(fv[i as int] == fields@[i as int]@);
            assert(piece@ =~= full[i as int]);
        }
        parts.push(piece);
        proof {
            assert(names_view(parts@) =~= p0.push(full[i as int]));
            lemma_parts_step(p0, full, i as int);
        }
        i = i + 1;
    }
    proof {
        assert(full.subrange(0, i as int) =~= full);
    }
    parts
}

/// The conversion implementation's where clause.
fn into_where_parts(n: usize) -> (r: Vec<Vec<char>>)
    ensures
        names_view(r@) == Seq::new(n as nat, |i: int| into_where_piece(i)),
{
    let ghost full = Seq::new(n as nat, |i: int| into_where_piece(i));
    let mut parts: Vec<Vec<char>> = Vec::new();
    let mut i: usize = 0;
    proof {
        assert(names_view(parts@) =~= full.subrange(0, 0));
    }
    while i < n
        invariant
            i <= n as nat,
            full == Seq::new(n as nat, |i: int| into_where_piece(i)),
            names_view(parts@) == full.subrange(0, i as int),
        decreases n - i,
    {
        let ghost p0 = names_view(parts@);
        let piece = gen_t_exec(i);
        let piece = cat_lit(piece, ": crate::convert::CanInto<");
        let piece = cat(piece, gen_p_exec(i));
        let piece = cat_lit(piece, ", NEWP");
        let piece = cat(piece, render_digits(i as u64));
        let piece = cat_lit(piece, ">");
        proof {
            assert(piece@ =~= full[i as int]);
        }
        parts.push(piece);
        proof {
            assert(names_view(parts@) =~= p0.push(full[i as int]));
            lemma_parts_step(p0, full, i as int);
        }
        i = i + 1;
    }
    proof {
        assert(full.subrange(0, i as int) =~= full);
    }
    parts
}

/// The conversion output type's value slots.
fn into_out_parts(n: usize) -> (r: Vec<Vec<char>>)
    ensures
        names_view(r@) == Seq::new(n as nat, |i: int| into_out_piece(i)),
{
    let ghost full = Seq::new(n as nat, |i: int| into_out_piece(i));
    let mut parts: Vec<Vec<char>> = Vec::new();
    let mut i: usize = 0;
    proof {
        assert(names_view(parts@) =~= full.subrange(0, 0));
    }
    while i < n
        invariant
            i <= n as nat,
            full == Seq::new(n as nat, |i: int| into_out_piece(i)),
            names_view(parts@) == full.subrange(0, i as int),
        decreases n - i,
    {
        let ghost p0 = names_view(parts@);
        let piece = to_chars("<");
        let piece = cat(piece, gen_t_exec(i));
        let piece = cat_lit(piece, " as crate::convert::CanInto<");
        let piece = cat(piece, gen_p_exec(i));
        let piece = cat_lit(piece, ", NEWP");
        let piece = cat(piece, render_digits(i as u64));
        let piece = cat_lit(piece, ">>::Output");
        proof {
            assert(piece@ =~= full[i as int]);
        }
        parts.push(piece);
        proof {
            assert(names_view(parts@) =~= p0.push(full[i as int]));
            lemma_parts_step(p0, full, i as int);
        }
        i = i + 1;
    }
    proof {
        assert(full.subrange(0, i as int) =~= full);
    }
    parts
}

/// The conversion body's field list.
fn into_body_parts(fields: &Vec<Vec<char>>) -> (r: Vec<Vec<char>>)
    ensures
        names_view(r@) == Seq::new(fields@.len(), |i: int| into_body_piece(names_view(fields@), i)),
{
    let ghost fv = names_view(fields@);
    let ghost full = Seq::new(fv.len(), |i: int| into_body_piece(fv, i));
    let mut parts: Vec<Vec<char>> = Vec::new();
    let mut i: usize = 0;
    proof {
        assert(names_view(parts@) =~= full.subrange(0, 0));
    }
    while i < fields.len()
        invariant
            i <= fields@.len(),
            fv == names_view(fields@),
            full == Seq::new(fv.len(), |i: int| into_body_piece(fv, i)),
            names_view(parts@) == full.subrange(0, i as int),
        decreases fields@.len() - i,
    {
        let ghost p0 = names_view(parts@);
        let piece = clone_chars(&fields[i]);
        let piece = cat_lit(piece, ": crate::convert::CanInto::<");
        let piece = cat(piece, gen_p_exec(i));
        let piece = cat_lit(piece, ", NEWP");
        let piece = cat(piece, render_digits(i as u64));
        let piece = cat_lit(piece, ">::into(current.");
        let piece = cat(piece, clone_chars(&fields[i]));
        let piece = cat_lit(piece, "), ");
        proof {
            assert(fv[i as int] == fields@[i as int]@);
            assert(piece@ =~= full[i as int]);
        }
        parts.push(piece);
        proof {
            assert(names_view(parts@) =~= p0.push(full[i as int]));
            lemma_parts_step(p0, full, i as int);
        }
        i = i + 1;
    }
    proof {
        assert(full.subrange(0, i as int) =~= full);
    }
    parts
}

/// The equality body's conjuncts.
fn eq_term_parts(fields: &Vec<Vec<char>>) -> (r: Vec<Vec<char>>)
    ensures
        names_view(r@) == Seq::new(fields@.len(), |i: int| eq_term_piece(names_view(fields@), i)),
{
    let ghost fv = names_view(fields@);
    let ghost full = Seq::new(fv.len(), |i: int| eq_term_piece(fv, i));
    let mut parts: Vec<Vec<char>> = Vec::new();
    let mut i: usize = 0;
    proof {
        assert(names_view(parts@) =~= full.subrange(0, 0));
    }
    while i < fields.len()
        invariant
            i <= fields@.len(),
            fv == names_view(fields@),
            full == Seq::new(fv.len(), |i: int| eq_term_piece(fv, i)),
            names_view(parts@) == full.subrange(0, i as int),
        decreases fields@.len() - i,
    {
        let ghost p0 = names_view(parts@);
        let piece = to_chars("(&self.");
        let piece = cat(piece, clone_chars(&fields[i]));
        let piece = cat_lit(piece, ") == (&other.");
        let piece = cat(piece, clone_chars(&fields[i]));
        let piece = cat_lit(piece, ")");
        proof {
            assert(fv[i as int] == fields@[i as int]@);
            assert(piece@ =~= full[i as int]);
        }
        parts.push(piece);
        proof {
            assert(names_view(parts@) =~= p0.push(full[i as int]));
            lemma_parts_step(p0, full, i as int);
        }
        i = i + 1;
    }
    proof {
        assert(full.subrange(0, i as int) =~= full);
    }
    parts
}

/// The hash body's statements.
fn hash_body_parts(fields: &Vec<Vec<char>>) -> (r: Vec<Vec<char>>)
    ensures
        names_view(r@) == Seq::new(fields@.len(), |i: int| hash_body_piece(names_view(fields@), i)),
{
    let ghost fv = names_view(fields@);
    let ghost full = Seq::new(fv.len(), |i: int| hash_body_piece(fv, i));
    let mut parts: Vec<Vec<char>> = Vec::new();
    let mut i: usize = 0;
    proof {
        assert(names_view(parts@) =~= full.subrange(0, 0));
    }
    while i < fields.len()
        invariant
            i <= fields@.len(),
            fv == names_view(fields@),
            full == Seq::new(fv.len(), |i: int| hash_body_piece(fv, i)),
            names_view(parts@) == full.subrange(0, i as int),
        decreases fields@.len() - i,
    {
        let ghost p0 = names_view(parts@);
        let piece = to_chars("        core::hash::Hash::hash(&self.");
        let piece = cat(piece, clone_chars(&fields[i]));
        let piece = cat_lit(piece, ", state);\n");
        proof {
            assert(fv[i as int] == fields@[i as int]@);
            assert(piece@ =~= full[i as int]);
        }
        parts.push(piece);
        proof {
            assert(names_view(parts@) =~= p0.push(full[i as int]));
            lemma_parts_step(p0, full, i as int);
        }
        i = i + 1;
    }
    proof {
        assert(full.subrange(0, i as int) =~= full);
    }
    parts
}

/// Renders `lit, lit, ...` constant parts.
fn const_parts(lit: &str, n: usize) -> (r: Vec<Vec<char>>)
    ensures
        names_view(r@) == Seq::new(n as nat, |i: int| lit@),
{
    let ghost full = Seq::new(n as nat, |i: int| lit@);
    let mut parts: Vec<Vec<char>> = Vec::new();
    let mut i: usize = 0;
    proof {
        assert(names_view(parts@) =~= full.subrange(0, 0));
    }
    while i < n
        invariant
            i <= n,
            full == Seq::new(n as nat, |i: int| lit@),
            names_view(parts@) == full.subrange(0, i as int),
        decreases n - i,
    {
        let ghost p0 = names_view(parts@);
        let piece = to_chars(lit);
        proof {
            assert(piece@ =~= full[i as int]);
        }
        parts.push(piece);
        proof {
            assert(names_view(parts@) =~= p0.push(full[i as int]));
            lemma_parts_step(p0, full, i as int);
        }
        i = i + 1;
    }
    proof {
        assert(full.subrange(0, i as int) =~= full);
    }
    parts
}

/// The right-hand operand's generic parameter list of the merge
/// implementation.
pub open spec fn spec_rhs_generics(n: int) -> Seq<char> {
    spec_join(
        Seq::new(if n < 0 { 0 } else { (2 * n) as nat }, |i: int| if i < n {
            num_piece("RHST"@, ""@, i)
        } else {
            num_piece("RHSP"@, ""@, i - n)
        }),
        ", "@,
    )
}

/// Renders the right-hand operand's generic parameter list.
fn rhs_generics_exec(n: usize) -> (r: Vec<char>)
    ensures
        r@ == spec_rhs_generics(n as int),
{
    let ghost full = Seq::new((2 * n) as nat, |i: int| if i < n {
        num_piece("RHST"@, ""@, i)
    } else {
        num_piece("RHSP"@, ""@, i - n)
    });
    let mut a = numbered_parts("RHST", "", n);
    let ghost av = a@;
    let mut b = numbered_parts("RHSP", "", n);
    let ghost bv = b@;
    a.append(&mut b);
    proof {
        assert(a@ == av + bv);
        assert(names_view(av).len() == av.len());
        assert(names_view(bv).len() == bv.len());
        assert(av.len() == n && bv.len() == n);
        assert forall|i: int| 0 <= i < names_view(a@).len() implies
            #[trigger] names_view(a@)[i] == full[i] by {
            if i < n {
                assert(a@[i] == av[i]);
                assert(names_view(av)[i] == av[i]@);
            } else {
                assert(a@[i] == bv[i - n]);
                assert(names_view(bv)[i - n] == bv[i - n]@);
            }
        }
        assert(names_view(a@) =~= full);
    }
    join_parts(&a, ", ")
}

/// The comma that separates two per-field generic lists; nothing when the
/// field universe is empty.
pub open spec fn spec_coma(n: int) -> Seq<char> {
    if n == 0 {
        ""@
    } else {
        ", "@
    }
}

/// The constructor implementation.
pub open spec fn spec_to_new_impl(fields: Seq<Seq<char>>) -> Seq<char> {
    let n = fields.len() as int;
    "impl<"@ + spec_full_generics(n) + "> Tup<"@ + spec_full_generics(n)
        + "> {\n    pub fn new("@ + spec_join(
        Seq::new(fields.len(), |i: int| new_param_piece(fields, i)),
        ", "@,
    ) + ") -> Self {\n        Tup { "@ + spec_join(
        Seq::new(fields.len(), |i: int| field_comma_piece(fields, i)),
        ""@,
    ) + "_phantom: core::marker::PhantomData }\n    }\n}\n"@
}

/// The default implementation: every slot unit, every field state unused.
pub open spec fn spec_to_default_impl(fields: Seq<Seq<char>>) -> Seq<char> {
    let n = fields.len();
    "impl core::default::Default for Tup<"@ + spec_join(Seq::new(n, |i: int| "()"@), ", "@)
        + spec_coma(n as int) + spec_join(Seq::new(n, |i: int| "crate::tup_struct::Unused"@), ", "@)
        + "> {\n    fn default() -> Self {\n        Tup { "@ + spec_join(
        Seq::new(n, |i: int| field_unit_piece(fields, i)),
        ""@,
    ) + "_phantom: core::marker::PhantomData }\n    }\n}\n"@
}

/// The debug implementation: one entry per field whose state is not unused.
pub open spec fn spec_to_debug_impl(fields: Seq<Seq<char>>) -> Seq<char> {
    let n = fields.len() as int;
    let where_clause = if n == 0 {
        ""@
    } else {
        "\n    where "@ + spec_join(
            Seq::new(
                fields.len(),
                |i: int| num_piece(
                    "P"@,
                    ": crate::tup_struct::ConvertToDebugStruct + core::default::Default"@,
                    i,
                ),
            ),
            ", "@,
        ) + ", "@ + spec_join(
            Seq::new(fields.len(), |i: int| num_piece("T"@, ": core::fmt::Debug"@, i)),
            ", "@,
        )
    };
    "impl<"@ + spec_full_generics(n) + "> core::fmt::Debug for Tup<"@ + spec_full_generics(n)
        + ">"@ + where_clause
        + "\n{\n    fn fmt(&self, f: &mut core::fmt::Formatter) -> core::fmt::Result {\n        let mut debug_struct = f.debug_struct(\"tup\");\n"@
        + spec_join(Seq::new(fields.len(), |i: int| debug_body_piece(fields, i)), ""@)
        + "        debug_struct.finish()\n    }\n}\n"@
}

/// The merge implementation: the addition operator over two records, one
/// rule-table cell per field.
pub open spec fn spec_to_add_impl(fields: Seq<Seq<char>>) -> Seq<char> {
    let n = fields.len() as int;
    let where_clause = if n == 0 {
        ""@
    } else {
        "\n    where "@ + spec_join(Seq::new(fields.len(), |i: int| add_where_piece(i)), ", "@)
    };
    "impl<"@ + spec_full_generics(n) + spec_coma(n) + spec_rhs_generics(n)
        + "> core::ops::Add<Tup<"@ + spec_rhs_generics(n) + ">> for Tup<"@
        + spec_full_generics(n) + ">"@ + where_clause + "\n{\n    type Output = Tup<"@
        + spec_join(Seq::new(fields.len(), |i: int| add_out_t_piece(i)), ", "@) + spec_coma(n)
        + spec_join(Seq::new(fields.len(), |i: int| add_out_p_piece(i)), ", "@)
        + ">;\n    fn add(self, rhs: Tup<"@ + spec_rhs_generics(n)
        + ">) -> Self::Output {\n        Self::Output { "@ + spec_join(
        Seq::new(fields.len(), |i: int| add_body_piece(fields, i)),
        ""@,
    ) + "_phantom: core::marker::PhantomData }\n    }\n}\n"@
}

/// The conversion implementation: reshapes a record towards new field
/// states, one rule-table cell per field.
pub open spec fn spec_to_into_impl(fields: Seq<Seq<char>>) -> Seq<char> {
    let n = fields.len() as int;
    let newps = spec_join(Seq::new(fields.len(), |i: int| num_piece("NEWP"@, ""@, i)), ", "@);
    let where_clause = if n == 0 {
        ""@
    } else {
        "\n    where "@ + spec_join(Seq::new(fields.len(), |i: int| into_where_piece(i)), ", "@)
    };
    "impl<"@ + spec_full_generics(n) + spec_coma(n) + newps
        + "> crate::convert::TupFrom<Tup<"@ + spec_full_generics(n) + ">> for Tup<"@
        + spec_join(Seq::new(fields.len(), |i: int| into_out_piece(i)), ", "@) + spec_coma(n)
        + newps + ">"@ + where_clause + "\n{\n    fn from_tup(current: Tup<"@
        + spec_full_generics(n) + ">) -> Self {\n        Self { "@ + spec_join(
        Seq::new(fields.len(), |i: int| into_body_piece(fields, i)),
        ""@,
    ) + "_phantom: core::marker::PhantomData }\n    }\n}\n"@
}

/// The equality implementations: the conjunction of per-field value
/// equality, the field states never compared.
pub open spec fn spec_to_eq_impl(fields: Seq<Seq<char>>) -> Seq<char> {
    let n = fields.len() as int;
    let ps = spec_join(Seq::new(fields.len(), |i: int| num_piece("P"@, ""@, i)), ", "@);
    let rhsps = spec_join(Seq::new(fields.len(), |i: int| num_piece("RHSP"@, ""@, i)), ", "@);
    let ts = spec_join(Seq::new(fields.len(), |i: int| num_piece("T"@, ""@, i)), ", "@);
    let body = if n == 0 {
        "true"@
    } else {
        spec_join(Seq::new(fields.len(), |i: int| eq_term_piece(fields, i)), " && "@)
    };
    "impl<"@ + spec_join(Seq::new(fields.len(), |i: int| num_piece("T"@, ": core::cmp::Eq"@, i)), ", "@)
        + spec_coma(n) + ps + "> core::cmp::Eq for Tup<"@ + spec_full_generics(n)
        + "> {}\n\nimpl<"@ + spec_join(
        Seq::new(fields.len(), |i: int| num_piece("T"@, ": core::cmp::PartialEq"@, i)),
        ", "@,
    ) + spec_coma(n) + ps + spec_coma(n) + rhsps + "> core::cmp::PartialEq<Tup<"@ + ts
        + spec_coma(n) + rhsps + ">> for Tup<"@ + spec_full_generics(n)
        + "> {\n    fn eq(&self, other: &Tup<"@ + ts + spec_coma(n) + rhsps
        + ">) -> bool {\n        "@ + body + "\n    }\n}\n"@
}

/// The nested comparison chain of the ordering body: the first field that
/// differs decides, in ascending registry order.
pub open spec fn ord_chain(fields: Seq<Seq<char>>) -> Seq<char>
    decreases fields.len(),
{
    if fields.len() == 0 {
        "core::cmp::Ordering::Equal"@
    } else {
        "match core::cmp::Ord::cmp(&self."@ + fields[0] + ", &other."@ + fields[0]
            + ") { core::cmp::Ordering::Equal => { "@ + ord_chain(fields.drop_first())
            + " }, cmp => cmp, }"@
    }
}

/// The nested comparison chain of the partial ordering body.
pub open spec fn partial_chain(fields: Seq<Seq<char>>) -> Seq<char>
    decreases fields.len(),
{
    if fields.len() == 0 {
        "core::option::Option::Some(core::cmp::Ordering::Equal)"@
    } else {
        "match core::cmp::PartialOrd::partial_cmp(&self."@ + fields[0] + ", &other."@ + fields[0]
            + ") { core::option::Option::Some(core::cmp::Ordering::Equal) => { "@
            + partial_chain(fields.drop_first()) + " }, cmp => cmp, }"@
    }
}

/// The ordering implementations: lexicographic over the fields in ascending
/// registry order, short-circuiting on the first field that differs.
pub open spec fn spec_to_ord_impl(fields: Seq<Seq<char>>) -> Seq<char> {
    let n = fields.len() as int;
    let ps = spec_join(Seq::new(fields.len(), |i: int| num_piece("P"@, ""@, i)), ", "@);
    let rhsps = spec_join(Seq::new(fields.len(), |i: int| num_piece("RHSP"@, ""@, i)), ", "@);
    let ts = spec_join(Seq::new(fields.len(), |i: int| num_piece("T"@, ""@, i)), ", "@);
    "impl<"@ + spec_join(Seq::new(fields.len(), |i: int| num_piece("T"@, ": core::cmp::Ord"@, i)), ", "@)
        + spec_coma(n) + ps + "> core::cmp::Ord for Tup<"@ + spec_full_generics(n)
        + "> {\n    fn cmp(&self, other: &Tup<"@ + spec_full_generics(n)
        + ">) -> core::cmp::Ordering {\n        "@ + ord_chain(fields)
        + "\n    }\n}\n\nimpl<"@ + spec_join(
        Seq::new(fields.len(), |i: int| num_piece("T"@, ": core::cmp::PartialOrd"@, i)),
        ", "@,
    ) + spec_coma(n) + ps + spec_coma(n) + rhsps + "> core::cmp::PartialOrd<Tup<"@ + ts
        + spec_coma(n) + rhsps + ">> for Tup<"@ + spec_full_generics(n)
        + "> {\n    fn partial_cmp(&self, other: &Tup<"@ + ts + spec_coma(n) + rhsps
        + ">) -> core::option::Option<core::cmp::Ordering> {\n        "@ + partial_chain(fields)
        + "\n    }\n}\n"@
}

/// The hash implementation: per-field hashes combined in registry order.
pub open spec fn spec_to_hash_impl(fields: Seq<Seq<char>>) -> Seq<char> {
    let n = fields.len() as int;
    "impl<"@ + spec_join(
        Seq::new(fields.len(), |i: int| num_piece("T"@, ": core::hash::Hash"@, i)),
        ", "@,
    ) + spec_coma(n) + spec_join(Seq::new(fields.len(), |i: int| num_piece("P"@, ""@, i)), ", "@)
        + "> core::hash::Hash for Tup<"@ + spec_full_generics(n)
        + "> {\n    fn hash<H: core::hash::Hasher>(&self, state: &mut H) {\n"@ + spec_join(
        Seq::new(fields.len(), |i: int| hash_body_piece(fields, i)),
        ""@,
    ) + "    }\n}\n"@
}

/// Everything the generator emits for one field universe.
pub open spec fn spec_to_token_stream(fields: Seq<Seq<char>>) -> Seq<char> {
    spec_to_def(fields) + spec_to_new_impl(fields) + spec_to_default_impl(fields)
        + spec_to_debug_impl(fields) + spec_to_add_impl(fields) + spec_to_into_impl(fields)
        + spec_to_eq_impl(fields) + spec_to_ord_impl(fields) + spec_to_hash_impl(fields)
}

/// Builds the nested comparison chain of the ordering body.
fn ord_chain_exec(fields: &Vec<Vec<char>>) -> (r: Vec<char>)
    ensures
        r@ == ord_chain(names_view(fields@)),
{
    let ghost fv = names_view(fields@);
    let mut acc = to_chars("core::cmp::Ordering::Equal");
    let mut i = fields.len();
    proof {
        assert(fv.skip(fields@.len() as int) =~= Seq::<Seq<char>>::empty());
    }
    while i > 0
        invariant
            i <= fields@.len(),
            fv == names_view(fields@),
            acc@ == ord_chain(fv.skip(i as int)),
        decreases i,
    {
        i = i - 1;
        let piece = to_chars("match core::cmp::Ord::cmp(&self.");
        let piece = cat(piece, clone_chars(&fields[i]));
        let piece = cat_lit(piece, ", &other.");
        let piece = cat(piece, clone_chars(&fields[i]));
        let piece = cat_lit(piece, ") { core::cmp::Ordering::Equal => { ");
        let piece = cat(piece, acc);
        let piece = cat_lit(piece, " }, cmp => cmp, }");
        acc = piece;
        proof {
            assert(fv[i as int] == fields@[i as int]@);
            assert(fv.skip(i as int)[0] == fv[i as int]);
            assert(fv.skip(i as int).drop_first() =~= fv.skip(i as int + 1));
            assert(acc@ =~= ord_chain(fv.skip(i as int)));
        }
    }
    proof {
        assert(fv.skip(0) =~= fv);
    }
    acc
}

/// Builds the nested comparison chain of the partial ordering body.
fn partial_chain_exec(fields: &Vec<Vec<char>>) -> (r: Vec<char>)
    ensures
        r@ == partial_chain(names_view(fields@)),
{
    let ghost fv = names_view(fields@);
    let mut acc = to_chars("core::option::Option::Some(core::cmp::Ordering::Equal)");
    let mut i = fields.len();
    proof {
        assert(fv.skip(fields@.len() as int) =~= Seq::<Seq<char>>::empty());
    }
    while i > 0
        invariant
            i <= fields@.len(),
            fv == names_view(fields@),
            acc@ == partial_chain(fv.skip(i as int)),
        decreases i,
    {
        i = i - 1;
        let piece = to_chars("match core::cmp::PartialOrd::partial_cmp(&self.");
        let piece = cat(piece, clone_chars(&fields[i]));
        let piece = cat_lit(piece, ", &other.");
        let piece = cat(piece, clone_chars(&fields[i]));
        let piece = cat_lit(piece, ") { core::option::Option::Some(core::cmp::Ordering::Equal) => { ");
        let piece = cat(piece, acc);
        let piece = cat_lit(piece, " }, cmp => cmp, }");
        acc = piece;
        proof {
            assert(fv[i as int] == fields@[i as int]@);
            assert(fv.skip(i as int)[0] == fv[i as int]);
            assert(fv.skip(i as int).drop_first() =~= fv.skip(i as int + 1));
            assert(acc@ =~= partial_chain(fv.skip(i as int)));
        }
    }
    proof {
        assert(fv.skip(0) =~= fv);
    }
    acc
}

impl TupInfo {
    /// Emits the constructor implementation.
    pub fn to_new_impl(&self) -> (r: Vec<char>)
        requires
            self.wf(),
        ensures
            r@ == spec_to_new_impl(names_view(self.fields@)),
    {
        let ghost fv = names_view(self.fields@);
        let params = new_param_parts(&self.fields);
        let commas = field_comma_parts(&self.fields);
        let out = to_chars("impl<");
        let out = cat(out, clone_chars(&self.full_generics));
        let out = cat_lit(out, "> Tup<");
        let out = cat(out, clone_chars(&self.full_generics));
        let out = cat_lit(out, "> {\n    pub fn new(");
        let out = cat(out, join_parts(&params, ", "));
        let out = cat_lit(out, ") -> Self {\n        Tup { ");
        let out = cat(out, join_parts(&commas, ""));
        let out = cat_lit(out, "_phantom: core::marker::PhantomData }\n    }\n}\n");
        proof {
            assert(out@ =~= spec_to_new_impl(fv));
        }
        out
    }

    /// Emits the default implementation.
    pub fn to_default_impl(&self) -> (r: Vec<char>)
        requires
            self.wf(),
        ensures
            r@ == spec_to_default_impl(names_view(self.fields@)),
    {
        let ghost fv = names_view(self.fields@);
        let n = self.fields.len();
        let coma: &str = if n == 0 {
            ""
        } else {
            ", "
        };
        proof {
            assert(coma@ == spec_coma(fv.len() as int));
        }
        let units = const_parts("()", n);
        let unuseds = const_parts("crate::tup_struct::Unused", n);
        let field_units = field_unit_parts(&self.fields);
        let out = to_chars("impl core::default::Default for Tup<");
        let out = cat(out, join_parts(&units, ", "));
        let out = cat_lit(out, coma);
        let out = cat(out, join_parts(&unuseds, ", "));
        let out = cat_lit(out, "> {\n    fn default() -> Self {\n        Tup { ");
        let out = cat(out, join_parts(&field_units, ""));
        let out = cat_lit(out, "_phantom: core::marker::PhantomData }\n    }\n}\n");
        proof {
            assert(out@ =~= spec_to_default_impl(fv));
        }
        out
    }

    /// Emits the debug implementation.
    pub fn to_debug_impl(&self) -> (r: Vec<char>)
        requires
            self.wf(),
        ensures
            r@ == spec_to_debug_impl(names_view(self.fields@)),
    {
        let ghost fv = names_view(self.fields@);
        let n = self.fields.len();
        let body = debug_body_parts(&self.fields);
        let out = to_chars("impl<");
        let out = cat(out, clone_chars(&self.full_generics));
        let out = cat_lit(out, "> core::fmt::Debug for Tup<");
        let out = cat(out, clone_chars(&self.full_generics));
        let out = cat_lit(out, ">");
        let wc: Vec<char> = if n == 0 {
            to_chars("")
        } else {
            let pb = numbered_parts(
                "P",
                ": crate::tup_struct::ConvertToDebugStruct + core::default::Default",
                n,
            );
            let tb = numbered_parts("T", ": core::fmt::Debug", n);
            let w = to_chars("\n    where ");
            let w = cat(w, join_parts(&pb, ", "));
            let w = cat_lit(w, ", ");
            let w = cat(w, join_parts(&tb, ", "));
            w
        };
        let out = cat(out, wc);
        let out = cat_lit(
            out,
            "\n{\n    fn fmt(&self, f: &mut core::fmt::Formatter) -> core::fmt::Result {\n        let mut debug_struct = f.debug_struct(\"tup\");\n",
        );
        let out = cat(out, join_parts(&body, ""));
        let out = cat_lit(out, "        debug_struct.finish()\n    }\n}\n");
        proof {
            assert(out@ =~= spec_to_debug_impl(fv));
        }
        out
    }

    /// Emits the merge implementation.
    pub fn to_add_impl(&self) -> (r: Vec<char>)
        requires
            self.wf(),
        ensures
            r@ == spec_to_add_impl(names_view(self.fields@)),
    {
        let ghost fv = names_view(self.fields@);
        let n = self.fields.len();
        let coma: &str = if n == 0 {
            ""
        } else {
            ", "
        };
        proof {
            assert(coma@ == spec_coma(fv.len() as int));
        }
        let rhs = rhs_generics_exec(n);
        let out_t = add_out_t_parts(n);
        let out_p = add_out_p_parts(n);
        let body = add_body_parts(&self.fields);
        let out = to_chars("impl<");
        let out = cat(out, clone_chars(&self.full_generics));
        let out = cat_lit(out, coma);
        let out = cat(out, clone_chars(&rhs));
        let out = cat_lit(out, "> core::ops::Add<Tup<");
        let out = cat(out, clone_chars(&rhs));
        let out = cat_lit(out, ">> for Tup<");
        let out = cat(out, clone_chars(&self.full_generics));
        let out = cat_lit(out, ">");
        let wc: Vec<char> = if n == 0 {
            to_chars("")
        } else {
            let wh = add_where_parts(n);
            let w = to_chars("\n    where ");
            let w = cat(w, join_parts(&wh, ", "));
            w
        };
        let out = cat(out, wc);
        let out = cat_lit(out, "\n{\n    type Output = Tup<");
        let out = cat(out, join_parts(&out_t, ", "));
        let out = cat_lit(out, coma);
        let out = cat(out, join_parts(&out_p, ", "));
        let out = cat_lit(out, ">;\n    fn add(self, rhs: Tup<");
        let out = cat(out, clone_chars(&rhs));
        let out = cat_lit(out, ">) -> Self::Output {\n        Self::Output { ");
        let out = cat(out, join_parts(&body, ""));
        let out = cat_lit(out, "_phantom: core::marker::PhantomData }\n    }\n}\n");
        proof {
            assert(out@ =~= spec_to_add_impl(fv));
        }
        out
    }

    /// Emits the conversion implementation.
    pub fn to_into_impl(&self) -> (r: Vec<char>)
        requires
            self.wf(),
        ensures
            r@ == spec_to_into_impl(names_view(self.fields@)),
    {
        let ghost fv = names_view(self.fields@);
        let n = self.fields.len();
        let coma: &str = if n == 0 {
            ""
        } else {
            ", "
        };
        proof {
            assert(coma@ == spec_coma(fv.len() as int));
        }
        let newps_parts = numbered_parts("NEWP", "", n);
        let newps = join_parts(&newps_parts, ", ");
        let outs = into_out_parts(n);
        let body = into_body_parts(&self.fields);
        let out = to_chars("impl<");
        let out = cat(out, clone_chars(&self.full_generics));
        let out = cat_lit(out, coma);
        let out = cat(out, clone_chars(&newps));
        let out = cat_lit(out, "> crate::convert::TupFrom<Tup<");
        let out = cat(out, clone_chars(&self.full_generics));
        let out = cat_lit(out, ">> for Tup<");
        let out = cat(out, join_parts(&outs, ", "));
        let out = cat_lit(out, coma);
        let out = cat(out, clone_chars(&newps));
        let out = cat_lit(out, ">");
        let wc: Vec<char> = if n == 0 {
            to_chars("")
        } else {
            let wh = into_where_parts(n);
            let w = to_chars("\n    where ");
            let w = cat(w, join_parts(&wh, ", "));
            w
        };
        let out = cat(out, wc);
        let out = cat_lit(out, "\n{\n    fn from_tup(current: Tup<");
        let out = cat(out, clone_chars(&self.full_generics));
        let out = cat_lit(out, ">) -> Self {\n        Self { ");
        let out = cat(out, join_parts(&body, ""));
        let out = cat_lit(out, "_phantom: core::marker::PhantomData }\n    }\n}\n");
        proof {
            assert(out@ =~= spec_to_into_impl(fv));
        }
        out
    }

    /// Emits the equality implementations.
    pub fn to_eq_impl(&self) -> (r: Vec<char>)
        requires
            self.wf(),
        ensures
            r@ == spec_to_eq_impl(names_view(self.fields@)),
    {
        let ghost fv = names_view(self.fields@);
        let n = self.fields.len();
        let coma: &str = if n == 0 {
            ""
        } else {
            ", "
        };
        proof {
            assert(coma@ == spec_coma(fv.len() as int));
        }
        let ps_parts = numbered_parts("P", "", n);
        let ps = join_parts(&ps_parts, ", ");
        let rhsps_parts = numbered_parts("RHSP", "", n);
        let rhsps = join_parts(&rhsps_parts, ", ");
        let ts_parts = numbered_parts("T", "", n);
        let ts = join_parts(&ts_parts, ", ");
        let teq_parts = numbered_parts("T", ": core::cmp::Eq", n);
        let tpeq_parts = numbered_parts("T", ": core::cmp::PartialEq", n);
        let body = if n == 0 {
            to_chars("true")
        } else {
            let terms = eq_term_parts(&self.fields);
            join_parts(&terms, " && ")
        };
        let out = to_chars("impl<");
        let out = cat(out, join_parts(&teq_parts, ", "));
        let out = cat_lit(out, coma);
        let out = cat(out, clone_chars(&ps));
        let out = cat_lit(out, "> core::cmp::Eq for Tup<");
        let out = cat(out, clone_chars(&self.full_generics));
        let out = cat_lit(out, "> {}\n\nimpl<");
        let out = cat(out, join_parts(&tpeq_parts, ", "));
        let out = cat_lit(out, coma);
        let out = cat(out, clone_chars(&ps));
        let out = cat_lit(out, coma);
        let out = cat(out, clone_chars(&rhsps));
        let out = cat_lit(out, "> core::cmp::PartialEq<Tup<");
        let out = cat(out, clone_chars(&ts));
        let out = cat_lit(out, coma);
        let out = cat(out, clone_chars(&rhsps));
        let out = cat_lit(out, ">> for Tup<");
        let out = cat(out, clone_chars(&self.full_generics));
        let out = cat_lit(out, "> {\n    fn eq(&self, other: &Tup<");
        let out = cat(out, clone_chars(&ts));
        let out = cat_lit(out, coma);
        let out = cat(out, clone_chars(&rhsps));
        let out = cat_lit(out, ">) -> bool {\n        ");
        let out = cat(out, body);
        let out = cat_lit(out, "\n    }\n}\n");
        proof {
            assert(out@ =~= spec_to_eq_impl(fv));
        }
        out
    }

    /// Emits the ordering implementations.
    pub fn to_ord_impl(&self) -> (r: Vec<char>)
        requires
            self.wf(),
        ensures
            r@ == spec_to_ord_impl(names_view(self.fields@)),
    {
        let ghost fv = names_view(self.fields@);
        let n = self.fields.len();
        let coma: &str = if n == 0 {
            ""
        } else {
            ", "
        };
        proof {
            assert(coma@ == spec_coma(fv.len() as int));
        }
        let ps_parts = numbered_parts("P", "", n);
        let ps = join_parts(&ps_parts, ", ");
        let rhsps_parts = numbered_parts("RHSP", "", n);
        let rhsps = join_parts(&rhsps_parts, ", ");
        let ts_parts = numbered_parts("T", "", n);
        let ts = join_parts(&ts_parts, ", ");
        let tord_parts = numbered_parts("T", ": core::cmp::Ord", n);
        let tpord_parts = numbered_parts("T", ": core::cmp::PartialOrd", n);
        let chain = ord_chain_exec(&self.fields);
        let pchain = partial_chain_exec(&self.fields);
        let out = to_chars("impl<");
        let out = cat(out, join_parts(&tord_parts, ", "));
        let out = cat_lit(out, coma);
        let out = cat(out, clone_chars(&ps));
        let out = cat_lit(out, "> core::cmp::Ord for Tup<");
        let out = cat(out, clone_chars(&self.full_generics));
        let out = cat_lit(out, "> {\n    fn cmp(&self, other: &Tup<");
        let out = cat(out, clone_chars(&self.full_generics));
        let out = cat_lit(out, ">) -> core::cmp::Ordering {\n        ");
        let out = cat(out, chain);
        let out = cat_lit(out, "\n    }\n}\n\nimpl<");
        let out = cat(out, join_parts(&tpord_parts, ", "));
        let out = cat_lit(out, coma);
        let out = cat(out, clone_chars(&ps));
        let out = cat_lit(out, coma);
        let out = cat(out, clone_chars(&rhsps));
        let out = cat_lit(out, "> core::cmp::PartialOrd<Tup<");
        let out = cat(out, clone_chars(&ts));
        let out = cat_lit(out, coma);
        let out = cat(out, clone_chars(&rhsps));
        let out = cat_lit(out, ">> for Tup<");
        let out = cat(out, clone_chars(&self.full_generics));
        let out = cat_lit(out, "> {\n    fn partial_cmp(&self, other: &Tup<");
        let out = cat(out, clone_chars(&ts));
        let out = cat_lit(out, coma);
        let out = cat(out, clone_chars(&rhsps));
        let out = cat_lit(out, ">) -> core::option::Option<core::cmp::Ordering> {\n        ");
        let out = cat(out, pchain);
        let out = cat_lit(out, "\n    }\n}\n");
        proof {
            assert(out@ =~= spec_to_ord_impl(fv));
        }
        out
    }

    /// Emits the hash implementation.
    pub fn to_hash_impl(&self) -> (r: Vec<char>)
        requires
            self.wf(),
        ensures
            r@ == spec_to_hash_impl(names_view(self.fields@)),
    {
        let ghost fv = names_view(self.fields@);
        let n = self.fields.len();
        let th_parts = numbered_parts("T", ": core::hash::Hash", n);
        let ps_parts = numbered_parts("P", "", n);
        let body = hash_body_parts(&self.fields);
        let coma: &str = if n == 0 {
            ""
        } else {
            ", "
        };
        proof {
            assert(coma@ == spec_coma(fv.len() as int));
        }
        let out = to_chars("impl<");
        let out = cat(out, join_parts(&th_parts, ", "));
        let out = cat_lit(out, coma);
        let out = cat(out, join_parts(&ps_parts, ", "));
        let out = cat_lit(out, "> core::hash::Hash for Tup<");
        let out = cat(out, clone_chars(&self.full_generics));
        let out = cat_lit(out, "> {\n    fn hash<H: core::hash::Hasher>(&self, state: &mut H) {\n");
        let out = cat(out, join_parts(&body, ""));
        let out = cat_lit(out, "    }\n}\n");
        proof {
            assert(names_view(th_parts@) == Seq::new(fv.len(), |i: int| num_piece("T"@, ": core::hash::Hash"@, i)));
            assert(names_view(ps_parts@) == Seq::new(fv.len(), |i: int| num_piece("P"@, ""@, i)));
            assert(names_view(body@) == Seq::new(fv.len(), |i: int| hash_body_piece(fv, i)));
            if n == 0 {
                assert(spec_coma(fv.len() as int) == ""@);
            } else {
                assert(spec_coma(fv.len() as int) == ", "@);
            }
            assert(out@ =~= spec_to_hash_impl(fv));
        }
        out
    }

    /// Emits everything the generator produces for one field universe.
    pub fn to_token_stream(&self) -> (r: Vec<char>)
        requires
            self.wf(),
        ensures
            r@ == spec_to_token_stream(names_view(self.fields@)),
    {
        let out = self.to_def();
        let out = cat(out, self.to_new_impl());
        let out = cat(out, self.to_default_impl());
        let out = cat(out, self.to_debug_impl());
        let out = cat(out, self.to_add_impl());
        let out = cat(out, self.to_into_impl());
        let out = cat(out, self.to_eq_impl());
        let out = cat(out, self.to_ord_impl());
        let out = cat(out, self.to_hash_impl());
        proof {
            assert(out@ =~= spec_to_token_stream(names_view(self.fields@)));
        }
        out
    }
}

} // verus!
