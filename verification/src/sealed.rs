//! The sealing of the conversion traits.
//!
//! The generated conversion traits are meant to be implemented for the
//! record type alone, so the generator emits a private module with a
//! `Sealed` trait implemented exactly for it.

use vstd::prelude::*;
use crate::chars::{cat, cat_lit, clone_chars, to_chars};
use crate::tup_info::{TupInfo, spec_full_generics};

verus! {

/// The sealing module's text for a field universe of `n` fields.
pub open spec fn spec_sealed(n: int) -> Seq<char> {
    "mod private {\n    pub trait Sealed {}\n    impl<"@ + spec_full_generics(n)
        + "> Sealed for crate::tup_struct::Tup<"@ + spec_full_generics(n) + "> {}\n}\n"@
}

/// Emits the sealing module.
pub fn to_token_stream(info: &TupInfo) -> (r: Vec<char>)
    requires
        info.wf(),
    ensures
        r@ == spec_sealed(info.fields@.len() as int),
{
    let out = to_chars("mod private {\n    pub trait Sealed {}\n    impl<");
    let out = cat(out, clone_chars(&info.full_generics));
    let out = cat_lit(out, "> Sealed for crate::tup_struct::Tup<");
    let out = cat(out, clone_chars(&info.full_generics));
    let out = cat_lit(out, "> {}\n}\n");
    proof {
        assert(out@ =~= spec_sealed(info.fields@.len() as int));
    }
    out
}

} // verus!
