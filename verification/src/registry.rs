//! The identifier registry's persisted snapshot.
//!
//! The field universe is serialized as one array literal of name strings in
//! canonical order. The snapshot is rewritten only when its content
//! changes, so an unchanged scan never invalidates downstream compilation
//! caches.

use vstd::prelude::*;
use crate::chars::{clone_chars, spec_join, to_chars, join_parts};
use crate::tup_struct::names_view;

verus! {

/// One name as it stands in the snapshot: quoted.
pub open spec fn spec_quoted(name: Seq<char>) -> Seq<char> {
    seq!['"'] + name + seq!['"']
}

/// The serialized snapshot: an array literal of the quoted names.
pub open spec fn spec_file_contents(names: Seq<Seq<char>>) -> Seq<char> {
    "&["@ + spec_join(Seq::new(names.len(), |i: int| spec_quoted(names[i])), ", "@) + "]"@
}

/// Serializes the field universe.
pub fn create_file_contents(names: &Vec<Vec<char>>) -> (r: Vec<char>)
    ensures
        r@ == spec_file_contents(names_view(names@)),
{
    let ghost nv = names_view(names@);
    let ghost quoted_full = Seq::new(nv.len(), |i: int| spec_quoted(nv[i]));
    let mut quoted: Vec<Vec<char>> = Vec::new();
    let mut i: usize = 0;
    proof {
        assert(names_view(quoted@) =~= quoted_full.subrange(0, 0));
    }
    while i < names.len()
        invariant
            i <= names@.len(),
            nv == names_view(names@),
            quoted_full == Seq::new(nv.len(), |i: int| spec_quoted(nv[i])),
            names_view(quoted@) == quoted_full.subrange(0, i as int),
        decreases names@.len() - i,
    {
        let ghost q0 = names_view(quoted@);
        let mut part: Vec<char> = Vec::new();
        part.push('"');
        let mut name = clone_chars(&names[i]);
        part.append(&mut name);
        part.push('"');
        proof {
            assert(names@[i as int]@ == nv[i as int]);
            assert(part@ =~= spec_quoted(nv[i as int]));
        }
        quoted.push(part);
        proof {
            assert(names_view(quoted@) =~= q0.push(quoted_full[i as int]));
            assert(quoted_full.subrange(0, i as int + 1) =~= quoted_full.subrange(0, i as int).push(
                quoted_full[i as int],
            ));
        }
        i = i + 1;
    }
    proof {
        assert(quoted_full.subrange(0, i as int) =~= quoted_full);
    }
    let mut out = to_chars("&[");
    let mut body = join_parts(&quoted, ", ");
    out.append(&mut body);
    let mut tail = to_chars("]");
    out.append(&mut tail);
    proof {
        assert(out@ =~= spec_file_contents(nv));
    }
    out
}

/// Whether the snapshot must be rewritten: only when none is persisted yet,
/// or the persisted content differs from the fresh one.
pub open spec fn spec_should_rewrite(current: Option<Seq<char>>, fresh: Seq<char>) -> bool {
    current != Some(fresh)
}

/// Decides whether to rewrite the snapshot, given the persisted content (or
/// none on a first build) and the freshly serialized one.
pub fn should_rewrite_file(current: &Option<Vec<char>>, fresh: &Vec<char>) -> (r: bool)
    ensures
        r == spec_should_rewrite(
            match current {
                Some(c) => Some(c@),
                None => None,
            },
            fresh@,
        ),
{
    match current {
        None => true,
        Some(c) => !crate::chars::chars_eq(c, fresh),
    }
}

/// Reconciles the candidate field universe against the persisted snapshot:
/// hands back the new content to write exactly when it differs from what is
/// persisted (and always on a first build).
pub fn reconcile(candidate: &Vec<Vec<char>>, persisted: &Option<Vec<char>>) -> (r: Option<
    Vec<char>,
>)
    ensures
        match r {
            Some(c) => {
                &&& c@ == spec_file_contents(names_view(candidate@))
                &&& spec_should_rewrite(
                    match persisted {
                        Some(p) => Some(p@),
                        None => None,
                    },
                    c@,
                )
            },
            None => !spec_should_rewrite(
                match persisted {
                    Some(p) => Some(p@),
                    None => None,
                },
                spec_file_contents(names_view(candidate@)),
            ),
        },
{
    let fresh = create_file_contents(candidate);
    if should_rewrite_file(persisted, &fresh) {
        Some(fresh)
    } else {
        None
    }
}

/// Registry determinism: serializing an unchanged field universe over its
/// own persisted snapshot never asks for a rewrite, so an unchanged scan
/// regenerates nothing.
pub proof fn lemma_no_spurious_rewrite(names: Seq<Seq<char>>)
    ensures
        !spec_should_rewrite(Some(spec_file_contents(names)), spec_file_contents(names)),
{
}

} // verus!
