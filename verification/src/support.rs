//! Small helpers shared by the checker's drivers.

use vstd::prelude::*;
use crate::expr::{Path, path_name};

verus! {

/// The crate names every package may refer to without declaring them.
pub open spec fn extern_prelude_names() -> Seq<Seq<char>> {
    seq!["std"@, "core"@, "alloc"@]
}

/// The default extern prelude: `std`, `core` and `alloc`, each once.
pub fn default_extern_prelude() -> (r: Vec<String>)
    ensures
        r@.map_values(|s: String| s@) == extern_prelude_names(),
        r@.map_values(|s: String| s@).no_duplicates(),
{
    let mut r: Vec<String> = Vec::new();
    r.push(String::from_str("std"));
    r.push(String::from_str("core"));
    r.push(String::from_str("alloc"));
    proof {
        reveal_strlit("std");
        reveal_strlit("core");
        reveal_strlit("alloc");
        assert(r@.map_values(|s: String| s@) =~= extern_prelude_names());
        assert("std"@[0] != "core"@[0] && "std"@[0] != "alloc"@[0] && "core"@[0] != "alloc"@[0]);
    }
    r
}

/// An expression standing as the self type of an `impl` block: a name
/// (a path) or anything else.
pub enum ImplSelfExpr {
    Name(Path),
    Other,
}

/// The name an `impl` block is for: the last segment of its self type's
/// path, when the self type is written as a name.
pub fn impl_self_ty_name(expr: &ImplSelfExpr) -> (r: Option<String>)
    ensures
        match expr {
            ImplSelfExpr::Name(p) => match r {
                Some(s) => p.segments@.len() > 0 && s@ == path_name(*p),
                None => p.segments@.len() == 0,
            },
            ImplSelfExpr::Other => r is None,
        },
{
    match expr {
        ImplSelfExpr::Name(path) => match path.last_name() {
            Some(name) => Some(name.clone()),
            None => None,
        },
        ImplSelfExpr::Other => None,
    }
}

} // verus!
