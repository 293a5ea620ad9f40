//! Structural comparisons of checked types: annotations with holes
//! against resolved types, and the coarse shape test that gates which impl
//! candidates a receiver is tried against.

use vstd::prelude::*;
use crate::ty::{
    ArgModel, GenericArg, Ty, TyKind, TyModel, arg_model, args_model, lemma_args_model,
    lemma_tys_model, same_arg, tys_model,
};
use crate::type_shapes::kind_model;

verus! {

// ---------------------------------------------------------------------
// Annotations with inference holes.
// ---------------------------------------------------------------------

/// Whether the annotation `a` matches the resolved type `c`, an inference
/// hole `_` in `a` matching anything: references, tuples, arrays, slices
/// and ADT type arguments are compared position by position; everything
/// else must be equal.
pub open spec fn matches_holes(a: TyModel, c: TyModel) -> bool
    decreases a,
{
    match a {
        TyModel::Infer(_) => true,
        TyModel::Ref(_, ai, _) => match c {
            TyModel::Ref(_, ci, _) => matches_holes(*ai, *ci),
            _ => a == c,
        },
        TyModel::Tuple(as_) => match c {
            TyModel::Tuple(cs) => if as_.len() == cs.len() {
                all_match_holes(as_, cs)
            } else {
                a == c
            },
            _ => a == c,
        },
        TyModel::Array(ai, al) => match c {
            TyModel::Array(ci, cl) => matches_holes(*ai, *ci) && al == cl,
            _ => a == c,
        },
        TyModel::Slice(ai) => match c {
            TyModel::Slice(ci) => matches_holes(*ai, *ci),
            _ => a == c,
        },
        TyModel::Adt(ad, aargs) => match c {
            TyModel::Adt(cd, cargs) => if ad.did == cd.did && aargs.len() == cargs.len() {
                all_args_match_holes(aargs, cargs)
            } else {
                a == c
            },
            _ => a == c,
        },
        _ => a == c,
    }
}

pub open spec fn all_match_holes(as_: Seq<TyModel>, cs: Seq<TyModel>) -> bool
    decreases as_,
{
    if as_.len() == 0 || cs.len() == 0 {
        true
    } else {
        all_match_holes(as_.drop_last(), cs.drop_last()) && matches_holes(as_[as_.len() - 1], cs[cs.len() - 1])
    }
}

pub open spec fn all_args_match_holes(as_: Seq<ArgModel>, cs: Seq<ArgModel>) -> bool
    decreases as_,
{
    if as_.len() == 0 || cs.len() == 0 {
        true
    } else {
        all_args_match_holes(as_.drop_last(), cs.drop_last()) && match (as_[as_.len() - 1], cs[cs.len() - 1]) {
            (ArgModel::Type(x), ArgModel::Type(y)) => matches_holes(x, y),
            (x, y) => x == y,
        }
    }
}

proof fn lemma_all_match_holes(as_: Seq<TyModel>, cs: Seq<TyModel>)
    requires
        as_.len() == cs.len(),
    ensures
        all_match_holes(as_, cs) <==> forall|j: int| 0 <= j < as_.len() ==> #[trigger] matches_holes(as_[j], cs[j]),
    decreases as_.len(),
{
    if as_.len() > 0 {
        lemma_all_match_holes(as_.drop_last(), cs.drop_last());
        assert forall|j: int| 0 <= j < as_.len() - 1 implies #[trigger] as_.drop_last()[j] == as_[j]
            && cs.drop_last()[j] == cs[j] by {}
        if forall|j: int| 0 <= j < as_.len() ==> #[trigger] matches_holes(as_[j], cs[j]) {
            assert forall|j: int| 0 <= j < as_.drop_last().len() implies
                #[trigger] matches_holes(as_.drop_last()[j], cs.drop_last()[j]) by {
                assert(matches_holes(as_[j], cs[j]));
            }
            assert(matches_holes(as_[as_.len() - 1], cs[cs.len() - 1]));
        }
        if all_match_holes(as_, cs) {
            assert forall|j: int| 0 <= j < as_.len() implies #[trigger] matches_holes(as_[j], cs[j]) by {
                if j < as_.len() - 1 {
                    assert(matches_holes(as_.drop_last()[j], cs.drop_last()[j]));
                }
            }
        }
    }
}

pub open spec fn arg_matches_holes(a: ArgModel, c: ArgModel) -> bool {
    match (a, c) {
        (ArgModel::Type(x), ArgModel::Type(y)) => matches_holes(x, y),
        (x, y) => x == y,
    }
}

proof fn lemma_all_args_match_holes(as_: Seq<ArgModel>, cs: Seq<ArgModel>)
    requires
        as_.len() == cs.len(),
    ensures
        all_args_match_holes(as_, cs) <==> forall|j: int| 0 <= j < as_.len() ==> #[trigger] arg_matches_holes(as_[j], cs[j]),
    decreases as_.len(),
{
    if as_.len() > 0 {
        lemma_all_args_match_holes(as_.drop_last(), cs.drop_last());
        assert forall|j: int| 0 <= j < as_.len() - 1 implies #[trigger] as_.drop_last()[j] == as_[j]
            && cs.drop_last()[j] == cs[j] by {}
        if forall|j: int| 0 <= j < as_.len() ==> #[trigger] arg_matches_holes(as_[j], cs[j]) {
            assert forall|j: int| 0 <= j < as_.drop_last().len() implies
                #[trigger] arg_matches_holes(as_.drop_last()[j], cs.drop_last()[j]) by {
                assert(arg_matches_holes(as_[j], cs[j]));
            }
            assert(arg_matches_holes(as_[as_.len() - 1], cs[cs.len() - 1]));
        }
        if all_args_match_holes(as_, cs) {
            assert forall|j: int| 0 <= j < as_.len() implies #[trigger] arg_matches_holes(as_[j], cs[j]) by {
                if j < as_.len() - 1 {
                    assert(arg_matches_holes(as_.drop_last()[j], cs.drop_last()[j]));
                }
            }
        }
    }
}

/// Whether the annotation `annotation` matches the resolved type
/// `concrete`, an elided `_` in the annotation matching whatever stands
/// in its place; see `matches_holes`.
pub fn ty_matches_with_infer_holes(annotation: &Ty, concrete: &Ty) -> (r: bool)
    ensures
        r == matches_holes(annotation.model(), concrete.model()),
    decreases annotation,
{
    match (&annotation.kind, &concrete.kind) {
        (TyKind::Infer(_), _) => true,
        (TyKind::Ref(_, a, _), TyKind::Ref(_, c, _)) => ty_matches_with_infer_holes(a, c),
        (TyKind::Tuple(a), TyKind::Tuple(c)) => {
            proof {
                lemma_tys_model(a@);
                lemma_tys_model(c@);
            }
            if a.len() != c.len() {
                return annotation.same(concrete);
            }
            proof {
                lemma_all_match_holes(tys_model(a@), tys_model(c@));
            }
            let mut i: usize = 0;
            while i < a.len()
                invariant
                    i <= a@.len(),
                    a@.len() == c@.len(),
                    tys_model(a@).len() == a@.len(),
                    tys_model(c@).len() == c@.len(),
                    annotation.kind == TyKind::Tuple(*a),
                    annotation.model() == TyModel::Tuple(tys_model(a@)),
                    concrete.model() == TyModel::Tuple(tys_model(c@)),
                    all_match_holes(tys_model(a@), tys_model(c@)) <==>
                        forall|j: int| 0 <= j < tys_model(a@).len() ==> #[trigger] matches_holes(tys_model(a@)[j], tys_model(c@)[j]),
                    forall|j: int| 0 <= j < a@.len() ==> #[trigger] tys_model(a@)[j] == a@[j].model(),
                    forall|j: int| 0 <= j < c@.len() ==> #[trigger] tys_model(c@)[j] == c@[j].model(),
                    forall|j: int| 0 <= j < i ==> #[trigger] matches_holes(tys_model(a@)[j], tys_model(c@)[j]),
                decreases a@.len() - i,
            {
                assert(decreases_to!(annotation => a@[i as int]));
                if !ty_matches_with_infer_holes(&a[i], &c[i]) {
                    assert(!matches_holes(tys_model(a@)[i as int], tys_model(c@)[i as int]));
                    return false;
                }
                i += 1;
            }
            true
        },
        (TyKind::Array(a, a_len), TyKind::Array(c, c_len)) => ty_matches_with_infer_holes(a, c) && a_len.same(c_len),
        (TyKind::Slice(a), TyKind::Slice(c)) => ty_matches_with_infer_holes(a, c),
        (TyKind::Adt(a_def, a_args), TyKind::Adt(c_def, c_args)) => {
            proof {
                lemma_args_model(a_args@);
                lemma_args_model(c_args@);
            }
            if !(a_def.did == c_def.did && a_args.len() == c_args.len()) {
                return annotation.same(concrete);
            }
            proof {
                lemma_all_args_match_holes(args_model(a_args@), args_model(c_args@));
            }
            let mut i: usize = 0;
            while i < a_args.len()
                invariant
                    i <= a_args@.len(),
                    a_args@.len() == c_args@.len(),
                    args_model(a_args@).len() == a_args@.len(),
                    args_model(c_args@).len() == c_args@.len(),
                    annotation.kind == TyKind::Adt(*a_def, *a_args),
                    annotation.model() == TyModel::Adt(*a_def, args_model(a_args@)),
                    concrete.model() == TyModel::Adt(*c_def, args_model(c_args@)),
                    a_def.did == c_def.did,
                    all_args_match_holes(args_model(a_args@), args_model(c_args@)) <==>
                        forall|j: int| 0 <= j < args_model(a_args@).len() ==> #[trigger] arg_matches_holes(args_model(a_args@)[j], args_model(c_args@)[j]),
                    forall|j: int| 0 <= j < a_args@.len() ==> #[trigger] args_model(a_args@)[j] == arg_model(a_args@[j]),
                    forall|j: int| 0 <= j < c_args@.len() ==> #[trigger] args_model(c_args@)[j] == arg_model(c_args@[j]),
                    forall|j: int| 0 <= j < i ==> #[trigger] arg_matches_holes(args_model(a_args@)[j], args_model(c_args@)[j]),
                decreases a_args@.len() - i,
            {
                let ok = match (&a_args[i], &c_args[i]) {
                    (GenericArg::Type(x), GenericArg::Type(y)) => {
                        assert(decreases_to!(annotation => a_args@[i as int]));
                        ty_matches_with_infer_holes(x, y)
                    },
                    (x, y) => same_arg(x, y),
                };
                assert(ok == arg_matches_holes(args_model(a_args@)[i as int], args_model(c_args@)[i as int]));
                if !ok {
                    return false;
                }
                i += 1;
            }
            true
        },
        _ => annotation.same(concrete),
    }
}

/// An annotation matches the very type it spells out.
pub proof fn lemma_matches_holes_reflexive(t: TyModel)
    ensures
        matches_holes(t, t),
    decreases t,
{
    match t {
        TyModel::Ref(_, i, _) => lemma_matches_holes_reflexive(*i),
        TyModel::Tuple(fs) => lemma_all_match_holes_reflexive(fs),
        TyModel::Array(i, _) => lemma_matches_holes_reflexive(*i),
        TyModel::Slice(i) => lemma_matches_holes_reflexive(*i),
        TyModel::Adt(_, args) => lemma_all_args_match_holes_reflexive(args),
        _ => {},
    }
}

proof fn lemma_all_match_holes_reflexive(fs: Seq<TyModel>)
    ensures
        all_match_holes(fs, fs),
    decreases fs,
{
    if fs.len() > 0 {
        lemma_all_match_holes_reflexive(fs.drop_last());
        lemma_matches_holes_reflexive(fs[fs.len() - 1]);
    }
}

proof fn lemma_all_args_match_holes_reflexive(args: Seq<ArgModel>)
    ensures
        all_args_match_holes(args, args),
    decreases args,
{
    if args.len() > 0 {
        lemma_all_args_match_holes_reflexive(args.drop_last());
        match args[args.len() - 1] {
            ArgModel::Type(x) => lemma_matches_holes_reflexive(x),
            _ => {},
        }
    }
}

// ---------------------------------------------------------------------
// Shapes.
// ---------------------------------------------------------------------

/// Whether two types are of one kind, the coarse test that decides which
/// impl candidates a receiver is unified with: a parameter fits anything;
/// references are looked through on either side; arrays and slices fit
/// each other; tuples of one length, raw pointers, function pointers,
/// one ADT, and two integer (unsigned, float) types fit; anything else
/// must be equal.
pub open spec fn shapes_compatible(a: TyModel, b: TyModel) -> bool
    decreases a, b,
{
    if a is Param || b is Param {
        true
    } else {
        match (a, b) {
            (TyModel::Ref(_, ai, _), TyModel::Ref(_, bi, _)) => shapes_compatible(*ai, *bi),
            (TyModel::Ref(_, ai, _), _) => shapes_compatible(*ai, b),
            (_, TyModel::Ref(_, bi, _)) => shapes_compatible(a, *bi),
            (TyModel::Slice(_), TyModel::Slice(_)) => true,
            (TyModel::Slice(_), TyModel::Array(_, _)) => true,
            (TyModel::Array(_, _), TyModel::Slice(_)) => true,
            (TyModel::Array(_, _), TyModel::Array(_, _)) => true,
            (TyModel::Tuple(x), TyModel::Tuple(y)) => x.len() == y.len(),
            (TyModel::RawPtr(_, _), TyModel::RawPtr(_, _)) => true,
            (TyModel::FnPtr(_, _), TyModel::FnPtr(_, _)) => true,
            (TyModel::Adt(x, _), TyModel::Adt(y, _)) => x.did == y.did,
            (TyModel::Int(_), TyModel::Int(_)) => true,
            (TyModel::Uint(_), TyModel::Uint(_)) => true,
            (TyModel::Float(_), TyModel::Float(_)) => true,
            _ => a == b,
        }
    }
}

fn is_param_kind(k: &TyKind) -> (r: bool)
    ensures
        r == (kind_model(k) is Param),
{
    match k {
        TyKind::Param(_) => true,
        _ => false,
    }
}

/// Whether two type kinds are of one shape; see `shapes_compatible`.
pub fn ty_shapes_compatible(a: &TyKind, b: &TyKind) -> (r: bool)
    ensures
        r == shapes_compatible(kind_model(a), kind_model(b)),
    decreases a, b,
{
    if is_param_kind(a) || is_param_kind(b) {
        return true;
    }
    match (a, b) {
        (TyKind::Ref(_, ai, _), TyKind::Ref(_, bi, _)) => ty_shapes_compatible(&ai.kind, &bi.kind),
        (TyKind::Ref(_, ai, _), _) => ty_shapes_compatible(&ai.kind, b),
        (_, TyKind::Ref(_, bi, _)) => ty_shapes_compatible(a, &bi.kind),
        (TyKind::Slice(_), TyKind::Slice(_)) => true,
        (TyKind::Slice(_), TyKind::Array(_, _)) => true,
        (TyKind::Array(_, _), TyKind::Slice(_)) => true,
        (TyKind::Array(_, _), TyKind::Array(_, _)) => true,
        (TyKind::Tuple(x), TyKind::Tuple(y)) => {
            proof {
                lemma_tys_model(x@);
                lemma_tys_model(y@);
            }
            x.len() == y.len()
        },
        (TyKind::RawPtr(_), TyKind::RawPtr(_)) => true,
        (TyKind::FnPtr(_), TyKind::FnPtr(_)) => true,
        (TyKind::Adt(x, _), TyKind::Adt(y, _)) => x.did == y.did,
        (TyKind::Int(_), TyKind::Int(_)) => true,
        (TyKind::Uint(_), TyKind::Uint(_)) => true,
        (TyKind::Float(_), TyKind::Float(_)) => true,
        (TyKind::Bool, TyKind::Bool) => true,
        (TyKind::Char, TyKind::Char) => true,
        (TyKind::Str, TyKind::Str) => true,
        (TyKind::Never, TyKind::Never) => true,
        (TyKind::Any, TyKind::Any) => true,
        (TyKind::Type, TyKind::Type) => true,
        (TyKind::Error, TyKind::Error) => true,
        (TyKind::Infer(x), TyKind::Infer(y)) => x == y,
        _ => false,
    }
}

/// Shape compatibility does not depend on the order of its arguments.
pub proof fn lemma_shapes_compatible_symmetric(a: TyModel, b: TyModel)
    ensures
        shapes_compatible(a, b) == shapes_compatible(b, a),
    decreases a, b,
{
    if !(a is Param || b is Param) {
        match (a, b) {
            (TyModel::Ref(_, ai, _), TyModel::Ref(_, bi, _)) => lemma_shapes_compatible_symmetric(*ai, *bi),
            (TyModel::Ref(_, ai, _), _) => lemma_shapes_compatible_symmetric(*ai, b),
            (_, TyModel::Ref(_, bi, _)) => lemma_shapes_compatible_symmetric(a, *bi),
            _ => {},
        }
    }
}

/// Every type is of its own shape.
pub proof fn lemma_shapes_compatible_reflexive(t: TyModel)
    ensures
        shapes_compatible(t, t),
    decreases t,
{
    match t {
        TyModel::Ref(_, i, _) => lemma_shapes_compatible_reflexive(*i),
        _ => {},
    }
}

} // verus!
