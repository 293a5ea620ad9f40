//! The parts of typing a path that do not depend on looking the path up:
//! the generic arguments a struct or enum type named by a path takes, the
//! value an enum variant's path denotes, and the two unresolved type paths
//! that name built-in types.

use vstd::prelude::*;
use crate::generic_types::{diags_model, lemma_diags_push, ty_list_model, DiagModel, TypeDiagnostic};
use crate::literals::{unit_model, unit_ty};
use crate::ty::{
    ArgModel, FnSig, GenericArg, IntTy, Mutability, ParamModel, ParamTy, Ty, TyKind, TyModel, TypeAndMut,
    args_model, lemma_args_model, lemma_tys_model, str_equals, tys_model,
};

verus! {

/// A declared generic parameter of a struct or enum: its name and the
/// checked type of its default, when it declares one.
#[derive(Debug)]
pub struct GenericParamDecl {
    pub name: String,
    pub default: Option<Ty>,
}

impl GenericParamDecl {
    pub open spec fn model(&self) -> (Seq<char>, Option<TyModel>) {
        (self.name@, match self.default {
            Some(d) => Some(d.model()),
            None => None,
        })
    }
}

pub open spec fn params_model(v: Seq<GenericParamDecl>) -> Seq<(Seq<char>, Option<TyModel>)> {
    v.map_values(|p: GenericParamDecl| p.model())
}

pub open spec fn explicit_model(explicit: Option<Vec<Ty>>) -> Option<Seq<TyModel>> {
    match explicit {
        Some(v) => Some(ty_list_model(v@)),
        None => None,
    }
}

/// The declared parameter at position `i`, as a type.
pub open spec fn param_at(declared: Seq<(Seq<char>, Option<TyModel>)>, i: int) -> TyModel {
    TyModel::Param(ParamModel { index: i as u32, name: declared[i].0 })
}

/// The generic arguments of a struct or enum type named by a path whose
/// type's parameters are `declared`. With explicit arguments (checked):
/// those, followed, for each further declared parameter, by its default or
/// else the parameter itself. Without: each declared parameter itself.
pub open spec fn adt_path_args(explicit: Option<Seq<TyModel>>, declared: Seq<(Seq<char>, Option<TyModel>)>) -> Seq<ArgModel> {
    match &explicit {
        Some(ex) => Seq::new(
            if ex.len() >= declared.len() { ex.len() } else { declared.len() },
            |i: int| if i < ex.len() {
                ArgModel::Type(ex[i])
            } else {
                ArgModel::Type(match declared[i].1 {
                    Some(d) => d,
                    None => param_at(declared, i),
                })
            },
        ),
        None => Seq::new(declared.len(), |i: int| ArgModel::Type(param_at(declared, i))),
    }
}

/// The generic arguments of a struct or enum type named by a path; see
/// `adt_path_args`.
pub fn path_type_args(explicit: Option<Vec<Ty>>, declared: &[GenericParamDecl]) -> (r: Vec<GenericArg>)
    requires
        declared@.len() <= u32::MAX,
    ensures
        args_model(r@) == adt_path_args(explicit_model(explicit), params_model(declared@)),
{
    let ghost dm = params_model(declared@);
    let ghost em = explicit_model(explicit);
    let ghost expected = adt_path_args(em, dm);
    let mut out: Vec<GenericArg> = Vec::new();
    let mut start: usize = 0;
    let has_explicit = explicit.is_some();
    match &explicit {
        Some(v) => {
            let mut i: usize = 0;
            while i < v.len()
                invariant
                    i <= v@.len(),
                    em == Some(ty_list_model(v@)),
                    dm == params_model(declared@),
                    expected == adt_path_args(em, dm),
                    out@.len() == i,
                    forall|j: int| 0 <= j < i ==> #[trigger] crate::ty::arg_model(out@[j]) == expected[j],
                decreases v@.len() - i,
            {
                assert(ty_list_model(v@)[i as int] == v@[i as int].model());
                out.push(GenericArg::Type(v[i].duplicate()));
                i += 1;
            }
            start = v.len();
        },
        None => {},
    }
    let mut k: usize = start;
    while k < declared.len()
        invariant
            out@.len() == k,
            k >= start,
            k == start || k <= declared@.len(),
            has_explicit == em is Some,
            declared@.len() <= u32::MAX,
            dm == params_model(declared@),
            expected == adt_path_args(em, dm),
            em is None ==> start == 0,
            em matches Some(ex) ==> ex.len() == start,
            forall|j: int| 0 <= j < out@.len() ==> #[trigger] crate::ty::arg_model(out@[j]) == expected[j],
        decreases declared@.len() - k,
    {
        assert(dm[k as int] == declared@[k as int].model());
        let arg = match &declared[k].default {
            Some(d) if has_explicit => d.duplicate(),
            _ => Ty { kind: TyKind::Param(ParamTy { index: k as u32, name: declared[k].name.clone() }) },
        };
        out.push(GenericArg::Type(arg));
        k += 1;
    }
    proof {
        lemma_args_model(out@);
        assert(args_model(out@) =~= expected);
    }
    out
}

/// The generic arguments of an enum type named by the path of one of its
/// variants, for an enum whose parameters are named `names`: the path's
/// explicit arguments (checked) as they are, or else each parameter itself.
pub open spec fn enum_path_args(explicit: Option<Seq<TyModel>>, names: Seq<Seq<char>>) -> Seq<ArgModel> {
    match explicit {
        Some(ex) => Seq::new(ex.len(), |i: int| ArgModel::Type(ex[i])),
        None => Seq::new(names.len(), |i: int| ArgModel::Type(TyModel::Param(ParamModel { index: i as u32, name: names[i] }))),
    }
}

pub open spec fn strings_model(v: Seq<String>) -> Seq<Seq<char>> {
    v.map_values(|s: String| s@)
}

/// The generic arguments of an enum type named by a variant's path; see
/// `enum_path_args`.
pub fn enum_type_args(explicit: Option<Vec<Ty>>, names: &[String]) -> (r: Vec<GenericArg>)
    requires
        names@.len() <= u32::MAX,
    ensures
        args_model(r@) == enum_path_args(explicit_model(explicit), strings_model(names@)),
{
    let ghost expected = enum_path_args(explicit_model(explicit), strings_model(names@));
    let mut out: Vec<GenericArg> = Vec::new();
    match &explicit {
        Some(v) => {
            let mut i: usize = 0;
            while i < v.len()
                invariant
                    i <= v@.len(),
                    expected == enum_path_args(explicit_model(explicit), strings_model(names@)),
                    explicit == Some(*v),
                    out@.len() == i,
                    forall|j: int| 0 <= j < i ==> #[trigger] crate::ty::arg_model(out@[j]) == expected[j],
                decreases v@.len() - i,
            {
                out.push(GenericArg::Type(v[i].duplicate()));
                i += 1;
            }
            proof {
                lemma_args_model(out@);
                assert(args_model(out@) =~= expected);
            }
        },
        None => {
            let mut i: usize = 0;
            while i < names.len()
                invariant
                    i <= names@.len(),
                    names@.len() <= u32::MAX,
                    explicit is None,
                    expected == enum_path_args(explicit_model(explicit), strings_model(names@)),
                    out@.len() == i,
                    forall|j: int| 0 <= j < i ==> #[trigger] crate::ty::arg_model(out@[j]) == expected[j],
                decreases names@.len() - i,
            {
                out.push(GenericArg::Type(Ty { kind: TyKind::Param(ParamTy { index: i as u32, name: names[i].clone() }) }));
                i += 1;
            }
            proof {
                lemma_args_model(out@);
                assert(args_model(out@) =~= expected);
            }
        },
    }
    out
}

/// The value an enum variant's path denotes, for the enum type `enum_ty`:
/// a variant without payload is a value of the enum; one with a payload is
/// its constructor, a function from the payload's fields (the payload's
/// fields when it is a tuple, else the payload itself) to the enum.
pub open spec fn variant_value_model(enum_ty: TyModel, payload: Option<TyModel>) -> TyModel {
    match payload {
        None => enum_ty,
        Some(p) => TyModel::FnPtr(match p {
            TyModel::Tuple(fields) => fields,
            _ => seq![p],
        }, Box::new(enum_ty)),
    }
}

/// The value an enum variant's path denotes; see `variant_value_model`.
pub fn variant_value_ty(enum_ty: Ty, payload: Option<Ty>) -> (t: Ty)
    ensures
        t.model() == variant_value_model(enum_ty.model(), match payload {
            Some(p) => Some(p.model()),
            None => None,
        }),
{
    match payload {
        None => enum_ty,
        Some(p) => {
            let ghost pm = p.model();
            let inputs = match p.kind {
                TyKind::Tuple(fields) => fields,
                other => {
                    let single = Ty { kind: other };
                    let mut v: Vec<Box<Ty>> = Vec::new();
                    v.push(Box::new(single));
                    proof {
                        lemma_tys_model(v@);
                        assert(tys_model(v@) =~= seq![pm]);
                    }
                    v
                },
            };
            Ty { kind: TyKind::FnPtr(FnSig { inputs, output: Box::new(enum_ty) }) }
        },
    }
}

/// The type an unresolved type path denotes when it names a built-in type:
/// `void` is the unit type and `null` a shared raw pointer to `i8`.
pub open spec fn builtin_type_path(names: Seq<Seq<char>>) -> Option<TyModel> {
    if names.len() == 1 && names[0] == "void"@ {
        Some(unit_model())
    } else if names.len() == 1 && names[0] == "null"@ {
        Some(TyModel::RawPtr(Box::new(TyModel::Int(IntTy::I8)), Mutability::Not))
    } else {
        None
    }
}

/// The type an unresolved type path with the segment names `names`
/// denotes, when it names a built-in type; see `builtin_type_path`.
pub fn builtin_path_ty(names: &[String]) -> (r: Option<Ty>)
    ensures
        match builtin_type_path(strings_model(names@)) {
            Some(t) => r matches Some(x) && x.model() == t,
            None => r is None,
        },
{
    if names.len() != 1 {
        return None;
    }
    assert(strings_model(names@)[0] == names@[0]@);
    proof {
        reveal_strlit("void");
        reveal_strlit("null");
    }
    let first = names[0].as_str();
    assert(first@ == names@[0]@);
    if str_equals(first, "void") {
        Some(unit_ty())
    } else if str_equals(first, "null") {
        let byte = Ty::integer(IntTy::I8);
        assert(byte.model() == TyModel::Int(IntTy::I8));
        Some(Ty { kind: TyKind::RawPtr(TypeAndMut { ty: Box::new(byte), mutbl: Mutability::Not }) })
    } else {
        None
    }
}

/// A generic argument written in a path.
#[derive(Debug)]
pub enum PathGenericArg {
    /// A type argument, checked.
    Type(Ty),
    /// A const argument.
    Const,
    /// A lifetime argument.
    Lifetime,
}

/// The type arguments a path's written generic arguments give, in order,
/// and what reading them records: a lifetime takes no slot (lifetimes are
/// erased); a const argument, which typing does not support, is the error
/// type.
pub open spec fn written_type_args(args: Seq<PathGenericArg>) -> (Seq<TyModel>, Seq<DiagModel>)
    decreases args.len(),
{
    if args.len() == 0 {
        (Seq::empty(), Seq::empty())
    } else {
        let init = written_type_args(args.drop_last());
        match args.last() {
            PathGenericArg::Type(t) => (init.0.push(t.model()), init.1),
            PathGenericArg::Const => (init.0.push(TyModel::Error), init.1.push(DiagModel::ConstGenericArgument)),
            PathGenericArg::Lifetime => init,
        }
    }
}

/// The type arguments of a path's written generic arguments; see
/// `written_type_args`.
pub fn path_written_type_args(args: &[PathGenericArg], diags: &mut Vec<TypeDiagnostic>) -> (r: Vec<Ty>)
    ensures
        ty_list_model(r@) == written_type_args(args@).0,
        diags_model(final(diags)@) == diags_model(old(diags)@) + written_type_args(args@).1,
{
    let ghost d0 = diags_model(diags@);
    let mut out: Vec<Ty> = Vec::new();
    proof {
        assert(args@.take(0) =~= Seq::<PathGenericArg>::empty());
        assert(ty_list_model(out@) =~= Seq::<TyModel>::empty());
        assert(d0 + Seq::<DiagModel>::empty() =~= d0);
    }
    let mut i: usize = 0;
    while i < args.len()
        invariant
            i <= args@.len(),
            d0 == diags_model(old(diags)@),
            ty_list_model(out@) == written_type_args(args@.take(i as int)).0,
            diags_model(diags@) == d0 + written_type_args(args@.take(i as int)).1,
        decreases args@.len() - i,
    {
        let ghost prev = written_type_args(args@.take(i as int));
        let ghost old_out = out@;
        proof {
            assert(args@.take(i + 1).drop_last() =~= args@.take(i as int));
            assert(args@.take(i + 1).last() == args@[i as int]);
        }
        match &args[i] {
            PathGenericArg::Type(t) => {
                out.push(t.duplicate());
                assert(ty_list_model(out@) =~= prev.0.push(t.model()));
            },
            PathGenericArg::Const => {
                out.push(Ty::error());
                let d = TypeDiagnostic::ConstGenericArgument;
                proof { lemma_diags_push(diags@, d); }
                diags.push(d);
                assert(ty_list_model(out@) =~= prev.0.push(TyModel::Error));
                assert(diags_model(diags@) =~= d0 + prev.1.push(DiagModel::ConstGenericArgument));
            },
            PathGenericArg::Lifetime => {},
        }
        i += 1;
    }
    assert(args@.take(args@.len() as int) =~= args@);
    out
}

} // verus!
