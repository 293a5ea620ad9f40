//! Types the checker derives around calls and loops: the generic
//! arguments a call determines, the element type a `for` loop binds, the
//! ADT arguments of a call's result, the signature of a collection
//! constructor, which impls a method receiver can use and what a receiver
//! fixes in a method's signature, `Deref` targets and variant payloads.

use vstd::prelude::*;
use crate::generic_types::{
    DiagModel, Substitutions, TypeDiagnostic, arg_compatible, args_compatible, diags_model, generic_args_compatible,
    lemma_diags_push, resolve_param, resolve_param_transitively, subst, subst_seq, substitute_param_map,
    substitute_param_map_fn_sig, unify, unify_call_types_probe,
};
use crate::type_compat::{shapes_compatible, ty_shapes_compatible};
use crate::type_shapes::contains_param;
use crate::ty::{
    AdtDef, ArgModel, DefId, FnSig, GenericArg, ParamModel, ParamTy, Ty, TyKind, TyModel, arg_model,
    args_model, lemma_args_model, lemma_tys_model, str_equals, tys_model,
};

verus! {

// ---------------------------------------------------------------------
// Generic arguments of calls and methods.
// ---------------------------------------------------------------------

/// The `i`-th generic parameter of a list of parameter names.
pub open spec fn nth_param(names: Seq<Seq<char>>, i: int) -> ParamModel {
    ParamModel { index: i as u32, name: names[i] }
}

pub open spec fn names_model(names: Seq<String>) -> Seq<Seq<char>> {
    names.map_values(|s: String| s@)
}

/// The arguments bound to the parameters named `names` (by position), up
/// to the first one unbound (whose position is the error).
pub open spec fn bound_args(names: Seq<Seq<char>>, s: Map<ParamModel, TyModel>, n: int) -> Result<Seq<TyModel>, int>
    decreases n,
{
    if n <= 0 {
        Ok(Seq::empty())
    } else {
        match bound_args(names, s, n - 1) {
            Ok(prev) => if s.contains_key(nth_param(names, n - 1)) {
                Ok(prev.push(s[nth_param(names, n - 1)]))
            } else {
                Err(n - 1)
            },
            Err(i) => Err(i),
        }
    }
}

/// The generic arguments of a call of a function whose generic parameters
/// are named `names`, read off the call's substitution: `None` for a
/// function without generics, or (recording which) when a parameter was
/// not inferred.
pub open spec fn call_args(names: Seq<Seq<char>>, s: Map<ParamModel, TyModel>) -> (Option<Seq<TyModel>>, Seq<DiagModel>) {
    if names.len() == 0 {
        (None, Seq::empty())
    } else {
        match bound_args(names, s, names.len() as int) {
            Ok(ts) => (Some(ts), Seq::empty()),
            Err(i) => (None, seq![DiagModel::UninferredParam(names[i])]),
        }
    }
}

/// The generic arguments a call determines for a function whose generic
/// parameters are named `names`; see `call_args`.
pub fn generic_call_args(names: &[String], subs: &Substitutions, diags: &mut Vec<TypeDiagnostic>) -> (r: Option<Vec<Ty>>)
    requires
        subs.wf(),
        names@.len() <= u32::MAX,
    ensures
        match r {
            Some(v) => call_args(names_model(names@), subs.model()).0 == Some(v@.map_values(|t: Ty| t.model())),
            None => call_args(names_model(names@), subs.model()).0 is None,
        },
        diags_model(final(diags)@) == diags_model(old(diags)@) + call_args(names_model(names@), subs.model()).1,
{
    let ghost nm = names_model(names@);
    if names.len() == 0 {
        assert(diags_model(diags@) =~= diags_model(diags@) + Seq::<DiagModel>::empty());
        return None;
    }
    let mut args: Vec<Ty> = Vec::new();
    assert(args@.map_values(|t: Ty| t.model()) =~= Seq::<TyModel>::empty());
    let mut i: usize = 0;
    while i < names.len()
        invariant
            i <= names@.len(),
            0 < names@.len() <= u32::MAX,
            nm == names_model(names@),
            subs.wf(),
            diags@ == old(diags)@,
            bound_args(nm, subs.model(), i as int) == Ok::<Seq<TyModel>, int>(args@.map_values(|t: Ty| t.model())),
        decreases names@.len() - i,
    {
        let param = ParamTy { index: i as u32, name: names[i].clone() };
        assert(param.model() == nth_param(nm, i as int));
        match subs.get(&param) {
            Some(argument) => {
                let ghost old_args = args@;
                args.push(argument.duplicate());
                assert(args@.map_values(|t: Ty| t.model()) =~= old_args.map_values(|t: Ty| t.model()).push(argument.model()));
            },
            None => {
                proof {
                    assert(bound_args(nm, subs.model(), i + 1) == Err::<Seq<TyModel>, int>(i as int));
                    lemma_bound_args_stuck(nm, subs.model(), i + 1, names@.len() as int);
                    assert(nm[i as int] == names@[i as int]@);
                }
                let d = TypeDiagnostic::UninferredParam(names[i].clone());
                proof { lemma_diags_push(diags@, d); }
                diags.push(d);
                return None;
            },
        }
        i += 1;
    }
    assert(diags_model(diags@) =~= diags_model(diags@) + Seq::<DiagModel>::empty());
    Some(args)
}

proof fn lemma_bound_args_stuck(names: Seq<Seq<char>>, s: Map<ParamModel, TyModel>, k: int, n: int)
    requires
        0 < k <= n,
        bound_args(names, s, k) is Err,
    ensures
        bound_args(names, s, n) == bound_args(names, s, k),
    decreases n - k,
{
    if n > k {
        lemma_bound_args_stuck(names, s, k, n - 1);
    }
}

/// What the parameters named `names` resolve to (following bindings to
/// further parameters), up to the first that resolves to no type but a
/// parameter or is unbound (whose position is the error).
pub open spec fn resolved_args(names: Seq<Seq<char>>, s: Map<ParamModel, TyModel>, n: int) -> Result<Seq<TyModel>, int>
    decreases n,
{
    if n <= 0 {
        Ok(Seq::empty())
    } else {
        match resolved_args(names, s, n - 1) {
            Ok(prev) => match resolve_param(nth_param(names, n - 1), s) {
                Some(t) => if t is Param {
                    Err(n - 1)
                } else {
                    Ok(prev.push(t))
                },
                None => Err(n - 1),
            },
            Err(i) => Err(i),
        }
    }
}

/// A generic parameter of an impl (or of its method) that a call leaves
/// undetermined.
#[derive(Debug)]
pub struct UninferredGeneric {
    pub name: String,
    /// Whether the parameter is the impl's (else the method's).
    pub of_impl: bool,
}

/// The generic arguments of an impl method call: the impl's parameters
/// (named `impl_names`), then the method's (`method_names`), each resolved
/// through the call's substitution; `Ok(None)` when there are none, and
/// the first parameter that resolves to no type as the error.
pub open spec fn method_args(
    impl_names: Seq<Seq<char>>,
    method_names: Seq<Seq<char>>,
    s: Map<ParamModel, TyModel>,
) -> Result<Option<Seq<TyModel>>, (Seq<char>, bool)> {
    if impl_names.len() == 0 && method_names.len() == 0 {
        Ok(None)
    } else {
        match resolved_args(impl_names, s, impl_names.len() as int) {
            Err(i) => Err((impl_names[i], true)),
            Ok(a) => match resolved_args(method_names, s, method_names.len() as int) {
                Err(i) => Err((method_names[i], false)),
                Ok(b) => Ok(Some(a + b)),
            },
        }
    }
}

fn resolve_all(names: &[String], subs: &Substitutions, out: &mut Vec<Ty>) -> (r: Result<(), usize>)
    requires
        subs.wf(),
        names@.len() <= u32::MAX,
    ensures
        match resolved_args(names_model(names@), subs.model(), names@.len() as int) {
            Ok(ts) => r is Ok && final(out)@.map_values(|t: Ty| t.model()) == old(out)@.map_values(|t: Ty| t.model()) + ts,
            Err(i) => r == Err::<(), usize>(i as usize) && 0 <= i < names@.len(),
        },
{
    let ghost nm = names_model(names@);
    let ghost o0 = out@.map_values(|t: Ty| t.model());
    assert(o0 + Seq::<TyModel>::empty() =~= o0);
    let mut i: usize = 0;
    while i < names.len()
        invariant
            i <= names@.len(),
            names@.len() <= u32::MAX,
            nm == names_model(names@),
            subs.wf(),
            o0 == old(out)@.map_values(|t: Ty| t.model()),
            resolved_args(nm, subs.model(), i as int) matches Ok(ts)
                && out@.map_values(|t: Ty| t.model()) == o0 + ts,
        decreases names@.len() - i,
    {
        let param = ParamTy { index: i as u32, name: names[i].clone() };
        assert(param.model() == nth_param(nm, i as int));
        let ghost prev = resolved_args(nm, subs.model(), i as int)->Ok_0;
        match resolve_param_transitively(&param, subs) {
            Some(argument) => {
                if let TyKind::Param(_) = &argument.kind {
                    proof { lemma_resolved_args_stuck(nm, subs.model(), i + 1, names@.len() as int); }
                    return Err(i);
                }
                let ghost old_out = out@;
                out.push(argument.duplicate());
                assert(out@.map_values(|t: Ty| t.model()) =~= old_out.map_values(|t: Ty| t.model()).push(argument.model()));
                assert(o0 + prev.push(argument.model()) =~= (o0 + prev).push(argument.model()));
            },
            None => {
                proof { lemma_resolved_args_stuck(nm, subs.model(), i + 1, names@.len() as int); }
                return Err(i);
            },
        }
        i += 1;
    }
    Ok(())
}

proof fn lemma_resolved_args_stuck(names: Seq<Seq<char>>, s: Map<ParamModel, TyModel>, k: int, n: int)
    requires
        0 < k <= n,
        resolved_args(names, s, k) is Err,
    ensures
        resolved_args(names, s, n) == resolved_args(names, s, k),
        resolved_args(names, s, k) matches Err(i) ==> 0 <= i < k,
    decreases n - k,
{
    if n > k {
        lemma_resolved_args_stuck(names, s, k, n - 1);
    } else {
        lemma_resolved_args_range(names, s, k);
    }
}

proof fn lemma_resolved_args_range(names: Seq<Seq<char>>, s: Map<ParamModel, TyModel>, k: int)
    ensures
        resolved_args(names, s, k) matches Err(i) ==> 0 <= i < k,
    decreases k,
{
    if k > 0 {
        lemma_resolved_args_range(names, s, k - 1);
    }
}

/// The generic arguments of an impl method call; see `method_args`.
pub fn method_generic_args(
    impl_names: &[String],
    method_names: &[String],
    subs: &Substitutions,
) -> (r: Result<Option<Vec<Ty>>, UninferredGeneric>)
    requires
        subs.wf(),
        impl_names@.len() <= u32::MAX,
        method_names@.len() <= u32::MAX,
    ensures
        match method_args(names_model(impl_names@), names_model(method_names@), subs.model()) {
            Ok(None) => r matches Ok(None),
            Ok(Some(ts)) => r matches Ok(Some(v)) && v@.map_values(|t: Ty| t.model()) == ts,
            Err((n, of_impl)) => r matches Err(e) && e.name@ == n && e.of_impl == of_impl,
        },
{
    if impl_names.len() == 0 && method_names.len() == 0 {
        return Ok(None);
    }
    let mut args: Vec<Ty> = Vec::new();
    assert(args@.map_values(|t: Ty| t.model()) =~= Seq::<TyModel>::empty());
    match resolve_all(impl_names, subs, &mut args) {
        Ok(()) => {},
        Err(i) => {
            return Err(UninferredGeneric { name: impl_names[i].clone(), of_impl: true });
        },
    }
    let ghost after_impl = args@.map_values(|t: Ty| t.model());
    match resolve_all(method_names, subs, &mut args) {
        Ok(()) => {},
        Err(i) => {
            return Err(UninferredGeneric { name: method_names[i].clone(), of_impl: false });
        },
    }
    proof {
        let a = resolved_args(names_model(impl_names@), subs.model(), impl_names@.len() as int)->Ok_0;
        assert(after_impl =~= Seq::<TyModel>::empty() + a);
    }
    Ok(Some(args))
}

// ---------------------------------------------------------------------
// Results of calls, loops over collections, constructors.
// ---------------------------------------------------------------------

/// The type arguments among a list of generic arguments, in order.
pub open spec fn type_args_of(args: Seq<ArgModel>) -> Seq<TyModel>
    decreases args.len(),
{
    if args.len() == 0 {
        Seq::empty()
    } else {
        type_args_of(args.drop_last()) + match args.last() {
            ArgModel::Type(t) => seq![t],
            _ => Seq::empty(),
        }
    }
}

/// The type arguments of a call's result type, when the callee is a
/// function pointer type whose output (under the call's substitution) is
/// an ADT with at least one type argument.
pub open spec fn output_args(callable: TyModel, s: Map<ParamModel, TyModel>) -> Option<Seq<TyModel>> {
    match callable {
        TyModel::FnPtr(_, out) => match subst(*out, s) {
            TyModel::Adt(_, args) => if type_args_of(args).len() > 0 {
                Some(type_args_of(args))
            } else {
                None
            },
            _ => None,
        },
        _ => None,
    }
}

/// The type arguments of the result type of a call of `callable` under
/// the substitution `subs`; see `output_args`.
pub fn callable_output_args(callable: &Ty, subs: &Substitutions) -> (r: Option<Vec<Ty>>)
    requires
        subs.wf(),
    ensures
        match r {
            Some(v) => output_args(callable.model(), subs.model()) == Some(v@.map_values(|t: Ty| t.model())),
            None => output_args(callable.model(), subs.model()) is None,
        },
{
    let signature = match &callable.kind {
        TyKind::FnPtr(signature) => signature,
        _ => return None,
    };
    let output = substitute_param_map(&signature.output, subs);
    let args = match &output.kind {
        TyKind::Adt(_, args) => args,
        _ => return None,
    };
    let ghost am = args_model(args@);
    proof { lemma_args_model(args@); }
    let mut out: Vec<Ty> = Vec::new();
    let mut i: usize = 0;
    while i < args.len()
        invariant
            i <= args@.len(),
            am == args_model(args@),
            am.len() == args@.len(),
            forall|j: int| 0 <= j < args@.len() ==> #[trigger] am[j] == arg_model(args@[j]),
            out@.map_values(|t: Ty| t.model()) == type_args_of(am.take(i as int)),
        decreases args@.len() - i,
    {
        let ghost old_out = out@;
        assert(am.take(i + 1).drop_last() =~= am.take(i as int));
        assert(am.take(i + 1).last() == am[i as int]);
        match &args[i] {
            GenericArg::Type(t) => {
                out.push(t.duplicate());
                assert(out@.map_values(|t: Ty| t.model()) =~= old_out.map_values(|t: Ty| t.model()) + seq![t.model()]);
            },
            _ => {
                assert(type_args_of(am.take(i + 1)) =~= type_args_of(am.take(i as int)));
            },
        }
        i += 1;
    }
    assert(am.take(args@.len() as int) =~= am);
    if out.len() == 0 {
        None
    } else {
        Some(out)
    }
}

/// The type a well-known struct has with the given arguments, when the
/// struct is declared (`def` is its definition's identity).
pub fn well_known_struct_ty(def: Option<DefId>, args: Vec<GenericArg>) -> (r: Option<Ty>)
    ensures
        match def {
            Some(did) => r matches Some(t) && t.model() == TyModel::Adt(AdtDef { did }, args_model(args@)),
            None => r is None,
        },
{
    match def {
        Some(did) => Some(Ty { kind: TyKind::Adt(AdtDef { did }, args) }),
        None => None,
    }
}

/// The element type a `for` loop over a value of type `iter` binds (a
/// reference is looked through): an array's or slice's element type, or
/// a `Vec`'s first type argument (`vec_def` identifies `Vec`). Anything
/// else is recorded and gets the error type.
pub open spec fn loop_element(iter: TyModel, vec_def: Option<DefId>) -> (TyModel, Seq<DiagModel>) {
    let t = match iter {
        TyModel::Ref(_, inner, _) => *inner,
        _ => iter,
    };
    match t {
        TyModel::Array(elem, _) => (*elem, Seq::empty()),
        TyModel::Slice(elem) => (*elem, Seq::empty()),
        TyModel::Adt(adt, args) => if vec_def == Some(adt.did) {
            if args.len() > 0 && args[0] is Type {
                (args[0]->Type_0, Seq::empty())
            } else {
                (TyModel::Error, seq![DiagModel::VecElementMissing])
            }
        } else {
            (TyModel::Error, seq![DiagModel::NotIterable(t)])
        },
        _ => (TyModel::Error, seq![DiagModel::NotIterable(t)]),
    }
}

/// The element type a `for` loop over `iter_ty` binds; see `loop_element`.
pub fn for_loop_element_ty(iter_ty: &Ty, vec_def: Option<DefId>, diags: &mut Vec<TypeDiagnostic>) -> (r: Ty)
    ensures
        r.model() == loop_element(iter_ty.model(), vec_def).0,
        diags_model(final(diags)@) == diags_model(old(diags)@) + loop_element(iter_ty.model(), vec_def).1,
{
    let t: &Ty = match &iter_ty.kind {
        TyKind::Ref(_, inner, _) => inner,
        _ => iter_ty,
    };
    assert(t.model() == match iter_ty.model() {
        TyModel::Ref(_, inner, _) => *inner,
        _ => iter_ty.model(),
    });
    match &t.kind {
        TyKind::Array(elem, _) => {
            assert(diags_model(diags@) =~= diags_model(diags@) + Seq::<DiagModel>::empty());
            elem.duplicate()
        },
        TyKind::Slice(elem) => {
            assert(diags_model(diags@) =~= diags_model(diags@) + Seq::<DiagModel>::empty());
            elem.duplicate()
        },
        TyKind::Adt(adt, args) => {
            proof { lemma_args_model(args@); }
            let is_vec = match vec_def {
                Some(did) => did == adt.did,
                None => false,
            };
            if is_vec {
                if args.len() > 0 {
                    assert(args_model(args@)[0] == arg_model(args@[0]));
                    if let GenericArg::Type(elem) = &args[0] {
                        assert(diags_model(diags@) =~= diags_model(diags@) + Seq::<DiagModel>::empty());
                        return elem.duplicate();
                    }
                }
                let d = TypeDiagnostic::VecElementMissing;
                proof { lemma_diags_push(diags@, d); }
                diags.push(d);
                Ty::error()
            } else {
                let d = TypeDiagnostic::NotIterable(t.duplicate());
                proof { lemma_diags_push(diags@, d); }
                diags.push(d);
                Ty::error()
            }
        },
        _ => {
            let d = TypeDiagnostic::NotIterable(t.duplicate());
            proof { lemma_diags_push(diags@, d); }
            diags.push(d);
            Ty::error()
        },
    }
}

/// The parameter `K` (index 0) or `V` (index 1) of a map constructor.
pub open spec fn map_params() -> Seq<ArgModel> {
    seq![
        ArgModel::Type(TyModel::Param(ParamModel { index: 0, name: "K"@ })),
        ArgModel::Type(TyModel::Param(ParamModel { index: 1, name: "V"@ })),
    ]
}

/// The signature of a collection constructor path: `HashMap::from` takes a
/// slice of `HashMapEntry<K, V>` and gives a `HashMap<K, V>` (`entry_def`
/// and `map_def` identify the two structs; an undeclared one is recorded
/// and the signature is the error type). Any other path is no collection
/// constructor.
pub open spec fn constructor_signature(
    segments: Seq<Seq<char>>,
    map_def: Option<DefId>,
    entry_def: Option<DefId>,
) -> (Option<TyModel>, Seq<DiagModel>) {
    if segments.len() >= 2 && segments[segments.len() - 1] == "from"@ && segments[segments.len() - 2] == "HashMap"@ {
        match entry_def {
            None => (Some(TyModel::Error), seq![DiagModel::StructNotDeclared("HashMapEntry"@)]),
            Some(e) => match map_def {
                None => (Some(TyModel::Error), seq![DiagModel::StructNotDeclared("HashMap"@)]),
                Some(m) => (Some(TyModel::FnPtr(
                    seq![TyModel::Slice(Box::new(TyModel::Adt(AdtDef { did: e }, map_params())))],
                    Box::new(TyModel::Adt(AdtDef { did: m }, map_params())),
                )), Seq::empty()),
            },
        }
    } else {
        (None, Seq::empty())
    }
}

fn map_param_args() -> (r: Vec<GenericArg>)
    ensures
        args_model(r@) == map_params(),
{
    let k = Ty { kind: TyKind::Param(ParamTy { index: 0, name: String::from_str("K") }) };
    let v = Ty { kind: TyKind::Param(ParamTy { index: 1, name: String::from_str("V") }) };
    let mut r: Vec<GenericArg> = Vec::new();
    r.push(GenericArg::Type(k));
    r.push(GenericArg::Type(v));
    proof {
        reveal_strlit("K");
        reveal_strlit("V");
        lemma_args_model(r@);
        assert(args_model(r@) =~= map_params());
    }
    r
}

/// The signature of the collection constructor the path with these
/// segment names stands for, if it stands for one; see
/// `constructor_signature`.
pub fn collection_constructor_signature(
    segments: &[String],
    map_def: Option<DefId>,
    entry_def: Option<DefId>,
    diags: &mut Vec<TypeDiagnostic>,
) -> (r: Option<Ty>)
    ensures
        match r {
            Some(t) => constructor_signature(segments@.map_values(|s: String| s@), map_def, entry_def).0 == Some(t.model()),
            None => constructor_signature(segments@.map_values(|s: String| s@), map_def, entry_def).0 is None,
        },
        diags_model(final(diags)@) == diags_model(old(diags)@)
            + constructor_signature(segments@.map_values(|s: String| s@), map_def, entry_def).1,
{
    let ghost sm = segments@.map_values(|s: String| s@);
    let n = segments.len();
    if n < 2 || !str_equals(segments[n - 1].as_str(), "from") || !str_equals(segments[n - 2].as_str(), "HashMap") {
        proof {
            if n >= 2 {
                assert(sm[n - 1] == segments@[n - 1]@);
                assert(sm[n - 2] == segments@[n - 2]@);
            }
        }
        assert(diags_model(diags@) =~= diags_model(diags@) + Seq::<DiagModel>::empty());
        return None;
    }
    assert(sm[n - 1] == segments@[n - 1]@);
    assert(sm[n - 2] == segments@[n - 2]@);
    let entry = match well_known_struct_ty(entry_def, map_param_args()) {
        Some(t) => t,
        None => {
            let d = TypeDiagnostic::StructNotDeclared(String::from_str("HashMapEntry"));
            proof { lemma_diags_push(diags@, d); }
            diags.push(d);
            return Some(Ty::error());
        },
    };
    let output = match well_known_struct_ty(map_def, map_param_args()) {
        Some(t) => t,
        None => {
            let d = TypeDiagnostic::StructNotDeclared(String::from_str("HashMap"));
            proof { lemma_diags_push(diags@, d); }
            diags.push(d);
            return Some(Ty::error());
        },
    };
    let input = Ty { kind: TyKind::Slice(Box::new(entry)) };
    let mut inputs: Vec<Box<Ty>> = Vec::new();
    inputs.push(Box::new(input));
    proof {
        lemma_tys_model(inputs@);
        assert(tys_model(inputs@) =~= seq![input.model()]);
    }
    assert(diags_model(diags@) =~= diags_model(diags@) + Seq::<DiagModel>::empty());
    Some(Ty { kind: TyKind::FnPtr(FnSig { inputs, output: Box::new(output) }) })
}

// ---------------------------------------------------------------------
// Method candidates.
// ---------------------------------------------------------------------

/// A type with one outer reference removed.
pub open spec fn peel_one_ref(t: TyModel) -> TyModel {
    match t {
        TyModel::Ref(_, inner, _) => *inner,
        _ => t,
    }
}

/// Whether an impl whose self type is `impl_self` is a candidate for a
/// method call on `receiver` (one outer reference removed from each): an
/// ADT receiver needs an impl for the same ADT whose generic arguments are
/// compatible with the receiver's; any other receiver needs an impl self
/// type of its shape that unifies speculatively with it.
pub open spec fn receiver_matches(receiver: TyModel, impl_self: TyModel) -> bool {
    let r = peel_one_ref(receiver);
    let s = peel_one_ref(impl_self);
    match r {
        TyModel::Adt(rd, rargs) => match s {
            TyModel::Adt(sd, sargs) => sd.did == rd.did && args_compatible(sargs, rargs),
            _ => false,
        },
        _ => shapes_compatible(s, r) && unify(s, r, Map::empty(), false).ok,
    }
}

fn peel_one_reference(t: &Ty) -> (r: &Ty)
    ensures
        r.model() == peel_one_ref(t.model()),
{
    match &t.kind {
        TyKind::Ref(_, inner, _) => inner,
        _ => t,
    }
}

proof fn lemma_args_model_map(v: Seq<GenericArg>)
    ensures
        args_model(v) == v.map_values(|a: GenericArg| arg_model(a)),
{
    lemma_args_model(v);
    assert(args_model(v) =~= v.map_values(|a: GenericArg| arg_model(a)));
}

/// Whether an impl with the (checked) self type `impl_self_ty` is a
/// candidate for a method call on `receiver_ty`; see `receiver_matches`.
pub fn impl_matches_receiver(receiver_ty: &Ty, impl_self_ty: &Ty) -> (r: bool)
    ensures
        r == receiver_matches(receiver_ty.model(), impl_self_ty.model()),
{
    let receiver = peel_one_reference(receiver_ty);
    let self_ty = peel_one_reference(impl_self_ty);
    match &receiver.kind {
        TyKind::Adt(receiver_def, receiver_args) => match &self_ty.kind {
            TyKind::Adt(impl_def, impl_args) => {
                proof {
                    lemma_args_model_map(receiver_args@);
                    lemma_args_model_map(impl_args@);
                }
                impl_def.did == receiver_def.did && generic_args_compatible(impl_args.as_slice(), receiver_args.as_slice())
            },
            _ => false,
        },
        _ => {
            if !ty_shapes_compatible(&self_ty.kind, &receiver.kind) {
                return false;
            }
            let mut subs = Substitutions::new();
            unify_call_types_probe(self_ty, receiver, &mut subs).is_ok()
        },
    }
}

/// A still-generic impl for an ADT (each argument of its self type a type
/// that mentions a generic parameter) is a method candidate for every
/// receiver of that ADT with as many type arguments, behind at most one
/// reference.
pub proof fn lemma_generic_impl_matches(receiver: TyModel, impl_def: AdtDef, impl_args: Seq<ArgModel>)
    requires
        peel_one_ref(receiver) matches TyModel::Adt(rd, rargs) && rd.did == impl_def.did
            && rargs.len() == impl_args.len()
            && forall|j: int| 0 <= j < rargs.len() ==> #[trigger] rargs[j] is Type,
        forall|j: int| 0 <= j < impl_args.len() ==> (#[trigger] impl_args[j]) is Type && contains_param(impl_args[j]->Type_0),
    ensures
        receiver_matches(receiver, TyModel::Adt(impl_def, impl_args)),
{
    let rargs = peel_one_ref(receiver)->Adt_1;
    assert forall|j: int| 0 <= j < impl_args.len() implies #[trigger] arg_compatible(impl_args[j], rargs[j]) by {
        assert(rargs[j] is Type);
        assert(impl_args[j] is Type);
    }
}

/// A method's declared signature with `Self` fixed by the receiver: its
/// first input unified speculatively (from no bindings) with `receiver`,
/// and the resulting substitution applied to every input and the output;
/// `None` when the signature takes no receiver or the receiver does not
/// fit.
pub open spec fn receiver_applied(signature: TyModel, receiver: TyModel) -> Option<TyModel> {
    match signature {
        TyModel::FnPtr(ins, out) => if ins.len() == 0 {
            None
        } else {
            let u = unify(ins[0], receiver, Map::empty(), false);
            if u.ok {
                Some(TyModel::FnPtr(subst_seq(ins, u.subs), Box::new(subst(*out, u.subs))))
            } else {
                None
            }
        },
        _ => None,
    }
}

/// A method's declared signature with `Self` fixed by `receiver_ty`; see
/// `receiver_applied`.
pub fn apply_receiver(signature: &Ty, receiver_ty: &Ty) -> (r: Option<Ty>)
    ensures
        match receiver_applied(signature.model(), receiver_ty.model()) {
            Some(t) => r matches Some(ty) && ty.model() == t,
            None => r is None,
        },
{
    let sig = match &signature.kind {
        TyKind::FnPtr(sig) => sig,
        _ => return None,
    };
    proof { lemma_tys_model(sig.inputs@); }
    if sig.inputs.len() == 0 {
        return None;
    }
    let mut subs = Substitutions::new();
    if unify_call_types_probe(&sig.inputs[0], receiver_ty, &mut subs).is_err() {
        return None;
    }
    let substituted = substitute_param_map_fn_sig(sig, &subs);
    Some(Ty { kind: TyKind::FnPtr(substituted) })
}

/// What an ADT receiver dereferences to through a `Deref` impl whose self
/// type is `impl_self` (one outer reference removed) and whose `Target` is
/// `target`: the target under the substitution that speculatively unifies
/// the impl's self type with the receiver; `None` for a receiver that is
/// not an ADT or an impl that does not fit it.
pub open spec fn deref_through(receiver: TyModel, impl_self: TyModel, target: TyModel) -> Option<TyModel> {
    if receiver is Adt {
        let u = unify(peel_one_ref(impl_self), receiver, Map::empty(), false);
        if u.ok {
            Some(subst(target, u.subs))
        } else {
            None
        }
    } else {
        None
    }
}

/// The type `receiver_ty` dereferences to through one `Deref` impl; see
/// `deref_through`.
pub fn deref_target_through(receiver_ty: &Ty, impl_self_ty: &Ty, target: &Ty) -> (r: Option<Ty>)
    ensures
        match deref_through(receiver_ty.model(), impl_self_ty.model(), target.model()) {
            Some(t) => r matches Some(ty) && ty.model() == t,
            None => r is None,
        },
{
    match &receiver_ty.kind {
        TyKind::Adt(_, _) => {},
        _ => return None,
    }
    let self_ty = peel_one_reference(impl_self_ty);
    let mut subs = Substitutions::new();
    if unify_call_types_probe(self_ty, receiver_ty, &mut subs).is_err() {
        return None;
    }
    Some(substitute_param_map(target, &subs))
}

/// The payload types of an enum variant whose declared payload is
/// `payload`, for a scrutinee with the generic arguments `args`: the
/// payload with the enum's parameters replaced by position, split into
/// its fields when it is a tuple.
pub open spec fn payload_types(payload: TyModel, args: Seq<ArgModel>) -> Seq<TyModel> {
    match crate::generic_types::subst_positional(payload, args) {
        TyModel::Tuple(fields) => fields,
        t => seq![t],
    }
}

/// The payload types of a variant; see `payload_types`.
pub fn variant_payload(payload: Ty, scrutinee_args: &[GenericArg]) -> (r: Vec<Ty>)
    ensures
        r@.map_values(|t: Ty| t.model()) == payload_types(payload.model(), scrutinee_args@.map_values(|a: GenericArg| arg_model(a))),
{
    let substituted = crate::generic_types::substitute_params(payload, scrutinee_args);
    let mut out: Vec<Ty> = Vec::new();
    match &substituted.kind {
        TyKind::Tuple(fields) => {
            proof { lemma_tys_model(fields@); }
            let mut i: usize = 0;
            while i < fields.len()
                invariant
                    i <= fields@.len(),
                    out@.len() == i,
                    tys_model(fields@).len() == fields@.len(),
                    forall|j: int| 0 <= j < fields@.len() ==> #[trigger] tys_model(fields@)[j] == fields@[j].model(),
                    forall|j: int| 0 <= j < i ==> (#[trigger] out@[j]).model() == fields@[j].model(),
                decreases fields@.len() - i,
            {
                out.push(fields[i].duplicate());
                i += 1;
            }
            assert(out@.map_values(|t: Ty| t.model()) =~= tys_model(fields@));
        },
        _ => {
            out.push(substituted.duplicate());
            assert(out@.map_values(|t: Ty| t.model()) =~= seq![substituted.model()]);
        },
    }
    out
}

} // verus!
