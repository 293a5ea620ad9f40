//! Method resolution over the impls of a program: which impl a method call
//! on a receiver uses, the method's result under the call's arguments, the
//! method's declared signature with `Self` fixed (for checking arguments
//! under it) or an associated const's declared type, and the auto-deref
//! chain through `Deref` impls along which methods are looked for.
//!
//! The impls are given as plain data, each with its checked self type, the
//! methods it provides (with their checked signatures), its associated
//! consts (with their checked types) and its `Deref` target, in the order
//! the program lists them.

use vstd::prelude::*;
use crate::call_types::{
    apply_receiver, impl_matches_receiver, method_args, method_generic_args, names_model, peel_one_ref,
    receiver_applied, receiver_matches, deref_target_through, deref_through, UninferredGeneric,
};
use crate::generic_types::{
    diags_model, instantiate, instantiate_call, instantiate_diags, ty_list_model, DiagModel, TypeDiagnostic,
};
use crate::generic_types::{subst, substitute_param_map, unify, unify_call_types_probe, Substitutions};
use crate::type_compat::{shapes_compatible, ty_shapes_compatible};
use crate::ty::{DefId, Ty, TyKind, TyModel, str_equals};

verus! {

/// A method an impl provides.
#[derive(Debug)]
pub struct MethodDecl {
    pub def_id: DefId,
    pub name: String,
    /// The method's signature, checked in the impl's scope.
    pub signature: Ty,
    /// The names of the method's own generic parameters.
    pub generics: Vec<String>,
}

/// An associated `const` an impl declares.
#[derive(Debug)]
pub struct ConstDecl {
    pub def_id: DefId,
    pub name: String,
    /// The const's declared type, checked in the impl's scope.
    pub ty: Ty,
}

/// An impl of the program, as method resolution reads it.
#[derive(Debug)]
pub struct ImplCandidate {
    /// The impl's checked self type.
    pub self_ty: Ty,
    /// The names of the impl's generic parameters.
    pub generics: Vec<String>,
    /// The methods declared in the impl, in order.
    pub methods: Vec<MethodDecl>,
    /// The associated consts declared in the impl, in order.
    pub assoc_consts: Vec<ConstDecl>,
    /// The default-bodied methods of the trait the impl implements, in
    /// order (none for an inherent impl).
    pub trait_defaults: Vec<MethodDecl>,
    /// The associated types the impl binds, in order: each name with its
    /// checked type.
    pub assoc_types: Vec<(String, Ty)>,
    /// The `Target` type of a `Deref` impl.
    pub deref_target: Option<Ty>,
}

/// A resolved method call: the method, the generic arguments of its impl
/// and its own (when it has any), and the call's output type.
#[derive(Debug)]
pub struct MethodResolution {
    pub def_id: DefId,
    pub generic_args: Option<Vec<Ty>>,
    pub output: Ty,
}

/// Why a method call could not be resolved.
#[derive(Debug)]
pub enum MethodLookupError {
    /// The method's signature does not take the call's arguments.
    ArgumentsMismatch,
    /// A generic parameter of the impl or of the method is left undetermined.
    Uninferred(UninferredGeneric),
    /// No impl reachable from the receiver provides the method.
    NotFound,
}

pub enum LookupErrModel {
    ArgumentsMismatch,
    Uninferred(Seq<char>, bool),
    NotFound,
}

impl MethodLookupError {
    pub open spec fn model(&self) -> LookupErrModel {
        match self {
            MethodLookupError::ArgumentsMismatch => LookupErrModel::ArgumentsMismatch,
            MethodLookupError::Uninferred(u) => LookupErrModel::Uninferred(u.name@, u.of_impl),
            MethodLookupError::NotFound => LookupErrModel::NotFound,
        }
    }
}

impl MethodResolution {
    pub open spec fn model(&self) -> (DefId, Option<Seq<TyModel>>, TyModel) {
        (self.def_id, match self.generic_args {
            Some(v) => Some(ty_list_model(v@)),
            None => None,
        }, self.output.model())
    }
}

/// A result of resolving a call at one receiver type is the modelled one.
pub open spec fn resolution_at_is(
    r: Result<Option<MethodResolution>, MethodLookupError>,
    m: Result<Option<(DefId, Option<Seq<TyModel>>, TyModel)>, LookupErrModel>,
) -> bool {
    match (r, m) {
        (Ok(None), Ok(None)) => true,
        (Ok(Some(x)), Ok(Some(y))) => x.model() == y,
        (Err(e), Err(f)) => e.model() == f,
        _ => false,
    }
}

/// A result of resolving a call is the modelled one.
pub open spec fn resolution_is(
    r: Result<MethodResolution, MethodLookupError>,
    m: Result<(DefId, Option<Seq<TyModel>>, TyModel), LookupErrModel>,
) -> bool {
    match (r, m) {
        (Ok(x), Ok(y)) => x.model() == y,
        (Err(e), Err(f)) => e.model() == f,
        _ => false,
    }
}

// ---------------------------------------------------------------------
// Finding the method.
// ---------------------------------------------------------------------

/// The position of the first method named `name` from position `i` on.
pub open spec fn first_named(decls: Seq<MethodDecl>, name: Seq<char>, i: int) -> Option<int>
    decreases decls.len() - i,
{
    if i < 0 || i >= decls.len() {
        None
    } else if decls[i].name@ == name {
        Some(i)
    } else {
        first_named(decls, name, i + 1)
    }
}

/// The method named `name` an impl provides: the first such method it
/// declares, or else the first such default method of its trait.
pub open spec fn provided_method(c: ImplCandidate, name: Seq<char>) -> Option<MethodDecl> {
    match first_named(c.methods@, name, 0) {
        Some(i) => Some(c.methods@[i]),
        None => match first_named(c.trait_defaults@, name, 0) {
            Some(i) => Some(c.trait_defaults@[i]),
            None => None,
        },
    }
}

/// The first impl from position `i` on that is a candidate for the
/// receiver (see `receiver_matches`) and provides the method, with the
/// method.
pub open spec fn method_candidate_from(receiver: TyModel, name: Seq<char>, impls: Seq<ImplCandidate>, i: int)
    -> Option<(int, MethodDecl)>
    decreases impls.len() - i,
{
    if i < 0 || i >= impls.len() {
        None
    } else if receiver_matches(receiver, impls[i].self_ty.model()) && provided_method(impls[i], name) is Some {
        Some((i, provided_method(impls[i], name)->Some_0))
    } else {
        method_candidate_from(receiver, name, impls, i + 1)
    }
}

fn first_named_index(decls: &Vec<MethodDecl>, name: &str) -> (r: Option<usize>)
    ensures
        match r {
            Some(k) => first_named(decls@, name@, 0) == Some(k as int),
            None => first_named(decls@, name@, 0) is None,
        },
{
    let mut k: usize = 0;
    while k < decls.len()
        invariant
            k <= decls@.len(),
            first_named(decls@, name@, 0) == first_named(decls@, name@, k as int),
        decreases decls@.len() - k,
    {
        if str_equals(decls[k].name.as_str(), name) {
            return Some(k);
        }
        k += 1;
    }
    None
}

fn find_provided<'a>(c: &'a ImplCandidate, name: &str) -> (r: Option<&'a MethodDecl>)
    ensures
        match provided_method(*c, name@) {
            Some(m) => r matches Some(x) && *x == m,
            None => r is None,
        },
{
    proof {
        lemma_first_named_range(c.methods@, name@, 0);
        lemma_first_named_range(c.trait_defaults@, name@, 0);
    }
    let own = first_named_index(&c.methods, name);
    match own {
        Some(i) => {
            assert(provided_method(*c, name@) == Some(c.methods@[i as int]));
            Some(&c.methods[i])
        },
        None => match first_named_index(&c.trait_defaults, name) {
            Some(i) => {
                assert(provided_method(*c, name@) == Some(c.trait_defaults@[i as int]));
                Some(&c.trait_defaults[i])
            },
            None => None,
        },
    }
}

fn find_candidate<'a>(receiver: &Ty, name: &str, impls: &'a [ImplCandidate]) -> (r: Option<(usize, &'a MethodDecl)>)
    ensures
        match method_candidate_from(receiver.model(), name@, impls@, 0) {
            Some((i, m)) => r matches Some((j, x)) && j == i && *x == m && i < impls@.len(),
            None => r is None,
        },
        r matches Some((j, x)) ==> j < impls@.len() && provided_method(impls@[j as int], name@) == Some(*x),
{
    let mut k: usize = 0;
    while k < impls.len()
        invariant
            k <= impls@.len(),
            method_candidate_from(receiver.model(), name@, impls@, 0)
                == method_candidate_from(receiver.model(), name@, impls@, k as int),
        decreases impls@.len() - k,
    {
        if impl_matches_receiver(receiver, &impls[k].self_ty) {
            if let Some(m) = find_provided(&impls[k], name) {
                return Some((k, m));
            }
        }
        k += 1;
    }
    None
}

// ---------------------------------------------------------------------
// Resolving a call at one receiver type.
// ---------------------------------------------------------------------

/// The resolution of a call of the method `name` on `receiver` with
/// arguments of the types `actuals` (the receiver's first among them),
/// looking only at impls for the receiver's own type, and what resolving
/// it records: `Ok(None)` when no candidate impl provides the method;
/// otherwise the first that does decides: its method is instantiated with
/// the arguments (see `instantiate`), which fails when the signature does
/// not take them, and the generic arguments of the impl and the method are
/// read off the instantiation (see `method_args`).
pub open spec fn output_at_model(receiver: TyModel, name: Seq<char>, actuals: Seq<TyModel>, impls: Seq<ImplCandidate>)
    -> (Result<Option<(DefId, Option<Seq<TyModel>>, TyModel)>, LookupErrModel>, Seq<DiagModel>)
{
    match method_candidate_from(receiver, name, impls, 0) {
        None => (Ok(None), Seq::empty()),
        Some((i, m)) => {
            let d = instantiate_diags(m.signature.model(), actuals);
            match instantiate(m.signature.model(), actuals) {
                None => (Err(LookupErrModel::ArgumentsMismatch), d),
                Some((s, out)) => match method_args(names_model(impls[i].generics@), names_model(m.generics@), s) {
                    Err((n, of_impl)) => (Err(LookupErrModel::Uninferred(n, of_impl)), d),
                    Ok(args) => (Ok(Some((m.def_id, args, out))), d),
                },
            }
        },
    }
}

/// Resolves a method call at one receiver type; see `output_at_model`.
pub fn method_output_at(
    receiver: &Ty,
    name: &str,
    actuals: &[Ty],
    impls: &[ImplCandidate],
    diags: &mut Vec<TypeDiagnostic>,
) -> (r: Result<Option<MethodResolution>, MethodLookupError>)
    requires
        forall|i: int| 0 <= i < impls@.len() ==> (#[trigger] impls@[i]).generics@.len() <= u32::MAX,
        forall|i: int, j: int| 0 <= i < impls@.len() && 0 <= j < impls@[i].methods@.len()
            ==> (#[trigger] impls@[i].methods@[j]).generics@.len() <= u32::MAX,
        forall|i: int, j: int| 0 <= i < impls@.len() && 0 <= j < impls@[i].trait_defaults@.len()
            ==> (#[trigger] impls@[i].trait_defaults@[j]).generics@.len() <= u32::MAX,
    ensures
        ({
            let m = output_at_model(receiver.model(), name@, ty_list_model(actuals@), impls@);
            &&& resolution_at_is(r, m.0)
            &&& diags_model(final(diags)@) == diags_model(old(diags)@) + m.1
        }),
{
    let ghost d0 = diags_model(diags@);
    let (index, method) = match find_candidate(receiver, name, impls) {
        None => {
            assert(diags_model(diags@) =~= d0 + Seq::<DiagModel>::empty());
            return Ok(None);
        },
        Some(found) => found,
    };
    proof {
        assert(provided_method(impls@[index as int], name@) == Some(*method));
        if first_named(impls@[index as int].methods@, name@, 0) is Some {
            let j = first_named(impls@[index as int].methods@, name@, 0)->Some_0;
            lemma_first_named_range(impls@[index as int].methods@, name@, 0);
            assert(impls@[index as int].methods@[j].generics@.len() <= u32::MAX);
        } else {
            let j = first_named(impls@[index as int].trait_defaults@, name@, 0)->Some_0;
            lemma_first_named_range(impls@[index as int].trait_defaults@, name@, 0);
            assert(impls@[index as int].trait_defaults@[j].generics@.len() <= u32::MAX);
        }
    }
    let (subs, output) = match instantiate_call(&method.signature, actuals, diags) {
        None => return Err(MethodLookupError::ArgumentsMismatch),
        Some(p) => p,
    };
    match method_generic_args(impls[index].generics.as_slice(), method.generics.as_slice(), &subs) {
        Err(u) => Err(MethodLookupError::Uninferred(u)),
        Ok(args) => {
            let res = MethodResolution { def_id: method.def_id, generic_args: args, output };
            proof {
                if res.generic_args is Some {
                    let v = res.generic_args->Some_0;
                    assert(ty_list_model(v@) =~= v@.map_values(|t: Ty| t.model()));
                }
            }
            Ok(Some(res))
        },
    }
}

proof fn lemma_first_named_range(decls: Seq<MethodDecl>, name: Seq<char>, i: int)
    ensures
        first_named(decls, name, i) matches Some(j) ==> 0 <= j < decls.len() && j >= i && decls[j].name@ == name,
    decreases decls.len() - i,
{
    if 0 <= i < decls.len() && decls[i].name@ != name {
        lemma_first_named_range(decls, name, i + 1);
    }
}

// ---------------------------------------------------------------------
// Auto-deref.
// ---------------------------------------------------------------------

/// Whether an impl whose self type is `impl_self` is an impl for the ADT
/// `receiver` (one outer reference removed from the self type).
pub open spec fn impl_for_adt(receiver: TyModel, impl_self: TyModel) -> bool {
    match (receiver, peel_one_ref(impl_self)) {
        (TyModel::Adt(rd, _), TyModel::Adt(sd, _)) => rd.did == sd.did,
        _ => false,
    }
}

/// What `receiver` dereferences to through the first `Deref` impl from
/// position `i` on that is an impl for its ADT and fits it (see
/// `deref_through`); `None` when there is none (always for a receiver that
/// is not an ADT).
pub open spec fn deref_step(receiver: TyModel, impls: Seq<ImplCandidate>, i: int) -> Option<TyModel>
    decreases impls.len() - i,
{
    if i < 0 || i >= impls.len() {
        None
    } else {
        match impls[i].deref_target {
            Some(t) => if impl_for_adt(receiver, impls[i].self_ty.model())
                && deref_through(receiver, impls[i].self_ty.model(), t.model()) is Some {
                deref_through(receiver, impls[i].self_ty.model(), t.model())
            } else {
                deref_step(receiver, impls, i + 1)
            },
            None => deref_step(receiver, impls, i + 1),
        }
    }
}

fn is_impl_for_adt(receiver: &Ty, impl_self: &Ty) -> (r: bool)
    ensures
        r == impl_for_adt(receiver.model(), impl_self.model()),
{
    let peeled = match &impl_self.kind {
        TyKind::Ref(_, inner, _) => &**inner,
        _ => impl_self,
    };
    assert(peeled.model() == peel_one_ref(impl_self.model()));
    match (&receiver.kind, &peeled.kind) {
        (TyKind::Adt(rd, _), TyKind::Adt(sd, _)) => rd.did.package == sd.did.package && rd.did.index == sd.did.index,
        _ => false,
    }
}

/// What a receiver dereferences to through the program's `Deref` impls;
/// see `deref_step`.
pub fn deref_target(receiver: &Ty, impls: &[ImplCandidate]) -> (r: Option<Ty>)
    ensures
        match deref_step(receiver.model(), impls@, 0) {
            Some(t) => r matches Some(x) && x.model() == t,
            None => r is None,
        },
{
    let mut k: usize = 0;
    while k < impls.len()
        invariant
            k <= impls@.len(),
            deref_step(receiver.model(), impls@, 0) == deref_step(receiver.model(), impls@, k as int),
        decreases impls@.len() - k,
    {
        if let Some(target) = &impls[k].deref_target {
            if is_impl_for_adt(receiver, &impls[k].self_ty) {
                if let Some(t) = deref_target_through(receiver, &impls[k].self_ty, target) {
                    return Some(t);
                }
            }
        }
        k += 1;
    }
    None
}

/// The most `Deref` steps method lookup takes from a receiver.
pub const DEREF_LIMIT: u32 = 8;

/// The resolution of a method call along the auto-deref chain of the
/// receiver, looking at most `fuel` receiver types: at each type the call
/// is resolved (see `output_at_model`); an error there ends the lookup,
/// and when no impl provides the method there the lookup goes on at what
/// the type dereferences to (see `deref_step`), until the chain ends.
pub open spec fn output_chain(
    receiver: TyModel,
    name: Seq<char>,
    actuals: Seq<TyModel>,
    impls: Seq<ImplCandidate>,
    fuel: nat,
) -> (Result<(DefId, Option<Seq<TyModel>>, TyModel), LookupErrModel>, Seq<DiagModel>)
    decreases fuel,
{
    if fuel == 0 {
        (Err(LookupErrModel::NotFound), Seq::empty())
    } else {
        let at = output_at_model(receiver, name, actuals, impls);
        match at.0 {
            Err(e) => (Err(e), at.1),
            Ok(Some(x)) => (Ok(x), at.1),
            Ok(None) => match deref_step(receiver, impls, 0) {
                Some(next) => output_chain(next, name, actuals, impls, (fuel - 1) as nat),
                None => (Err(LookupErrModel::NotFound), Seq::empty()),
            },
        }
    }
}

/// Resolves a method call along the receiver's auto-deref chain (at most
/// `DEREF_LIMIT` receiver types); see `output_chain`.
pub fn method_output(
    receiver: &Ty,
    name: &str,
    actuals: &[Ty],
    impls: &[ImplCandidate],
    diags: &mut Vec<TypeDiagnostic>,
) -> (r: Result<MethodResolution, MethodLookupError>)
    requires
        forall|i: int| 0 <= i < impls@.len() ==> (#[trigger] impls@[i]).generics@.len() <= u32::MAX,
        forall|i: int, j: int| 0 <= i < impls@.len() && 0 <= j < impls@[i].methods@.len()
            ==> (#[trigger] impls@[i].methods@[j]).generics@.len() <= u32::MAX,
        forall|i: int, j: int| 0 <= i < impls@.len() && 0 <= j < impls@[i].trait_defaults@.len()
            ==> (#[trigger] impls@[i].trait_defaults@[j]).generics@.len() <= u32::MAX,
    ensures
        ({
            let m = output_chain(receiver.model(), name@, ty_list_model(actuals@), impls@, DEREF_LIMIT as nat);
            &&& resolution_is(r, m.0)
            &&& diags_model(final(diags)@) == diags_model(old(diags)@) + m.1
        }),
{
    let ghost am = ty_list_model(actuals@);
    let ghost d0 = diags_model(diags@);
    let mut current = receiver.duplicate();
    let mut step: u32 = 0;
    while step < DEREF_LIMIT
        invariant
            step <= DEREF_LIMIT,
            am == ty_list_model(actuals@),
            d0 == diags_model(old(diags)@),
            diags_model(diags@) == d0,
            forall|i: int| 0 <= i < impls@.len() ==> (#[trigger] impls@[i]).generics@.len() <= u32::MAX,
            forall|i: int, j: int| 0 <= i < impls@.len() && 0 <= j < impls@[i].methods@.len()
                ==> (#[trigger] impls@[i].methods@[j]).generics@.len() <= u32::MAX,
            forall|i: int, j: int| 0 <= i < impls@.len() && 0 <= j < impls@[i].trait_defaults@.len()
                ==> (#[trigger] impls@[i].trait_defaults@[j]).generics@.len() <= u32::MAX,
            output_chain(receiver.model(), name@, am, impls@, DEREF_LIMIT as nat)
                == output_chain(current.model(), name@, am, impls@, (DEREF_LIMIT - step) as nat),
        decreases DEREF_LIMIT - step,
    {
        let ghost fuel = (DEREF_LIMIT - step) as nat;
        match method_output_at(&current, name, actuals, impls, diags) {
            Err(e) => return Err(e),
            Ok(Some(found)) => return Ok(found),
            Ok(None) => {},
        }
        assert(diags_model(diags@) =~= d0);
        match deref_target(&current, impls) {
            Some(next) => {
                current = next;
            },
            None => {
                return Err(MethodLookupError::NotFound);
            },
        }
        step += 1;
    }
    Err(MethodLookupError::NotFound)
}

// ---------------------------------------------------------------------
// Declared signatures.
// ---------------------------------------------------------------------

/// The position of the first associated const named `name` from position
/// `i` on.
pub open spec fn first_const(decls: Seq<ConstDecl>, name: Seq<char>, i: int) -> Option<int>
    decreases decls.len() - i,
{
    if i < 0 || i >= decls.len() {
        None
    } else if decls[i].name@ == name {
        Some(i)
    } else {
        first_const(decls, name, i + 1)
    }
}

/// What the impl `c` declares under `name` for `receiver` (one outer
/// reference removed), when it decides: its own method of that name, with
/// `Self` fixed by the receiver (see `receiver_applied`), or nothing when
/// that receiver does not fit it; else its own associated const of that
/// name, whose declared type has the impl's parameters replaced by the
/// receiver's arguments (unifying the impl's self type with the receiver;
/// when they do not unify the const does not decide); else the trait's
/// default method of that name, as for its own method. `None` when the
/// impl does not decide.
pub open spec fn declared_in(c: ImplCandidate, receiver: TyModel, name: Seq<char>) -> Option<Option<TyModel>> {
    let r = peel_one_ref(receiver);
    match first_named(c.methods@, name, 0) {
        Some(j) => Some(receiver_applied(c.methods@[j].signature.model(), r)),
        None => {
            let from_const = match first_const(c.assoc_consts@, name, 0) {
                Some(k) => {
                    let u = unify(peel_one_ref(c.self_ty.model()), r, Map::empty(), false);
                    if u.ok { Some(Some(subst(c.assoc_consts@[k].ty.model(), u.subs))) } else { None }
                },
                None => None,
            };
            match from_const {
                Some(x) => Some(x),
                None => match first_named(c.trait_defaults@, name, 0) {
                    Some(j) => Some(receiver_applied(c.trait_defaults@[j].signature.model(), r)),
                    None => None,
                },
            }
        },
    }
}

/// The declared type of the item `name` for `receiver`, looking only at
/// impls from position `i` on for the receiver's own type: the first
/// candidate impl (see `receiver_matches`) that decides (see
/// `declared_in`) gives it.
pub open spec fn declared_from(receiver: TyModel, name: Seq<char>, impls: Seq<ImplCandidate>, i: int) -> Option<TyModel>
    decreases impls.len() - i,
{
    if i < 0 || i >= impls.len() {
        None
    } else if receiver_matches(receiver, impls[i].self_ty.model()) && declared_in(impls[i], receiver, name) is Some {
        declared_in(impls[i], receiver, name)->Some_0
    } else {
        declared_from(receiver, name, impls, i + 1)
    }
}

/// The declared signature of the method `name` for `receiver`, or the
/// declared type of the associated const `name`, looking only at impls for
/// the receiver's own type; see `declared_from`. The type expected where
/// the item is used plays no part.
pub open spec fn declared_at(receiver: TyModel, name: Seq<char>, impls: Seq<ImplCandidate>) -> Option<TyModel> {
    declared_from(receiver, name, impls, 0)
}

fn first_const_index(decls: &Vec<ConstDecl>, name: &str) -> (r: Option<usize>)
    ensures
        match r {
            Some(k) => k < decls@.len() && first_const(decls@, name@, 0) == Some(k as int),
            None => first_const(decls@, name@, 0) is None,
        },
{
    let mut k: usize = 0;
    while k < decls.len()
        invariant
            k <= decls@.len(),
            first_const(decls@, name@, 0) == first_const(decls@, name@, k as int),
        decreases decls@.len() - k,
    {
        if str_equals(decls[k].name.as_str(), name) {
            return Some(k);
        }
        k += 1;
    }
    None
}

fn declared_in_impl(c: &ImplCandidate, receiver: &Ty, name: &str) -> (r: Option<Option<Ty>>)
    ensures
        match declared_in(*c, receiver.model(), name@) {
            Some(Some(t)) => r matches Some(Some(x)) && x.model() == t,
            Some(None) => r == Some(None::<Ty>),
            None => r is None,
        },
{
    proof {
        lemma_first_named_range(c.methods@, name@, 0);
        lemma_first_named_range(c.trait_defaults@, name@, 0);
    }
    let peeled = match &receiver.kind {
        TyKind::Ref(_, inner, _) => &**inner,
        _ => receiver,
    };
    assert(peeled.model() == peel_one_ref(receiver.model()));
    match first_named_index(&c.methods, name) {
        Some(j) => return Some(apply_receiver(&c.methods[j].signature, peeled)),
        None => {},
    }
    match first_const_index(&c.assoc_consts, name) {
        Some(k) => {
            let self_peeled = match &c.self_ty.kind {
                TyKind::Ref(_, inner, _) => &**inner,
                _ => &c.self_ty,
            };
            assert(self_peeled.model() == peel_one_ref(c.self_ty.model()));
            let mut subs = Substitutions::new();
            if unify_call_types_probe(self_peeled, peeled, &mut subs).is_ok() {
                return Some(Some(substitute_param_map(&c.assoc_consts[k].ty, &subs)));
            }
        },
        None => {},
    }
    match first_named_index(&c.trait_defaults, name) {
        Some(j) => Some(apply_receiver(&c.trait_defaults[j].signature, peeled)),
        None => None,
    }
}

/// The declared signature of a method, or the declared type of an
/// associated const, at one receiver type; see `declared_at`.
pub fn method_declared_signature_at(receiver: &Ty, name: &str, impls: &[ImplCandidate]) -> (r: Option<Ty>)
    ensures
        match declared_at(receiver.model(), name@, impls@) {
            Some(t) => r matches Some(x) && x.model() == t,
            None => r is None,
        },
{
    let mut k: usize = 0;
    while k < impls.len()
        invariant
            k <= impls@.len(),
            declared_from(receiver.model(), name@, impls@, 0) == declared_from(receiver.model(), name@, impls@, k as int),
        decreases impls@.len() - k,
    {
        if impl_matches_receiver(receiver, &impls[k].self_ty) {
            match declared_in_impl(&impls[k], receiver, name) {
                Some(found) => return found,
                None => {},
            }
        }
        k += 1;
    }
    None
}

/// The declared signature of a method along the receiver's auto-deref
/// chain, looking at most `fuel` receiver types: the first type at which
/// one is found (see `declared_at`).
pub open spec fn declared_chain(receiver: TyModel, name: Seq<char>, impls: Seq<ImplCandidate>, fuel: nat) -> Option<TyModel>
    decreases fuel,
{
    if fuel == 0 {
        None
    } else {
        match declared_at(receiver, name, impls) {
            Some(t) => Some(t),
            None => match deref_step(receiver, impls, 0) {
                Some(next) => declared_chain(next, name, impls, (fuel - 1) as nat),
                None => None,
            },
        }
    }
}

/// The declared signature of a method along the receiver's auto-deref
/// chain (at most `DEREF_LIMIT` receiver types); see `declared_chain`.
pub fn method_declared_signature(receiver: &Ty, name: &str, impls: &[ImplCandidate]) -> (r: Option<Ty>)
    ensures
        match declared_chain(receiver.model(), name@, impls@, DEREF_LIMIT as nat) {
            Some(t) => r matches Some(x) && x.model() == t,
            None => r is None,
        },
{
    let mut current = receiver.duplicate();
    let mut step: u32 = 0;
    while step < DEREF_LIMIT
        invariant
            step <= DEREF_LIMIT,
            declared_chain(receiver.model(), name@, impls@, DEREF_LIMIT as nat)
                == declared_chain(current.model(), name@, impls@, (DEREF_LIMIT - step) as nat),
        decreases DEREF_LIMIT - step,
    {
        if let Some(signature) = method_declared_signature_at(&current, name, impls) {
            return Some(signature);
        }
        match deref_target(&current, impls) {
            Some(next) => {
                current = next;
            },
            None => {
                return None;
            },
        }
        step += 1;
    }
    None
}

// ---------------------------------------------------------------------
// Associated types.
// ---------------------------------------------------------------------

/// The type an impl binds the associated type `name` to: the last binding
/// of that name (a later binding replaces an earlier one).
pub open spec fn bound_assoc(v: Seq<(String, Ty)>, name: Seq<char>) -> Option<TyModel>
    decreases v.len(),
{
    if v.len() == 0 {
        None
    } else if v.last().0@ == name {
        Some(v.last().1.model())
    } else {
        bound_assoc(v.drop_last(), name)
    }
}

/// Whether an impl whose self type is `impl_self` (one outer reference
/// removed) can give an associated type of `target`: for an ADT target it
/// must be an impl for that ADT; its self type must have the target's
/// shape and unify with it speculatively.
pub open spec fn projection_candidate(target: TyModel, impl_self: TyModel) -> bool {
    let s = peel_one_ref(impl_self);
    &&& (target is Adt ==> impl_for_adt(target, impl_self))
    &&& shapes_compatible(s, target)
    &&& unify(s, target, Map::empty(), false).ok
}

/// The associated type `name` of `target`: bound by the first impl from
/// position `i` on that is a candidate for `target` (see
/// `projection_candidate`) and binds that name.
pub open spec fn assoc_for_self_from(target: TyModel, name: Seq<char>, impls: Seq<ImplCandidate>, i: int) -> Option<TyModel>
    decreases impls.len() - i,
{
    if i < 0 || i >= impls.len() {
        None
    } else if projection_candidate(target, impls[i].self_ty.model()) && bound_assoc(impls[i].assoc_types@, name) is Some {
        bound_assoc(impls[i].assoc_types@, name)
    } else {
        assoc_for_self_from(target, name, impls, i + 1)
    }
}

fn find_bound_assoc(v: &Vec<(String, Ty)>, name: &str) -> (r: Option<Ty>)
    ensures
        match bound_assoc(v@, name@) {
            Some(t) => r matches Some(x) && x.model() == t,
            None => r is None,
        },
{
    let mut k: usize = v.len();
    assert(v@.take(k as int) =~= v@);
    while k > 0
        invariant
            k <= v@.len(),
            bound_assoc(v@, name@) == bound_assoc(v@.take(k as int), name@),
        decreases k,
    {
        let ghost prefix = v@.take(k as int);
        assert(prefix.drop_last() =~= v@.take(k - 1));
        assert(prefix.last() == v@[k - 1]);
        if str_equals(v[k - 1].0.as_str(), name) {
            return Some(v[k - 1].1.duplicate());
        }
        k -= 1;
    }
    None
}

fn is_projection_candidate(target: &Ty, impl_self: &Ty) -> (r: bool)
    ensures
        r == projection_candidate(target.model(), impl_self.model()),
{
    let s = match &impl_self.kind {
        TyKind::Ref(_, inner, _) => &**inner,
        _ => impl_self,
    };
    assert(s.model() == peel_one_ref(impl_self.model()));
    if let TyKind::Adt(_, _) = &target.kind {
        if !is_impl_for_adt(target, impl_self) {
            return false;
        }
    }
    if !ty_shapes_compatible(&s.kind, &target.kind) {
        return false;
    }
    let mut subs = Substitutions::new();
    unify_call_types_probe(s, target, &mut subs).is_ok()
}

/// The associated type `name` of `target` among the program's impls; see
/// `assoc_for_self_from`.
pub fn assoc_type_for_self(target: &Ty, name: &str, impls: &[ImplCandidate]) -> (r: Option<Ty>)
    ensures
        match assoc_for_self_from(target.model(), name@, impls@, 0) {
            Some(t) => r matches Some(x) && x.model() == t,
            None => r is None,
        },
{
    let mut k: usize = 0;
    while k < impls.len()
        invariant
            k <= impls@.len(),
            assoc_for_self_from(target.model(), name@, impls@, 0) == assoc_for_self_from(target.model(), name@, impls@, k as int),
        decreases impls@.len() - k,
    {
        if is_projection_candidate(target, &impls[k].self_ty) {
            if let Some(t) = find_bound_assoc(&impls[k].assoc_types, name) {
                return Some(t);
            }
        }
        k += 1;
    }
    None
}


// ---------------------------------------------------------------------
// Laws of method lookup.
// ---------------------------------------------------------------------

proof fn lemma_first_named_least(decls: Seq<MethodDecl>, name: Seq<char>, i: int, j: int)
    requires
        0 <= i <= j < decls.len(),
        decls[j].name@ == name,
    ensures
        first_named(decls, name, i) matches Some(f) && i <= f <= j && decls[f].name@ == name
            && forall|k: int| i <= k < f ==> decls[k].name@ != name,
    decreases j - i,
{
    if decls[i].name@ != name {
        lemma_first_named_least(decls, name, i + 1, j);
    }
}

/// An impl's own method takes precedence over the default method of its
/// trait: when the impl declares a method named `name`, the method it
/// provides under that name is the first of its own so named, whatever
/// defaults its trait has.
pub proof fn law_own_method_overrides_trait_default(c: ImplCandidate, name: Seq<char>, j: int)
    requires
        0 <= j < c.methods@.len(),
        c.methods@[j].name@ == name,
    ensures
        provided_method(c, name) matches Some(m) && exists|f: int| 0 <= f <= j && c.methods@[f] == m
            && m.name@ == name && forall|k: int| 0 <= k < f ==> c.methods@[k].name@ != name,
{
    lemma_first_named_least(c.methods@, name, 0, j);
    let f = first_named(c.methods@, name, 0)->Some_0;
    assert(c.methods@[f] == provided_method(c, name)->Some_0);
}

/// A method call resolves to a method the impl itself declares whenever
/// the deciding impl declares one of that name: the trait's default is
/// used only where the impl does not redeclare it.
pub proof fn law_resolution_prefers_own_method(receiver: TyModel, name: Seq<char>, impls: Seq<ImplCandidate>)
    requires
        method_candidate_from(receiver, name, impls, 0) is Some,
    ensures
        ({
            let (i, m) = method_candidate_from(receiver, name, impls, 0)->Some_0;
            (exists|j: int| 0 <= j < impls[i].methods@.len() && impls[i].methods@[j].name@ == name)
                ==> exists|f: int| 0 <= f < impls[i].methods@.len() && impls[i].methods@[f] == m
        }),
{
    lemma_candidate_from_in(receiver, name, impls, 0);
    let (i, m) = method_candidate_from(receiver, name, impls, 0)->Some_0;
    if exists|j: int| 0 <= j < impls[i].methods@.len() && impls[i].methods@[j].name@ == name {
        let j = choose|j: int| 0 <= j < impls[i].methods@.len() && impls[i].methods@[j].name@ == name;
        law_own_method_overrides_trait_default(impls[i], name, j);
    }
}

proof fn lemma_candidate_from_in(receiver: TyModel, name: Seq<char>, impls: Seq<ImplCandidate>, i: int)
    ensures
        method_candidate_from(receiver, name, impls, i) matches Some((k, m))
            ==> 0 <= k < impls.len() && provided_method(impls[k], name) == Some(m),
    decreases impls.len() - i,
{
    if 0 <= i < impls.len() && !(receiver_matches(receiver, impls[i].self_ty.model()) && provided_method(impls[i], name) is Some) {
        lemma_candidate_from_in(receiver, name, impls, i + 1);
    }
}


/// The declared signature an impl gives for a name it declares a method
/// under is that method's (with `Self` fixed by the receiver): neither an
/// associated const nor a trait default of that name takes its place.
pub proof fn law_declared_signature_is_own_method(c: ImplCandidate, receiver: TyModel, name: Seq<char>, j: int)
    requires
        0 <= j < c.methods@.len(),
        c.methods@[j].name@ == name,
    ensures
        exists|f: int| 0 <= f <= j && c.methods@[f].name@ == name
            && (forall|k: int| 0 <= k < f ==> c.methods@[k].name@ != name)
            && declared_in(c, receiver, name) == Some(receiver_applied(c.methods@[f].signature.model(), peel_one_ref(receiver))),
{
    lemma_first_named_least(c.methods@, name, 0, j);
    let f = first_named(c.methods@, name, 0)->Some_0;
    assert(declared_in(c, receiver, name) == Some(receiver_applied(c.methods@[f].signature.model(), peel_one_ref(receiver))));
}

} // verus!
