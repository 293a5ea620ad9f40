//! Unification of call signatures against argument types, and the
//! substitution of generic parameters that results from it.

use vstd::prelude::*;
use crate::ty::{
    ArgModel, GenericArg, ParamModel, ParamTy, Ty, TyKind, TyModel, TypeAndMut, arg_model,
    args_model, duplicate_arg, lemma_args_model, lemma_tys_model, tys_model,
};
use crate::type_shapes::{contains_param, any_contains_param, any_arg_contains_param, ty_contains_param};
use crate::ty::{same_arg, ConstModel, FnSig, Mutability, Region};

verus! {

// ---------------------------------------------------------------------
// Substitutions.
// ---------------------------------------------------------------------

/// A substitution of generic parameters: no parameter is bound twice.
#[derive(Debug)]
pub struct Substitutions {
    entries: Vec<(ParamTy, Ty)>,
}

pub open spec fn entries_map(s: Seq<(ParamTy, Ty)>) -> Map<ParamModel, TyModel>
    decreases s.len(),
{
    if s.len() == 0 {
        Map::empty()
    } else {
        entries_map(s.drop_last()).insert(s.last().0.model(), s.last().1.model())
    }
}

impl Substitutions {
    pub closed spec fn wf(&self) -> bool {
        forall|i: int, j: int| 0 <= i < j < self.entries@.len() ==>
            (#[trigger] self.entries@[i]).0.model() != (#[trigger] self.entries@[j]).0.model()
    }

    /// The substitution as a map from parameters to types.
    pub closed spec fn model(&self) -> Map<ParamModel, TyModel> {
        entries_map(self.entries@)
    }

    pub fn new() -> (s: Substitutions)
        ensures
            s.wf(),
            s.model() == Map::<ParamModel, TyModel>::empty(),
    {
        Substitutions { entries: Vec::new() }
    }

    /// Whether no parameter is bound.
    pub fn is_empty(&self) -> (r: bool)
        ensures
            r == (self.model() == Map::<ParamModel, TyModel>::empty()),
    {
        if self.entries.len() == 0 {
            true
        } else {
            let ghost last = self.entries@.last();
            assert(self.model().contains_key(last.0.model()));
            assert(!Map::<ParamModel, TyModel>::empty().contains_key(last.0.model()));
            false
        }
    }

    /// The type bound to `param`, if any.
    pub fn get(&self, param: &ParamTy) -> (r: Option<&Ty>)
        requires
            self.wf(),
        ensures
            r is Some <==> self.model().contains_key(param.model()),
            r matches Some(t) ==> t.model() == self.model()[param.model()],
    {
        proof { lemma_entries_map(self.entries@); }
        let mut i: usize = 0;
        while i < self.entries.len()
            invariant
                i <= self.entries@.len(),
                self.wf(),
                forall|j: int| 0 <= j < i ==> (#[trigger] self.entries@[j]).0.model() != param.model(),
            decreases self.entries@.len() - i,
        {
            if self.entries[i].0.same(param) {
                proof {
                    lemma_entries_map(self.entries@);
                    assert(self.entries@[i as int].0.model() == param.model());
                }
                return Some(&self.entries[i].1);
            }
            i += 1;
        }
        proof { lemma_entries_map(self.entries@); }
        None
    }

    /// Binds `param` (not yet bound) to `ty`.
    pub fn insert_new(&mut self, param: ParamTy, ty: Ty)
        requires
            old(self).wf(),
            !old(self).model().contains_key(param.model()),
        ensures
            final(self).wf(),
            final(self).model() == old(self).model().insert(param.model(), ty.model()),
    {
        proof { lemma_entries_map(self.entries@); }
        let ghost old_entries = self.entries@;
        self.entries.push((param, ty));
        proof {
            assert(self.entries@.drop_last() == old_entries);
            assert forall|i: int, j: int| 0 <= i < j < self.entries@.len() implies
                (#[trigger] self.entries@[i]).0.model() != (#[trigger] self.entries@[j]).0.model() by {
                assert(self.entries@[i] == old_entries[i]);
                if j < old_entries.len() {
                    assert(self.entries@[j] == old_entries[j]);
                }
            }
        }
    }

    /// A deep copy.
    pub fn duplicate(&self) -> (r: Substitutions)
        requires
            self.wf(),
        ensures
            r.wf(),
            r.model() == self.model(),
    {
        let mut out: Vec<(ParamTy, Ty)> = Vec::new();
        let mut i: usize = 0;
        while i < self.entries.len()
            invariant
                i <= self.entries@.len(),
                self.wf(),
                out@.len() == i,
                forall|j: int| 0 <= j < i ==> (#[trigger] out@[j]).0.model() == self.entries@[j].0.model()
                    && out@[j].1.model() == self.entries@[j].1.model(),
            decreases self.entries@.len() - i,
        {
            out.push((self.entries[i].0.duplicate(), self.entries[i].1.duplicate()));
            i += 1;
        }
        proof { lemma_entries_map_congruent(out@, self.entries@); }
        Substitutions { entries: out }
    }
}

proof fn lemma_entries_map(s: Seq<(ParamTy, Ty)>)
    requires
        forall|i: int, j: int| 0 <= i < j < s.len() ==> (#[trigger] s[i]).0.model() != (#[trigger] s[j]).0.model(),
    ensures
        forall|k: ParamModel| #[trigger] entries_map(s).contains_key(k) <==>
            exists|j: int| 0 <= j < s.len() && (#[trigger] s[j]).0.model() == k,
        forall|j: int| 0 <= j < s.len() ==> entries_map(s)[(#[trigger] s[j]).0.model()] == s[j].1.model(),
    decreases s.len(),
{
    if s.len() > 0 {
        let init = s.drop_last();
        lemma_entries_map(init);
        assert forall|k: ParamModel| #[trigger] entries_map(s).contains_key(k) <==>
            exists|j: int| 0 <= j < s.len() && (#[trigger] s[j]).0.model() == k by {
            if entries_map(s).contains_key(k) && k != s.last().0.model() {
                let j = choose|j: int| 0 <= j < init.len() && (#[trigger] init[j]).0.model() == k;
                assert(s[j] == init[j]);
            }
            if exists|j: int| 0 <= j < s.len() && (#[trigger] s[j]).0.model() == k {
                let j = choose|j: int| 0 <= j < s.len() && (#[trigger] s[j]).0.model() == k;
                if j < s.len() - 1 {
                    assert(s[j] == init[j]);
                }
            }
        }
        assert forall|j: int| 0 <= j < s.len() implies entries_map(s)[(#[trigger] s[j]).0.model()] == s[j].1.model() by {
            if j < s.len() - 1 {
                assert(s[j] == init[j]);
                assert(s[j].0.model() != s[s.len() - 1].0.model());
            }
        }
    }
}

proof fn lemma_entries_map_congruent(a: Seq<(ParamTy, Ty)>, b: Seq<(ParamTy, Ty)>)
    requires
        a.len() == b.len(),
        forall|j: int| 0 <= j < a.len() ==> (#[trigger] a[j]).0.model() == b[j].0.model() && a[j].1.model() == b[j].1.model(),
        forall|i: int, j: int| 0 <= i < j < b.len() ==> (#[trigger] b[i]).0.model() != (#[trigger] b[j]).0.model(),
    ensures
        entries_map(a) == entries_map(b),
        forall|i: int, j: int| 0 <= i < j < a.len() ==> (#[trigger] a[i]).0.model() != (#[trigger] a[j]).0.model(),
    decreases a.len(),
{
    if a.len() > 0 {
        assert forall|j: int| 0 <= j < a.len() - 1 implies (#[trigger] a.drop_last()[j]).0.model() == b.drop_last()[j].0.model()
            && a.drop_last()[j].1.model() == b.drop_last()[j].1.model() by {
            assert(a.drop_last()[j] == a[j]);
            assert(b.drop_last()[j] == b[j]);
        }
        assert forall|i: int, j: int| 0 <= i < j < b.len() - 1 implies
            (#[trigger] b.drop_last()[i]).0.model() != (#[trigger] b.drop_last()[j]).0.model() by {
            assert(b.drop_last()[i] == b[i]);
            assert(b.drop_last()[j] == b[j]);
        }
        lemma_entries_map_congruent(a.drop_last(), b.drop_last());
        assert(a.last() == a[a.len() - 1]);
        assert(b.last() == b[b.len() - 1]);
    }
    assert forall|i: int, j: int| 0 <= i < j < a.len() implies (#[trigger] a[i]).0.model() != (#[trigger] a[j]).0.model() by {
        assert(a[i].0.model() == b[i].0.model());
        assert(a[j].0.model() == b[j].0.model());
    }
}

// ---------------------------------------------------------------------
// Diagnostics.
// ---------------------------------------------------------------------

/// A diagnostic recorded while checking calls; checking goes on after it.
#[derive(Debug)]
pub enum TypeDiagnostic {
    /// Two types that had to agree did not.
    Mismatch(Ty, Ty),
    /// A call passed a number of arguments its signature does not take.
    ArgumentCount,
    /// The construct named by the context requires an ADT scrutinee.
    NotAdtScrutinee(String),
    /// The construct named by the context does not match the scrutinee's type.
    ScrutineeMismatch(String),
    /// A generic parameter of a called function (named here) was not inferred.
    UninferredParam(String),
    /// A `for` loop over a `Vec` whose type names no element type.
    VecElementMissing,
    /// A `for` loop over a type that is not a `Vec`, array or slice.
    NotIterable(Ty),
    /// A well-known struct (named here) is not declared.
    StructNotDeclared(String),
    /// A dereference of a value that is neither a reference nor a pointer.
    NotDereferenceable,
    /// An index into a value that is not an array, slice, map or other
    /// indexable type.
    NotIndexable,
    /// An index into a `HashMap` whose type names no key and value types.
    MapIndexArgsMissing,
    /// A `match` without arms.
    NoMatchArms,
    /// An array literal without elements, whose element type is unknown.
    EmptyArray,
    /// A slice of a value that is not an array or slice.
    NotSliceable,
    /// A call of a value that is not a function.
    NotCallable,
    /// A local binding with neither a type annotation nor an initializer.
    LocalUntyped,
    /// A tuple pattern against a scrutinee that is not a tuple.
    NotTuplePattern,
    /// A tuple pattern with another number of elements than its scrutinee.
    TuplePatternArity,
    /// A tuple-struct pattern with another number of fields than its variant's payload.
    TupleStructArity,
    /// A unit pattern for a variant that has a payload.
    PayloadVariantPattern,
    /// A struct pattern for a variant whose payload is not one type.
    StructPayloadCount,
    /// A variant pattern whose path is unresolved.
    VariantUnresolved,
    /// A variant pattern whose variant definition is not found.
    VariantNotFound,
    /// A variant pattern of another enum than its scrutinee's type.
    VariantMismatch,
    /// A field of a value that is not a struct.
    FieldOfNonStruct,
    /// A field that its struct does not declare.
    FieldNotFound,
    /// A const generic argument, which typing does not support.
    ConstGenericArgument,
}

pub enum DiagModel {
    Mismatch(TyModel, TyModel),
    ArgumentCount,
    NotAdtScrutinee(Seq<char>),
    ScrutineeMismatch(Seq<char>),
    UninferredParam(Seq<char>),
    VecElementMissing,
    NotIterable(TyModel),
    StructNotDeclared(Seq<char>),
    NotDereferenceable,
    NotIndexable,
    MapIndexArgsMissing,
    NoMatchArms,
    EmptyArray,
    NotSliceable,
    NotCallable,
    LocalUntyped,
    NotTuplePattern,
    TuplePatternArity,
    TupleStructArity,
    PayloadVariantPattern,
    StructPayloadCount,
    VariantUnresolved,
    VariantNotFound,
    VariantMismatch,
    FieldOfNonStruct,
    FieldNotFound,
    ConstGenericArgument,
}

impl TypeDiagnostic {
    pub open spec fn model(&self) -> DiagModel {
        match self {
            TypeDiagnostic::Mismatch(l, r) => DiagModel::Mismatch(l.model(), r.model()),
            TypeDiagnostic::ArgumentCount => DiagModel::ArgumentCount,
            TypeDiagnostic::NotAdtScrutinee(c) => DiagModel::NotAdtScrutinee(c@),
            TypeDiagnostic::ScrutineeMismatch(c) => DiagModel::ScrutineeMismatch(c@),
            TypeDiagnostic::UninferredParam(n) => DiagModel::UninferredParam(n@),
            TypeDiagnostic::VecElementMissing => DiagModel::VecElementMissing,
            TypeDiagnostic::NotIterable(t) => DiagModel::NotIterable(t.model()),
            TypeDiagnostic::StructNotDeclared(n) => DiagModel::StructNotDeclared(n@),
            TypeDiagnostic::NotDereferenceable => DiagModel::NotDereferenceable,
            TypeDiagnostic::NotIndexable => DiagModel::NotIndexable,
            TypeDiagnostic::MapIndexArgsMissing => DiagModel::MapIndexArgsMissing,
            TypeDiagnostic::NoMatchArms => DiagModel::NoMatchArms,
            TypeDiagnostic::EmptyArray => DiagModel::EmptyArray,
            TypeDiagnostic::NotSliceable => DiagModel::NotSliceable,
            TypeDiagnostic::NotCallable => DiagModel::NotCallable,
            TypeDiagnostic::LocalUntyped => DiagModel::LocalUntyped,
            TypeDiagnostic::NotTuplePattern => DiagModel::NotTuplePattern,
            TypeDiagnostic::TuplePatternArity => DiagModel::TuplePatternArity,
            TypeDiagnostic::TupleStructArity => DiagModel::TupleStructArity,
            TypeDiagnostic::PayloadVariantPattern => DiagModel::PayloadVariantPattern,
            TypeDiagnostic::StructPayloadCount => DiagModel::StructPayloadCount,
            TypeDiagnostic::VariantUnresolved => DiagModel::VariantUnresolved,
            TypeDiagnostic::VariantNotFound => DiagModel::VariantNotFound,
            TypeDiagnostic::VariantMismatch => DiagModel::VariantMismatch,
            TypeDiagnostic::FieldOfNonStruct => DiagModel::FieldOfNonStruct,
            TypeDiagnostic::FieldNotFound => DiagModel::FieldNotFound,
            TypeDiagnostic::ConstGenericArgument => DiagModel::ConstGenericArgument,
        }
    }
}

pub open spec fn diags_model(v: Seq<TypeDiagnostic>) -> Seq<DiagModel> {
    v.map_values(|d: TypeDiagnostic| d.model())
}

/// A speculative unification that failed: nothing was recorded for it.
#[derive(Debug, Clone, Copy, PartialEq, Eq, Structural)]
pub struct SpeculativeMismatch;

// ---------------------------------------------------------------------
// The meaning of unification.
// ---------------------------------------------------------------------

/// Two types agree for a strict comparison: they are equal, or one of
/// them is the never type.
pub open spec fn agrees(l: TyModel, r: TyModel) -> bool {
    l == r || l is Never || r is Never
}

/// What comparing `l` with `r` records: nothing when they agree, one
/// mismatch otherwise.
pub open spec fn require_same_diags(l: TyModel, r: TyModel) -> Seq<DiagModel> {
    if agrees(l, r) {
        Seq::empty()
    } else {
        seq![DiagModel::Mismatch(l, r)]
    }
}

/// The state after a unification step: the substitution, whether the step
/// succeeded, and the diagnostics it recorded.
pub struct UnifyModel {
    pub subs: Map<ParamModel, TyModel>,
    pub ok: bool,
    pub diags: Seq<DiagModel>,
}

pub open spec fn unify_done(s: Map<ParamModel, TyModel>) -> UnifyModel {
    UnifyModel { subs: s, ok: true, diags: Seq::empty() }
}

/// `first` followed by `second`, which ran from `first`'s substitution.
pub open spec fn unify_then(first: UnifyModel, second: UnifyModel) -> UnifyModel {
    UnifyModel { subs: second.subs, ok: second.ok, diags: first.diags + second.diags }
}

/// Meeting a parameter `p` opposite `other`: the first binding of `p`
/// stays; a later one must agree with it (recorded, or failing when
/// speculative).
pub open spec fn bind_param(p: ParamModel, other: TyModel, s: Map<ParamModel, TyModel>, record: bool) -> UnifyModel {
    if s.contains_key(p) {
        if record {
            UnifyModel { subs: s, ok: true, diags: require_same_diags(s[p], other) }
        } else {
            UnifyModel { subs: s, ok: s[p] == other, diags: Seq::empty() }
        }
    } else {
        unify_done(s.insert(p, other))
    }
}

/// Two types with no structural rule between them: recorded as a
/// mismatch unless they agree, or (speculatively) failing unless they do.
pub open spec fn unify_fallback(e: TyModel, a: TyModel, s: Map<ParamModel, TyModel>, record: bool) -> UnifyModel {
    if record {
        UnifyModel { subs: s, ok: true, diags: require_same_diags(e, a) }
    } else {
        UnifyModel { subs: s, ok: agrees(e, a), diags: Seq::empty() }
    }
}

/// Unifies the expected type `e` of a call position with the actual type
/// `a`, starting from the substitution `s`.
pub open spec fn unify(e: TyModel, a: TyModel, s: Map<ParamModel, TyModel>, record: bool) -> UnifyModel
    decreases e, a, 1int,
{
    match e {
        TyModel::Param(p) => bind_param(p, a, s, record),
        _ => match a {
            TyModel::Param(q) => bind_param(q, e, s, record),
            _ => match e {
                TyModel::Ref(_, ei, _) => match a {
                    TyModel::Ref(_, ai, _) => unify(*ei, *ai, s, record),
                    _ => unify(*ei, a, s, record),
                },
                _ => match a {
                    TyModel::Ref(_, ai, _) => unify(e, *ai, s, record),
                    _ => unify_shapes(e, a, s, record),
                },
            },
        },
    }
}

/// `unify` once neither side is a parameter or a reference.
pub open spec fn unify_shapes(e: TyModel, a: TyModel, s: Map<ParamModel, TyModel>, record: bool) -> UnifyModel
    decreases e, a, 0int,
{
    match (e, a) {
        (TyModel::FnPtr(ei, eo), TyModel::FnPtr(ai, ao)) => if ei.len() == ai.len() {
            let inputs = unify_seq(ei, ai, s, record);
            if inputs.ok {
                unify_then(inputs, unify(*eo, *ao, inputs.subs, record))
            } else {
                inputs
            }
        } else {
            unify_fallback(e, a, s, record)
        },
        (TyModel::Tuple(es), TyModel::Tuple(as_)) => if es.len() == as_.len() {
            unify_seq(es, as_, s, record)
        } else {
            unify_fallback(e, a, s, record)
        },
        (TyModel::Array(ei, _), TyModel::Array(ai, _)) => unify(*ei, *ai, s, record),
        (TyModel::Slice(ei), TyModel::Slice(ai)) => unify(*ei, *ai, s, record),
        (TyModel::Array(ei, _), TyModel::Slice(ai)) => unify(*ei, *ai, s, record),
        (TyModel::Slice(ei), TyModel::Array(ai, _)) => unify(*ei, *ai, s, record),
        (TyModel::Adt(ed, eargs), TyModel::Adt(ad, aargs)) => if ed.did == ad.did && eargs.len() == aargs.len() {
            unify_args(eargs, aargs, s, record)
        } else {
            unify_fallback(e, a, s, record)
        },
        (TyModel::RawPtr(_, _), TyModel::Slice(_)) => unify_done(s),
        (TyModel::RawPtr(_, _), TyModel::RawPtr(_, _)) => unify_done(s),
        _ => unify_fallback(e, a, s, record),
    }
}

/// Unifies two lists position by position, left to right, stopping at the
/// first failure.
pub open spec fn unify_seq(es: Seq<TyModel>, as_: Seq<TyModel>, s: Map<ParamModel, TyModel>, record: bool) -> UnifyModel
    decreases es, as_, 0int,
{
    if es.len() == 0 || as_.len() == 0 {
        unify_done(s)
    } else {
        let init = unify_seq(es.subrange(0, es.len() - 1), as_.subrange(0, as_.len() - 1), s, record);
        if init.ok {
            unify_then(init, unify(es[es.len() - 1], as_[as_.len() - 1], init.subs, record))
        } else {
            init
        }
    }
}

/// Unifies the type arguments of two uses of one ADT; other arguments are
/// passed over.
pub open spec fn unify_args(es: Seq<ArgModel>, as_: Seq<ArgModel>, s: Map<ParamModel, TyModel>, record: bool) -> UnifyModel
    decreases es, as_, 0int,
{
    if es.len() == 0 || as_.len() == 0 {
        unify_done(s)
    } else {
        let init = unify_args(es.subrange(0, es.len() - 1), as_.subrange(0, as_.len() - 1), s, record);
        if init.ok {
            match (es[es.len() - 1], as_[as_.len() - 1]) {
                (ArgModel::Type(x), ArgModel::Type(y)) => unify_then(init, unify(x, y, init.subs, record)),
                _ => init,
            }
        } else {
            init
        }
    }
}

// ---------------------------------------------------------------------
// Unification.
// ---------------------------------------------------------------------

fn is_never(t: &Ty) -> (r: bool)
    ensures
        r == (t.model() is Never),
{
    match t.kind {
        TyKind::Never => true,
        _ => false,
    }
}

/// Recording one more diagnostic appends its model.
pub proof fn lemma_diags_push(old_diags: Seq<TypeDiagnostic>, d: TypeDiagnostic)
    ensures
        diags_model(old_diags.push(d)) == diags_model(old_diags) + seq![d.model()],
{
    assert(diags_model(old_diags.push(d)) =~= diags_model(old_diags) + seq![d.model()]);
}

/// Requires `lhs` and `rhs` to agree; when they do not, a mismatch is
/// recorded and checking goes on.
pub fn require_same(lhs: &Ty, rhs: &Ty, diags: &mut Vec<TypeDiagnostic>)
    ensures
        diags_model(final(diags)@) == diags_model(old(diags)@) + require_same_diags(lhs.model(), rhs.model()),
{
    if lhs.same(rhs) || is_never(lhs) || is_never(rhs) {
        assert(diags_model(diags@) =~= diags_model(diags@) + Seq::<DiagModel>::empty());
    } else {
        let d = TypeDiagnostic::Mismatch(lhs.duplicate(), rhs.duplicate());
        proof { lemma_diags_push(diags@, d); }
        diags.push(d);
    }
}

/// The unification of a parameter `p` with the type `other` opposite it.
fn bind_param_exec(
    p: &ParamTy,
    other: &Ty,
    subs: &mut Substitutions,
    record: bool,
    diags: &mut Vec<TypeDiagnostic>,
) -> (r: Result<(), SpeculativeMismatch>)
    requires
        old(subs).wf(),
    ensures
        final(subs).wf(),
        final(subs).model() == bind_param(p.model(), other.model(), old(subs).model(), record).subs,
        r is Ok <==> bind_param(p.model(), other.model(), old(subs).model(), record).ok,
        diags_model(final(diags)@) == diags_model(old(diags)@) + bind_param(p.model(), other.model(), old(subs).model(), record).diags,
{
    match subs.get(p) {
        Some(previous) => {
            if record {
                require_same(previous, other, diags);
                Ok(())
            } else {
                assert(diags_model(diags@) =~= diags_model(diags@) + Seq::<DiagModel>::empty());
                if previous.same(other) {
                    Ok(())
                } else {
                    Err(SpeculativeMismatch)
                }
            }
        },
        None => {
            assert(diags_model(diags@) =~= diags_model(diags@) + Seq::<DiagModel>::empty());
            subs.insert_new(p.duplicate(), other.duplicate());
            Ok(())
        },
    }
}

fn unify_fallback_exec(
    expected: &Ty,
    actual: &Ty,
    subs: &Substitutions,
    record: bool,
    diags: &mut Vec<TypeDiagnostic>,
) -> (r: Result<(), SpeculativeMismatch>)
    ensures
        r is Ok <==> unify_fallback(expected.model(), actual.model(), subs.model(), record).ok,
        unify_fallback(expected.model(), actual.model(), subs.model(), record).subs == subs.model(),
        diags_model(final(diags)@) == diags_model(old(diags)@)
            + unify_fallback(expected.model(), actual.model(), subs.model(), record).diags,
{
    if record {
        require_same(expected, actual, diags);
        Ok(())
    } else {
        assert(diags_model(diags@) =~= diags_model(diags@) + Seq::<DiagModel>::empty());
        if expected.same(actual) || is_never(expected) || is_never(actual) {
            Ok(())
        } else {
            Err(SpeculativeMismatch)
        }
    }
}

proof fn lemma_unify_seq_stuck(es: Seq<TyModel>, as_: Seq<TyModel>, s: Map<ParamModel, TyModel>, record: bool, k: int)
    requires
        0 <= k <= es.len(),
        es.len() == as_.len(),
        !unify_seq(es.subrange(0, k), as_.subrange(0, k), s, record).ok,
    ensures
        unify_seq(es, as_, s, record) == unify_seq(es.subrange(0, k), as_.subrange(0, k), s, record),
    decreases es.len() - k,
{
    if k == es.len() {
        assert(es.subrange(0, k) =~= es);
        assert(as_.subrange(0, k) =~= as_);
    } else {
        let es2 = es.subrange(0, es.len() - 1);
        let as2 = as_.subrange(0, as_.len() - 1);
        assert(es2.subrange(0, k) =~= es.subrange(0, k));
        assert(as2.subrange(0, k) =~= as_.subrange(0, k));
        lemma_unify_seq_stuck(es2, as2, s, record, k);
    }
}

proof fn lemma_unify_args_stuck(es: Seq<ArgModel>, as_: Seq<ArgModel>, s: Map<ParamModel, TyModel>, record: bool, k: int)
    requires
        0 <= k <= es.len(),
        es.len() == as_.len(),
        !unify_args(es.subrange(0, k), as_.subrange(0, k), s, record).ok,
    ensures
        unify_args(es, as_, s, record) == unify_args(es.subrange(0, k), as_.subrange(0, k), s, record),
    decreases es.len() - k,
{
    if k == es.len() {
        assert(es.subrange(0, k) =~= es);
        assert(as_.subrange(0, k) =~= as_);
    } else {
        let es2 = es.subrange(0, es.len() - 1);
        let as2 = as_.subrange(0, as_.len() - 1);
        assert(es2.subrange(0, k) =~= es.subrange(0, k));
        assert(as2.subrange(0, k) =~= as_.subrange(0, k));
        lemma_unify_args_stuck(es2, as2, s, record, k);
    }
}

/// Unifies two lists of types position by position.
fn unify_tys_exec(
    es: &Vec<Box<Ty>>,
    as_: &Vec<Box<Ty>>,
    subs: &mut Substitutions,
    record: bool,
    diags: &mut Vec<TypeDiagnostic>,
) -> (r: Result<(), SpeculativeMismatch>)
    requires
        old(subs).wf(),
        es@.len() == as_@.len(),
    ensures
        final(subs).wf(),
        final(subs).model() == unify_seq(tys_model(es@), tys_model(as_@), old(subs).model(), record).subs,
        r is Ok <==> unify_seq(tys_model(es@), tys_model(as_@), old(subs).model(), record).ok,
        diags_model(final(diags)@) == diags_model(old(diags)@)
            + unify_seq(tys_model(es@), tys_model(as_@), old(subs).model(), record).diags,
    decreases es, as_, 0int,
{
    let ghost em = tys_model(es@);
    let ghost am = tys_model(as_@);
    let ghost s0 = subs.model();
    let ghost d0 = diags@;
    proof {
        lemma_tys_model(es@);
        lemma_tys_model(as_@);
        assert(em.subrange(0, 0) =~= Seq::<TyModel>::empty());
        assert(am.subrange(0, 0) =~= Seq::<TyModel>::empty());
        assert(diags_model(d0) =~= diags_model(d0) + Seq::<DiagModel>::empty());
    }
    let mut i: usize = 0;
    while i < es.len()
        invariant
            i <= es@.len(),
            es@.len() == as_@.len(),
            em == tys_model(es@),
            am == tys_model(as_@),
            s0 == old(subs).model(),
            d0 == old(diags)@,
            em.len() == es@.len(),
            am.len() == as_@.len(),
            forall|j: int| 0 <= j < es@.len() ==> #[trigger] em[j] == es@[j].model(),
            forall|j: int| 0 <= j < as_@.len() ==> #[trigger] am[j] == as_@[j].model(),
            subs.wf(),
            unify_seq(em.subrange(0, i as int), am.subrange(0, i as int), s0, record).ok,
            subs.model() == unify_seq(em.subrange(0, i as int), am.subrange(0, i as int), s0, record).subs,
            diags_model(diags@) == diags_model(d0) + unify_seq(em.subrange(0, i as int), am.subrange(0, i as int), s0, record).diags,
        decreases es@.len() - i,
    {
        let ghost prev = unify_seq(em.subrange(0, i as int), am.subrange(0, i as int), s0, record);
        let ghost dprev = diags@;
        proof {
            assert(em.subrange(0, i + 1).subrange(0, i as int) =~= em.subrange(0, i as int));
            assert(am.subrange(0, i + 1).subrange(0, i as int) =~= am.subrange(0, i as int));
            assert(em.subrange(0, i + 1)[i as int] == em[i as int]);
            assert(am.subrange(0, i + 1)[i as int] == am[i as int]);
        }
        assert(decreases_to!(es => es@[i as int]));
        let step = unify_call_types_impl(&es[i], &as_[i], subs, record, diags);
        proof {
            let next = unify(em[i as int], am[i as int], prev.subs, record);
            assert(unify_seq(em.subrange(0, i + 1), am.subrange(0, i + 1), s0, record) == unify_then(prev, next));
            assert(diags_model(diags@) =~= diags_model(d0) + (prev.diags + next.diags));
        }
        if step.is_err() {
            proof {
                lemma_unify_seq_stuck(em, am, s0, record, i + 1);
            }
            return step;
        }
        i += 1;
    }
    proof {
        assert(em.subrange(0, es@.len() as int) =~= em);
        assert(am.subrange(0, as_@.len() as int) =~= am);
    }
    Ok(())
}

/// Unifies the type arguments of two uses of one ADT.
fn unify_args_exec(
    es: &Vec<GenericArg>,
    as_: &Vec<GenericArg>,
    subs: &mut Substitutions,
    record: bool,
    diags: &mut Vec<TypeDiagnostic>,
) -> (r: Result<(), SpeculativeMismatch>)
    requires
        old(subs).wf(),
        es@.len() == as_@.len(),
    ensures
        final(subs).wf(),
        final(subs).model() == unify_args(args_model(es@), args_model(as_@), old(subs).model(), record).subs,
        r is Ok <==> unify_args(args_model(es@), args_model(as_@), old(subs).model(), record).ok,
        diags_model(final(diags)@) == diags_model(old(diags)@)
            + unify_args(args_model(es@), args_model(as_@), old(subs).model(), record).diags,
    decreases es, as_, 0int,
{
    let ghost em = args_model(es@);
    let ghost am = args_model(as_@);
    let ghost s0 = subs.model();
    let ghost d0 = diags@;
    proof {
        lemma_args_model(es@);
        lemma_args_model(as_@);
        assert(em.subrange(0, 0) =~= Seq::<ArgModel>::empty());
        assert(am.subrange(0, 0) =~= Seq::<ArgModel>::empty());
        assert(diags_model(d0) =~= diags_model(d0) + Seq::<DiagModel>::empty());
    }
    let mut i: usize = 0;
    while i < es.len()
        invariant
            i <= es@.len(),
            es@.len() == as_@.len(),
            em == args_model(es@),
            am == args_model(as_@),
            s0 == old(subs).model(),
            d0 == old(diags)@,
            em.len() == es@.len(),
            am.len() == as_@.len(),
            forall|j: int| 0 <= j < es@.len() ==> #[trigger] em[j] == arg_model(es@[j]),
            forall|j: int| 0 <= j < as_@.len() ==> #[trigger] am[j] == arg_model(as_@[j]),
            subs.wf(),
            unify_args(em.subrange(0, i as int), am.subrange(0, i as int), s0, record).ok,
            subs.model() == unify_args(em.subrange(0, i as int), am.subrange(0, i as int), s0, record).subs,
            diags_model(diags@) == diags_model(d0) + unify_args(em.subrange(0, i as int), am.subrange(0, i as int), s0, record).diags,
        decreases es@.len() - i,
    {
        let ghost prev = unify_args(em.subrange(0, i as int), am.subrange(0, i as int), s0, record);
        proof {
            assert(em.subrange(0, i + 1).subrange(0, i as int) =~= em.subrange(0, i as int));
            assert(am.subrange(0, i + 1).subrange(0, i as int) =~= am.subrange(0, i as int));
            assert(em.subrange(0, i + 1)[i as int] == em[i as int]);
            assert(am.subrange(0, i + 1)[i as int] == am[i as int]);
        }
        match (&es[i], &as_[i]) {
            (GenericArg::Type(x), GenericArg::Type(y)) => {
                assert(decreases_to!(es => es@[i as int]));
                let step = unify_call_types_impl(x, y, subs, record, diags);
                proof {
                    let next = unify(x.model(), y.model(), prev.subs, record);
                    assert(unify_args(em.subrange(0, i + 1), am.subrange(0, i + 1), s0, record) == unify_then(prev, next));
                    assert(diags_model(diags@) =~= diags_model(d0) + (prev.diags + next.diags));
                }
                if step.is_err() {
                    proof {
                        lemma_unify_args_stuck(em, am, s0, record, i + 1);
                    }
                    return step;
                }
            },
            _ => {
                assert(unify_args(em.subrange(0, i + 1), am.subrange(0, i + 1), s0, record) == prev);
            },
        }
        i += 1;
    }
    proof {
        assert(em.subrange(0, es@.len() as int) =~= em);
        assert(am.subrange(0, as_@.len() as int) =~= am);
    }
    Ok(())
}

/// Unifies the expected type of a call position with the actual type of
/// the argument, extending `subs`: a parameter is bound on first sight
/// and must agree with its binding after that; references are looked
/// through on either side; lists, arrays, slices and ADT type arguments
/// are unified position by position. When `record` is set a disagreement
/// is recorded in `diags` and unification goes on (it never fails);
/// otherwise it is speculative: it fails on the first disagreement and
/// records nothing.
pub fn unify_call_types_impl(
    expected: &Ty,
    actual: &Ty,
    subs: &mut Substitutions,
    record: bool,
    diags: &mut Vec<TypeDiagnostic>,
) -> (r: Result<(), SpeculativeMismatch>)
    requires
        old(subs).wf(),
    ensures
        final(subs).wf(),
        final(subs).model() == unify(expected.model(), actual.model(), old(subs).model(), record).subs,
        r is Ok <==> unify(expected.model(), actual.model(), old(subs).model(), record).ok,
        diags_model(final(diags)@) == diags_model(old(diags)@)
            + unify(expected.model(), actual.model(), old(subs).model(), record).diags,
    decreases expected, actual, 1int,
{
    if let TyKind::Param(p) = &expected.kind {
        return bind_param_exec(p, actual, subs, record, diags);
    }
    if let TyKind::Param(q) = &actual.kind {
        return bind_param_exec(q, expected, subs, record, diags);
    }
    match (&expected.kind, &actual.kind) {
        (TyKind::Ref(_, ei, _), TyKind::Ref(_, ai, _)) => unify_call_types_impl(ei, ai, subs, record, diags),
        (TyKind::Ref(_, ei, _), _) => unify_call_types_impl(ei, actual, subs, record, diags),
        (_, TyKind::Ref(_, ai, _)) => unify_call_types_impl(expected, ai, subs, record, diags),
        _ => unify_shapes_exec(expected, actual, subs, record, diags),
    }
}

/// Unifies `expected` with `actual` for a committed call: disagreements
/// are recorded in `diags` and unification goes on.
pub fn unify_call_types(expected: &Ty, actual: &Ty, subs: &mut Substitutions, diags: &mut Vec<TypeDiagnostic>)
    requires
        old(subs).wf(),
    ensures
        final(subs).wf(),
        final(subs).model() == unify(expected.model(), actual.model(), old(subs).model(), true).subs,
        diags_model(final(diags)@) == diags_model(old(diags)@)
            + unify(expected.model(), actual.model(), old(subs).model(), true).diags,
{
    let _ = unify_call_types_impl(expected, actual, subs, true, diags);
}

/// Unifies `expected` with `actual` speculatively, to test a candidate:
/// fails on the first disagreement and records nothing.
pub fn unify_call_types_probe(expected: &Ty, actual: &Ty, subs: &mut Substitutions) -> (r: Result<(), SpeculativeMismatch>)
    requires
        old(subs).wf(),
    ensures
        final(subs).wf(),
        final(subs).model() == unify(expected.model(), actual.model(), old(subs).model(), false).subs,
        r is Ok <==> unify(expected.model(), actual.model(), old(subs).model(), false).ok,
{
    let mut scratch: Vec<TypeDiagnostic> = Vec::new();
    unify_call_types_impl(expected, actual, subs, false, &mut scratch)
}

fn unify_shapes_exec(
    expected: &Ty,
    actual: &Ty,
    subs: &mut Substitutions,
    record: bool,
    diags: &mut Vec<TypeDiagnostic>,
) -> (r: Result<(), SpeculativeMismatch>)
    requires
        old(subs).wf(),
    ensures
        final(subs).wf(),
        final(subs).model() == unify_shapes(expected.model(), actual.model(), old(subs).model(), record).subs,
        r is Ok <==> unify_shapes(expected.model(), actual.model(), old(subs).model(), record).ok,
        diags_model(final(diags)@) == diags_model(old(diags)@)
            + unify_shapes(expected.model(), actual.model(), old(subs).model(), record).diags,
    decreases expected, actual, 0int,
{
    let ghost s0 = subs.model();
    let ghost d0 = diags@;
    match (&expected.kind, &actual.kind) {
        (TyKind::FnPtr(es), TyKind::FnPtr(as_)) => {
            proof {
                lemma_tys_model(es.inputs@);
                lemma_tys_model(as_.inputs@);
            }
            if es.inputs.len() == as_.inputs.len() {
                let inputs = unify_tys_exec(&es.inputs, &as_.inputs, subs, record, diags);
                if inputs.is_err() {
                    return inputs;
                }
                let ghost mid = unify_seq(tys_model(es.inputs@), tys_model(as_.inputs@), s0, record);
                let ghost dmid = diags@;
                let out = unify_call_types_impl(&es.output, &as_.output, subs, record, diags);
                proof {
                    let next = unify(es.output.model(), as_.output.model(), mid.subs, record);
                    assert(diags_model(diags@) =~= diags_model(d0) + (mid.diags + next.diags));
                }
                out
            } else {
                unify_fallback_exec(expected, actual, subs, record, diags)
            }
        },
        (TyKind::Tuple(es), TyKind::Tuple(as_)) => {
            proof {
                lemma_tys_model(es@);
                lemma_tys_model(as_@);
            }
            if es.len() == as_.len() {
                unify_tys_exec(es, as_, subs, record, diags)
            } else {
                unify_fallback_exec(expected, actual, subs, record, diags)
            }
        },
        (TyKind::Array(ei, _), TyKind::Array(ai, _)) => unify_call_types_impl(ei, ai, subs, record, diags),
        (TyKind::Slice(ei), TyKind::Slice(ai)) => unify_call_types_impl(ei, ai, subs, record, diags),
        (TyKind::Array(ei, _), TyKind::Slice(ai)) => unify_call_types_impl(ei, ai, subs, record, diags),
        (TyKind::Slice(ei), TyKind::Array(ai, _)) => unify_call_types_impl(ei, ai, subs, record, diags),
        (TyKind::Adt(ed, eargs), TyKind::Adt(ad, aargs)) => {
            proof {
                lemma_args_model(eargs@);
                lemma_args_model(aargs@);
            }
            if ed.did == ad.did && eargs.len() == aargs.len() {
                unify_args_exec(eargs, aargs, subs, record, diags)
            } else {
                unify_fallback_exec(expected, actual, subs, record, diags)
            }
        },
        (TyKind::RawPtr(_), TyKind::Slice(_)) => {
            assert(diags_model(diags@) =~= diags_model(diags@) + Seq::<DiagModel>::empty());
            Ok(())
        },
        (TyKind::RawPtr(_), TyKind::RawPtr(_)) => {
            assert(diags_model(diags@) =~= diags_model(diags@) + Seq::<DiagModel>::empty());
            Ok(())
        },
        _ => unify_fallback_exec(expected, actual, subs, record, diags),
    }
}

// ---------------------------------------------------------------------
// Substitution.
// ---------------------------------------------------------------------

/// Follows a chain of parameters bound to parameters, at most `fuel`
/// steps.
pub open spec fn resolve_chain(t: TyModel, s: Map<ParamModel, TyModel>, fuel: nat) -> TyModel
    decreases fuel,
{
    if fuel == 0 {
        t
    } else {
        match t {
            TyModel::Param(q) => if s.contains_key(q) {
                resolve_chain(s[q], s, (fuel - 1) as nat)
            } else {
                t
            },
            _ => t,
        }
    }
}

/// What a parameter resolves to: its binding, followed through at most
/// eight further parameter-to-parameter bindings.
pub open spec fn resolve_param(p: ParamModel, s: Map<ParamModel, TyModel>) -> Option<TyModel> {
    if s.contains_key(p) {
        Some(resolve_chain(s[p], s, 8))
    } else {
        None
    }
}

/// The type `t` with each bound parameter replaced by its binding, itself
/// substituted in turn, through references, raw pointers, tuples, arrays,
/// slices and ADT type arguments (function pointer types are left as they
/// are). A parameter met again while its own binding is being substituted
/// (the parameters in `seen`, a cycle of bindings) stays as it is.
pub open spec fn subst_in(t: TyModel, s: Map<ParamModel, TyModel>, seen: Set<ParamModel>) -> TyModel
    decreases s.dom().difference(seen).len(), t,
{
    match t {
        TyModel::Param(p) => if s.dom().finite() && s.contains_key(p) && !seen.contains(p) {
            proof { lemma_seen_grows(s.dom(), seen, p); }
            subst_in(s[p], s, seen.insert(p))
        } else {
            t
        },
        TyModel::Ref(r, i, m) => TyModel::Ref(r, Box::new(subst_in(*i, s, seen)), m),
        TyModel::RawPtr(i, m) => TyModel::RawPtr(Box::new(subst_in(*i, s, seen)), m),
        TyModel::Tuple(fs) => TyModel::Tuple(subst_seq_in(fs, s, seen)),
        TyModel::Array(i, l) => TyModel::Array(Box::new(subst_in(*i, s, seen)), l),
        TyModel::Slice(i) => TyModel::Slice(Box::new(subst_in(*i, s, seen))),
        TyModel::Adt(d, args) => TyModel::Adt(d, subst_args_in(args, s, seen)),
        _ => t,
    }
}

pub open spec fn subst_seq_in(fs: Seq<TyModel>, s: Map<ParamModel, TyModel>, seen: Set<ParamModel>) -> Seq<TyModel>
    decreases s.dom().difference(seen).len(), fs,
{
    if fs.len() == 0 {
        Seq::empty()
    } else {
        subst_seq_in(fs.drop_last(), s, seen).push(subst_in(fs[fs.len() - 1], s, seen))
    }
}

pub open spec fn subst_args_in(args: Seq<ArgModel>, s: Map<ParamModel, TyModel>, seen: Set<ParamModel>) -> Seq<ArgModel>
    decreases s.dom().difference(seen).len(), args,
{
    if args.len() == 0 {
        Seq::empty()
    } else {
        subst_args_in(args.drop_last(), s, seen).push(match args[args.len() - 1] {
            ArgModel::Type(t) => ArgModel::Type(subst_in(t, s, seen)),
            other => other,
        })
    }
}

/// `t` with every bound parameter replaced by its binding, substituted in
/// turn; see `subst_in`.
pub open spec fn subst(t: TyModel, s: Map<ParamModel, TyModel>) -> TyModel {
    subst_in(t, s, Set::empty())
}

pub open spec fn subst_seq(fs: Seq<TyModel>, s: Map<ParamModel, TyModel>) -> Seq<TyModel> {
    subst_seq_in(fs, s, Set::empty())
}

pub open spec fn subst_args(args: Seq<ArgModel>, s: Map<ParamModel, TyModel>) -> Seq<ArgModel> {
    subst_args_in(args, s, Set::empty())
}

/// Adding to `seen` a member of `dom` not yet in it leaves fewer members
/// of `dom` outside `seen`.
pub proof fn lemma_seen_grows(dom: Set<ParamModel>, seen: Set<ParamModel>, p: ParamModel)
    requires
        dom.finite(),
        dom.contains(p),
        !seen.contains(p),
    ensures
        dom.difference(seen.insert(p)).len() < dom.difference(seen).len(),
{
    let a = dom.difference(seen);
    assert(a.finite());
    assert(a.contains(p));
    assert(dom.difference(seen.insert(p)) =~= a.remove(p));
}

/// The models of a list of parameters, as a set.
pub open spec fn params_set(v: Seq<ParamTy>) -> Set<ParamModel> {
    v.map_values(|p: ParamTy| p.model()).to_set()
}

proof fn lemma_params_set_push(v: Seq<ParamTy>, p: ParamTy)
    ensures
        params_set(v.push(p)) == params_set(v).insert(p.model()),
{
    let a = v.map_values(|q: ParamTy| q.model());
    let b = v.push(p).map_values(|q: ParamTy| q.model());
    assert(b =~= a.push(p.model()));
    assert forall|x: ParamModel| b.to_set().contains(x) <==> a.to_set().insert(p.model()).contains(x) by {
        if b.to_set().contains(x) && x != p.model() {
            let j = choose|j: int| 0 <= j < b.len() && b[j] == x;
            assert(a[j] == x);
        }
        if a.to_set().contains(x) {
            let j = choose|j: int| 0 <= j < a.len() && a[j] == x;
            assert(b[j] == x);
        }
        if x == p.model() {
            assert(b[a.len() as int] == x);
        }
    }
    assert(b.to_set() =~= a.to_set().insert(p.model()));
}

/// Whether `param` is among `seen`.
fn param_listed(seen: &Vec<ParamTy>, param: &ParamTy) -> (r: bool)
    ensures
        r == params_set(seen@).contains(param.model()),
{
    let ghost ms = seen@.map_values(|q: ParamTy| q.model());
    let mut i: usize = 0;
    while i < seen.len()
        invariant
            i <= seen@.len(),
            ms == seen@.map_values(|q: ParamTy| q.model()),
            forall|j: int| 0 <= j < i ==> ms[j] != param.model(),
        decreases seen@.len() - i,
    {
        if seen[i].same(param) {
            assert(ms[i as int] == param.model());
            assert(ms.to_set().contains(param.model()));
            return true;
        }
        i += 1;
    }
    assert(!ms.to_set().contains(param.model())) by {
        if ms.to_set().contains(param.model()) {
            let j = choose|j: int| 0 <= j < ms.len() && ms[j] == param.model();
        }
    }
    false
}

/// What `param` resolves to under `subs`: its binding, followed through
/// parameters bound to further parameters, eight steps at most (so a
/// cycle of bindings ends).
pub fn resolve_param_transitively<'a>(param: &ParamTy, subs: &'a Substitutions) -> (r: Option<&'a Ty>)
    requires
        subs.wf(),
    ensures
        r is Some <==> resolve_param(param.model(), subs.model()) is Some,
        r matches Some(t) ==> resolve_param(param.model(), subs.model()) == Some(t.model()),
{
    let mut resolved: &Ty = match subs.get(param) {
        Some(t) => t,
        None => return None,
    };
    let ghost target = resolve_chain(subs.model()[param.model()], subs.model(), 8);
    let mut n: usize = 0;
    while n < 8
        invariant
            n <= 8,
            subs.wf(),
            subs.model().contains_key(param.model()),
            target == resolve_chain(subs.model()[param.model()], subs.model(), 8),
            resolve_chain(resolved.model(), subs.model(), (8 - n) as nat) == target,
        decreases 8 - n,
    {
        match &resolved.kind {
            TyKind::Param(next) => match subs.get(next) {
                Some(t) => {
                    resolved = t;
                },
                None => {
                    return Some(resolved);
                },
            },
            _ => {
                return Some(resolved);
            },
        }
        n += 1;
    }
    Some(resolved)
}

proof fn lemma_entries_map_finite(s: Seq<(ParamTy, Ty)>)
    ensures
        entries_map(s).dom().finite(),
    decreases s.len(),
{
    if s.len() > 0 {
        lemma_entries_map_finite(s.drop_last());
    }
}

fn substitute_tys_in(fields: &Vec<Box<Ty>>, subs: &Substitutions, seen: &mut Vec<ParamTy>) -> (r: Vec<Box<Ty>>)
    requires
        subs.wf(),
    ensures
        final(seen)@ == old(seen)@,
        tys_model(r@) == subst_seq_in(tys_model(fields@), subs.model(), params_set(old(seen)@)),
    decreases subs.model().dom().difference(params_set(old(seen)@)).len(), fields,
{
    let ghost seen0 = params_set(seen@);
    let mut r: Vec<Box<Ty>> = Vec::new();
    let mut i: usize = 0;
    while i < fields.len()
        invariant
            i <= fields@.len(),
            subs.wf(),
            seen@ == old(seen)@,
            seen0 == params_set(old(seen)@),
            tys_model(r@) == subst_seq_in(tys_model(fields@.take(i as int)), subs.model(), seen0),
        decreases fields@.len() - i,
    {
        assert(decreases_to!(fields => fields@[i as int]));
        let t = substitute_in(&fields[i], subs, seen);
        let ghost old_r = r@;
        r.push(Box::new(t));
        proof {
            assert(r@.drop_last() == old_r);
            assert(fields@.take(i + 1).drop_last() =~= fields@.take(i as int));
            assert(fields@.take(i + 1)[i as int] == fields@[i as int]);
            assert(tys_model(fields@.take(i + 1)).drop_last() == tys_model(fields@.take(i as int)));
        }
        i += 1;
    }
    assert(fields@.take(fields@.len() as int) =~= fields@);
    r
}

fn substitute_args_in(args: &Vec<GenericArg>, subs: &Substitutions, seen: &mut Vec<ParamTy>) -> (r: Vec<GenericArg>)
    requires
        subs.wf(),
    ensures
        final(seen)@ == old(seen)@,
        args_model(r@) == subst_args_in(args_model(args@), subs.model(), params_set(old(seen)@)),
    decreases subs.model().dom().difference(params_set(old(seen)@)).len(), args,
{
    let ghost seen0 = params_set(seen@);
    let mut r: Vec<GenericArg> = Vec::new();
    let mut i: usize = 0;
    while i < args.len()
        invariant
            i <= args@.len(),
            subs.wf(),
            seen@ == old(seen)@,
            seen0 == params_set(old(seen)@),
            args_model(r@) == subst_args_in(args_model(args@.take(i as int)), subs.model(), seen0),
        decreases args@.len() - i,
    {
        assert(decreases_to!(args => args@[i as int]));
        let a = match &args[i] {
            GenericArg::Type(t) => GenericArg::Type(substitute_in(t, subs, seen)),
            other => duplicate_arg(other),
        };
        assert(arg_model(a) == (match arg_model(args@[i as int]) {
            ArgModel::Type(t) => ArgModel::Type(subst_in(t, subs.model(), seen0)),
            other => other,
        }));
        let ghost old_r = r@;
        r.push(a);
        proof {
            assert(r@.drop_last() == old_r);
            assert(args@.take(i + 1).drop_last() =~= args@.take(i as int));
            assert(args@.take(i + 1)[i as int] == args@[i as int]);
            assert(args_model(args@.take(i + 1)).drop_last() == args_model(args@.take(i as int)));
        }
        i += 1;
    }
    assert(args@.take(args@.len() as int) =~= args@);
    r
}

/// `ty` with every bound parameter replaced by its binding, substituted in
/// turn, where the parameters in `seen` are those whose bindings are being
/// substituted already: met again, such a parameter stays as it is. `seen`
/// is as it was on return.
fn substitute_in(ty: &Ty, subs: &Substitutions, seen: &mut Vec<ParamTy>) -> (r: Ty)
    requires
        subs.wf(),
    ensures
        final(seen)@ == old(seen)@,
        r.model() == subst_in(ty.model(), subs.model(), params_set(old(seen)@)),
    decreases subs.model().dom().difference(params_set(old(seen)@)).len(), ty,
{
    proof { lemma_entries_map_finite(subs.entries@); }
    match &ty.kind {
        TyKind::Param(param) => {
            let resolved = match subs.get(param) {
                Some(t) => t,
                None => return ty.duplicate(),
            };
            if param_listed(seen, param) {
                return ty.duplicate();
            }
            let ghost seen0 = seen@;
            proof {
                lemma_seen_grows(subs.model().dom(), params_set(seen0), param.model());
                lemma_params_set_push(seen0, *param);
            }
            seen.push(param.duplicate());
            proof { lemma_params_set_push(seen0, seen@.last()); }
            assert(seen@ == seen0.push(seen@.last()));
            let result = substitute_in(resolved, subs, seen);
            seen.pop();
            assert(seen@ =~= seen0);
            result
        },
        TyKind::Ref(region, inner, mutable) => Ty {
            kind: TyKind::Ref(*region, Box::new(substitute_in(inner, subs, seen)), *mutable),
        },
        TyKind::RawPtr(value) => Ty {
            kind: TyKind::RawPtr(TypeAndMut { ty: Box::new(substitute_in(&value.ty, subs, seen)), mutbl: value.mutbl }),
        },
        TyKind::Tuple(fields) => Ty { kind: TyKind::Tuple(substitute_tys_in(fields, subs, seen)) },
        TyKind::Array(inner, length) => Ty {
            kind: TyKind::Array(Box::new(substitute_in(inner, subs, seen)), length.duplicate()),
        },
        TyKind::Slice(inner) => Ty { kind: TyKind::Slice(Box::new(substitute_in(inner, subs, seen))) },
        TyKind::Adt(def, args) => Ty { kind: TyKind::Adt(*def, substitute_args_in(args, subs, seen)) },
        _ => ty.duplicate(),
    }
}

fn substitute_tys(fields: &Vec<Box<Ty>>, subs: &Substitutions) -> (r: Vec<Box<Ty>>)
    requires
        subs.wf(),
    ensures
        tys_model(r@) == subst_seq(tys_model(fields@), subs.model()),
{
    let mut seen: Vec<ParamTy> = Vec::new();
    assert(params_set(seen@) =~= Set::<ParamModel>::empty());
    substitute_tys_in(fields, subs, &mut seen)
}

/// `ty` with every bound parameter replaced by its binding under `subs`,
/// that binding substituted in turn (so `T` under `T -> Vec<U>, U -> i32`
/// becomes `Vec<i32>`); unbound parameters stay, and so does a parameter
/// met again inside its own binding (a cycle of bindings).
pub fn substitute_param_map(ty: &Ty, subs: &Substitutions) -> (r: Ty)
    requires
        subs.wf(),
    ensures
        r.model() == subst(ty.model(), subs.model()),
{
    let mut seen: Vec<ParamTy> = Vec::new();
    assert(params_set(seen@) =~= Set::<ParamModel>::empty());
    substitute_in(ty, subs, &mut seen)
}

// ---------------------------------------------------------------------
// Laws of unification.
// ---------------------------------------------------------------------

pub open spec fn unify_laws_hold(r: UnifyModel, s: Map<ParamModel, TyModel>, record: bool) -> bool {
    &&& record ==> r.ok
    &&& !record ==> r.diags.len() == 0
    &&& s.submap_of(r.subs)
}

proof fn lemma_then_laws(first: UnifyModel, second: UnifyModel, s: Map<ParamModel, TyModel>, record: bool)
    requires
        unify_laws_hold(first, s, record),
        unify_laws_hold(second, first.subs, record),
    ensures
        unify_laws_hold(unify_then(first, second), s, record),
{
    assert forall|k: ParamModel| #[trigger] s.dom().contains(k) implies #[trigger] second.subs.dom().contains(k)
        && s[k] == second.subs[k] by {
        assert(first.subs.dom().contains(k));
        assert(second.subs.dom().contains(k));
    }
}

proof fn lemma_bind_laws(p: ParamModel, other: TyModel, s: Map<ParamModel, TyModel>, record: bool)
    ensures
        unify_laws_hold(bind_param(p, other, s, record), s, record),
{
    if !s.contains_key(p) {
        assert(s.submap_of(s.insert(p, other)));
    }
}

/// Three laws of call-type unification, for every expected type `e`,
/// actual type `a` and starting substitution `s`: unification that
/// records its mismatches never fails; speculative unification records
/// nothing; and no binding already made is ever changed or dropped (the
/// first binding of a parameter wins).
pub proof fn lemma_unify_laws(e: TyModel, a: TyModel, s: Map<ParamModel, TyModel>, record: bool)
    ensures
        unify_laws_hold(unify(e, a, s, record), s, record),
    decreases e, a, 1int,
{
    match e {
        TyModel::Param(p) => lemma_bind_laws(p, a, s, record),
        _ => match a {
            TyModel::Param(q) => lemma_bind_laws(q, e, s, record),
            _ => match e {
                TyModel::Ref(_, ei, _) => match a {
                    TyModel::Ref(_, ai, _) => lemma_unify_laws(*ei, *ai, s, record),
                    _ => lemma_unify_laws(*ei, a, s, record),
                },
                _ => match a {
                    TyModel::Ref(_, ai, _) => lemma_unify_laws(e, *ai, s, record),
                    _ => lemma_unify_shapes_laws(e, a, s, record),
                },
            },
        },
    }
}

proof fn lemma_unify_shapes_laws(e: TyModel, a: TyModel, s: Map<ParamModel, TyModel>, record: bool)
    ensures
        unify_laws_hold(unify_shapes(e, a, s, record), s, record),
    decreases e, a, 0int,
{
    match (e, a) {
        (TyModel::FnPtr(ei, eo), TyModel::FnPtr(ai, ao)) => if ei.len() == ai.len() {
            lemma_unify_seq_laws(ei, ai, s, record);
            let inputs = unify_seq(ei, ai, s, record);
            if inputs.ok {
                lemma_unify_laws(*eo, *ao, inputs.subs, record);
                lemma_then_laws(inputs, unify(*eo, *ao, inputs.subs, record), s, record);
            }
        },
        (TyModel::Tuple(es), TyModel::Tuple(as_)) => if es.len() == as_.len() {
            lemma_unify_seq_laws(es, as_, s, record);
        },
        (TyModel::Array(ei, _), TyModel::Array(ai, _)) => lemma_unify_laws(*ei, *ai, s, record),
        (TyModel::Slice(ei), TyModel::Slice(ai)) => lemma_unify_laws(*ei, *ai, s, record),
        (TyModel::Array(ei, _), TyModel::Slice(ai)) => lemma_unify_laws(*ei, *ai, s, record),
        (TyModel::Slice(ei), TyModel::Array(ai, _)) => lemma_unify_laws(*ei, *ai, s, record),
        (TyModel::Adt(ed, eargs), TyModel::Adt(ad, aargs)) => if ed.did == ad.did && eargs.len() == aargs.len() {
            lemma_unify_args_laws(eargs, aargs, s, record);
        },
        _ => {},
    }
}

pub(crate) proof fn lemma_unify_seq_laws(es: Seq<TyModel>, as_: Seq<TyModel>, s: Map<ParamModel, TyModel>, record: bool)
    ensures
        unify_laws_hold(unify_seq(es, as_, s, record), s, record),
    decreases es, as_, 0int,
{
    if es.len() > 0 && as_.len() > 0 {
        let es2 = es.subrange(0, es.len() - 1);
        let as2 = as_.subrange(0, as_.len() - 1);
        lemma_unify_seq_laws(es2, as2, s, record);
        let init = unify_seq(es2, as2, s, record);
        if init.ok {
            lemma_unify_laws(es[es.len() - 1], as_[as_.len() - 1], init.subs, record);
            lemma_then_laws(init, unify(es[es.len() - 1], as_[as_.len() - 1], init.subs, record), s, record);
        }
    }
}

proof fn lemma_unify_args_laws(es: Seq<ArgModel>, as_: Seq<ArgModel>, s: Map<ParamModel, TyModel>, record: bool)
    ensures
        unify_laws_hold(unify_args(es, as_, s, record), s, record),
    decreases es, as_, 0int,
{
    if es.len() > 0 && as_.len() > 0 {
        let es2 = es.subrange(0, es.len() - 1);
        let as2 = as_.subrange(0, as_.len() - 1);
        lemma_unify_args_laws(es2, as2, s, record);
        let init = unify_args(es2, as2, s, record);
        if init.ok {
            match (es[es.len() - 1], as_[as_.len() - 1]) {
                (ArgModel::Type(x), ArgModel::Type(y)) => {
                    lemma_unify_laws(x, y, init.subs, record);
                    lemma_then_laws(init, unify(x, y, init.subs, record), s, record);
                },
                _ => {},
            }
        }
    }
}

/// Unifying a type that mentions no generic parameter with itself
/// succeeds, binds nothing and records nothing, whatever the mode and the
/// starting substitution.
pub proof fn lemma_unify_reflexive(t: TyModel, s: Map<ParamModel, TyModel>, record: bool)
    requires
        !contains_param(t),
    ensures
        unify(t, t, s, record) == unify_done(s),
    decreases t, 1int,
{
    match t {
        TyModel::Ref(_, i, _) => lemma_unify_reflexive(*i, s, record),
        _ => lemma_unify_shapes_reflexive(t, s, record),
    }
}

proof fn lemma_unify_shapes_reflexive(t: TyModel, s: Map<ParamModel, TyModel>, record: bool)
    requires
        !contains_param(t),
        !(t is Ref),
    ensures
        unify_shapes(t, t, s, record) == unify_done(s),
    decreases t, 0int,
{
    assert(Seq::<DiagModel>::empty() + Seq::<DiagModel>::empty() =~= Seq::<DiagModel>::empty());
    match t {
        TyModel::FnPtr(ins, out) => {
            lemma_unify_seq_reflexive(ins, s, record);
            lemma_unify_reflexive(*out, s, record);
        },
        TyModel::Tuple(fs) => lemma_unify_seq_reflexive(fs, s, record),
        TyModel::Array(i, _) => lemma_unify_reflexive(*i, s, record),
        TyModel::Slice(i) => lemma_unify_reflexive(*i, s, record),
        TyModel::Adt(_, args) => lemma_unify_args_reflexive(args, s, record),
        _ => {},
    }
}

proof fn lemma_unify_seq_reflexive(fs: Seq<TyModel>, s: Map<ParamModel, TyModel>, record: bool)
    requires
        !any_contains_param(fs),
    ensures
        unify_seq(fs, fs, s, record) == unify_done(s),
    decreases fs, 0int,
{
    if fs.len() > 0 {
        let init = fs.subrange(0, fs.len() - 1);
        assert(init == fs.drop_last());
        lemma_unify_seq_reflexive(init, s, record);
        lemma_unify_reflexive(fs[fs.len() - 1], s, record);
        assert(Seq::<DiagModel>::empty() + Seq::<DiagModel>::empty() =~= Seq::<DiagModel>::empty());
    }
}

proof fn lemma_unify_args_reflexive(args: Seq<ArgModel>, s: Map<ParamModel, TyModel>, record: bool)
    requires
        !any_arg_contains_param(args),
    ensures
        unify_args(args, args, s, record) == unify_done(s),
    decreases args, 0int,
{
    if args.len() > 0 {
        let init = args.subrange(0, args.len() - 1);
        assert(init == args.drop_last());
        lemma_unify_args_reflexive(init, s, record);
        match args[args.len() - 1] {
            ArgModel::Type(x) => {
                lemma_unify_reflexive(x, s, record);
                assert(Seq::<DiagModel>::empty() + Seq::<DiagModel>::empty() =~= Seq::<DiagModel>::empty());
            },
            _ => {},
        }
    }
}

// ---------------------------------------------------------------------
// Instantiating calls, joining branches, matching impl arguments.
// ---------------------------------------------------------------------

pub open spec fn ty_list_model(v: Seq<Ty>) -> Seq<TyModel> {
    v.map_values(|t: Ty| t.model())
}

/// The substitution and output type of a call of `callable` with
/// arguments of the types `actuals`: the signature's inputs unified with
/// the actuals, in order, recording mismatches; `None` when `callable` is
/// not a function pointer type or takes another number of arguments.
pub open spec fn instantiate(callable: TyModel, actuals: Seq<TyModel>) -> Option<(Map<ParamModel, TyModel>, TyModel)> {
    match callable {
        TyModel::FnPtr(ins, out) => if ins.len() == actuals.len() {
            let u = unify_seq(ins, actuals, Map::empty(), true);
            Some((u.subs, subst(*out, u.subs)))
        } else {
            None
        },
        _ => None,
    }
}

/// What instantiating a call records.
pub open spec fn instantiate_diags(callable: TyModel, actuals: Seq<TyModel>) -> Seq<DiagModel> {
    match callable {
        TyModel::FnPtr(ins, _) => if ins.len() == actuals.len() {
            unify_seq(ins, actuals, Map::empty(), true).diags
        } else {
            seq![DiagModel::ArgumentCount]
        },
        _ => Seq::empty(),
    }
}

/// Instantiates a call of `callable` with arguments of the types
/// `actuals`: the generic parameters the arguments determine, and the
/// call's output type under them. Mismatching arguments and a wrong
/// number of arguments are recorded in `diags`.
pub fn instantiate_call(
    callable: &Ty,
    actuals: &[Ty],
    diags: &mut Vec<TypeDiagnostic>,
) -> (r: Option<(Substitutions, Ty)>)
    ensures
        r is Some <==> instantiate(callable.model(), ty_list_model(actuals@)) is Some,
        r matches Some((subs, out)) ==> subs.wf()
            && instantiate(callable.model(), ty_list_model(actuals@)) == Some((subs.model(), out.model())),
        diags_model(final(diags)@) == diags_model(old(diags)@) + instantiate_diags(callable.model(), ty_list_model(actuals@)),
{
    let signature = match &callable.kind {
        TyKind::FnPtr(signature) => signature,
        _ => {
            assert(diags_model(diags@) =~= diags_model(diags@) + Seq::<DiagModel>::empty());
            return None;
        },
    };
    proof { lemma_tys_model(signature.inputs@); }
    if signature.inputs.len() != actuals.len() {
        let d = TypeDiagnostic::ArgumentCount;
        proof { lemma_diags_push(diags@, d); }
        diags.push(d);
        return None;
    }
    let ghost em = tys_model(signature.inputs@);
    let ghost am = ty_list_model(actuals@);
    let ghost s0 = Map::<ParamModel, TyModel>::empty();
    let ghost d0 = diags@;
    let mut subs = Substitutions::new();
    proof {
        assert(em.subrange(0, 0) =~= Seq::<TyModel>::empty());
        assert(am.subrange(0, 0) =~= Seq::<TyModel>::empty());
        assert(diags_model(d0) =~= diags_model(d0) + Seq::<DiagModel>::empty());
    }
    let mut i: usize = 0;
    while i < actuals.len()
        invariant
            i <= actuals@.len(),
            signature.inputs@.len() == actuals@.len(),
            em == tys_model(signature.inputs@),
            am == ty_list_model(actuals@),
            em.len() == actuals@.len(),
            am.len() == actuals@.len(),
            forall|j: int| 0 <= j < em.len() ==> #[trigger] em[j] == signature.inputs@[j].model(),
            s0 == Map::<ParamModel, TyModel>::empty(),
            d0 == old(diags)@,
            subs.wf(),
            subs.model() == unify_seq(em.subrange(0, i as int), am.subrange(0, i as int), s0, true).subs,
            diags_model(diags@) == diags_model(d0) + unify_seq(em.subrange(0, i as int), am.subrange(0, i as int), s0, true).diags,
        decreases actuals@.len() - i,
    {
        let ghost prev = unify_seq(em.subrange(0, i as int), am.subrange(0, i as int), s0, true);
        proof {
            lemma_unify_seq_laws(em.subrange(0, i as int), am.subrange(0, i as int), s0, true);
            assert(em.subrange(0, i + 1).subrange(0, i as int) =~= em.subrange(0, i as int));
            assert(am.subrange(0, i + 1).subrange(0, i as int) =~= am.subrange(0, i as int));
            assert(em.subrange(0, i + 1)[i as int] == em[i as int]);
            assert(am.subrange(0, i + 1)[i as int] == am[i as int]);
        }
        let _ = unify_call_types_impl(&signature.inputs[i], &actuals[i], &mut subs, true, diags);
        proof {
            let next = unify(em[i as int], am[i as int], prev.subs, true);
            assert(unify_seq(em.subrange(0, i + 1), am.subrange(0, i + 1), s0, true) == unify_then(prev, next));
            assert(diags_model(diags@) =~= diags_model(d0) + (prev.diags + next.diags));
        }
        i += 1;
    }
    proof {
        assert(em.subrange(0, actuals@.len() as int) =~= em);
        assert(am.subrange(0, actuals@.len() as int) =~= am);
    }
    let output = substitute_param_map(&signature.output, &subs);
    Some((subs, output))
}

/// The type two branches of one join (`if`/`else`, `match` arms) have,
/// and what joining them records: equal types join as themselves;
/// otherwise the first side that speculatively unifies with the other
/// (first `a` with `b`, then `b` with `a`) is taken under the resulting
/// substitution; failing both, the mismatch is recorded and `a` stands.
pub open spec fn branch_join(a: TyModel, b: TyModel) -> (TyModel, Seq<DiagModel>) {
    if a == b {
        (a, Seq::empty())
    } else if unify(a, b, Map::empty(), false).ok {
        (subst(a, unify(a, b, Map::empty(), false).subs), Seq::empty())
    } else if unify(b, a, Map::empty(), false).ok {
        (subst(b, unify(b, a, Map::empty(), false).subs), Seq::empty())
    } else {
        (a, require_same_diags(a, b))
    }
}

/// Joins the types of two branches that must produce one type; see
/// `branch_join`.
pub fn unify_branch_types(a: &Ty, b: &Ty, diags: &mut Vec<TypeDiagnostic>) -> (r: Ty)
    ensures
        r.model() == branch_join(a.model(), b.model()).0,
        diags_model(final(diags)@) == diags_model(old(diags)@) + branch_join(a.model(), b.model()).1,
{
    let ghost d0 = diags@;
    if a.same(b) {
        assert(diags_model(diags@) =~= diags_model(diags@) + Seq::<DiagModel>::empty());
        return a.duplicate();
    }
    let mut scratch: Vec<TypeDiagnostic> = Vec::new();
    let mut subs = Substitutions::new();
    if unify_call_types_impl(a, b, &mut subs, false, &mut scratch).is_ok() {
        assert(diags_model(diags@) =~= diags_model(diags@) + Seq::<DiagModel>::empty());
        return substitute_param_map(a, &subs);
    }
    let mut subs = Substitutions::new();
    if unify_call_types_impl(b, a, &mut subs, false, &mut scratch).is_ok() {
        assert(diags_model(diags@) =~= diags_model(diags@) + Seq::<DiagModel>::empty());
        return substitute_param_map(b, &subs);
    }
    require_same(a, b, diags);
    a.duplicate()
}

/// Whether an impl's generic argument is compatible with a receiver's: a
/// type argument that mentions a generic parameter always is; another
/// type argument must unify speculatively (from no bindings) with the
/// receiver's; any other argument must be equal to it.
pub open spec fn arg_compatible(impl_arg: ArgModel, receiver_arg: ArgModel) -> bool {
    match (impl_arg, receiver_arg) {
        (ArgModel::Type(i), ArgModel::Type(r)) => contains_param(i) || unify(i, r, Map::empty(), false).ok,
        _ => impl_arg == receiver_arg,
    }
}

/// Whether an impl block's generic arguments are compatible with a call's
/// receiver arguments, position by position.
pub open spec fn args_compatible(impl_args: Seq<ArgModel>, receiver_args: Seq<ArgModel>) -> bool {
    impl_args.len() == receiver_args.len()
        && forall|j: int| 0 <= j < impl_args.len() ==> #[trigger] arg_compatible(impl_args[j], receiver_args[j])
}

/// Whether the generic arguments of an impl block are compatible with
/// those of a receiver; see `args_compatible`.
pub fn generic_args_compatible(impl_args: &[GenericArg], receiver_args: &[GenericArg]) -> (r: bool)
    ensures
        r == args_compatible(impl_args@.map_values(|a: GenericArg| arg_model(a)),
            receiver_args@.map_values(|a: GenericArg| arg_model(a))),
{
    let ghost im = impl_args@.map_values(|a: GenericArg| arg_model(a));
    let ghost rm = receiver_args@.map_values(|a: GenericArg| arg_model(a));
    if impl_args.len() != receiver_args.len() {
        return false;
    }
    let mut i: usize = 0;
    while i < impl_args.len()
        invariant
            i <= impl_args@.len(),
            impl_args@.len() == receiver_args@.len(),
            im == impl_args@.map_values(|a: GenericArg| arg_model(a)),
            rm == receiver_args@.map_values(|a: GenericArg| arg_model(a)),
            forall|j: int| 0 <= j < i ==> #[trigger] arg_compatible(im[j], rm[j]),
        decreases impl_args@.len() - i,
    {
        let ok = match (&impl_args[i], &receiver_args[i]) {
            (GenericArg::Type(impl_ty), GenericArg::Type(receiver_ty)) => {
                if ty_contains_param(impl_ty) {
                    true
                } else {
                    let mut subs = Substitutions::new();
                    let mut scratch: Vec<TypeDiagnostic> = Vec::new();
                    unify_call_types_impl(impl_ty, receiver_ty, &mut subs, false, &mut scratch).is_ok()
                }
            },
            (a, b) => same_arg(a, b),
        };
        assert(im[i as int] == arg_model(impl_args@[i as int]));
        assert(rm[i as int] == arg_model(receiver_args@[i as int]));
        assert(ok == arg_compatible(im[i as int], rm[i as int]));
        if !ok {
            return false;
        }
        i += 1;
    }
    true
}

// ---------------------------------------------------------------------
// Laws of substitution.
// ---------------------------------------------------------------------

proof fn lemma_subst_identity(t: TyModel, s: Map<ParamModel, TyModel>, seen: Set<ParamModel>)
    requires
        !contains_param(t) || s.dom() =~= Set::<ParamModel>::empty(),
    ensures
        subst_in(t, s, seen) == t,
    decreases t,
{
    match t {
        TyModel::Ref(_, i, _) => lemma_subst_identity(*i, s, seen),
        TyModel::RawPtr(i, _) => lemma_subst_identity(*i, s, seen),
        TyModel::Tuple(fs) => lemma_subst_seq_identity(fs, s, seen),
        TyModel::Array(i, _) => lemma_subst_identity(*i, s, seen),
        TyModel::Slice(i) => lemma_subst_identity(*i, s, seen),
        TyModel::Adt(_, args) => lemma_subst_args_identity(args, s, seen),
        TyModel::Param(p) => {
            assert(!s.dom().contains(p));
        },
        _ => {},
    }
}

proof fn lemma_subst_seq_identity(fs: Seq<TyModel>, s: Map<ParamModel, TyModel>, seen: Set<ParamModel>)
    requires
        !any_contains_param(fs) || s.dom() =~= Set::<ParamModel>::empty(),
    ensures
        subst_seq_in(fs, s, seen) == fs,
    decreases fs,
{
    if fs.len() > 0 {
        lemma_subst_seq_identity(fs.drop_last(), s, seen);
        lemma_subst_identity(fs[fs.len() - 1], s, seen);
        assert(fs.drop_last().push(fs[fs.len() - 1]) =~= fs);
    }
}

proof fn lemma_subst_args_identity(args: Seq<ArgModel>, s: Map<ParamModel, TyModel>, seen: Set<ParamModel>)
    requires
        !any_arg_contains_param(args) || s.dom() =~= Set::<ParamModel>::empty(),
    ensures
        subst_args_in(args, s, seen) == args,
    decreases args,
{
    if args.len() > 0 {
        lemma_subst_args_identity(args.drop_last(), s, seen);
        match args[args.len() - 1] {
            ArgModel::Type(x) => lemma_subst_identity(x, s, seen),
            _ => {},
        }
        assert(args.drop_last().push(args[args.len() - 1]) =~= args);
    }
}

/// Substituting into a type that mentions no generic parameter leaves it
/// as it is.
pub proof fn lemma_subst_without_params(t: TyModel, s: Map<ParamModel, TyModel>)
    requires
        !contains_param(t),
    ensures
        subst(t, s) == t,
{
    lemma_subst_identity(t, s, Set::empty());
}

/// The empty substitution changes no type.
pub proof fn lemma_subst_empty(t: TyModel)
    ensures
        subst(t, Map::<ParamModel, TyModel>::empty()) == t,
{
    assert(Map::<ParamModel, TyModel>::empty().dom() =~= Set::<ParamModel>::empty());
    lemma_subst_identity(t, Map::<ParamModel, TyModel>::empty(), Set::empty());
}

// ---------------------------------------------------------------------
// Positional substitution.
// ---------------------------------------------------------------------

/// `t` with each parameter replaced by the type argument at its index in
/// `args`, through tuples, arrays, slices, references and raw pointers; a
/// parameter whose index holds no type argument stays.
pub open spec fn subst_positional(t: TyModel, args: Seq<ArgModel>) -> TyModel
    decreases t,
{
    match t {
        TyModel::Param(p) => if (p.index as int) < args.len() {
            match args[p.index as int] {
                ArgModel::Type(x) => x,
                _ => t,
            }
        } else {
            t
        },
        TyModel::Tuple(fs) => TyModel::Tuple(subst_positional_seq(fs, args)),
        TyModel::Array(i, l) => TyModel::Array(Box::new(subst_positional(*i, args)), l),
        TyModel::Slice(i) => TyModel::Slice(Box::new(subst_positional(*i, args))),
        TyModel::Ref(r, i, m) => TyModel::Ref(r, Box::new(subst_positional(*i, args)), m),
        TyModel::RawPtr(i, m) => TyModel::RawPtr(Box::new(subst_positional(*i, args)), m),
        _ => t,
    }
}

pub open spec fn subst_positional_seq(fs: Seq<TyModel>, args: Seq<ArgModel>) -> Seq<TyModel>
    decreases fs,
{
    if fs.len() == 0 {
        Seq::empty()
    } else {
        subst_positional_seq(fs.drop_last(), args).push(subst_positional(fs[fs.len() - 1], args))
    }
}

fn substitute_params_tys(fields: &Vec<Box<Ty>>, args: &[GenericArg]) -> (r: Vec<Box<Ty>>)
    ensures
        tys_model(r@) == subst_positional_seq(tys_model(fields@), args@.map_values(|a: GenericArg| arg_model(a))),
    decreases fields,
{
    let ghost am = args@.map_values(|a: GenericArg| arg_model(a));
    let mut r: Vec<Box<Ty>> = Vec::new();
    let mut i: usize = 0;
    while i < fields.len()
        invariant
            i <= fields@.len(),
            am == args@.map_values(|a: GenericArg| arg_model(a)),
            tys_model(r@) == subst_positional_seq(tys_model(fields@.take(i as int)), am),
        decreases fields@.len() - i,
    {
        assert(decreases_to!(fields => fields@[i as int]));
        let t = substitute_params_ref(&fields[i], args);
        let ghost old_r = r@;
        r.push(Box::new(t));
        proof {
            assert(r@.drop_last() == old_r);
            assert(fields@.take(i + 1).drop_last() =~= fields@.take(i as int));
            assert(fields@.take(i + 1)[i as int] == fields@[i as int]);
            assert(tys_model(fields@.take(i + 1)).drop_last() == tys_model(fields@.take(i as int)));
        }
        i += 1;
    }
    assert(fields@.take(fields@.len() as int) =~= fields@);
    r
}

fn substitute_params_ref(ty: &Ty, args: &[GenericArg]) -> (r: Ty)
    ensures
        r.model() == subst_positional(ty.model(), args@.map_values(|a: GenericArg| arg_model(a))),
    decreases ty,
{
    let ghost am = args@.map_values(|a: GenericArg| arg_model(a));
    match &ty.kind {
        TyKind::Param(param) => {
            let index = param.index as usize;
            if index < args.len() {
                assert(am[index as int] == arg_model(args@[index as int]));
                match &args[index] {
                    GenericArg::Type(t) => t.duplicate(),
                    _ => ty.duplicate(),
                }
            } else {
                ty.duplicate()
            }
        },
        TyKind::Tuple(fields) => Ty { kind: TyKind::Tuple(substitute_params_tys(fields, args)) },
        TyKind::Array(inner, length) => Ty {
            kind: TyKind::Array(Box::new(substitute_params_ref(inner, args)), length.duplicate()),
        },
        TyKind::Slice(inner) => Ty { kind: TyKind::Slice(Box::new(substitute_params_ref(inner, args))) },
        TyKind::Ref(region, inner, mutable) => Ty {
            kind: TyKind::Ref(*region, Box::new(substitute_params_ref(inner, args)), *mutable),
        },
        TyKind::RawPtr(value) => Ty {
            kind: TyKind::RawPtr(TypeAndMut { ty: Box::new(substitute_params_ref(&value.ty, args)), mutbl: value.mutbl }),
        },
        _ => ty.duplicate(),
    }
}

/// `ty` with each generic parameter replaced by the type argument at the
/// parameter's index in `args`; see `subst_positional`.
pub fn substitute_params(ty: Ty, args: &[GenericArg]) -> (r: Ty)
    ensures
        r.model() == subst_positional(ty.model(), args@.map_values(|a: GenericArg| arg_model(a))),
{
    substitute_params_ref(&ty, args)
}

// ---------------------------------------------------------------------
// Signatures, receivers and scrutinees.
// ---------------------------------------------------------------------

/// Substitutes `subs` through every input and the output of a function
/// signature; see `substitute_param_map`.
pub fn substitute_param_map_fn_sig(sig: &FnSig, subs: &Substitutions) -> (r: FnSig)
    requires
        subs.wf(),
    ensures
        tys_model(r.inputs@) == subst_seq(tys_model(sig.inputs@), subs.model()),
        r.output.model() == subst(sig.output.model(), subs.model()),
{
    FnSig { inputs: substitute_tys(&sig.inputs, subs), output: Box::new(substitute_param_map(&sig.output, subs)) }
}

/// A type with every outer reference removed.
pub open spec fn peel_refs(t: TyModel) -> TyModel
    decreases t,
{
    match t {
        TyModel::Ref(_, i, _) => peel_refs(*i),
        _ => t,
    }
}

/// The argument types of a method call adjusted to the receiver its
/// signature takes: a receiver taken by value has every reference removed
/// from the actual receiver; one taken by reference gets the actual
/// receiver borrowed (with the signature's mutability) unless it already
/// is a reference. Other calls are left as they are.
pub open spec fn method_actuals(signature: TyModel, actuals: Seq<TyModel>) -> Seq<TyModel> {
    match signature {
        TyModel::FnPtr(ins, _) => if ins.len() == 0 || actuals.len() == 0 {
            actuals
        } else {
            match ins[0] {
                TyModel::Ref(_, _, m) => if actuals[0] is Ref {
                    actuals
                } else {
                    actuals.update(0, TyModel::Ref(Region::ReErased, Box::new(actuals[0]), m))
                },
                _ => actuals.update(0, peel_refs(actuals[0])),
            }
        },
        _ => actuals,
    }
}

pub(crate) fn peel_references(t: &Ty) -> (r: Ty)
    ensures
        r.model() == peel_refs(t.model()),
    decreases t,
{
    match &t.kind {
        TyKind::Ref(_, inner, _) => peel_references(inner),
        _ => t.duplicate(),
    }
}

pub(crate) fn duplicate_ty_list(v: &[Ty]) -> (r: Vec<Ty>)
    ensures
        ty_list_model(r@) == ty_list_model(v@),
{
    let mut r: Vec<Ty> = Vec::new();
    let mut i: usize = 0;
    while i < v.len()
        invariant
            i <= v@.len(),
            r@.len() == i,
            forall|j: int| 0 <= j < i ==> (#[trigger] r@[j]).model() == v@[j].model(),
        decreases v@.len() - i,
    {
        r.push(v[i].duplicate());
        i += 1;
    }
    assert(ty_list_model(r@) =~= ty_list_model(v@));
    r
}

/// The argument types of a method call with the receiver adjusted to the
/// signature; see `method_actuals`.
pub fn method_call_actuals(signature: &Ty, actuals: &[Ty]) -> (r: Vec<Ty>)
    ensures
        ty_list_model(r@) == method_actuals(signature.model(), ty_list_model(actuals@)),
{
    let sig = match &signature.kind {
        TyKind::FnPtr(sig) => sig,
        _ => return duplicate_ty_list(actuals),
    };
    proof { lemma_tys_model(sig.inputs@); }
    if sig.inputs.len() == 0 || actuals.len() == 0 {
        return duplicate_ty_list(actuals);
    }
    let mut adjusted = duplicate_ty_list(actuals);
    let ghost am = ty_list_model(actuals@);
    match &sig.inputs[0].kind {
        TyKind::Ref(_, _, mutability) => {
            if let TyKind::Ref(_, _, _) = &actuals[0].kind {
                return adjusted;
            }
            let borrowed = Ty { kind: TyKind::Ref(Region::ReErased, Box::new(actuals[0].duplicate()), *mutability) };
            adjusted.set(0, borrowed);
            assert(ty_list_model(adjusted@) =~= am.update(0, TyModel::Ref(Region::ReErased, Box::new(am[0]), *mutability)));
            adjusted
        },
        _ => {
            let receiver = peel_references(&actuals[0]);
            adjusted.set(0, receiver);
            assert(ty_list_model(adjusted@) =~= am.update(0, peel_refs(am[0])));
            adjusted
        },
    }
}

/// What checking an ADT pattern's arguments against the scrutinee's
/// records, from position `i` on: type arguments are unified (expected
/// with actual, recording mismatches) under one substitution; any other
/// argument must be equal, and the first that is not ends the check with
/// a scrutinee mismatch.
pub open spec fn adt_args_check(
    actual: Seq<ArgModel>,
    expected: Seq<ArgModel>,
    ctx: Seq<char>,
    s: Map<ParamModel, TyModel>,
    i: int,
) -> Seq<DiagModel>
    decreases actual.len() - i,
{
    if i < 0 || i >= actual.len() || i >= expected.len() {
        Seq::empty()
    } else {
        match (actual[i], expected[i]) {
            (ArgModel::Type(a), ArgModel::Type(e)) => {
                let u = unify(e, a, s, true);
                u.diags + adt_args_check(actual, expected, ctx, u.subs, i + 1)
            },
            (a, e) => if a == e {
                adt_args_check(actual, expected, ctx, s, i + 1)
            } else {
                seq![DiagModel::ScrutineeMismatch(ctx)]
            },
        }
    }
}

/// What requiring the ADT type `actual` to match the ADT type `expected`
/// records: a non-ADT side or different ADTs (or argument counts) are one
/// diagnostic; otherwise see `adt_args_check`.
pub open spec fn adt_check(actual: TyModel, expected: TyModel, ctx: Seq<char>) -> Seq<DiagModel> {
    match (actual, expected) {
        (TyModel::Adt(ad, aargs), TyModel::Adt(ed, eargs)) => if ad.did != ed.did || aargs.len() != eargs.len() {
            seq![DiagModel::ScrutineeMismatch(ctx)]
        } else {
            adt_args_check(aargs, eargs, ctx, Map::empty(), 0)
        },
        _ => seq![DiagModel::NotAdtScrutinee(ctx)],
    }
}

/// Requires the scrutinee type `actual` to be the ADT `expected` (a
/// pattern's type), recording what does not match; `context` names the
/// construct in the diagnostics. See `adt_check`.
pub fn require_same_adt(actual: &Ty, expected: &Ty, context: &str, diags: &mut Vec<TypeDiagnostic>)
    ensures
        diags_model(final(diags)@) == diags_model(old(diags)@) + adt_check(actual.model(), expected.model(), context@),
{
    let (actual_def, actual_args, expected_def, expected_args) = match (&actual.kind, &expected.kind) {
        (TyKind::Adt(ad, aa), TyKind::Adt(ed, ea)) => (ad, aa, ed, ea),
        _ => {
            let d = TypeDiagnostic::NotAdtScrutinee(context.to_owned());
            proof { lemma_diags_push(diags@, d); }
            diags.push(d);
            return;
        },
    };
    proof {
        lemma_args_model(actual_args@);
        lemma_args_model(expected_args@);
    }
    if actual_def.did != expected_def.did || actual_args.len() != expected_args.len() {
        let d = TypeDiagnostic::ScrutineeMismatch(context.to_owned());
        proof { lemma_diags_push(diags@, d); }
        diags.push(d);
        return;
    }
    let ghost am = args_model(actual_args@);
    let ghost em = args_model(expected_args@);
    let ghost ctx = context@;
    let ghost d0 = diags_model(diags@);
    let mut subs = Substitutions::new();
    assert(diags_model(diags@) + adt_args_check(am, em, ctx, subs.model(), 0) =~= d0 + adt_args_check(am, em, ctx, Map::empty(), 0));
    assert(adt_check(actual.model(), expected.model(), context@) == adt_args_check(am, em, ctx, Map::empty(), 0));
    let mut i: usize = 0;
    while i < actual_args.len()
        invariant
            i <= actual_args@.len(),
            actual_args@.len() == expected_args@.len(),
            am == args_model(actual_args@),
            em == args_model(expected_args@),
            am.len() == actual_args@.len(),
            em.len() == expected_args@.len(),
            forall|j: int| 0 <= j < actual_args@.len() ==> #[trigger] am[j] == arg_model(actual_args@[j]),
            forall|j: int| 0 <= j < expected_args@.len() ==> #[trigger] em[j] == arg_model(expected_args@[j]),
            ctx == context@,
            d0 == diags_model(old(diags)@),
            adt_check(actual.model(), expected.model(), context@) == adt_args_check(am, em, ctx, Map::empty(), 0),
            subs.wf(),
            diags_model(diags@) + adt_args_check(am, em, ctx, subs.model(), i as int)
                == d0 + adt_args_check(am, em, ctx, Map::empty(), 0),
        decreases actual_args@.len() - i,
    {
        let ghost before = diags_model(diags@);
        let ghost s_before = subs.model();
        match (&actual_args[i], &expected_args[i]) {
            (GenericArg::Type(a), GenericArg::Type(e)) => {
                let _ = unify_call_types_impl(e, a, &mut subs, true, diags);
                proof {
                    let u = unify(e.model(), a.model(), s_before, true);
                    assert(adt_args_check(am, em, ctx, s_before, i as int)
                        == u.diags + adt_args_check(am, em, ctx, u.subs, i + 1));
                    assert(diags_model(diags@) + adt_args_check(am, em, ctx, subs.model(), i + 1)
                        =~= before + (u.diags + adt_args_check(am, em, ctx, u.subs, i + 1)));
                }
            },
            (a, e) => {
                if !same_arg(a, e) {
                    let d = TypeDiagnostic::ScrutineeMismatch(context.to_owned());
                    proof { lemma_diags_push(diags@, d); }
                    diags.push(d);
                    proof {
                        assert(adt_args_check(am, em, ctx, s_before, i as int) == seq![DiagModel::ScrutineeMismatch(ctx)]);
                        assert(diags_model(diags@) == before + seq![DiagModel::ScrutineeMismatch(ctx)]);
                    }
                    return;
                }
            },
        }
        i += 1;
    }
    assert(diags_model(diags@) + adt_args_check(am, em, ctx, subs.model(), i as int) =~= diags_model(diags@));
}

/// Whether a candidate's signature can produce the expected type: its
/// output unifies speculatively (from no bindings) with it. Without a
/// function signature or an expected type there is nothing to rule the
/// candidate out.
pub open spec fn output_matches(signature: Option<TyModel>, expected: Option<TyModel>) -> bool {
    match (signature, expected) {
        (Some(TyModel::FnPtr(_, out)), Some(e)) => unify(*out, e, Map::empty(), false).ok,
        _ => true,
    }
}

/// Whether a candidate's signature can produce the expected type; see
/// `output_matches`.
pub fn signature_matches_expected_output(signature: Option<&Ty>, expected: Option<&Ty>) -> (r: bool)
    ensures
        r == output_matches(
            match signature { Some(t) => Some(t.model()), None => None },
            match expected { Some(t) => Some(t.model()), None => None },
        ),
{
    match (signature, expected) {
        (Some(sig), Some(expected)) => match &sig.kind {
            TyKind::FnPtr(fn_sig) => {
                let mut subs = Substitutions::new();
                unify_call_types_probe(&fn_sig.output, expected, &mut subs).is_ok()
            },
            _ => true,
        },
        _ => true,
    }
}


// ---------------------------------------------------------------------
// Laws of function pointer unification and positional substitution.
// ---------------------------------------------------------------------

/// Unifying two function pointer types of one arity unifies their outputs
/// as well as their inputs: a parameter that the expected output is, left
/// unbound by the inputs, ends bound to the actual output.
pub proof fn law_fn_ptr_output_is_unified(
    ei: Seq<TyModel>,
    ai: Seq<TyModel>,
    p: ParamModel,
    ao: TyModel,
    s: Map<ParamModel, TyModel>,
    record: bool,
)
    requires
        ei.len() == ai.len(),
        unify_seq(ei, ai, s, record).ok,
        !unify_seq(ei, ai, s, record).subs.contains_key(p),
    ensures
        ({
            let u = unify(
                TyModel::FnPtr(ei, Box::new(TyModel::Param(p))),
                TyModel::FnPtr(ai, Box::new(ao)),
                s,
                record,
            );
            u.ok && u.subs.contains_key(p) && u.subs[p] == ao
        }),
{
    let e = TyModel::FnPtr(ei, Box::new(TyModel::Param(p)));
    let a = TyModel::FnPtr(ai, Box::new(ao));
    let inputs = unify_seq(ei, ai, s, record);
    assert(unify(e, a, s, record) == unify_shapes(e, a, s, record));
    assert(unify_shapes(e, a, s, record) == unify_then(inputs, unify(TyModel::Param(p), ao, inputs.subs, record)));
    assert(unify(TyModel::Param(p), ao, inputs.subs, record) == bind_param(p, ao, inputs.subs, record));
}

/// A call of `fn(fn() -> T) -> T` with an argument of type `fn() -> X`,
/// for any type `X` that mentions no parameter, binds `T` to `X` and has
/// the type `X`.
pub proof fn law_call_output_through_fn_ptr_argument(p: ParamModel, x: TyModel)
    requires
        !contains_param(x),
    ensures
        instantiate(
            TyModel::FnPtr(seq![TyModel::FnPtr(Seq::empty(), Box::new(TyModel::Param(p)))], Box::new(TyModel::Param(p))),
            seq![TyModel::FnPtr(Seq::empty(), Box::new(x))],
        ) == Some((Map::<ParamModel, TyModel>::empty().insert(p, x), x)),
{
    let e = TyModel::FnPtr(Seq::<TyModel>::empty(), Box::new(TyModel::Param(p)));
    let a = TyModel::FnPtr(Seq::<TyModel>::empty(), Box::new(x));
    let es = seq![e];
    let as_ = seq![a];
    let m = Map::<ParamModel, TyModel>::empty().insert(p, x);
    assert(es.subrange(0, 0) =~= Seq::<TyModel>::empty());
    assert(as_.subrange(0, 0) =~= Seq::<TyModel>::empty());
    assert(unify_seq(Seq::empty(), Seq::empty(), Map::empty(), true) == unify_done(Map::empty()));
    let inputs = unify_seq(Seq::empty(), Seq::empty(), Map::empty(), true);
    assert(unify(e, a, Map::empty(), true) == unify_shapes(e, a, Map::empty(), true));
    assert(unify_shapes(e, a, Map::empty(), true) == unify_then(inputs, unify(TyModel::Param(p), x, inputs.subs, true)));
    assert(unify(TyModel::Param(p), x, inputs.subs, true) == bind_param(p, x, Map::empty(), true));
    assert(unify(e, a, Map::empty(), true).subs == m);
    assert(unify_seq(es, as_, Map::empty(), true).subs == m);
    assert(m.dom().finite());
    assert(m.contains_key(p));
    lemma_subst_identity(x, m, Set::<ParamModel>::empty().insert(p));
    assert(subst_in(TyModel::Param(p), m, Set::empty()) == subst_in(x, m, Set::<ParamModel>::empty().insert(p)));
}

/// Every parameter `t` mentions stands where positional substitution
/// reaches it (not inside the arguments of an ADT or a function pointer
/// type) and has an index below `n`.
pub open spec fn positionally_covered(t: TyModel, n: int) -> bool
    decreases t,
{
    match t {
        TyModel::Param(q) => (q.index as int) < n,
        TyModel::Ref(_, i, _) => positionally_covered(*i, n),
        TyModel::RawPtr(i, _) => positionally_covered(*i, n),
        TyModel::Slice(i) => positionally_covered(*i, n),
        TyModel::Array(i, _) => positionally_covered(*i, n),
        TyModel::Tuple(fs) => forall|k: int| 0 <= k < fs.len() ==> positionally_covered(#[trigger] fs[k], n),
        _ => !contains_param(t),
    }
}

/// Positional substitution leaves no parameter behind: when every
/// argument is a type that mentions no parameter and every parameter of
/// `t` stands where substitution reaches it with an argument at its index,
/// the result mentions no parameter.
pub proof fn law_positional_substitution_leaves_no_parameter(t: TyModel, args: Seq<ArgModel>)
    requires
        forall|k: int| 0 <= k < args.len() ==> (#[trigger] args[k] is Type) && !contains_param(args[k]->Type_0),
        positionally_covered(t, args.len() as int),
    ensures
        !contains_param(subst_positional(t, args)),
    decreases t,
{
    match t {
        TyModel::Param(q) => {
            assert(args[q.index as int] is Type);
        },
        TyModel::Ref(_, i, _) => law_positional_substitution_leaves_no_parameter(*i, args),
        TyModel::RawPtr(i, _) => law_positional_substitution_leaves_no_parameter(*i, args),
        TyModel::Slice(i) => law_positional_substitution_leaves_no_parameter(*i, args),
        TyModel::Array(i, _) => law_positional_substitution_leaves_no_parameter(*i, args),
        TyModel::Tuple(fs) => {
            assert forall|k: int| 0 <= k < fs.len() implies !contains_param(#[trigger] subst_positional(fs[k], args)) by {
                assert(positionally_covered(fs[k], args.len() as int));
                law_positional_substitution_leaves_no_parameter(fs[k], args);
            }
            lemma_positional_seq_free(fs, args);
        },
        _ => {},
    }
}

proof fn lemma_positional_seq_free(fs: Seq<TyModel>, args: Seq<ArgModel>)
    requires
        forall|k: int| 0 <= k < fs.len() ==> !contains_param(#[trigger] subst_positional(fs[k], args)),
    ensures
        !any_contains_param(subst_positional_seq(fs, args)),
    decreases fs.len(),
{
    if fs.len() > 0 {
        let init = fs.drop_last();
        assert forall|k: int| 0 <= k < init.len() implies !contains_param(#[trigger] subst_positional(init[k], args)) by {
            assert(init[k] == fs[k]);
        }
        lemma_positional_seq_free(init, args);
        let r = subst_positional_seq(fs, args);
        assert(r.drop_last() == subst_positional_seq(init, args));
        assert(r[r.len() - 1] == subst_positional(fs[fs.len() - 1], args));
    }
}


/// Unification binds a parameter wherever the expected type holds it
/// opposite an actual type: under a reference, in a slice, an array, a
/// one-element tuple and the one input of a function pointer type (whatever
/// its output), an unbound parameter `p` ends bound to what stands
/// opposite it.
pub proof fn law_unify_binds_through_structure(p: ParamModel, a: TyModel, x: TyModel, y: TyModel, s: Map<ParamModel, TyModel>, record: bool)
    requires
        !s.contains_key(p),
    ensures
        ({
            let u = unify(TyModel::Slice(Box::new(TyModel::Param(p))), TyModel::Slice(Box::new(a)), s, record);
            u.ok && u.subs.contains_key(p) && u.subs[p] == a
        }),
        ({
            let u = unify(
                TyModel::Array(Box::new(TyModel::Param(p)), ConstModel::Infer),
                TyModel::Array(Box::new(a), ConstModel::Infer),
                s,
                record,
            );
            u.ok && u.subs.contains_key(p) && u.subs[p] == a
        }),
        ({
            let u = unify(
                TyModel::Ref(Region::ReErased, Box::new(TyModel::Param(p)), Mutability::Not),
                TyModel::Ref(Region::ReErased, Box::new(a), Mutability::Not),
                s,
                record,
            );
            u.ok && u.subs.contains_key(p) && u.subs[p] == a
        }),
        ({
            let u = unify(TyModel::Tuple(seq![TyModel::Param(p)]), TyModel::Tuple(seq![a]), s, record);
            u.ok && u.subs.contains_key(p) && u.subs[p] == a
        }),
        ({
            let u = unify(
                TyModel::FnPtr(seq![TyModel::Param(p)], Box::new(x)),
                TyModel::FnPtr(seq![a], Box::new(y)),
                s,
                record,
            );
            u.subs.contains_key(p) && u.subs[p] == a
        }),
{
    let pp = TyModel::Param(p);
    let e1 = TyModel::Slice(Box::new(pp));
    let a1 = TyModel::Slice(Box::new(a));
    assert(unify(e1, a1, s, record) == unify_shapes(e1, a1, s, record));
    let e2 = TyModel::Array(Box::new(pp), ConstModel::Infer);
    let a2 = TyModel::Array(Box::new(a), ConstModel::Infer);
    assert(unify(e2, a2, s, record) == unify_shapes(e2, a2, s, record));
    let e4 = TyModel::Tuple(seq![pp]);
    let a4 = TyModel::Tuple(seq![a]);
    assert(unify(e4, a4, s, record) == unify_shapes(e4, a4, s, record));
    assert(seq![pp].subrange(0, 0) =~= Seq::<TyModel>::empty());
    assert(seq![a].subrange(0, 0) =~= Seq::<TyModel>::empty());
    assert(unify_seq(Seq::<TyModel>::empty(), Seq::<TyModel>::empty(), s, record) == unify_done(s));
    assert(seq![pp][0] == pp);
    assert(seq![a][0] == a);
    assert(unify(pp, a, s, record) == bind_param(p, a, s, record));
    assert(unify_seq(seq![pp], seq![a], s, record) == unify_then(unify_done(s), unify(pp, a, s, record)));
    let e5 = TyModel::FnPtr(seq![pp], Box::new(x));
    let a5 = TyModel::FnPtr(seq![a], Box::new(y));
    assert(unify(e5, a5, s, record) == unify_shapes(e5, a5, s, record));
    lemma_unify_keeps_key(x, y, s.insert(p, a), record, p);
}

/// Unification never changes a binding already made.
proof fn lemma_unify_keeps_key(x: TyModel, y: TyModel, m: Map<ParamModel, TyModel>, record: bool, p: ParamModel)
    requires
        m.contains_key(p),
    ensures
        unify(x, y, m, record).subs.contains_key(p) && unify(x, y, m, record).subs[p] == m[p],
{
    lemma_unify_laws(x, y, m, record);
}

/// Every parameter `t` mentions stands where substitution reaches it (not
/// inside a function pointer type) and is bound in `s` to a type that
/// mentions no parameter.
pub open spec fn bound_everywhere(t: TyModel, s: Map<ParamModel, TyModel>) -> bool
    decreases t,
{
    match t {
        TyModel::Param(q) => s.contains_key(q) && !contains_param(s[q]),
        TyModel::Ref(_, i, _) => bound_everywhere(*i, s),
        TyModel::RawPtr(i, _) => bound_everywhere(*i, s),
        TyModel::Slice(i) => bound_everywhere(*i, s),
        TyModel::Array(i, _) => bound_everywhere(*i, s),
        TyModel::Tuple(fs) => forall|k: int| 0 <= k < fs.len() ==> bound_everywhere(#[trigger] fs[k], s),
        TyModel::Adt(_, args) => forall|k: int| 0 <= k < args.len() ==> match #[trigger] args[k] {
            ArgModel::Type(x) => bound_everywhere(x, s),
            _ => true,
        },
        _ => !contains_param(t),
    }
}

/// Substitution leaves no parameter behind: when every parameter of `t`
/// stands where substitution reaches it and is bound to a type that
/// mentions no parameter, the result mentions none.
pub proof fn law_substitution_leaves_no_parameter(t: TyModel, s: Map<ParamModel, TyModel>)
    requires
        s.dom().finite(),
        bound_everywhere(t, s),
    ensures
        !contains_param(subst(t, s)),
    decreases t,
{
    match t {
        TyModel::Param(q) => {
            lemma_subst_identity(s[q], s, Set::<ParamModel>::empty().insert(q));
        },
        TyModel::Ref(_, i, _) => law_substitution_leaves_no_parameter(*i, s),
        TyModel::RawPtr(i, _) => law_substitution_leaves_no_parameter(*i, s),
        TyModel::Slice(i) => law_substitution_leaves_no_parameter(*i, s),
        TyModel::Array(i, _) => law_substitution_leaves_no_parameter(*i, s),
        TyModel::Tuple(fs) => {
            assert forall|k: int| 0 <= k < fs.len() implies !contains_param(#[trigger] subst(fs[k], s)) by {
                assert(bound_everywhere(fs[k], s));
                law_substitution_leaves_no_parameter(fs[k], s);
            }
            lemma_subst_seq_free(fs, s);
        },
        TyModel::Adt(_, args) => {
            assert forall|k: int| 0 <= k < args.len() && (#[trigger] args[k]) is Type implies
                !contains_param(subst(args[k]->Type_0, s)) by {
                assert(bound_everywhere(args[k]->Type_0, s));
                law_substitution_leaves_no_parameter(args[k]->Type_0, s);
            }
            lemma_subst_args_free(args, s);
        },
        _ => {
            lemma_subst_identity(t, s, Set::empty());
        },
    }
}

proof fn lemma_subst_seq_free(fs: Seq<TyModel>, s: Map<ParamModel, TyModel>)
    requires
        forall|k: int| 0 <= k < fs.len() ==> !contains_param(#[trigger] subst(fs[k], s)),
    ensures
        !any_contains_param(subst_seq(fs, s)),
    decreases fs.len(),
{
    if fs.len() > 0 {
        let init = fs.drop_last();
        assert forall|k: int| 0 <= k < init.len() implies !contains_param(#[trigger] subst(init[k], s)) by {
            assert(init[k] == fs[k]);
        }
        lemma_subst_seq_free(init, s);
        let r = subst_seq(fs, s);
        assert(r.drop_last() == subst_seq(init, s));
        assert(r[r.len() - 1] == subst(fs[fs.len() - 1], s));
    }
}

proof fn lemma_subst_args_free(args: Seq<ArgModel>, s: Map<ParamModel, TyModel>)
    requires
        forall|k: int| 0 <= k < args.len() && (#[trigger] args[k]) is Type ==> !contains_param(subst(args[k]->Type_0, s)),
    ensures
        !any_arg_contains_param(subst_args(args, s)),
    decreases args.len(),
{
    if args.len() > 0 {
        let init = args.drop_last();
        assert forall|k: int| 0 <= k < init.len() && (#[trigger] init[k]) is Type implies
            !contains_param(subst(init[k]->Type_0, s)) by {
            assert(init[k] == args[k]);
        }
        lemma_subst_args_free(init, s);
        let r = subst_args(args, s);
        assert(r.drop_last() == subst_args(init, s));
    }
}

} // verus!
