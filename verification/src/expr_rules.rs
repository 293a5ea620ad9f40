//! The typing rules of expression forms. Checking an expression walks its
//! parts first; each function here then takes the checked types of those
//! parts (and whether a part is written as an integer literal, which some
//! rules read) and gives the expression's own type, recording in `diags`
//! what does not fit. Checking always goes on after a recorded diagnostic.

use vstd::prelude::*;
use crate::expr::{BinOp, UnOp};
use crate::generic_types::{
    branch_join, diags_model, lemma_subst_empty, lemma_subst_without_params, lemma_unify_reflexive, instantiate, instantiate_call, instantiate_diags, lemma_diags_push,
    lemma_unify_seq_laws, peel_references, peel_refs, require_same, require_same_diags, subst,
    substitute_param_map, ty_list_model, unify, unify_branch_types, unify_call_types, unify_done,
    unify_seq, unify_then, DiagModel, Substitutions, TypeDiagnostic,
};
use crate::type_shapes::{contains_param, ty_contains_param};
use crate::literals::{const_kind_to_u64, const_to_u64, length_model, u64_to_const_kind, unit_model, unit_ty};
use crate::type_compat::{lemma_matches_holes_reflexive, matches_holes, ty_matches_with_infer_holes};
use crate::refinement::meaning::is_comparison_op;
use crate::ty::{
    AdtDef, ConstKind, ConstModel, GenericArg, Mutability, ParamModel, Region, ScalarInt, Ty, TyKind, TyModel,
    UintTy, FnSig, lemma_args_model, lemma_tys_model, tys_model,
};
use crate::type_exprs::{array_len_model, array_length};

verus! {

/// Whether a type is one of the integer types.
pub open spec fn is_integer(t: TyModel) -> bool {
    t is Int || t is Uint
}

pub(crate) fn is_integer_ty(t: &Ty) -> (r: bool)
    ensures
        r == is_integer(t.model()),
{
    match t.kind {
        TyKind::Int(_) | TyKind::Uint(_) => true,
        _ => false,
    }
}

/// The checked type of an operand, and whether the operand is written as
/// an integer literal.
#[derive(Debug)]
pub struct Operand {
    pub int_literal: bool,
    pub ty: Ty,
}

impl Operand {
    pub open spec fn model(&self) -> (bool, TyModel) {
        (self.int_literal, self.ty.model())
    }
}

pub open spec fn operands_model(v: Seq<Operand>) -> Seq<(bool, TyModel)> {
    v.map_values(|o: Operand| o.model())
}

// ---------------------------------------------------------------------
// Operators.
// ---------------------------------------------------------------------

/// Whether a binary operator produces a `bool`: the comparisons and the
/// logical connectives.
pub open spec fn gives_bool(op: BinOp) -> bool {
    is_comparison_op(op) || op == BinOp::And || op == BinOp::Or
}

/// The type of `lhs op rhs` and what checking it records. An integer
/// literal opposite an integer-typed operand takes that operand's type and
/// nothing is checked. Otherwise `&&` and `||` require `bool` operands, and
/// every other operator unifies the left operand's type with the right's
/// (from no bindings, recording mismatches). Comparisons and connectives
/// give `bool`; the other operators give the left operand's type.
pub open spec fn binary_model(op: BinOp, lhs: (bool, TyModel), rhs: (bool, TyModel)) -> (TyModel, Seq<DiagModel>) {
    let integer_literal = (lhs.0 && is_integer(rhs.1)) || (rhs.0 && is_integer(lhs.1));
    let diags = if integer_literal {
        Seq::empty()
    } else if op == BinOp::And || op == BinOp::Or {
        require_same_diags(lhs.1, TyModel::Bool) + require_same_diags(rhs.1, TyModel::Bool)
    } else {
        unify(lhs.1, rhs.1, Map::empty(), true).diags
    };
    (if gives_bool(op) { TyModel::Bool } else { lhs.1 }, diags)
}

/// The type of a binary expression; see `binary_model`.
pub fn binary_expr_ty(op: BinOp, lhs: Operand, rhs: &Operand, diags: &mut Vec<TypeDiagnostic>) -> (t: Ty)
    ensures
        t.model() == binary_model(op, lhs.model(), rhs.model()).0,
        diags_model(final(diags)@) == diags_model(old(diags)@) + binary_model(op, lhs.model(), rhs.model()).1,
{
    let ghost d0 = diags_model(diags@);
    let integer_literal = (lhs.int_literal && is_integer_ty(&rhs.ty)) || (rhs.int_literal && is_integer_ty(&lhs.ty));
    if integer_literal {
        assert(diags_model(diags@) =~= d0 + Seq::<DiagModel>::empty());
    } else {
        match op {
            BinOp::And | BinOp::Or => {
                let boolean = Ty::bool();
                require_same(&lhs.ty, &boolean, diags);
                require_same(&rhs.ty, &boolean, diags);
                assert(diags_model(diags@) =~= d0 + (require_same_diags(lhs.ty.model(), TyModel::Bool)
                    + require_same_diags(rhs.ty.model(), TyModel::Bool)));
            },
            _ => {
                let mut subs = Substitutions::new();
                unify_call_types(&lhs.ty, &rhs.ty, &mut subs, diags);
            },
        }
    }
    match op {
        BinOp::Eq | BinOp::Ne | BinOp::Lt | BinOp::Le | BinOp::Gt | BinOp::Ge | BinOp::And | BinOp::Or => Ty::bool(),
        _ => lhs.ty,
    }
}

/// The type of a unary expression and what checking it records: `!`
/// requires a `bool` and gives `bool`; `*` gives what a reference or raw
/// pointer points to, and is an error on anything else; negation and
/// boxing keep the operand's type.
pub open spec fn unary_model(op: UnOp, v: TyModel) -> (TyModel, Seq<DiagModel>) {
    match op {
        UnOp::Not => (TyModel::Bool, require_same_diags(v, TyModel::Bool)),
        UnOp::Deref => match v {
            TyModel::Ref(_, inner, _) => (*inner, Seq::empty()),
            TyModel::RawPtr(inner, _) => (*inner, Seq::empty()),
            _ => (TyModel::Error, seq![DiagModel::NotDereferenceable]),
        },
        UnOp::Neg | UnOp::Box => (v, Seq::empty()),
    }
}

fn record(diags: &mut Vec<TypeDiagnostic>, d: TypeDiagnostic)
    ensures
        diags_model(final(diags)@) == diags_model(old(diags)@) + seq![d.model()],
{
    proof { lemma_diags_push(diags@, d); }
    diags.push(d);
}

proof fn lemma_nothing_recorded(d: Seq<DiagModel>)
    ensures
        d + Seq::<DiagModel>::empty() == d,
{
    assert(d + Seq::<DiagModel>::empty() =~= d);
}

/// The type of a unary expression; see `unary_model`.
pub fn unary_expr_ty(op: UnOp, value: Ty, diags: &mut Vec<TypeDiagnostic>) -> (t: Ty)
    ensures
        t.model() == unary_model(op, value.model()).0,
        diags_model(final(diags)@) == diags_model(old(diags)@) + unary_model(op, value.model()).1,
{
    proof { lemma_nothing_recorded(diags_model(diags@)); }
    match op {
        UnOp::Not => {
            require_same(&value, &Ty::bool(), diags);
            Ty::bool()
        },
        UnOp::Deref => match value.kind {
            TyKind::Ref(_, inner, _) => *inner,
            TyKind::RawPtr(pointee) => *pointee.ty,
            _ => {
                record(diags, TypeDiagnostic::NotDereferenceable);
                Ty::error()
            },
        },
        UnOp::Neg | UnOp::Box => value,
    }
}

/// The type of `&referent` (or `&mut referent`): a fresh borrow of the
/// referent's type with every reference already on it removed, so that
/// borrowing a reference re-borrows instead of stacking references.
pub open spec fn reference_model(referent: TyModel, mutability: Mutability) -> TyModel {
    TyModel::Ref(Region::ReErased, Box::new(peel_refs(referent)), mutability)
}

/// The type of a borrow expression; see `reference_model`.
pub fn reference_expr_ty(referent: &Ty, mutability: Mutability) -> (t: Ty)
    ensures
        t.model() == reference_model(referent.model(), mutability),
{
    Ty { kind: TyKind::Ref(Region::ReErased, Box::new(peel_references(referent)), mutability) }
}

// ---------------------------------------------------------------------
// Indexing and slicing.
// ---------------------------------------------------------------------

/// How an index expression is typed.
#[derive(Debug)]
pub enum IndexTyping {
    /// The expression has this type.
    Element(Ty),
    /// The receiver is another nominal type: the expression is typed as a
    /// call of the receiver's `index` method with the index.
    ThroughIndexMethod,
}

/// The type of `receiver[index]` (`None` when it is typed through the
/// receiver's `index` method) and what checking it records. One reference
/// on the receiver is looked through. An array or slice takes a `usize`
/// index and gives its element; a `HashMap` (the ADT `map_def`, when
/// declared) takes its key type and gives its value type, and is an error
/// when its type names no key and value types; another ADT is indexed
/// through its `index` method; anything else is an error.
pub open spec fn index_model(receiver: TyModel, index: TyModel, map_def: Option<AdtDef>) -> (Option<TyModel>, Seq<DiagModel>) {
    let base = match receiver {
        TyModel::Ref(_, inner, _) => *inner,
        _ => receiver,
    };
    match base {
        TyModel::Array(inner, _) => (Some(*inner), require_same_diags(index, TyModel::Uint(UintTy::Usize))),
        TyModel::Slice(inner) => (Some(*inner), require_same_diags(index, TyModel::Uint(UintTy::Usize))),
        TyModel::Adt(adt, args) => if map_def == Some(adt) {
            if args.len() >= 2 && args[0] is Type && args[1] is Type {
                (Some(args[1]->Type_0), require_same_diags(index, args[0]->Type_0))
            } else {
                (Some(TyModel::Error), seq![DiagModel::MapIndexArgsMissing])
            }
        } else {
            (None, Seq::empty())
        },
        _ => (Some(TyModel::Error), seq![DiagModel::NotIndexable]),
    }
}

/// The typing of an index expression; see `index_model`.
pub fn index_expr_ty(receiver: &Ty, index: &Ty, map_def: Option<AdtDef>, diags: &mut Vec<TypeDiagnostic>) -> (r: IndexTyping)
    ensures
        index_model(receiver.model(), index.model(), map_def).0 matches Some(t)
            ==> r matches IndexTyping::Element(e) && e.model() == t,
        index_model(receiver.model(), index.model(), map_def).0 is None ==> r is ThroughIndexMethod,
        diags_model(final(diags)@) == diags_model(old(diags)@) + index_model(receiver.model(), index.model(), map_def).1,
{
    proof { lemma_nothing_recorded(diags_model(diags@)); }
    let base = match &receiver.kind {
        TyKind::Ref(_, inner, _) => &**inner,
        _ => receiver,
    };
    match &base.kind {
        TyKind::Array(inner, _) | TyKind::Slice(inner) => {
            require_same(index, &Ty::uint(UintTy::Usize), diags);
            IndexTyping::Element(inner.duplicate())
        },
        TyKind::Adt(adt, args) => {
            proof { lemma_args_model(args@); }
            let is_map = match map_def {
                Some(m) => m.did.package == adt.did.package && m.did.index == adt.did.index,
                None => false,
            };
            if !is_map {
                assert(base.model() is Adt && base.model()->Adt_0 == *adt);
                assert(map_def != Some(*adt));
                return IndexTyping::ThroughIndexMethod;
            }
            if args.len() >= 2 {
                match (&args[0], &args[1]) {
                    (GenericArg::Type(key), GenericArg::Type(value)) => {
                        require_same(index, key, diags);
                        return IndexTyping::Element(value.duplicate());
                    },
                    _ => {},
                }
            }
            record(diags, TypeDiagnostic::MapIndexArgsMissing);
            IndexTyping::Element(Ty::error())
        },
        _ => {
            record(diags, TypeDiagnostic::NotIndexable);
            IndexTyping::Element(Ty::error())
        },
    }
}

/// The type of `base[start..end]` and what checking it records: an array
/// or slice gives a slice of its element; anything else is an error.
pub open spec fn slice_model(base: TyModel) -> (TyModel, Seq<DiagModel>) {
    match base {
        TyModel::Array(inner, _) => (TyModel::Slice(inner), Seq::empty()),
        TyModel::Slice(inner) => (TyModel::Slice(inner), Seq::empty()),
        _ => (TyModel::Error, seq![DiagModel::NotSliceable]),
    }
}

/// The type of a slicing expression; see `slice_model`.
pub fn slice_expr_ty(base: Ty, diags: &mut Vec<TypeDiagnostic>) -> (t: Ty)
    ensures
        t.model() == slice_model(base.model()).0,
        diags_model(final(diags)@) == diags_model(old(diags)@) + slice_model(base.model()).1,
{
    proof { lemma_nothing_recorded(diags_model(diags@)); }
    match base.kind {
        TyKind::Array(inner, _) => Ty { kind: TyKind::Slice(inner) },
        TyKind::Slice(inner) => Ty { kind: TyKind::Slice(inner) },
        _ => {
            record(diags, TypeDiagnostic::NotSliceable);
            Ty::error()
        },
    }
}

// ---------------------------------------------------------------------
// Branching.
// ---------------------------------------------------------------------

/// The type of `if cond { then } else { els }` and what checking it
/// records: the condition must be a `bool`; with an `else` the two
/// branches are joined (see `branch_join`), without one the expression is
/// `()`.
pub open spec fn if_model(cond: TyModel, then: TyModel, els: Option<TyModel>) -> (TyModel, Seq<DiagModel>) {
    let d = require_same_diags(cond, TyModel::Bool);
    match els {
        Some(e) => (branch_join(then, e).0, d + branch_join(then, e).1),
        None => (unit_model(), d),
    }
}

/// The type of an `if` expression; see `if_model`.
pub fn if_expr_ty(cond: &Ty, then: Ty, els: Option<&Ty>, diags: &mut Vec<TypeDiagnostic>) -> (t: Ty)
    ensures
        t.model() == if_model(cond.model(), then.model(), match els {
            Some(e) => Some(e.model()),
            None => None,
        }).0,
        diags_model(final(diags)@) == diags_model(old(diags)@) + if_model(cond.model(), then.model(), match els {
            Some(e) => Some(e.model()),
            None => None,
        }).1,
{
    let ghost d0 = diags_model(diags@);
    require_same(cond, &Ty::bool(), diags);
    match els {
        Some(e) => {
            let joined = unify_branch_types(&then, e, diags);
            assert(diags_model(diags@) =~= d0 + (require_same_diags(cond.model(), TyModel::Bool)
                + branch_join(then.model(), e.model()).1));
            joined
        },
        None => unit_ty(),
    }
}

/// The type of a `match` whose arms have the types `arms`, in order, and
/// what checking it records: the arms are joined left to right (see
/// `branch_join`); a `match` without arms is an error.
pub open spec fn match_model(arms: Seq<TyModel>) -> (TyModel, Seq<DiagModel>)
    decreases arms.len(),
{
    if arms.len() == 0 {
        (TyModel::Error, seq![DiagModel::NoMatchArms])
    } else if arms.len() == 1 {
        (arms[0], Seq::empty())
    } else {
        let init = match_model(arms.drop_last());
        let j = branch_join(init.0, arms.last());
        (j.0, init.1 + j.1)
    }
}

/// The type of a `match` expression; see `match_model`.
pub fn match_expr_ty(arms: &[Ty], diags: &mut Vec<TypeDiagnostic>) -> (t: Ty)
    ensures
        t.model() == match_model(ty_list_model(arms@)).0,
        diags_model(final(diags)@) == diags_model(old(diags)@) + match_model(ty_list_model(arms@)).1,
{
    let ghost d0 = diags_model(diags@);
    let ghost am = ty_list_model(arms@);
    if arms.len() == 0 {
        record(diags, TypeDiagnostic::NoMatchArms);
        return Ty::error();
    }
    let mut result = arms[0].duplicate();
    proof {
        lemma_nothing_recorded(d0);
        assert(am.subrange(0, 1).drop_last() =~= Seq::<TyModel>::empty());
        assert(am.subrange(0, 1).len() == 1);
    }
    let mut i: usize = 1;
    while i < arms.len()
        invariant
            1 <= i <= arms@.len(),
            am == ty_list_model(arms@),
            d0 == diags_model(old(diags)@),
            result.model() == match_model(am.subrange(0, i as int)).0,
            diags_model(diags@) == d0 + match_model(am.subrange(0, i as int)).1,
        decreases arms@.len() - i,
    {
        let ghost prev = match_model(am.subrange(0, i as int));
        let joined = unify_branch_types(&result, &arms[i], diags);
        proof {
            let s = am.subrange(0, i + 1);
            assert(s.drop_last() =~= am.subrange(0, i as int));
            assert(s.last() == arms@[i as int].model());
            assert(diags_model(diags@) =~= d0 + (prev.1 + branch_join(prev.0, s.last()).1));
        }
        result = joined;
        i += 1;
    }
    assert(am.subrange(0, arms@.len() as int) =~= am);
    result
}

// ---------------------------------------------------------------------
// Arrays.
// ---------------------------------------------------------------------

/// The type of the first operand from position `i` on that is not an
/// integer literal, if any.
pub open spec fn first_non_literal_from(elems: Seq<(bool, TyModel)>, i: int) -> Option<TyModel>
    decreases elems.len() - i,
{
    if i < 0 || i >= elems.len() {
        None
    } else if !elems[i].0 {
        Some(elems[i].1)
    } else {
        first_non_literal_from(elems, i + 1)
    }
}

/// The element type of an array literal: the type of its first element
/// that is not an integer literal, or else its first element's type.
pub open spec fn array_element(elems: Seq<(bool, TyModel)>) -> TyModel {
    match first_non_literal_from(elems, 0) {
        Some(t) => t,
        None => elems[0].1,
    }
}

/// What checking the elements of an array literal against its element
/// type records, in order: an integer literal against an integer element
/// type is accepted; every other element must agree with the element type.
pub open spec fn element_diags(element: TyModel, elems: Seq<(bool, TyModel)>) -> Seq<DiagModel>
    decreases elems.len(),
{
    if elems.len() == 0 {
        Seq::empty()
    } else {
        element_diags(element, elems.drop_last()) + if elems.last().0 && is_integer(element) {
            Seq::<DiagModel>::empty()
        } else {
            require_same_diags(element, elems.last().1)
        }
    }
}

/// The type of an array literal and what checking it records: an array of
/// the element type (see `array_element`) whose length is the number of
/// elements; an empty literal is an error, its element type unknown.
pub open spec fn array_model(elems: Seq<(bool, TyModel)>) -> (TyModel, Seq<DiagModel>) {
    if elems.len() == 0 {
        (TyModel::Error, seq![DiagModel::EmptyArray])
    } else {
        let e = array_element(elems);
        (
            TyModel::Array(Box::new(e), ConstModel::Value(ScalarInt { data: elems.len() as u128, size: 8 })),
            element_diags(e, elems),
        )
    }
}

/// The type of an array literal; see `array_model`.
pub fn array_expr_ty(elems: &[Operand], diags: &mut Vec<TypeDiagnostic>) -> (t: Ty)
    ensures
        t.model() == array_model(operands_model(elems@)).0,
        diags_model(final(diags)@) == diags_model(old(diags)@) + array_model(operands_model(elems@)).1,
{
    let ghost m = operands_model(elems@);
    let ghost d0 = diags_model(diags@);
    if elems.len() == 0 {
        record(diags, TypeDiagnostic::EmptyArray);
        return Ty::error();
    }
    let mut found = false;
    let mut chosen: usize = 0;
    let mut k: usize = 0;
    while k < elems.len()
        invariant
            k <= elems@.len(),
            m == operands_model(elems@),
            m.len() == elems@.len(),
            found ==> chosen < elems@.len() && first_non_literal_from(m, 0) == Some(m[chosen as int].1),
            !found ==> first_non_literal_from(m, 0) == first_non_literal_from(m, k as int),
        decreases elems@.len() - k,
    {
        assert(m[k as int] == elems@[k as int].model());
        if !found && !elems[k].int_literal {
            found = true;
            chosen = k;
        }
        k += 1;
    }
    let element = if found {
        elems[chosen].ty.duplicate()
    } else {
        elems[0].ty.duplicate()
    };
    assert(m[0] == elems@[0].model());
    assert(found ==> m[chosen as int] == elems@[chosen as int].model());
    let element_is_integer = is_integer_ty(&element);
    proof {
        assert(m.subrange(0, 0) =~= Seq::<(bool, TyModel)>::empty());
        lemma_nothing_recorded(d0);
    }
    let mut i: usize = 0;
    while i < elems.len()
        invariant
            i <= elems@.len(),
            m == operands_model(elems@),
            m.len() == elems@.len(),
            d0 == diags_model(old(diags)@),
            element.model() == array_element(m),
            element_is_integer == is_integer(element.model()),
            diags_model(diags@) == d0 + element_diags(element.model(), m.subrange(0, i as int)),
        decreases elems@.len() - i,
    {
        let ghost prev = element_diags(element.model(), m.subrange(0, i as int));
        assert(m[i as int] == elems@[i as int].model());
        if !(elems[i].int_literal && element_is_integer) {
            require_same(&element, &elems[i].ty, diags);
        }
        proof {
            let s = m.subrange(0, i + 1);
            assert(s.drop_last() =~= m.subrange(0, i as int));
            assert(s.last() == m[i as int]);
            if m[i as int].0 && is_integer(element.model()) {
                assert(diags_model(diags@) =~= d0 + (prev + Seq::<DiagModel>::empty()));
            } else {
                assert(diags_model(diags@) =~= d0 + (prev + require_same_diags(element.model(), m[i as int].1)));
            }
        }
        i += 1;
    }
    assert(m.subrange(0, elems@.len() as int) =~= m);
    Ty {
        kind: TyKind::Array(Box::new(element), ConstKind::Value(ScalarInt { data: elems.len() as u128, size: 8 })),
    }
}

/// The type of `[element; len]`: an array of the element's type whose
/// length is `len` when written as a non-negative integer literal, and is
/// left to inference otherwise.
pub fn array_repeat_expr_ty(element: Ty, len_literal: Option<i64>) -> (t: Ty)
    ensures
        t.model() == TyModel::Array(Box::new(element.model()), array_len_model(len_literal)),
{
    Ty { kind: TyKind::Array(Box::new(element), array_length(len_literal)) }
}

// ---------------------------------------------------------------------
// Assignments, bindings, loops.
// ---------------------------------------------------------------------

/// The type of `target = value`: the target's type, after unifying it
/// with the value's as for a call argument (from no bindings, recording
/// mismatches).
pub fn assign_expr_ty(target: Ty, value: &Ty, diags: &mut Vec<TypeDiagnostic>) -> (t: Ty)
    ensures
        t.model() == target.model(),
        diags_model(final(diags)@) == diags_model(old(diags)@)
            + unify(target.model(), value.model(), Map::empty(), true).diags,
{
    let mut subs = Substitutions::new();
    unify_call_types(&target, value, &mut subs, diags);
    target
}

/// The type of a `let` expression: its declared type, which the value,
/// when there is one, must agree with.
pub fn let_expr_ty(declared: Ty, value: Option<&Ty>, diags: &mut Vec<TypeDiagnostic>) -> (t: Ty)
    ensures
        t.model() == declared.model(),
        diags_model(final(diags)@) == diags_model(old(diags)@) + match value {
            Some(v) => require_same_diags(declared.model(), v.model()),
            None => Seq::<DiagModel>::empty(),
        },
{
    match value {
        Some(v) => require_same(&declared, v, diags),
        None => {
            proof { lemma_nothing_recorded(diags_model(diags@)); }
        },
    }
    declared
}

/// What requiring every type of `others`, in order, to agree with `t`
/// records.
pub open spec fn each_same_diags(t: TyModel, others: Seq<TyModel>) -> Seq<DiagModel>
    decreases others.len(),
{
    if others.len() == 0 {
        Seq::empty()
    } else {
        each_same_diags(t, others.drop_last()) + require_same_diags(t, others.last())
    }
}

/// The type of a `try` expression: the type of its body, which every
/// `catch` arm and the `else` arm, when present, must agree with.
pub fn try_expr_ty(body: Ty, catches: &[Ty], otherwise: Option<&Ty>, diags: &mut Vec<TypeDiagnostic>) -> (t: Ty)
    ensures
        t.model() == body.model(),
        diags_model(final(diags)@) == diags_model(old(diags)@) + each_same_diags(body.model(), ty_list_model(catches@))
            + match otherwise {
                Some(o) => require_same_diags(body.model(), o.model()),
                None => Seq::<DiagModel>::empty(),
            },
{
    let ghost d0 = diags_model(diags@);
    let ghost cm = ty_list_model(catches@);
    proof {
        assert(cm.subrange(0, 0) =~= Seq::<TyModel>::empty());
        lemma_nothing_recorded(d0);
    }
    let mut i: usize = 0;
    while i < catches.len()
        invariant
            i <= catches@.len(),
            cm == ty_list_model(catches@),
            d0 == diags_model(old(diags)@),
            diags_model(diags@) == d0 + each_same_diags(body.model(), cm.subrange(0, i as int)),
        decreases catches@.len() - i,
    {
        let ghost prev = each_same_diags(body.model(), cm.subrange(0, i as int));
        require_same(&body, &catches[i], diags);
        proof {
            let s = cm.subrange(0, i + 1);
            assert(s.drop_last() =~= cm.subrange(0, i as int));
            assert(s.last() == catches@[i as int].model());
            assert(diags_model(diags@) =~= d0 + (prev + require_same_diags(body.model(), s.last())));
        }
        i += 1;
    }
    assert(cm.subrange(0, catches@.len() as int) =~= cm);
    let ghost d1 = diags_model(diags@);
    match otherwise {
        Some(o) => require_same(&body, o, diags),
        None => {
            proof { lemma_nothing_recorded(d1); }
        },
    }
    body
}

/// The type of `while cond { body }`: the type of its body; the condition
/// must be a `bool`.
pub fn while_expr_ty(cond: &Ty, body: Ty, diags: &mut Vec<TypeDiagnostic>) -> (t: Ty)
    ensures
        t.model() == body.model(),
        diags_model(final(diags)@) == diags_model(old(diags)@) + require_same_diags(cond.model(), TyModel::Bool),
{
    require_same(cond, &Ty::bool(), diags);
    body
}

// ---------------------------------------------------------------------
// Calls and struct literals.
// ---------------------------------------------------------------------

/// The declared type of a callee's parameter at `index`, when the callee
/// is a function pointer type with such a parameter.
pub open spec fn expected_input(callee: TyModel, index: int) -> Option<TyModel> {
    match callee {
        TyModel::FnPtr(inputs, _) => if 0 <= index < inputs.len() {
            Some(inputs[index])
        } else {
            None
        },
        _ => None,
    }
}

/// The declared type of a callee's parameter at `index`; see
/// `expected_input`. It is also the expected type an argument at that
/// position is checked under.
pub fn expected_input_ty(callee: &Ty, index: usize) -> (r: Option<Ty>)
    ensures
        match expected_input(callee.model(), index as int) {
            Some(t) => r matches Some(x) && x.model() == t,
            None => r is None,
        },
{
    match &callee.kind {
        TyKind::FnPtr(sig) => {
            proof { lemma_tys_model(sig.inputs@); }
            if index < sig.inputs.len() {
                Some(sig.inputs[index].duplicate())
            } else {
                None
            }
        },
        _ => None,
    }
}

/// The type a call argument counts as: an integer literal passed for an
/// integer-typed parameter takes the parameter's type; any other argument
/// keeps its own.
pub open spec fn call_arg_model(expected: Option<TyModel>, arg: (bool, TyModel)) -> TyModel {
    match expected {
        Some(e) => if arg.0 && is_integer(e) {
            e
        } else {
            arg.1
        },
        None => arg.1,
    }
}

/// The type a call argument counts as; see `call_arg_model`.
pub fn call_arg_ty(expected: Option<&Ty>, arg: Operand) -> (t: Ty)
    ensures
        t.model() == call_arg_model(match expected {
            Some(e) => Some(e.model()),
            None => None,
        }, arg.model()),
{
    match expected {
        Some(e) => if arg.int_literal && is_integer_ty(e) {
            e.duplicate()
        } else {
            arg.ty
        },
        None => arg.ty,
    }
}

/// The instantiation and type of a call of `callee` with arguments of the
/// types `actuals`, checked under the expected type `expected` (if any),
/// and what checking it records. The call is instantiated (see
/// `instantiate`); a callee that cannot be called with these arguments
/// makes the call an error (`None`). When the arguments bind no generic
/// parameter but the declared output still mentions one, the output is
/// further unified with the expected type. The call's type is the declared
/// output under the resulting substitution.
pub open spec fn call_model(callee: TyModel, actuals: Seq<TyModel>, expected: Option<TyModel>)
    -> (Option<(Map<ParamModel, TyModel>, TyModel)>, Seq<DiagModel>)
{
    let d = instantiate_diags(callee, actuals);
    match instantiate(callee, actuals) {
        None => (None, d + seq![DiagModel::NotCallable]),
        Some((s, _)) => {
            let out = match callee {
                TyModel::FnPtr(_, o) => *o,
                _ => TyModel::Error,
            };
            let u = match expected {
                Some(e) => if s == Map::<ParamModel, TyModel>::empty() && contains_param(out) {
                    unify(out, e, s, true)
                } else {
                    unify_done(s)
                },
                None => unify_done(s),
            };
            (Some((u.subs, subst(out, u.subs))), d + u.diags)
        },
    }
}

/// The instantiation and type of a call; see `call_model`. `None` means
/// the call is an error (and has the error type).
pub fn call_expr_ty(callee: &Ty, actuals: &[Ty], expected: Option<&Ty>, diags: &mut Vec<TypeDiagnostic>)
    -> (r: Option<(Substitutions, Ty)>)
    ensures
        r is Some <==> call_model(callee.model(), ty_list_model(actuals@), match expected {
            Some(e) => Some(e.model()),
            None => None,
        }).0 is Some,
        r matches Some((s, t)) ==> s.wf() && call_model(callee.model(), ty_list_model(actuals@), match expected {
            Some(e) => Some(e.model()),
            None => None,
        }).0 == Some((s.model(), t.model())),
        diags_model(final(diags)@) == diags_model(old(diags)@) + call_model(callee.model(), ty_list_model(actuals@), match expected {
            Some(e) => Some(e.model()),
            None => None,
        }).1,
{
    let ghost d0 = diags_model(diags@);
    let ghost am = ty_list_model(actuals@);
    let instantiated = instantiate_call(callee, actuals, diags);
    let ghost d1 = diags_model(diags@);
    assert(am == ty_list_model(actuals@));
    let (mut subs, _) = match instantiated {
        None => {
            record(diags, TypeDiagnostic::NotCallable);
            assert(diags_model(diags@) =~= d0 + (instantiate_diags(callee.model(), am) + seq![DiagModel::NotCallable]));
            return None;
        },
        Some(p) => p,
    };
    let sig = match &callee.kind {
        TyKind::FnPtr(sig) => sig,
        _ => {
            proof { assert(false); }
            return None;
        },
    };
    let ghost s0 = subs.model();
    let ghost out = sig.output.model();
    let ghost em = match expected {
        Some(e) => Some(e.model()),
        None => None,
    };
    let mut refined = false;
    if subs.is_empty() {
        if let Some(e) = expected {
            if ty_contains_param(&sig.output) {
                unify_call_types(&sig.output, e, &mut subs, diags);
                refined = true;
            }
        }
    }
    proof {
        let u = match em {
            Some(e) => if s0 == Map::<ParamModel, TyModel>::empty() && contains_param(out) {
                unify(out, e, s0, true)
            } else {
                unify_done(s0)
            },
            None => unify_done(s0),
        };
        if !refined {
            assert(u == unify_done(s0));
            lemma_nothing_recorded(d1);
        }
        assert(subs.model() == u.subs);
        assert(diags_model(diags@) =~= d0 + (instantiate_diags(callee.model(), am) + u.diags));
    }
    let output = substitute_param_map(&sig.output, &subs);
    Some((subs, output))
}

/// The declared type of a struct literal's field and the type of the value
/// given for it.
#[derive(Debug)]
pub struct FieldTys {
    pub declared: Ty,
    pub value: Ty,
}

pub open spec fn declared_of(v: Seq<FieldTys>) -> Seq<TyModel> {
    v.map_values(|f: FieldTys| f.declared.model())
}

pub open spec fn values_of(v: Seq<FieldTys>) -> Seq<TyModel> {
    v.map_values(|f: FieldTys| f.value.model())
}

/// The type of a struct literal of the type `ty` with the fields `fields`
/// (declared and given types, in order), and what checking it records:
/// each field's declared type is unified with its value's type, in order
/// and under one substitution (recording mismatches), and the literal has
/// `ty` under that substitution.
pub open spec fn struct_literal_model(ty: TyModel, declared: Seq<TyModel>, values: Seq<TyModel>) -> (TyModel, Seq<DiagModel>) {
    let u = unify_seq(declared, values, Map::empty(), true);
    (subst(ty, u.subs), u.diags)
}

/// The type of a struct literal; see `struct_literal_model`.
pub fn struct_literal_ty(ty: &Ty, fields: &[FieldTys], diags: &mut Vec<TypeDiagnostic>) -> (t: Ty)
    ensures
        t.model() == struct_literal_model(ty.model(), declared_of(fields@), values_of(fields@)).0,
        diags_model(final(diags)@) == diags_model(old(diags)@)
            + struct_literal_model(ty.model(), declared_of(fields@), values_of(fields@)).1,
{
    let ghost dm = declared_of(fields@);
    let ghost vm = values_of(fields@);
    let ghost s0 = Map::<ParamModel, TyModel>::empty();
    let ghost d0 = diags_model(diags@);
    let mut subs = Substitutions::new();
    proof {
        assert(dm.subrange(0, 0) =~= Seq::<TyModel>::empty());
        assert(vm.subrange(0, 0) =~= Seq::<TyModel>::empty());
        lemma_nothing_recorded(d0);
    }
    let mut i: usize = 0;
    while i < fields.len()
        invariant
            i <= fields@.len(),
            dm == declared_of(fields@),
            vm == values_of(fields@),
            dm.len() == fields@.len(),
            vm.len() == fields@.len(),
            s0 == Map::<ParamModel, TyModel>::empty(),
            d0 == diags_model(old(diags)@),
            subs.wf(),
            subs.model() == unify_seq(dm.subrange(0, i as int), vm.subrange(0, i as int), s0, true).subs,
            diags_model(diags@) == d0 + unify_seq(dm.subrange(0, i as int), vm.subrange(0, i as int), s0, true).diags,
        decreases fields@.len() - i,
    {
        let ghost prev = unify_seq(dm.subrange(0, i as int), vm.subrange(0, i as int), s0, true);
        proof {
            lemma_unify_seq_laws(dm.subrange(0, i as int), vm.subrange(0, i as int), s0, true);
            assert(dm.subrange(0, i + 1).subrange(0, i as int) =~= dm.subrange(0, i as int));
            assert(vm.subrange(0, i + 1).subrange(0, i as int) =~= vm.subrange(0, i as int));
            assert(dm.subrange(0, i + 1)[i as int] == fields@[i as int].declared.model());
            assert(vm.subrange(0, i + 1)[i as int] == fields@[i as int].value.model());
        }
        unify_call_types(&fields[i].declared, &fields[i].value, &mut subs, diags);
        proof {
            let next = unify(dm[i as int], vm[i as int], prev.subs, true);
            assert(unify_seq(dm.subrange(0, i + 1), vm.subrange(0, i + 1), s0, true) == unify_then(prev, next));
            assert(diags_model(diags@) =~= d0 + (prev.diags + next.diags));
        }
        i += 1;
    }
    proof {
        assert(dm.subrange(0, fields@.len() as int) =~= dm);
        assert(vm.subrange(0, fields@.len() as int) =~= vm);
    }
    substitute_param_map(ty, &subs)
}

// ---------------------------------------------------------------------
// Closures.
// ---------------------------------------------------------------------

/// A closure parameter: the identity of its HIR node and its checked type
/// annotation, if it has one.
#[derive(Debug)]
pub struct ClosureParam {
    pub id: u32,
    pub declared: Option<Ty>,
}

/// The type of a closure's parameter at `index`: its annotation when it
/// has one; else the parameter type at that position of the expected type,
/// when that is a function pointer type with such a parameter; else a
/// fresh inference variable named by the parameter's node.
pub open spec fn closure_param_model(id: u32, declared: Option<TyModel>, index: int, hint: Option<TyModel>) -> TyModel {
    match declared {
        Some(t) => t,
        None => match hint {
            Some(h) => match expected_input(h, index) {
                Some(t) => t,
                None => TyModel::Infer(id),
            },
            None => TyModel::Infer(id),
        },
    }
}

/// The type of a closure's parameter; see `closure_param_model`.
pub fn closure_param_ty(param: &ClosureParam, index: usize, hint: Option<&Ty>) -> (t: Ty)
    ensures
        t.model() == closure_param_model(param.id, match param.declared {
            Some(d) => Some(d.model()),
            None => None,
        }, index as int, match hint {
            Some(h) => Some(h.model()),
            None => None,
        }),
{
    match &param.declared {
        Some(d) => d.duplicate(),
        None => {
            let from_hint = match hint {
                Some(h) => expected_input_ty(h, index),
                None => None,
            };
            match from_hint {
                Some(t) => t,
                None => Ty { kind: TyKind::Infer(param.id) },
            }
        },
    }
}

/// The type of a closure with parameters of the types `params` whose body
/// has the type `body`: a function pointer type.
pub fn closure_ty(params: &[Ty], body: Ty) -> (t: Ty)
    ensures
        t.model() == TyModel::FnPtr(ty_list_model(params@), Box::new(body.model())),
{
    let mut inputs: Vec<Box<Ty>> = Vec::new();
    let mut i: usize = 0;
    while i < params.len()
        invariant
            i <= params@.len(),
            inputs@.len() == i,
            forall|j: int| 0 <= j < i ==> (#[trigger] inputs@[j]).model() == params@[j].model(),
        decreases params@.len() - i,
    {
        inputs.push(Box::new(params[i].duplicate()));
        i += 1;
    }
    proof {
        lemma_tys_model(inputs@);
        assert(tys_model(inputs@) =~= ty_list_model(params@));
    }
    Ty { kind: TyKind::FnPtr(FnSig { inputs, output: Box::new(body) }) }
}

// ---------------------------------------------------------------------
// Local bindings.
// ---------------------------------------------------------------------

/// The form of a local binding's initializer, as far as typing it reads.
#[derive(Debug, Clone, Copy, PartialEq, Eq, Structural)]
pub enum InitForm {
    IntegerLiteral,
    /// An array literal or an array repeat expression.
    ArrayLiteral,
    Other,
}

/// A local binding's annotation against its initializer did not match:
/// the annotated type and the type found for the initializer.
#[derive(Debug)]
pub struct LocalMismatch {
    pub expected: Ty,
    pub found: Ty,
}

/// The annotation of a local binding with an array-literal initializer:
/// an array annotation whose length is left to inference takes the
/// literal's length, when that is known.
pub open spec fn annotation_with_literal_len(annotation: TyModel, init: TyModel, form: InitForm) -> TyModel {
    match annotation {
        TyModel::Array(elem, ConstModel::Infer) => if form == InitForm::ArrayLiteral {
            match init {
                TyModel::Array(_, len) => match const_to_u64(len) {
                    Some(n) => TyModel::Array(elem, length_model(n)),
                    None => annotation,
                },
                _ => annotation,
            }
        } else {
            annotation
        },
        _ => annotation,
    }
}

/// Whether two array types' lengths do not contradict each other: they
/// differ only when both are known and different.
pub open spec fn lengths_agree(a: TyModel, b: TyModel) -> bool {
    match (a, b) {
        (TyModel::Array(_, la), TyModel::Array(_, lb)) => match (const_to_u64(la), const_to_u64(lb)) {
            (Some(x), Some(y)) => x == y,
            _ => true,
        },
        _ => true,
    }
}

/// The declared type and the type of the initializer of a local binding
/// with an annotation and an initializer, and what checking them records.
/// The annotation first takes an array literal's length (see
/// `annotation_with_literal_len`). An integer literal for an integer
/// annotation, and an array literal for an array annotation whose length
/// it does not contradict, count as of the annotated type; an array
/// literal whose length it contradicts keeps its own type; any other
/// initializer's type is unified with the annotation (recording
/// mismatches) and taken under the resulting substitution.
pub open spec fn annotated_local_model(annotation: TyModel, init: TyModel, form: InitForm) -> (TyModel, TyModel, Seq<DiagModel>) {
    let ty = annotation_with_literal_len(annotation, init, form);
    if form == InitForm::IntegerLiteral && is_integer(ty) {
        (ty, ty, Seq::empty())
    } else if form == InitForm::ArrayLiteral && ty is Array {
        (ty, if lengths_agree(ty, init) { ty } else { init }, Seq::empty())
    } else {
        let u = unify(init, ty, Map::empty(), true);
        (ty, subst(init, u.subs), u.diags)
    }
}

/// The type a local binding gives its pattern, and what checking it
/// records. With an annotation and an initializer it is the initializer's
/// type (see `annotated_local_model`), which must match the annotation up
/// to its inference holes (see `matches_holes`), or checking the binding
/// fails; with only one of them it is that one's type; with neither it is
/// an error.
pub open spec fn local_model(annotation: Option<TyModel>, init: Option<(TyModel, InitForm)>)
    -> (Result<TyModel, (TyModel, TyModel)>, Seq<DiagModel>)
{
    match (annotation, init) {
        (Some(a), Some((i, form))) => {
            let (ty, resolved, d) = annotated_local_model(a, i, form);
            (if matches_holes(ty, resolved) { Ok(resolved) } else { Err((ty, resolved)) }, d)
        },
        (Some(a), None) => (Ok(a), Seq::empty()),
        (None, Some((i, _))) => (Ok(i), Seq::empty()),
        (None, None) => (Ok(TyModel::Error), seq![DiagModel::LocalUntyped]),
    }
}

/// The checked initializer of a local binding: its type and its form.
#[derive(Debug)]
pub struct LocalInit {
    pub ty: Ty,
    pub form: InitForm,
}

/// The type a local binding gives its pattern; see `local_model`.
pub fn local_binding_ty(annotation: Option<Ty>, init: Option<LocalInit>, diags: &mut Vec<TypeDiagnostic>)
    -> (r: Result<Ty, LocalMismatch>)
    ensures
        ({
            let m = local_model(match annotation {
                Some(a) => Some(a.model()),
                None => None,
            }, match init {
                Some(i) => Some((i.ty.model(), i.form)),
                None => None,
            });
            &&& m.0 is Ok <==> r is Ok
            &&& r matches Ok(t) ==> m.0 == Ok::<TyModel, (TyModel, TyModel)>(t.model())
            &&& r matches Err(e) ==> m.0 == Err::<TyModel, (TyModel, TyModel)>((e.expected.model(), e.found.model()))
            &&& diags_model(final(diags)@) == diags_model(old(diags)@) + m.1
        }),
{
    let ghost d0 = diags_model(diags@);
    proof { lemma_nothing_recorded(d0); }
    match (annotation, init) {
        (Some(a), Some(i)) => {
            let ty = match &a.kind {
                TyKind::Array(elem, ConstKind::Infer) => {
                    let literal_len = if i.form == InitForm::ArrayLiteral {
                        match &i.ty.kind {
                            TyKind::Array(_, len) => const_kind_to_u64(len),
                            _ => None,
                        }
                    } else {
                        None
                    };
                    match literal_len {
                        Some(n) => Ty { kind: TyKind::Array(Box::new(elem.duplicate()), u64_to_const_kind(n)) },
                        None => a.duplicate(),
                    }
                },
                _ => a.duplicate(),
            };
            assert(ty.model() == annotation_with_literal_len(a.model(), i.ty.model(), i.form));
            let resolved = if i.form == InitForm::IntegerLiteral && is_integer_ty(&ty) {
                ty.duplicate()
            } else if i.form == InitForm::ArrayLiteral && matches!(ty.kind, TyKind::Array(_, _)) {
                let agree = match (&ty.kind, &i.ty.kind) {
                    (TyKind::Array(_, tl), TyKind::Array(_, il)) => match (const_kind_to_u64(tl), const_kind_to_u64(il)) {
                        (Some(x), Some(y)) => x == y,
                        _ => true,
                    },
                    _ => true,
                };
                if agree {
                    ty.duplicate()
                } else {
                    i.ty.duplicate()
                }
            } else {
                let mut subs = Substitutions::new();
                unify_call_types(&i.ty, &ty, &mut subs, diags);
                substitute_param_map(&i.ty, &subs)
            };
            if ty_matches_with_infer_holes(&ty, &resolved) {
                Ok(resolved)
            } else {
                Err(LocalMismatch { expected: ty, found: resolved })
            }
        },
        (Some(a), None) => Ok(a),
        (None, Some(i)) => Ok(i.ty),
        (None, None) => {
            record(diags, TypeDiagnostic::LocalUntyped);
            Ok(Ty::error())
        },
    }
}

// ---------------------------------------------------------------------
// Laws.
// ---------------------------------------------------------------------

/// Borrowing re-borrows: borrowing a value that is already a reference
/// gives the same type as borrowing what it refers to, so references
/// never stack.
pub proof fn lemma_reborrow_does_not_stack(region: Region, t: TyModel, inner: Mutability, outer: Mutability)
    ensures
        reference_model(TyModel::Ref(region, Box::new(t), inner), outer) == reference_model(t, outer),
{
}

/// A `match` whose arms all have one type has that type and records
/// nothing.
pub proof fn lemma_uniform_match(arms: Seq<TyModel>, t: TyModel)
    requires
        arms.len() > 0,
        forall|i: int| 0 <= i < arms.len() ==> arms[i] == t,
    ensures
        match_model(arms) == (t, Seq::<DiagModel>::empty()),
    decreases arms.len(),
{
    if arms.len() > 1 {
        lemma_uniform_match(arms.drop_last(), t);
        assert(arms.last() == t);
        assert(Seq::<DiagModel>::empty() + Seq::<DiagModel>::empty() =~= Seq::<DiagModel>::empty());
    }
}

/// Calling a function whose declared output mentions no generic parameter
/// with as many arguments as it takes gives its declared output, whatever
/// the arguments and the expected type.
pub proof fn lemma_non_generic_call_output(
    inputs: Seq<TyModel>,
    output: TyModel,
    actuals: Seq<TyModel>,
    expected: Option<TyModel>,
)
    requires
        !contains_param(output),
        inputs.len() == actuals.len(),
    ensures
        call_model(TyModel::FnPtr(inputs, Box::new(output)), actuals, expected).0 matches Some((_, t)) && t == output,
{
    let callee = TyModel::FnPtr(inputs, Box::new(output));
    let u = unify_seq(inputs, actuals, Map::empty(), true);
    lemma_subst_without_params(output, u.subs);
    assert(instantiate(callee, actuals) == Some((u.subs, subst(output, u.subs))));
}

/// A local binding whose initializer has exactly its annotated type (one
/// that mentions no generic parameter) binds that type and records
/// nothing, whatever the initializer's form.
pub proof fn lemma_exact_annotation_binds_it(annotation: TyModel, form: InitForm)
    requires
        !contains_param(annotation),
    ensures
        local_model(Some(annotation), Some((annotation, form))) == (
            Ok::<TyModel, (TyModel, TyModel)>(annotation),
            Seq::<DiagModel>::empty(),
        ),
{
    assert(annotation_with_literal_len(annotation, annotation, form) == annotation);
    lemma_matches_holes_reflexive(annotation);
    lemma_unify_reflexive(annotation, Map::empty(), true);
    lemma_subst_empty(annotation);
}


/// The type of a binary expression is fixed by its operator: every
/// comparison (`==`, `!=`, `<`, `<=`, `>`, `>=`) and connective (`&&`,
/// `||`) gives `bool`, and every arithmetic or bitwise operator gives the
/// type of its left operand, whatever the operands are.
pub proof fn law_binary_result_type(op: BinOp, lhs: (bool, TyModel), rhs: (bool, TyModel))
    ensures
        (op == BinOp::Eq || op == BinOp::Ne || op == BinOp::Lt || op == BinOp::Le || op == BinOp::Gt
            || op == BinOp::Ge || op == BinOp::And || op == BinOp::Or) ==> binary_model(op, lhs, rhs).0 == TyModel::Bool,
        (op == BinOp::Add || op == BinOp::Sub || op == BinOp::Mul || op == BinOp::Div || op == BinOp::Rem
            || op == BinOp::BitXor || op == BinOp::BitAnd || op == BinOp::BitOr || op == BinOp::Shl
            || op == BinOp::Shr) ==> binary_model(op, lhs, rhs).0 == lhs.1,
{
}


/// The type of a unary expression is fixed by its operator: `!` gives
/// `bool`; `*` gives what a reference or raw pointer points to; negation
/// and boxing keep the operand's type.
pub proof fn law_unary_result_type(op: UnOp, v: TyModel)
    ensures
        op == UnOp::Not ==> unary_model(op, v).0 == TyModel::Bool,
        op == UnOp::Neg || op == UnOp::Box ==> unary_model(op, v).0 == v,
        op == UnOp::Deref ==> match v {
            TyModel::Ref(_, inner, _) => unary_model(op, v).0 == *inner,
            TyModel::RawPtr(inner, _) => unary_model(op, v).0 == *inner,
            _ => unary_model(op, v).0 == TyModel::Error,
        },
{
}

} // verus!
