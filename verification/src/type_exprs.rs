//! Checking type expressions as written in the HIR into checked types.
//!
//! A path in a type expression is resolved by the caller against the
//! program (that lookup is not part of this module): the expression holds
//! the type the path resolved to. Likewise a `const { .. }` block in type
//! position holds the checked type of its body, and a refinement's
//! predicate stays with the caller, who finds it again by the refinement
//! node's identity.

use vstd::prelude::*;
use crate::ast::TypePrimitive;
use crate::ty::{
    ConstKind, ConstModel, FnSig, Mutability, Region, ScalarInt, Ty, TyKind, TyModel, TypeAndMut,
    tys_model,
};
use crate::type_shapes::{primitive_model, primitive_ty};

verus! {

/// A type expression node, with the identity of its HIR node.
#[derive(Debug)]
pub struct TypeExpr {
    pub id: u32,
    pub kind: TypeExprKind,
}

#[derive(Debug)]
pub enum TypeExprKind {
    Primitive(TypePrimitive),
    /// A path, with the type it resolved to.
    Path(Ty),
    Tuple(Vec<TypeExpr>),
    Slice(Box<TypeExpr>),
    Ptr(Box<TypeExpr>),
    Ref(Box<TypeExpr>),
    FnPtr(Vec<TypeExpr>, Box<TypeExpr>),
    Never,
    /// An array, with its length when the length is written as an integer
    /// literal.
    Array(Box<TypeExpr>, Option<i64>),
    Infer,
    /// A `const { .. }` block, with the checked type of its body.
    ConstBlock(Ty),
    Error,
    StructuralType,
    /// A type operator applied to two type expressions.
    TypeBinaryOp(TypeOperator, Box<TypeExpr>, Box<TypeExpr>),
    /// A string literal in type position.
    LiteralString(String),
    Type,
    Any,
    /// A refinement of the base type, binding the name `binder`.
    Refinement(Box<TypeExpr>, String),
}

/// A type operator.
#[derive(Debug, Clone, Copy, PartialEq, Eq, Structural)]
pub enum TypeOperator {
    Union,
    /// Any other operator.
    Other,
}

/// Whether a type expression is a string literal type, or a union whose
/// operands all are (nested unions included).
pub open spec fn literal_string_union(e: TypeExpr) -> bool
    decreases e,
{
    match e.kind {
        TypeExprKind::LiteralString(_) => true,
        TypeExprKind::TypeBinaryOp(op, lhs, rhs) => op == TypeOperator::Union && literal_string_union(*lhs)
            && literal_string_union(*rhs),
        _ => false,
    }
}

fn is_literal_string_union(e: &TypeExpr) -> (r: bool)
    ensures
        r == literal_string_union(*e),
    decreases e,
{
    match &e.kind {
        TypeExprKind::LiteralString(_) => true,
        TypeExprKind::TypeBinaryOp(op, lhs, rhs) => *op == TypeOperator::Union && is_literal_string_union(lhs)
            && is_literal_string_union(rhs),
        _ => false,
    }
}

/// Why a type expression has the error type.
#[derive(Debug, Clone, Copy, PartialEq, Eq, Structural)]
pub enum TypeExprError {
    Invalid,
    StructuralUnsupported,
    TypeOperatorUnsupported,
}

/// What checking a type expression records, in order.
#[derive(Debug)]
pub enum TypeExprRecord {
    /// The node with this identity has this checked type.
    Checked(u32, Ty),
    /// The refinement node with this identity binds `binder` over this
    /// base type.
    Refinement(u32, String, Ty),
    /// The node with this identity is invalid for this reason.
    Invalid(u32, TypeExprError),
}

pub enum RecordModel {
    Checked(u32, TyModel),
    Refinement(u32, Seq<char>, TyModel),
    Invalid(u32, TypeExprError),
}

impl TypeExprRecord {
    pub open spec fn model(&self) -> RecordModel {
        match self {
            TypeExprRecord::Checked(id, t) => RecordModel::Checked(*id, t.model()),
            TypeExprRecord::Refinement(id, b, t) => RecordModel::Refinement(*id, b@, t.model()),
            TypeExprRecord::Invalid(id, e) => RecordModel::Invalid(*id, *e),
        }
    }
}

pub open spec fn records_model(v: Seq<TypeExprRecord>) -> Seq<RecordModel> {
    v.map_values(|r: TypeExprRecord| r.model())
}

/// The length constant of an array type expression: a non-negative
/// literal as a value, anything else to be inferred.
pub open spec fn array_len_model(len: Option<i64>) -> ConstModel {
    match len {
        Some(v) => if v >= 0 {
            ConstModel::Value(ScalarInt { data: v as u128, size: 8 })
        } else {
            ConstModel::Infer
        },
        None => ConstModel::Infer,
    }
}

/// The length constant of an array whose length is written as `len`; see
/// `array_len_model`.
pub fn array_length(len: Option<i64>) -> (c: ConstKind)
    ensures
        c.model() == array_len_model(len),
{
    match len {
        Some(v) => if v >= 0 {
            ConstKind::Value(ScalarInt { data: v as u128, size: 8 })
        } else {
            ConstKind::Infer
        },
        None => ConstKind::Infer,
    }
}

/// The checked type of a type expression and what checking it records:
/// the records of its parts (in order), any refinement or error, and
/// finally the node's own type. Primitives, tuples, slices, shared raw
/// pointers and references (erased), function pointers, arrays, `!`, `_`
/// (a fresh inference variable named by the node), `type` and `any` map to
/// their checked forms; a path or a `const` block has the type it holds; a
/// refinement has its base type; a string literal type, and a union of
/// such types, is `str` (its operands are not checked on their own); the
/// other forms, other type operators among them, are errors.
pub open spec fn check_te(e: TypeExpr) -> (TyModel, Seq<RecordModel>)
    decreases e,
{
    let (t, recs) = match e.kind {
        TypeExprKind::Primitive(p) => (primitive_model(p), Seq::empty()),
        TypeExprKind::Path(t) => (t.model(), Seq::empty()),
        TypeExprKind::Tuple(items) => {
            let (ts, rs) = check_te_list(items@);
            (TyModel::Tuple(ts), rs)
        },
        TypeExprKind::Slice(item) => {
            let (t, rs) = check_te(*item);
            (TyModel::Slice(Box::new(t)), rs)
        },
        TypeExprKind::Ptr(item) => {
            let (t, rs) = check_te(*item);
            (TyModel::RawPtr(Box::new(t), Mutability::Not), rs)
        },
        TypeExprKind::Ref(item) => {
            let (t, rs) = check_te(*item);
            (TyModel::Ref(Region::ReErased, Box::new(t), Mutability::Not), rs)
        },
        TypeExprKind::FnPtr(inputs, output) => {
            let (ts, rs) = check_te_list(inputs@);
            let (o, ro) = check_te(*output);
            (TyModel::FnPtr(ts, Box::new(o)), rs + ro)
        },
        TypeExprKind::Never => (TyModel::Never, Seq::empty()),
        TypeExprKind::Array(item, len) => {
            let (t, rs) = check_te(*item);
            (TyModel::Array(Box::new(t), array_len_model(len)), rs)
        },
        TypeExprKind::Infer => (TyModel::Infer(e.id), Seq::empty()),
        TypeExprKind::ConstBlock(t) => (t.model(), Seq::empty()),
        TypeExprKind::Error => (TyModel::Error, seq![RecordModel::Invalid(e.id, TypeExprError::Invalid)]),
        TypeExprKind::StructuralType => (
            TyModel::Error,
            seq![RecordModel::Invalid(e.id, TypeExprError::StructuralUnsupported)],
        ),
        TypeExprKind::TypeBinaryOp(_, _, _) => if literal_string_union(e) {
            (TyModel::Str, Seq::empty())
        } else {
            (TyModel::Error, seq![RecordModel::Invalid(e.id, TypeExprError::TypeOperatorUnsupported)])
        },
        TypeExprKind::LiteralString(_) => (TyModel::Str, Seq::empty()),
        TypeExprKind::Type => (TyModel::Type, Seq::empty()),
        TypeExprKind::Any => (TyModel::Any, Seq::empty()),
        TypeExprKind::Refinement(base, binder) => {
            let (t, rs) = check_te(*base);
            (t, rs.push(RecordModel::Refinement(e.id, binder@, t)))
        },
    };
    (t, recs.push(RecordModel::Checked(e.id, t)))
}

pub open spec fn check_te_list(es: Seq<TypeExpr>) -> (Seq<TyModel>, Seq<RecordModel>)
    decreases es,
{
    if es.len() == 0 {
        (Seq::empty(), Seq::empty())
    } else {
        let (ts, rs) = check_te_list(es.drop_last());
        let (t, r) = check_te(es[es.len() - 1]);
        (ts.push(t), rs + r)
    }
}

proof fn lemma_records_push(old: Seq<TypeExprRecord>, r: TypeExprRecord)
    ensures
        records_model(old.push(r)) == records_model(old).push(r.model()),
{
    assert(records_model(old.push(r)) =~= records_model(old).push(r.model()));
}

fn record(records: &mut Vec<TypeExprRecord>, r: TypeExprRecord)
    ensures
        records_model(final(records)@) == records_model(old(records)@).push(r.model()),
{
    proof { lemma_records_push(records@, r); }
    records.push(r);
}

fn check_type_expr_list(items: &Vec<TypeExpr>, records: &mut Vec<TypeExprRecord>) -> (r: Vec<Box<Ty>>)
    ensures
        tys_model(r@) == check_te_list(items@).0,
        records_model(final(records)@) == records_model(old(records)@) + check_te_list(items@).1,
    decreases items,
{
    let ghost r0 = records_model(records@);
    let mut out: Vec<Box<Ty>> = Vec::new();
    let mut i: usize = 0;
    assert(items@.take(0) =~= Seq::<TypeExpr>::empty());
    assert(r0 + Seq::<RecordModel>::empty() =~= r0);
    while i < items.len()
        invariant
            i <= items@.len(),
            r0 == records_model(old(records)@),
            tys_model(out@) == check_te_list(items@.take(i as int)).0,
            records_model(records@) == r0 + check_te_list(items@.take(i as int)).1,
        decreases items@.len() - i,
    {
        assert(decreases_to!(items => items@[i as int]));
        let ghost before = records_model(records@);
        let t = check_type_expr(&items[i], records);
        let ghost old_out = out@;
        out.push(Box::new(t));
        proof {
            assert(out@.drop_last() == old_out);
            assert(items@.take(i + 1).drop_last() =~= items@.take(i as int));
            assert(items@.take(i + 1)[i as int] == items@[i as int]);
            let prev = check_te_list(items@.take(i as int));
            let cur = check_te(items@[i as int]);
            assert(records_model(records@) =~= r0 + (prev.1 + cur.1));
        }
        i += 1;
    }
    assert(items@.take(items@.len() as int) =~= items@);
    out
}

/// The checked type of a type expression, recording (in order) the
/// checked type of every node, each refinement, and each invalid node;
/// see `check_te`.
pub fn check_type_expr(expr: &TypeExpr, records: &mut Vec<TypeExprRecord>) -> (t: Ty)
    ensures
        t.model() == check_te(*expr).0,
        records_model(final(records)@) == records_model(old(records)@) + check_te(*expr).1,
    decreases expr,
{
    let ghost r0 = records_model(records@);
    let ty = match &expr.kind {
        TypeExprKind::Primitive(p) => primitive_ty(*p),
        TypeExprKind::Path(t) => t.duplicate(),
        TypeExprKind::Tuple(items) => {
            let checked = check_type_expr_list(items, records);
            Ty { kind: TyKind::Tuple(checked) }
        },
        TypeExprKind::Slice(item) => Ty { kind: TyKind::Slice(Box::new(check_type_expr(item, records))) },
        TypeExprKind::Ptr(item) => Ty {
            kind: TyKind::RawPtr(TypeAndMut { ty: Box::new(check_type_expr(item, records)), mutbl: Mutability::Not }),
        },
        TypeExprKind::Ref(item) => Ty {
            kind: TyKind::Ref(Region::ReErased, Box::new(check_type_expr(item, records)), Mutability::Not),
        },
        TypeExprKind::FnPtr(inputs, output) => {
            let ins = check_type_expr_list(inputs, records);
            let out = check_type_expr(output, records);
            Ty { kind: TyKind::FnPtr(FnSig { inputs: ins, output: Box::new(out) }) }
        },
        TypeExprKind::Never => Ty::never(),
        TypeExprKind::Array(item, len) => {
            let inner = check_type_expr(item, records);
            Ty { kind: TyKind::Array(Box::new(inner), array_length(*len)) }
        },
        TypeExprKind::Infer => Ty { kind: TyKind::Infer(expr.id) },
        TypeExprKind::ConstBlock(t) => t.duplicate(),
        TypeExprKind::Error => {
            record(records, TypeExprRecord::Invalid(expr.id, TypeExprError::Invalid));
            Ty::error()
        },
        TypeExprKind::StructuralType => {
            record(records, TypeExprRecord::Invalid(expr.id, TypeExprError::StructuralUnsupported));
            Ty::error()
        },
        TypeExprKind::TypeBinaryOp(_, _, _) => {
            if is_literal_string_union(expr) {
                Ty { kind: TyKind::Str }
            } else {
                record(records, TypeExprRecord::Invalid(expr.id, TypeExprError::TypeOperatorUnsupported));
                Ty::error()
            }
        },
        TypeExprKind::LiteralString(_) => Ty { kind: TyKind::Str },
        TypeExprKind::Type => Ty { kind: TyKind::Type },
        TypeExprKind::Any => Ty { kind: TyKind::Any },
        TypeExprKind::Refinement(base, binder) => {
            let base_ty = check_type_expr(base, records);
            record(records, TypeExprRecord::Refinement(expr.id, binder.clone(), base_ty.duplicate()));
            base_ty
        },
    };
    proof {
        let c = check_te(*expr);
        assert(ty.model() == c.0);
        assert(records_model(records@) =~= r0 + (c.1.drop_last()));
    }
    let checked = ty.duplicate();
    record(records, TypeExprRecord::Checked(expr.id, checked));
    proof {
        let c = check_te(*expr);
        assert(records_model(records@) =~= r0 + c.1);
    }
    ty
}

} // verus!
