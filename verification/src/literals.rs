//! The types of literals, the unit type, and array-length constants.

use vstd::prelude::*;
use crate::expr::Lit;
use crate::ty::{
    ConstKind, ConstModel, FloatTy, IntTy, Mutability, Region, ScalarInt, Ty, TyKind, TyModel, UintTy,
    tys_model,
};

verus! {

pub open spec fn unit_model() -> TyModel {
    TyModel::Tuple(Seq::empty())
}

/// The unit type `()`.
pub fn unit_ty() -> (t: Ty)
    ensures
        t.model() == unit_model(),
{
    let t = Ty { kind: TyKind::Tuple(Vec::new()) };
    assert(tys_model(Seq::<Box<Ty>>::empty()) =~= Seq::<TyModel>::empty());
    t
}

/// The resolved array length `value`.
pub open spec fn length_model(value: u64) -> ConstModel {
    ConstModel::Value(ScalarInt { data: value as u128, size: 8 })
}

/// The type of a literal. A `c"..."` literal is a shared reference to the
/// `CStr` struct, given as `cstr` when the program declares it (and of the
/// never type when it does not).
pub open spec fn literal_model(literal: Lit, cstr: Option<TyModel>) -> TyModel {
    match literal {
        Lit::Bool(_) => TyModel::Bool,
        Lit::Char(_) => TyModel::Char,
        Lit::Integer(_) => TyModel::Int(IntTy::I64),
        Lit::Float => TyModel::Float(FloatTy::F64),
        Lit::Str(_) => TyModel::Str,
        Lit::Null => TyModel::Never,
        Lit::Bytes(bytes) => TyModel::Ref(
            Region::ReErased,
            Box::new(TyModel::Array(
                Box::new(TyModel::Uint(UintTy::U8)),
                ConstModel::Value(ScalarInt { data: bytes@.len() as u128, size: 8 }),
            )),
            Mutability::Not,
        ),
        Lit::CStr(_) => match cstr {
            Some(t) => TyModel::Ref(Region::ReErased, Box::new(t), Mutability::Not),
            None => TyModel::Never,
        },
    }
}

pub fn literal_ty(literal: &Lit, cstr: Option<&Ty>) -> (t: Ty)
    ensures
        t.model() == literal_model(*literal, match cstr {
            Some(c) => Some(c.model()),
            None => None,
        }),
{
    match literal {
        Lit::Bool(_) => Ty::bool(),
        Lit::Char(_) => Ty::char(),
        Lit::Integer(_) => Ty::integer(IntTy::I64),
        Lit::Float => Ty::float(FloatTy::F64),
        Lit::Str(_) => Ty { kind: TyKind::Str },
        Lit::Null => Ty::never(),
        Lit::Bytes(bytes) => {
            let byte = Ty::uint(UintTy::U8);
            assert(byte.model() == TyModel::Uint(UintTy::U8));
            let array = Ty {
                kind: TyKind::Array(
                    Box::new(byte),
                    ConstKind::Value(ScalarInt { data: bytes.len() as u128, size: 8 }),
                ),
            };
            assert(array.model() == TyModel::Array(
                Box::new(TyModel::Uint(UintTy::U8)),
                ConstModel::Value(ScalarInt { data: bytes@.len() as u128, size: 8 }),
            ));
            Ty { kind: TyKind::Ref(Region::ReErased, Box::new(array), Mutability::Not) }
        },
        Lit::CStr(_) => match cstr {
            Some(c) => Ty { kind: TyKind::Ref(Region::ReErased, Box::new(c.duplicate()), Mutability::Not) },
            None => Ty::never(),
        },
    }
}

/// The count a resolved array length holds, or `None` for a length that
/// is not a resolved value (`Infer`, `Param`, ...).
pub open spec fn const_to_u64(kind: ConstModel) -> Option<u64> {
    match kind {
        ConstModel::Value(scalar) => Some(scalar.data as u64),
        _ => None,
    }
}

pub fn const_kind_to_u64(kind: &ConstKind) -> (r: Option<u64>)
    ensures
        r == const_to_u64(kind.model()),
{
    match kind {
        ConstKind::Value(scalar) => Some(scalar.data as u64),
        _ => None,
    }
}

/// The resolved array length `value`; `const_kind_to_u64` reads it back.
pub fn u64_to_const_kind(value: u64) -> (r: ConstKind)
    ensures
        r.model() == length_model(value),
{
    ConstKind::Value(ScalarInt { data: value as u128, size: 8 })
}

/// Reading back a length built from a count gives the count.
pub proof fn lemma_length_roundtrip(value: u64)
    ensures
        const_to_u64(length_model(value)) == Some(value),
{
    assert((value as u128) as u64 == value) by (bit_vector);
}

} // verus!
