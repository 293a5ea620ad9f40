//! Structural queries on checked types and the primitive types that names
//! and AST primitives stand for.

use vstd::prelude::*;
use crate::ast::{AstTy, DecimalType, TypeInt, TypePrimitive};
use crate::ty::{
    ArgModel, FloatTy, GenericArg, IntTy, Mutability, Region, Ty, TyKind, TyModel, UintTy, arg_model,
    lemma_args_model, lemma_tys_model, str_equals, tys_model, args_model,
};

verus! {

// ---------------------------------------------------------------------
// Whether a type mentions a generic parameter / an error.
// ---------------------------------------------------------------------

pub open spec fn contains_param(t: TyModel) -> bool
    decreases t,
{
    match t {
        TyModel::Param(_) => true,
        TyModel::Ref(_, inner, _) => contains_param(*inner),
        TyModel::RawPtr(inner, _) => contains_param(*inner),
        TyModel::Slice(inner) => contains_param(*inner),
        TyModel::Array(inner, _) => contains_param(*inner),
        TyModel::Tuple(s) => any_contains_param(s),
        TyModel::Adt(_, args) => any_arg_contains_param(args),
        TyModel::FnPtr(ins, out) => any_contains_param(ins) || contains_param(*out),
        _ => false,
    }
}

pub open spec fn any_contains_param(s: Seq<TyModel>) -> bool
    decreases s,
{
    if s.len() == 0 {
        false
    } else {
        any_contains_param(s.drop_last()) || contains_param(s[s.len() - 1])
    }
}

pub open spec fn any_arg_contains_param(s: Seq<ArgModel>) -> bool
    decreases s,
{
    if s.len() == 0 {
        false
    } else {
        any_arg_contains_param(s.drop_last()) || match s[s.len() - 1] {
            ArgModel::Type(t) => contains_param(t),
            _ => false,
        }
    }
}

pub open spec fn contains_error(t: TyModel) -> bool
    decreases t,
{
    match t {
        TyModel::Error => true,
        TyModel::Ref(_, inner, _) => contains_error(*inner),
        TyModel::RawPtr(inner, _) => contains_error(*inner),
        TyModel::Slice(inner) => contains_error(*inner),
        TyModel::Array(inner, _) => contains_error(*inner),
        TyModel::Tuple(s) => any_contains_error(s),
        TyModel::Adt(_, args) => any_arg_contains_error(args),
        TyModel::FnPtr(ins, out) => any_contains_error(ins) || contains_error(*out),
        _ => false,
    }
}

pub open spec fn any_contains_error(s: Seq<TyModel>) -> bool
    decreases s,
{
    if s.len() == 0 {
        false
    } else {
        any_contains_error(s.drop_last()) || contains_error(s[s.len() - 1])
    }
}

pub open spec fn any_arg_contains_error(s: Seq<ArgModel>) -> bool
    decreases s,
{
    if s.len() == 0 {
        false
    } else {
        any_arg_contains_error(s.drop_last()) || match s[s.len() - 1] {
            ArgModel::Type(t) => contains_error(t),
            _ => false,
        }
    }
}

proof fn lemma_any_contains(s: Seq<TyModel>)
    ensures
        any_contains_param(s) <==> exists|i: int| 0 <= i < s.len() && contains_param(#[trigger] s[i]),
        any_contains_error(s) <==> exists|i: int| 0 <= i < s.len() && contains_error(#[trigger] s[i]),
    decreases s.len(),
{
    if s.len() > 0 {
        lemma_any_contains(s.drop_last());
        assert forall|i: int| 0 <= i < s.len() - 1 implies #[trigger] s.drop_last()[i] == s[i] by {}
        if exists|i: int| 0 <= i < s.len() && contains_param(#[trigger] s[i]) {
            let i = choose|i: int| 0 <= i < s.len() && contains_param(#[trigger] s[i]);
            if i < s.len() - 1 {
                assert(contains_param(s.drop_last()[i]));
            }
        }
        if exists|i: int| 0 <= i < s.len() && contains_error(#[trigger] s[i]) {
            let i = choose|i: int| 0 <= i < s.len() && contains_error(#[trigger] s[i]);
            if i < s.len() - 1 {
                assert(contains_error(s.drop_last()[i]));
            }
        }
    }
}

proof fn lemma_any_arg_contains(s: Seq<ArgModel>)
    ensures
        any_arg_contains_param(s) <==> exists|i: int| 0 <= i < s.len() && arg_has_param(#[trigger] s[i]),
        any_arg_contains_error(s) <==> exists|i: int| 0 <= i < s.len() && arg_has_error(#[trigger] s[i]),
    decreases s.len(),
{
    if s.len() > 0 {
        lemma_any_arg_contains(s.drop_last());
        assert forall|i: int| 0 <= i < s.len() - 1 implies #[trigger] s.drop_last()[i] == s[i] by {}
        if exists|i: int| 0 <= i < s.len() && arg_has_param(#[trigger] s[i]) {
            let i = choose|i: int| 0 <= i < s.len() && arg_has_param(#[trigger] s[i]);
            if i < s.len() - 1 {
                assert(arg_has_param(s.drop_last()[i]));
            }
        }
        if exists|i: int| 0 <= i < s.len() && arg_has_error(#[trigger] s[i]) {
            let i = choose|i: int| 0 <= i < s.len() && arg_has_error(#[trigger] s[i]);
            if i < s.len() - 1 {
                assert(arg_has_error(s.drop_last()[i]));
            }
        }
    }
}

pub open spec fn arg_has_param(a: ArgModel) -> bool {
    match a {
        ArgModel::Type(t) => contains_param(t),
        _ => false,
    }
}

pub open spec fn arg_has_error(a: ArgModel) -> bool {
    match a {
        ArgModel::Type(t) => contains_error(t),
        _ => false,
    }
}

/// Whether `ty` still has an uninstantiated generic parameter anywhere in
/// its structure; only a still-generic call result is worth reconciling
/// against an ambient expected type.
pub fn ty_contains_param(ty: &Ty) -> (r: bool)
    ensures
        r == contains_param(ty.model()),
    decreases ty,
{
    match &ty.kind {
        TyKind::Param(_) => true,
        TyKind::Ref(_, inner, _) => ty_contains_param(inner),
        TyKind::RawPtr(value) => ty_contains_param(&value.ty),
        TyKind::Slice(inner) => ty_contains_param(inner),
        TyKind::Array(inner, _) => ty_contains_param(inner),
        TyKind::Tuple(tys) => tys_contain(tys, false),
        TyKind::Adt(_, args) => args_contain(args, false),
        TyKind::FnPtr(sig) => tys_contain(&sig.inputs, false) || ty_contains_param(&sig.output),
        _ => false,
    }
}

/// Whether `ty` contains an error type anywhere; such a type is no use for
/// method lookup.
pub fn ty_contains_error(ty: &Ty) -> (r: bool)
    ensures
        r == contains_error(ty.model()),
    decreases ty,
{
    match &ty.kind {
        TyKind::Error => true,
        TyKind::Ref(_, inner, _) => ty_contains_error(inner),
        TyKind::RawPtr(value) => ty_contains_error(&value.ty),
        TyKind::Slice(inner) | TyKind::Array(inner, _) => ty_contains_error(inner),
        TyKind::Tuple(tys) => tys_contain(tys, true),
        TyKind::Adt(_, args) => args_contain(args, true),
        TyKind::FnPtr(sig) => tys_contain(&sig.inputs, true) || ty_contains_error(&sig.output),
        _ => false,
    }
}

/// Whether some type of the list contains a parameter (or, with `errors`,
/// an error type).
fn tys_contain(v: &Vec<Box<Ty>>, errors: bool) -> (r: bool)
    ensures
        !errors ==> r == any_contains_param(tys_model(v@)),
        errors ==> r == any_contains_error(tys_model(v@)),
    decreases v,
{
    proof {
        lemma_tys_model(v@);
        lemma_any_contains(tys_model(v@));
    }
    let ghost s = tys_model(v@);
    let mut i: usize = 0;
    while i < v.len()
        invariant
            i <= v@.len(),
            s == tys_model(v@),
            s.len() == v@.len(),
            forall|j: int| 0 <= j < v@.len() ==> #[trigger] s[j] == v@[j].model(),
            !errors ==> forall|j: int| 0 <= j < i ==> !contains_param(#[trigger] s[j]),
            errors ==> forall|j: int| 0 <= j < i ==> !contains_error(#[trigger] s[j]),
        decreases v@.len() - i,
    {
        assert(decreases_to!(v => v@[i as int]));
        let hit = if errors { ty_contains_error(&v[i]) } else { ty_contains_param(&v[i]) };
        if hit {
            assert(s[i as int] == v@[i as int].model());
            proof { lemma_any_contains(s); }
            return true;
        }
        i += 1;
    }
    false
}

fn args_contain(v: &Vec<GenericArg>, errors: bool) -> (r: bool)
    ensures
        !errors ==> r == any_arg_contains_param(args_model(v@)),
        errors ==> r == any_arg_contains_error(args_model(v@)),
    decreases v,
{
    proof {
        lemma_args_model(v@);
        lemma_any_arg_contains(args_model(v@));
    }
    let ghost s = args_model(v@);
    let mut i: usize = 0;
    while i < v.len()
        invariant
            i <= v@.len(),
            s == args_model(v@),
            s.len() == v@.len(),
            forall|j: int| 0 <= j < v@.len() ==> #[trigger] s[j] == arg_model(v@[j]),
            !errors ==> forall|j: int| 0 <= j < i ==> !arg_has_param(#[trigger] s[j]),
            errors ==> forall|j: int| 0 <= j < i ==> !arg_has_error(#[trigger] s[j]),
        decreases v@.len() - i,
    {
        assert(decreases_to!(v => v@[i as int]));
        let hit = match &v[i] {
            GenericArg::Type(t) => if errors { ty_contains_error(t) } else { ty_contains_param(t) },
            _ => false,
        };
        assert(s[i as int] == arg_model(v@[i as int]));
        if hit {
            proof {
                lemma_any_arg_contains(s);
                assert(if errors { arg_has_error(s[i as int]) } else { arg_has_param(s[i as int]) });
            }
            return true;
        }
        i += 1;
    }
    false
}

// ---------------------------------------------------------------------
// Method-lookup shape keys.
// ---------------------------------------------------------------------

pub open spec fn int_key(i: IntTy) -> &'static str {
    match i {
        IntTy::I8 => "i8",
        IntTy::I16 => "i16",
        IntTy::I32 => "i32",
        IntTy::I64 => "i64",
        IntTy::I128 => "i128",
        IntTy::Isize => "isize",
    }
}

pub open spec fn uint_key(u: UintTy) -> &'static str {
    match u {
        UintTy::U8 => "u8",
        UintTy::U16 => "u16",
        UintTy::U32 => "u32",
        UintTy::U64 => "u64",
        UintTy::U128 => "u128",
        UintTy::Usize => "usize",
    }
}

pub open spec fn float_key(f: FloatTy) -> &'static str {
    match f {
        FloatTy::F16 => "f16",
        FloatTy::F32 => "f32",
        FloatTy::F64 => "f64",
        FloatTy::F128 => "f128",
    }
}

/// The impl-index bucket key(s) of a checked receiver type, or `None` for a
/// receiver kind with no concrete-impl dispatch shape (closures, trait
/// objects, parameters, ...), which only blanket impls can apply to.
pub open spec fn shape_keys(t: TyModel) -> Option<Seq<&'static str>> {
    match t {
        TyModel::Bool => Some(seq!["bool"]),
        TyModel::Char => Some(seq!["char"]),
        TyModel::Int(i) => Some(seq![int_key(i)]),
        TyModel::Uint(u) => Some(seq![uint_key(u)]),
        TyModel::Float(f) => Some(seq![float_key(f)]),
        TyModel::Str => Some(seq!["str"]),
        TyModel::Slice(_) => Some(seq!["[]"]),
        TyModel::Array(_, _) => Some(seq!["[;N]"]),
        TyModel::Tuple(s) => if s.len() == 0 { Some(seq!["()"]) } else { Some(seq!["(,)"]) },
        TyModel::Ref(_, _, Mutability::Not) => Some(seq!["&"]),
        TyModel::Ref(_, _, Mutability::Mut) => Some(seq!["&mut"]),
        TyModel::RawPtr(_, Mutability::Not) => Some(seq!["*const"]),
        TyModel::RawPtr(_, Mutability::Mut) => Some(seq!["*mut"]),
        TyModel::FnPtr(_, _) => Some(seq!["fn(..)"]),
        TyModel::Never => Some(seq!["!"]),
        _ => None,
    }
}

fn one_key(k: &'static str) -> (v: Vec<&'static str>)
    ensures
        v@ == seq![k],
{
    let mut v: Vec<&'static str> = Vec::new();
    v.push(k);
    assert(v@ =~= seq![k]);
    v
}

/// The impl-index bucket keys for a receiver of kind `kind`: every impl
/// whose self type has this shape is a method candidate. `str` and `[u8]`
/// use distinct buckets.
pub fn ty_shape_keys(kind: &TyKind) -> (r: Option<Vec<&'static str>>)
    ensures
        r is Some <==> shape_keys(kind_model(kind)) is Some,
        r matches Some(v) ==> v@ == shape_keys(kind_model(kind)).unwrap(),
{
    proof { lemma_tys_model(match kind { TyKind::Tuple(e) => e@, _ => Seq::empty() }); }
    Some(match kind {
        TyKind::Bool => one_key("bool"),
        TyKind::Char => one_key("char"),
        TyKind::Int(width) => one_key(match width {
            IntTy::I8 => "i8",
            IntTy::I16 => "i16",
            IntTy::I32 => "i32",
            IntTy::I64 => "i64",
            IntTy::I128 => "i128",
            IntTy::Isize => "isize",
        }),
        TyKind::Uint(width) => one_key(match width {
            UintTy::U8 => "u8",
            UintTy::U16 => "u16",
            UintTy::U32 => "u32",
            UintTy::U64 => "u64",
            UintTy::U128 => "u128",
            UintTy::Usize => "usize",
        }),
        TyKind::Float(float) => one_key(match float {
            FloatTy::F16 => "f16",
            FloatTy::F32 => "f32",
            FloatTy::F64 => "f64",
            FloatTy::F128 => "f128",
        }),
        TyKind::Str => one_key("str"),
        TyKind::Slice(_) => one_key("[]"),
        TyKind::Array(_, _) => one_key("[;N]"),
        TyKind::Tuple(elements) => if elements.len() == 0 {
            one_key("()")
        } else {
            one_key("(,)")
        },
        TyKind::Ref(_, _, Mutability::Not) => one_key("&"),
        TyKind::Ref(_, _, Mutability::Mut) => one_key("&mut"),
        TyKind::RawPtr(pointee) => one_key(match pointee.mutbl {
            Mutability::Not => "*const",
            Mutability::Mut => "*mut",
        }),
        TyKind::FnPtr(_) => one_key("fn(..)"),
        TyKind::Never => one_key("!"),
        _ => return None,
    })
}

/// The model of a type of the given kind.
pub open spec fn kind_model(k: &TyKind) -> TyModel {
    (Ty { kind: *k }).model()
}

// ---------------------------------------------------------------------
// Primitive types.
// ---------------------------------------------------------------------

/// The string type every string literal and `str` path erases to.
pub fn str_ty() -> (t: Ty)
    ensures
        t.model() == TyModel::Str,
{
    Ty { kind: TyKind::Str }
}

/// The checked type a bare primitive type name stands for.
pub open spec fn primitive_of_name(n: Seq<char>) -> Option<TyModel> {
    if n == "bool"@ { Some(TyModel::Bool) }
    else if n == "char"@ { Some(TyModel::Char) }
    else if n == "i8"@ { Some(TyModel::Int(IntTy::I8)) }
    else if n == "i16"@ { Some(TyModel::Int(IntTy::I16)) }
    else if n == "i32"@ { Some(TyModel::Int(IntTy::I32)) }
    else if n == "i64"@ { Some(TyModel::Int(IntTy::I64)) }
    else if n == "i128"@ { Some(TyModel::Int(IntTy::I128)) }
    else if n == "isize"@ { Some(TyModel::Int(IntTy::Isize)) }
    else if n == "u8"@ { Some(TyModel::Uint(UintTy::U8)) }
    else if n == "u16"@ { Some(TyModel::Uint(UintTy::U16)) }
    else if n == "u32"@ { Some(TyModel::Uint(UintTy::U32)) }
    else if n == "u64"@ { Some(TyModel::Uint(UintTy::U64)) }
    else if n == "u128"@ { Some(TyModel::Uint(UintTy::U128)) }
    else if n == "usize"@ { Some(TyModel::Uint(UintTy::Usize)) }
    else if n == "f16"@ { Some(TyModel::Float(FloatTy::F16)) }
    else if n == "f32"@ { Some(TyModel::Float(FloatTy::F32)) }
    else if n == "f64"@ { Some(TyModel::Float(FloatTy::F64)) }
    else if n == "f128"@ { Some(TyModel::Float(FloatTy::F128)) }
    else if n == "str"@ { Some(TyModel::Str) }
    else { None }
}

/// The checked type of a primitive type name (`bool`, `i32`, `f16`, `str`,
/// ...), or `None` for any other name.
pub fn primitive_path_ty(name: &str) -> (r: Option<Ty>)
    ensures
        r is Some <==> primitive_of_name(name@) is Some,
        r matches Some(t) ==> t.model() == primitive_of_name(name@).unwrap(),
{
    let kind = if str_equals(name, "bool") { TyKind::Bool }
        else if str_equals(name, "char") { TyKind::Char }
        else if str_equals(name, "i8") { TyKind::Int(IntTy::I8) }
        else if str_equals(name, "i16") { TyKind::Int(IntTy::I16) }
        else if str_equals(name, "i32") { TyKind::Int(IntTy::I32) }
        else if str_equals(name, "i64") { TyKind::Int(IntTy::I64) }
        else if str_equals(name, "i128") { TyKind::Int(IntTy::I128) }
        else if str_equals(name, "isize") { TyKind::Int(IntTy::Isize) }
        else if str_equals(name, "u8") { TyKind::Uint(UintTy::U8) }
        else if str_equals(name, "u16") { TyKind::Uint(UintTy::U16) }
        else if str_equals(name, "u32") { TyKind::Uint(UintTy::U32) }
        else if str_equals(name, "u64") { TyKind::Uint(UintTy::U64) }
        else if str_equals(name, "u128") { TyKind::Uint(UintTy::U128) }
        else if str_equals(name, "usize") { TyKind::Uint(UintTy::Usize) }
        else if str_equals(name, "f16") { TyKind::Float(FloatTy::F16) }
        else if str_equals(name, "f32") { TyKind::Float(FloatTy::F32) }
        else if str_equals(name, "f64") { TyKind::Float(FloatTy::F64) }
        else if str_equals(name, "f128") { TyKind::Float(FloatTy::F128) }
        else if str_equals(name, "str") { TyKind::Str }
        else { return None };
    Some(Ty { kind })
}

/// The checked type of an AST primitive.
pub open spec fn primitive_model(p: TypePrimitive) -> TyModel {
    match p {
        TypePrimitive::Bool => TyModel::Bool,
        TypePrimitive::Char => TyModel::Char,
        TypePrimitive::Int(width) => match width {
            TypeInt::I8 => TyModel::Int(IntTy::I8),
            TypeInt::I16 => TyModel::Int(IntTy::I16),
            TypeInt::I32 => TyModel::Int(IntTy::I32),
            TypeInt::I64 => TyModel::Int(IntTy::I64),
            TypeInt::I128 => TyModel::Int(IntTy::I128),
            TypeInt::U8 => TyModel::Uint(UintTy::U8),
            TypeInt::U16 => TyModel::Uint(UintTy::U16),
            TypeInt::U32 => TyModel::Uint(UintTy::U32),
            TypeInt::U64 => TyModel::Uint(UintTy::U64),
            TypeInt::U128 => TyModel::Uint(UintTy::U128),
            TypeInt::BigInt => TyModel::Int(IntTy::I128),
        },
        TypePrimitive::Decimal(decimal) => TyModel::Float(match decimal {
            DecimalType::F32 => FloatTy::F32,
            _ => FloatTy::F64,
        }),
        TypePrimitive::String => TyModel::Str,
        TypePrimitive::List => TyModel::Slice(Box::new(TyModel::Never)),
    }
}

pub fn primitive_ty(primitive: TypePrimitive) -> (t: Ty)
    ensures
        t.model() == primitive_model(primitive),
{
    match primitive {
        TypePrimitive::Bool => Ty::bool(),
        TypePrimitive::Char => Ty::char(),
        TypePrimitive::Int(width) => match width {
            TypeInt::I8 => Ty::integer(IntTy::I8),
            TypeInt::I16 => Ty::integer(IntTy::I16),
            TypeInt::I32 => Ty::integer(IntTy::I32),
            TypeInt::I64 => Ty::integer(IntTy::I64),
            TypeInt::I128 => Ty::integer(IntTy::I128),
            TypeInt::U8 => Ty::uint(UintTy::U8),
            TypeInt::U16 => Ty::uint(UintTy::U16),
            TypeInt::U32 => Ty::uint(UintTy::U32),
            TypeInt::U64 => Ty::uint(UintTy::U64),
            TypeInt::U128 => Ty::uint(UintTy::U128),
            TypeInt::BigInt => Ty::integer(IntTy::I128),
        },
        TypePrimitive::Decimal(decimal) => Ty::float(match decimal {
            DecimalType::F32 => FloatTy::F32,
            _ => FloatTy::F64,
        }),
        TypePrimitive::String => str_ty(),
        TypePrimitive::List => {
            let n = Ty::never();
            assert(n.model() == TyModel::Never);
            Ty { kind: TyKind::Slice(Box::new(n)) }
        },
    }
}

/// The checked type of an AST type built at compile time: primitives and
/// (`'static`, shared) references to them; `None` for anything else.
pub open spec fn ast_value_model(t: AstTy) -> Option<TyModel>
    decreases t,
{
    match t {
        AstTy::Primitive(p) => Some(primitive_model(p)),
        AstTy::Reference(inner) => match ast_value_model(*inner) {
            Some(m) => Some(TyModel::Ref(Region::ReStatic, Box::new(m), Mutability::Not)),
            None => None,
        },
        _ => None,
    }
}

pub fn ast_value_ty_to_hir_ty(ty: &AstTy) -> (r: Option<Ty>)
    ensures
        r is Some <==> ast_value_model(*ty) is Some,
        r matches Some(t) ==> t.model() == ast_value_model(*ty).unwrap(),
    decreases ty,
{
    match ty {
        AstTy::Primitive(primitive) => Some(primitive_ty(*primitive)),
        AstTy::Reference(inner) => match ast_value_ty_to_hir_ty(inner) {
            Some(t) => Some(Ty { kind: TyKind::Ref(Region::ReStatic, Box::new(t), Mutability::Not) }),
            None => None,
        },
        _ => None,
    }
}

} // verus!
