use fp_typing::ast::{TypeInt, TypePrimitive};
use fp_typing::expr::Lit;
use fp_typing::expr_rules::let_expr_ty;
use fp_typing::literals::literal_ty;
use fp_typing::patterns::{bind_pattern, Pat, PatKind, PatternTypes};
use fp_typing::ty::{FloatTy, IntTy, Ty, TyKind};
use fp_typing::type_exprs::{check_type_expr, TypeExpr, TypeExprKind, TypeOperator};
use fp_typing::type_shapes::primitive_path_ty;

/// Checks `let <name>: <target>;` the way the checker does: the declared
/// type, the `let` rule without a value, then the binding pattern; gives
/// the pattern types recorded.
fn check_let(pattern_id: u32, name: &str, target: TypeExpr) -> PatternTypes {
    let mut records = Vec::new();
    let declared = check_type_expr(&target, &mut records);
    let mut diags = Vec::new();
    let ty = let_expr_ty(declared, None, &mut diags);
    assert!(diags.is_empty());
    let mut out = PatternTypes::new();
    let pattern = Pat { id: pattern_id, kind: PatKind::Binding(name.to_string()) };
    bind_pattern(&pattern, ty, None, &mut out, &mut diags);
    assert!(diags.is_empty());
    out
}

/// `let value: <kind>;` with the pattern node 8 and the type node 10.
fn let_with_type(kind: TypeExprKind) -> PatternTypes {
    check_let(8, "value", TypeExpr { id: 10, kind })
}

fn str_shaped_ty() -> Ty {
    Ty { kind: TyKind::Str }
}

fn type_node(id: u32, kind: TypeExprKind) -> Box<TypeExpr> {
    Box::new(TypeExpr { id, kind })
}

fn pattern_type(out: &PatternTypes, id: u32) -> Option<&Ty> {
    out.types.iter().find(|(i, _)| *i == id).map(|(_, t)| t)
}

fn i64_let() -> PatternTypes {
    check_let(8, "value", TypeExpr { id: 10, kind: TypeExprKind::Primitive(TypePrimitive::Int(TypeInt::I64)) })
}

fn float_path_let(base: u32, name: &str, path: &str) -> PatternTypes {
    let resolved = primitive_path_ty(path).expect("a primitive float path");
    check_let(base + 1, name, TypeExpr { id: base + 3, kind: TypeExprKind::Path(resolved) })
}

#[test]
fn unsuffixed_integer_literal_is_i64() {
    assert!(literal_ty(&Lit::Integer(4), None).same(&Ty::integer(IntTy::I64)));
}

#[test]
fn binding_pattern_takes_the_annotated_type() {
    let out = i64_let();
    assert!(pattern_type(&out, 8).unwrap().same(&Ty::integer(IntTy::I64)));
}

#[test]
fn f16_and_f128_annotations_resolve_as_primitive_floats() {
    let f16 = float_path_let(10, "f16_value", "f16");
    let f128 = float_path_let(20, "f128_value", "f128");
    assert!(pattern_type(&f16, 11).unwrap().same(&Ty::float(FloatTy::F16)));
    assert!(pattern_type(&f128, 21).unwrap().same(&Ty::float(FloatTy::F128)));
}

#[test]
fn string_literal_type_resolves_to_str() {
    let out = let_with_type(TypeExprKind::LiteralString("foo".to_string()));
    assert!(pattern_type(&out, 8).unwrap().same(&str_shaped_ty()));
}

#[test]
fn union_of_string_literal_types_resolves_to_str() {
    let out = let_with_type(TypeExprKind::TypeBinaryOp(
        TypeOperator::Union,
        type_node(11, TypeExprKind::LiteralString("a".to_string())),
        type_node(12, TypeExprKind::LiteralString("b".to_string())),
    ));
    assert!(pattern_type(&out, 8).unwrap().same(&str_shaped_ty()));
}

#[test]
fn union_of_non_literal_types_still_errors() {
    let out = let_with_type(TypeExprKind::TypeBinaryOp(
        TypeOperator::Union,
        type_node(11, TypeExprKind::Primitive(TypePrimitive::Int(TypeInt::I64))),
        type_node(12, TypeExprKind::Primitive(TypePrimitive::Bool)),
    ));
    assert!(pattern_type(&out, 8).unwrap().same(&Ty::error()));
}
