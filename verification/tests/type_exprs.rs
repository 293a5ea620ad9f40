use fp_typing::ast::TypePrimitive;
use fp_typing::ty::{ConstKind, Mutability, Region, ScalarInt, Ty, TyKind};
use fp_typing::type_exprs::{check_type_expr, TypeExpr, TypeExprError, TypeExprKind, TypeExprRecord, TypeOperator};

fn node(id: u32, kind: TypeExprKind) -> TypeExpr {
    TypeExpr { id, kind }
}

fn boxed(id: u32, kind: TypeExprKind) -> Box<TypeExpr> {
    Box::new(node(id, kind))
}

fn checked_ids(records: &[TypeExprRecord]) -> Vec<u32> {
    records
        .iter()
        .filter_map(|r| match r {
            TypeExprRecord::Checked(id, _) => Some(*id),
            _ => None,
        })
        .collect()
}

#[test]
fn tuple_of_primitive_and_path_records_children_first() {
    let expr = node(
        3,
        TypeExprKind::Tuple(vec![
            node(1, TypeExprKind::Primitive(TypePrimitive::Bool)),
            node(2, TypeExprKind::Path(Ty::char())),
        ]),
    );
    let mut records = Vec::new();
    let t = check_type_expr(&expr, &mut records);
    let expected = Ty { kind: TyKind::Tuple(vec![Box::new(Ty::bool()), Box::new(Ty::char())]) };
    assert!(t.same(&expected));
    assert_eq!(checked_ids(&records), vec![1, 2, 3]);
    assert_eq!(records.len(), 3);
}

#[test]
fn references_and_pointers_are_shared_and_erased() {
    let mut records = Vec::new();
    let r = check_type_expr(&node(2, TypeExprKind::Ref(boxed(1, TypeExprKind::Never))), &mut records);
    assert!(r.same(&Ty { kind: TyKind::Ref(Region::ReErased, Box::new(Ty::never()), Mutability::Not) }));
    let p = check_type_expr(&node(4, TypeExprKind::Ptr(boxed(3, TypeExprKind::Type))), &mut records);
    assert!(matches!(&p.kind, TyKind::RawPtr(tm) if tm.mutbl == Mutability::Not && matches!(tm.ty.kind, TyKind::Type)));
    assert_eq!(checked_ids(&records), vec![1, 2, 3, 4]);
}

#[test]
fn array_length_is_a_value_only_for_non_negative_literals() {
    let mut records = Vec::new();
    let a = check_type_expr(&node(2, TypeExprKind::Array(boxed(1, TypeExprKind::Any), Some(4))), &mut records);
    assert!(matches!(&a.kind, TyKind::Array(_, ConstKind::Value(ScalarInt { data: 4, size: 8 }))));
    let b = check_type_expr(&node(4, TypeExprKind::Array(boxed(3, TypeExprKind::Any), Some(-1))), &mut records);
    assert!(matches!(&b.kind, TyKind::Array(_, ConstKind::Infer)));
    let c = check_type_expr(&node(6, TypeExprKind::Array(boxed(5, TypeExprKind::Any), None)), &mut records);
    assert!(matches!(&c.kind, TyKind::Array(_, ConstKind::Infer)));
}

#[test]
fn infer_hole_is_named_by_its_node() {
    let mut records = Vec::new();
    let t = check_type_expr(&node(17, TypeExprKind::Infer), &mut records);
    assert!(matches!(t.kind, TyKind::Infer(17)));
}

#[test]
fn unsupported_forms_are_errors_with_a_reason() {
    let mut records = Vec::new();
    let t = check_type_expr(&node(5, TypeExprKind::StructuralType), &mut records);
    assert!(matches!(t.kind, TyKind::Error));
    let u = check_type_expr(
        &node(6, TypeExprKind::TypeBinaryOp(TypeOperator::Union, boxed(60, TypeExprKind::Any), boxed(61, TypeExprKind::Any))),
        &mut records,
    );
    assert!(matches!(u.kind, TyKind::Error));
    let v = check_type_expr(&node(7, TypeExprKind::Error), &mut records);
    assert!(matches!(v.kind, TyKind::Error));
    assert_eq!(records.len(), 6);
    assert!(matches!(records[0], TypeExprRecord::Invalid(5, TypeExprError::StructuralUnsupported)));
    assert!(matches!(records[1], TypeExprRecord::Checked(5, _)));
    assert!(matches!(records[2], TypeExprRecord::Invalid(6, TypeExprError::TypeOperatorUnsupported)));
    assert!(matches!(records[4], TypeExprRecord::Invalid(7, TypeExprError::Invalid)));
}

#[test]
fn refinement_has_its_base_type_and_records_the_binder() {
    let mut records = Vec::new();
    let expr = node(
        2,
        TypeExprKind::Refinement(boxed(1, TypeExprKind::Path(Ty::bool())), "x".to_string()),
    );
    let t = check_type_expr(&expr, &mut records);
    assert!(t.same(&Ty::bool()));
    assert_eq!(records.len(), 3);
    assert!(matches!(&records[1], TypeExprRecord::Refinement(2, b, base) if b == "x" && base.same(&Ty::bool())));
    assert!(matches!(&records[2], TypeExprRecord::Checked(2, c) if c.same(&Ty::bool())));
}

#[test]
fn function_pointer_checks_inputs_then_output() {
    let mut records = Vec::new();
    let expr = node(
        4,
        TypeExprKind::FnPtr(
            vec![node(1, TypeExprKind::Path(Ty::char())), node(2, TypeExprKind::Type)],
            boxed(3, TypeExprKind::Slice(boxed(0, TypeExprKind::Any))),
        ),
    );
    let t = check_type_expr(&expr, &mut records);
    match &t.kind {
        TyKind::FnPtr(sig) => {
            assert_eq!(sig.inputs.len(), 2);
            assert!(sig.inputs[0].same(&Ty::char()));
            assert!(matches!(sig.output.kind, TyKind::Slice(_)));
        }
        _ => panic!("expected a function pointer"),
    }
    assert_eq!(checked_ids(&records), vec![1, 2, 0, 3, 4]);
}
