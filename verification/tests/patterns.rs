use fp_typing::expr::Lit;
use fp_typing::generic_types::TypeDiagnostic;
use fp_typing::patterns::{
    bind_pattern, enum_struct_payload_type, field_ty, variant_payload_types, FieldPat, Pat, PatKind, PatternTypes, VariantRes,
};
use fp_typing::ty::{AdtDef, DefId, GenericArg, IntTy, Mutability, ParamTy, Region, Ty, TyKind, UintTy};

fn param_ty(index: u32, name: &str) -> Ty {
    Ty { kind: TyKind::Param(ParamTy { index, name: name.to_string() }) }
}

fn reference(inner: Ty) -> Ty {
    Ty { kind: TyKind::Ref(Region::ReErased, Box::new(inner), Mutability::Not) }
}

fn tuple(items: Vec<Ty>) -> Ty {
    Ty { kind: TyKind::Tuple(items.into_iter().map(Box::new).collect()) }
}

fn adt(index: u32, args: Vec<Ty>) -> Ty {
    Ty {
        kind: TyKind::Adt(
            AdtDef { did: DefId { package: 0, index } },
            args.into_iter().map(GenericArg::Type).collect(),
        ),
    }
}

fn pat(id: u32, kind: PatKind) -> Pat {
    Pat { id, kind }
}

fn binding(id: u32, name: &str) -> Pat {
    pat(id, PatKind::Binding(name.to_string()))
}

/// `enum Shape<T> { Point, Pair(T, T), Named(Named<T>) }` as enum 7.
fn pair_variant() -> VariantRes {
    VariantRes::Found {
        owner: DefId { package: 0, index: 7 },
        payload: Some(tuple(vec![param_ty(0, "T"), param_ty(0, "T")])),
    }
}

fn point_variant() -> VariantRes {
    VariantRes::Found { owner: DefId { package: 0, index: 7 }, payload: None }
}

#[test]
fn field_types_follow_the_receiver_arguments() {
    let mut diags = Vec::new();
    let receiver = reference(adt(3, vec![Ty::char()]));
    let declared = param_ty(0, "T");
    assert!(field_ty(&receiver, Some(&declared), &mut diags).same(&Ty::char()));
    assert!(diags.is_empty());
    assert!(matches!(field_ty(&receiver, None, &mut diags).kind, TyKind::Error));
    assert!(matches!(field_ty(&Ty::bool(), Some(&declared), &mut diags).kind, TyKind::Error));
    assert!(matches!(diags[0], TypeDiagnostic::FieldNotFound));
    assert!(matches!(diags[1], TypeDiagnostic::FieldOfNonStruct));
}

#[test]
fn variant_payloads_take_the_scrutinee_arguments() {
    let mut diags = Vec::new();
    let scrutinee = adt(7, vec![Ty::bool()]);
    let (enum_ty, payloads) = variant_payload_types(&pair_variant(), &scrutinee, &mut diags);
    assert!(enum_ty.same(&scrutinee));
    assert_eq!(payloads.len(), 2);
    assert!(payloads[0].same(&Ty::bool()) && payloads[1].same(&Ty::bool()));
    let (_, none) = variant_payload_types(&point_variant(), &scrutinee, &mut diags);
    assert!(none.is_empty());
    assert!(diags.is_empty());
    let (wrong, _) = variant_payload_types(&pair_variant(), &adt(8, vec![]), &mut diags);
    assert!(matches!(wrong.kind, TyKind::Error));
    variant_payload_types(&VariantRes::Unresolved, &scrutinee, &mut diags);
    variant_payload_types(&VariantRes::NotFound, &scrutinee, &mut diags);
    assert!(matches!(diags[0], TypeDiagnostic::VariantMismatch));
    assert!(matches!(diags[1], TypeDiagnostic::VariantUnresolved));
    assert!(matches!(diags[2], TypeDiagnostic::VariantNotFound));
}

#[test]
fn tuple_patterns_bind_elements_through_a_reference() {
    let mut out = PatternTypes::new();
    let mut diags = Vec::new();
    let p = pat(1, PatKind::Tuple(vec![binding(2, "a"), pat(3, PatKind::Wild), binding(4, "c")]));
    let scrutinee = reference(tuple(vec![Ty::char(), Ty::bool(), Ty::uint(UintTy::U8)]));
    bind_pattern(&p, scrutinee.duplicate(), None, &mut out, &mut diags);
    assert!(diags.is_empty());
    let ids: Vec<u32> = out.types.iter().map(|(id, _)| *id).collect();
    assert_eq!(ids, vec![1, 2, 3, 4]);
    assert!(out.types[0].1.same(&scrutinee));
    assert!(out.types[1].1.same(&Ty::char()));
    assert_eq!(out.locals.len(), 2);
    assert_eq!(out.locals[0].0, "a");
    assert!(out.locals[0].1.same(&Ty::char()));
    assert_eq!(out.locals[1].0, "c");
    assert!(out.locals[1].1.same(&Ty::uint(UintTy::U8)));
}

#[test]
fn a_binding_keeps_the_reference() {
    let mut out = PatternTypes::new();
    let mut diags = Vec::new();
    bind_pattern(&binding(1, "x"), reference(Ty::char()), None, &mut out, &mut diags);
    assert!(out.locals[0].1.same(&reference(Ty::char())));
}

#[test]
fn tuple_pattern_mismatches_are_recorded() {
    let mut out = PatternTypes::new();
    let mut diags = Vec::new();
    let p = pat(1, PatKind::Tuple(vec![binding(2, "a")]));
    bind_pattern(&p, tuple(vec![Ty::char(), Ty::bool()]), None, &mut out, &mut diags);
    bind_pattern(&p, Ty::char(), None, &mut out, &mut diags);
    assert!(matches!(diags[0], TypeDiagnostic::TuplePatternArity));
    assert!(matches!(diags[1], TypeDiagnostic::NotTuplePattern));
    assert!(out.locals.is_empty());
}

#[test]
fn literal_patterns_must_agree() {
    let mut out = PatternTypes::new();
    let mut diags = Vec::new();
    bind_pattern(&pat(1, PatKind::Lit(Lit::Integer(3))), Ty::uint(UintTy::U16), None, &mut out, &mut diags);
    bind_pattern(&pat(2, PatKind::Lit(Lit::Bool(true))), Ty::bool(), None, &mut out, &mut diags);
    assert!(diags.is_empty());
    bind_pattern(&pat(3, PatKind::Lit(Lit::Char('a'))), Ty::bool(), None, &mut out, &mut diags);
    assert!(matches!(&diags[0], TypeDiagnostic::Mismatch(l, r) if l.same(&Ty::bool()) && r.same(&Ty::char())));
    bind_pattern(&pat(4, PatKind::Lit(Lit::Integer(3))), Ty::char(), None, &mut out, &mut diags);
    assert!(matches!(&diags[1], TypeDiagnostic::Mismatch(_, r) if r.same(&Ty::integer(IntTy::I64))));
}

#[test]
fn variant_patterns_bind_payload_fields() {
    let mut out = PatternTypes::new();
    let mut diags = Vec::new();
    let p = pat(1, PatKind::TupleStruct(pair_variant(), vec![binding(2, "x"), binding(3, "y")]));
    bind_pattern(&p, reference(adt(7, vec![Ty::char()])), None, &mut out, &mut diags);
    assert!(diags.is_empty());
    assert!(out.locals[0].1.same(&Ty::char()));
    assert!(out.locals[1].1.same(&Ty::char()));
    let short = pat(4, PatKind::TupleStruct(pair_variant(), vec![binding(5, "x")]));
    bind_pattern(&short, adt(7, vec![Ty::char()]), None, &mut out, &mut diags);
    assert!(matches!(diags[0], TypeDiagnostic::TupleStructArity));
    bind_pattern(&pat(6, PatKind::Variant(pair_variant())), adt(7, vec![Ty::char()]), None, &mut out, &mut diags);
    assert!(matches!(diags[1], TypeDiagnostic::PayloadVariantPattern));
    bind_pattern(&pat(7, PatKind::Variant(point_variant())), adt(7, vec![Ty::char()]), None, &mut out, &mut diags);
    assert_eq!(diags.len(), 2);
}

#[test]
fn struct_patterns_bind_fields() {
    let mut out = PatternTypes::new();
    let mut diags = Vec::new();
    let fields = vec![
        FieldPat { pat: binding(2, "first"), declared: Some(param_ty(0, "T")) },
        FieldPat { pat: binding(3, "count"), declared: Some(Ty::uint(UintTy::Usize)) },
    ];
    let p = pat(1, PatKind::Struct(Some(adt(4, vec![param_ty(0, "T")])), fields));
    bind_pattern(&p, adt(4, vec![Ty::char()]), None, &mut out, &mut diags);
    assert!(diags.is_empty());
    // Fields are read off the type the pattern's path names.
    assert!(out.locals[0].1.same(&param_ty(0, "T")));
    assert!(out.locals[1].1.same(&Ty::uint(UintTy::Usize)));
    let unnamed = pat(8, PatKind::Struct(None, vec![FieldPat { pat: binding(9, "w"), declared: Some(param_ty(0, "T")) }]));
    bind_pattern(&unnamed, adt(4, vec![Ty::char()]), None, &mut out, &mut diags);
    assert!(out.locals[2].1.same(&Ty::char()));
    let missing = pat(5, PatKind::Struct(None, vec![FieldPat { pat: binding(6, "z"), declared: None }]));
    bind_pattern(&missing, adt(4, vec![Ty::char()]), None, &mut out, &mut diags);
    assert!(matches!(diags[0], TypeDiagnostic::FieldNotFound));
    assert!(matches!(out.locals[3].1.kind, TyKind::Error));
    bind_pattern(&p, Ty::bool(), None, &mut out, &mut diags);
    assert!(matches!(&diags[1], TypeDiagnostic::NotAdtScrutinee(c) if c == "struct pattern"));
}

#[test]
fn struct_variant_patterns_need_one_payload() {
    let named = VariantRes::Found {
        owner: DefId { package: 0, index: 7 },
        payload: Some(adt(9, vec![param_ty(0, "T")])),
    };
    let mut out = PatternTypes::new();
    let mut diags = Vec::new();
    let fields = vec![FieldPat { pat: binding(2, "v"), declared: Some(param_ty(0, "U")) }];
    let p = pat(1, PatKind::VariantStruct(named, fields));
    bind_pattern(&p, adt(7, vec![Ty::bool()]), None, &mut out, &mut diags);
    assert!(diags.is_empty());
    // The payload's own arguments are not substituted: only parameters in
    // type position, tuples, arrays, slices and pointers are.
    assert!(out.locals[0].1.same(&param_ty(0, "T")));
    let q = pat(3, PatKind::VariantStruct(pair_variant(), Vec::new()));
    bind_pattern(&q, adt(7, vec![Ty::bool()]), None, &mut out, &mut diags);
    assert!(matches!(diags[0], TypeDiagnostic::StructPayloadCount));
}

#[test]
fn struct_payloads_are_recognised_by_their_struct() {
    let named = VariantRes::Found {
        owner: DefId { package: 0, index: 7 },
        payload: Some(adt(9, vec![param_ty(0, "T")])),
    };
    let structs = [DefId { package: 0, index: 9 }];
    let mut diags = Vec::new();
    let payload = enum_struct_payload_type(&named, &adt(7, vec![Ty::bool()]), &structs, &mut diags).unwrap();
    assert!(payload.same(&adt(9, vec![param_ty(0, "T")])));
    assert!(enum_struct_payload_type(&named, &adt(7, vec![Ty::bool()]), &[], &mut diags).is_none());
    assert!(enum_struct_payload_type(&pair_variant(), &adt(7, vec![Ty::bool()]), &structs, &mut diags).is_none());
    assert!(enum_struct_payload_type(&point_variant(), &adt(7, vec![Ty::bool()]), &structs, &mut diags).is_none());
    assert!(diags.is_empty());
}
