use fp_typing::generic_types::{
    generic_args_compatible, instantiate_call, method_call_actuals, require_same, require_same_adt,
    signature_matches_expected_output, substitute_param_map, substitute_param_map_fn_sig,
    substitute_params, unify_branch_types, unify_call_types, unify_call_types_impl,
    unify_call_types_probe, SpeculativeMismatch, Substitutions, TypeDiagnostic,
};
use fp_typing::literals::{const_kind_to_u64, literal_ty, u64_to_const_kind, unit_ty};
use fp_typing::expr::Lit;
use fp_typing::ty::{
    AdtDef, ConstKind, DefId, FloatTy, FnSig, GenericArg, IntTy, Mutability, ParamTy, Region, Ty,
    TyKind, UintTy,
};
use fp_typing::type_compat::{ty_matches_with_infer_holes, ty_shapes_compatible};
use fp_typing::type_shapes::{primitive_path_ty, str_ty, ty_contains_error, ty_contains_param, ty_shape_keys};

fn param(index: u32, name: &str) -> ParamTy {
    ParamTy { index, name: name.to_string() }
}

fn param_ty(index: u32, name: &str) -> Ty {
    Ty { kind: TyKind::Param(param(index, name)) }
}

fn fn_ptr(inputs: Vec<Ty>, output: Ty) -> Ty {
    Ty {
        kind: TyKind::FnPtr(FnSig {
            inputs: inputs.into_iter().map(Box::new).collect(),
            output: Box::new(output),
        }),
    }
}

fn reference(inner: Ty) -> Ty {
    Ty { kind: TyKind::Ref(Region::ReErased, Box::new(inner), Mutability::Not) }
}

fn tuple(items: Vec<Ty>) -> Ty {
    Ty { kind: TyKind::Tuple(items.into_iter().map(Box::new).collect()) }
}

fn slice(inner: Ty) -> Ty {
    Ty { kind: TyKind::Slice(Box::new(inner)) }
}

fn array(inner: Ty, len: u64) -> Ty {
    Ty { kind: TyKind::Array(Box::new(inner), u64_to_const_kind(len)) }
}

fn adt(index: u32, args: Vec<Ty>) -> Ty {
    Ty {
        kind: TyKind::Adt(
            AdtDef { did: DefId { package: 1, index } },
            args.into_iter().map(GenericArg::Type).collect(),
        ),
    }
}

fn infer() -> Ty {
    Ty { kind: TyKind::Infer(0) }
}

fn str_shaped_ty() -> Ty {
    Ty { kind: TyKind::Str }
}

#[test]
fn repeated_generic_call_parameter_refines_self_binding() {
    let parameter = param(7, "T");
    let parameter_ty = Ty { kind: TyKind::Param(param(7, "T")) };
    let callable = fn_ptr(vec![param_ty(7, "T"), param_ty(7, "T")], parameter_ty);
    let actual = Ty::float(FloatTy::F32);
    let mut diags = Vec::new();
    let (substitutions, output) = instantiate_call(&callable, &[actual.duplicate(), actual.duplicate()], &mut diags)
        .expect("callable signature should instantiate");
    assert!(substitutions.get(&parameter).expect("T is bound").same(&actual));
    assert!(output.same(&actual));
    assert!(diags.is_empty());
}

#[test]
fn string_and_byte_slice_use_distinct_method_lookup_buckets() {
    let string_keys = ty_shape_keys(&TyKind::Str).expect("str has a method lookup shape");
    let byte_slice_keys = ty_shape_keys(&TyKind::Slice(Box::new(Ty::uint(UintTy::U8))))
        .expect("[u8] has a method lookup shape");

    assert_eq!(string_keys, vec!["str"]);
    assert_eq!(byte_slice_keys, vec!["[]"]);
}

#[test]
fn error_types_are_invalid_for_lookup_even_when_nested() {
    let invalid = Ty {
        kind: TyKind::Ref(
            Region::ReStatic,
            Box::new(Ty { kind: TyKind::Tuple(vec![Box::new(Ty::error())]) }),
            Mutability::Not,
        ),
    };

    assert!(ty_contains_error(&invalid));
    assert!(!ty_contains_error(&Ty { kind: TyKind::Param(param(0, "T")) }));
}

#[test]
fn string_literal_type_is_str() {
    let t = literal_ty(&Lit::Str("foo".to_string()), None);
    assert!(t.same(&str_shaped_ty()));
    assert!(str_ty().same(&str_shaped_ty()));
}

#[test]
fn conflicting_binding_is_recorded_not_failed() {
    let callable = fn_ptr(vec![param_ty(0, "T"), param_ty(0, "T")], param_ty(0, "T"));
    let mut diags = Vec::new();
    let (subs, output) = instantiate_call(
        &callable,
        &[Ty::integer(IntTy::I64), Ty::bool()],
        &mut diags,
    )
    .expect("arity matches");
    // The first binding wins; the disagreement is recorded.
    assert!(subs.get(&param(0, "T")).unwrap().same(&Ty::integer(IntTy::I64)));
    assert!(output.same(&Ty::integer(IntTy::I64)));
    assert_eq!(diags.len(), 1);
    match &diags[0] {
        TypeDiagnostic::Mismatch(l, r) => {
            assert!(l.same(&Ty::integer(IntTy::I64)));
            assert!(r.same(&Ty::bool()));
        }
        other => panic!("expected a mismatch, got {other:?}"),
    }
}

#[test]
fn wrong_argument_count_is_recorded() {
    let callable = fn_ptr(vec![Ty::bool()], Ty::bool());
    let mut diags = Vec::new();
    assert!(instantiate_call(&callable, &[], &mut diags).is_none());
    assert!(matches!(diags.as_slice(), [TypeDiagnostic::ArgumentCount]));
    let mut diags = Vec::new();
    assert!(instantiate_call(&Ty::bool(), &[], &mut diags).is_none());
    assert!(diags.is_empty());
}

#[test]
fn speculative_unification_fails_without_recording() {
    let mut subs = Substitutions::new();
    let mut diags = Vec::new();
    let r = unify_call_types_impl(&Ty::bool(), &Ty::char(), &mut subs, false, &mut diags);
    assert_eq!(r, Err(SpeculativeMismatch));
    assert!(diags.is_empty());
    // Never agrees with anything.
    let r = unify_call_types_impl(&Ty::bool(), &Ty::never(), &mut subs, false, &mut diags);
    assert_eq!(r, Ok(()));
}

#[test]
fn unification_looks_through_references_and_containers() {
    let mut subs = Substitutions::new();
    let mut diags = Vec::new();
    let expected = reference(tuple(vec![slice(param_ty(0, "T")), adt(3, vec![param_ty(1, "U")])]));
    let actual = tuple(vec![array(Ty::uint(UintTy::U8), 4), adt(3, vec![Ty::char()])]);
    let r = unify_call_types_impl(&expected, &actual, &mut subs, true, &mut diags);
    assert_eq!(r, Ok(()));
    assert!(subs.get(&param(0, "T")).unwrap().same(&Ty::uint(UintTy::U8)));
    assert!(subs.get(&param(1, "U")).unwrap().same(&Ty::char()));
    assert!(diags.is_empty());
    let out = substitute_param_map(&expected, &subs);
    assert!(out.same(&reference(tuple(vec![slice(Ty::uint(UintTy::U8)), adt(3, vec![Ty::char()])]))));
}

#[test]
fn substitution_follows_parameter_chains() {
    let mut subs = Substitutions::new();
    subs.insert_new(param(0, "T"), param_ty(1, "U"));
    subs.insert_new(param(1, "U"), Ty::bool());
    let out = substitute_param_map(&tuple(vec![param_ty(0, "T"), param_ty(2, "V")]), &subs);
    assert!(out.same(&tuple(vec![Ty::bool(), param_ty(2, "V")])));
}

#[test]
fn substitution_ends_on_a_cycle() {
    let mut subs = Substitutions::new();
    subs.insert_new(param(0, "T"), param_ty(1, "U"));
    subs.insert_new(param(1, "U"), param_ty(0, "T"));
    // `T`'s binding `U` leads back to `T`, which stays as it is.
    let out = substitute_param_map(&param_ty(0, "T"), &subs);
    assert!(out.same(&param_ty(0, "T")));
}

#[test]
fn substitution_reaches_into_bindings() {
    let mut subs = Substitutions::new();
    subs.insert_new(param(0, "T"), adt(3, vec![param_ty(1, "U")]));
    subs.insert_new(param(1, "U"), Ty::integer(IntTy::I32));
    let out = substitute_param_map(&param_ty(0, "T"), &subs);
    assert!(out.same(&adt(3, vec![Ty::integer(IntTy::I32)])));
}

#[test]
fn positional_substitution_uses_parameter_indices() {
    let args = vec![GenericArg::Type(Ty::bool()), GenericArg::Lifetime(Region::ReStatic)];
    let t = tuple(vec![param_ty(0, "A"), param_ty(1, "B"), param_ty(5, "C")]);
    let out = substitute_params(t, &args);
    assert!(out.same(&tuple(vec![Ty::bool(), param_ty(1, "B"), param_ty(5, "C")])));
}

#[test]
fn branch_types_join_generic_with_concrete() {
    let none_ty = adt(9, vec![param_ty(0, "T")]);
    let some_ty = adt(9, vec![Ty::integer(IntTy::I64)]);
    let mut diags = Vec::new();
    let joined = unify_branch_types(&none_ty, &some_ty, &mut diags);
    assert!(joined.same(&some_ty));
    let joined = unify_branch_types(&some_ty, &none_ty, &mut diags);
    assert!(joined.same(&some_ty));
    assert!(diags.is_empty());
    let joined = unify_branch_types(&Ty::bool(), &Ty::char(), &mut diags);
    assert!(joined.same(&Ty::bool()));
    assert_eq!(diags.len(), 1);
}

#[test]
fn impl_arguments_match_receiver_arguments() {
    let generic = vec![GenericArg::Type(param_ty(0, "T"))];
    let concrete = vec![GenericArg::Type(Ty::bool())];
    let by_ref = vec![GenericArg::Type(reference(Ty::bool()))];
    let other = vec![GenericArg::Type(Ty::char())];
    assert!(generic_args_compatible(&generic, &concrete));
    assert!(generic_args_compatible(&by_ref, &concrete));
    assert!(!generic_args_compatible(&other, &concrete));
    assert!(!generic_args_compatible(&generic, &[]));
}

#[test]
fn annotation_holes_match_anything() {
    assert!(ty_matches_with_infer_holes(&adt(2, vec![infer()]), &adt(2, vec![Ty::bool()])));
    assert!(!ty_matches_with_infer_holes(&array(infer(), 3), &slice(Ty::bool())));
    assert!(!ty_matches_with_infer_holes(&array(Ty::bool(), 3), &slice(Ty::bool())));
    assert!(!ty_matches_with_infer_holes(&array(infer(), 3), &array(Ty::bool(), 4)));
    assert!(!ty_matches_with_infer_holes(&adt(2, vec![Ty::char()]), &adt(2, vec![Ty::bool()])));
    assert!(ty_matches_with_infer_holes(&tuple(vec![Ty::bool()]), &tuple(vec![Ty::bool()])));
}

#[test]
fn shapes_compare_kinds_not_contents() {
    assert!(ty_shapes_compatible(&TyKind::Int(IntTy::I8), &TyKind::Int(IntTy::I64)));
    assert!(ty_shapes_compatible(&reference(Ty::bool()).kind, &TyKind::Bool));
    assert!(ty_shapes_compatible(&slice(Ty::bool()).kind, &array(Ty::char(), 2).kind));
    assert!(!ty_shapes_compatible(&TyKind::Bool, &TyKind::Char));
    assert!(!ty_shapes_compatible(&adt(1, vec![]).kind, &array(Ty::char(), 2).kind));
    assert!(ty_shapes_compatible(&TyKind::Param(param(0, "T")), &TyKind::Str));
}

#[test]
fn require_same_tolerates_never() {
    let mut diags = Vec::new();
    require_same(&Ty::never(), &Ty::bool(), &mut diags);
    require_same(&Ty::bool(), &Ty::bool(), &mut diags);
    assert!(diags.is_empty());
    require_same(&Ty::bool(), &unit_ty(), &mut diags);
    assert_eq!(diags.len(), 1);
}

#[test]
fn primitive_names_and_lengths() {
    assert!(primitive_path_ty("f16").unwrap().same(&Ty::float(FloatTy::F16)));
    assert!(primitive_path_ty("f128").unwrap().same(&Ty::float(FloatTy::F128)));
    assert!(primitive_path_ty("Vec").is_none());
    assert_eq!(const_kind_to_u64(&u64_to_const_kind(12)), Some(12));
    assert_eq!(const_kind_to_u64(&ConstKind::Infer), None);
    assert!(ty_contains_param(&adt(1, vec![param_ty(0, "T")])));
}

#[test]
fn method_receivers_are_borrowed_or_peeled() {
    let by_ref = fn_ptr(vec![reference(param_ty(0, "Self")), Ty::bool()], Ty::bool());
    let by_value = fn_ptr(vec![param_ty(0, "Self")], Ty::bool());
    let adjusted = method_call_actuals(&by_ref, &[Ty::char(), Ty::bool()]);
    assert!(adjusted[0].same(&reference(Ty::char())));
    assert!(adjusted[1].same(&Ty::bool()));
    let adjusted = method_call_actuals(&by_ref, &[reference(Ty::char())]);
    assert!(adjusted[0].same(&reference(Ty::char())));
    let adjusted = method_call_actuals(&by_value, &[reference(reference(Ty::char()))]);
    assert!(adjusted[0].same(&Ty::char()));
    let adjusted = method_call_actuals(&Ty::bool(), &[reference(Ty::char())]);
    assert!(adjusted[0].same(&reference(Ty::char())));
}

#[test]
fn scrutinee_must_be_the_pattern_adt() {
    let mut diags = Vec::new();
    require_same_adt(&adt(4, vec![Ty::bool()]), &adt(4, vec![param_ty(0, "T")]), "match", &mut diags);
    assert!(diags.is_empty());
    require_same_adt(&Ty::bool(), &adt(4, vec![]), "match", &mut diags);
    require_same_adt(&adt(5, vec![]), &adt(4, vec![]), "let", &mut diags);
    assert_eq!(diags.len(), 2);
    assert!(matches!(&diags[0], TypeDiagnostic::NotAdtScrutinee(c) if c == "match"));
    assert!(matches!(&diags[1], TypeDiagnostic::ScrutineeMismatch(c) if c == "let"));
}

#[test]
fn signature_substitution_reaches_inputs_and_output() {
    let mut subs = Substitutions::new();
    subs.insert_new(param(0, "T"), Ty::char());
    let sig = FnSig { inputs: vec![Box::new(param_ty(0, "T"))], output: Box::new(slice(param_ty(0, "T"))) };
    let out = substitute_param_map_fn_sig(&sig, &subs);
    assert!(out.inputs[0].same(&Ty::char()));
    assert!(out.output.same(&slice(Ty::char())));
}

#[test]
fn candidate_outputs_are_matched_speculatively() {
    let sig = fn_ptr(vec![], adt(2, vec![param_ty(0, "T")]));
    assert!(signature_matches_expected_output(Some(&sig), Some(&adt(2, vec![Ty::bool()]))));
    assert!(!signature_matches_expected_output(Some(&sig), Some(&adt(3, vec![Ty::bool()]))));
    assert!(signature_matches_expected_output(Some(&sig), None));
    assert!(signature_matches_expected_output(Some(&Ty::bool()), Some(&Ty::char())));
}

#[test]
fn committed_and_speculative_unification_differ_only_in_recording() {
    let mut subs = Substitutions::new();
    let mut diags = Vec::new();
    unify_call_types(&Ty::bool(), &Ty::char(), &mut subs, &mut diags);
    assert_eq!(diags.len(), 1);
    let mut subs = Substitutions::new();
    assert!(unify_call_types_probe(&Ty::bool(), &Ty::char(), &mut subs).is_err());
    assert!(unify_call_types_probe(&param_ty(0, "T"), &Ty::char(), &mut subs).is_ok());
    assert!(subs.get(&param(0, "T")).unwrap().same(&Ty::char()));
}

#[test]
fn unifying_a_parameter_free_type_with_itself_binds_nothing() {
    let t = reference(tuple(vec![slice(Ty::char()), adt(3, vec![Ty::bool()])]));
    let mut subs = Substitutions::new();
    subs.insert_new(param(0, "T"), Ty::bool());
    let mut diags = Vec::new();
    assert_eq!(unify_call_types_impl(&t, &t, &mut subs, false, &mut diags), Ok(()));
    assert!(subs.get(&param(1, "U")).is_none());
    assert!(subs.get(&param(0, "T")).unwrap().same(&Ty::bool()));
    assert!(diags.is_empty());
}

#[test]
fn substitution_leaves_parameter_free_types_alone() {
    let mut subs = Substitutions::new();
    subs.insert_new(param(0, "T"), Ty::bool());
    let t = tuple(vec![slice(Ty::char()), reference(Ty::never())]);
    assert!(substitute_param_map(&t, &subs).same(&t));
    let generic = tuple(vec![param_ty(0, "T")]);
    assert!(substitute_param_map(&generic, &Substitutions::new()).same(&generic));
}

#[test]
fn shape_compatibility_is_symmetric_and_reflexive() {
    let pairs = [
        (reference(Ty::bool()), Ty::bool()),
        (slice(Ty::bool()), array(Ty::char(), 1)),
        (Ty::char(), Ty::bool()),
        (tuple(vec![Ty::bool()]), tuple(vec![])),
    ];
    for (a, b) in pairs.iter() {
        assert_eq!(ty_shapes_compatible(&a.kind, &b.kind), ty_shapes_compatible(&b.kind, &a.kind));
        assert!(ty_shapes_compatible(&a.kind, &a.kind));
        assert!(ty_matches_with_infer_holes(a, a));
    }
}
