use fp_typing::call_types::{
    apply_receiver, callable_output_args, deref_target_through, impl_matches_receiver, variant_payload, collection_constructor_signature, for_loop_element_ty, generic_call_args,
    method_generic_args, well_known_struct_ty,
};
use fp_typing::generic_types::{Substitutions, TypeDiagnostic};
use fp_typing::literals::u64_to_const_kind;
use fp_typing::ty::{AdtDef, DefId, FnSig, GenericArg, Mutability, ParamTy, Region, Ty, TyKind, UintTy};

fn param(index: u32, name: &str) -> ParamTy {
    ParamTy { index, name: name.to_string() }
}

fn param_ty(index: u32, name: &str) -> Ty {
    Ty { kind: TyKind::Param(param(index, name)) }
}

fn did(index: u32) -> DefId {
    DefId { package: 1, index }
}

fn adt(index: u32, args: Vec<GenericArg>) -> Ty {
    Ty { kind: TyKind::Adt(AdtDef { did: did(index) }, args) }
}

fn names(ns: &[&str]) -> Vec<String> {
    ns.iter().map(|s| s.to_string()).collect()
}

#[test]
fn call_generic_arguments_come_from_the_substitution() {
    let mut subs = Substitutions::new();
    subs.insert_new(param(0, "T"), Ty::bool());
    subs.insert_new(param(1, "U"), Ty::char());
    let mut diags = Vec::new();
    let args = generic_call_args(&names(&["T", "U"]), &subs, &mut diags).unwrap();
    assert!(args[0].same(&Ty::bool()) && args[1].same(&Ty::char()));
    assert!(generic_call_args(&[], &subs, &mut diags).is_none());
    assert!(diags.is_empty());
    assert!(generic_call_args(&names(&["T", "W"]), &subs, &mut diags).is_none());
    assert!(matches!(diags.as_slice(), [TypeDiagnostic::UninferredParam(n)] if n == "W"));
}

#[test]
fn method_generic_arguments_must_resolve_to_types() {
    let mut subs = Substitutions::new();
    subs.insert_new(param(0, "T"), param_ty(0, "U"));
    subs.insert_new(param(0, "U"), Ty::uint(UintTy::U8));
    let args = method_generic_args(&names(&["T"]), &names(&["U"]), &subs).unwrap().unwrap();
    assert!(args[0].same(&Ty::uint(UintTy::U8)));
    assert!(args[1].same(&Ty::uint(UintTy::U8)));
    assert!(method_generic_args(&[], &[], &subs).unwrap().is_none());
    let err = method_generic_args(&names(&["T"]), &names(&["X"]), &subs).unwrap_err();
    assert_eq!(err.name, "X");
    assert!(!err.of_impl);
    let mut chained = Substitutions::new();
    chained.insert_new(param(0, "A"), param_ty(5, "Z"));
    let err = method_generic_args(&names(&["A"]), &[], &chained).unwrap_err();
    assert_eq!(err.name, "A");
    assert!(err.of_impl);
}

#[test]
fn output_arguments_of_generic_calls() {
    let callable = Ty {
        kind: TyKind::FnPtr(FnSig {
            inputs: vec![],
            output: Box::new(adt(3, vec![GenericArg::Lifetime(Region::ReStatic), GenericArg::Type(param_ty(0, "T"))])),
        }),
    };
    let mut subs = Substitutions::new();
    subs.insert_new(param(0, "T"), Ty::bool());
    let args = callable_output_args(&callable, &subs).unwrap();
    assert_eq!(args.len(), 1);
    assert!(args[0].same(&Ty::bool()));
    let plain = Ty { kind: TyKind::FnPtr(FnSig { inputs: vec![], output: Box::new(adt(3, vec![])) }) };
    assert!(callable_output_args(&plain, &subs).is_none());
    assert!(callable_output_args(&Ty::bool(), &subs).is_none());
}

#[test]
fn for_loops_bind_element_types() {
    let mut diags = Vec::new();
    let vec_def = Some(did(7));
    let vec_of_char = adt(7, vec![GenericArg::Type(Ty::char())]);
    assert!(for_loop_element_ty(&vec_of_char, vec_def, &mut diags).same(&Ty::char()));
    let by_ref = Ty { kind: TyKind::Ref(Region::ReErased, Box::new(Ty { kind: TyKind::Array(Box::new(Ty::bool()), u64_to_const_kind(2)) }), Mutability::Not) };
    assert!(for_loop_element_ty(&by_ref, vec_def, &mut diags).same(&Ty::bool()));
    assert!(diags.is_empty());
    assert!(for_loop_element_ty(&adt(7, vec![]), vec_def, &mut diags).same(&Ty::error()));
    assert!(for_loop_element_ty(&Ty::bool(), vec_def, &mut diags).same(&Ty::error()));
    assert!(matches!(diags[0], TypeDiagnostic::VecElementMissing));
    assert!(matches!(&diags[1], TypeDiagnostic::NotIterable(t) if t.same(&Ty::bool())));
}

#[test]
fn hash_map_from_has_a_known_signature() {
    let mut diags = Vec::new();
    let segs = names(&["HashMap", "from"]);
    let sig = collection_constructor_signature(&segs, Some(did(1)), Some(did(2)), &mut diags).unwrap();
    let k = param_ty(0, "K");
    let v = param_ty(1, "V");
    let entry = well_known_struct_ty(Some(did(2)), vec![GenericArg::Type(k.duplicate()), GenericArg::Type(v.duplicate())]).unwrap();
    let map = well_known_struct_ty(Some(did(1)), vec![GenericArg::Type(k), GenericArg::Type(v)]).unwrap();
    let expected = Ty {
        kind: TyKind::FnPtr(FnSig {
            inputs: vec![Box::new(Ty { kind: TyKind::Slice(Box::new(entry)) })],
            output: Box::new(map),
        }),
    };
    assert!(sig.same(&expected));
    assert!(diags.is_empty());
    assert!(collection_constructor_signature(&names(&["Vec", "from"]), None, None, &mut diags).is_none());
    let sig = collection_constructor_signature(&segs, Some(did(1)), None, &mut diags).unwrap();
    assert!(sig.same(&Ty::error()));
    assert!(matches!(&diags[0], TypeDiagnostic::StructNotDeclared(n) if n == "HashMapEntry"));
}

fn reference(inner: Ty) -> Ty {
    Ty { kind: TyKind::Ref(Region::ReErased, Box::new(inner), Mutability::Not) }
}

#[test]
fn impl_candidates_match_receivers() {
    let vec_of_bool = adt(7, vec![GenericArg::Type(Ty::bool())]);
    let generic_impl = adt(7, vec![GenericArg::Type(param_ty(0, "T"))]);
    let char_impl = adt(7, vec![GenericArg::Type(Ty::char())]);
    assert!(impl_matches_receiver(&reference(vec_of_bool.duplicate()), &generic_impl));
    assert!(!impl_matches_receiver(&vec_of_bool, &char_impl));
    assert!(!impl_matches_receiver(&vec_of_bool, &adt(8, vec![GenericArg::Type(Ty::bool())])));
    let slice_impl = Ty { kind: TyKind::Slice(Box::new(param_ty(0, "T"))) };
    let array = Ty { kind: TyKind::Array(Box::new(Ty::bool()), u64_to_const_kind(3)) };
    assert!(impl_matches_receiver(&array, &slice_impl));
    assert!(!impl_matches_receiver(&Ty::bool(), &slice_impl));
}

#[test]
fn receiver_fixes_self_in_a_signature() {
    let self_ty = adt(7, vec![GenericArg::Type(param_ty(0, "T"))]);
    let sig = Ty {
        kind: TyKind::FnPtr(FnSig {
            inputs: vec![Box::new(reference(self_ty)), Box::new(param_ty(1, "U"))],
            output: Box::new(param_ty(0, "T")),
        }),
    };
    let receiver = adt(7, vec![GenericArg::Type(Ty::char())]);
    let applied = apply_receiver(&sig, &receiver).unwrap();
    let expected = Ty {
        kind: TyKind::FnPtr(FnSig {
            inputs: vec![Box::new(reference(adt(7, vec![GenericArg::Type(Ty::char())]))), Box::new(param_ty(1, "U"))],
            output: Box::new(Ty::char()),
        }),
    };
    assert!(applied.same(&expected));
    assert!(apply_receiver(&sig, &Ty::bool()).is_none());
    let no_inputs = Ty { kind: TyKind::FnPtr(FnSig { inputs: vec![], output: Box::new(Ty::bool()) }) };
    assert!(apply_receiver(&no_inputs, &receiver).is_none());
}

#[test]
fn deref_follows_the_impl_target() {
    let boxed = adt(4, vec![GenericArg::Type(Ty::char())]);
    let impl_self = adt(4, vec![GenericArg::Type(param_ty(0, "T"))]);
    let target = param_ty(0, "T");
    assert!(deref_target_through(&boxed, &impl_self, &target).unwrap().same(&Ty::char()));
    assert!(deref_target_through(&Ty::bool(), &impl_self, &target).is_none());
    assert!(deref_target_through(&adt(5, vec![]), &impl_self, &target).is_none());
}

#[test]
fn variant_payloads_split_tuples() {
    let payload = Ty { kind: TyKind::Tuple(vec![Box::new(param_ty(0, "T")), Box::new(Ty::bool())]) };
    let parts = variant_payload(payload, &[GenericArg::Type(Ty::char())]);
    assert_eq!(parts.len(), 2);
    assert!(parts[0].same(&Ty::char()) && parts[1].same(&Ty::bool()));
    let parts = variant_payload(param_ty(0, "T"), &[GenericArg::Type(Ty::char())]);
    assert_eq!(parts.len(), 1);
    assert!(parts[0].same(&Ty::char()));
}
