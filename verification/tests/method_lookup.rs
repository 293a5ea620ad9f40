use fp_typing::generic_types::TypeDiagnostic;
use fp_typing::method_lookup::{
    ConstDecl,
    assoc_type_for_self, deref_target, method_declared_signature, method_declared_signature_at, method_output, method_output_at,
    ImplCandidate, MethodDecl, MethodLookupError,
};
use fp_typing::ty::{AdtDef, DefId, FloatTy, FnSig, GenericArg, Mutability, ParamTy, Region, Ty, TyKind, UintTy};

fn param_ty(index: u32, name: &str) -> Ty {
    Ty { kind: TyKind::Param(ParamTy { index, name: name.to_string() }) }
}

fn reference(inner: Ty) -> Ty {
    Ty { kind: TyKind::Ref(Region::ReErased, Box::new(inner), Mutability::Not) }
}

fn slice(inner: Ty) -> Ty {
    Ty { kind: TyKind::Slice(Box::new(inner)) }
}

fn fn_ptr(inputs: Vec<Ty>, output: Ty) -> Ty {
    Ty { kind: TyKind::FnPtr(FnSig { inputs: inputs.into_iter().map(Box::new).collect(), output: Box::new(output) }) }
}

fn adt(index: u32, args: Vec<Ty>) -> Ty {
    Ty {
        kind: TyKind::Adt(
            AdtDef { did: DefId { package: 0, index } },
            args.into_iter().map(GenericArg::Type).collect(),
        ),
    }
}

fn def(index: u32) -> DefId {
    DefId { package: 0, index }
}

fn method(index: u32, name: &str, signature: Ty) -> MethodDecl {
    MethodDecl { def_id: def(index), name: name.to_string(), signature, generics: Vec::new() }
}

/// `impl<T> Vec<T> { fn len(&self) -> usize }` and
/// `impl<T> Deref for Vec<T> { type Target = [T]; }`, then
/// `impl<T> [T] { fn first(&self) -> T }`, then a trait impl for a
/// struct whose trait has a default `describe`.
fn program() -> Vec<ImplCandidate> {
    let vec_t = adt(1, vec![param_ty(0, "T")]);
    vec![
        ImplCandidate {
            self_ty: vec_t.duplicate(),
            generics: vec!["T".to_string()],
            methods: vec![method(10, "len", fn_ptr(vec![reference(vec_t.duplicate())], Ty::uint(UintTy::Usize)))],
            assoc_consts: Vec::new(),
            trait_defaults: Vec::new(),
            assoc_types: Vec::new(),
            deref_target: None,
        },
        ImplCandidate {
            self_ty: vec_t.duplicate(),
            generics: vec!["T".to_string()],
            methods: Vec::new(),
            assoc_consts: Vec::new(),
            trait_defaults: Vec::new(),
            assoc_types: vec![("Target".to_string(), slice(param_ty(0, "T")))],
            deref_target: Some(slice(param_ty(0, "T"))),
        },
        ImplCandidate {
            self_ty: slice(param_ty(0, "T")),
            generics: vec!["T".to_string()],
            methods: vec![method(11, "first", fn_ptr(vec![reference(slice(param_ty(0, "T")))], param_ty(0, "T")))],
            assoc_consts: Vec::new(),
            trait_defaults: Vec::new(),
            assoc_types: Vec::new(),
            deref_target: None,
        },
        ImplCandidate {
            self_ty: adt(2, vec![]),
            generics: Vec::new(),
            methods: vec![method(12, "next", fn_ptr(vec![reference(adt(2, vec![]))], Ty::bool()))],
            assoc_consts: Vec::new(),
            trait_defaults: vec![method(13, "describe", fn_ptr(vec![reference(adt(2, vec![]))], Ty::char()))],
            assoc_types: Vec::new(),
            deref_target: None,
        },
    ]
}

#[test]
fn inherent_method_resolves_with_impl_arguments() {
    let impls = program();
    let receiver = adt(1, vec![Ty::char()]);
    let mut diags = Vec::new();
    let found = method_output(&receiver, "len", &[reference(receiver.duplicate())], &impls, &mut diags).ok().unwrap();
    assert_eq!(found.def_id, def(10));
    assert!(found.output.same(&Ty::uint(UintTy::Usize)));
    let args = found.generic_args.unwrap();
    assert_eq!(args.len(), 1);
    assert!(args[0].same(&Ty::char()));
    assert!(diags.is_empty());
}

#[test]
fn methods_are_found_through_deref() {
    let impls = program();
    let receiver = adt(1, vec![Ty::char()]);
    assert!(deref_target(&receiver, &impls).unwrap().same(&slice(Ty::char())));
    assert!(deref_target(&Ty::bool(), &impls).is_none());
    let mut diags = Vec::new();
    assert!(method_output_at(&receiver, "first", &[reference(slice(Ty::char()))], &impls, &mut diags)
        .ok()
        .unwrap()
        .is_none());
    let found =
        method_output(&receiver, "first", &[reference(slice(Ty::char()))], &impls, &mut diags).ok().unwrap();
    assert_eq!(found.def_id, def(11));
    assert!(found.output.same(&Ty::char()));
    assert!(diags.is_empty());
}

#[test]
fn trait_default_methods_are_a_fallback() {
    let impls = program();
    let receiver = reference(adt(2, vec![]));
    let mut diags = Vec::new();
    let found = method_output(&receiver, "describe", &[receiver.duplicate()], &impls, &mut diags).ok().unwrap();
    assert_eq!(found.def_id, def(13));
    assert!(found.output.same(&Ty::char()));
    assert!(found.generic_args.is_none());
    let own = method_output(&receiver, "next", &[receiver.duplicate()], &impls, &mut diags).ok().unwrap();
    assert_eq!(own.def_id, def(12));
}

#[test]
fn missing_methods_and_bad_arguments_are_errors() {
    let impls = program();
    let mut diags = Vec::new();
    let missing = method_output(&adt(1, vec![Ty::char()]), "push", &[], &impls, &mut diags);
    assert!(matches!(missing, Err(MethodLookupError::NotFound)));
    let wrong = method_output(&adt(2, vec![]), "next", &[], &impls, &mut diags);
    assert!(matches!(wrong, Err(MethodLookupError::ArgumentsMismatch)));
    assert!(matches!(diags[0], TypeDiagnostic::ArgumentCount));
    let unresolved = method_output(&adt(1, vec![Ty::char()]), "first", &[Ty::bool()], &impls, &mut diags);
    assert!(matches!(unresolved, Err(MethodLookupError::Uninferred(u)) if u.name == "T" && u.of_impl));
}

#[test]
fn declared_signature_fixes_self_from_the_receiver() {
    let impls = program();
    let receiver = reference(adt(1, vec![Ty::char()]));
    let sig = method_declared_signature_at(&receiver, "len", &impls).unwrap();
    assert!(sig.same(&fn_ptr(vec![reference(adt(1, vec![Ty::char()]))], Ty::uint(UintTy::Usize))));
    assert!(method_declared_signature_at(&receiver, "first", &impls).is_none());
    let through = method_declared_signature(&adt(1, vec![Ty::char()]), "first", &impls).unwrap();
    assert!(through.same(&fn_ptr(vec![reference(slice(Ty::char()))], Ty::char())));
    assert!(method_declared_signature(&Ty::bool(), "first", &impls).is_none());
}

#[test]
fn associated_types_come_from_a_matching_impl() {
    let mut impls = program();
    impls.push(ImplCandidate {
        self_ty: Ty::uint(UintTy::Usize),
        generics: Vec::new(),
        methods: Vec::new(),
        assoc_consts: Vec::new(),
        trait_defaults: Vec::new(),
        assoc_types: vec![("Output".to_string(), Ty::bool()), ("Output".to_string(), Ty::uint(UintTy::Usize))],
        deref_target: None,
    });
    let target = assoc_type_for_self(&adt(1, vec![Ty::char()]), "Target", &impls).unwrap();
    // The bound type is taken as the impl declares it.
    assert!(target.same(&slice(param_ty(0, "T"))));
    assert!(assoc_type_for_self(&adt(1, vec![Ty::char()]), "Item", &impls).is_none());
    assert!(assoc_type_for_self(&adt(2, vec![]), "Target", &impls).is_none());
    let output = assoc_type_for_self(&Ty::uint(UintTy::Usize), "Output", &impls).unwrap();
    assert!(output.same(&Ty::uint(UintTy::Usize)));
    assert!(assoc_type_for_self(&Ty::uint(UintTy::U8), "Output", &impls).is_none());
}

fn const_impl(self_ty: Ty, generics: Vec<String>, name: &str, ty: Ty) -> ImplCandidate {
    ImplCandidate {
        self_ty,
        generics,
        methods: Vec::new(),
        assoc_consts: vec![ConstDecl { def_id: def(31), name: name.to_string(), ty }],
        trait_defaults: Vec::new(),
        assoc_types: Vec::new(),
        deref_target: None,
    }
}

#[test]
fn associated_const_lookup_is_not_filtered_by_expected_value_type() {
    // `impl f128 { const INFINITY: f128 = 0.0; }`: the const is found from
    // the receiver and its name, whatever type is expected where it is used.
    let impls = vec![const_impl(Ty::float(FloatTy::F128), Vec::new(), "INFINITY", Ty::float(FloatTy::F128))];
    let found = method_declared_signature_at(&Ty::float(FloatTy::F128), "INFINITY", &impls);
    assert!(found.unwrap().same(&Ty::float(FloatTy::F128)));
    assert!(method_declared_signature_at(&Ty::float(FloatTy::F128), "NAN", &impls).is_none());
    assert!(method_declared_signature_at(&Ty::bool(), "INFINITY", &impls).is_none());
}

#[test]
fn associated_const_type_takes_the_receiver_arguments() {
    // `impl<T> Vec<T> { const FIRST: T }` at `Vec<u8>` gives `u8`.
    let impls = vec![const_impl(adt(1, vec![param_ty(0, "T")]), vec!["T".to_string()], "FIRST", param_ty(0, "T"))];
    let found = method_declared_signature_at(&adt(1, vec![Ty::uint(UintTy::U8)]), "FIRST", &impls);
    assert!(found.unwrap().same(&Ty::uint(UintTy::U8)));
}
