use fp_typing::intrinsics::{
    high_level_op_result_ty, intrinsic_result_ty, IntrinsicError, IntrinsicKind, ResultTypeRule,
};
use fp_typing::ty::{FloatTy, IntTy, Ty, TyKind, UintTy};
use fp_typing::literals::{u64_to_const_kind, unit_ty};

fn native_string() -> Ty {
    Ty { kind: TyKind::Slice(Box::new(Ty::integer(IntTy::I8))) }
}

fn result(kind: IntrinsicKind, args: &[Ty]) -> (Ty, Vec<IntrinsicError>) {
    let mut diags = Vec::new();
    let t = intrinsic_result_ty(kind, args, None, None, &mut diags);
    (t, diags)
}

#[test]
fn simple_intrinsics_have_fixed_types() {
    assert!(result(IntrinsicKind::Println, &[]).0.same(&unit_ty()));
    assert!(result(IntrinsicKind::Panic, &[]).0.same(&Ty::never()));
    assert!(result(IntrinsicKind::Format, &[]).0.same(&native_string()));
    assert!(result(IntrinsicKind::Len, &[]).0.same(&Ty::uint(UintTy::Usize)));
    assert!(result(IntrinsicKind::SizeOf, &[Ty::bool()]).0.same(&Ty::uint(UintTy::U64)));
    assert!(result(IntrinsicKind::TimeNow, &[]).0.same(&Ty::float(FloatTy::F64)));
    assert!(result(IntrinsicKind::FsExists, &[]).0.same(&Ty::bool()));
    assert!(result(IntrinsicKind::BuildType, &[]).0.same(&Ty { kind: TyKind::Type }));
    assert!(result(IntrinsicKind::Sleep, &[]).1.is_empty());
}

#[test]
fn slice_intrinsic_takes_the_element_type() {
    let array = Ty { kind: TyKind::Array(Box::new(Ty::char()), u64_to_const_kind(3)) };
    let (t, diags) = result(IntrinsicKind::Slice, &[array]);
    assert!(t.same(&Ty { kind: TyKind::Slice(Box::new(Ty::char())) }));
    assert!(diags.is_empty());
    let (t, diags) = result(IntrinsicKind::Slice, &[Ty::bool()]);
    assert!(t.same(&Ty::error()));
    assert_eq!(diags, vec![IntrinsicError::SliceBaseNotSequence]);
    let (_, diags) = result(IntrinsicKind::Slice, &[]);
    assert_eq!(diags, vec![IntrinsicError::SliceWithoutBase]);
}

#[test]
fn join_and_spawn_follow_their_arguments() {
    let (t, _) = result(IntrinsicKind::Join, &[Ty::bool()]);
    assert!(t.same(&Ty::bool()));
    let (t, _) = result(IntrinsicKind::Join, &[Ty::bool(), Ty::char()]);
    assert!(t.same(&Ty { kind: TyKind::Tuple(vec![Box::new(Ty::bool()), Box::new(Ty::char())]) }));
    let (_, diags) = result(IntrinsicKind::Join, &[]);
    assert_eq!(diags, vec![IntrinsicError::JoinWithoutArgument]);
    let (t, _) = result(IntrinsicKind::Spawn, &[Ty::char()]);
    assert!(t.same(&Ty::char()));
    let (_, diags) = result(IntrinsicKind::Select, &[]);
    assert_eq!(diags, vec![IntrinsicError::MissingArgument(IntrinsicKind::Select)]);
    let (t, _) = result(IntrinsicKind::CatchUnwindResult, &[Ty::char()]);
    assert!(t.same(&Ty { kind: TyKind::Tuple(vec![Box::new(Ty::bool()), Box::new(Ty::char())]) }));
}

#[test]
fn reflection_intrinsics_need_their_descriptors() {
    let descriptor = Ty::uint(UintTy::U8);
    let mut diags = Vec::new();
    let t = intrinsic_result_ty(IntrinsicKind::TypeOf, &[], Some(&descriptor), None, &mut diags);
    assert!(t.same(&descriptor));
    let t = intrinsic_result_ty(IntrinsicKind::FieldType, &[], Some(&descriptor), None, &mut diags);
    assert!(t.same(&Ty::error()));
    assert_eq!(diags, vec![IntrinsicError::FieldTypeDescriptorUndeclared]);
}

#[test]
fn failing_intrinsics_are_recorded() {
    assert_eq!(result(IntrinsicKind::CompileError, &[]).1, vec![IntrinsicError::CompileErrorRequested]);
    assert_eq!(result(IntrinsicKind::VecType, &[]).1, vec![IntrinsicError::TypeValued]);
    assert_eq!(
        result(IntrinsicKind::Unsupported, &[]).1,
        vec![IntrinsicError::NoRule(IntrinsicKind::Unsupported)]
    );
}

#[test]
fn portable_ops_follow_their_rules() {
    let mut diags = Vec::new();
    let t = high_level_op_result_ty(ResultTypeRule::SameAsArg(1), &[Ty::bool(), Ty::char()], &mut diags);
    assert!(t.same(&Ty::char()));
    let t = high_level_op_result_ty(ResultTypeRule::SameAsArg(2), &[Ty::bool()], &mut diags);
    assert!(t.same(&Ty::error()));
    assert!(high_level_op_result_ty(ResultTypeRule::Never, &[], &mut diags).same(&Ty::never()));
    assert!(high_level_op_result_ty(ResultTypeRule::AlwaysBool, &[], &mut diags).same(&Ty::bool()));
    assert!(high_level_op_result_ty(ResultTypeRule::TargetNativeString, &[], &mut diags).same(&native_string()));
    high_level_op_result_ty(ResultTypeRule::NotStaticallyKnowable, &[], &mut diags);
    assert_eq!(diags, vec![IntrinsicError::MissingOperand(2), IntrinsicError::NotStaticallyKnowable]);
}
