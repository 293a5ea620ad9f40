use fp_typing::generic_types::TypeDiagnostic;
use fp_typing::paths::{
    builtin_path_ty, enum_type_args, path_type_args, path_written_type_args, variant_value_ty, GenericParamDecl,
    PathGenericArg,
};
use fp_typing::ty::{AdtDef, DefId, FnSig, GenericArg, IntTy, Mutability, ParamTy, Ty, TyKind};

fn param_ty(index: u32, name: &str) -> Ty {
    Ty { kind: TyKind::Param(ParamTy { index, name: name.to_string() }) }
}

fn arg_ty(a: &GenericArg) -> &Ty {
    match a {
        GenericArg::Type(t) => t,
        _ => panic!("expected a type argument"),
    }
}

fn decl(name: &str, default: Option<Ty>) -> GenericParamDecl {
    GenericParamDecl { name: name.to_string(), default }
}

#[test]
fn omitted_arguments_take_defaults_or_stay_parameters() {
    let declared = vec![decl("T", None), decl("A", Some(Ty::char())), decl("B", None)];
    let args = path_type_args(Some(vec![Ty::bool()]), &declared);
    assert_eq!(args.len(), 3);
    assert!(arg_ty(&args[0]).same(&Ty::bool()));
    assert!(arg_ty(&args[1]).same(&Ty::char()));
    assert!(arg_ty(&args[2]).same(&param_ty(2, "B")));
    let bare = path_type_args(None, &declared);
    assert_eq!(bare.len(), 3);
    assert!(arg_ty(&bare[0]).same(&param_ty(0, "T")));
    assert!(arg_ty(&bare[1]).same(&param_ty(1, "A")));
    let extra = path_type_args(Some(vec![Ty::bool(), Ty::bool(), Ty::bool(), Ty::char()]), &declared);
    assert_eq!(extra.len(), 4);
    assert!(arg_ty(&extra[3]).same(&Ty::char()));
}

#[test]
fn enum_paths_do_not_pad_explicit_arguments() {
    let names = vec!["T".to_string(), "E".to_string()];
    let explicit = enum_type_args(Some(vec![Ty::bool()]), &names);
    assert_eq!(explicit.len(), 1);
    let bare = enum_type_args(None, &names);
    assert_eq!(bare.len(), 2);
    assert!(arg_ty(&bare[1]).same(&param_ty(1, "E")));
}

#[test]
fn variant_paths_are_values_or_constructors() {
    let enum_ty = Ty { kind: TyKind::Adt(AdtDef { did: DefId { package: 1, index: 2 } }, Vec::new()) };
    assert!(variant_value_ty(enum_ty.duplicate(), None).same(&enum_ty));
    let pair = Ty { kind: TyKind::Tuple(vec![Box::new(Ty::bool()), Box::new(Ty::char())]) };
    let ctor = variant_value_ty(enum_ty.duplicate(), Some(pair));
    let expected = Ty {
        kind: TyKind::FnPtr(FnSig {
            inputs: vec![Box::new(Ty::bool()), Box::new(Ty::char())],
            output: Box::new(enum_ty.duplicate()),
        }),
    };
    assert!(ctor.same(&expected));
    let single = variant_value_ty(enum_ty.duplicate(), Some(Ty::char()));
    let expected = Ty { kind: TyKind::FnPtr(FnSig { inputs: vec![Box::new(Ty::char())], output: Box::new(enum_ty) }) };
    assert!(single.same(&expected));
}

#[test]
fn void_and_null_name_builtin_types() {
    let unit = builtin_path_ty(&["void".to_string()]).unwrap();
    assert!(matches!(&unit.kind, TyKind::Tuple(items) if items.is_empty()));
    let null = builtin_path_ty(&["null".to_string()]).unwrap();
    assert!(matches!(&null.kind, TyKind::RawPtr(tm) if tm.mutbl == Mutability::Not && tm.ty.same(&Ty::integer(IntTy::I8))));
    assert!(builtin_path_ty(&["Vec".to_string()]).is_none());
    assert!(builtin_path_ty(&["std".to_string(), "void".to_string()]).is_none());
}

#[test]
fn lifetime_arguments_do_not_shift_nominal_type_arguments() {
    // `Wrapper<'a, i32>` for `struct Wrapper<T>`.
    let mut diags = Vec::new();
    let written = path_written_type_args(&[PathGenericArg::Lifetime, PathGenericArg::Type(Ty::integer(IntTy::I32))], &mut diags);
    let args = path_type_args(Some(written), &[decl("T", None)]);
    assert_eq!(args.len(), 1, "erased lifetimes must not occupy ADT arg slots");
    assert!(arg_ty(&args[0]).same(&Ty::integer(IntTy::I32)));
    assert!(diags.is_empty());
}

#[test]
fn const_arguments_are_errors() {
    let mut diags = Vec::new();
    let written = path_written_type_args(&[PathGenericArg::Const, PathGenericArg::Type(Ty::bool())], &mut diags);
    assert_eq!(written.len(), 2);
    assert!(matches!(written[0].kind, TyKind::Error));
    assert!(written[1].same(&Ty::bool()));
    assert!(matches!(diags[0], TypeDiagnostic::ConstGenericArgument));
}
