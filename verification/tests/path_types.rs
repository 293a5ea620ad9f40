use fp_typing::generic_types::TypeDiagnostic;
use fp_typing::literals::unit_ty;
use fp_typing::path_types::{
    expr_path_ty, path_ty, AliasDecl, MemberDecl, PathContext, PathRes, PathTy, PathTyError, TypeItemDecl, TypePath,
    TypePathSegment, ValueContext, ValueItem,
};
use fp_typing::paths::GenericParamDecl;
use fp_typing::ty::{AdtDef, DefId, FnSig, GenericArg, IntTy, Mutability, ParamTy, Ty, TyKind, TypeAndMut, UintTy};

fn def(index: u32) -> DefId {
    DefId { package: 1, index }
}

fn seg(name: &str) -> TypePathSegment {
    TypePathSegment { name: name.to_string(), args: None }
}

fn seg_with(name: &str, args: Vec<Ty>) -> TypePathSegment {
    TypePathSegment { name: name.to_string(), args: Some(args) }
}

fn path(res: PathRes, segments: Vec<TypePathSegment>) -> TypePath {
    TypePath { res, segments }
}

fn param_ty(index: u32, name: &str) -> Ty {
    Ty { kind: TyKind::Param(ParamTy { index, name: name.to_string() }) }
}

fn adt(d: DefId, args: Vec<Ty>) -> Ty {
    Ty { kind: TyKind::Adt(AdtDef { did: d }, args.into_iter().map(GenericArg::Type).collect()) }
}

fn empty_context() -> PathContext {
    PathContext {
        self_type: None,
        assoc_types: None,
        generics: Vec::new(),
        alias_targets: Vec::new(),
        items: Vec::new(),
        const_blocks: Vec::new(),
    }
}

fn two_params() -> Vec<GenericParamDecl> {
    vec![
        GenericParamDecl { name: "T".to_string(), default: None },
        GenericParamDecl { name: "A".to_string(), default: Some(Ty::uint(UintTy::U8)) },
    ]
}

fn resolved(r: PathTy) -> Ty {
    match r {
        PathTy::Resolved(t) => t,
        other => panic!("expected a type, got {:?}", other),
    }
}

fn error(r: PathTy) -> PathTyError {
    match r {
        PathTy::Error(e) => e,
        other => panic!("expected an error, got {:?}", other),
    }
}

#[test]
fn primitive_name_as_last_segment_is_the_primitive() {
    let p = path(PathRes::Other, vec![seg("i32")]);
    assert!(resolved(path_ty(&p, &empty_context())).same(&Ty::integer(IntTy::I32)));
}

#[test]
fn self_type_and_its_associated_types() {
    let mut ctx = empty_context();
    let p = path(PathRes::SelfTy, vec![seg("Self")]);
    assert_eq!(error(path_ty(&p, &ctx)), PathTyError::SelfUnavailable);
    ctx.self_type = Some(adt(def(4), vec![]));
    ctx.assoc_types = Some(vec![("Target".to_string(), Ty::bool())]);
    assert!(resolved(path_ty(&p, &ctx)).same(&adt(def(4), vec![])));
    let target = path(PathRes::SelfTy, vec![seg("Self"), seg("Target")]);
    assert!(resolved(path_ty(&target, &ctx)).same(&Ty::bool()));
    let missing = path(PathRes::SelfTy, vec![seg("Self"), seg("Output")]);
    assert_eq!(error(path_ty(&missing, &ctx)), PathTyError::AssocTypeUndefined("Output".to_string()));
}

#[test]
fn unresolved_paths_name_builtins_or_projections() {
    let ctx = empty_context();
    assert!(resolved(path_ty(&path(PathRes::Other, vec![seg("void")]), &ctx)).same(&unit_ty()));
    let null = Ty {
        kind: TyKind::RawPtr(TypeAndMut { ty: Box::new(Ty::integer(IntTy::I8)), mutbl: Mutability::Not }),
    };
    assert!(resolved(path_ty(&path(PathRes::Other, vec![seg("null")]), &ctx)).same(&null));
    match path_ty(&path(PathRes::Other, vec![seg("usize"), seg("Output")]), &ctx) {
        PathTy::Projection { base, base_name, base_args, assoc } => {
            assert!(base.unwrap().same(&Ty::uint(UintTy::Usize)));
            assert_eq!(base_name, "usize");
            assert!(base_args.is_none());
            assert_eq!(assoc, "Output");
        },
        other => panic!("expected a projection, got {:?}", other),
    }
    match path_ty(&path(PathRes::Other, vec![seg("I"), seg("Item")]), &ctx) {
        PathTy::Projection { base, base_name, .. } => {
            assert!(base.is_none());
            assert_eq!(base_name, "I");
        },
        other => panic!("expected a projection, got {:?}", other),
    }
    assert_eq!(error(path_ty(&path(PathRes::Other, vec![seg("Missing")]), &ctx)), PathTyError::Unresolved);
}

#[test]
fn definitions_resolve_through_generics_aliases_and_items() {
    let mut ctx = empty_context();
    ctx.generics.push((def(1), param_ty(0, "T")));
    ctx.alias_targets.push((def(2), AliasDecl { params: Vec::new(), target: Ty::uint(UintTy::U32) }));
    ctx.items.push((def(3), TypeItemDecl::Struct(two_params())));
    ctx.items.push((def(5), TypeItemDecl::Other));
    assert!(resolved(path_ty(&path(PathRes::Def(def(1)), vec![seg("T")]), &ctx)).same(&param_ty(0, "T")));
    assert!(resolved(path_ty(&path(PathRes::Def(def(2)), vec![seg("Alias")]), &ctx)).same(&Ty::uint(UintTy::U32)));
    let explicit = path(PathRes::Def(def(3)), vec![seg_with("S", vec![Ty::bool()])]);
    assert!(resolved(path_ty(&explicit, &ctx)).same(&adt(def(3), vec![Ty::bool(), Ty::uint(UintTy::U8)])));
    let bare = path(PathRes::Def(def(3)), vec![seg("S")]);
    assert!(resolved(path_ty(&bare, &ctx)).same(&adt(def(3), vec![param_ty(0, "T"), param_ty(1, "A")])));
    assert_eq!(error(path_ty(&path(PathRes::Def(def(5)), vec![seg("f")]), &ctx)), PathTyError::NotAType);
    assert_eq!(error(path_ty(&path(PathRes::Def(def(9)), vec![seg("X")]), &ctx)), PathTyError::DefinitionNotFound);
}

#[test]
fn const_blocks_name_comptime_structs() {
    let mut ctx = empty_context();
    ctx.const_blocks.push((def(6), true));
    ctx.const_blocks.push((def(7), false));
    assert!(resolved(path_ty(&path(PathRes::Def(def(6)), vec![seg("X")]), &ctx)).same(&adt(def(6), vec![])));
    assert_eq!(error(path_ty(&path(PathRes::Def(def(7)), vec![seg("Y")]), &ctx)), PathTyError::ConstBlockNotAType);
}

fn value_context() -> ValueContext {
    let mut types = empty_context();
    types.items.push((def(3), TypeItemDecl::Struct(two_params())));
    ValueContext {
        locals: vec![("x".to_string(), Ty::bool())],
        items: vec![
            (def(3), ValueItem::TypeItem),
            (def(10), ValueItem::LiteralConst(Ty::integer(IntTy::I64))),
            (def(11), ValueItem::Const(None)),
            (def(12), ValueItem::Function(Ty::char())),
            (def(13), ValueItem::Other),
        ],
        members: vec![
            (def(20), MemberDecl::Method(Ty::uint(UintTy::U16))),
            (
                def(21),
                MemberDecl::Variant {
                    enum_def: def(30),
                    params: vec![GenericParamDecl { name: "T".to_string(), default: None }],
                    payload: Some(param_ty(0, "T")),
                },
            ),
            (
                def(22),
                MemberDecl::Variant {
                    enum_def: def(30),
                    params: vec![GenericParamDecl { name: "T".to_string(), default: None }],
                    payload: None,
                },
            ),
        ],
        types,
        map_def: None,
        map_entry_def: None,
    }
}

#[test]
fn value_paths_of_locals_items_and_members() {
    let ctx = value_context();
    let mut diags: Vec<TypeDiagnostic> = Vec::new();
    let local = path(PathRes::Local, vec![seg("x")]);
    assert!(resolved(expr_path_ty(&local, &ctx, &mut diags)).same(&Ty::bool()));
    let unknown_local = path(PathRes::Local, vec![seg("y")]);
    assert_eq!(error(expr_path_ty(&unknown_local, &ctx, &mut diags)), PathTyError::LocalUntyped);
    let strukt = path(PathRes::Def(def(3)), vec![seg_with("S", vec![Ty::bool()])]);
    assert!(resolved(expr_path_ty(&strukt, &ctx, &mut diags)).same(&adt(def(3), vec![Ty::bool(), Ty::uint(UintTy::U8)])));
    let konst = path(PathRes::Def(def(10)), vec![seg("N")]);
    assert!(resolved(expr_path_ty(&konst, &ctx, &mut diags)).same(&Ty::integer(IntTy::I64)));
    let unrecorded = path(PathRes::Def(def(11)), vec![seg("M")]);
    assert_eq!(error(expr_path_ty(&unrecorded, &ctx, &mut diags)), PathTyError::ConstTypeNotRecorded);
    let function = path(PathRes::Def(def(12)), vec![seg("f")]);
    assert!(resolved(expr_path_ty(&function, &ctx, &mut diags)).same(&Ty::char()));
    let not_value = path(PathRes::Def(def(13)), vec![seg("m")]);
    assert_eq!(error(expr_path_ty(&not_value, &ctx, &mut diags)), PathTyError::NotAValue);
    let method = path(PathRes::Def(def(20)), vec![seg("S"), seg("m")]);
    assert!(resolved(expr_path_ty(&method, &ctx, &mut diags)).same(&Ty::uint(UintTy::U16)));
    let missing = path(PathRes::Def(def(40)), vec![seg("z")]);
    assert_eq!(error(expr_path_ty(&missing, &ctx, &mut diags)), PathTyError::ValueNotFound);
    assert!(diags.is_empty());
}

#[test]
fn value_paths_to_variants_give_the_enum_or_its_constructor() {
    let ctx = value_context();
    let mut diags: Vec<TypeDiagnostic> = Vec::new();
    let some = path(PathRes::Def(def(21)), vec![seg_with("Option", vec![Ty::bool()]), seg("Some")]);
    let ctor = Ty {
        kind: TyKind::FnPtr(FnSig {
            inputs: vec![Box::new(param_ty(0, "T"))],
            output: Box::new(adt(def(30), vec![Ty::bool()])),
        }),
    };
    assert!(resolved(expr_path_ty(&some, &ctx, &mut diags)).same(&ctor));
    let none = path(PathRes::Def(def(22)), vec![seg("Option"), seg("None")]);
    assert!(resolved(expr_path_ty(&none, &ctx, &mut diags)).same(&adt(def(30), vec![param_ty(0, "T")])));
}

#[test]
fn unresolved_value_path_without_constructor_is_unresolved() {
    let ctx = value_context();
    let mut diags: Vec<TypeDiagnostic> = Vec::new();
    let p = path(PathRes::Other, vec![seg("HashMap"), seg("from")]);
    assert!(resolved(expr_path_ty(&p, &ctx, &mut diags)).same(&Ty::error()));
    assert_eq!(diags.len(), 1);
    let q = path(PathRes::Other, vec![seg("nothing")]);
    assert_eq!(error(expr_path_ty(&q, &ctx, &mut diags)), PathTyError::UnresolvedValue);
    assert_eq!(diags.len(), 1);
}

#[test]
fn generic_type_alias_is_checked_and_substituted() {
    // `type Alias<T> = T;` named as `Alias<i64>` is `i64`.
    let mut ctx = empty_context();
    ctx.alias_targets.push((
        def(1),
        AliasDecl { params: vec![GenericParamDecl { name: "T".to_string(), default: None }], target: param_ty(0, "T") },
    ));
    let p = path(PathRes::Def(def(1)), vec![seg_with("Alias", vec![Ty::integer(IntTy::I64)])]);
    assert!(resolved(path_ty(&p, &ctx)).same(&Ty::integer(IntTy::I64)));
}

#[test]
fn generic_alias_arguments_reach_inside_its_target() {
    // `type Pair<A, B = u8> = (S<A>, B);` named as `Pair<bool>`.
    let mut ctx = empty_context();
    let target = Ty {
        kind: TyKind::Tuple(vec![Box::new(adt(def(3), vec![param_ty(0, "A")])), Box::new(param_ty(1, "B"))]),
    };
    ctx.alias_targets.push((
        def(2),
        AliasDecl {
            params: vec![
                GenericParamDecl { name: "A".to_string(), default: None },
                GenericParamDecl { name: "B".to_string(), default: Some(Ty::uint(UintTy::U8)) },
            ],
            target,
        },
    ));
    let p = path(PathRes::Def(def(2)), vec![seg_with("Pair", vec![Ty::bool()])]);
    let expected = Ty {
        kind: TyKind::Tuple(vec![Box::new(adt(def(3), vec![Ty::bool()])), Box::new(Ty::uint(UintTy::U8))]),
    };
    assert!(resolved(path_ty(&p, &ctx)).same(&expected));
    let bare = path(PathRes::Def(def(2)), vec![seg("Pair")]);
    let unchanged = Ty {
        kind: TyKind::Tuple(vec![Box::new(adt(def(3), vec![param_ty(0, "A")])), Box::new(param_ty(1, "B"))]),
    };
    assert!(resolved(path_ty(&bare, &ctx)).same(&unchanged));
}
