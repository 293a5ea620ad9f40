use fp_typing::ast::{AstFnTy, AstTy, AstTypeExpr, DecimalType, TypeInt, TypePrimitive};
use fp_typing::runtime_types::{
    builtin_type_bindings, infer_value_ty, materialize_type_with_hooks, materialized, resolve_type_binding_match,
    type_from_value, AstPath, AstValue, NameSet, PathPrefix, TypeBindingMatch, TypeMaterializeHooks, TypeTable,
};
use fp_typing::support::{default_extern_prelude, impl_self_ty_name, ImplSelfExpr};
use fp_typing::expr::{Path, PathSegment};

fn plain(segments: &[&str]) -> AstPath {
    AstPath { prefix: PathPrefix::Plain, segments: segments.iter().map(|s| s.to_string()).collect() }
}

#[test]
fn resolve_prefers_most_local_qualified_key() {
    let mut scope0 = TypeTable::new();
    scope0.insert("Vec".to_string(), AstTy::Primitive(TypePrimitive::Bool));
    let mut scope1 = TypeTable::new();
    scope1.insert(
        "std::collections::Vec".to_string(),
        AstTy::Primitive(TypePrimitive::Int(TypeInt::I64)),
    );

    let result = resolve_type_binding_match(
        &[scope0, scope1],
        &TypeTable::new(),
        &NameSet::new(),
        &plain(&["std", "collections", "Vec"]),
    );

    match result {
        TypeBindingMatch::Scoped { index, key, .. } => {
            assert_eq!(index, 1);
            assert_eq!(key, "std::collections::Vec");
        }
        other => panic!("expected scoped match, got {other:?}"),
    }
}

#[test]
fn resolve_falls_back_to_base_segment() {
    let mut globals = TypeTable::new();
    globals.insert("Vec".to_string(), AstTy::Primitive(TypePrimitive::Int(TypeInt::I32)));

    let result = resolve_type_binding_match(
        &[],
        &globals,
        &NameSet::new(),
        &plain(&["std", "collections", "Vec"]),
    );

    match result {
        TypeBindingMatch::Global { key, .. } => assert_eq!(key, "Vec"),
        other => panic!("expected global match, got {other:?}"),
    }
}

#[test]
fn resolve_reports_missing_import_by_qualified_key() {
    let mut imported = NameSet::new();
    imported.insert("crate::types::UserId".to_string());

    let result = resolve_type_binding_match(
        &[],
        &TypeTable::new(),
        &imported,
        &AstPath {
            prefix: PathPrefix::Crate,
            segments: vec!["types".to_string(), "UserId".to_string()],
        },
    );

    match result {
        TypeBindingMatch::MissingImported { name } => {
            assert_eq!(name, "crate::types::UserId")
        }
        other => panic!("expected missing import match, got {other:?}"),
    }
}

#[test]
fn unknown_and_empty_paths_are_missing() {
    let result = resolve_type_binding_match(&[], &TypeTable::new(), &NameSet::new(), &plain(&["Nope"]));
    assert!(matches!(result, TypeBindingMatch::Missing));
    let result = resolve_type_binding_match(&[], &builtin_type_bindings(), &NameSet::new(), &plain(&[]));
    assert!(matches!(result, TypeBindingMatch::Missing));
}

#[test]
fn builtin_names_resolve_globally() {
    let builtins = builtin_type_bindings();
    let result = resolve_type_binding_match(&[], &builtins, &NameSet::new(), &plain(&["usize"]));
    match result {
        TypeBindingMatch::Global { key, ty } => {
            assert_eq!(key, "usize");
            assert!(matches!(ty, AstTy::Primitive(TypePrimitive::Int(TypeInt::U64))));
        }
        other => panic!("expected global match, got {other:?}"),
    }
    assert!(matches!(builtins.get("String"), Some(AstTy::Primitive(TypePrimitive::String))));
    assert!(builtins.get("f64").is_none());
}

#[test]
fn later_binding_replaces_earlier() {
    let mut table = TypeTable::new();
    table.insert("T".to_string(), AstTy::Primitive(TypePrimitive::Bool));
    table.insert("T".to_string(), AstTy::Primitive(TypePrimitive::Char));
    assert!(matches!(table.get("T"), Some(AstTy::Primitive(TypePrimitive::Char))));
}

#[test]
fn extern_prelude_and_impl_names() {
    assert_eq!(default_extern_prelude(), vec!["std".to_string(), "core".to_string(), "alloc".to_string()]);
    let path = Path {
        segments: vec![
            PathSegment { name: "crate".to_string() },
            PathSegment { name: "Widget".to_string() },
        ],
    };
    assert_eq!(impl_self_ty_name(&ImplSelfExpr::Name(path)), Some("Widget".to_string()));
    assert_eq!(impl_self_ty_name(&ImplSelfExpr::Other), None);
    assert_eq!(impl_self_ty_name(&ImplSelfExpr::Name(Path { segments: vec![] })), None);
}

#[test]
fn values_have_their_types() {
    assert!(matches!(infer_value_ty(&AstValue::Int), Some(AstTy::Primitive(TypePrimitive::Int(TypeInt::I64)))));
    assert!(matches!(
        infer_value_ty(&AstValue::Decimal),
        Some(AstTy::Primitive(TypePrimitive::Decimal(DecimalType::F64)))
    ));
    assert!(matches!(infer_value_ty(&AstValue::Struct("Point".to_string())), Some(AstTy::Struct(n)) if n == "Point"));
    assert!(infer_value_ty(&AstValue::Unit).is_none());
    let f = AstFnTy {
        params: vec![AstTy::Primitive(TypePrimitive::Bool)],
        generics: vec!["T".to_string()],
        ret: None,
    };
    match infer_value_ty(&AstValue::Function(f)) {
        Some(AstTy::Function(sig)) => {
            assert_eq!(sig.params.len(), 1);
            assert_eq!(sig.generics, vec!["T".to_string()]);
            assert!(sig.ret.is_none());
        }
        other => panic!("expected a function type, got {other:?}"),
    }
}

#[test]
fn tuples_types_and_unknown_values() {
    let v = AstValue::Tuple(vec![AstValue::Bool, AstValue::Unit, AstValue::Other]);
    match type_from_value(&v) {
        AstTy::Tuple(items) => {
            assert_eq!(items.len(), 3);
            assert!(matches!(items[0], AstTy::Primitive(TypePrimitive::Bool)));
            assert!(matches!(items[1], AstTy::Unit));
            assert!(matches!(items[2], AstTy::Any));
        }
        other => panic!("expected a tuple type, got {other:?}"),
    }
    assert!(matches!(type_from_value(&AstValue::Type), AstTy::Type));
}

struct Answers {
    asked: Vec<String>,
}

impl TypeMaterializeHooks for Answers {
    fn resolve_name(&mut self, name: &AstPath) -> Option<AstTy> {
        self.asked.push(name.segments.join("::"));
        if name.segments.last().map(|s| s.as_str()) == Some("Known") {
            Some(AstTy::Primitive(TypePrimitive::Bool))
        } else {
            None
        }
    }

    fn eval_const_expr(&mut self, block: u32) -> Option<AstTy> {
        self.asked.push(format!("const {block}"));
        Some(AstTy::Unit)
    }
}

fn name_ty(segments: &[&str]) -> AstTy {
    AstTy::Expr(AstTypeExpr::Name(AstPath {
        prefix: PathPrefix::Plain,
        segments: segments.iter().map(|s| s.to_string()).collect(),
    }))
}

#[test]
fn names_and_const_blocks_are_materialized_through_the_hooks() {
    let mut hooks = Answers { asked: Vec::new() };
    let known = materialize_type_with_hooks(name_ty(&["m", "Known"]), &mut hooks);
    assert!(matches!(known, AstTy::Primitive(TypePrimitive::Bool)));
    let unknown = materialize_type_with_hooks(name_ty(&["Missing"]), &mut hooks);
    assert!(matches!(unknown, AstTy::Expr(AstTypeExpr::Name(_))));
    let block = materialize_type_with_hooks(AstTy::Expr(AstTypeExpr::ConstBlock(4)), &mut hooks);
    assert!(matches!(block, AstTy::Unit));
    let other = materialize_type_with_hooks(AstTy::Struct("Point".to_string()), &mut hooks);
    assert!(matches!(other, AstTy::Struct(ref n) if n == "Point"));
    let expr = materialize_type_with_hooks(AstTy::Expr(AstTypeExpr::Other), &mut hooks);
    assert!(matches!(expr, AstTy::Expr(AstTypeExpr::Other)));
    assert_eq!(hooks.asked, vec!["m::Known".to_string(), "Missing".to_string(), "const 4".to_string()]);
}

#[test]
fn answers_replace_only_hook_resolved_types() {
    let kept = materialized(AstTy::Any, Some(AstTy::Unit));
    assert!(matches!(kept, AstTy::Any));
    let replaced = materialized(name_ty(&["T"]), Some(AstTy::Unit));
    assert!(matches!(replaced, AstTy::Unit));
}
