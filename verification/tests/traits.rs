use fp_typing::traits::{assoc_type_from_generic_param_bounds, trait_declares_assoc_type, ParamBound, TraitDecl};
use fp_typing::ty::{DefId, Ty, TyKind};

fn def(index: u32) -> DefId {
    DefId { package: 0, index }
}

fn trait_decl(index: u32, assoc: &[&str], supers: Vec<Option<DefId>>) -> TraitDecl {
    TraitDecl { id: def(index), assoc_types: assoc.iter().map(|s| s.to_string()).collect(), supertraits: supers }
}

/// `FnOnce` declares `Output`; `FnMut: FnOnce`; `Fn: FnMut`; `Loop: Loop2`,
/// `Loop2: Loop`, neither declaring anything.
fn traits() -> Vec<TraitDecl> {
    vec![
        trait_decl(1, &["Output"], vec![]),
        trait_decl(2, &[], vec![Some(def(1))]),
        trait_decl(3, &[], vec![None, Some(def(99)), Some(def(2))]),
        trait_decl(4, &[], vec![Some(def(5))]),
        trait_decl(5, &[], vec![Some(def(4)), Some(def(5))]),
    ]
}

#[test]
fn associated_types_are_found_through_supertraits() {
    let all = traits();
    assert!(trait_declares_assoc_type(&all[0], "Output", &all));
    assert!(trait_declares_assoc_type(&all[2], "Output", &all));
    assert!(!trait_declares_assoc_type(&all[2], "Item", &all));
}

#[test]
fn cyclic_supertraits_end_the_search() {
    let all = traits();
    assert!(!trait_declares_assoc_type(&all[3], "Output", &all));
    assert!(!trait_declares_assoc_type(&all[4], "Output", &all));
}

#[test]
fn projections_on_bound_parameters() {
    let all = traits();
    let bindings = vec![("Item".to_string(), Ty::char())];
    let bounds = vec![ParamBound::Other, ParamBound::FnPtr(Ty::bool()), ParamBound::Path(Some(def(3)))];
    let item = assoc_type_from_generic_param_bounds(&bindings, Some(&bounds), "Item", &all).unwrap();
    assert!(item.same(&Ty::char()));
    let output = assoc_type_from_generic_param_bounds(&bindings, Some(&bounds), "Output", &all).unwrap();
    assert!(output.same(&Ty::bool()));
    let trait_only = vec![ParamBound::Path(None), ParamBound::Path(Some(def(3)))];
    let placeholder = assoc_type_from_generic_param_bounds(&[], Some(&trait_only), "Output", &all).unwrap();
    assert!(matches!(&placeholder.kind, TyKind::Param(p) if p.index == u32::MAX && p.name == "Output"));
    assert!(assoc_type_from_generic_param_bounds(&[], Some(&trait_only), "Target", &all).is_none());
    assert!(assoc_type_from_generic_param_bounds(&bindings, None, "Output", &all).is_none());
    assert!(assoc_type_from_generic_param_bounds(&bindings, None, "Item", &all).is_some());
}
