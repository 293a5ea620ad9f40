use fp_typing::expr::{BinOp, Lit, UnOp};
use fp_typing::expr_rules::{
    array_expr_ty, array_repeat_expr_ty, assign_expr_ty, binary_expr_ty, call_arg_ty, call_expr_ty,
    closure_param_ty, closure_ty, expected_input_ty, if_expr_ty, index_expr_ty, let_expr_ty,
    local_binding_ty, match_expr_ty, reference_expr_ty, slice_expr_ty, struct_literal_ty, try_expr_ty,
    unary_expr_ty, while_expr_ty, ClosureParam, FieldTys, IndexTyping, InitForm, LocalInit, Operand,
};
use fp_typing::generic_types::TypeDiagnostic;
use fp_typing::literals::literal_ty;
use fp_typing::ty::{
    AdtDef, ConstKind, DefId, FnSig, GenericArg, IntTy, Mutability, ParamTy, Region, ScalarInt, Ty, TyKind,
    UintTy,
};

fn operand(int_literal: bool, ty: Ty) -> Operand {
    Operand { int_literal, ty }
}

fn param_ty(index: u32, name: &str) -> Ty {
    Ty { kind: TyKind::Param(ParamTy { index, name: name.to_string() }) }
}

fn reference(inner: Ty, m: Mutability) -> Ty {
    Ty { kind: TyKind::Ref(Region::ReErased, Box::new(inner), m) }
}

fn i32_ty() -> Ty {
    Ty::integer(IntTy::I32)
}

fn usize_ty() -> Ty {
    Ty::uint(UintTy::Usize)
}

fn array(inner: Ty, len: u128) -> Ty {
    Ty { kind: TyKind::Array(Box::new(inner), ConstKind::Value(ScalarInt { data: len, size: 8 })) }
}

fn slice(inner: Ty) -> Ty {
    Ty { kind: TyKind::Slice(Box::new(inner)) }
}

fn fn_ptr(inputs: Vec<Ty>, output: Ty) -> Ty {
    Ty { kind: TyKind::FnPtr(FnSig { inputs: inputs.into_iter().map(Box::new).collect(), output: Box::new(output) }) }
}

fn adt(index: u32, args: Vec<Ty>) -> Ty {
    Ty {
        kind: TyKind::Adt(
            AdtDef { did: DefId { package: 0, index } },
            args.into_iter().map(GenericArg::Type).collect(),
        ),
    }
}

fn unit() -> Ty {
    Ty { kind: TyKind::Tuple(Vec::new()) }
}

#[test]
fn integer_literal_takes_the_other_operand_type() {
    let mut diags = Vec::new();
    let t = binary_expr_ty(BinOp::Add, operand(true, Ty::integer(IntTy::I64)), &operand(false, i32_ty()), &mut diags);
    assert!(t.same(&Ty::integer(IntTy::I64)));
    assert!(diags.is_empty());
    let t = binary_expr_ty(BinOp::Lt, operand(false, i32_ty()), &operand(true, Ty::integer(IntTy::I64)), &mut diags);
    assert!(t.same(&Ty::bool()));
    assert!(diags.is_empty());
}

#[test]
fn arithmetic_on_mismatched_operands_is_recorded() {
    let mut diags = Vec::new();
    let t = binary_expr_ty(BinOp::Mul, operand(false, i32_ty()), &operand(false, Ty::bool()), &mut diags);
    assert!(t.same(&i32_ty()));
    assert_eq!(diags.len(), 1);
    assert!(matches!(&diags[0], TypeDiagnostic::Mismatch(l, r) if l.same(&i32_ty()) && r.same(&Ty::bool())));
}

#[test]
fn logical_connectives_require_bools() {
    let mut diags = Vec::new();
    let t = binary_expr_ty(BinOp::And, operand(false, Ty::bool()), &operand(false, Ty::char()), &mut diags);
    assert!(t.same(&Ty::bool()));
    assert_eq!(diags.len(), 1);
    assert!(matches!(&diags[0], TypeDiagnostic::Mismatch(l, r) if l.same(&Ty::char()) && r.same(&Ty::bool())));
}

#[test]
fn comparison_through_a_reference_unifies() {
    let mut diags = Vec::new();
    let t = binary_expr_ty(
        BinOp::Eq,
        operand(false, reference(Ty { kind: TyKind::Str }, Mutability::Not)),
        &operand(false, Ty { kind: TyKind::Str }),
        &mut diags,
    );
    assert!(t.same(&Ty::bool()));
    assert!(diags.is_empty());
}

#[test]
fn unary_operators() {
    let mut diags = Vec::new();
    assert!(unary_expr_ty(UnOp::Not, Ty::bool(), &mut diags).same(&Ty::bool()));
    assert!(unary_expr_ty(UnOp::Deref, reference(Ty::char(), Mutability::Mut), &mut diags).same(&Ty::char()));
    assert!(unary_expr_ty(UnOp::Neg, i32_ty(), &mut diags).same(&i32_ty()));
    assert!(diags.is_empty());
    let t = unary_expr_ty(UnOp::Deref, i32_ty(), &mut diags);
    assert!(matches!(t.kind, TyKind::Error));
    assert!(matches!(diags[0], TypeDiagnostic::NotDereferenceable));
    unary_expr_ty(UnOp::Not, i32_ty(), &mut diags);
    assert_eq!(diags.len(), 2);
}

#[test]
fn borrowing_a_reference_reborrows() {
    let nested = reference(reference(Ty::char(), Mutability::Mut), Mutability::Not);
    let t = reference_expr_ty(&nested, Mutability::Not);
    assert!(t.same(&reference(Ty::char(), Mutability::Not)));
    let once = reference_expr_ty(&Ty::char(), Mutability::Mut);
    assert!(once.same(&reference(Ty::char(), Mutability::Mut)));
}

#[test]
fn indexing_arrays_slices_and_maps() {
    let map = AdtDef { did: DefId { package: 0, index: 9 } };
    let mut diags = Vec::new();
    match index_expr_ty(&reference(array(Ty::char(), 3), Mutability::Not), &usize_ty(), Some(map), &mut diags) {
        IndexTyping::Element(t) => assert!(t.same(&Ty::char())),
        IndexTyping::ThroughIndexMethod => panic!("arrays index directly"),
    }
    match index_expr_ty(&slice(Ty::bool()), &i32_ty(), Some(map), &mut diags) {
        IndexTyping::Element(t) => assert!(t.same(&Ty::bool())),
        IndexTyping::ThroughIndexMethod => panic!("slices index directly"),
    }
    assert_eq!(diags.len(), 1);
    let hash_map = adt(9, vec![Ty { kind: TyKind::Str }, i32_ty()]);
    match index_expr_ty(&hash_map, &Ty { kind: TyKind::Str }, Some(map), &mut diags) {
        IndexTyping::Element(t) => assert!(t.same(&i32_ty())),
        IndexTyping::ThroughIndexMethod => panic!("maps index directly"),
    }
    assert_eq!(diags.len(), 1);
    assert!(matches!(index_expr_ty(&adt(4, vec![]), &usize_ty(), Some(map), &mut diags), IndexTyping::ThroughIndexMethod));
    assert!(matches!(index_expr_ty(&hash_map, &usize_ty(), None, &mut diags), IndexTyping::ThroughIndexMethod));
    match index_expr_ty(&adt(9, vec![]), &usize_ty(), Some(map), &mut diags) {
        IndexTyping::Element(t) => assert!(matches!(t.kind, TyKind::Error)),
        IndexTyping::ThroughIndexMethod => panic!("a map without arguments is an error"),
    }
    assert!(matches!(diags[1], TypeDiagnostic::MapIndexArgsMissing));
    match index_expr_ty(&i32_ty(), &usize_ty(), Some(map), &mut diags) {
        IndexTyping::Element(t) => assert!(matches!(t.kind, TyKind::Error)),
        IndexTyping::ThroughIndexMethod => panic!("an integer is not indexable"),
    }
    assert!(matches!(diags[2], TypeDiagnostic::NotIndexable));
}

#[test]
fn slicing_gives_a_slice() {
    let mut diags = Vec::new();
    assert!(slice_expr_ty(array(Ty::char(), 4), &mut diags).same(&slice(Ty::char())));
    assert!(slice_expr_ty(slice(Ty::bool()), &mut diags).same(&slice(Ty::bool())));
    assert!(diags.is_empty());
    assert!(matches!(slice_expr_ty(Ty::bool(), &mut diags).kind, TyKind::Error));
    assert!(matches!(diags[0], TypeDiagnostic::NotSliceable));
}

#[test]
fn if_without_else_is_unit_and_branches_join() {
    let mut diags = Vec::new();
    assert!(if_expr_ty(&Ty::bool(), i32_ty(), None, &mut diags).same(&unit()));
    let joined = if_expr_ty(&Ty::bool(), adt(2, vec![param_ty(0, "T")]), Some(&adt(2, vec![Ty::char()])), &mut diags);
    assert!(joined.same(&adt(2, vec![Ty::char()])));
    assert!(diags.is_empty());
    let t = if_expr_ty(&i32_ty(), Ty::char(), Some(&Ty::bool()), &mut diags);
    assert!(t.same(&Ty::char()));
    assert_eq!(diags.len(), 2);
}

#[test]
fn match_arms_join_left_to_right() {
    let mut diags = Vec::new();
    let t = match_expr_ty(&[Ty::never(), Ty::char(), Ty::char()], &mut diags);
    assert!(t.same(&Ty::never()));
    let same = match_expr_ty(&[i32_ty(), i32_ty(), i32_ty()], &mut diags);
    assert!(same.same(&i32_ty()));
    assert!(diags.is_empty());
    let empty = match_expr_ty(&[], &mut diags);
    assert!(matches!(empty.kind, TyKind::Error));
    assert!(matches!(diags[0], TypeDiagnostic::NoMatchArms));
}

#[test]
fn array_literal_element_skips_integer_literals() {
    let mut diags = Vec::new();
    let t = array_expr_ty(&[operand(true, Ty::integer(IntTy::I64)), operand(false, Ty::uint(UintTy::U8))], &mut diags);
    assert!(t.same(&array(Ty::uint(UintTy::U8), 2)));
    assert!(diags.is_empty());
    let literals = vec![
        operand(true, Ty::integer(IntTy::I64)),
        operand(true, Ty::integer(IntTy::I64)),
        operand(true, Ty::integer(IntTy::I64)),
    ];
    let all_literals = array_expr_ty(&literals, &mut diags);
    assert!(all_literals.same(&array(Ty::integer(IntTy::I64), 3)));
    let mixed = array_expr_ty(&[operand(false, Ty::char()), operand(false, Ty::bool())], &mut diags);
    assert!(mixed.same(&array(Ty::char(), 2)));
    assert_eq!(diags.len(), 1);
    let empty = array_expr_ty(&[], &mut diags);
    assert!(matches!(empty.kind, TyKind::Error));
    assert!(matches!(diags[1], TypeDiagnostic::EmptyArray));
}

#[test]
fn array_repeat_length_from_literal() {
    assert!(array_repeat_expr_ty(Ty::char(), Some(5)).same(&array(Ty::char(), 5)));
    assert!(matches!(array_repeat_expr_ty(Ty::char(), None).kind, TyKind::Array(_, ConstKind::Infer)));
    assert!(matches!(array_repeat_expr_ty(Ty::char(), Some(-2)).kind, TyKind::Array(_, ConstKind::Infer)));
}

#[test]
fn assignment_unifies_like_an_argument() {
    let mut diags = Vec::new();
    let target = reference(Ty { kind: TyKind::Str }, Mutability::Not);
    let t = assign_expr_ty(target, &Ty { kind: TyKind::Str }, &mut diags);
    assert!(t.same(&reference(Ty { kind: TyKind::Str }, Mutability::Not)));
    assert!(diags.is_empty());
    assign_expr_ty(Ty::bool(), &Ty::char(), &mut diags);
    assert_eq!(diags.len(), 1);
}

#[test]
fn let_try_and_while_checks() {
    let mut diags = Vec::new();
    assert!(let_expr_ty(Ty::char(), Some(&Ty::char()), &mut diags).same(&Ty::char()));
    assert!(let_expr_ty(Ty::char(), None, &mut diags).same(&Ty::char()));
    assert!(diags.is_empty());
    let t = try_expr_ty(i32_ty(), &[i32_ty(), Ty::bool(), Ty::never()], Some(&Ty::char()), &mut diags);
    assert!(t.same(&i32_ty()));
    assert_eq!(diags.len(), 2);
    assert!(matches!(&diags[0], TypeDiagnostic::Mismatch(l, r) if l.same(&i32_ty()) && r.same(&Ty::bool())));
    assert!(matches!(&diags[1], TypeDiagnostic::Mismatch(_, r) if r.same(&Ty::char())));
    let w = while_expr_ty(&i32_ty(), unit(), &mut diags);
    assert!(w.same(&unit()));
    assert_eq!(diags.len(), 3);
}

#[test]
fn call_arguments_and_outputs() {
    let callee = fn_ptr(vec![Ty::uint(UintTy::U8), param_ty(0, "T")], param_ty(0, "T"));
    let expected = expected_input_ty(&callee, 0).unwrap();
    assert!(expected.same(&Ty::uint(UintTy::U8)));
    assert!(expected_input_ty(&callee, 2).is_none());
    assert!(expected_input_ty(&Ty::bool(), 0).is_none());
    let arg0 = call_arg_ty(Some(&expected), operand(true, Ty::integer(IntTy::I64)));
    assert!(arg0.same(&Ty::uint(UintTy::U8)));
    let kept = call_arg_ty(Some(&expected), operand(false, Ty::integer(IntTy::I64)));
    assert!(kept.same(&Ty::integer(IntTy::I64)));
    let mut diags = Vec::new();
    let (subs, out) = call_expr_ty(&callee, &[arg0, Ty::char()], None, &mut diags).unwrap();
    assert!(out.same(&Ty::char()));
    assert!(subs.get(&ParamTy { index: 0, name: "T".to_string() }).unwrap().same(&Ty::char()));
    assert!(diags.is_empty());
}

#[test]
fn generic_output_is_taken_from_the_expected_type() {
    let vec_new = fn_ptr(vec![], adt(3, vec![param_ty(0, "T")]));
    let mut diags = Vec::new();
    let (_, out) = call_expr_ty(&vec_new, &[], Some(&adt(3, vec![Ty::char()])), &mut diags).unwrap();
    assert!(out.same(&adt(3, vec![Ty::char()])));
    let (_, unhinted) = call_expr_ty(&vec_new, &[], None, &mut diags).unwrap();
    assert!(unhinted.same(&adt(3, vec![param_ty(0, "T")])));
    assert!(diags.is_empty());
}

#[test]
fn calling_a_non_function_is_an_error() {
    let mut diags = Vec::new();
    assert!(call_expr_ty(&Ty::bool(), &[], None, &mut diags).is_none());
    assert!(matches!(diags[0], TypeDiagnostic::NotCallable));
    assert!(call_expr_ty(&fn_ptr(vec![Ty::bool()], Ty::bool()), &[], None, &mut diags).is_none());
    assert!(matches!(diags[1], TypeDiagnostic::ArgumentCount));
    assert!(matches!(diags[2], TypeDiagnostic::NotCallable));
}

#[test]
fn struct_literal_fields_instantiate_the_struct() {
    let mut diags = Vec::new();
    let ty = adt(5, vec![param_ty(0, "T"), param_ty(1, "U")]);
    let fields = vec![
        FieldTys { declared: param_ty(0, "T"), value: Ty::char() },
        FieldTys { declared: slice(param_ty(1, "U")), value: slice(Ty::bool()) },
    ];
    let t = struct_literal_ty(&ty, &fields, &mut diags);
    assert!(t.same(&adt(5, vec![Ty::char(), Ty::bool()])));
    assert!(diags.is_empty());
    let bad = vec![FieldTys { declared: Ty::char(), value: Ty::bool() }];
    let t = struct_literal_ty(&adt(6, vec![]), &bad, &mut diags);
    assert!(t.same(&adt(6, vec![])));
    assert_eq!(diags.len(), 1);
}

#[test]
fn closure_parameters_come_from_annotation_hint_or_inference() {
    let hint = fn_ptr(vec![Ty::char()], Ty::bool());
    let annotated = ClosureParam { id: 1, declared: Some(i32_ty()) };
    let hinted = ClosureParam { id: 2, declared: None };
    assert!(closure_param_ty(&annotated, 0, Some(&hint)).same(&i32_ty()));
    assert!(closure_param_ty(&hinted, 0, Some(&hint)).same(&Ty::char()));
    assert!(matches!(closure_param_ty(&hinted, 1, Some(&hint)).kind, TyKind::Infer(2)));
    assert!(matches!(closure_param_ty(&hinted, 0, Some(&Ty::bool())).kind, TyKind::Infer(2)));
    assert!(matches!(closure_param_ty(&hinted, 0, None).kind, TyKind::Infer(2)));
    let t = closure_ty(&[Ty::char(), i32_ty()], Ty::bool());
    assert!(t.same(&fn_ptr(vec![Ty::char(), i32_ty()], Ty::bool())));
}

#[test]
fn local_bindings() {
    let mut diags = Vec::new();
    let int_lit = LocalInit { ty: Ty::integer(IntTy::I64), form: InitForm::IntegerLiteral };
    let t = local_binding_ty(Some(Ty::uint(UintTy::U16)), Some(int_lit), &mut diags).ok().unwrap();
    assert!(t.same(&Ty::uint(UintTy::U16)));
    let hole = Ty { kind: TyKind::Array(Box::new(i32_ty()), ConstKind::Infer) };
    let arr = LocalInit { ty: array(Ty::integer(IntTy::I64), 3), form: InitForm::ArrayLiteral };
    let t = local_binding_ty(Some(hole), Some(arr), &mut diags).ok().unwrap();
    assert!(t.same(&array(i32_ty(), 3)));
    let arr = LocalInit { ty: array(i32_ty(), 4), form: InitForm::ArrayLiteral };
    let err = local_binding_ty(Some(array(i32_ty(), 3)), Some(arr), &mut diags).err().unwrap();
    assert!(err.expected.same(&array(i32_ty(), 3)));
    assert!(err.found.same(&array(i32_ty(), 4)));
    let other = LocalInit { ty: Ty::char(), form: InitForm::Other };
    let err = local_binding_ty(Some(Ty::bool()), Some(other), &mut diags).err().unwrap();
    assert!(err.expected.same(&Ty::bool()) && err.found.same(&Ty::char()));
    assert_eq!(diags.len(), 1);
    let infer = LocalInit { ty: Ty::char(), form: InitForm::Other };
    let t = local_binding_ty(Some(Ty { kind: TyKind::Infer(7) }), Some(infer), &mut diags).ok().unwrap();
    assert!(t.same(&Ty::char()));
    assert!(local_binding_ty(Some(Ty::bool()), None, &mut diags).ok().unwrap().same(&Ty::bool()));
    let only_init = LocalInit { ty: Ty::char(), form: InitForm::Other };
    assert!(local_binding_ty(None, Some(only_init), &mut diags).ok().unwrap().same(&Ty::char()));
    let untyped = local_binding_ty(None, None, &mut diags).ok().unwrap();
    assert!(matches!(untyped.kind, TyKind::Error));
    assert!(matches!(diags.last().unwrap(), TypeDiagnostic::LocalUntyped));
}

#[test]
fn literal_pattern_types_feed_rules() {
    let mut diags = Vec::new();
    let lit = literal_ty(&Lit::Bool(true), None);
    let t = if_expr_ty(&lit, Ty::char(), Some(&Ty::char()), &mut diags);
    assert!(t.same(&Ty::char()));
    assert!(diags.is_empty());
}

#[test]
fn exact_annotation_binds_its_type() {
    let mut diags = Vec::new();
    for form in [InitForm::Other, InitForm::IntegerLiteral, InitForm::ArrayLiteral] {
        let init = LocalInit { ty: slice(Ty::char()), form };
        let t = local_binding_ty(Some(slice(Ty::char())), Some(init), &mut diags).ok().unwrap();
        assert!(t.same(&slice(Ty::char())));
        let exact_array = LocalInit { ty: array(i32_ty(), 2), form };
        let t = local_binding_ty(Some(array(i32_ty(), 2)), Some(exact_array), &mut diags).ok().unwrap();
        assert!(t.same(&array(i32_ty(), 2)));
    }
    assert!(diags.is_empty());
}

#[test]
fn non_generic_output_is_the_call_type() {
    let callee = fn_ptr(vec![param_ty(0, "T")], Ty::bool());
    let mut diags = Vec::new();
    let (_, out) = call_expr_ty(&callee, &[Ty::char()], Some(&i32_ty()), &mut diags).unwrap();
    assert!(out.same(&Ty::bool()));
    assert!(diags.is_empty());
}
