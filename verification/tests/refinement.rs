use fp_typing::expr::{BinOp, Expr};
use fp_typing::refinement::decide::{try_decide, ConstVal};
use fp_typing::refinement::omega::{is_satisfiable, negate_rel, to_conjuncts, LinearConstraint, LinearTerm, Rel};
use fp_typing::refinement::{discharge, RefinementOutcome};

fn lit_int(v: i64) -> Expr {
    Expr::integer(v)
}

fn path(name: &str) -> Expr {
    Expr::path(name)
}

fn binop(op: BinOp, lhs: Expr, rhs: Expr) -> Expr {
    Expr::binary(op, lhs, rhs)
}

fn conj(exprs: Vec<Expr>) -> Vec<LinearConstraint> {
    exprs
        .iter()
        .flat_map(|e| to_conjuncts(e).unwrap())
        .collect()
}

#[test]
fn decides_literal_comparison() {
    let expr = binop(BinOp::Ge, lit_int(5), lit_int(0));
    assert_eq!(try_decide(&expr, &[]), Some(ConstVal::Bool(true)));
}

#[test]
fn decides_false_literal_comparison() {
    let expr = binop(BinOp::Ge, lit_int(-1), lit_int(0));
    assert_eq!(try_decide(&expr, &[]), Some(ConstVal::Bool(false)));
}

#[test]
fn returns_none_for_unbound_variable() {
    assert_eq!(try_decide(&path("x"), &[]), None);
}

#[test]
fn discharges_literal_value_against_literal_predicate() {
    let predicate = binop(BinOp::Ge, path("x"), lit_int(0));
    let value = lit_int(5);
    assert_eq!(
        discharge("x", &predicate, &value, &[]),
        RefinementOutcome::ProvenTrue
    );
}

#[test]
fn rejects_violated_literal_predicate() {
    let predicate = binop(BinOp::Ge, path("x"), lit_int(0));
    let value = lit_int(-1);
    assert_eq!(
        discharge("x", &predicate, &value, &[]),
        RefinementOutcome::ProvenFalse
    );
}

#[test]
fn discharges_symbolic_value_from_hypothesis() {
    // A parameter `y` known (hypothesis) to be `>= 5` satisfies `x >= 0`
    // when coerced through `x := y`.
    let predicate = binop(BinOp::Ge, path("x"), lit_int(0));
    let value = path("y");
    let hypothesis = binop(BinOp::Ge, path("y"), lit_int(5));
    assert_eq!(
        discharge("x", &predicate, &value, &[hypothesis]),
        RefinementOutcome::ProvenTrue
    );
}

#[test]
fn rejects_symbolic_value_without_sufficient_hypothesis() {
    let predicate = binop(BinOp::Ge, path("x"), lit_int(0));
    let value = path("y");
    // No hypothesis at all about `y`: `y >= 0` cannot be proven.
    assert_eq!(
        discharge("x", &predicate, &value, &[]),
        RefinementOutcome::ProvenFalse
    );
}

#[test]
fn simple_range_is_satisfiable() {
    // x >= 0 && x <= 100
    let c1 = binop(BinOp::Ge, path("x"), lit_int(0));
    let c2 = binop(BinOp::Le, path("x"), lit_int(100));
    assert_eq!(is_satisfiable(&conj(vec![c1, c2])), Some(true));
}

#[test]
fn contradictory_range_is_unsatisfiable() {
    // x >= 5 && x <= 0
    let c1 = binop(BinOp::Ge, path("x"), lit_int(5));
    let c2 = binop(BinOp::Le, path("x"), lit_int(0));
    assert_eq!(is_satisfiable(&conj(vec![c1, c2])), Some(false));
}

#[test]
fn hypothesis_proves_goal() {
    // hyp: x >= 5 ; negated goal: x < 0. Unsatisfiable together, so
    // x >= 5 proves x >= 0.
    let hyp = binop(BinOp::Ge, path("x"), lit_int(5));
    let negated_goal = binop(BinOp::Lt, path("x"), lit_int(0));
    assert_eq!(is_satisfiable(&conj(vec![hyp, negated_goal])), Some(false));
}

#[test]
fn hypothesis_does_not_prove_unrelated_goal() {
    // hyp: x >= 5 ; negated goal: x < 100 (x >= 5 does not prove x >= 100).
    let hyp = binop(BinOp::Ge, path("x"), lit_int(5));
    let negated_goal = binop(BinOp::Lt, path("x"), lit_int(100));
    assert_eq!(is_satisfiable(&conj(vec![hyp, negated_goal])), Some(true));
}

use fp_typing::refinement::{discharge_refinement, RefinementError, RefinementHint};
use fp_typing::ty::{IntTy, Ty, UintTy};

fn hint(base: Ty, predicate: Expr) -> RefinementHint {
    RefinementHint { base, binder: "x".to_string(), predicate }
}

#[test]
fn unsigned_base_supplies_nonnegativity() {
    let pred = binop(BinOp::Ge, path("x"), lit_int(0));
    assert_eq!(discharge_refinement(&hint(Ty::uint(UintTy::U64), pred), &path("y")), Ok(()));
    let pred = binop(BinOp::Ge, path("x"), lit_int(0));
    assert_eq!(
        discharge_refinement(&hint(Ty::integer(IntTy::I64), pred), &path("y")),
        Err(RefinementError::Violated)
    );
}

#[test]
fn concrete_values_are_decided_exactly() {
    let pred = binop(BinOp::Gt, path("x"), lit_int(3));
    assert_eq!(discharge_refinement(&hint(Ty::integer(IntTy::I64), pred), &lit_int(5)), Ok(()));
    let pred = binop(BinOp::Gt, path("x"), lit_int(3));
    assert_eq!(
        discharge_refinement(&hint(Ty::integer(IntTy::I64), pred), &lit_int(1)),
        Err(RefinementError::Violated)
    );
}

#[test]
fn nonlinear_predicates_are_unsupported() {
    let pred = binop(BinOp::Ge, binop(BinOp::Mul, path("x"), path("x")), lit_int(0));
    assert_eq!(
        discharge_refinement(&hint(Ty::integer(IntTy::I64), pred), &path("y")),
        Err(RefinementError::Unsupported)
    );
}

#[test]
fn negating_a_relation_twice_gives_it_back() {
    for r in [Rel::Lt, Rel::Le, Rel::Gt, Rel::Ge, Rel::Eq, Rel::Ne] {
        assert_eq!(negate_rel(negate_rel(r)), r);
        assert_ne!(negate_rel(r), r);
    }
}

fn raw_constraint(coeffs: Vec<(&str, i128)>, constant: i128, rel: Rel) -> LinearConstraint {
    LinearConstraint {
        term: LinearTerm {
            coeffs: coeffs.into_iter().map(|(n, k)| (n.to_string(), k)).collect(),
            constant,
            denom: 1,
        },
        rel,
    }
}

#[test]
fn satisfiability_is_unknown_when_elimination_overflows() {
    let big: i128 = 1 << 100;
    let upper = raw_constraint(vec![("x", big), ("y", big)], 0, Rel::Le);
    let lower = raw_constraint(vec![("x", -big), ("y", big)], 0, Rel::Le);
    assert_eq!(is_satisfiable(&[upper, lower]), None);
}

#[test]
fn satisfiability_is_unknown_when_a_term_cannot_be_negated() {
    let c = raw_constraint(vec![("x", i128::MIN)], 0, Rel::Ne);
    assert_eq!(is_satisfiable(&[c]), None);
}

#[test]
fn satisfiability_without_overflow_is_decided() {
    let upper = raw_constraint(vec![("x", 3), ("y", 2)], -6, Rel::Le);
    let lower = raw_constraint(vec![("x", -1)], 1, Rel::Lt);
    assert_eq!(is_satisfiable(&[upper, lower]), Some(true));
}

#[test]
fn symbolic_division_is_not_decided() {
    // `x / 2 * 2 >= x` holds over the rationals but fails at 1 under
    // integer division: it is never reported as proven.
    let predicate = binop(
        BinOp::Ge,
        binop(BinOp::Mul, binop(BinOp::Div, path("x"), lit_int(2)), lit_int(2)),
        path("x"),
    );
    assert_eq!(discharge("x", &predicate, &path("y"), &[]), RefinementOutcome::Undecidable);
}

#[test]
fn exact_constant_division_is_linear() {
    let predicate = binop(BinOp::Ge, path("x"), binop(BinOp::Div, lit_int(6), lit_int(3)));
    let hypothesis = binop(BinOp::Ge, path("y"), lit_int(2));
    assert_eq!(
        discharge("x", &predicate, &path("y"), &[hypothesis]),
        RefinementOutcome::ProvenTrue
    );
}

#[test]
fn inexact_constant_division_is_not_decided() {
    let predicate = binop(BinOp::Ge, path("x"), binop(BinOp::Div, lit_int(7), lit_int(2)));
    let hypothesis = binop(BinOp::Ge, path("y"), lit_int(4));
    assert_eq!(
        discharge("x", &predicate, &path("y"), &[hypothesis]),
        RefinementOutcome::Undecidable
    );
}
