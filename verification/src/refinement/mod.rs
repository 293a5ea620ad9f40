//! Refinement-type checking: a refinement `{binder : base // predicate}`
//! (Lean 4's `Subtype` notation) is discharged at compile time by two
//! self-contained decision procedures modelled on Lean 4's own automation:
//! `decide` (exact evaluation of fully-concrete values) and `omega` (a
//! linear-arithmetic decision procedure for symbolic values). Predicates are
//! restricted to a decidable fragment so that every coercion is settled at
//! compile time, one way or the other, never by a runtime check.

pub mod bounds;
pub mod decide;
pub mod linear;
pub mod meaning;
pub mod omega;

use vstd::prelude::*;
use crate::expr::{BinOp, Expr, ExprKind, Lit, UnOp, path_name};
use crate::refinement::decide::{ConstVal, decide_traps, env_lookup, env_view, spec_decide, spec_eval_binop, try_decide};
use crate::refinement::linear::{
    Assignment, LinModel, add_fits, lemma_lin_add, lemma_lin_scale, lin_add, lin_constant, lin_num, lin_scale, lin_var,
    merge_fits, scale_coeffs, scale_fits, scale_ok, sign_of,
};
use crate::refinement::meaning::{
    all_hold, comparison_term, conj_of, expr_rat, expr_truth, is_model, lemma_conj_of_represents, lemma_lin_of_represents,
    lin_of, rel_holds, satisfiable,
};
use crate::refinement::omega::{
    LinearConstraint, LinearTerm, Rel, conj_fits, constraints_view, constraints_wf, decidable_within_i128, is_satisfiable,
    lin_fits, negate_rel, normalize, to_conjuncts,
};
use crate::ty::Ty;

verus! {

#[derive(Debug, Clone, Copy, PartialEq, Eq, Structural)]
pub enum RefinementOutcome {
    /// `decide` or `omega` proved the predicate holds.
    ProvenTrue,
    /// `decide` found a concrete violation, or `omega` found
    /// `hypotheses ∧ ¬predicate` satisfiable.
    ProvenFalse,
    /// The predicate or a hypothesis uses a construct outside the supported
    /// linear-arithmetic fragment, or exact arithmetic left the `i128` range.
    Undecidable,
}

/// `name >= 0`.
pub open spec fn is_nonnegative_fact(h: Expr, name: Seq<char>) -> bool {
    match h.kind {
        ExprKind::Binary(BinOp::Ge, lhs, rhs) => {
            &&& lhs.kind matches ExprKind::Path(p) && p.segments@.len() == 1 && path_name(p) == name
            &&& rhs.kind == ExprKind::Literal(Lit::Integer(0))
        },
        _ => false,
    }
}

/// Implicit facts that follow purely from `base`'s own representation:
/// an unsigned integer type's value is always `>= 0`. Path-sensitive
/// (branch-condition) hypotheses are deliberately not included.
pub fn implicit_hypotheses(base: &Ty, binder: &str) -> (hs: Vec<Expr>)
    ensures
        base.kind is Uint ==> hs@.len() == 1 && is_nonnegative_fact(hs@[0], binder@),
        !(base.kind is Uint) ==> hs@.len() == 0,
{
    let mut hs: Vec<Expr> = Vec::new();
    if base.is_uint() {
        let path = Expr::path(binder);
        let zero = Expr::integer(0);
        hs.push(Expr::binary(BinOp::Ge, path, zero));
    }
    hs
}

/// The fully-concrete evaluation of the predicate at the binder's value,
/// when the value itself evaluates to an integer.
pub open spec fn decide_fast(binder: Seq<char>, predicate: Expr, value: Expr) -> Option<ConstVal> {
    match spec_decide(value, Seq::empty()) {
        Some(ConstVal::Int(v)) => spec_decide(predicate, seq![(binder, v)]),
        _ => None,
    }
}

/// What a decided predicate value amounts to.
pub open spec fn decided_outcome(c: ConstVal) -> RefinementOutcome {
    match c {
        ConstVal::Bool(true) => RefinementOutcome::ProvenTrue,
        ConstVal::Bool(false) => RefinementOutcome::ProvenFalse,
        ConstVal::Int(_) => RefinementOutcome::Undecidable,
    }
}

/// Whether evaluating the value, and then the predicate at it, panics.
pub open spec fn discharge_traps(binder: Seq<char>, predicate: Expr, value: Expr) -> bool {
    decide_traps(value, Seq::empty()) || match spec_decide(value, Seq::empty()) {
        Some(ConstVal::Int(v)) => decide_traps(predicate, seq![(binder, v)]),
        _ => false,
    }
}

/// Whether every hypothesis, the predicate and the value are inside the
/// linear fragment (and within the `i128` range) that `omega` handles.
pub open spec fn omega_applies(predicate: Expr, value: Expr, hypotheses: Seq<Expr>) -> bool {
    &&& lin_of(value) is Some && lin_fits(value)
    &&& forall|i: int| 0 <= i < hypotheses.len() ==> conj_of(#[trigger] hypotheses[i]) is Some && conj_fits(hypotheses[i])
    &&& conj_of(predicate) is Some && conj_fits(predicate)
}

/// The predicate holds at every rational assignment where every hypothesis
/// holds and the binder equals the value.
pub open spec fn valid_under(binder: Seq<char>, predicate: Expr, value: Expr, hypotheses: Seq<Expr>) -> bool {
    forall|sigma: Assignment, d: int| #![trigger expr_truth(predicate, sigma, d)]
        d > 0
        && (forall|i: int| 0 <= i < hypotheses.len() ==> #[trigger] expr_truth(hypotheses[i], sigma, d) == Some(true))
        && binder_equals_value(binder, value, sigma, d)
        ==> expr_truth(predicate, sigma, d) == Some(true)
}

/// `binder` and `value` have the same rational value.
pub open spec fn binder_equals_value(binder: Seq<char>, value: Expr, sigma: Assignment, d: int) -> bool {
    match expr_rat(value, sigma, d) {
        Some((n, q)) => sigma(binder) * q == n * d,
        None => false,
    }
}

/// The constraint `binder - value = 0`.
pub open spec fn binding_constraint(binder: Seq<char>, value: LinModel) -> (LinModel, Rel) {
    (lin_add(lin_var(binder), lin_scale(value, -1, 1)), Rel::Eq)
}

/// Whether the constraint `binder - value = 0` can be formed within `i128`.
pub open spec fn binding_fits(binder: Seq<char>, value: LinModel) -> bool {
    scale_ok(value, -1, 1) && add_fits(lin_var(binder), lin_scale(value, -1, 1))
}

/// The question `omega` is asked for the goal conjunct `g`: the hypotheses'
/// constraints `hcs` with `binder = value` in front and `¬g` behind.
pub open spec fn omega_trial(binder: Seq<char>, value: LinModel, hcs: Seq<(LinModel, Rel)>, g: (LinModel, Rel)) -> Seq<(LinModel, Rel)> {
    (seq![binding_constraint(binder, value)] + hcs).push(negated(g))
}

/// Whether `omega` gives up on the question, the binding or one of its
/// trials leaving `i128`: the binding does not fit, or some goal conjunct's
/// trial cannot be decided within `i128` while every earlier one is decided
/// unsatisfiable.
pub open spec fn omega_undecided(binder: Seq<char>, predicate: Expr, value: Expr, hcs: Seq<(LinModel, Rel)>) -> bool {
    let vm = lin_of(value).unwrap();
    let gv = conj_of(predicate).unwrap();
    ||| !binding_fits(binder, vm)
    ||| exists|g: int| 0 <= g < gv.len() && !decidable_within_i128(#[trigger] omega_trial(binder, vm, hcs, gv[g]))
            && forall|j: int| 0 <= j < g ==> decidable_within_i128(#[trigger] omega_trial(binder, vm, hcs, gv[j]))
                && !satisfiable(omega_trial(binder, vm, hcs, gv[j]))
}

/// Discharges `hypotheses ⊢ predicate[binder := value_expr]`.
///
/// A fully-concrete value is evaluated exactly (`decide`); otherwise the
/// question goes to `omega`: for each conjunct `g` of the predicate, the
/// hypotheses together with `binder = value` and `¬g` must be
/// unsatisfiable.
pub fn discharge(binder: &str, predicate: &Expr, value_expr: &Expr, hypotheses: &[Expr]) -> (r: RefinementOutcome)
    requires
        !discharge_traps(binder@, *predicate, *value_expr),
    ensures
        decide_fast(binder@, *predicate, *value_expr) matches Some(c) ==> r == decided_outcome(c),
        decide_fast(binder@, *predicate, *value_expr) is None ==> {
            &&& !omega_applies(*predicate, *value_expr, hypotheses@) ==> r == RefinementOutcome::Undecidable
            &&& r == RefinementOutcome::ProvenTrue ==> valid_under(binder@, *predicate, *value_expr, hypotheses@)
            &&& r == RefinementOutcome::ProvenFalse ==> !valid_under(binder@, *predicate, *value_expr, hypotheses@)
            &&& omega_applies(*predicate, *value_expr, hypotheses@) ==> (r == RefinementOutcome::Undecidable
                <==> omega_undecided(binder@, *predicate, *value_expr, hyp_constraints(hypotheses@)))
        },
{
    // Fast path: a fully-concrete value, evaluated exactly.
    let empty: Vec<(String, i64)> = Vec::new();
    assert(env_view(empty@) =~= Seq::<(Seq<char>, i64)>::empty());
    match try_decide(value_expr, empty.as_slice()) {
        Some(ConstVal::Int(value)) => {
            let mut env: Vec<(String, i64)> = Vec::new();
            env.push((binder.to_owned(), value));
            assert(env_view(env@) =~= seq![(binder@, value)]);
            match try_decide(predicate, env.as_slice()) {
                Some(ConstVal::Bool(true)) => return RefinementOutcome::ProvenTrue,
                Some(ConstVal::Bool(false)) => return RefinementOutcome::ProvenFalse,
                Some(ConstVal::Int(_)) => return RefinementOutcome::Undecidable,
                None => {},
            }
        },
        _ => {},
    }
    assert(decide_fast(binder@, *predicate, *value_expr) is None);
    // Symbolic path: omega.
    let value_term = match normalize(value_expr) {
        Ok(t) => t,
        Err(_) => return RefinementOutcome::Undecidable,
    };
    let binder_term = LinearTerm::var(binder);
    let binding = match value_term.negate() {
        Some(nv) => match binder_term.add(&nv) {
            Some(t) => t,
            None => {
                assert(omega_applies(*predicate, *value_expr, hypotheses@) ==> omega_undecided(
                    binder@, *predicate, *value_expr, hyp_constraints(hypotheses@)));
                return RefinementOutcome::Undecidable;
            },
        },
        None => {
            assert(omega_applies(*predicate, *value_expr, hypotheses@) ==> omega_undecided(
                binder@, *predicate, *value_expr, hyp_constraints(hypotheses@)));
            return RefinementOutcome::Undecidable;
        },
    };
    assert(binding_fits(binder@, value_term@));
    let ghost bc = binding_constraint(binder@, value_term@);
    let mut base_constraints: Vec<LinearConstraint> = Vec::new();
    base_constraints.push(LinearConstraint { term: binding, rel: Rel::Eq });
    assert(constraints_view(base_constraints@) =~= seq![bc]);
    let mut h: usize = 0;
    while h < hypotheses.len()
        invariant
            h <= hypotheses@.len(),
            decide_fast(binder@, *predicate, *value_expr) is None,
            lin_of(*value_expr) is Some && lin_fits(*value_expr),
            lin_of(*value_expr) == Some(value_term@),
            constraints_wf(base_constraints@),
            constraints_view(base_constraints@) == seq![bc] + hyp_constraints(hypotheses@.take(h as int)),
            forall|i: int| 0 <= i < h ==> conj_of(#[trigger] hypotheses@[i]) is Some && conj_fits(hypotheses@[i]),
        decreases hypotheses@.len() - h,
    {
        let ghost before = base_constraints@;
        let mut cs = match to_conjuncts(&hypotheses[h]) {
            Ok(cs) => cs,
            Err(_) => return RefinementOutcome::Undecidable,
        };
        let ghost added = cs@;
        base_constraints.append(&mut cs);
        proof {
            assert(base_constraints@ == before + added);
            assert(constraints_view(base_constraints@) =~= constraints_view(before) + constraints_view(added));
            assert(hypotheses@.take(h + 1).drop_last() =~= hypotheses@.take(h as int));
            assert(hypotheses@.take(h + 1).last() == hypotheses@[h as int]);
            assert(hyp_constraints(hypotheses@.take(h + 1))
                == hyp_constraints(hypotheses@.take(h as int)) + conj_of(hypotheses@[h as int]).unwrap());
            assert forall|i: int| 0 <= i < base_constraints@.len() implies (#[trigger] base_constraints@[i]).term.wf() by {
                if i >= before.len() {
                    assert(base_constraints@[i] == added[i - before.len()]);
                } else {
                    assert(base_constraints@[i] == before[i]);
                }
            }
        }
        h += 1;
    }
    assert(hypotheses@.take(hypotheses@.len() as int) =~= hypotheses@);
    let goal = match to_conjuncts(predicate) {
        Ok(cs) => cs,
        Err(_) => return RefinementOutcome::Undecidable,
    };
    let ghost base = constraints_view(base_constraints@);
    let ghost gv = constraints_view(goal@);
    assert forall|j: int| 0 <= j < gv.len() implies #[trigger] omega_trial(binder@, value_term@, hyp_constraints(hypotheses@), gv[j])
        == base.push(negated(gv[j])) by {
    }
    // `hypotheses ∧ ¬(g1 ∧ ... ∧ gn)` is unsatisfiable iff every
    // `hypotheses ∧ ¬gi` is: each conjunct of the goal is checked on its own.
    let mut g: usize = 0;
    while g < goal.len()
        invariant
            g <= goal@.len(),
            decide_fast(binder@, *predicate, *value_expr) is None,
            omega_applies(*predicate, *value_expr, hypotheses@),
            constraints_wf(base_constraints@),
            constraints_wf(goal@),
            base == constraints_view(base_constraints@),
            gv == constraints_view(goal@),
            lin_of(*value_expr) == Some(value_term@),
            base == seq![bc] + hyp_constraints(hypotheses@),
            bc == binding_constraint(binder@, value_term@),
            conj_of(*predicate) == Some(gv),
            forall|j: int| 0 <= j < g ==> !satisfiable(#[trigger] base.push(negated(gv[j]))),
            binding_fits(binder@, value_term@),
            forall|j: int| 0 <= j < g ==> #[trigger] decidable_within_i128(base.push(negated(gv[j]))),
            forall|j: int| 0 <= j < gv.len() ==> #[trigger] omega_trial(binder@, value_term@, hyp_constraints(hypotheses@), gv[j])
                == base.push(negated(gv[j])),
        decreases goal@.len() - g,
    {
        let mut trial = copy_constraints(&base_constraints);
        assert(goal@[g as int].term.wf());
        let negated_goal = LinearConstraint { term: goal[g].term.duplicate(), rel: negate_rel(goal[g].rel) };
        let ghost before = trial@;
        trial.push(negated_goal);
        assert(constraints_view(trial@) =~= base.push(negated(gv[g as int])));
        assert(constraints_wf(trial@)) by {
            assert forall|i: int| 0 <= i < trial@.len() implies (#[trigger] trial@[i]).term.wf() by {
                if i < before.len() {
                    assert(trial@[i] == before[i]);
                }
            }
        }
        match is_satisfiable(trial.as_slice()) {
            Some(true) => {
                proof {
                    lemma_omega_refutes(binder@, *predicate, *value_expr, hypotheses@, value_term@, base, gv, g as int);
                    let hcs = hyp_constraints(hypotheses@);
                    let vm = value_term@;
                    if omega_undecided(binder@, *predicate, *value_expr, hcs) {
                        let k = choose|k: int| 0 <= k < gv.len() && !decidable_within_i128(#[trigger] omega_trial(binder@, vm, hcs, gv[k]))
                            && forall|j: int| 0 <= j < k ==> decidable_within_i128(#[trigger] omega_trial(binder@, vm, hcs, gv[j]))
                                && !satisfiable(omega_trial(binder@, vm, hcs, gv[j]));
                        if k > g {
                            assert(!satisfiable(omega_trial(binder@, vm, hcs, gv[g as int])));
                        } else if k < g {
                            assert(decidable_within_i128(base.push(negated(gv[k]))));
                        }
                    }
                }
                return RefinementOutcome::ProvenFalse;
            },
            Some(false) => {},
            None => {
                proof {
                    let hcs = hyp_constraints(hypotheses@);
                    let vm = value_term@;
                    assert(!decidable_within_i128(omega_trial(binder@, vm, hcs, gv[g as int])));
                    assert forall|j: int| 0 <= j < g implies decidable_within_i128(#[trigger] omega_trial(binder@, vm, hcs, gv[j]))
                        && !satisfiable(omega_trial(binder@, vm, hcs, gv[j])) by {
                        assert(decidable_within_i128(base.push(negated(gv[j]))));
                        assert(!satisfiable(base.push(negated(gv[j]))));
                    }
                }
                return RefinementOutcome::Undecidable;
            },
        }
        g += 1;
    }
    proof {
        lemma_omega_valid(binder@, *predicate, *value_expr, hypotheses@, value_term@, base, gv);
        let hcs = hyp_constraints(hypotheses@);
        let vm = value_term@;
        if omega_undecided(binder@, *predicate, *value_expr, hcs) {
            let k = choose|k: int| 0 <= k < gv.len() && !decidable_within_i128(#[trigger] omega_trial(binder@, vm, hcs, gv[k]))
                && forall|j: int| 0 <= j < k ==> decidable_within_i128(#[trigger] omega_trial(binder@, vm, hcs, gv[j]))
                    && !satisfiable(omega_trial(binder@, vm, hcs, gv[j]));
            assert(decidable_within_i128(base.push(negated(gv[k]))));
        }
    }
    RefinementOutcome::ProvenTrue
}

/// The constraints of all the hypotheses, in order.
pub open spec fn hyp_constraints(hs: Seq<Expr>) -> Seq<(LinModel, Rel)>
    decreases hs.len(),
{
    if hs.len() == 0 {
        Seq::empty()
    } else {
        hyp_constraints(hs.drop_last()) + match conj_of(hs.last()) {
            Some(cs) => cs,
            None => Seq::empty(),
        }
    }
}

/// A conjunct with its relation negated.
pub open spec fn negated(c: (LinModel, Rel)) -> (LinModel, Rel) {
    (c.0, crate::refinement::omega::spec_negate_rel(c.1))
}

fn copy_constraints(v: &Vec<LinearConstraint>) -> (r: Vec<LinearConstraint>)
    requires
        constraints_wf(v@),
    ensures
        constraints_view(r@) == constraints_view(v@),
        constraints_wf(r@),
{
    let mut r: Vec<LinearConstraint> = Vec::new();
    let mut i: usize = 0;
    while i < v.len()
        invariant
            i <= v@.len(),
            constraints_wf(v@),
            constraints_wf(r@),
            r@.len() == i,
            constraints_view(r@) == constraints_view(v@).subrange(0, i as int),
        decreases v@.len() - i,
    {
        assert(v@[i as int].term.wf());
        let c = LinearConstraint { term: v[i].term.duplicate(), rel: v[i].rel };
        let ghost old_r = r@;
        r.push(c);
        assert(r@ == old_r.push(c));
        assert(constraints_view(r@) =~= constraints_view(v@).subrange(0, i + 1));
        i += 1;
    }
    assert(constraints_view(v@).subrange(0, v@.len() as int) =~= constraints_view(v@));
    r
}

/// Under a model of the hypotheses' conjuncts, every hypothesis is true.
proof fn lemma_hyps_hold(hs: Seq<Expr>, sigma: Assignment, d: int)
    requires
        d > 0,
        forall|i: int| 0 <= i < hs.len() ==> conj_of(#[trigger] hs[i]) is Some,
    ensures
        all_hold(hyp_constraints(hs), sigma, d)
            <==> forall|i: int| 0 <= i < hs.len() ==> #[trigger] expr_truth(hs[i], sigma, d) == Some(true),
    decreases hs.len(),
{
    if hs.len() > 0 {
        let init = hs.drop_last();
        assert forall|i: int| 0 <= i < init.len() implies conj_of(#[trigger] init[i]) is Some by {
            assert(init[i] == hs[i]);
        }
        lemma_hyps_hold(init, sigma, d);
        let a = hyp_constraints(init);
        let b = conj_of(hs.last()).unwrap();
        assert(conj_of(hs[hs.len() - 1]) is Some);
        lemma_conj_of_represents(hs.last(), sigma, d);
        let ab = a + b;
        assert(all_hold(ab, sigma, d) == (all_hold(a, sigma, d) && all_hold(b, sigma, d))) by {
            if all_hold(a, sigma, d) && all_hold(b, sigma, d) {
                assert forall|i: int| 0 <= i < ab.len() implies #[trigger] rel_holds(ab[i].1, lin_num(ab[i].0, sigma, d)) by {
                    if i < a.len() {
                        assert(ab[i] == a[i]);
                    } else {
                        assert(ab[i] == b[i - a.len()]);
                    }
                }
            }
            if all_hold(ab, sigma, d) {
                assert forall|i: int| 0 <= i < a.len() implies #[trigger] rel_holds(a[i].1, lin_num(a[i].0, sigma, d)) by {
                    assert(ab[i] == a[i]);
                }
                assert forall|i: int| 0 <= i < b.len() implies #[trigger] rel_holds(b[i].1, lin_num(b[i].0, sigma, d)) by {
                    assert(ab[i + a.len()] == b[i]);
                }
            }
        }
        if forall|i: int| 0 <= i < hs.len() ==> #[trigger] expr_truth(hs[i], sigma, d) == Some(true) {
            assert forall|i: int| 0 <= i < init.len() implies #[trigger] expr_truth(init[i], sigma, d) == Some(true) by {
                assert(init[i] == hs[i]);
            }
            assert(expr_truth(hs[hs.len() - 1], sigma, d) == Some(true));
        }
        if all_hold(hyp_constraints(hs), sigma, d) {
            assert forall|i: int| 0 <= i < hs.len() implies #[trigger] expr_truth(hs[i], sigma, d) == Some(true) by {
                if i < init.len() {
                    assert(init[i] == hs[i]);
                }
            }
        }
    }
}

/// When every `base ∧ ¬g` is unsatisfiable, the predicate is valid under the
/// hypotheses and the binding.
proof fn lemma_omega_valid(
    binder: Seq<char>,
    predicate: Expr,
    value: Expr,
    hypotheses: Seq<Expr>,
    vm: LinModel,
    base: Seq<(LinModel, Rel)>,
    gv: Seq<(LinModel, Rel)>,
)
    requires
        lin_of(value) == Some(vm),
        forall|i: int| 0 <= i < hypotheses.len() ==> conj_of(#[trigger] hypotheses[i]) is Some,
        base == seq![binding_constraint(binder, vm)] + hyp_constraints(hypotheses),
        conj_of(predicate) == Some(gv),
        forall|j: int| 0 <= j < gv.len() ==> !satisfiable(#[trigger] base.push(negated(gv[j]))),
    ensures
        valid_under(binder, predicate, value, hypotheses),
{
    assert forall|sigma: Assignment, d: int| #![trigger expr_truth(predicate, sigma, d)]
        d > 0
        && (forall|i: int| 0 <= i < hypotheses.len() ==> #[trigger] expr_truth(hypotheses[i], sigma, d) == Some(true))
        && binder_equals_value(binder, value, sigma, d)
        implies expr_truth(predicate, sigma, d) == Some(true) by {
        lemma_hyps_hold(hypotheses, sigma, d);
        let hc = hyp_constraints(hypotheses);
        let bc = binding_constraint(binder, vm);
        // the binding constraint holds
        lemma_lin_of_represents(value, sigma, d);
        let (n, q) = expr_rat(value, sigma, d).unwrap();
        let vv = lin_num(vm, sigma, d);
        let nvm = lin_scale(vm, -1, 1);
        let bv = lin_var(binder);
        lemma_lin_scale(vm, -1, 1, sigma, d);
        lemma_lin_add(bv, nvm, sigma, d);
        assert(sign_of(1) == 1);
        assert(nvm.denom == vm.denom) by {
            assert(vm.denom * (1 * 1) == vm.denom) by (nonlinear_arith);
        }
        crate::refinement::linear::lemma_lin_var(binder, sigma, d);
        let bnum = lin_num(bc.0, sigma, d);
        assert(bnum == sigma(binder) * vm.denom + (-1 * 1) * vv * 1);
        // n * (vm.denom * d) == vv * q and sigma(binder) * q == n * d
        assert(bnum * q == 0) by (nonlinear_arith)
            requires
                bnum == sigma(binder) * vm.denom + (-1 * 1) * vv * 1,
                n * (vm.denom * d) == vv * q,
                sigma(binder) * q == n * d;
        assert(bnum == 0) by (nonlinear_arith) requires bnum * q == 0, q > 0;
        assert(all_hold(base, sigma, d)) by {
            assert forall|i: int| 0 <= i < base.len() implies #[trigger] rel_holds(base[i].1, lin_num(base[i].0, sigma, d)) by {
                if i == 0 {
                    assert(base[0] == bc);
                } else {
                    assert(base[i] == hc[i - 1]);
                }
            }
        }
        // every goal conjunct holds
        assert forall|j: int| 0 <= j < gv.len() implies #[trigger] rel_holds(gv[j].1, lin_num(gv[j].0, sigma, d)) by {
            let t = base.push(negated(gv[j]));
            if !rel_holds(gv[j].1, lin_num(gv[j].0, sigma, d)) {
                assert(all_hold(t, sigma, d)) by {
                    assert forall|i: int| 0 <= i < t.len() implies #[trigger] rel_holds(t[i].1, lin_num(t[i].0, sigma, d)) by {
                        if i < base.len() {
                            assert(t[i] == base[i]);
                        } else {
                            assert(t[i] == negated(gv[j]));
                            crate::refinement::omega::lemma_negate_rel(gv[j].1, lin_num(gv[j].0, sigma, d));
                        }
                    }
                }
                assert(is_model(t, sigma, d));
                assert(satisfiable(t));
            }
        }
        lemma_conj_of_represents(predicate, sigma, d);
    }
}

/// A model of the hypotheses, the binding and one negated goal conjunct is
/// a counterexample: the predicate is not valid.
proof fn lemma_omega_refutes(
    binder: Seq<char>,
    predicate: Expr,
    value: Expr,
    hypotheses: Seq<Expr>,
    vm: LinModel,
    base: Seq<(LinModel, Rel)>,
    gv: Seq<(LinModel, Rel)>,
    j: int,
)
    requires
        lin_of(value) == Some(vm),
        forall|i: int| 0 <= i < hypotheses.len() ==> conj_of(#[trigger] hypotheses[i]) is Some,
        base == seq![binding_constraint(binder, vm)] + hyp_constraints(hypotheses),
        conj_of(predicate) == Some(gv),
        0 <= j < gv.len(),
        satisfiable(base.push(negated(gv[j]))),
    ensures
        !valid_under(binder, predicate, value, hypotheses),
{
    let t = base.push(negated(gv[j]));
    let (sigma, d) = choose|sigma: Assignment, d: int| is_model(t, sigma, d);
    let hc = hyp_constraints(hypotheses);
    let bc = binding_constraint(binder, vm);
    assert(t[0] == bc);
    assert(rel_holds(t[0].1, lin_num(t[0].0, sigma, d)));
    // the hypotheses hold
    assert(all_hold(hc, sigma, d)) by {
        assert forall|i: int| 0 <= i < hc.len() implies #[trigger] rel_holds(hc[i].1, lin_num(hc[i].0, sigma, d)) by {
            assert(t[i + 1] == hc[i]);
            assert(rel_holds(t[i + 1].1, lin_num(t[i + 1].0, sigma, d)));
        }
    }
    lemma_hyps_hold(hypotheses, sigma, d);
    // the binder equals the value
    lemma_lin_of_represents(value, sigma, d);
    let (n, q) = expr_rat(value, sigma, d).unwrap();
    let vv = lin_num(vm, sigma, d);
    let nvm = lin_scale(vm, -1, 1);
    let bv = lin_var(binder);
    lemma_lin_scale(vm, -1, 1, sigma, d);
    lemma_lin_add(bv, nvm, sigma, d);
    assert(sign_of(1) == 1);
    assert(nvm.denom == vm.denom) by {
        assert(vm.denom * (1 * 1) == vm.denom) by (nonlinear_arith);
    }
    crate::refinement::linear::lemma_lin_var(binder, sigma, d);
    let bnum = lin_num(bc.0, sigma, d);
    let dm = vm.denom;
    let sb = sigma(binder);
    assert(bnum == sb * dm + (-1 * 1) * vv * 1);
    assert(bnum == 0);
    assert(sb * q == n * d) by (nonlinear_arith)
        requires
            sb * dm + (-1 * 1) * vv * 1 == 0,
            n * (dm * d) == vv * q,
            dm > 0;
    assert(binder_equals_value(binder, value, sigma, d));
    // the goal conjunct fails, so the predicate is not true
    assert(t[base.len() as int] == negated(gv[j]));
    assert(rel_holds(t[base.len() as int].1, lin_num(t[base.len() as int].0, sigma, d)));
    crate::refinement::omega::lemma_negate_rel(gv[j].1, lin_num(gv[j].0, sigma, d));
    assert(!rel_holds(gv[j].1, lin_num(gv[j].0, sigma, d)));
    assert(!all_hold(gv, sigma, d));
    lemma_conj_of_represents(predicate, sigma, d);
    assert(expr_truth(predicate, sigma, d) != Some(true));
}

// ---------------------------------------------------------------------
// Refinement hints.
// ---------------------------------------------------------------------

/// The refinement `{binder : base // predicate}` a position carries.
#[derive(Debug)]
pub struct RefinementHint {
    pub base: Ty,
    pub binder: String,
    pub predicate: Expr,
}

/// Why a value could not be shown to satisfy a refinement.
#[derive(Debug, Clone, Copy, PartialEq, Eq, Structural)]
pub enum RefinementError {
    /// The value violates the predicate.
    Violated,
    /// The predicate or the value lies outside the decidable fragment (or
    /// its arithmetic left the exact range).
    Unsupported,
}

/// What an outcome means for the value's coercion.
pub open spec fn verdict(o: RefinementOutcome) -> Result<(), RefinementError> {
    match o {
        RefinementOutcome::ProvenTrue => Ok(()),
        RefinementOutcome::ProvenFalse => Err(RefinementError::Violated),
        RefinementOutcome::Undecidable => Err(RefinementError::Unsupported),
    }
}

/// The predicate holds at every rational assignment where the binder
/// equals the value and, for an unsigned base type, is non-negative.
pub open spec fn valid_for_base(binder: Seq<char>, predicate: Expr, value: Expr, unsigned: bool) -> bool {
    forall|sigma: Assignment, d: int| #![trigger expr_truth(predicate, sigma, d)]
        d > 0 && (unsigned ==> sigma(binder) >= 0) && binder_equals_value(binder, value, sigma, d)
        ==> expr_truth(predicate, sigma, d) == Some(true)
}

proof fn lemma_nonnegative_fact(h: Expr, name: Seq<char>, sigma: Assignment, d: int)
    requires
        is_nonnegative_fact(h, name),
        d > 0,
    ensures
        expr_truth(h, sigma, d) == Some(sigma(name) >= 0),
{
    match h.kind {
        ExprKind::Binary(BinOp::Ge, lhs, rhs) => {
            let s = sigma(name);
            assert(expr_rat(*lhs, sigma, d) == Some((s, d)));
            assert(expr_rat(*rhs, sigma, d) == Some((0 * d, d)));
            assert((s * d - (0 * d) * d >= 0) == (s >= 0)) by (nonlinear_arith) requires d > 0;
        },
        _ => {},
    }
}

/// The constraints of the facts a base type implies of the binder:
/// `binder >= 0` for an unsigned type, none otherwise.
pub open spec fn base_facts(binder: Seq<char>, unsigned: bool) -> Seq<(LinModel, Rel)> {
    if unsigned {
        seq![(comparison_term(lin_var(binder), lin_constant(0)), Rel::Ge)]
    } else {
        Seq::empty()
    }
}

/// The implicit hypotheses of a base type lie in the linear fragment, add
/// exactly `base_facts` to the constraints, and leave whether `omega`
/// applies unchanged.
proof fn lemma_implicit_constraints(binder: Seq<char>, predicate: Expr, value: Expr, unsigned: bool, hs: Seq<Expr>)
    requires
        unsigned ==> hs.len() == 1 && is_nonnegative_fact(hs[0], binder),
        !unsigned ==> hs.len() == 0,
    ensures
        hyp_constraints(hs) == base_facts(binder, unsigned),
        omega_applies(predicate, value, hs) == omega_applies(predicate, value, Seq::empty()),
{
    if unsigned {
        let h = hs[0];
        match h.kind {
            ExprKind::Binary(BinOp::Ge, lhs, rhs) => {
                let a = lin_var(binder);
                let b = lin_constant(0);
                assert(lin_of(*lhs) == Some(a));
                assert(lin_of(*rhs) == Some(b));
                assert(conj_of(h) == Some(seq![(comparison_term(a, b), Rel::Ge)]));
                let nb = lin_scale(b, -1, 1);
                assert(sign_of(1) == 1);
                assert(scale_ok(b, -1, 1));
                assert(nb.coeffs =~= Seq::<(Seq<char>, int)>::empty());
                assert(nb.denom == 1);
                assert(scale_coeffs(nb.coeffs, a.denom) =~= Seq::<(Seq<char>, int)>::empty());
                assert(merge_fits(scale_coeffs(a.coeffs, nb.denom), scale_coeffs(nb.coeffs, a.denom)));
                assert(b.constant == 0);
                assert(nb.constant == 0) by (nonlinear_arith)
                    requires nb.constant == b.constant * (-1 * sign_of(1)), b.constant == 0;
                assert(a.coeffs[0].1 * nb.denom == 1);
                assert(scale_fits(a.coeffs, nb.denom));
                assert(scale_fits(nb.coeffs, a.denom));
                assert(a.constant * nb.denom == 0);
                assert(nb.constant * a.denom == 0);
                assert(a.denom * nb.denom == 1);
                assert(add_fits(a, nb));
                assert(conj_fits(h));
                assert(hs.drop_last() =~= Seq::<Expr>::empty());
                assert(hs.last() == h);
                assert(hyp_constraints(hs.drop_last()) == Seq::<(LinModel, Rel)>::empty());
                assert(hyp_constraints(hs) =~= base_facts(binder, unsigned));
            },
            _ => {},
        }
    } else {
        assert(hs =~= Seq::<Expr>::empty());
    }
}

/// Under the implicit hypotheses of a base type, validity is validity for
/// the base.
proof fn lemma_implicit_valid(binder: Seq<char>, predicate: Expr, value: Expr, unsigned: bool, hs: Seq<Expr>)
    requires
        unsigned ==> hs.len() == 1 && is_nonnegative_fact(hs[0], binder),
        !unsigned ==> hs.len() == 0,
    ensures
        valid_under(binder, predicate, value, hs) == valid_for_base(binder, predicate, value, unsigned),
{
    if valid_under(binder, predicate, value, hs) {
        assert forall|sigma: Assignment, d: int| #![trigger expr_truth(predicate, sigma, d)]
            d > 0 && (unsigned ==> sigma(binder) >= 0) && binder_equals_value(binder, value, sigma, d)
            implies expr_truth(predicate, sigma, d) == Some(true) by {
            if unsigned {
                lemma_nonnegative_fact(hs[0], binder, sigma, d);
            }
        }
    }
    if valid_for_base(binder, predicate, value, unsigned) {
        assert forall|sigma: Assignment, d: int| #![trigger expr_truth(predicate, sigma, d)]
            d > 0 && (forall|i: int| 0 <= i < hs.len() ==> #[trigger] expr_truth(hs[i], sigma, d) == Some(true))
            && binder_equals_value(binder, value, sigma, d)
            implies expr_truth(predicate, sigma, d) == Some(true) by {
            if unsigned {
                lemma_nonnegative_fact(hs[0], binder, sigma, d);
                assert(expr_truth(hs[0], sigma, d) == Some(true));
            }
        }
    }
}

/// Discharges a refinement against the value flowing into its position:
/// exact evaluation for a concrete value; otherwise `omega` under the
/// facts the base type implies (an unsigned binder is non-negative). A
/// success means the predicate holds for every such value; a violation
/// means it fails for some.
pub fn discharge_refinement(hint: &RefinementHint, value_expr: &Expr) -> (r: Result<(), RefinementError>)
    requires
        !discharge_traps(hint.binder@, hint.predicate, *value_expr),
    ensures
        decide_fast(hint.binder@, hint.predicate, *value_expr) matches Some(c) ==> r == verdict(decided_outcome(c)),
        decide_fast(hint.binder@, hint.predicate, *value_expr) is None ==> {
            &&& r is Ok ==> valid_for_base(hint.binder@, hint.predicate, *value_expr, hint.base.kind is Uint)
            &&& r == Err::<(), RefinementError>(RefinementError::Violated)
                ==> !valid_for_base(hint.binder@, hint.predicate, *value_expr, hint.base.kind is Uint)
            &&& !omega_applies(hint.predicate, *value_expr, Seq::empty())
                ==> r == Err::<(), RefinementError>(RefinementError::Unsupported)
            &&& omega_applies(hint.predicate, *value_expr, Seq::empty())
                ==> (r == Err::<(), RefinementError>(RefinementError::Unsupported) <==> omega_undecided(
                    hint.binder@, hint.predicate, *value_expr, base_facts(hint.binder@, hint.base.kind is Uint)))
        },
{
    let hypotheses = implicit_hypotheses(&hint.base, hint.binder.as_str());
    let outcome = discharge(hint.binder.as_str(), &hint.predicate, value_expr, hypotheses.as_slice());
    proof {
        lemma_implicit_valid(hint.binder@, hint.predicate, *value_expr, hint.base.kind is Uint, hypotheses@);
        lemma_implicit_constraints(hint.binder@, hint.predicate, *value_expr, hint.base.kind is Uint, hypotheses@);
    }
    match outcome {
        RefinementOutcome::ProvenTrue => Ok(()),
        RefinementOutcome::ProvenFalse => Err(RefinementError::Violated),
        RefinementOutcome::Undecidable => Err(RefinementError::Unsupported),
    }
}


// ---------------------------------------------------------------------
// Laws of exact evaluation.
// ---------------------------------------------------------------------

/// Whether no division or remainder occurs in `e` (exact evaluation
/// divides as integers, the meaning of a predicate as rationals).
pub open spec fn division_free(e: Expr) -> bool
    decreases e,
{
    match e.kind {
        ExprKind::Unary(_, inner) => division_free(*inner),
        ExprKind::Binary(op, lhs, rhs) => op != BinOp::Div && op != BinOp::Rem && division_free(*lhs)
            && division_free(*rhs),
        _ => true,
    }
}

/// `sigma` gives every name bound in `env` the value it has there.
pub open spec fn env_agrees(env: Seq<(Seq<char>, i64)>, sigma: Assignment) -> bool {
    forall|n: Seq<char>| #[trigger] env_lookup(env, n) is Some ==> sigma(n) == env_lookup(env, n)->Some_0 as int
}

/// A comparison of two integers evaluates to whether they compare so.
pub proof fn law_comparisons_evaluate_as_they_compare(op: BinOp, a: i64, b: i64)
    ensures
        op == BinOp::Eq ==> spec_eval_binop(op, ConstVal::Int(a), ConstVal::Int(b)) == Some(ConstVal::Bool(a == b)),
        op == BinOp::Ne ==> spec_eval_binop(op, ConstVal::Int(a), ConstVal::Int(b)) == Some(ConstVal::Bool(a != b)),
        op == BinOp::Lt ==> spec_eval_binop(op, ConstVal::Int(a), ConstVal::Int(b)) == Some(ConstVal::Bool(a < b)),
        op == BinOp::Le ==> spec_eval_binop(op, ConstVal::Int(a), ConstVal::Int(b)) == Some(ConstVal::Bool(a <= b)),
        op == BinOp::Gt ==> spec_eval_binop(op, ConstVal::Int(a), ConstVal::Int(b)) == Some(ConstVal::Bool(a > b)),
        op == BinOp::Ge ==> spec_eval_binop(op, ConstVal::Int(a), ConstVal::Int(b)) == Some(ConstVal::Bool(a >= b)),
{
}

/// Exact evaluation agrees with what an expression means: under an
/// assignment that gives each name its value in the environment, an
/// expression free of division that evaluates to an integer has that
/// rational value, and one that evaluates to a truth value has that truth,
/// wherever it has one as a conjunction of comparisons.
pub proof fn law_exact_evaluation_agrees_with_meaning(e: Expr, env: Seq<(Seq<char>, i64)>, sigma: Assignment)
    requires
        division_free(e),
        !decide_traps(e, env),
        env_agrees(env, sigma),
    ensures
        spec_decide(e, env) matches Some(ConstVal::Int(v)) ==> expr_rat(e, sigma, 1) == Some((v as int, 1int)),
        spec_decide(e, env) matches Some(ConstVal::Bool(b)) ==> expr_rat(e, sigma, 1) is None
            && (expr_truth(e, sigma, 1) is Some ==> expr_truth(e, sigma, 1) == Some(b)),
    decreases e,
{
    match e.kind {
        ExprKind::Literal(Lit::Integer(v)) => {
            assert(v as int * 1 == v as int);
        },
        ExprKind::Path(p) => {
            if p.segments@.len() > 0 && env_lookup(env, path_name(p)) is Some {
                assert(sigma(path_name(p)) == env_lookup(env, path_name(p))->Some_0 as int);
            }
        },
        ExprKind::Unary(UnOp::Neg, inner) => {
            law_exact_evaluation_agrees_with_meaning(*inner, env, sigma);
        },
        ExprKind::Unary(UnOp::Not, inner) => {
            law_exact_evaluation_agrees_with_meaning(*inner, env, sigma);
        },
        ExprKind::Binary(op, lhs, rhs) => {
            law_exact_evaluation_agrees_with_meaning(*lhs, env, sigma);
            if spec_decide(*lhs, env) is Some {
                law_exact_evaluation_agrees_with_meaning(*rhs, env, sigma);
            }
            match (spec_decide(*lhs, env), spec_decide(*rhs, env)) {
                (Some(ConstVal::Int(a)), Some(ConstVal::Int(b))) => {
                    let x = a as int;
                    let y = b as int;
                    assert(x * 1 + y * 1 == x + y);
                    assert(x * 1 - y * 1 == x - y);
                    assert(1int * 1 == 1);
                    law_comparisons_evaluate_as_they_compare(op, a, b);
                },
                _ => {},
            }
        },
        _ => {},
    }
}

/// The fast path of `discharge` decides a predicate free of division as
/// the predicate means: where it evaluates the predicate at the value to a
/// truth value, that truth is whether the predicate holds at an assignment
/// giving the binder that value (wherever the predicate has a truth there
/// as a conjunction of comparisons).
pub proof fn law_fast_path_agrees_with_meaning(
    binder: Seq<char>,
    predicate: Expr,
    value: Expr,
    v: i64,
    sigma: Assignment,
)
    requires
        division_free(predicate),
        !discharge_traps(binder, predicate, value),
        spec_decide(value, Seq::empty()) == Some(ConstVal::Int(v)),
        sigma(binder) == v as int,
        expr_truth(predicate, sigma, 1) is Some,
    ensures
        decide_fast(binder, predicate, value) matches Some(ConstVal::Bool(b))
            ==> b == (expr_truth(predicate, sigma, 1) == Some(true)),
{
    let env = seq![(binder, v)];
    assert forall|n: Seq<char>| #[trigger] env_lookup(env, n) is Some implies sigma(n) == env_lookup(env, n)->Some_0 as int by {
        assert(env.drop_last() =~= Seq::<(Seq<char>, i64)>::empty());
        assert(env.last() == (binder, v));
        if n != binder {
            assert(env_lookup(env, n) == env_lookup(env.drop_last(), n));
            assert(env_lookup(Seq::<(Seq<char>, i64)>::empty(), n) is None);
        }
    }
    law_exact_evaluation_agrees_with_meaning(predicate, env, sigma);
}


/// The connectives evaluate as logic: `&&`, `||`, `==` and `!=` on two
/// truth values, and `!` on one.
pub proof fn law_connectives_evaluate_as_logic(x: bool, y: bool)
    ensures
        spec_eval_binop(BinOp::And, ConstVal::Bool(x), ConstVal::Bool(y)) == Some(ConstVal::Bool(x && y)),
        spec_eval_binop(BinOp::Or, ConstVal::Bool(x), ConstVal::Bool(y)) == Some(ConstVal::Bool(x || y)),
        spec_eval_binop(BinOp::Eq, ConstVal::Bool(x), ConstVal::Bool(y)) == Some(ConstVal::Bool(x == y)),
        spec_eval_binop(BinOp::Ne, ConstVal::Bool(x), ConstVal::Bool(y)) == Some(ConstVal::Bool(x != y)),
        spec_decide(Expr { kind: ExprKind::Unary(UnOp::Not, Box::new(Expr { kind: ExprKind::Literal(Lit::Bool(x)) })) },
            Seq::empty()) == Some(ConstVal::Bool(!x)),
{
    let inner = Expr { kind: ExprKind::Literal(Lit::Bool(x)) };
    assert(spec_decide(inner, Seq::empty()) == Some(ConstVal::Bool(x)));
}

/// Integer division and remainder by a positive divisor evaluate as
/// Rust's: the quotient `q` and the remainder `r` make up the dividend
/// (`a == q * b + r`), and the remainder is smaller than the divisor in
/// size and is zero or has the dividend's sign; a zero divisor evaluates
/// to nothing.
pub proof fn law_division_evaluates_as_truncating(a: i64, b: i64)
    requires
        b >= 0,
    ensures
        b == 0 ==> spec_eval_binop(BinOp::Div, ConstVal::Int(a), ConstVal::Int(b)) is None
            && spec_eval_binop(BinOp::Rem, ConstVal::Int(a), ConstVal::Int(b)) is None,
        b > 0 ==> (spec_eval_binop(BinOp::Div, ConstVal::Int(a), ConstVal::Int(b)) matches Some(ConstVal::Int(q))
            && spec_eval_binop(BinOp::Rem, ConstVal::Int(a), ConstVal::Int(b)) matches Some(ConstVal::Int(r))
            && a as int == (q as int) * (b as int) + (r as int)
            && -(b as int) < (r as int) && (r as int) < (b as int)
            && (r == 0 || ((r < 0) == (a < 0)))),
{
    if b > 0 {
        let x = a as int;
        let y = b as int;
        let q = crate::refinement::decide::trunc_div(x, y);
        let r = crate::refinement::decide::trunc_rem(x, y);
        if x >= 0 {
            vstd::arithmetic::div_mod::lemma_fundamental_div_mod(x, y);
            vstd::arithmetic::div_mod::lemma_div_pos_is_pos(x, y);
            vstd::arithmetic::div_mod::lemma_div_nonincreasing(x, y);
            vstd::arithmetic::div_mod::lemma_mod_division_less_than_divisor(x, y);
            assert(x == q * y + r) by (nonlinear_arith) requires x == y * q + r;
        } else {
            vstd::arithmetic::div_mod::lemma_fundamental_div_mod(-x, y);
            vstd::arithmetic::div_mod::lemma_div_pos_is_pos(-x, y);
            vstd::arithmetic::div_mod::lemma_div_nonincreasing(-x, y);
            vstd::arithmetic::div_mod::lemma_mod_division_less_than_divisor(-x, y);
            assert(x == q * y + r) by (nonlinear_arith) requires -x == y * (-q) + (-r);
        }
    }
}

} // verus!
