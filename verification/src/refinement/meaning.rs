//! What refinement predicates mean, and the proof that the linear forms the
//! decision procedure computes from them mean the same thing.
//!
//! In the linear fragment an expression is read over the rationals: under a
//! rational assignment (`sigma(x) / d` for each name `x`, with `d > 0`) an
//! arithmetic expression has a rational value, given as a numerator and a
//! positive denominator, and a predicate (comparisons joined by `&&`) is
//! true or false.

use vstd::prelude::*;
use crate::expr::{BinOp, Expr, ExprKind, Lit, UnOp, path_name};
use crate::refinement::omega::Rel;
use crate::refinement::linear::{
    Assignment, LinModel, eval_coeffs, lemma_lin_add, lemma_lin_scale, lin_add, lin_constant, lin_num,
    lin_scale, lin_var, sign_of,
};

verus! {

/// Whether `v REL 0` holds.
pub open spec fn rel_holds(rel: Rel, v: int) -> bool {
    match rel {
        Rel::Lt => v < 0,
        Rel::Le => v <= 0,
        Rel::Gt => v > 0,
        Rel::Ge => v >= 0,
        Rel::Eq => v == 0,
        Rel::Ne => v != 0,
    }
}

pub open spec fn is_arith_op(op: BinOp) -> bool {
    op == BinOp::Add || op == BinOp::Sub || op == BinOp::Mul || op == BinOp::Div
}

pub open spec fn is_comparison_op(op: BinOp) -> bool {
    op == BinOp::Lt || op == BinOp::Le || op == BinOp::Gt || op == BinOp::Ge || op == BinOp::Eq
        || op == BinOp::Ne
}

/// The relation a comparison operator puts between `lhs - rhs` and zero.
pub open spec fn spec_rel_of(op: BinOp) -> Rel {
    match op {
        BinOp::Lt => Rel::Lt,
        BinOp::Le => Rel::Le,
        BinOp::Gt => Rel::Gt,
        BinOp::Ge => Rel::Ge,
        BinOp::Eq => Rel::Eq,
        _ => Rel::Ne,
    }
}

/// The rational value of an arithmetic expression: `Some((n, q))` for
/// `n / q`, or `None` outside arithmetic (or on a division by zero).
pub open spec fn expr_rat(e: Expr, sigma: Assignment, d: int) -> Option<(int, int)>
    decreases e,
{
    match e.kind {
        ExprKind::Literal(Lit::Integer(v)) => Some((v * d, d)),
        ExprKind::Path(p) => Some((sigma(path_name(p)), d)),
        ExprKind::Unary(UnOp::Neg, inner) => match expr_rat(*inner, sigma, d) {
            Some((n, q)) => Some((-n, q)),
            None => None,
        },
        ExprKind::Binary(op, lhs, rhs) => match (expr_rat(*lhs, sigma, d), expr_rat(*rhs, sigma, d)) {
            (Some((n1, q1)), Some((n2, q2))) => match op {
                BinOp::Add => Some((n1 * q2 + n2 * q1, q1 * q2)),
                BinOp::Sub => Some((n1 * q2 - n2 * q1, q1 * q2)),
                BinOp::Mul => Some((n1 * n2, q1 * q2)),
                BinOp::Div => if n2 == 0 {
                    None
                } else {
                    Some((n1 * q2 * sign_of(n2), q1 * n2 * sign_of(n2)))
                },
                _ => None,
            },
            _ => None,
        },
        _ => None,
    }
}

/// The truth of a conjunction of comparisons.
pub open spec fn expr_truth(e: Expr, sigma: Assignment, d: int) -> Option<bool>
    decreases e,
{
    match e.kind {
        ExprKind::Binary(BinOp::And, lhs, rhs) => match (expr_truth(*lhs, sigma, d), expr_truth(*rhs, sigma, d)) {
            (Some(a), Some(b)) => Some(a && b),
            _ => None,
        },
        ExprKind::Binary(op, lhs, rhs) => if is_comparison_op(op) {
            match (expr_rat(*lhs, sigma, d), expr_rat(*rhs, sigma, d)) {
                (Some((n1, q1)), Some((n2, q2))) => Some(rel_holds(spec_rel_of(op), n1 * q2 - n2 * q1)),
                _ => None,
            }
        } else {
            None
        },
        _ => None,
    }
}

/// The linear form of an arithmetic expression, as `normalize` computes it:
/// `None` outside the linear fragment (a product of two non-constant terms,
/// a division other than an exact one between two constants, or any
/// construct other than integer literals, paths, negation, `+ - * /`).
/// Integer division truncates, so a division is only taken where it leaves
/// no remainder: there its rational and its integer value agree.
pub open spec fn lin_of(e: Expr) -> Option<LinModel>
    decreases e,
{
    match e.kind {
        ExprKind::Literal(Lit::Integer(v)) => Some(lin_constant(v as int)),
        ExprKind::Path(p) => Some(lin_var(path_name(p))),
        ExprKind::Unary(UnOp::Neg, inner) => match lin_of(*inner) {
            Some(m) => Some(lin_scale(m, -1, 1)),
            None => None,
        },
        ExprKind::Binary(op, lhs, rhs) => match lin_of(*lhs) {
            Some(l) => if is_arith_op(op) {
                match lin_of(*rhs) {
                    Some(r) => lin_combine(op, l, r),
                    None => None,
                }
            } else {
                None
            },
            None => None,
        },
        _ => None,
    }
}

/// A constant term whose value is a whole number.
pub open spec fn is_whole(m: LinModel) -> bool {
    m.constant % m.denom == 0
}

/// For a positive `b`, Rust's remainder of `a` by `b` is zero exactly when
/// `b` divides `a`.
pub proof fn lemma_trunc_rem_zero(a: int, b: int)
    requires
        b > 0,
    ensures
        (crate::refinement::decide::trunc_rem(a, b) == 0) == (a % b == 0),
{
    if a < 0 {
        vstd::arithmetic::div_mod::lemma_fundamental_div_mod(a, b);
        vstd::arithmetic::div_mod::lemma_fundamental_div_mod(-a, b);
        if (-a) % b == 0 {
            let k = (-a) / b;
            assert(a == b * (-k)) by (nonlinear_arith) requires -a == b * k + 0;
            vstd::arithmetic::div_mod::lemma_mod_multiples_basic(-k, b);
            assert((-k) * b == b * (-k)) by (nonlinear_arith);
        }
        if a % b == 0 {
            let k = a / b;
            assert(-a == b * (-k)) by (nonlinear_arith) requires a == b * k + 0;
            vstd::arithmetic::div_mod::lemma_mod_multiples_basic(-k, b);
            assert((-k) * b == b * (-k)) by (nonlinear_arith);
        }
    }
}

pub open spec fn lin_combine(op: BinOp, l: LinModel, r: LinModel) -> Option<LinModel> {
    match op {
        BinOp::Add => Some(lin_add(l, r)),
        BinOp::Sub => Some(lin_add(l, lin_scale(r, -1, 1))),
        BinOp::Mul => if l.coeffs.len() == 0 {
            Some(lin_scale(r, l.constant, l.denom))
        } else if r.coeffs.len() == 0 {
            Some(lin_scale(l, r.constant, r.denom))
        } else {
            None
        },
        BinOp::Div => if l.coeffs.len() == 0 && r.coeffs.len() == 0 && r.constant != 0
            && is_whole(lin_scale(l, r.denom, r.constant)) {
            Some(lin_scale(l, r.denom, r.constant))
        } else {
            None
        },
        _ => None,
    }
}

/// The conjuncts of a predicate, as `to_conjuncts` computes them: each a
/// term and the relation it must bear to zero.
pub open spec fn conj_of(e: Expr) -> Option<Seq<(LinModel, Rel)>>
    decreases e,
{
    match e.kind {
        ExprKind::Binary(BinOp::And, lhs, rhs) => match (conj_of(*lhs), conj_of(*rhs)) {
            (Some(a), Some(b)) => Some(a + b),
            _ => None,
        },
        ExprKind::Binary(op, lhs, rhs) => if is_comparison_op(op) {
            match (lin_of(*lhs), lin_of(*rhs)) {
                (Some(a), Some(b)) => Some(seq![(comparison_term(a, b), spec_rel_of(op))]),
                _ => None,
            }
        } else {
            None
        },
        _ => None,
    }
}

/// `lhs - rhs`.
pub open spec fn comparison_term(a: LinModel, b: LinModel) -> LinModel {
    lin_add(a, lin_scale(b, -1, 1))
}

/// Whether every conjunct holds.
pub open spec fn all_hold(cs: Seq<(LinModel, Rel)>, sigma: Assignment, d: int) -> bool {
    forall|i: int| 0 <= i < cs.len() ==> #[trigger] rel_holds(cs[i].1, lin_num(cs[i].0, sigma, d))
}

/// A rational assignment under which every constraint holds.
pub open spec fn is_model(cs: Seq<(LinModel, Rel)>, sigma: Assignment, d: int) -> bool {
    d > 0 && all_hold(cs, sigma, d)
}

/// The constraints have a rational solution.
pub open spec fn satisfiable(cs: Seq<(LinModel, Rel)>) -> bool {
    exists|sigma: Assignment, d: int| is_model(cs, sigma, d)
}

// ---------------------------------------------------------------------
// The linear forms mean what the expressions mean.
// ---------------------------------------------------------------------

proof fn lemma_cancel_pos(a: int, b: int, d: int)
    requires
        d > 0,
        a * d == b * d,
    ensures
        a == b,
{
    assert(a == b) by (nonlinear_arith) requires d > 0, a * d == b * d;
}

proof fn lemma_pos_mul(a: int, b: int)
    requires
        a > 0,
        b > 0,
    ensures
        a * b > 0,
{
    assert(a * b > 0) by (nonlinear_arith) requires a > 0, b > 0;
}

/// A linear form represents its expression: wherever the form is defined,
/// the expression has a rational value (over a positive denominator), and
/// the two values are equal.
proof fn lemma_distrib(x: int, y: int, z: int)
    ensures
        (x + y) * z == x * z + y * z,
        (x - y) * z == x * z - y * z,
{
    assert((x + y) * z == x * z + y * z) by (nonlinear_arith);
    assert((x - y) * z == x * z - y * z) by (nonlinear_arith);
}

/// `(n1*q2 +- n2*q1) * (ad*bd*d)` against `(va*bd +- vb*ad) * (q1*q2)`, given
/// that `n1/q1` is `va/(ad*d)` and `n2/q2` is `vb/(bd*d)`.
proof fn lemma_rat_sum(n1: int, q1: int, n2: int, q2: int, va: int, vb: int, ad: int, bd: int, d: int)
    requires
        n1 * (ad * d) == va * q1,
        n2 * (bd * d) == vb * q2,
    ensures
        (n1 * q2 + n2 * q1) * (ad * bd * d) == (va * bd + vb * ad) * (q1 * q2),
        (n1 * q2 - n2 * q1) * (ad * bd * d) == (va * bd - vb * ad) * (q1 * q2),
{
    lemma_distrib(n1 * q2, n2 * q1, ad * bd * d);
    lemma_distrib(va * bd, vb * ad, q1 * q2);
    assert((n1 * q2) * (ad * bd * d) == (n1 * (ad * d)) * (q2 * bd)) by (nonlinear_arith);
    assert((n2 * q1) * (ad * bd * d) == (n2 * (bd * d)) * (q1 * ad)) by (nonlinear_arith);
    assert((va * bd) * (q1 * q2) == (va * q1) * (q2 * bd)) by (nonlinear_arith);
    assert((vb * ad) * (q1 * q2) == (vb * q2) * (q1 * ad)) by (nonlinear_arith);
}

/// A product whose left factor is the constant `k/ad` (so `n1*ad == k*q1`).
proof fn lemma_rat_product(n1: int, q1: int, n2: int, q2: int, k: int, vb: int, ad: int, bd: int, d: int)
    requires
        n1 * ad == k * q1,
        n2 * (bd * d) == vb * q2,
    ensures
        (n1 * n2) * (bd * ad * d) == (k * vb) * (q1 * q2),
{
    assert((n1 * n2) * (bd * ad * d) == (n1 * ad) * (n2 * (bd * d))) by (nonlinear_arith);
    assert((k * vb) * (q1 * q2) == (k * q1) * (vb * q2)) by (nonlinear_arith);
}

/// A linear form represents its expression: wherever the form is defined,
/// the expression has a rational value (over a positive denominator), and
/// the two values are equal.
pub proof fn lemma_lin_of_represents(e: Expr, sigma: Assignment, d: int)
    requires
        lin_of(e) is Some,
        d > 0,
    ensures
        lin_of(e).unwrap().denom > 0,
        expr_rat(e, sigma, d) is Some,
        expr_rat(e, sigma, d).unwrap().1 > 0,
        expr_rat(e, sigma, d).unwrap().0 * (lin_of(e).unwrap().denom * d)
            == lin_num(lin_of(e).unwrap(), sigma, d) * expr_rat(e, sigma, d).unwrap().1,
    decreases e,
{
    match e.kind {
        ExprKind::Literal(Lit::Integer(v)) => {
            let m = lin_constant(v as int);
            assert(lin_of(e) == Some(m));
            assert(eval_coeffs(m.coeffs, sigma) == 0);
            assert((v * d) * (1 * d) == (0 + v * d) * d) by (nonlinear_arith);
        },
        ExprKind::Path(p) => {
            let x = path_name(p);
            let s = seq![(x, 1int)];
            assert(s.drop_last() =~= Seq::<(Seq<char>, int)>::empty());
            assert(eval_coeffs(s.drop_last(), sigma) == 0);
            assert(s.last() == (x, 1int));
            assert(eval_coeffs(s, sigma) == sigma(x));
            assert(sigma(x) * (1 * d) == (sigma(x) + 0 * d) * d) by (nonlinear_arith);
        },
        ExprKind::Unary(UnOp::Neg, inner) => {
            lemma_lin_of_represents(*inner, sigma, d);
            let mi = lin_of(*inner).unwrap();
            lemma_lin_scale(mi, -1, 1, sigma, d);
            let (n, q) = expr_rat(*inner, sigma, d).unwrap();
            let a = lin_num(mi, sigma, d);
            assert(n * (mi.denom * d) == a * q);
            assert(sign_of(1) == 1);
            assert(mi.denom * (1 * 1) == mi.denom) by (nonlinear_arith);
            assert((-n) * (mi.denom * d) == -(n * (mi.denom * d))) by (nonlinear_arith);
            assert(((-1 * sign_of(1)) * a) * q == -(a * q)) by (nonlinear_arith)
                requires sign_of(1) == 1;
        },
        ExprKind::Binary(op, lhs, rhs) => {
            lemma_lin_of_represents(*lhs, sigma, d);
            lemma_lin_of_represents(*rhs, sigma, d);
            let a = lin_of(*lhs).unwrap();
            let b = lin_of(*rhs).unwrap();
            let (n1, q1) = expr_rat(*lhs, sigma, d).unwrap();
            let (n2, q2) = expr_rat(*rhs, sigma, d).unwrap();
            let va = lin_num(a, sigma, d);
            let vb = lin_num(b, sigma, d);
            let ad = a.denom;
            let bd = b.denom;
            assert(n1 * (ad * d) == va * q1);
            assert(n2 * (bd * d) == vb * q2);
            lemma_pos_mul(q1, q2);
            lemma_pos_mul(ad, bd);
            lemma_pos_mul(bd, ad);
            if op == BinOp::Add {
                lemma_lin_add(a, b, sigma, d);
                lemma_rat_sum(n1, q1, n2, q2, va, vb, ad, bd, d);
            } else if op == BinOp::Sub {
                let nb = lin_scale(b, -1, 1);
                lemma_lin_scale(b, -1, 1, sigma, d);
                lemma_lin_add(a, nb, sigma, d);
                assert(sign_of(1) == 1);
                assert(bd * (1 * 1) == bd) by (nonlinear_arith);
                assert(nb.denom == bd);
                assert(lin_num(nb, sigma, d) == -vb);
                lemma_rat_sum(n1, q1, n2, q2, va, vb, ad, bd, d);
                assert(-vb * ad == -(vb * ad)) by (nonlinear_arith);
            } else if op == BinOp::Mul {
                if a.coeffs.len() == 0 {
                    assert(eval_coeffs(a.coeffs, sigma) == 0);
                    assert(va == a.constant * d);
                    assert(n1 * ad * d == a.constant * q1 * d) by (nonlinear_arith)
                        requires n1 * (ad * d) == va * q1, va == a.constant * d;
                    lemma_cancel_pos(n1 * ad, a.constant * q1, d);
                    lemma_lin_scale(b, a.constant, ad, sigma, d);
                    assert(sign_of(ad) == 1);
                    lemma_rat_product(n1, q1, n2, q2, a.constant, vb, ad, bd, d);
                } else {
                    assert(eval_coeffs(b.coeffs, sigma) == 0);
                    assert(vb == b.constant * d);
                    assert(n2 * bd * d == b.constant * q2 * d) by (nonlinear_arith)
                        requires n2 * (bd * d) == vb * q2, vb == b.constant * d;
                    lemma_cancel_pos(n2 * bd, b.constant * q2, d);
                    lemma_lin_scale(a, b.constant, bd, sigma, d);
                    assert(sign_of(bd) == 1);
                    lemma_rat_product(n2, q2, n1, q1, b.constant, va, bd, ad, d);
                    assert((n1 * n2) * (ad * bd * d) == (n2 * n1) * (ad * bd * d)) by (nonlinear_arith);
                    assert((b.constant * va) * (q2 * q1) == (b.constant * va) * (q1 * q2)) by (nonlinear_arith);
                }
            } else {
                assert(op == BinOp::Div);
                let rc = b.constant;
                assert(eval_coeffs(b.coeffs, sigma) == 0);
                assert(vb == rc * d);
                assert(n2 * bd * d == rc * q2 * d) by (nonlinear_arith)
                    requires n2 * (bd * d) == vb * q2, vb == rc * d;
                lemma_cancel_pos(n2 * bd, rc * q2, d);
                assert(n2 != 0) by (nonlinear_arith) requires n2 * bd == rc * q2, rc != 0, q2 > 0, bd > 0;
                let s = sign_of(rc);
                assert(sign_of(n2) == s) by (nonlinear_arith)
                    requires n2 * bd == rc * q2, q2 > 0, bd > 0, rc != 0,
                        sign_of(n2) == if n2 < 0 { -1int } else { 1int },
                        s == if rc < 0 { -1int } else { 1int };
                lemma_lin_scale(a, bd, rc, sigma, d);
                assert(q1 * n2 * s > 0) by (nonlinear_arith)
                    requires q1 > 0, n2 != 0, s == if n2 < 0 { -1int } else { 1int };
                assert(rc * s > 0) by (nonlinear_arith)
                    requires rc != 0, s == if rc < 0 { -1int } else { 1int };
                lemma_pos_mul(ad, rc * s);
                assert((n1 * q2 * s) * (ad * (rc * s) * d) == (n1 * (ad * d)) * (rc * q2) * (s * s)) by (nonlinear_arith);
                assert(((bd * s) * va) * (q1 * n2 * s) == (va * q1) * (n2 * bd) * (s * s)) by (nonlinear_arith);
            }
        },
        _ => {},
    }
}

proof fn lemma_same_sign(x: int, y: int, p: int, q: int, rel: Rel)
    requires
        x * p == y * q,
        p > 0,
        q > 0,
    ensures
        rel_holds(rel, x) == rel_holds(rel, y),
{
    assert(x < 0 <==> y < 0) by (nonlinear_arith) requires x * p == y * q, p > 0, q > 0;
    assert(x == 0 <==> y == 0) by (nonlinear_arith) requires x * p == y * q, p > 0, q > 0;
}

/// The conjuncts of a predicate hold exactly when the predicate does.
pub proof fn lemma_conj_of_represents(e: Expr, sigma: Assignment, d: int)
    requires
        conj_of(e) is Some,
        d > 0,
    ensures
        expr_truth(e, sigma, d) == Some(all_hold(conj_of(e).unwrap(), sigma, d)),
    decreases e,
{
    match e.kind {
        ExprKind::Binary(op, lhs, rhs) => {
            if op == BinOp::And {
                lemma_conj_of_represents(*lhs, sigma, d);
                lemma_conj_of_represents(*rhs, sigma, d);
                let a = conj_of(*lhs).unwrap();
                let b = conj_of(*rhs).unwrap();
                let ab = a + b;
                assert(all_hold(ab, sigma, d) == (all_hold(a, sigma, d) && all_hold(b, sigma, d))) by {
                    if all_hold(a, sigma, d) && all_hold(b, sigma, d) {
                        assert forall|i: int| 0 <= i < ab.len() implies #[trigger] rel_holds(ab[i].1, lin_num(ab[i].0, sigma, d)) by {
                            if i < a.len() {
                                assert(ab[i] == a[i]);
                            } else {
                                assert(ab[i] == b[i - a.len()]);
                            }
                        }
                    }
                    if all_hold(ab, sigma, d) {
                        assert forall|i: int| 0 <= i < a.len() implies #[trigger] rel_holds(a[i].1, lin_num(a[i].0, sigma, d)) by {
                            assert(ab[i] == a[i]);
                        }
                        assert forall|i: int| 0 <= i < b.len() implies #[trigger] rel_holds(b[i].1, lin_num(b[i].0, sigma, d)) by {
                            assert(ab[i + a.len()] == b[i]);
                        }
                    }
                }
            } else {
                lemma_lin_of_represents(*lhs, sigma, d);
                lemma_lin_of_represents(*rhs, sigma, d);
                let a = lin_of(*lhs).unwrap();
                let b = lin_of(*rhs).unwrap();
                let (n1, q1) = expr_rat(*lhs, sigma, d).unwrap();
                let (n2, q2) = expr_rat(*rhs, sigma, d).unwrap();
                let va = lin_num(a, sigma, d);
                let vb = lin_num(b, sigma, d);
                let ad = a.denom;
                let bd = b.denom;
                let nb = lin_scale(b, -1, 1);
                lemma_lin_scale(b, -1, 1, sigma, d);
                lemma_lin_add(a, nb, sigma, d);
                let t = comparison_term(a, b);
                let vt = lin_num(t, sigma, d);
                assert(sign_of(1) == 1);
                assert(bd * (1 * 1) == bd) by (nonlinear_arith);
                assert(nb.denom == bd);
                assert(lin_num(nb, sigma, d) == -vb);
                assert(-vb * ad == -(vb * ad)) by (nonlinear_arith);
                assert(vt == va * bd - vb * ad);
                assert(n1 * (ad * d) == va * q1);
                assert(n2 * (bd * d) == vb * q2);
                lemma_rat_sum(n1, q1, n2, q2, va, vb, ad, bd, d);
                lemma_pos_mul(ad, bd);
                lemma_pos_mul(ad * bd, d);
                lemma_pos_mul(q1, q2);
                lemma_same_sign(n1 * q2 - n2 * q1, vt, ad * bd * d, q1 * q2, spec_rel_of(op));
                let cs = conj_of(e).unwrap();
                assert(cs == seq![(t, spec_rel_of(op))]);
                assert(cs.len() == 1);
                assert(cs[0] == (t, spec_rel_of(op)));
                if rel_holds(spec_rel_of(op), vt) {
                    assert forall|i: int| 0 <= i < cs.len() implies #[trigger] rel_holds(cs[i].1, lin_num(cs[i].0, sigma, d)) by {
                        assert(i == 0);
                    }
                }
                if all_hold(cs, sigma, d) {
                    assert(rel_holds(cs[0].1, lin_num(cs[0].0, sigma, d)));
                }
            }
        },
        _ => {},
    }
}

} // verus!
