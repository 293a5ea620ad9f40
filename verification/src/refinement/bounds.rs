//! Bounds on one rational variable: when every upper bound is consistent
//! with every lower bound, a value between them exists. This is what makes
//! Fourier–Motzkin elimination complete over the rationals.
//!
//! A bound is `(k, r, strict)` and reads `k * x + r <= 0` (`< 0` when
//! strict) for the variable's value `x`; `k > 0` makes it an upper bound,
//! `k < 0` a lower one. A rational value `x = X / m` (with `m > 0`) meets
//! it when `k * X + m * r` has that sign.

use vstd::prelude::*;
use crate::refinement::linear::{
    Assignment, LinModel, coeff_of, coeffs_wf, combine_bounds, elem_holds, elems_hold, elems_satisfiable,
    eval_coeffs, find_name, lemma_find_name, lemma_find_name_unique, lemma_lin_add, lemma_lin_scale, lin_add,
    lin_num, lin_scale, lin_wf, sign_of,
};

verus! {

pub type Bound = (int, int, bool);

/// The value `X / m` meets the bound `b`.
pub open spec fn bound_ok(b: Bound, m: int, x: int) -> bool {
    if b.2 {
        b.0 * x + m * b.1 < 0
    } else {
        b.0 * x + m * b.1 <= 0
    }
}

/// The upper bound `u` and the lower bound `l` leave room for a value:
/// `-kl * ru + ku * rl <= 0`, strictly when either bound is strict.
pub open spec fn pair_ok(u: Bound, l: Bound) -> bool {
    if u.2 || l.2 {
        -l.0 * u.1 + u.0 * l.1 < 0
    } else {
        -l.0 * u.1 + u.0 * l.1 <= 0
    }
}

/// The upper bound `p` is at most as high as `q` (`-rp/kp <= -rq/kq`).
pub open spec fn upper_le(p: Bound, q: Bound) -> bool {
    q.1 * p.0 <= p.1 * q.0
}

/// The lower bound `p` is at most as high as `q` (`rp/-kp <= rq/-kq`).
pub open spec fn lower_le(p: Bound, q: Bound) -> bool {
    p.1 * (-q.0) <= q.1 * (-p.0)
}

proof fn lemma_upper_le_trans(a: Bound, b: Bound, c: Bound)
    requires
        a.0 > 0,
        b.0 > 0,
        c.0 > 0,
        upper_le(a, b),
        upper_le(b, c),
    ensures
        upper_le(a, c),
{
    assert(b.1 * a.0 * c.0 <= a.1 * b.0 * c.0) by (nonlinear_arith)
        requires b.1 * a.0 <= a.1 * b.0, c.0 > 0;
    assert(c.1 * b.0 * a.0 <= b.1 * c.0 * a.0) by (nonlinear_arith)
        requires c.1 * b.0 <= b.1 * c.0, a.0 > 0;
    assert(c.1 * a.0 * b.0 <= a.1 * c.0 * b.0) by (nonlinear_arith)
        requires
            b.1 * a.0 * c.0 <= a.1 * b.0 * c.0,
            c.1 * b.0 * a.0 <= b.1 * c.0 * a.0;
    assert(c.1 * a.0 <= a.1 * c.0) by (nonlinear_arith)
        requires c.1 * a.0 * b.0 <= a.1 * c.0 * b.0, b.0 > 0;
}

proof fn lemma_lower_le_trans(a: Bound, b: Bound, c: Bound)
    requires
        a.0 < 0,
        b.0 < 0,
        c.0 < 0,
        lower_le(a, b),
        lower_le(b, c),
    ensures
        lower_le(a, c),
{
    let (na, nb, nc) = (-a.0, -b.0, -c.0);
    assert(a.1 * nb * nc <= b.1 * na * nc) by (nonlinear_arith)
        requires a.1 * nb <= b.1 * na, nc > 0;
    assert(b.1 * nc * na <= c.1 * nb * na) by (nonlinear_arith)
        requires b.1 * nc <= c.1 * nb, na > 0;
    assert(a.1 * nc * nb <= c.1 * na * nb) by (nonlinear_arith)
        requires
            a.1 * nb * nc <= b.1 * na * nc,
            b.1 * nc * na <= c.1 * nb * na;
    assert(a.1 * nc <= c.1 * na) by (nonlinear_arith)
        requires a.1 * nc * nb <= c.1 * na * nb, nb > 0;
}

/// The lowest of a nonempty list of upper bounds.
proof fn lemma_lowest_upper(us: Seq<Bound>) -> (i: int)
    requires
        us.len() > 0,
        forall|k: int| 0 <= k < us.len() ==> (#[trigger] us[k]).0 > 0,
    ensures
        0 <= i < us.len(),
        forall|k: int| 0 <= k < us.len() ==> upper_le(us[i], #[trigger] us[k]),
    decreases us.len(),
{
    let last = us.len() - 1;
    if us.len() == 1 {
        0
    } else {
        let init = us.drop_last();
        assert forall|k: int| 0 <= k < init.len() implies (#[trigger] init[k]).0 > 0 by {
            assert(init[k] == us[k]);
        }
        let j = lemma_lowest_upper(init);
        assert(init[j] == us[j]);
        if upper_le(us[j], us[last]) {
            assert forall|k: int| 0 <= k < us.len() implies upper_le(us[j], #[trigger] us[k]) by {
                if k < last {
                    assert(init[k] == us[k]);
                    assert(upper_le(init[j], init[k]));
                }
            }
            j
        } else {
            assert forall|k: int| 0 <= k < us.len() implies upper_le(us[last], #[trigger] us[k]) by {
                if k < last {
                    assert(init[k] == us[k]);
                    assert(upper_le(init[j], init[k]));
                    lemma_upper_le_trans(us[last], us[j], us[k]);
                }
            }
            last
        }
    }
}

/// The highest of a nonempty list of lower bounds.
proof fn lemma_highest_lower(ls: Seq<Bound>) -> (i: int)
    requires
        ls.len() > 0,
        forall|k: int| 0 <= k < ls.len() ==> (#[trigger] ls[k]).0 < 0,
    ensures
        0 <= i < ls.len(),
        forall|k: int| 0 <= k < ls.len() ==> lower_le(#[trigger] ls[k], ls[i]),
    decreases ls.len(),
{
    let last = ls.len() - 1;
    if ls.len() == 1 {
        0
    } else {
        let init = ls.drop_last();
        assert forall|k: int| 0 <= k < init.len() implies (#[trigger] init[k]).0 < 0 by {
            assert(init[k] == ls[k]);
        }
        let j = lemma_highest_lower(init);
        assert(init[j] == ls[j]);
        if lower_le(ls[last], ls[j]) {
            assert forall|k: int| 0 <= k < ls.len() implies lower_le(#[trigger] ls[k], ls[j]) by {
                if k < last {
                    assert(init[k] == ls[k]);
                    assert(lower_le(init[k], init[j]));
                }
            }
            j
        } else {
            assert forall|k: int| 0 <= k < ls.len() implies lower_le(#[trigger] ls[k], ls[last]) by {
                if k < last {
                    assert(init[k] == ls[k]);
                    assert(lower_le(init[k], init[j]));
                    lemma_lower_le_trans(ls[k], ls[j], ls[last]);
                }
            }
            last
        }
    }
}

proof fn lemma_midpoint_upper(b: Bound, u: Bound, l: Bound)
    requires
        b.0 > 0,
        u.0 > 0,
        l.0 < 0,
        upper_le(u, b),
        pair_ok(u, l),
        pair_ok(b, l),
    ensures
        bound_ok(b, 2 * u.0 * (-l.0), u.0 * l.1 + l.0 * u.1),
{
    let (k, r) = (b.0, b.1);
    let (ku, ru) = (u.0, u.1);
    let (kl, rl) = (l.0, l.1);
    let m = 2 * ku * (-kl);
    let x = ku * rl + kl * ru;
    let v = k * x + m * r;
    let c0 = -kl * ru + ku * rl;
    let c1 = -kl * r + k * rl;
    let a = k * ku * rl;
    let bb = k * kl * ru;
    let c = ku * kl * r;
    assert(k * x == a + bb) by (nonlinear_arith)
        requires x == ku * rl + kl * ru, a == k * ku * rl, bb == k * kl * ru;
    assert(m * r == -2 * c) by (nonlinear_arith)
        requires m == 2 * ku * (-kl), c == ku * kl * r;
    assert(ku * c1 == -c + a) by (nonlinear_arith)
        requires c1 == -kl * r + k * rl, a == k * ku * rl, c == ku * kl * r;
    assert(k * c0 == -bb + a) by (nonlinear_arith)
        requires c0 == -kl * ru + ku * rl, a == k * ku * rl, bb == k * kl * ru;
    assert(v == 2 * (ku * c1) - k * c0);
    assert(v <= k * c0) by (nonlinear_arith)
        requires v == k * x + m * r, x == ku * rl + kl * ru, m == 2 * ku * (-kl), c0 == -kl * ru + ku * rl,
            r * ku <= ru * k, kl < 0;
    assert(k * c0 <= 0) by (nonlinear_arith)
        requires k > 0, c0 <= 0;
    if b.2 {
        assert(ku * c1 < 0) by (nonlinear_arith)
            requires ku > 0, c1 < 0;
    } else {
        assert(c1 <= 0);
    }
    assert(v <= ku * c1);
}

proof fn lemma_midpoint_lower(b: Bound, u: Bound, l: Bound)
    requires
        b.0 < 0,
        u.0 > 0,
        l.0 < 0,
        lower_le(b, l),
        pair_ok(u, l),
        pair_ok(u, b),
    ensures
        bound_ok(b, 2 * u.0 * (-l.0), u.0 * l.1 + l.0 * u.1),
{
    let (k, r) = (b.0, b.1);
    let (ku, ru) = (u.0, u.1);
    let (kl, rl) = (l.0, l.1);
    let m = 2 * ku * (-kl);
    let x = ku * rl + kl * ru;
    let v = k * x + m * r;
    let c0 = -kl * ru + ku * rl;
    let c2 = -k * ru + ku * r;
    let a = k * ku * rl;
    let bb = k * kl * ru;
    let c = ku * kl * r;
    assert(k * x == a + bb) by (nonlinear_arith)
        requires x == ku * rl + kl * ru, a == k * ku * rl, bb == k * kl * ru;
    assert(m * r == -2 * c) by (nonlinear_arith)
        requires m == 2 * ku * (-kl), c == ku * kl * r;
    assert((-kl) * c2 == bb - c) by (nonlinear_arith)
        requires c2 == -k * ru + ku * r, bb == k * kl * ru, c == ku * kl * r;
    assert((-k) * c0 == bb - a) by (nonlinear_arith)
        requires c0 == -kl * ru + ku * rl, a == k * ku * rl, bb == k * kl * ru;
    assert(v == 2 * ((-kl) * c2) - (-k) * c0);
    assert(v <= (-k) * c0) by (nonlinear_arith)
        requires v == k * x + m * r, x == ku * rl + kl * ru, m == 2 * ku * (-kl), c0 == -kl * ru + ku * rl,
            r * (-kl) <= rl * (-k), ku > 0;
    assert((-k) * c0 <= 0) by (nonlinear_arith)
        requires k < 0, c0 <= 0;
    if b.2 {
        assert((-kl) * c2 < 0) by (nonlinear_arith)
            requires kl < 0, c2 < 0;
    }
    assert(v <= (-kl) * c2);
}

/// When every upper bound leaves room for every lower bound, some rational
/// value `X / m` (with `m > 0`) meets all of them.
pub proof fn lemma_bounds_solvable(us: Seq<Bound>, ls: Seq<Bound>) -> (r: (int, int))
    requires
        forall|i: int| 0 <= i < us.len() ==> (#[trigger] us[i]).0 > 0,
        forall|j: int| 0 <= j < ls.len() ==> (#[trigger] ls[j]).0 < 0,
        forall|i: int, j: int| 0 <= i < us.len() && 0 <= j < ls.len() ==> pair_ok(#[trigger] us[i], #[trigger] ls[j]),
    ensures
        r.0 > 0,
        forall|i: int| 0 <= i < us.len() ==> bound_ok(#[trigger] us[i], r.0, r.1),
        forall|j: int| 0 <= j < ls.len() ==> bound_ok(#[trigger] ls[j], r.0, r.1),
{
    if us.len() > 0 && ls.len() > 0 {
        let i0 = lemma_lowest_upper(us);
        let j0 = lemma_highest_lower(ls);
        let u = us[i0];
        let l = ls[j0];
        let m = 2 * u.0 * (-l.0);
        let x = u.0 * l.1 + l.0 * u.1;
        assert(m > 0) by (nonlinear_arith)
            requires m == 2 * u.0 * (-l.0), u.0 > 0, l.0 < 0;
        assert forall|i: int| 0 <= i < us.len() implies bound_ok(#[trigger] us[i], m, x) by {
            assert(upper_le(u, us[i]));
            assert(pair_ok(us[i], l));
            assert(pair_ok(u, l));
            lemma_midpoint_upper(us[i], u, l);
        }
        assert forall|j: int| 0 <= j < ls.len() implies bound_ok(#[trigger] ls[j], m, x) by {
            assert(lower_le(ls[j], l));
            assert(pair_ok(u, ls[j]));
            assert(pair_ok(u, l));
            lemma_midpoint_lower(ls[j], u, l);
        }
        (m, x)
    } else if ls.len() > 0 {
        let j0 = lemma_highest_lower(ls);
        let l = ls[j0];
        let m = -l.0;
        let x = l.1 - l.0;
        assert forall|j: int| 0 <= j < ls.len() implies bound_ok(#[trigger] ls[j], m, x) by {
            let b = ls[j];
            assert(lower_le(b, l));
            assert(b.0 * x + m * b.1 < 0) by (nonlinear_arith)
                requires b.1 * (-l.0) <= l.1 * (-b.0), x == l.1 - l.0, m == -l.0, b.0 < 0, l.0 < 0;
        }
        (m, x)
    } else if us.len() > 0 {
        let i0 = lemma_lowest_upper(us);
        let u = us[i0];
        let m = u.0;
        let x = -u.1 - u.0;
        assert forall|i: int| 0 <= i < us.len() implies bound_ok(#[trigger] us[i], m, x) by {
            let b = us[i];
            assert(upper_le(u, b));
            assert(b.0 * x + m * b.1 < 0) by (nonlinear_arith)
                requires b.1 * u.0 <= u.1 * b.0, x == -u.1 - u.0, m == u.0, b.0 > 0, u.0 > 0;
        }
        (m, x)
    } else {
        (1, 0)
    }
}

// ---------------------------------------------------------------------
// Bounds read off linear constraints.
// ---------------------------------------------------------------------

/// `sigma` with `v` given the numerator `x`.
pub open spec fn assign_with(sigma: Assignment, v: Seq<char>, x: int) -> Assignment {
    |n: Seq<char>| if n == v { x } else { sigma(n) }
}

/// `sigma` with every numerator multiplied by `m`.
pub open spec fn assign_scaled(sigma: Assignment, m: int) -> Assignment {
    |n: Seq<char>| m * sigma(n)
}

proof fn lemma_coeff_of_last(s: Seq<(Seq<char>, int)>, v: Seq<char>)
    requires
        coeffs_wf(s),
        s.len() > 0,
    ensures
        coeffs_wf(s.drop_last()),
        coeff_of(s, v) == coeff_of(s.drop_last(), v) + (if s.last().0 == v { s.last().1 } else { 0 }),
{
    let init = s.drop_last();
    assert forall|i: int, j: int| 0 <= i < j < init.len() implies init[i].0 != init[j].0 by {
        assert(init[i] == s[i] && init[j] == s[j]);
    }
    assert forall|i: int| 0 <= i < init.len() implies init[i].1 != 0 by {
        assert(init[i] == s[i]);
    }
    lemma_find_name(s, v);
    lemma_find_name(init, v);
    let last = s.len() - 1;
    if s.last().0 == v {
        lemma_find_name_unique(s, v, last);
        if find_name(init, v) >= 0 {
            let j = find_name(init, v);
            assert(init[j] == s[j]);
            assert(s[j].0 != s[last].0);
        }
    } else {
        if find_name(init, v) >= 0 {
            let j = find_name(init, v);
            assert(init[j] == s[j]);
            lemma_find_name_unique(s, v, j);
        } else {
            if find_name(s, v) >= 0 {
                let j = find_name(s, v);
                if j < last {
                    assert(init[j] == s[j]);
                }
            }
        }
    }
}

proof fn lemma_eval_assign_with(s: Seq<(Seq<char>, int)>, sigma: Assignment, v: Seq<char>, x: int)
    requires
        coeffs_wf(s),
    ensures
        eval_coeffs(s, assign_with(sigma, v, x)) == eval_coeffs(s, assign_with(sigma, v, 0)) + coeff_of(s, v) * x,
    decreases s.len(),
{
    if s.len() == 0 {
        assert(coeff_of(s, v) == 0);
        assert(coeff_of(s, v) * x == 0) by (nonlinear_arith) requires coeff_of(s, v) == 0;
    } else {
        lemma_coeff_of_last(s, v);
        lemma_eval_assign_with(s.drop_last(), sigma, v, x);
        let p = s.last();
        let ci = coeff_of(s.drop_last(), v);
        if p.0 == v {
            assert(p.1 * assign_with(sigma, v, x)(p.0) == p.1 * x);
            assert(p.1 * assign_with(sigma, v, 0)(p.0) == p.1 * 0);
            assert((ci + p.1) * x == ci * x + p.1 * x) by (nonlinear_arith);
            assert(p.1 * 0 == 0) by (nonlinear_arith);
        } else {
            assert(assign_with(sigma, v, x)(p.0) == assign_with(sigma, v, 0)(p.0));
        }
    }
}

proof fn lemma_eval_scaled(s: Seq<(Seq<char>, int)>, sigma: Assignment, m: int)
    ensures
        eval_coeffs(s, assign_scaled(sigma, m)) == m * eval_coeffs(s, sigma),
    decreases s.len(),
{
    if s.len() == 0 {
        assert(m * 0 == 0) by (nonlinear_arith);
    } else {
        lemma_eval_scaled(s.drop_last(), sigma, m);
        let p = s.last();
        let e = eval_coeffs(s.drop_last(), sigma);
        assert(p.1 * (m * sigma(p.0)) + m * e == m * (e + p.1 * sigma(p.0))) by (nonlinear_arith);
    }
}

/// The bound a constraint puts on `v` under `sigma` over `d`: its
/// coefficient of `v`, the value of the rest, and its strictness.
pub open spec fn bound_of(e: (LinModel, bool), v: Seq<char>, sigma: Assignment, d: int) -> Bound {
    (coeff_of(e.0.coeffs, v), lin_num(e.0, assign_with(sigma, v, 0), d), e.1)
}

/// The constraint holds at `sigma` over `d` exactly when `v`'s value meets
/// the bound the constraint puts on it.
proof fn lemma_bound_of(e: (LinModel, bool), v: Seq<char>, sigma: Assignment, d: int)
    requires
        lin_wf(e.0),
    ensures
        elem_holds(e, sigma, d) == bound_ok(bound_of(e, v, sigma, d), 1, sigma(v)),
{
    lemma_eval_assign_with(e.0.coeffs, sigma, v, sigma(v));
    assert(assign_with(sigma, v, sigma(v)) =~= sigma);
    let b = bound_of(e, v, sigma, d);
    assert(1 * b.1 == b.1);
    assert(lin_num(e.0, sigma, d) == b.0 * sigma(v) + 1 * b.1);
}

/// Moving to the value `X / m` for `v` (every other numerator scaled by
/// `m`, the denominator too) keeps the bound the constraint puts on `v`,
/// and the constraint holds there exactly when `X / m` meets it.
proof fn lemma_bound_at(e: (LinModel, bool), v: Seq<char>, sigma: Assignment, d: int, m: int, x: int)
    requires
        lin_wf(e.0),
    ensures
        elem_holds(e, assign_with(assign_scaled(sigma, m), v, x), m * d) == bound_ok(bound_of(e, v, sigma, d), m, x),
{
    let tau = assign_with(assign_scaled(sigma, m), v, x);
    lemma_eval_assign_with(e.0.coeffs, assign_scaled(sigma, m), v, x);
    assert(assign_with(tau, v, 0) =~= assign_with(assign_scaled(sigma, m), v, 0));
    assert(m * 0 == 0) by (nonlinear_arith);
    assert(assign_with(assign_scaled(sigma, m), v, 0) =~= assign_scaled(assign_with(sigma, v, 0), m));
    assert(assign_with(assign_scaled(sigma, m), v, x) =~= tau);
    lemma_eval_scaled(e.0.coeffs, assign_with(sigma, v, 0), m);
    let ev = eval_coeffs(e.0.coeffs, assign_with(sigma, v, 0));
    let c = e.0.constant;
    assert(m * ev + c * (m * d) == m * (ev + c * d)) by (nonlinear_arith);
}

/// A combined constraint that holds says the two bounds leave room.
proof fn lemma_combined_pair(u: (LinModel, bool), l: (LinModel, bool), v: Seq<char>, sigma: Assignment, d: int)
    requires
        lin_wf(u.0),
        lin_wf(l.0),
        u.0.denom == 1,
        l.0.denom == 1,
        elem_holds(combine_bounds(u, l, v), sigma, d),
    ensures
        pair_ok(bound_of(u, v, sigma, d), bound_of(l, v, sigma, d)),
{
    let ku = coeff_of(u.0.coeffs, v);
    let kl = coeff_of(l.0.coeffs, v);
    let su = lin_scale(u.0, -kl, 1);
    let sl = lin_scale(l.0, ku, 1);
    assert(sign_of(1) == 1);
    lemma_lin_scale(u.0, -kl, 1, sigma, d);
    lemma_lin_scale(l.0, ku, 1, sigma, d);
    lemma_lin_add(su, sl, sigma, d);
    assert(su.denom == 1) by (nonlinear_arith) requires su.denom == u.0.denom * (1 * 1), u.0.denom == 1;
    assert(sl.denom == 1) by (nonlinear_arith) requires sl.denom == l.0.denom * (1 * 1), l.0.denom == 1;
    lemma_bound_of(u, v, sigma, d);
    lemma_bound_of(l, v, sigma, d);
    let nu = lin_num(u.0, sigma, d);
    let nl = lin_num(l.0, sigma, d);
    let ru = bound_of(u, v, sigma, d).1;
    let rl = bound_of(l, v, sigma, d).1;
    let sv = sigma(v);
    lemma_eval_assign_with(u.0.coeffs, sigma, v, sv);
    lemma_eval_assign_with(l.0.coeffs, sigma, v, sv);
    assert(assign_with(sigma, v, sv) =~= sigma);
    assert(nu == ku * sv + ru);
    assert(nl == kl * sv + rl);
    let c = lin_num(lin_add(su, sl), sigma, d);
    assert(c == ((-kl * 1) * nu) * 1 + ((ku * 1) * nl) * 1);
    assert(c == -kl * ru + ku * rl) by (nonlinear_arith)
        requires c == ((-kl * 1) * nu) * 1 + ((ku * 1) * nl) * 1, nu == ku * sv + ru, nl == kl * sv + rl;
}

/// One Fourier–Motzkin step loses no solution: if what remains after
/// eliminating `v` from `cs` (the constraints without `v`, and every
/// upper bound on `v` combined with every lower bound) has a rational
/// solution, so does `cs`.
pub proof fn lemma_elimination_complete(
    cs: Seq<(LinModel, bool)>,
    v: Seq<char>,
    ups: Seq<(LinModel, bool)>,
    lows: Seq<(LinModel, bool)>,
    rest: Seq<(LinModel, bool)>,
    sigma: Assignment,
    d: int,
)
    requires
        d > 0,
        forall|i: int| 0 <= i < cs.len() ==> lin_wf((#[trigger] cs[i]).0) && cs[i].0.denom == 1,
        forall|i: int| 0 <= i < ups.len() ==> lin_wf((#[trigger] ups[i]).0) && ups[i].0.denom == 1
            && coeff_of(ups[i].0.coeffs, v) > 0,
        forall|i: int| 0 <= i < lows.len() ==> lin_wf((#[trigger] lows[i]).0) && lows[i].0.denom == 1
            && coeff_of(lows[i].0.coeffs, v) < 0,
        forall|i: int| 0 <= i < cs.len() ==> {
            &&& coeff_of((#[trigger] cs[i]).0.coeffs, v) == 0 ==> rest.contains(cs[i])
            &&& coeff_of(cs[i].0.coeffs, v) > 0 ==> ups.contains(cs[i])
            &&& coeff_of(cs[i].0.coeffs, v) < 0 ==> lows.contains(cs[i])
        },
        forall|p: int, q: int| 0 <= p < ups.len() && 0 <= q < lows.len()
            ==> rest.contains(combine_bounds(#[trigger] ups[p], #[trigger] lows[q], v)),
        elems_hold(rest, sigma, d),
    ensures
        elems_satisfiable(cs),
{
    let bus = ups.map_values(|e: (LinModel, bool)| bound_of(e, v, sigma, d));
    let bls = lows.map_values(|e: (LinModel, bool)| bound_of(e, v, sigma, d));
    assert forall|i: int| 0 <= i < bus.len() implies (#[trigger] bus[i]).0 > 0 by {}
    assert forall|j: int| 0 <= j < bls.len() implies (#[trigger] bls[j]).0 < 0 by {}
    assert forall|i: int, j: int| 0 <= i < bus.len() && 0 <= j < bls.len() implies
        pair_ok(#[trigger] bus[i], #[trigger] bls[j]) by {
        let c = combine_bounds(ups[i], lows[j], v);
        assert(rest.contains(c));
        let q = choose|q: int| 0 <= q < rest.len() && rest[q] == c;
        assert(elem_holds(rest[q], sigma, d));
        lemma_combined_pair(ups[i], lows[j], v, sigma, d);
    }
    let (m, x) = lemma_bounds_solvable(bus, bls);
    let tau = assign_with(assign_scaled(sigma, m), v, x);
    assert(m * d > 0) by (nonlinear_arith) requires m > 0, d > 0;
    assert forall|i: int| 0 <= i < cs.len() implies #[trigger] elem_holds(cs[i], tau, m * d) by {
        let e = cs[i];
        lemma_bound_at(e, v, sigma, d, m, x);
        let k = coeff_of(e.0.coeffs, v);
        if k == 0 {
            let q = choose|q: int| 0 <= q < rest.len() && rest[q] == e;
            assert(elem_holds(rest[q], sigma, d));
            lemma_bound_of(e, v, sigma, d);
            let r = bound_of(e, v, sigma, d).1;
            assert(k * sigma(v) == 0 && k * x == 0) by (nonlinear_arith) requires k == 0;
            if e.1 {
                assert(m * r < 0) by (nonlinear_arith) requires m > 0, 1 * r < 0;
            } else {
                assert(m * r <= 0) by (nonlinear_arith) requires m > 0, 1 * r <= 0;
            }
        } else if k > 0 {
            let p = choose|p: int| 0 <= p < ups.len() && ups[p] == e;
            assert(bound_ok(bus[p], m, x));
        } else {
            let p = choose|p: int| 0 <= p < lows.len() && lows[p] == e;
            assert(bound_ok(bls[p], m, x));
        }
    }
    assert(elems_hold(cs, tau, m * d));
}

} // verus!
