//! A linear-arithmetic decision procedure for symbolic refinement
//! predicates, in the manner of Lean 4's `omega`: a self-contained decision
//! procedure for quantifier-free linear arithmetic, with no SMT solver.
//!
//! It is Fourier–Motzkin elimination over the rationals, computed exactly
//! with integer numerators over a common positive denominator. This is a
//! sound under-approximation for validity over the integers: a system that
//! has no rational solution has no integer one either. The converse fails
//! for pure divisibility facts, which costs completeness over the integers
//! but never soundness. Every intermediate number is an `i128`; where one
//! would leave that range the procedures report it instead of answering.

use vstd::prelude::*;
use crate::expr::{BinOp, Expr, ExprKind, Lit, UnOp};
use crate::refinement::meaning::{
    is_whole,
    all_hold, comparison_term, conj_of, is_arith_op, is_comparison_op, lin_of, rel_holds, satisfiable,
    spec_rel_of,
};
use crate::refinement::bounds::lemma_elimination_complete;
use crate::refinement::linear::{
    Assignment, LinModel, add_fits, coeff_of, combine_bounds, elem_holds, elems_hold,
    elems_satisfiable, eval_coeffs, find_name, in_i128, insert_coeff, insert_fits, lemma_combine_bounds,
    lemma_find_name, lemma_in_names_nonzero, lemma_lin_add_wf, lemma_lin_scale, lemma_lin_scale_wf,
    lin_add, lin_constant, lin_num, lin_scale, lin_var, lin_wf, merge_coeffs, merge_fits, names_of,
    scale_coeffs, scale_fits, scale_ok, sign_of,
};

verus! {

/// The model of a list of named coefficients.
pub open spec fn entries_view(v: Seq<(String, i128)>) -> Seq<(Seq<char>, int)> {
    v.map_values(|p: (String, i128)| (p.0@, p.1 as int))
}

/// `(sum(coeff_i * var_i) + constant) / denom`, with no variable listed
/// twice, no zero coefficient, and a positive denominator.
#[derive(Debug)]
pub struct LinearTerm {
    pub coeffs: Vec<(String, i128)>,
    pub constant: i128,
    pub denom: i128,
}

impl View for LinearTerm {
    type V = LinModel;

    open spec fn view(&self) -> LinModel {
        LinModel {
            coeffs: entries_view(self.coeffs@),
            constant: self.constant as int,
            denom: self.denom as int,
        }
    }
}

proof fn lemma_entries_view_push(s: Seq<(String, i128)>, p: (String, i128))
    ensures
        entries_view(s.push(p)) == entries_view(s).push((p.0@, p.1 as int)),
{
    assert(entries_view(s.push(p)) =~= entries_view(s).push((p.0@, p.1 as int)));
}

proof fn lemma_entries_view_prefix(s: Seq<(String, i128)>, i: int)
    requires
        0 <= i < s.len(),
    ensures
        entries_view(s.subrange(0, i + 1)) == entries_view(s.subrange(0, i)).push((s[i].0@, s[i].1 as int)),
{
    assert(s.subrange(0, i + 1) == s.subrange(0, i).push(s[i]));
    lemma_entries_view_push(s.subrange(0, i), s[i]);
}

fn copy_entries(v: &Vec<(String, i128)>) -> (r: Vec<(String, i128)>)
    ensures
        entries_view(r@) == entries_view(v@),
{
    let mut r: Vec<(String, i128)> = Vec::new();
    let mut i: usize = 0;
    while i < v.len()
        invariant
            i <= v@.len(),
            entries_view(r@) == entries_view(v@.subrange(0, i as int)),
        decreases v@.len() - i,
    {
        let ghost old_r = r@;
        let name = v[i].0.clone();
        assert(name@ == v@[i as int].0@);
        r.push((name, v[i].1));
        proof {
            lemma_entries_view_push(old_r, (name, v@[i as int].1));
            lemma_entries_view_prefix(v@, i as int);
        }
        i += 1;
    }
    assert(v@.subrange(0, v@.len() as int) == v@);
    r
}

fn scale_entries(v: &Vec<(String, i128)>, k: i128) -> (r: Option<Vec<(String, i128)>>)
    ensures
        r is Some <==> scale_fits(entries_view(v@), k as int),
        r matches Some(w) ==> entries_view(w@) == scale_coeffs(entries_view(v@), k as int),
{
    let ghost s = entries_view(v@);
    let mut r: Vec<(String, i128)> = Vec::new();
    if k == 0 {
        assert(entries_view(r@) =~= scale_coeffs(s, 0));
        assert forall|i: int| 0 <= i < s.len() implies in_i128(s[i].1 * k) by {
            assert(s[i].1 * k == 0) by (nonlinear_arith) requires k == 0;
        }
        return Some(r);
    }
    let mut i: usize = 0;
    while i < v.len()
        invariant
            i <= v@.len(),
            k != 0,
            s == entries_view(v@),
            entries_view(r@) == scale_coeffs(s, k as int).subrange(0, i as int),
            forall|j: int| 0 <= j < i ==> in_i128(#[trigger] s[j].1 * k),
        decreases v@.len() - i,
    {
        assert(s[i as int] == (v@[i as int].0@, v@[i as int].1 as int));
        match v[i].1.checked_mul(k) {
            Some(c) => {
                let ghost old_r = r@;
                let name = v[i].0.clone();
                r.push((name, c));
                proof {
                    lemma_entries_view_push(old_r, (name, c));
                    assert(scale_coeffs(s, k as int)[i as int] == (s[i as int].0, s[i as int].1 * k));
                    assert(scale_coeffs(s, k as int).subrange(0, i + 1)
                        =~= scale_coeffs(s, k as int).subrange(0, i as int).push(scale_coeffs(s, k as int)[i as int]));
                }
            },
            None => {
                assert(!in_i128(s[i as int].1 * k));
                return None;
            },
        }
        i += 1;
    }
    assert(scale_coeffs(s, k as int).subrange(0, v@.len() as int) == scale_coeffs(s, k as int));
    Some(r)
}

fn find_entry(v: &Vec<(String, i128)>, name: &String) -> (r: Option<usize>)
    ensures
        r matches Some(i) ==> find_name(entries_view(v@), name@) == i,
        r is None ==> find_name(entries_view(v@), name@) == -1,
{
    let ghost s = entries_view(v@);
    proof { lemma_find_name(s, name@); }
    let mut i: usize = 0;
    while i < v.len()
        invariant
            i <= v@.len(),
            s == entries_view(v@),
            forall|j: int| 0 <= j < i ==> s[j].0 != name@,
            -1 <= find_name(s, name@) < s.len(),
            find_name(s, name@) >= 0 ==> s[find_name(s, name@)].0 == name@,
            find_name(s, name@) >= 0 ==> forall|j: int| 0 <= j < find_name(s, name@) ==> s[j].0 != name@,
            find_name(s, name@) < 0 ==> forall|j: int| 0 <= j < s.len() ==> s[j].0 != name@,
        decreases v@.len() - i,
    {
        if v[i].0 == *name {
            assert(s[i as int].0 == name@);
            return Some(i);
        }
        i += 1;
    }
    None
}

/// Adds `c * name` into `v`; `false` (leaving `v` as it was) when the new
/// coefficient would leave `i128`.
fn insert_entry(v: &mut Vec<(String, i128)>, name: &String, c: i128) -> (ok: bool)
    ensures
        ok == insert_fits(entries_view(old(v)@), name@, c as int),
        ok ==> entries_view(final(v)@) == insert_coeff(entries_view(old(v)@), name@, c as int),
        !ok ==> final(v)@ == old(v)@,
{
    let ghost s = entries_view(v@);
    proof { lemma_find_name(s, name@); }
    match find_entry(v, name) {
        None => {
            if c != 0 {
                v.push((name.clone(), c));
                assert(entries_view(v@) =~= s.push((name@, c as int)));
            }
            true
        },
        Some(i) => {
            match v[i].1.checked_add(c) {
                None => false,
                Some(sum) => {
                    if sum == 0 {
                        v.remove(i);
                        assert(entries_view(v@) =~= s.remove(i as int));
                    } else {
                        let entry_name = v[i].0.clone();
                        v.set(i, (entry_name, sum));
                        assert(entries_view(v@) =~= s.update(i as int, (name@, sum as int)));
                    }
                    true
                },
            }
        },
    }
}

/// Adds every entry of `t` into `s`, first to last.
fn merge_entries(s: Vec<(String, i128)>, t: &Vec<(String, i128)>) -> (r: Option<Vec<(String, i128)>>)
    ensures
        r is Some <==> merge_fits(entries_view(s@), entries_view(t@)),
        r matches Some(w) ==> entries_view(w@) == merge_coeffs(entries_view(s@), entries_view(t@)),
{
    let ghost sv = entries_view(s@);
    let ghost tv = entries_view(t@);
    let mut acc = s;
    let mut i: usize = 0;
    while i < t.len()
        invariant
            i <= t@.len(),
            tv == entries_view(t@),
            sv == entries_view(s@),
            merge_fits(sv, tv.subrange(0, i as int)),
            entries_view(acc@) == merge_coeffs(sv, tv.subrange(0, i as int)),
        decreases t@.len() - i,
    {
        let ghost prefix = tv.subrange(0, i as int);
        let ghost next = tv.subrange(0, i + 1);
        assert(next.drop_last() == prefix);
        assert(next.last() == tv[i as int]);
        assert(tv[i as int] == (t@[i as int].0@, t@[i as int].1 as int));
        if !insert_entry(&mut acc, &t[i].0, t[i].1) {
            proof {
                assert(tv[i as int] == (t@[i as int].0@, t@[i as int].1 as int));
                assert(merge_fits(sv, next) == (merge_fits(sv, prefix)
                    && insert_fits(merge_coeffs(sv, prefix), next.last().0, next.last().1)));
                assert(!merge_fits(sv, next));
                lemma_merge_fits_prefix(sv, tv, i + 1);
            }
            return None;
        }
        i += 1;
    }
    assert(tv.subrange(0, t@.len() as int) == tv);
    Some(acc)
}

proof fn lemma_merge_fits_prefix(s: Seq<(Seq<char>, int)>, t: Seq<(Seq<char>, int)>, k: int)
    requires
        0 <= k <= t.len(),
        !merge_fits(s, t.subrange(0, k)),
    ensures
        !merge_fits(s, t),
    decreases t.len() - k,
{
    if k < t.len() {
        let next = t.subrange(0, k + 1);
        assert(next.drop_last() == t.subrange(0, k));
        lemma_merge_fits_prefix(s, t, k + 1);
    } else {
        assert(t.subrange(0, k) == t);
    }
}

impl LinearTerm {
    /// The well-formedness invariant every term built here keeps.
    pub open spec fn wf(&self) -> bool {
        lin_wf(self@)
    }

    /// A copy with the same model.
    pub fn duplicate(&self) -> (r: Self)
        ensures
            r@ == self@,
    {
        LinearTerm { coeffs: copy_entries(&self.coeffs), constant: self.constant, denom: self.denom }
    }

    /// The constant term `v`.
    pub fn constant(v: i64) -> (r: Self)
        ensures
            r@ == lin_constant(v as int),
            r.wf(),
    {
        let r = LinearTerm { coeffs: Vec::new(), constant: v as i128, denom: 1 };
        assert(r@.coeffs =~= Seq::<(Seq<char>, int)>::empty());
        r
    }

    /// The variable `name`.
    pub fn var(name: &str) -> (r: Self)
        ensures
            r@ == lin_var(name@),
            r.wf(),
    {
        let mut coeffs: Vec<(String, i128)> = Vec::new();
        coeffs.push((name.to_owned(), 1));
        let r = LinearTerm { coeffs, constant: 0, denom: 1 };
        assert(r@.coeffs =~= seq![(name@, 1int)]);
        r
    }

    /// `self + other`; `None` when an intermediate number leaves `i128`.
    pub fn add(&self, other: &Self) -> (r: Option<Self>)
        requires
            self.wf(),
            other.wf(),
        ensures
            r is Some <==> add_fits(self@, other@),
            r matches Some(t) ==> t@ == lin_add(self@, other@) && t.wf(),
    {
        proof { lemma_lin_add_wf(self@, other@); }
        let a = scale_entries(&self.coeffs, other.denom);
        let b = scale_entries(&other.coeffs, self.denom);
        let (a, b) = match (a, b) {
            (Some(a), Some(b)) => (a, b),
            _ => return None,
        };
        let merged = merge_entries(a, &b);
        let ca = self.constant.checked_mul(other.denom);
        let cb = other.constant.checked_mul(self.denom);
        let dd = self.denom.checked_mul(other.denom);
        match (merged, ca, cb, dd) {
            (Some(coeffs), Some(ca), Some(cb), Some(denom)) => match ca.checked_add(cb) {
                Some(constant) => Some(LinearTerm { coeffs, constant, denom }),
                None => None,
            },
            _ => None,
        }
    }

    /// `self * num / den` (for `den != 0`), with the denominator kept
    /// positive; `None` when an intermediate number leaves `i128`.
    pub fn scale(&self, num: i128, den: i128) -> (r: Option<Self>)
        requires
            self.wf(),
            den != 0,
        ensures
            r is Some <==> scale_ok(self@, num as int, den as int),
            r matches Some(t) ==> t@ == lin_scale(self@, num as int, den as int) && t.wf(),
    {
        proof { lemma_lin_scale_wf(self@, num as int, den as int); }
        let (k, pos_den) = if den < 0 {
            if num == i128::MIN || den == i128::MIN {
                return None;
            }
            (-num, -den)
        } else {
            (num, den)
        };
        let coeffs = scale_entries(&self.coeffs, k);
        let constant = self.constant.checked_mul(k);
        let denom = self.denom.checked_mul(pos_den);
        match (coeffs, constant, denom) {
            (Some(coeffs), Some(constant), Some(denom)) => Some(LinearTerm { coeffs, constant, denom }),
            _ => None,
        }
    }

    /// `-self`; `None` when a coefficient is `i128::MIN`.
    pub fn negate(&self) -> (r: Option<Self>)
        requires
            self.wf(),
        ensures
            r is Some <==> scale_ok(self@, -1, 1),
            r matches Some(t) ==> t@ == lin_scale(self@, -1, 1) && t.wf(),
    {
        self.scale(-1, 1)
    }

    /// Whether the term mentions no variable.
    pub fn is_constant(&self) -> (r: bool)
        ensures
            r == (self@.coeffs.len() == 0),
    {
        self.coeffs.len() == 0
    }
}


/// Failure to bring an expression into the supported linear-arithmetic
/// fragment: a nonlinear term, a call, any other unsupported construct, or
/// a coefficient beyond the `i128` range.
#[derive(Debug)]
pub struct NotLinear(pub String);

fn not_linear(message: &str) -> (r: NotLinear)
    ensures
        r.0@ == message@,
{
    NotLinear(message.to_owned())
}

/// Whether every number `normalize` computes for `e` stays within `i128`.
pub open spec fn lin_fits(e: Expr) -> bool
    decreases e,
{
    match e.kind {
        ExprKind::Unary(UnOp::Neg, inner) => lin_fits(*inner) && match lin_of(*inner) {
            Some(m) => scale_ok(m, -1, 1),
            None => true,
        },
        ExprKind::Binary(op, lhs, rhs) => lin_fits(*lhs) && match lin_of(*lhs) {
            Some(l) => is_arith_op(op) ==> (lin_fits(*rhs) && match lin_of(*rhs) {
                Some(r) => combine_fits(op, l, r),
                None => true,
            }),
            None => true,
        },
        _ => true,
    }
}

pub open spec fn combine_fits(op: BinOp, l: LinModel, r: LinModel) -> bool {
    match op {
        BinOp::Add => add_fits(l, r),
        BinOp::Sub => scale_ok(r, -1, 1) && add_fits(l, lin_scale(r, -1, 1)),
        BinOp::Mul => if l.coeffs.len() == 0 {
            scale_ok(r, l.constant, l.denom)
        } else if r.coeffs.len() == 0 {
            scale_ok(l, r.constant, r.denom)
        } else {
            true
        },
        BinOp::Div => if r.coeffs.len() == 0 && r.constant != 0 {
            scale_ok(l, r.denom, r.constant)
        } else {
            true
        },
        _ => true,
    }
}

fn overflow_error() -> (r: NotLinear)
    ensures
        r.0@ == "a coefficient of the linear form is outside the supported integer range"@,
{
    not_linear("a coefficient of the linear form is outside the supported integer range")
}

/// Normalizes an arithmetic expression into a `LinearTerm`. A bare path
/// becomes a variable named by its last segment; there is no need to check
/// which names are in scope here, since an out-of-scope reference has
/// already failed name resolution earlier in the pipeline.
pub fn normalize(expr: &Expr) -> (r: Result<LinearTerm, NotLinear>)
    ensures
        r is Ok <==> (lin_of(*expr) is Some && lin_fits(*expr)),
        r matches Ok(t) ==> t@ == lin_of(*expr).unwrap() && t.wf(),
    decreases expr,
{
    match &expr.kind {
        ExprKind::Literal(Lit::Integer(v)) => Ok(LinearTerm::constant(*v)),
        ExprKind::Path(path) => match path.last_name() {
            Some(name) => Ok(LinearTerm::var(name.as_str())),
            None => {
                proof { reveal_strlit(""); }
                assert(""@ =~= Seq::<char>::empty());
                Ok(LinearTerm::var(""))
            },
        },
        ExprKind::Unary(UnOp::Neg, inner) => {
            let t = normalize(inner)?;
            match t.negate() {
                Some(n) => Ok(n),
                None => Err(overflow_error()),
            }
        },
        ExprKind::Binary(op, lhs, rhs) => {
            let l = normalize(lhs)?;
            match op {
                BinOp::Add => {
                    let r = normalize(rhs)?;
                    match l.add(&r) {
                        Some(t) => Ok(t),
                        None => Err(overflow_error()),
                    }
                },
                BinOp::Sub => {
                    let r = normalize(rhs)?;
                    match r.negate() {
                        Some(nr) => match l.add(&nr) {
                            Some(t) => Ok(t),
                            None => Err(overflow_error()),
                        },
                        None => Err(overflow_error()),
                    }
                },
                BinOp::Mul => {
                    let r = normalize(rhs)?;
                    let scaled = if l.is_constant() {
                        r.scale(l.constant, l.denom)
                    } else if r.is_constant() {
                        l.scale(r.constant, r.denom)
                    } else {
                        return Err(not_linear(
                            "nonlinear term (variable * variable) is outside the supported linear-arithmetic fragment",
                        ));
                    };
                    match scaled {
                        Some(t) => Ok(t),
                        None => Err(overflow_error()),
                    }
                },
                BinOp::Div => {
                    let r = normalize(rhs)?;
                    if l.is_constant() && r.is_constant() && r.constant != 0 {
                        match l.scale(r.denom, r.constant) {
                            Some(t) => if t.constant % t.denom == 0 {
                                proof { crate::refinement::meaning::lemma_trunc_rem_zero(t.constant as int, t.denom as int); }
                                assert(is_whole(t@));
                                Ok(t)
                            } else {
                                proof { crate::refinement::meaning::lemma_trunc_rem_zero(t.constant as int, t.denom as int); }
                                assert(!is_whole(t@));
                                Err(not_linear(
                                    "a division that leaves a remainder is outside the supported integer fragment",
                                ))
                            },
                            None => Err(overflow_error()),
                        }
                    } else {
                        Err(not_linear(
                            "division of or by a non-constant is outside the supported linear-arithmetic fragment",
                        ))
                    }
                },
                _ => Err(not_linear("the operator is not an arithmetic operator")),
            }
        },
        _ => Err(not_linear("expression is outside the supported linear-arithmetic fragment")),
    }
}

#[derive(Debug, Clone, Copy, PartialEq, Eq, Structural)]
pub enum Rel {
    Lt,
    Le,
    Gt,
    Ge,
    Eq,
    Ne,
}

pub open spec fn spec_negate_rel(rel: Rel) -> Rel {
    match rel {
        Rel::Lt => Rel::Ge,
        Rel::Le => Rel::Gt,
        Rel::Gt => Rel::Le,
        Rel::Ge => Rel::Lt,
        Rel::Eq => Rel::Ne,
        Rel::Ne => Rel::Eq,
    }
}

/// The negated relation holds exactly where the relation fails.
pub proof fn lemma_negate_rel(rel: Rel, v: int)
    ensures
        rel_holds(spec_negate_rel(rel), v) == !rel_holds(rel, v),
{
}

/// Negating a relation twice gives it back.
pub proof fn lemma_negate_rel_involutive(rel: Rel)
    ensures
        spec_negate_rel(spec_negate_rel(rel)) == rel,
{
}

/// The relation that holds exactly where `rel` fails.
pub fn negate_rel(rel: Rel) -> (r: Rel)
    ensures
        r == spec_negate_rel(rel),
        forall|v: int| rel_holds(r, v) == !rel_holds(rel, v),
{
    match rel {
        Rel::Lt => Rel::Ge,
        Rel::Le => Rel::Gt,
        Rel::Gt => Rel::Le,
        Rel::Ge => Rel::Lt,
        Rel::Eq => Rel::Ne,
        Rel::Ne => Rel::Eq,
    }
}

/// `term REL 0`.
#[derive(Debug)]
pub struct LinearConstraint {
    pub term: LinearTerm,
    pub rel: Rel,
}

impl View for LinearConstraint {
    type V = (LinModel, Rel);

    open spec fn view(&self) -> (LinModel, Rel) {
        (self.term@, self.rel)
    }
}

/// The models of a list of constraints.
pub open spec fn constraints_view(v: Seq<LinearConstraint>) -> Seq<(LinModel, Rel)> {
    v.map_values(|c: LinearConstraint| c@)
}

/// Every term of the list is well formed.
pub open spec fn constraints_wf(v: Seq<LinearConstraint>) -> bool {
    forall|i: int| 0 <= i < v.len() ==> (#[trigger] v[i]).term.wf()
}

fn is_comparison(op: &BinOp) -> (r: bool)
    ensures
        r == is_comparison_op(*op),
{
    match op {
        BinOp::Lt | BinOp::Le | BinOp::Gt | BinOp::Ge | BinOp::Eq | BinOp::Ne => true,
        _ => false,
    }
}

fn rel_of(op: &BinOp) -> (r: Rel)
    requires
        is_comparison_op(*op),
    ensures
        r == spec_rel_of(*op),
{
    match op {
        BinOp::Lt => Rel::Lt,
        BinOp::Le => Rel::Le,
        BinOp::Gt => Rel::Gt,
        BinOp::Ge => Rel::Ge,
        BinOp::Eq => Rel::Eq,
        _ => Rel::Ne,
    }
}

/// Whether every number `to_conjuncts` computes for `e` stays within `i128`.
pub open spec fn conj_fits(e: Expr) -> bool
    decreases e,
{
    match e.kind {
        ExprKind::Binary(BinOp::And, lhs, rhs) => conj_fits(*lhs) && (conj_of(*lhs) is Some ==> conj_fits(*rhs)),
        ExprKind::Binary(op, lhs, rhs) => is_comparison_op(op) ==> (lin_fits(*lhs) && match lin_of(*lhs) {
            Some(a) => lin_fits(*rhs) && match lin_of(*rhs) {
                Some(b) => scale_ok(b, -1, 1) && add_fits(a, lin_scale(b, -1, 1)),
                None => true,
            },
            None => true,
        }),
        _ => true,
    }
}

/// Normalizes a predicate into its top-level conjuncts: comparisons joined
/// by `&&` only (`||` and non-comparison boolean atoms are outside the
/// supported fragment).
pub fn to_conjuncts(expr: &Expr) -> (r: Result<Vec<LinearConstraint>, NotLinear>)
    ensures
        r is Ok <==> (conj_of(*expr) is Some && conj_fits(*expr)),
        r matches Ok(cs) ==> constraints_view(cs@) == conj_of(*expr).unwrap() && constraints_wf(cs@),
    decreases expr,
{
    match &expr.kind {
        ExprKind::Binary(BinOp::And, lhs, rhs) => {
            let mut out = to_conjuncts(lhs)?;
            let mut rest = to_conjuncts(rhs)?;
            let ghost a = out@;
            let ghost b = rest@;
            out.append(&mut rest);
            assert(out@ == a + b);
            assert(constraints_view(out@) =~= constraints_view(a) + constraints_view(b));
            Ok(out)
        },
        ExprKind::Binary(op, lhs, rhs) => {
            if !is_comparison(op) {
                return Err(not_linear(
                    "predicate must be a conjunction of linear comparisons (comparisons + `&&` only)",
                ));
            }
            let l = normalize(lhs)?;
            let r = normalize(rhs)?;
            let term = match r.negate() {
                Some(nr) => match l.add(&nr) {
                    Some(t) => t,
                    None => return Err(overflow_error()),
                },
                None => return Err(overflow_error()),
            };
            assert(term@ == comparison_term(l@, r@));
            let mut out: Vec<LinearConstraint> = Vec::new();
            out.push(LinearConstraint { term, rel: rel_of(op) });
            assert(constraints_view(out@) =~= seq![(comparison_term(l@, r@), spec_rel_of(*op))]);
            Ok(out)
        },
        _ => Err(not_linear(
            "predicate must be a conjunction of linear comparisons (comparisons + `&&` only)",
        )),
    }
}


/// `term < 0` when `strict`, `term <= 0` otherwise; the term's denominator
/// is always one.
#[derive(Debug)]
struct Elementary {
    term: LinearTerm,
    strict: bool,
}

impl View for Elementary {
    type V = (LinModel, bool);

    closed spec fn view(&self) -> (LinModel, bool) {
        (self.term@, self.strict)
    }
}

spec fn elems_view(v: Seq<Elementary>) -> Seq<(LinModel, bool)> {
    v.map_values(|e: Elementary| e@)
}

spec fn elems_wf(v: Seq<Elementary>) -> bool {
    forall|i: int| 0 <= i < v.len() ==> (#[trigger] v[i]).term.wf() && v[i].term@.denom == 1
}

/// Some conjunction of the list holds.
pub open spec fn disj_holds(ds: Seq<Seq<(LinModel, bool)>>, sigma: Assignment, d: int) -> bool {
    exists|j: int| 0 <= j < ds.len() && elems_hold(#[trigger] ds[j], sigma, d)
}

spec fn nested_view(v: Seq<Vec<Elementary>>) -> Seq<Seq<(LinModel, bool)>> {
    v.map_values(|w: Vec<Elementary>| elems_view(w@))
}

spec fn nested_wf(v: Seq<Vec<Elementary>>) -> bool {
    forall|i: int| 0 <= i < v.len() ==> elems_wf((#[trigger] v[i])@)
}

proof fn lemma_elems_hold_push(es: Seq<(LinModel, bool)>, e: (LinModel, bool), sigma: Assignment, d: int)
    ensures
        elems_hold(es.push(e), sigma, d) == (elems_hold(es, sigma, d) && elem_holds(e, sigma, d)),
{
    if elems_hold(es, sigma, d) && elem_holds(e, sigma, d) {
        assert forall|i: int| 0 <= i < es.push(e).len() implies #[trigger] elem_holds(es.push(e)[i], sigma, d) by {
            if i < es.len() {
                assert(es.push(e)[i] == es[i]);
            }
        }
    }
    if elems_hold(es.push(e), sigma, d) {
        assert forall|i: int| 0 <= i < es.len() implies #[trigger] elem_holds(es[i], sigma, d) by {
            assert(es.push(e)[i] == es[i]);
        }
        assert(elem_holds(es.push(e)[es.len() as int], sigma, d));
    }
}

proof fn lemma_elems_hold_concat(a: Seq<(LinModel, bool)>, b: Seq<(LinModel, bool)>, sigma: Assignment, d: int)
    ensures
        elems_hold(a + b, sigma, d) == (elems_hold(a, sigma, d) && elems_hold(b, sigma, d)),
{
    let ab = a + b;
    if elems_hold(a, sigma, d) && elems_hold(b, sigma, d) {
        assert forall|i: int| 0 <= i < ab.len() implies #[trigger] elem_holds(ab[i], sigma, d) by {
            if i < a.len() {
                assert(ab[i] == a[i]);
            } else {
                assert(ab[i] == b[i - a.len()]);
            }
        }
    }
    if elems_hold(ab, sigma, d) {
        assert forall|i: int| 0 <= i < a.len() implies #[trigger] elem_holds(a[i], sigma, d) by {
            assert(ab[i] == a[i]);
        }
        assert forall|i: int| 0 <= i < b.len() implies #[trigger] elem_holds(b[i], sigma, d) by {
            assert(ab[i + a.len()] == b[i]);
        }
    }
}

fn elementary(term: &LinearTerm, strict: bool) -> (e: Elementary)
    requires
        term.wf(),
    ensures
        e.term.wf(),
        e.term@.denom == 1,
        e.term@.coeffs == term@.coeffs,
        e.term@.constant == term@.constant,
        e.strict == strict,
{
    Elementary {
        term: LinearTerm { coeffs: copy_entries(&term.coeffs), constant: term.constant, denom: 1 },
        strict,
    }
}

fn copy_elems(v: &Vec<Elementary>) -> (r: Vec<Elementary>)
    requires
        elems_wf(v@),
    ensures
        elems_view(r@) == elems_view(v@),
        elems_wf(r@),
{
    let mut r: Vec<Elementary> = Vec::new();
    let mut i: usize = 0;
    while i < v.len()
        invariant
            i <= v@.len(),
            elems_wf(v@),
            elems_wf(r@),
            r@.len() == i,
            elems_view(r@) == elems_view(v@).subrange(0, i as int),
        decreases v@.len() - i,
    {
        let e = Elementary { term: v[i].term.duplicate(), strict: v[i].strict };
        assert(e@ == v@[i as int]@);
        let ghost old_r = r@;
        r.push(e);
        assert(r@ == old_r.push(e));
        assert(old_r.len() == i);
        assert(r@[i as int] == e);
        assert(elems_view(r@).len() == r@.len());
        assert(elems_view(r@)[i as int] == r@[i as int]@);
        assert(elems_view(r@) =~= elems_view(v@).subrange(0, i + 1));
        i += 1;
    }
    assert(elems_view(v@).subrange(0, v@.len() as int) =~= elems_view(v@));
    r
}

/// `t` with its denominator dropped.
pub open spec fn integral(t: LinModel) -> LinModel {
    LinModel { coeffs: t.coeffs, constant: t.constant, denom: 1 }
}

/// The alternatives for the constraint `c`, each a conjunction of
/// elementary constraints over its term `t` (with the denominator dropped)
/// and `-t`.
pub open spec fn options_of(c: (LinModel, Rel)) -> Seq<Seq<(LinModel, bool)>> {
    let p = integral(c.0);
    let n = integral(lin_scale(p, -1, 1));
    match c.1 {
        Rel::Le => seq![seq![(p, false)]],
        Rel::Lt => seq![seq![(p, true)]],
        Rel::Ge => seq![seq![(n, false)]],
        Rel::Gt => seq![seq![(n, true)]],
        Rel::Eq => seq![seq![(p, false), (n, false)]],
        Rel::Ne => seq![seq![(p, true)], seq![(n, true)]],
    }
}

/// `d` extended by each of `os` in turn.
pub open spec fn cross_row(d: Seq<(LinModel, bool)>, os: Seq<Seq<(LinModel, bool)>>) -> Seq<Seq<(LinModel, bool)>>
    decreases os.len(),
{
    if os.len() == 0 {
        Seq::empty()
    } else {
        cross_row(d, os.drop_last()).push(d + os.last())
    }
}

/// Each of `ds` extended by each of `os`, row by row.
pub open spec fn cross(ds: Seq<Seq<(LinModel, bool)>>, os: Seq<Seq<(LinModel, bool)>>) -> Seq<Seq<(LinModel, bool)>>
    decreases ds.len(),
{
    if ds.len() == 0 {
        Seq::empty()
    } else {
        cross(ds.drop_last(), os) + cross_row(ds.last(), os)
    }
}

/// The disjunction of elementary conjunctions that `cs` expands into: one
/// alternative of each constraint, in every combination.
pub open spec fn expansion(cs: Seq<(LinModel, Rel)>) -> Seq<Seq<(LinModel, bool)>>
    decreases cs.len(),
{
    if cs.len() == 0 {
        seq![Seq::empty()]
    } else {
        cross(expansion(cs.drop_last()), options_of(cs.last()))
    }
}

/// The alternatives for one constraint, each a conjunction of elementary
/// constraints: an equality becomes two non-strict inequalities, a
/// disequality a choice between two strict ones.
fn elementary_options(c: &LinearConstraint) -> (r: Option<Vec<Vec<Elementary>>>)
    requires
        c.term.wf(),
    ensures
        r is Some <==> scale_ok(c.term@, -1, 1),
        r matches Some(opts) ==> nested_view(opts@) == options_of(c@),
        r matches Some(opts) ==> nested_wf(opts@) && forall|sigma: Assignment, d: int| d > 0 ==>
            (rel_holds(c.rel, lin_num(c.term@, sigma, d)) <==> #[trigger] disj_holds(nested_view(opts@), sigma, d)),
{
    let pos = elementary(&c.term, false);
    let ghost t = pos.term@;
    assert(scale_ok(t, -1, 1) == scale_ok(c.term@, -1, 1)) by {
        assert(sign_of(1) == 1);
    }
    let neg = match pos.term.negate() {
        Some(n) => n,
        None => return None,
    };
    let ghost nt = neg@;
    assert(t == integral(c.term@));
    assert(nt.denom == 1) by {
        assert(sign_of(1) == 1);
        assert(t.denom * (1 * 1) == 1) by (nonlinear_arith) requires t.denom == 1;
    }
    assert forall|sigma: Assignment, d: int| #[trigger] lin_num(nt, sigma, d) == -lin_num(c.term@, sigma, d) by {
        lemma_lin_scale(t, -1, 1, sigma, d);
        assert(sign_of(1) == 1);
        assert(lin_num(t, sigma, d) == lin_num(c.term@, sigma, d));
        assert((-1 * 1) * lin_num(t, sigma, d) == -lin_num(t, sigma, d)) by (nonlinear_arith);
    }
    let mut opts: Vec<Vec<Elementary>> = Vec::new();
    match c.rel {
        Rel::Le => {
            let mut a: Vec<Elementary> = Vec::new();
            a.push(elementary(&c.term, false));
            opts.push(a);
        },
        Rel::Lt => {
            let mut a: Vec<Elementary> = Vec::new();
            a.push(elementary(&c.term, true));
            opts.push(a);
        },
        Rel::Ge => {
            let mut a: Vec<Elementary> = Vec::new();
            a.push(elementary(&neg, false));
            opts.push(a);
        },
        Rel::Gt => {
            let mut a: Vec<Elementary> = Vec::new();
            a.push(elementary(&neg, true));
            opts.push(a);
        },
        Rel::Eq => {
            let mut a: Vec<Elementary> = Vec::new();
            a.push(elementary(&c.term, false));
            a.push(elementary(&neg, false));
            opts.push(a);
        },
        Rel::Ne => {
            let mut a: Vec<Elementary> = Vec::new();
            a.push(elementary(&c.term, true));
            let mut b: Vec<Elementary> = Vec::new();
            b.push(elementary(&neg, true));
            opts.push(a);
            opts.push(b);
        },
    }
    assert(integral(nt) == nt);
    assert(nested_view(opts@) =~~= options_of(c@));
    assert forall|sigma: Assignment, d: int| d > 0 implies
        (rel_holds(c.rel, lin_num(c.term@, sigma, d)) <==> #[trigger] disj_holds(nested_view(opts@), sigma, d)) by {
        let ds = nested_view(opts@);
        assert(lin_num(nt, sigma, d) == -lin_num(c.term@, sigma, d));
        assert(forall|j: int| 0 <= j < ds.len() ==> #[trigger] ds[j] == elems_view(opts@[j]@));
        assert(forall|j: int, k: int| 0 <= j < ds.len() && 0 <= k < ds[j].len() ==>
            #[trigger] ds[j][k] == opts@[j]@[k]@);
        if rel_holds(c.rel, lin_num(c.term@, sigma, d)) {
            if c.rel == Rel::Ne && lin_num(c.term@, sigma, d) > 0 {
                assert(elems_hold(ds[1], sigma, d));
            } else {
                assert(elems_hold(ds[0], sigma, d));
            }
        }
        if disj_holds(ds, sigma, d) {
            let j = choose|j: int| 0 <= j < ds.len() && elems_hold(#[trigger] ds[j], sigma, d);
            assert(elem_holds(ds[j][0], sigma, d));
            if c.rel == Rel::Eq {
                assert(elem_holds(ds[j][1], sigma, d));
            }
        }
    }
    Some(opts)
}


proof fn lemma_disj_push(ds: Seq<Seq<(LinModel, bool)>>, e: Seq<(LinModel, bool)>, sigma: Assignment, d: int)
    ensures
        disj_holds(ds.push(e), sigma, d) == (disj_holds(ds, sigma, d) || elems_hold(e, sigma, d)),
{
    let dp = ds.push(e);
    if disj_holds(ds, sigma, d) {
        let j = choose|j: int| 0 <= j < ds.len() && elems_hold(#[trigger] ds[j], sigma, d);
        assert(dp[j] == ds[j]);
    }
    if elems_hold(e, sigma, d) {
        assert(dp[ds.len() as int] == e);
    }
    if disj_holds(dp, sigma, d) {
        let j = choose|j: int| 0 <= j < dp.len() && elems_hold(#[trigger] dp[j], sigma, d);
        if j < ds.len() {
            assert(dp[j] == ds[j]);
        }
    }
}

proof fn lemma_all_hold_take(cs: Seq<(LinModel, Rel)>, k: int, sigma: Assignment, d: int)
    requires
        0 <= k < cs.len(),
    ensures
        all_hold(cs.take(k + 1), sigma, d) == (all_hold(cs.take(k), sigma, d)
            && rel_holds(cs[k].1, lin_num(cs[k].0, sigma, d))),
{
    let a = cs.take(k);
    let b = cs.take(k + 1);
    if all_hold(a, sigma, d) && rel_holds(cs[k].1, lin_num(cs[k].0, sigma, d)) {
        assert forall|i: int| 0 <= i < b.len() implies #[trigger] rel_holds(b[i].1, lin_num(b[i].0, sigma, d)) by {
            if i < k {
                assert(b[i] == a[i]);
            }
        }
    }
    if all_hold(b, sigma, d) {
        assert forall|i: int| 0 <= i < a.len() implies #[trigger] rel_holds(a[i].1, lin_num(a[i].0, sigma, d)) by {
            assert(b[i] == a[i]);
        }
        assert(rel_holds(b[k].1, lin_num(b[k].0, sigma, d)));
    }
}

/// Some alternative among the first `a` holds.
spec fn some_prefix_holds(ds: Seq<Seq<(LinModel, bool)>>, a: int, sigma: Assignment, d: int) -> bool {
    exists|i: int| 0 <= i < a && elems_hold(#[trigger] ds[i], sigma, d)
}

proof fn lemma_cross_push(
    pre: Seq<Seq<(LinModel, bool)>>,
    d: Seq<(LinModel, bool)>,
    os: Seq<Seq<(LinModel, bool)>>,
    b: int,
)
    requires
        0 <= b < os.len(),
    ensures
        (pre + cross_row(d, os.take(b))).push(d + os[b]) == pre + cross_row(d, os.take(b + 1)),
{
    assert(os.take(b + 1).drop_last() =~= os.take(b));
    assert(os.take(b + 1).last() == os[b]);
    assert((pre + cross_row(d, os.take(b))).push(d + os[b]) =~= pre + cross_row(d, os.take(b + 1)));
}

proof fn lemma_cross_next(ds: Seq<Seq<(LinModel, bool)>>, os: Seq<Seq<(LinModel, bool)>>, a: int)
    requires
        0 <= a < ds.len(),
    ensures
        cross(ds.take(a), os) + cross_row(ds[a], os.take(os.len() as int)) == cross(ds.take(a + 1), os),
{
    assert(os.take(os.len() as int) =~= os);
    assert(ds.take(a + 1).drop_last() =~= ds.take(a));
    assert(ds.take(a + 1).last() == ds[a]);
}

/// `=`/`!=` are not one elementary `<=`/`<` constraint each: expands them
/// (an equality into two non-strict inequalities, a disequality into a
/// choice of two strict ones) into a disjunction of elementary-only
/// conjunctions.
fn expand(constraints: &[LinearConstraint]) -> (r: Option<Vec<Vec<Elementary>>>)
    requires
        constraints_wf(constraints@),
    ensures
        r is Some <==> forall|j: int| 0 <= j < constraints@.len() ==> scale_ok(#[trigger] constraints@[j].term@, -1, 1),
        r matches Some(ds) ==> nested_view(ds@) == expansion(constraints_view(constraints@)),
        r matches Some(ds) ==> nested_wf(ds@) && forall|sigma: Assignment, d: int| d > 0 ==>
            (all_hold(constraints_view(constraints@), sigma, d) <==> #[trigger] disj_holds(nested_view(ds@), sigma, d)),
{
    let ghost cv = constraints_view(constraints@);
    let mut disjuncts: Vec<Vec<Elementary>> = Vec::new();
    disjuncts.push(Vec::new());
    assert forall|sigma: Assignment, d: int| d > 0 implies
        (all_hold(cv.take(0), sigma, d) <==> #[trigger] disj_holds(nested_view(disjuncts@), sigma, d)) by {
        assert(nested_view(disjuncts@)[0] =~= Seq::<(LinModel, bool)>::empty());
        assert(elems_hold(nested_view(disjuncts@)[0], sigma, d));
    }
    assert(nested_view(disjuncts@) =~~= expansion(cv.take(0)));
    let mut k: usize = 0;
    while k < constraints.len()
        invariant
            k <= constraints@.len(),
            constraints_wf(constraints@),
            cv == constraints_view(constraints@),
            nested_wf(disjuncts@),
            forall|sigma: Assignment, d: int| d > 0 ==>
                (all_hold(cv.take(k as int), sigma, d) <==> #[trigger] disj_holds(nested_view(disjuncts@), sigma, d)),
            forall|j: int| 0 <= j < k ==> scale_ok(#[trigger] constraints@[j].term@, -1, 1),
            nested_view(disjuncts@) == expansion(cv.take(k as int)),
        decreases constraints@.len() - k,
    {
        assert(constraints@[k as int].term.wf());
        let opts = match elementary_options(&constraints[k]) {
            Some(o) => o,
            None => return None,
        };
        let ghost dv = nested_view(disjuncts@);
        let ghost ov = nested_view(opts@);
        assert(cv[k as int] == constraints@[k as int]@);
        let mut next: Vec<Vec<Elementary>> = Vec::new();
        assert(nested_view(next@) =~~= cross(dv.take(0), ov));
        let mut a: usize = 0;
        while a < disjuncts.len()
            invariant
                nested_view(next@) == cross(dv.take(a as int), ov),
                a <= disjuncts@.len(),
                nested_wf(disjuncts@),
                nested_wf(opts@),
                nested_wf(next@),
                dv == nested_view(disjuncts@),
                ov == nested_view(opts@),
                forall|sigma: Assignment, d: int| #[trigger] disj_holds(nested_view(next@), sigma, d) ==>
                    disj_holds(dv, sigma, d) && disj_holds(ov, sigma, d),
                forall|sigma: Assignment, d: int| #[trigger] some_prefix_holds(dv, a as int, sigma, d)
                    && disj_holds(ov, sigma, d) ==> disj_holds(nested_view(next@), sigma, d),
            decreases disjuncts@.len() - a,
        {
            assert(cross(dv.take(a as int), ov) + cross_row(dv[a as int], ov.take(0)) =~~= cross(dv.take(a as int), ov));
            let mut b: usize = 0;
            while b < opts.len()
                invariant
                    nested_view(next@) == cross(dv.take(a as int), ov) + cross_row(dv[a as int], ov.take(b as int)),
                    a < disjuncts@.len(),
                    b <= opts@.len(),
                    nested_wf(disjuncts@),
                    nested_wf(opts@),
                    nested_wf(next@),
                    dv == nested_view(disjuncts@),
                    ov == nested_view(opts@),
                    forall|sigma: Assignment, d: int| #[trigger] disj_holds(nested_view(next@), sigma, d) ==>
                        disj_holds(dv, sigma, d) && disj_holds(ov, sigma, d),
                    forall|sigma: Assignment, d: int| #[trigger] some_prefix_holds(dv, a as int, sigma, d)
                        && disj_holds(ov, sigma, d) ==> disj_holds(nested_view(next@), sigma, d),
                    forall|sigma: Assignment, d: int| #[trigger] elems_hold(dv[a as int], sigma, d)
                        && some_prefix_holds(ov, b as int, sigma, d) ==> disj_holds(nested_view(next@), sigma, d),
                decreases opts@.len() - b,
            {
                assert(elems_wf(disjuncts@[a as int]@));
                assert(elems_wf(opts@[b as int]@));
                let mut combined = copy_elems(&disjuncts[a]);
                let mut extra = copy_elems(&opts[b]);
                let ghost cpart = elems_view(combined@);
                let ghost epart = elems_view(extra@);
                assert(cpart == dv[a as int]);
                assert(epart == ov[b as int]);
                let ghost c_old = combined@;
                let ghost e_old = extra@;
                combined.append(&mut extra);
                assert(combined@ == c_old + e_old);
                assert(elems_view(combined@) =~= cpart + epart);
                assert(elems_wf(combined@)) by {
                    assert forall|i: int| 0 <= i < combined@.len() implies
                        (#[trigger] combined@[i]).term.wf() && combined@[i].term@.denom == 1 by {
                        if i < c_old.len() {
                            assert(combined@[i] == c_old[i]);
                        } else {
                            assert(combined@[i] == e_old[i - c_old.len()]);
                        }
                    }
                }
                let ghost old_next = next@;
                next.push(combined);
                assert(nested_view(next@) =~= nested_view(old_next).push(cpart + epart));
                proof { lemma_cross_push(cross(dv.take(a as int), ov), dv[a as int], ov, b as int); }
                assert forall|sigma: Assignment, d: int| #[trigger] disj_holds(nested_view(next@), sigma, d) implies
                    disj_holds(dv, sigma, d) && disj_holds(ov, sigma, d) by {
                    lemma_disj_push(nested_view(old_next), cpart + epart, sigma, d);
                    if elems_hold(cpart + epart, sigma, d) {
                        lemma_elems_hold_concat(cpart, epart, sigma, d);
                        assert(elems_hold(dv[a as int], sigma, d));
                        assert(elems_hold(ov[b as int], sigma, d));
                    }
                }
                assert forall|sigma: Assignment, d: int| #[trigger] some_prefix_holds(dv, a as int, sigma, d)
                    && disj_holds(ov, sigma, d) implies disj_holds(nested_view(next@), sigma, d) by {
                    lemma_disj_push(nested_view(old_next), cpart + epart, sigma, d);
                }
                assert forall|sigma: Assignment, d: int| #[trigger] elems_hold(dv[a as int], sigma, d)
                    && some_prefix_holds(ov, b + 1, sigma, d) implies disj_holds(nested_view(next@), sigma, d) by {
                    lemma_disj_push(nested_view(old_next), cpart + epart, sigma, d);
                    let j = choose|j: int| 0 <= j < b + 1 && elems_hold(#[trigger] ov[j], sigma, d);
                    if j == b {
                        lemma_elems_hold_concat(cpart, epart, sigma, d);
                    } else {
                        assert(some_prefix_holds(ov, b as int, sigma, d));
                    }
                }
                b += 1;
            }
            assert forall|sigma: Assignment, d: int| #[trigger] some_prefix_holds(dv, a + 1, sigma, d)
                && disj_holds(ov, sigma, d) implies disj_holds(nested_view(next@), sigma, d) by {
                let i = choose|i: int| 0 <= i < a + 1 && elems_hold(#[trigger] dv[i], sigma, d);
                if i == a {
                    let j = choose|j: int| 0 <= j < ov.len() && elems_hold(#[trigger] ov[j], sigma, d);
                    assert(some_prefix_holds(ov, opts@.len() as int, sigma, d));
                } else {
                    assert(some_prefix_holds(dv, a as int, sigma, d));
                }
            }
            proof { lemma_cross_next(dv, ov, a as int); }
            a += 1;
        }
        assert forall|sigma: Assignment, d: int| d > 0 implies
            (all_hold(cv.take(k + 1), sigma, d) <==> #[trigger] disj_holds(nested_view(next@), sigma, d)) by {
            lemma_all_hold_take(cv, k as int, sigma, d);
            assert(cv[k as int] == constraints@[k as int]@);
            if disj_holds(dv, sigma, d) && disj_holds(ov, sigma, d) {
                let i = choose|i: int| 0 <= i < dv.len() && elems_hold(#[trigger] dv[i], sigma, d);
                assert(some_prefix_holds(dv, disjuncts@.len() as int, sigma, d));
            }
        }
        proof {
            assert(dv.take(dv.len() as int) =~= dv);
            assert(cv.take(k + 1).drop_last() =~= cv.take(k as int));
            assert(cv.take(k + 1).last() == cv[k as int]);
        }
        disjuncts = next;
        k += 1;
    }
    assert(cv.take(constraints@.len() as int) =~= cv);
    Some(disjuncts)
}


fn coeff_in(t: &LinearTerm, v: &String) -> (k: i128)
    requires
        t.wf(),
    ensures
        k == coeff_of(t@.coeffs, v@),
{
    match find_entry(&t.coeffs, v) {
        Some(i) => {
            proof { lemma_find_name(t@.coeffs, v@); }
            t.coeffs[i].1
        },
        None => 0,
    }
}

/// Some listed name is `n`.
spec fn listed(vars: Seq<String>, from: int, n: Seq<char>) -> bool {
    exists|j: int| 0 <= j && from <= j < vars.len() && (#[trigger] vars[j])@ == n
}

/// The names of a coefficient list, in order.
pub open spec fn coeff_names(s: Seq<(Seq<char>, int)>) -> Seq<Seq<char>> {
    s.map_values(|p: (Seq<char>, int)| p.0)
}

/// The names a list of elementary constraints mentions, in order of
/// appearance, with repetitions.
pub open spec fn mentioned_names(cs: Seq<(LinModel, bool)>) -> Seq<Seq<char>>
    decreases cs.len(),
{
    if cs.len() == 0 {
        Seq::empty()
    } else {
        mentioned_names(cs.drop_last()) + coeff_names(cs.last().0.coeffs)
    }
}

spec fn strings_view(v: Seq<String>) -> Seq<Seq<char>> {
    v.map_values(|s: String| s@)
}

/// Every name any of the constraints mentions, possibly with repetitions.
fn collect_vars(cs: &Vec<Elementary>) -> (vars: Vec<String>)
    ensures
        strings_view(vars@) == mentioned_names(elems_view(cs@)),
        forall|k: int, n: Seq<char>| 0 <= k < cs@.len() && #[trigger] names_of(cs@[k].term@.coeffs).contains(n)
            ==> listed(vars@, 0, n),
{
    let mut vars: Vec<String> = Vec::new();
    let mut k: usize = 0;
    while k < cs.len()
        invariant
            k <= cs@.len(),
            forall|k2: int, n: Seq<char>| 0 <= k2 < k && #[trigger] names_of(cs@[k2].term@.coeffs).contains(n)
                ==> listed(vars@, 0, n),
            strings_view(vars@) == mentioned_names(elems_view(cs@).take(k as int)),
        decreases cs@.len() - k,
    {
        let coeffs = &cs[k].term.coeffs;
        let ghost s = entries_view(coeffs@);
        let ghost before = strings_view(vars@);
        let mut j: usize = 0;
        while j < coeffs.len()
            invariant
                j <= coeffs@.len(),
                s == entries_view(coeffs@),
                strings_view(vars@) == before + coeff_names(s.take(j as int)),
                coeffs == &cs@[k as int].term.coeffs,
                forall|k2: int, n: Seq<char>| 0 <= k2 < k && #[trigger] names_of(cs@[k2].term@.coeffs).contains(n)
                    ==> listed(vars@, 0, n),
                forall|i: int| 0 <= i < j ==> listed(vars@, 0, #[trigger] s[i].0),
            decreases coeffs@.len() - j,
        {
            let ghost old_vars = vars@;
            let name = coeffs[j].0.clone();
            vars.push(name);
            assert(vars@ == old_vars.push(name));
            assert(s[j as int] == (coeffs@[j as int].0@, coeffs@[j as int].1 as int));
            assert(vars@[old_vars.len() as int]@ == s[j as int].0);
            assert forall|q: int, n: Seq<char>| listed(old_vars, q, n) implies listed(vars@, q, n) by {
                let w = choose|w: int| 0 <= w && q <= w < old_vars.len() && (#[trigger] old_vars[w])@ == n;
                assert(vars@[w] == old_vars[w]);
            }
            assert(strings_view(vars@) =~= strings_view(old_vars).push(name@));
            assert(coeff_names(s.take(j + 1)) =~= coeff_names(s.take(j as int)).push(s[j as int].0));
            assert(strings_view(vars@) =~= before + coeff_names(s.take(j + 1)));
            j += 1;
        }
        proof {
            let ev = elems_view(cs@);
            assert(ev.take(k + 1).drop_last() =~= ev.take(k as int));
            assert(ev.take(k + 1).last() == cs@[k as int]@);
            assert(s.take(s.len() as int) =~= s);
        }
        assert forall|n: Seq<char>| #[trigger] names_of(cs@[k as int].term@.coeffs).contains(n)
            implies listed(vars@, 0, n) by {
            let i = choose|i: int| 0 <= i < s.len() && s[i].0 == n;
        }
        k += 1;
    }
    assert(elems_view(cs@).take(cs@.len() as int) =~= elems_view(cs@));
    vars
}

/// Whether every number computed in eliminating `v` between the upper
/// bound `u` and the lower bound `l` stays within `i128`.
pub open spec fn bounds_fit(u: LinModel, l: LinModel, v: Seq<char>) -> bool {
    let ku = coeff_of(u.coeffs, v);
    let kl = coeff_of(l.coeffs, v);
    &&& scale_ok(u, -kl, 1)
    &&& scale_ok(l, ku, 1)
    &&& add_fits(lin_scale(u, -kl, 1), lin_scale(l, ku, 1))
}

/// Eliminates `v` between an upper bound `u` and a lower bound `l`; `None`
/// when an intermediate number leaves `i128`.
fn combine(u: &Elementary, l: &Elementary, v: &String) -> (r: Option<Elementary>)
    requires
        u.term.wf(),
        l.term.wf(),
        u.term@.denom == 1,
        l.term@.denom == 1,
        coeff_of(u.term@.coeffs, v@) > 0,
        coeff_of(l.term@.coeffs, v@) < 0,
    ensures
        r is Some <==> bounds_fit(u.term@, l.term@, v@),
        r matches Some(c) ==> c@ == combine_bounds(u@, l@, v@) && c.term.wf() && c.term@.denom == 1,
{
    proof { lemma_combine_bounds(u@, l@, v@); }
    assert(sign_of(1) == 1);
    let ku = coeff_in(&u.term, v);
    let kl = coeff_in(&l.term, v);
    if kl == i128::MIN {
        return None;
    }
    let su = match u.term.scale(-kl, 1) {
        Some(t) => t,
        None => return None,
    };
    let sl = match l.term.scale(ku, 1) {
        Some(t) => t,
        None => return None,
    };
    match su.add(&sl) {
        Some(t) => Some(Elementary { term: t, strict: u.strict || l.strict }),
        None => None,
    }
}

/// Every model of `cs` satisfies all of `es`.
spec fn implied_by(es: Seq<(LinModel, bool)>, cs: Seq<(LinModel, bool)>) -> bool {
    forall|sigma: Assignment, d: int| #[trigger] elems_hold(cs, sigma, d) && d > 0 ==> elems_hold(es, sigma, d)
}

/// Every name the constraints mention is listed from position `from` on.
spec fn names_listed(cs: Seq<Elementary>, vars: Seq<String>, from: int) -> bool {
    forall|k: int, n: Seq<char>| 0 <= k < cs.len() && #[trigger] names_of(cs[k].term@.coeffs).contains(n)
        ==> listed(vars, from, n)
}

/// `1`, `-1` or `0` as `c` is positive, negative or zero.
pub open spec fn sign_class(c: int) -> int {
    if c > 0 { 1 } else if c < 0 { -1 } else { 0 }
}

/// Those of `cs` whose coefficient of `v` has sign `s`, in order.
pub open spec fn with_sign(cs: Seq<(LinModel, bool)>, v: Seq<char>, s: int) -> Seq<(LinModel, bool)>
    decreases cs.len(),
{
    if cs.len() == 0 {
        Seq::empty()
    } else {
        let rest = with_sign(cs.drop_last(), v, s);
        if sign_class(coeff_of(cs.last().0.coeffs, v)) == s { rest.push(cs.last()) } else { rest }
    }
}

/// `u` combined with each of `ls` in turn.
pub open spec fn bound_row(u: (LinModel, bool), ls: Seq<(LinModel, bool)>, v: Seq<char>) -> Seq<(LinModel, bool)>
    decreases ls.len(),
{
    if ls.len() == 0 {
        Seq::empty()
    } else {
        bound_row(u, ls.drop_last(), v).push(combine_bounds(u, ls.last(), v))
    }
}

/// Each of `us` combined with each of `ls`, row by row.
pub open spec fn bound_pairs(us: Seq<(LinModel, bool)>, ls: Seq<(LinModel, bool)>, v: Seq<char>) -> Seq<(LinModel, bool)>
    decreases us.len(),
{
    if us.len() == 0 {
        Seq::empty()
    } else {
        bound_pairs(us.drop_last(), ls, v) + bound_row(us.last(), ls, v)
    }
}

/// Every combination of an upper with a lower bound stays within `i128`.
pub open spec fn pairs_fit(us: Seq<(LinModel, bool)>, ls: Seq<(LinModel, bool)>, v: Seq<char>) -> bool {
    forall|p: int, q: int| 0 <= p < us.len() && 0 <= q < ls.len() ==> bounds_fit(#[trigger] us[p].0, #[trigger] ls[q].0, v)
}

/// The constraints left after eliminating `v`: those without it, then each
/// upper bound combined with each lower bound; `None` when a combination
/// leaves `i128`.
pub open spec fn elim_step(cs: Seq<(LinModel, bool)>, v: Seq<char>) -> Option<Seq<(LinModel, bool)>> {
    let zs = with_sign(cs, v, 0);
    let us = with_sign(cs, v, 1);
    let ls = with_sign(cs, v, -1);
    if us.len() > 0 && ls.len() > 0 {
        if pairs_fit(us, ls, v) { Some(zs + bound_pairs(us, ls, v)) } else { None }
    } else {
        Some(zs)
    }
}

/// The constraints left after eliminating each of `names` in turn; `None`
/// when a step leaves `i128`.
pub open spec fn elim_all(cs: Seq<(LinModel, bool)>, names: Seq<Seq<char>>) -> Option<Seq<(LinModel, bool)>>
    decreases names.len(),
{
    if names.len() == 0 {
        Some(cs)
    } else {
        match elim_step(cs, names[0]) {
            Some(next) => elim_all(next, names.subrange(1, names.len() as int)),
            None => None,
        }
    }
}

/// Whether Fourier–Motzkin elimination over `cs` stays within `i128`.
pub open spec fn elim_fits(cs: Seq<(LinModel, bool)>) -> bool {
    elim_all(cs, mentioned_names(cs)) is Some
}

/// Eliminating from `orig` the names listed before position `i` left `cv`.
spec fn elim_pending(orig: Seq<(LinModel, bool)>, cv: Seq<(LinModel, bool)>, names: Seq<Seq<char>>, i: int) -> bool {
    &&& 0 <= i <= names.len()
    &&& elim_all(orig, mentioned_names(orig)) == elim_all(cv, names.subrange(i, names.len() as int))
}

proof fn lemma_elim_next(orig: Seq<(LinModel, bool)>, cv: Seq<(LinModel, bool)>, names: Seq<Seq<char>>, i: int)
    requires
        elim_pending(orig, cv, names, i),
        i < names.len(),
    ensures
        elim_step(cv, names[i]) is None ==> !elim_fits(orig),
        elim_step(cv, names[i]) matches Some(next) ==> elim_pending(orig, next, names, i + 1),
{
    let rest = names.subrange(i, names.len() as int);
    assert(rest[0] == names[i]);
    assert(rest.subrange(1, rest.len() as int) =~= names.subrange(i + 1, names.len() as int));
}

proof fn lemma_row_push(
    pre: Seq<(LinModel, bool)>,
    u: (LinModel, bool),
    lv: Seq<(LinModel, bool)>,
    b: int,
    v: Seq<char>,
)
    requires
        0 <= b < lv.len(),
    ensures
        (pre + bound_row(u, lv.take(b), v)).push(combine_bounds(u, lv[b], v)) == pre + bound_row(u, lv.take(b + 1), v),
{
    assert(lv.take(b + 1).drop_last() =~= lv.take(b));
    assert(lv.take(b + 1).last() == lv[b]);
    assert((pre + bound_row(u, lv.take(b), v)).push(combine_bounds(u, lv[b], v))
        =~= pre + bound_row(u, lv.take(b + 1), v));
}

proof fn lemma_rows_next(
    zs: Seq<(LinModel, bool)>,
    uv: Seq<(LinModel, bool)>,
    lv: Seq<(LinModel, bool)>,
    a: int,
    v: Seq<char>,
)
    requires
        0 <= a < uv.len(),
    ensures
        zs + bound_pairs(uv.take(a), lv, v) + bound_row(uv[a], lv.take(lv.len() as int), v)
            == zs + bound_pairs(uv.take(a + 1), lv, v),
{
    assert(lv.take(lv.len() as int) =~= lv);
    assert(uv.take(a + 1).drop_last() =~= uv.take(a));
    assert(uv.take(a + 1).last() == uv[a]);
    assert(zs + bound_pairs(uv.take(a), lv, v) + bound_row(uv[a], lv, v)
        =~= zs + bound_pairs(uv.take(a + 1), lv, v));
}

/// Fourier–Motzkin elimination: eliminates one variable at a time until
/// only constant constraints remain, then checks those: `Some(true)` when
/// the constraints have a rational solution, `Some(false)` when they have
/// none; `None` when an intermediate number leaves `i128`.
#[verifier::spinoff_prover]
#[verifier::rlimit(40)]
fn fm_satisfiable(constraints: Vec<Elementary>) -> (r: Option<bool>)
    requires
        elems_wf(constraints@),
    ensures
        r is Some <==> elim_fits(elems_view(constraints@)),
        r == Some(false) ==> !elems_satisfiable(elems_view(constraints@)),
        r == Some(true) ==> elems_satisfiable(elems_view(constraints@)),
{
    let ghost orig = elems_view(constraints@);
    let vars = collect_vars(&constraints);
    let ghost names = strings_view(vars@);
    assert(names.subrange(0, names.len() as int) =~= names);
    let mut cs = constraints;
    let mut i: usize = 0;
    while i < vars.len()
        invariant
            i <= vars@.len(),
            names == strings_view(vars@),
            elim_pending(orig, elems_view(cs@), names, i as int),
            orig == elems_view(constraints@),
            elems_wf(cs@),
            implied_by(elems_view(cs@), orig),
            elems_satisfiable(elems_view(cs@)) ==> elems_satisfiable(orig),
            names_listed(cs@, vars@, i as int),
        decreases vars@.len() - i,
    {
        let v = &vars[i];
        let ghost cv = elems_view(cs@);
        let mut uppers: Vec<Elementary> = Vec::new();
        let mut lowers: Vec<Elementary> = Vec::new();
        let mut others: Vec<Elementary> = Vec::new();
        let mut k: usize = 0;
        while k < cs.len()
            invariant
                k <= cs@.len(),
                i < vars@.len(),
                v == &vars@[i as int],
                cv == elems_view(cs@),
                elems_wf(cs@),
                names_listed(cs@, vars@, i as int),
                elems_wf(uppers@),
                elems_wf(lowers@),
                elems_wf(others@),
                implied_by(elems_view(uppers@), cv),
                implied_by(elems_view(lowers@), cv),
                implied_by(elems_view(others@), cv),
                forall|p: int| 0 <= p < uppers@.len() ==> coeff_of((#[trigger] uppers@[p]).term@.coeffs, v@) > 0,
                forall|p: int| 0 <= p < lowers@.len() ==> coeff_of((#[trigger] lowers@[p]).term@.coeffs, v@) < 0,
                names_listed(uppers@, vars@, i as int),
                names_listed(lowers@, vars@, i as int),
                names_listed(others@, vars@, i + 1),
                forall|p: int| 0 <= p < k ==> {
                    &&& coeff_of((#[trigger] cv[p]).0.coeffs, v@) == 0 ==> elems_view(others@).contains(cv[p])
                    &&& coeff_of(cv[p].0.coeffs, v@) > 0 ==> elems_view(uppers@).contains(cv[p])
                    &&& coeff_of(cv[p].0.coeffs, v@) < 0 ==> elems_view(lowers@).contains(cv[p])
                },
                elems_view(others@) == with_sign(cv.take(k as int), v@, 0),
                elems_view(uppers@) == with_sign(cv.take(k as int), v@, 1),
                elems_view(lowers@) == with_sign(cv.take(k as int), v@, -1),
            decreases cs@.len() - k,
        {
            assert(cs@[k as int].term.wf());
            let kk = coeff_in(&cs[k].term, v);
            let e = Elementary { term: cs[k].term.duplicate(), strict: cs[k].strict };
            assert(e@ == cv[k as int]);
            assert(cv.take(k + 1).drop_last() =~= cv.take(k as int));
            assert(cv.take(k + 1).last() == cv[k as int]);
            assert forall|sigma: Assignment, d: int| #[trigger] elems_hold(cv, sigma, d) && d > 0
                implies elem_holds(e@, sigma, d) by {
                assert(elem_holds(cv[k as int], sigma, d));
            }
            assert forall|n: Seq<char>| #[trigger] names_of(e.term@.coeffs).contains(n) implies listed(vars@, i as int, n) by {
                assert(names_of(cs@[k as int].term@.coeffs).contains(n));
            }
            if kk == 0 {
                assert forall|n: Seq<char>| #[trigger] names_of(e.term@.coeffs).contains(n) implies listed(vars@, i + 1, n) by {
                    if n == v@ {
                        lemma_in_names_nonzero(e.term@.coeffs, n);
                    }
                    assert(listed(vars@, i as int, n));
                    let w = choose|w: int| 0 <= w && i <= w < vars@.len() && (#[trigger] vars@[w])@ == n;
                    assert(w != i);
                }
                let ghost old = others@;
                others.push(e);
                proof {
                    lemma_push_facts(old, e, cv, vars@, i + 1);
                    lemma_view_push(old, e);
                }
            } else if kk > 0 {
                let ghost old = uppers@;
                uppers.push(e);
                proof {
                    lemma_push_facts(old, e, cv, vars@, i as int);
                    lemma_view_push(old, e);
                }
            } else {
                let ghost old = lowers@;
                lowers.push(e);
                proof {
                    lemma_push_facts(old, e, cv, vars@, i as int);
                    lemma_view_push(old, e);
                }
            }
            k += 1;
        }
        assert(cv.take(cs@.len() as int) =~= cv);
        let ghost zs = elems_view(others@);
        let ghost uv = elems_view(uppers@);
        let ghost lv = elems_view(lowers@);
        if uppers.len() > 0 && lowers.len() > 0 {
            assert(uv.take(0) =~= Seq::<(LinModel, bool)>::empty());
            assert(zs + bound_pairs(uv.take(0), lv, v@) =~= zs);
            let mut a: usize = 0;
            while a < uppers.len()
                invariant
                    uv == elems_view(uppers@),
                    lv == elems_view(lowers@),
                    elems_view(others@) == zs + bound_pairs(uv.take(a as int), lv, v@),
                    elim_pending(orig, cv, names, i as int),
                    i < names.len(),
                    names[i as int] == v@,
                    orig == elems_view(constraints@),
                    uv == with_sign(cv, v@, 1),
                    lv == with_sign(cv, v@, -1),
                    forall|p: int, q: int| 0 <= p < a && 0 <= q < lv.len() ==> bounds_fit(#[trigger] uv[p].0, #[trigger] lv[q].0, v@),
                    a <= uppers@.len(),
                    i < vars@.len(),
                    v == &vars@[i as int],
                    elems_wf(uppers@),
                    elems_wf(lowers@),
                    elems_wf(others@),
                    implied_by(elems_view(uppers@), cv),
                    implied_by(elems_view(lowers@), cv),
                    implied_by(elems_view(others@), cv),
                    forall|p: int| 0 <= p < uppers@.len() ==> coeff_of((#[trigger] uppers@[p]).term@.coeffs, v@) > 0,
                    forall|p: int| 0 <= p < lowers@.len() ==> coeff_of((#[trigger] lowers@[p]).term@.coeffs, v@) < 0,
                    names_listed(uppers@, vars@, i as int),
                    names_listed(lowers@, vars@, i as int),
                    names_listed(others@, vars@, i + 1),
                    cv == elems_view(cs@),
                    forall|p: int| 0 <= p < cv.len() ==> {
                        &&& coeff_of((#[trigger] cv[p]).0.coeffs, v@) == 0 ==> elems_view(others@).contains(cv[p])
                        &&& coeff_of(cv[p].0.coeffs, v@) > 0 ==> elems_view(uppers@).contains(cv[p])
                        &&& coeff_of(cv[p].0.coeffs, v@) < 0 ==> elems_view(lowers@).contains(cv[p])
                    },
                    forall|p: int, q: int| 0 <= p < a && 0 <= q < lowers@.len() ==> elems_view(others@).contains(
                        combine_bounds(#[trigger] elems_view(uppers@)[p], #[trigger] elems_view(lowers@)[q], v@)),
                decreases uppers@.len() - a,
            {
                assert(lv.take(0) =~= Seq::<(LinModel, bool)>::empty());
                assert(zs + bound_pairs(uv.take(a as int), lv, v@) + bound_row(uv[a as int], lv.take(0), v@)
                    =~= zs + bound_pairs(uv.take(a as int), lv, v@));
                let mut b: usize = 0;
                while b < lowers.len()
                    invariant
                        uv == elems_view(uppers@),
                        lv == elems_view(lowers@),
                        elems_view(others@) == zs + bound_pairs(uv.take(a as int), lv, v@)
                            + bound_row(uv[a as int], lv.take(b as int), v@),
                        elim_pending(orig, cv, names, i as int),
                        i < names.len(),
                    names[i as int] == v@,
                    orig == elems_view(constraints@),
                        uv == with_sign(cv, v@, 1),
                        lv == with_sign(cv, v@, -1),
                        forall|p: int, q: int| 0 <= p < a && 0 <= q < lv.len() ==> bounds_fit(#[trigger] uv[p].0, #[trigger] lv[q].0, v@),
                        forall|q: int| 0 <= q < b ==> bounds_fit(uv[a as int].0, #[trigger] lv[q].0, v@),
                        a < uppers@.len(),
                        b <= lowers@.len(),
                        i < vars@.len(),
                        v == &vars@[i as int],
                        elems_wf(uppers@),
                        elems_wf(lowers@),
                        elems_wf(others@),
                        implied_by(elems_view(uppers@), cv),
                        implied_by(elems_view(lowers@), cv),
                        implied_by(elems_view(others@), cv),
                        forall|p: int| 0 <= p < uppers@.len() ==> coeff_of((#[trigger] uppers@[p]).term@.coeffs, v@) > 0,
                        forall|p: int| 0 <= p < lowers@.len() ==> coeff_of((#[trigger] lowers@[p]).term@.coeffs, v@) < 0,
                        names_listed(uppers@, vars@, i as int),
                        names_listed(lowers@, vars@, i as int),
                        names_listed(others@, vars@, i + 1),
                        cv == elems_view(cs@),
                        forall|p: int| 0 <= p < cv.len() ==> {
                            &&& coeff_of((#[trigger] cv[p]).0.coeffs, v@) == 0 ==> elems_view(others@).contains(cv[p])
                            &&& coeff_of(cv[p].0.coeffs, v@) > 0 ==> elems_view(uppers@).contains(cv[p])
                            &&& coeff_of(cv[p].0.coeffs, v@) < 0 ==> elems_view(lowers@).contains(cv[p])
                        },
                        forall|p: int, q: int| 0 <= p < a && 0 <= q < lowers@.len() ==> elems_view(others@).contains(
                            combine_bounds(#[trigger] elems_view(uppers@)[p], #[trigger] elems_view(lowers@)[q], v@)),
                        forall|q: int| 0 <= q < b ==> elems_view(others@).contains(
                            combine_bounds(elems_view(uppers@)[a as int], #[trigger] elems_view(lowers@)[q], v@)),
                    decreases lowers@.len() - b,
                {
                    let u = &uppers[a];
                    let l = &lowers[b];
                    assert(u.term.wf() && u.term@.denom == 1);
                    assert(l.term.wf() && l.term@.denom == 1);
                    assert(coeff_of(u.term@.coeffs, v@) > 0);
                    assert(coeff_of(l.term@.coeffs, v@) < 0);
                    assert(uv[a as int] == u@);
                    assert(lv[b as int] == l@);
                    let c = match combine(u, l, v) {
                        Some(c) => c,
                        None => {
                            proof {
                                assert(!pairs_fit(uv, lv, v@));
                                assert(elim_step(cv, v@) is None);
                                lemma_elim_next(orig, cv, names, i as int);
                            }
                            return None;
                        },
                    };
                    proof {
                        lemma_combine_bounds(u@, l@, v@);
                        assert forall|sigma: Assignment, d: int| #[trigger] elems_hold(cv, sigma, d) && d > 0
                            implies elem_holds(c@, sigma, d) by {
                            assert(elems_hold(elems_view(uppers@), sigma, d));
                            assert(elems_hold(elems_view(lowers@), sigma, d));
                            assert(elem_holds(elems_view(uppers@)[a as int], sigma, d));
                            assert(elem_holds(elems_view(lowers@)[b as int], sigma, d));
                        }
                        assert forall|n: Seq<char>| #[trigger] names_of(c.term@.coeffs).contains(n)
                            implies listed(vars@, i + 1, n) by {
                            if names_of(u.term@.coeffs).contains(n) {
                                assert(listed(vars@, i as int, n));
                            } else {
                                assert(names_of(l.term@.coeffs).contains(n));
                                assert(listed(vars@, i as int, n));
                            }
                            let w = choose|w: int| 0 <= w && i <= w < vars@.len() && (#[trigger] vars@[w])@ == n;
                            assert(w != i);
                        }
                    }
                    let ghost old = others@;
                    others.push(c);
                    proof {
                        lemma_push_facts(old, c, cv, vars@, i + 1);
                        lemma_view_push(old, c);
                        assert(elems_view(uppers@)[a as int] == u@);
                        assert(elems_view(lowers@)[b as int] == l@);
                        lemma_row_push(zs + bound_pairs(uv.take(a as int), lv, v@), uv[a as int], lv, b as int, v@);
                    }
                    b += 1;
                }
                proof {
                    lemma_rows_next(zs, uv, lv, a as int, v@);
                }
                a += 1;
            }
            assert(uv.take(uv.len() as int) =~= uv);
        }
        proof {
            assert(elim_step(cv, v@) == Some(elems_view(others@)));
            lemma_elim_next(orig, cv, names, i as int);
        }
        proof {
            assert forall|sigma: Assignment, d: int| #[trigger] elems_hold(orig, sigma, d) && d > 0
                implies elems_hold(elems_view(others@), sigma, d) by {
                assert(elems_hold(cv, sigma, d));
            }
            assert forall|k: int, n: Seq<char>| 0 <= k < others@.len() && #[trigger] names_of(others@[k].term@.coeffs).contains(n)
                implies listed(vars@, i + 1, n) by {
            }
            if elems_satisfiable(elems_view(others@)) {
                let (sigma, d) = choose|sigma: Assignment, d: int| d > 0 && elems_hold(elems_view(others@), sigma, d);
                let uv = elems_view(uppers@);
                let lv = elems_view(lowers@);
                assert forall|p: int| 0 <= p < cv.len() implies lin_wf((#[trigger] cv[p]).0) && cv[p].0.denom == 1 by {
                    assert(cs@[p].term.wf());
                }
                assert forall|p: int| 0 <= p < uv.len() implies lin_wf((#[trigger] uv[p]).0) && uv[p].0.denom == 1
                    && coeff_of(uv[p].0.coeffs, v@) > 0 by {
                    assert(uppers@[p].term.wf());
                }
                assert forall|p: int| 0 <= p < lv.len() implies lin_wf((#[trigger] lv[p]).0) && lv[p].0.denom == 1
                    && coeff_of(lv[p].0.coeffs, v@) < 0 by {
                    assert(lowers@[p].term.wf());
                }
                lemma_elimination_complete(cv, v@, uv, lv, elems_view(others@), sigma, d);
            }
        }
        cs = others;
        i += 1;
    }
    assert(names.subrange(i as int, names.len() as int) =~= Seq::<Seq<char>>::empty());
    assert(elim_fits(orig));
    let mut k: usize = 0;
    while k < cs.len()
        invariant
            elim_fits(orig),
            k <= cs@.len(),
            orig == elems_view(constraints@),
            elems_wf(cs@),
            implied_by(elems_view(cs@), orig),
            elems_satisfiable(elems_view(cs@)) ==> elems_satisfiable(orig),
            names_listed(cs@, vars@, vars@.len() as int),
            forall|p: int| 0 <= p < k ==> elem_holds(#[trigger] elems_view(cs@)[p], |n: Seq<char>| 0int, 1),
        decreases cs@.len() - k,
    {
        let c = &cs[k];
        assert(c.term.wf());
        let c = &c.term;
        let strict = cs[k].strict;
        if c.coeffs.len() > 0 {
            assert(c@.coeffs[0] == (c.coeffs@[0].0@, c.coeffs@[0].1 as int));
            assert(names_of(c@.coeffs).contains(c@.coeffs[0].0));
            assert(names_of(cs@[k as int].term@.coeffs).contains(c@.coeffs[0].0));
            assert(false);
        }
        let holds = if strict { c.constant < 0 } else { c.constant <= 0 };
        if !holds {
            proof {
                assert forall|sigma: Assignment, d: int| d > 0 implies !elems_hold(orig, sigma, d) by {
                    if elems_hold(orig, sigma, d) {
                        assert(elems_hold(elems_view(cs@), sigma, d));
                        assert(elem_holds(elems_view(cs@)[k as int], sigma, d));
                        assert(eval_coeffs(c@.coeffs, sigma) == 0);
                        assert(lin_num(c@, sigma, d) == c.constant * d);
                        assert((strict ==> c.constant * d >= 0) && (!strict ==> c.constant * d > 0)) by (nonlinear_arith)
                            requires d > 0, strict ==> c.constant >= 0, !strict ==> c.constant > 0;
                    }
                }
            }
            return Some(false);
        }
        proof {
            let zero = |n: Seq<char>| 0int;
            assert(c@.coeffs.len() == 0);
            assert(eval_coeffs(c@.coeffs, zero) == 0);
            assert(lin_num(c@, zero, 1) == c.constant);
            assert(elems_view(cs@)[k as int] == (c@, strict));
        }
        k += 1;
    }
    proof {
        let zero = |n: Seq<char>| 0int;
        assert(elems_hold(elems_view(cs@), zero, 1));
    }
    Some(true)
}

proof fn lemma_view_push(old: Seq<Elementary>, e: Elementary)
    ensures
        elems_view(old.push(e)) == elems_view(old).push(e@),
        elems_view(old.push(e)).contains(e@),
        forall|x: (LinModel, bool)| elems_view(old).contains(x) ==> #[trigger] elems_view(old.push(e)).contains(x),
        forall|p: int| 0 <= p < old.len() ==> #[trigger] elems_view(old.push(e))[p] == elems_view(old)[p],
{
    let nv = elems_view(old.push(e));
    let ov = elems_view(old);
    assert(nv =~= ov.push(e@));
    assert(nv[ov.len() as int] == e@);
    assert forall|x: (LinModel, bool)| ov.contains(x) implies #[trigger] nv.contains(x) by {
        let q = choose|q: int| 0 <= q < ov.len() && ov[q] == x;
        assert(nv[q] == x);
    }
}

proof fn lemma_push_facts(old: Seq<Elementary>, e: Elementary, cv: Seq<(LinModel, bool)>, vars: Seq<String>, from: int)
    requires
        elems_wf(old),
        e.term.wf(),
        e.term@.denom == 1,
        implied_by(elems_view(old), cv),
        forall|sigma: Assignment, d: int| #[trigger] elems_hold(cv, sigma, d) && d > 0 ==> elem_holds(e@, sigma, d),
        names_listed(old, vars, from),
        forall|n: Seq<char>| #[trigger] names_of(e.term@.coeffs).contains(n) ==> listed(vars, from, n),
    ensures
        elems_wf(old.push(e)),
        implied_by(elems_view(old.push(e)), cv),
        names_listed(old.push(e), vars, from),
        forall|p: int| 0 <= p < old.len() ==> old.push(e)[p] == old[p],
        old.push(e)[old.len() as int] == e,
{
    let np = old.push(e);
    assert(elems_view(np) =~= elems_view(old).push(e@));
    assert forall|sigma: Assignment, d: int| #[trigger] elems_hold(cv, sigma, d) && d > 0
        implies elems_hold(elems_view(np), sigma, d) by {
        lemma_elems_hold_push(elems_view(old), e@, sigma, d);
    }
    assert forall|k: int, n: Seq<char>| 0 <= k < np.len() && #[trigger] names_of(np[k].term@.coeffs).contains(n)
        implies listed(vars, from, n) by {
        if k < old.len() {
            assert(np[k] == old[k]);
        }
    }
    assert forall|i: int| 0 <= i < np.len() implies (#[trigger] np[i]).term.wf() && np[i].term@.denom == 1 by {
        if i < old.len() {
            assert(np[i] == old[i]);
        }
    }
}

/// Whether deciding `cs` stays within `i128`: negating each term fits, and
/// either some alternative of the expansion is eliminated without overflow
/// and found satisfiable, or every alternative is eliminated without
/// overflow.
pub open spec fn decidable_within_i128(cs: Seq<(LinModel, Rel)>) -> bool {
    let ds = expansion(cs);
    &&& forall|k: int| 0 <= k < cs.len() ==> scale_ok(#[trigger] cs[k].0, -1, 1)
    &&& (exists|j: int| 0 <= j < ds.len() && elim_fits(#[trigger] ds[j]) && elems_satisfiable(ds[j]))
        || (forall|j: int| 0 <= j < ds.len() ==> elim_fits(#[trigger] ds[j]))
}

/// Whether this conjunction of (possibly `=`/`!=`) linear constraints has a
/// solution over the rationals: `Some(true)` when it has one,
/// `Some(false)` when it has none, and `None` when an intermediate number
/// leaves `i128`.
pub fn is_satisfiable(constraints: &[LinearConstraint]) -> (r: Option<bool>)
    requires
        constraints_wf(constraints@),
    ensures
        r is Some <==> decidable_within_i128(constraints_view(constraints@)),
        r == Some(false) ==> !satisfiable(constraints_view(constraints@)),
        r == Some(true) ==> satisfiable(constraints_view(constraints@)),
{
    let disjuncts = match expand(constraints) {
        Some(ds) => ds,
        None => {
            proof {
                let j = choose|j: int| 0 <= j < constraints@.len() && !scale_ok(#[trigger] constraints@[j].term@, -1, 1);
                assert(constraints_view(constraints@)[j].0 == constraints@[j].term@);
            }
            return None;
        },
    };
    proof {
        assert forall|k: int| 0 <= k < constraints@.len() implies
            scale_ok(#[trigger] constraints_view(constraints@)[k].0, -1, 1) by {
            assert(scale_ok(constraints@[k].term@, -1, 1));
        }
    }
    let ghost dv = nested_view(disjuncts@);
    let ghost cv = constraints_view(constraints@);
    let mut overflowed = false;
    let mut j: usize = 0;
    while j < disjuncts.len()
        invariant
            j <= disjuncts@.len(),
            nested_wf(disjuncts@),
            dv == nested_view(disjuncts@),
            cv == constraints_view(constraints@),
            forall|sigma: Assignment, d: int| d > 0 ==>
                (all_hold(cv, sigma, d) <==> #[trigger] disj_holds(dv, sigma, d)),
            !overflowed ==> forall|q: int| 0 <= q < j ==> !elems_satisfiable(#[trigger] dv[q]),
            dv == expansion(cv),
            forall|k: int| 0 <= k < cv.len() ==> scale_ok(#[trigger] cv[k].0, -1, 1),
            overflowed <==> exists|q: int| 0 <= q < j && !elim_fits(#[trigger] dv[q]),
            forall|q: int| 0 <= q < j ==> !(elim_fits(#[trigger] dv[q]) && elems_satisfiable(dv[q])),
        decreases disjuncts@.len() - j,
    {
        assert(elems_wf(disjuncts@[j as int]@));
        let conj = copy_elems(&disjuncts[j]);
        assert(elems_view(conj@) == dv[j as int]);
        match fm_satisfiable(conj) {
            Some(true) => {
                proof {
                    assert(elems_satisfiable(dv[j as int]));
                    let (sigma, d) = choose|sigma: Assignment, d: int| d > 0 && elems_hold(dv[j as int], sigma, d);
                    assert(disj_holds(dv, sigma, d));
                    assert(crate::refinement::meaning::is_model(cv, sigma, d));
                    assert(elim_fits(dv[j as int]));
                }
                return Some(true);
            },
            Some(false) => {},
            None => {
                overflowed = true;
            },
        }
        proof {
            assert forall|q: int| 0 <= q < j + 1 implies !(elim_fits(#[trigger] dv[q]) && elems_satisfiable(dv[q])) by {
            }
        }
        j += 1;
    }
    if overflowed {
        proof {
            let q = choose|q: int| 0 <= q < j && !elim_fits(#[trigger] dv[q]);
        }
        return None;
    }
    assert forall|q: int| 0 <= q < dv.len() implies elim_fits(#[trigger] dv[q]) by {
    }
    proof {
        if satisfiable(cv) {
            let (sigma, d) = choose|sigma: Assignment, d: int| crate::refinement::meaning::is_model(cv, sigma, d);
            assert(disj_holds(dv, sigma, d));
            let q = choose|q: int| 0 <= q < dv.len() && elems_hold(#[trigger] dv[q], sigma, d);
            assert(!elems_satisfiable(dv[q]));
        }
    }
    Some(false)
}

} // verus!
