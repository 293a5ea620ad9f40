//! Exact evaluation of fully-concrete refinement predicates, in the manner
//! of Lean 4's `decide`: it succeeds whenever the proposition is literally
//! computable from what is already known, with no symbolic reasoning.

use vstd::prelude::*;
use crate::expr::{BinOp, Expr, ExprKind, Lit, UnOp, path_name};

verus! {

/// The value of a closed (or environment-closed) predicate or value
/// expression.
#[derive(Debug, Clone, Copy, PartialEq, Eq, Structural)]
pub enum ConstVal {
    Int(i64),
    Bool(bool),
}

impl ConstVal {
    pub fn as_bool(self) -> (r: Option<bool>)
        ensures
            r == (match self {
                ConstVal::Bool(b) => Some(b),
                ConstVal::Int(_) => None::<bool>,
            }),
    {
        match self {
            ConstVal::Bool(b) => Some(b),
            _ => None,
        }
    }

    pub fn as_int(self) -> (r: Option<i64>)
        ensures
            r == (match self {
                ConstVal::Int(i) => Some(i),
                ConstVal::Bool(_) => None::<i64>,
            }),
    {
        match self {
            ConstVal::Int(i) => Some(i),
            _ => None,
        }
    }
}

/// The binding of `name` in `env`; a later entry shadows an earlier one.
pub open spec fn env_lookup(env: Seq<(Seq<char>, i64)>, name: Seq<char>) -> Option<i64>
    decreases env.len(),
{
    if env.len() == 0 {
        None
    } else if env.last().0 == name {
        Some(env.last().1)
    } else {
        env_lookup(env.drop_last(), name)
    }
}

/// Rust's `/` on integers: the quotient rounded toward zero (in terms of
/// the Euclidean `/` of specifications).
pub open spec fn trunc_div(a: int, b: int) -> int {
    if a >= 0 { a / b } else { -((-a) / b) }
}

/// Rust's `%` on integers: the remainder that goes with `trunc_div`, which
/// has the sign of the dividend.
pub open spec fn trunc_rem(a: int, b: int) -> int {
    if a >= 0 { a % b } else { -((-a) % b) }
}

pub open spec fn in_i64(v: int) -> bool {
    i64::MIN <= v <= i64::MAX
}

pub open spec fn int_of(v: ConstVal) -> Option<int> {
    match v {
        ConstVal::Int(i) => Some(i as int),
        ConstVal::Bool(_) => None,
    }
}

pub open spec fn bool_of(v: ConstVal) -> Option<bool> {
    match v {
        ConstVal::Bool(b) => Some(b),
        ConstVal::Int(_) => None,
    }
}

/// Equality of two values of the same kind; `None` across kinds.
pub open spec fn spec_values_eq(l: ConstVal, r: ConstVal) -> Option<bool> {
    match (l, r) {
        (ConstVal::Int(a), ConstVal::Int(b)) => Some(a == b),
        (ConstVal::Bool(a), ConstVal::Bool(b)) => Some(a == b),
        _ => None,
    }
}

/// An integer result, or `None` where the mathematical result leaves `i64`.
pub open spec fn int_result(v: int) -> Option<ConstVal> {
    if in_i64(v) { Some(ConstVal::Int(v as i64)) } else { None }
}

/// What one binary operator yields on two evaluated operands.
pub open spec fn spec_eval_binop(op: BinOp, l: ConstVal, r: ConstVal) -> Option<ConstVal> {
    match (int_of(l), int_of(r)) {
        (Some(a), Some(b)) => match op {
            BinOp::Add => int_result(a + b),
            BinOp::Sub => int_result(a - b),
            BinOp::Mul => int_result(a * b),
            BinOp::Div => if b != 0 { Some(ConstVal::Int(trunc_div(a, b) as i64)) } else { None },
            BinOp::Rem => if b != 0 { Some(ConstVal::Int(trunc_rem(a, b) as i64)) } else { None },
            BinOp::Eq => Some(ConstVal::Bool(a == b)),
            BinOp::Ne => Some(ConstVal::Bool(a != b)),
            BinOp::Lt => Some(ConstVal::Bool(a < b)),
            BinOp::Le => Some(ConstVal::Bool(a <= b)),
            BinOp::Gt => Some(ConstVal::Bool(a > b)),
            BinOp::Ge => Some(ConstVal::Bool(a >= b)),
            _ => None,
        },
        _ => match (op, bool_of(l), bool_of(r)) {
            (BinOp::Eq, _, _) => match spec_values_eq(l, r) {
                Some(e) => Some(ConstVal::Bool(e)),
                None => None,
            },
            (BinOp::Ne, _, _) => match spec_values_eq(l, r) {
                Some(e) => Some(ConstVal::Bool(!e)),
                None => None,
            },
            (BinOp::And, Some(a), Some(b)) => Some(ConstVal::Bool(a && b)),
            (BinOp::Or, Some(a), Some(b)) => Some(ConstVal::Bool(a || b)),
            _ => None,
        },
    }
}

/// Whether applying `op` to the two operands overflows in a way Rust's
/// `/`, `%` trap on (`i64::MIN / -1`, `i64::MIN % -1`).
pub open spec fn binop_traps(op: BinOp, l: ConstVal, r: ConstVal) -> bool {
    (op == BinOp::Div || op == BinOp::Rem) && l == ConstVal::Int(i64::MIN) && r == ConstVal::Int(-1i64)
}

/// The value `e` evaluates to exactly under `env`, or `None` when `e` is not
/// fully concrete (a name missing from `env`, a construct outside literals,
/// arithmetic, comparisons and booleans, an arithmetic overflow, a division
/// by zero, or operands of the wrong kind).
pub open spec fn spec_decide(e: Expr, env: Seq<(Seq<char>, i64)>) -> Option<ConstVal>
    decreases e,
{
    match e.kind {
        ExprKind::Literal(Lit::Integer(v)) => Some(ConstVal::Int(v)),
        ExprKind::Literal(Lit::Bool(b)) => Some(ConstVal::Bool(b)),
        ExprKind::Path(p) => if p.segments@.len() == 0 {
            None
        } else {
            match env_lookup(env, path_name(p)) {
                Some(v) => Some(ConstVal::Int(v)),
                None => None,
            }
        },
        ExprKind::Unary(UnOp::Neg, inner) => match spec_decide(*inner, env) {
            Some(ConstVal::Int(v)) => Some(ConstVal::Int((-v) as i64)),
            _ => None,
        },
        ExprKind::Unary(UnOp::Not, inner) => match spec_decide(*inner, env) {
            Some(ConstVal::Bool(b)) => Some(ConstVal::Bool(!b)),
            _ => None,
        },
        ExprKind::Binary(op, lhs, rhs) => match spec_decide(*lhs, env) {
            Some(l) => match spec_decide(*rhs, env) {
                Some(r) => spec_eval_binop(op, l, r),
                None => None,
            },
            None => None,
        },
        _ => None,
    }
}

/// Whether evaluating `e` under `env` reaches an operation that panics in
/// Rust: negating `i64::MIN`, or `i64::MIN / -1` and `i64::MIN % -1`.
/// Operands are evaluated left to right and evaluation stops at the first
/// operand that is not concrete.
pub open spec fn decide_traps(e: Expr, env: Seq<(Seq<char>, i64)>) -> bool
    decreases e,
{
    match e.kind {
        ExprKind::Unary(UnOp::Neg, inner) => decide_traps(*inner, env)
            || spec_decide(*inner, env) == Some(ConstVal::Int(i64::MIN)),
        ExprKind::Unary(UnOp::Not, inner) => decide_traps(*inner, env),
        ExprKind::Binary(op, lhs, rhs) => decide_traps(*lhs, env) || match spec_decide(*lhs, env) {
            Some(l) => decide_traps(*rhs, env) || match spec_decide(*rhs, env) {
                Some(r) => binop_traps(op, l, r),
                None => false,
            },
            None => false,
        },
        _ => false,
    }
}

/// The model of an environment: each name by its characters.
pub open spec fn env_view(env: Seq<(String, i64)>) -> Seq<(Seq<char>, i64)> {
    env.map_values(|p: (String, i64)| (p.0@, p.1))
}

fn lookup_env(env: &[(String, i64)], name: &String) -> (r: Option<i64>)
    ensures
        r == env_lookup(env_view(env@), name@),
{
    let ghost ev = env_view(env@);
    let mut i = env.len();
    assert(ev.subrange(0, i as int) == ev);
    while i > 0
        invariant
            i <= env@.len(),
            ev == env_view(env@),
            env_lookup(ev, name@) == env_lookup(ev.subrange(0, i as int), name@),
        decreases i,
    {
        assert(ev.subrange(0, i as int).drop_last() == ev.subrange(0, i - 1));
        assert(ev.subrange(0, i as int).last() == (env@[i - 1].0@, env@[i - 1].1));
        if env[i - 1].0 == *name {
            return Some(env[i - 1].1);
        }
        i = i - 1;
    }
    None
}

/// Evaluates `expr` exactly, resolving any variable reference against `env`
/// (later entries shadow earlier ones). Returns `None` for anything not
/// fully concrete; the caller then falls back to `omega`.
pub fn try_decide(expr: &Expr, env: &[(String, i64)]) -> (r: Option<ConstVal>)
    requires
        !decide_traps(*expr, env_view(env@)),
    ensures
        r == spec_decide(*expr, env_view(env@)),
    decreases expr,
{
    match &expr.kind {
        ExprKind::Literal(Lit::Integer(v)) => Some(ConstVal::Int(*v)),
        ExprKind::Literal(Lit::Bool(b)) => Some(ConstVal::Bool(*b)),
        ExprKind::Path(path) => {
            let name = path.last_name()?;
            match lookup_env(env, name) {
                Some(v) => Some(ConstVal::Int(v)),
                None => None,
            }
        },
        ExprKind::Unary(UnOp::Neg, inner) => {
            match try_decide(inner, env)?.as_int() {
                Some(v) => Some(ConstVal::Int(-v)),
                None => None,
            }
        },
        ExprKind::Unary(UnOp::Not, inner) => {
            match try_decide(inner, env)?.as_bool() {
                Some(b) => Some(ConstVal::Bool(!b)),
                None => None,
            }
        },
        ExprKind::Binary(op, lhs, rhs) => {
            let l = try_decide(lhs, env)?;
            let r = try_decide(rhs, env)?;
            eval_binop(op, l, r)
        },
        _ => None,
    }
}

fn eval_binop(op: &BinOp, l: ConstVal, r: ConstVal) -> (res: Option<ConstVal>)
    requires
        !binop_traps(*op, l, r),
    ensures
        res == spec_eval_binop(*op, l, r),
{
    match (l, r) {
        (ConstVal::Int(a), ConstVal::Int(b)) => match op {
            BinOp::Add => match a.checked_add(b) {
                Some(v) => Some(ConstVal::Int(v)),
                None => None,
            },
            BinOp::Sub => match a.checked_sub(b) {
                Some(v) => Some(ConstVal::Int(v)),
                None => None,
            },
            BinOp::Mul => match a.checked_mul(b) {
                Some(v) => Some(ConstVal::Int(v)),
                None => None,
            },
            BinOp::Div => if b != 0 {
                Some(ConstVal::Int(a / b))
            } else {
                None
            },
            BinOp::Rem => if b != 0 {
                Some(ConstVal::Int(a % b))
            } else {
                None
            },
            BinOp::Eq => Some(ConstVal::Bool(a == b)),
            BinOp::Ne => Some(ConstVal::Bool(a != b)),
            BinOp::Lt => Some(ConstVal::Bool(a < b)),
            BinOp::Le => Some(ConstVal::Bool(a <= b)),
            BinOp::Gt => Some(ConstVal::Bool(a > b)),
            BinOp::Ge => Some(ConstVal::Bool(a >= b)),
            _ => None,
        },
        _ => match op {
            BinOp::Eq => match values_eq(l, r) {
                Some(e) => Some(ConstVal::Bool(e)),
                None => None,
            },
            BinOp::Ne => match values_eq(l, r) {
                Some(e) => Some(ConstVal::Bool(!e)),
                None => None,
            },
            BinOp::And => match (l.as_bool(), r.as_bool()) {
                (Some(a), Some(b)) => Some(ConstVal::Bool(a && b)),
                _ => None,
            },
            BinOp::Or => match (l.as_bool(), r.as_bool()) {
                (Some(a), Some(b)) => Some(ConstVal::Bool(a || b)),
                _ => None,
            },
            _ => None,
        },
    }
}

/// Equality of two values of the same kind; `None` across kinds.
pub fn values_eq(l: ConstVal, r: ConstVal) -> (res: Option<bool>)
    ensures
        res == spec_values_eq(l, r),
{
    match (l, r) {
        (ConstVal::Int(a), ConstVal::Int(b)) => Some(a == b),
        (ConstVal::Bool(a), ConstVal::Bool(b)) => Some(a == b),
        _ => None,
    }
}

} // verus!
