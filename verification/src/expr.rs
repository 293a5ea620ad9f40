//! The part of a HIR expression that refinement predicates and literal
//! typing read: literals, paths, unary and binary operators. Every other
//! expression form (calls, blocks, method calls, ...) is carried as
//! `ExprKind::Other`, which no decision procedure ever looks inside.

use vstd::prelude::*;

verus! {

/// A binary operator of the HIR.
#[derive(Debug, Clone, Copy, PartialEq, Eq, Structural)]
pub enum BinOp {
    Add,
    Sub,
    Mul,
    Div,
    Rem,
    And,
    Or,
    BitXor,
    BitAnd,
    BitOr,
    Shl,
    Shr,
    Eq,
    Lt,
    Le,
    Ne,
    Ge,
    Gt,
}

/// A unary operator of the HIR.
#[derive(Debug, Clone, Copy, PartialEq, Eq, Structural)]
pub enum UnOp {
    Not,
    Neg,
    Deref,
    Box,
}

/// A literal. A floating-point literal is kept without its value: neither
/// literal typing nor the refinement procedures read it.
#[derive(Debug, Clone)]
pub enum Lit {
    Bool(bool),
    Char(char),
    Integer(i64),
    Float,
    Str(String),
    Bytes(Vec<u8>),
    CStr(Vec<u8>),
    Null,
}

/// One segment of a path; only its name is read here.
#[derive(Debug, Clone)]
pub struct PathSegment {
    pub name: String,
}

/// A (resolved or unresolved) value path such as `x` or `module::x`.
#[derive(Debug, Clone)]
pub struct Path {
    pub segments: Vec<PathSegment>,
}

#[derive(Debug)]
pub enum ExprKind {
    Literal(Lit),
    Path(Path),
    Unary(UnOp, Box<Expr>),
    Binary(BinOp, Box<Expr>, Box<Expr>),
    /// Any other expression form.
    Other,
}

#[derive(Debug)]
pub struct Expr {
    pub kind: ExprKind,
}

/// The name a path refers to for refinement purposes: its last segment's
/// name, or the empty name for a path without segments.
pub open spec fn path_name(p: Path) -> Seq<char> {
    if p.segments@.len() == 0 {
        Seq::<char>::empty()
    } else {
        p.segments@.last().name@
    }
}

impl Path {
    /// The name of the last segment, or `None` for an empty path.
    pub fn last_name(&self) -> (r: Option<&String>)
        ensures
            r matches Some(n) ==> self.segments@.len() > 0 && n@ == path_name(*self),
            r is None <==> self.segments@.len() == 0,
    {
        if self.segments.len() == 0 {
            None
        } else {
            Some(&self.segments[self.segments.len() - 1].name)
        }
    }
}

impl Expr {
    /// The single-segment path expression `name`.
    pub fn path(name: &str) -> (e: Expr)
        ensures
            e.kind matches ExprKind::Path(p) && p.segments@.len() == 1 && path_name(p) == name@,
    {
        let mut segments: Vec<PathSegment> = Vec::new();
        segments.push(PathSegment { name: name.to_owned() });
        Expr { kind: ExprKind::Path(Path { segments }) }
    }

    /// The integer literal `value`.
    pub fn integer(value: i64) -> (e: Expr)
        ensures
            e.kind == ExprKind::Literal(Lit::Integer(value)),
    {
        Expr { kind: ExprKind::Literal(Lit::Integer(value)) }
    }

    /// The binary expression `lhs op rhs`.
    pub fn binary(op: BinOp, lhs: Expr, rhs: Expr) -> (e: Expr)
        ensures
            e.kind == ExprKind::Binary(op, Box::new(lhs), Box::new(rhs)),
    {
        Expr { kind: ExprKind::Binary(op, Box::new(lhs), Box::new(rhs)) }
    }

    /// The unary expression `op operand`.
    pub fn unary(op: UnOp, operand: Expr) -> (e: Expr)
        ensures
            e.kind == ExprKind::Unary(op, Box::new(operand)),
    {
        Expr { kind: ExprKind::Unary(op, Box::new(operand)) }
    }
}

} // verus!
