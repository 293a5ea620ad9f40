//! The part of the AST's type language that typing reads directly:
//! primitive types, references, structs, function types, tuples, the few
//! built-in type forms, and types written as expressions.

use vstd::prelude::*;
use crate::runtime_types::{AstPath, PathPrefix};

verus! {

#[derive(Debug, Clone, Copy, PartialEq, Eq, Structural)]
pub enum TypeInt {
    I8,
    I16,
    I32,
    I64,
    I128,
    U8,
    U16,
    U32,
    U64,
    U128,
    BigInt,
}

#[derive(Debug, Clone, Copy, PartialEq, Eq, Structural)]
pub enum DecimalType {
    F32,
    F64,
    BigDecimal,
}

#[derive(Debug, Clone, Copy, PartialEq, Eq, Structural)]
pub enum TypePrimitive {
    Bool,
    Char,
    Int(TypeInt),
    Decimal(DecimalType),
    String,
    List,
}

/// An AST type, as far as typing reads it: primitives, references,
/// structs (by name), function types, tuples, the unit type, the type of
/// types, the dynamic `any` type, token streams, and any other form.
#[derive(Debug)]
pub enum AstTy {
    Primitive(TypePrimitive),
    Reference(Box<AstTy>),
    Struct(String),
    Function(AstFnTy),
    Tuple(Vec<AstTy>),
    Unit,
    Type,
    Any,
    TokenStream,
    /// A type written as an expression.
    Expr(AstTypeExpr),
    Other,
}

/// A type written as an expression, as far as resolving it reads it.
#[derive(Debug)]
pub enum AstTypeExpr {
    /// A name.
    Name(AstPath),
    /// A `const { .. }` block, by the identity of its node.
    ConstBlock(u32),
    /// Any other expression.
    Other,
}

/// The model of a type written as an expression: a name by its prefix and
/// its segments' characters.
pub enum TypeExprModel {
    Name(PathPrefix, Seq<Seq<char>>),
    ConstBlock(u32),
    Other,
}

/// A function type: parameter types, generic parameter names, and the
/// return type if one is written.
#[derive(Debug)]
pub struct AstFnTy {
    pub params: Vec<AstTy>,
    pub generics: Vec<String>,
    pub ret: Option<Box<AstTy>>,
}

/// The mathematical model of an AST type: names by their characters,
/// lists as sequences.
pub enum AstTyModel {
    Primitive(TypePrimitive),
    Reference(Box<AstTyModel>),
    Struct(Seq<char>),
    Function(Seq<AstTyModel>, Seq<Seq<char>>, Option<Box<AstTyModel>>),
    Tuple(Seq<AstTyModel>),
    Unit,
    Type,
    Any,
    TokenStream,
    Expr(TypeExprModel),
    Other,
}

impl AstTy {
    pub open spec fn model(&self) -> AstTyModel
        decreases self,
    {
        match self {
            AstTy::Primitive(p) => AstTyModel::Primitive(*p),
            AstTy::Reference(inner) => AstTyModel::Reference(Box::new(inner.model())),
            AstTy::Struct(n) => AstTyModel::Struct(n@),
            AstTy::Function(f) => AstTyModel::Function(
                ast_tys_model(f.params@),
                f.generics@.map_values(|g: String| g@),
                match &f.ret {
                    Some(r) => Some(Box::new(r.model())),
                    None => None,
                },
            ),
            AstTy::Tuple(items) => AstTyModel::Tuple(ast_tys_model(items@)),
            AstTy::Unit => AstTyModel::Unit,
            AstTy::Type => AstTyModel::Type,
            AstTy::Any => AstTyModel::Any,
            AstTy::TokenStream => AstTyModel::TokenStream,
            AstTy::Expr(e) => AstTyModel::Expr(match e {
                AstTypeExpr::Name(p) => TypeExprModel::Name(p.prefix, p.segments@.map_values(|s: String| s@)),
                AstTypeExpr::ConstBlock(id) => TypeExprModel::ConstBlock(*id),
                AstTypeExpr::Other => TypeExprModel::Other,
            }),
            AstTy::Other => AstTyModel::Other,
        }
    }
}

pub open spec fn ast_tys_model(v: Seq<AstTy>) -> Seq<AstTyModel>
    decreases v,
{
    if v.len() == 0 {
        Seq::empty()
    } else {
        ast_tys_model(v.drop_last()).push(v[v.len() - 1].model())
    }
}

/// The model of a list of AST types is the list of their models.
pub proof fn lemma_ast_tys_model(v: Seq<AstTy>)
    ensures
        ast_tys_model(v).len() == v.len(),
        forall|i: int| 0 <= i < v.len() ==> #[trigger] ast_tys_model(v)[i] == v[i].model(),
    decreases v.len(),
{
    if v.len() > 0 {
        lemma_ast_tys_model(v.drop_last());
        assert forall|i: int| 0 <= i < v.len() implies #[trigger] ast_tys_model(v)[i] == v[i].model() by {
            if i < v.len() - 1 {
                assert(v.drop_last()[i] == v[i]);
            }
        }
    }
}

fn duplicate_ast_tys(v: &Vec<AstTy>) -> (r: Vec<AstTy>)
    ensures
        ast_tys_model(r@) == ast_tys_model(v@),
    decreases v,
{
    let mut r: Vec<AstTy> = Vec::new();
    let mut i: usize = 0;
    while i < v.len()
        invariant
            i <= v@.len(),
            ast_tys_model(r@) == ast_tys_model(v@.take(i as int)),
        decreases v@.len() - i,
    {
        assert(decreases_to!(v => v@[i as int]));
        let t = v[i].duplicate();
        let ghost old_r = r@;
        r.push(t);
        proof {
            assert(r@.drop_last() == old_r);
            assert(v@.take(i + 1).drop_last() =~= v@.take(i as int));
            assert(v@.take(i + 1)[i as int] == v@[i as int]);
        }
        i += 1;
    }
    assert(v@.take(v@.len() as int) =~= v@);
    r
}

fn duplicate_names(v: &Vec<String>) -> (r: Vec<String>)
    ensures
        r@.map_values(|g: String| g@) == v@.map_values(|g: String| g@),
{
    let mut r: Vec<String> = Vec::new();
    let mut i: usize = 0;
    while i < v.len()
        invariant
            i <= v@.len(),
            r@.len() == i,
            forall|j: int| 0 <= j < i ==> (#[trigger] r@[j])@ == v@[j]@,
        decreases v@.len() - i,
    {
        r.push(v[i].clone());
        i += 1;
    }
    assert(r@.map_values(|g: String| g@) =~= v@.map_values(|g: String| g@));
    r
}

impl AstFnTy {
    /// A deep copy.
    pub fn duplicate(&self) -> (r: AstFnTy)
        ensures
            (AstTy::Function(r)).model() == (AstTy::Function(*self)).model(),
        decreases self,
    {
        let ret = match &self.ret {
            Some(t) => Some(Box::new(t.duplicate())),
            None => None,
        };
        AstFnTy { params: duplicate_ast_tys(&self.params), generics: duplicate_names(&self.generics), ret }
    }
}

impl AstTy {
    /// A deep copy.
    pub fn duplicate(&self) -> (r: AstTy)
        ensures
            r.model() == self.model(),
        decreases self,
    {
        match self {
            AstTy::Primitive(p) => AstTy::Primitive(*p),
            AstTy::Reference(inner) => AstTy::Reference(Box::new(inner.duplicate())),
            AstTy::Struct(n) => AstTy::Struct(n.clone()),
            AstTy::Function(f) => AstTy::Function(f.duplicate()),
            AstTy::Tuple(items) => AstTy::Tuple(duplicate_ast_tys(items)),
            AstTy::Unit => AstTy::Unit,
            AstTy::Type => AstTy::Type,
            AstTy::Any => AstTy::Any,
            AstTy::TokenStream => AstTy::TokenStream,
            AstTy::Expr(e) => AstTy::Expr(match e {
                AstTypeExpr::Name(p) => AstTypeExpr::Name(AstPath { prefix: p.prefix, segments: duplicate_names(&p.segments) }),
                AstTypeExpr::ConstBlock(id) => AstTypeExpr::ConstBlock(*id),
                AstTypeExpr::Other => AstTypeExpr::Other,
            }),
            AstTy::Other => AstTy::Other,
        }
    }
}

} // verus!
