//! Checked HIR types: the shapes the type checker assigns to expressions
//! and patterns, and the pure operations on them.

use vstd::prelude::*;

verus! {

#[derive(Debug, Clone, Copy, PartialEq, Eq, Structural)]
pub enum IntTy {
    I8,
    I16,
    I32,
    I64,
    I128,
    Isize,
}

#[derive(Debug, Clone, Copy, PartialEq, Eq, Structural)]
pub enum UintTy {
    U8,
    U16,
    U32,
    U64,
    U128,
    Usize,
}

/// The width of a floating-point type (a type, not a value).
#[derive(Debug, Clone, Copy, PartialEq, Eq, Structural)]
pub enum FloatTy {
    F16,
    F32,
    F64,
    F128,
}

#[derive(Debug, Clone, Copy, PartialEq, Eq, Structural)]
pub enum Mutability {
    Not,
    Mut,
}

/// The lifetimes a checked type carries: only `'static` and erased ones.
#[derive(Debug, Clone, Copy, PartialEq, Eq, Structural)]
pub enum Region {
    ReStatic,
    ReErased,
}

/// The identity of a definition: its package and its index there.
#[derive(Debug, Clone, Copy, PartialEq, Eq, Structural)]
pub struct DefId {
    pub package: u64,
    pub index: u32,
}

#[derive(Debug, Clone, Copy, PartialEq, Eq, Structural)]
pub struct AdtDef {
    pub did: DefId,
}

/// A generic type parameter, by position and name.
#[derive(Debug)]
pub struct ParamTy {
    pub index: u32,
    pub name: String,
}

/// A resolved integer constant (an array length).
#[derive(Debug, Clone, Copy, PartialEq, Eq, Structural)]
pub struct ScalarInt {
    pub data: u128,
    pub size: u8,
}

/// A type-level constant.
#[derive(Debug)]
pub enum ConstKind {
    Value(ScalarInt),
    Param(ParamTy),
    Infer,
    Error,
}

#[derive(Debug)]
pub enum GenericArg {
    Type(Ty),
    Const(ConstKind),
    Lifetime(Region),
}

#[derive(Debug)]
pub struct FnSig {
    pub inputs: Vec<Box<Ty>>,
    pub output: Box<Ty>,
}

#[derive(Debug)]
pub struct TypeAndMut {
    pub ty: Box<Ty>,
    pub mutbl: Mutability,
}

#[derive(Debug)]
pub enum TyKind {
    Bool,
    Char,
    Int(IntTy),
    Uint(UintTy),
    Float(FloatTy),
    Str,
    Adt(AdtDef, Vec<GenericArg>),
    RawPtr(TypeAndMut),
    Ref(Region, Box<Ty>, Mutability),
    FnPtr(FnSig),
    Slice(Box<Ty>),
    Array(Box<Ty>, ConstKind),
    Tuple(Vec<Box<Ty>>),
    Param(ParamTy),
    Infer(u32),
    Never,
    Any,
    Type,
    Error,
}

#[derive(Debug)]
pub struct Ty {
    pub kind: TyKind,
}

impl Ty {
    pub fn bool() -> (t: Ty)
        ensures
            t.kind == TyKind::Bool,
    {
        Ty { kind: TyKind::Bool }
    }

    pub fn char() -> (t: Ty)
        ensures
            t.kind == TyKind::Char,
    {
        Ty { kind: TyKind::Char }
    }

    pub fn integer(i: IntTy) -> (t: Ty)
        ensures
            t.kind == TyKind::Int(i),
    {
        Ty { kind: TyKind::Int(i) }
    }

    pub fn uint(u: UintTy) -> (t: Ty)
        ensures
            t.kind == TyKind::Uint(u),
    {
        Ty { kind: TyKind::Uint(u) }
    }

    pub fn float(f: FloatTy) -> (t: Ty)
        ensures
            t.kind == TyKind::Float(f),
    {
        Ty { kind: TyKind::Float(f) }
    }

    pub fn never() -> (t: Ty)
        ensures
            t.kind == TyKind::Never,
    {
        Ty { kind: TyKind::Never }
    }

    pub fn error() -> (t: Ty)
        ensures
            t.kind == TyKind::Error,
    {
        Ty { kind: TyKind::Error }
    }

    /// Whether this is an unsigned integer type.
    pub fn is_uint(&self) -> (r: bool)
        ensures
            r == (self.kind is Uint),
    {
        match self.kind {
            TyKind::Uint(_) => true,
            _ => false,
        }
    }
}


// ---------------------------------------------------------------------
// The mathematical model of a checked type: names by their characters,
// lists as sequences.
// ---------------------------------------------------------------------

pub struct ParamModel {
    pub index: u32,
    pub name: Seq<char>,
}

pub enum ConstModel {
    Value(ScalarInt),
    Param(ParamModel),
    Infer,
    Error,
}

pub enum ArgModel {
    Type(TyModel),
    Const(ConstModel),
    Lifetime(Region),
}

pub enum TyModel {
    Bool,
    Char,
    Int(IntTy),
    Uint(UintTy),
    Float(FloatTy),
    Str,
    Adt(AdtDef, Seq<ArgModel>),
    RawPtr(Box<TyModel>, Mutability),
    Ref(Region, Box<TyModel>, Mutability),
    FnPtr(Seq<TyModel>, Box<TyModel>),
    Slice(Box<TyModel>),
    Array(Box<TyModel>, ConstModel),
    Tuple(Seq<TyModel>),
    Param(ParamModel),
    Infer(u32),
    Never,
    Any,
    Type,
    Error,
}

impl ParamTy {
    pub open spec fn model(&self) -> ParamModel {
        ParamModel { index: self.index, name: self.name@ }
    }
}

impl ConstKind {
    pub open spec fn model(&self) -> ConstModel {
        match self {
            ConstKind::Value(v) => ConstModel::Value(*v),
            ConstKind::Param(p) => ConstModel::Param(p.model()),
            ConstKind::Infer => ConstModel::Infer,
            ConstKind::Error => ConstModel::Error,
        }
    }
}

impl Ty {
    pub open spec fn model(&self) -> TyModel
        decreases self,
    {
        match &self.kind {
            TyKind::Bool => TyModel::Bool,
            TyKind::Char => TyModel::Char,
            TyKind::Int(i) => TyModel::Int(*i),
            TyKind::Uint(u) => TyModel::Uint(*u),
            TyKind::Float(f) => TyModel::Float(*f),
            TyKind::Str => TyModel::Str,
            TyKind::Adt(def, args) => TyModel::Adt(*def, args_model(args@)),
            TyKind::RawPtr(tm) => TyModel::RawPtr(Box::new(tm.ty.model()), tm.mutbl),
            TyKind::Ref(r, inner, m) => TyModel::Ref(*r, Box::new(inner.model()), *m),
            TyKind::FnPtr(sig) => TyModel::FnPtr(tys_model(sig.inputs@), Box::new(sig.output.model())),
            TyKind::Slice(inner) => TyModel::Slice(Box::new(inner.model())),
            TyKind::Array(inner, len) => TyModel::Array(Box::new(inner.model()), len.model()),
            TyKind::Tuple(tys) => TyModel::Tuple(tys_model(tys@)),
            TyKind::Param(p) => TyModel::Param(p.model()),
            TyKind::Infer(v) => TyModel::Infer(*v),
            TyKind::Never => TyModel::Never,
            TyKind::Any => TyModel::Any,
            TyKind::Type => TyModel::Type,
            TyKind::Error => TyModel::Error,
        }
    }
}

pub open spec fn tys_model(v: Seq<Box<Ty>>) -> Seq<TyModel>
    decreases v,
{
    if v.len() == 0 {
        Seq::empty()
    } else {
        tys_model(v.drop_last()).push(v[v.len() - 1].model())
    }
}

pub open spec fn args_model(v: Seq<GenericArg>) -> Seq<ArgModel>
    decreases v,
{
    if v.len() == 0 {
        Seq::empty()
    } else {
        args_model(v.drop_last()).push(arg_model(v[v.len() - 1]))
    }
}

pub open spec fn arg_model(a: GenericArg) -> ArgModel
    decreases a,
{
    match a {
        GenericArg::Type(t) => ArgModel::Type(t.model()),
        GenericArg::Const(c) => ArgModel::Const(c.model()),
        GenericArg::Lifetime(r) => ArgModel::Lifetime(r),
    }
}

/// The model of a list of types is the list of their models.
pub proof fn lemma_tys_model(v: Seq<Box<Ty>>)
    ensures
        tys_model(v).len() == v.len(),
        forall|i: int| 0 <= i < v.len() ==> #[trigger] tys_model(v)[i] == v[i].model(),
    decreases v.len(),
{
    if v.len() > 0 {
        lemma_tys_model(v.drop_last());
        assert forall|i: int| 0 <= i < v.len() implies #[trigger] tys_model(v)[i] == v[i].model() by {
            if i < v.len() - 1 {
                assert(v.drop_last()[i] == v[i]);
            }
        }
    }
}

/// The model of a list of generic arguments is the list of their models.
pub proof fn lemma_args_model(v: Seq<GenericArg>)
    ensures
        args_model(v).len() == v.len(),
        forall|i: int| 0 <= i < v.len() ==> #[trigger] args_model(v)[i] == arg_model(v[i]),
    decreases v.len(),
{
    if v.len() > 0 {
        lemma_args_model(v.drop_last());
        assert forall|i: int| 0 <= i < v.len() implies #[trigger] args_model(v)[i] == arg_model(v[i]) by {
            if i < v.len() - 1 {
                assert(v.drop_last()[i] == v[i]);
            }
        }
    }
}

/// Equal characters make equal strings for every purpose here.
pub fn str_equals(a: &str, b: &str) -> (r: bool)
    ensures
        r == (a@ == b@),
{
    let x = a.to_owned();
    let y = b.to_owned();
    x == y
}

impl ParamTy {
    pub fn duplicate(&self) -> (r: ParamTy)
        ensures
            r.model() == self.model(),
    {
        ParamTy { index: self.index, name: self.name.clone() }
    }

    pub fn same(&self, other: &ParamTy) -> (r: bool)
        ensures
            r == (self.model() == other.model()),
    {
        self.index == other.index && self.name == other.name
    }
}

impl ConstKind {
    pub fn duplicate(&self) -> (r: ConstKind)
        ensures
            r.model() == self.model(),
    {
        match self {
            ConstKind::Value(v) => ConstKind::Value(*v),
            ConstKind::Param(p) => ConstKind::Param(p.duplicate()),
            ConstKind::Infer => ConstKind::Infer,
            ConstKind::Error => ConstKind::Error,
        }
    }

    pub fn same(&self, other: &ConstKind) -> (r: bool)
        ensures
            r == (self.model() == other.model()),
    {
        match (self, other) {
            (ConstKind::Value(a), ConstKind::Value(b)) => a == b,
            (ConstKind::Param(a), ConstKind::Param(b)) => a.same(b),
            (ConstKind::Infer, ConstKind::Infer) => true,
            (ConstKind::Error, ConstKind::Error) => true,
            _ => false,
        }
    }
}

pub fn duplicate_tys(v: &Vec<Box<Ty>>) -> (r: Vec<Box<Ty>>)
    ensures
        tys_model(r@) == tys_model(v@),
    decreases v,
{
    let mut r: Vec<Box<Ty>> = Vec::new();
    let mut i: usize = 0;
    while i < v.len()
        invariant
            i <= v@.len(),
            tys_model(r@) == tys_model(v@.take(i as int)),
        decreases v@.len() - i,
    {
        assert(decreases_to!(v => v@[i as int]));
        let t = v[i].duplicate();
        let ghost old_r = r@;
        r.push(Box::new(t));
        proof {
            assert(r@.drop_last() == old_r);
            assert(v@.take(i + 1).drop_last() =~= v@.take(i as int));
            assert(v@.take(i + 1)[i as int] == v@[i as int]);
        }
        i += 1;
    }
    assert(v@.take(v@.len() as int) =~= v@);
    r
}

pub fn duplicate_args(v: &Vec<GenericArg>) -> (r: Vec<GenericArg>)
    ensures
        args_model(r@) == args_model(v@),
    decreases v,
{
    let mut r: Vec<GenericArg> = Vec::new();
    let mut i: usize = 0;
    while i < v.len()
        invariant
            i <= v@.len(),
            args_model(r@) == args_model(v@.take(i as int)),
        decreases v@.len() - i,
    {
        assert(decreases_to!(v => v@[i as int]));
        let a = duplicate_arg(&v[i]);
        let ghost old_r = r@;
        r.push(a);
        proof {
            assert(r@.drop_last() == old_r);
            assert(v@.take(i + 1).drop_last() =~= v@.take(i as int));
            assert(v@.take(i + 1)[i as int] == v@[i as int]);
        }
        i += 1;
    }
    assert(v@.take(v@.len() as int) =~= v@);
    r
}

pub fn duplicate_arg(a: &GenericArg) -> (r: GenericArg)
    ensures
        arg_model(r) == arg_model(*a),
    decreases a,
{
    match a {
        GenericArg::Type(t) => GenericArg::Type(t.duplicate()),
        GenericArg::Const(c) => GenericArg::Const(c.duplicate()),
        GenericArg::Lifetime(r) => GenericArg::Lifetime(*r),
    }
}

impl Ty {
    /// A deep copy.
    pub fn duplicate(&self) -> (r: Ty)
        ensures
            r.model() == self.model(),
        decreases self,
    {
        let kind = match &self.kind {
            TyKind::Bool => TyKind::Bool,
            TyKind::Char => TyKind::Char,
            TyKind::Int(i) => TyKind::Int(*i),
            TyKind::Uint(u) => TyKind::Uint(*u),
            TyKind::Float(f) => TyKind::Float(*f),
            TyKind::Str => TyKind::Str,
            TyKind::Adt(def, args) => TyKind::Adt(*def, duplicate_args(args)),
            TyKind::RawPtr(tm) => TyKind::RawPtr(TypeAndMut { ty: Box::new(tm.ty.duplicate()), mutbl: tm.mutbl }),
            TyKind::Ref(r, inner, m) => TyKind::Ref(*r, Box::new(inner.duplicate()), *m),
            TyKind::FnPtr(sig) => TyKind::FnPtr(FnSig {
                inputs: duplicate_tys(&sig.inputs),
                output: Box::new(sig.output.duplicate()),
            }),
            TyKind::Slice(inner) => TyKind::Slice(Box::new(inner.duplicate())),
            TyKind::Array(inner, len) => TyKind::Array(Box::new(inner.duplicate()), len.duplicate()),
            TyKind::Tuple(tys) => TyKind::Tuple(duplicate_tys(tys)),
            TyKind::Param(p) => TyKind::Param(p.duplicate()),
            TyKind::Infer(v) => TyKind::Infer(*v),
            TyKind::Never => TyKind::Never,
            TyKind::Any => TyKind::Any,
            TyKind::Type => TyKind::Type,
            TyKind::Error => TyKind::Error,
        };
        Ty { kind }
    }

    /// Structural equality (names compared by their characters).
    pub fn same(&self, other: &Ty) -> (r: bool)
        ensures
            r == (self.model() == other.model()),
        decreases self,
    {
        match (&self.kind, &other.kind) {
            (TyKind::Bool, TyKind::Bool) => true,
            (TyKind::Char, TyKind::Char) => true,
            (TyKind::Int(a), TyKind::Int(b)) => a == b,
            (TyKind::Uint(a), TyKind::Uint(b)) => a == b,
            (TyKind::Float(a), TyKind::Float(b)) => a == b,
            (TyKind::Str, TyKind::Str) => true,
            (TyKind::Adt(d1, a1), TyKind::Adt(d2, a2)) => d1 == d2 && same_args(a1, a2),
            (TyKind::RawPtr(t1), TyKind::RawPtr(t2)) => t1.mutbl == t2.mutbl && t1.ty.same(&t2.ty),
            (TyKind::Ref(r1, i1, m1), TyKind::Ref(r2, i2, m2)) => r1 == r2 && m1 == m2 && i1.same(i2),
            (TyKind::FnPtr(s1), TyKind::FnPtr(s2)) => same_tys(&s1.inputs, &s2.inputs) && s1.output.same(&s2.output),
            (TyKind::Slice(i1), TyKind::Slice(i2)) => i1.same(i2),
            (TyKind::Array(i1, l1), TyKind::Array(i2, l2)) => l1.same(l2) && i1.same(i2),
            (TyKind::Tuple(t1), TyKind::Tuple(t2)) => same_tys(t1, t2),
            (TyKind::Param(p1), TyKind::Param(p2)) => p1.same(p2),
            (TyKind::Infer(a), TyKind::Infer(b)) => a == b,
            (TyKind::Never, TyKind::Never) => true,
            (TyKind::Any, TyKind::Any) => true,
            (TyKind::Type, TyKind::Type) => true,
            (TyKind::Error, TyKind::Error) => true,
            _ => false,
        }
    }
}

pub fn same_tys(a: &Vec<Box<Ty>>, b: &Vec<Box<Ty>>) -> (r: bool)
    ensures
        r == (tys_model(a@) == tys_model(b@)),
    decreases a,
{
    proof {
        lemma_tys_model(a@);
        lemma_tys_model(b@);
    }
    if a.len() != b.len() {
        return false;
    }
    let mut i: usize = 0;
    while i < a.len()
        invariant
            i <= a@.len(),
            a@.len() == b@.len(),
            tys_model(a@).len() == a@.len(),
            tys_model(b@).len() == b@.len(),
            forall|j: int| 0 <= j < a@.len() ==> #[trigger] tys_model(a@)[j] == a@[j].model(),
            forall|j: int| 0 <= j < b@.len() ==> #[trigger] tys_model(b@)[j] == b@[j].model(),
            forall|j: int| 0 <= j < i ==> tys_model(a@)[j] == tys_model(b@)[j],
        decreases a@.len() - i,
    {
        assert(decreases_to!(a => a@[i as int]));
        if !a[i].same(&b[i]) {
            assert(tys_model(a@)[i as int] != tys_model(b@)[i as int]);
            return false;
        }
        i += 1;
    }
    assert(tys_model(a@) =~= tys_model(b@));
    true
}

pub fn same_args(a: &Vec<GenericArg>, b: &Vec<GenericArg>) -> (r: bool)
    ensures
        r == (args_model(a@) == args_model(b@)),
    decreases a,
{
    proof {
        lemma_args_model(a@);
        lemma_args_model(b@);
    }
    if a.len() != b.len() {
        return false;
    }
    let mut i: usize = 0;
    while i < a.len()
        invariant
            i <= a@.len(),
            a@.len() == b@.len(),
            args_model(a@).len() == a@.len(),
            args_model(b@).len() == b@.len(),
            forall|j: int| 0 <= j < a@.len() ==> #[trigger] args_model(a@)[j] == arg_model(a@[j]),
            forall|j: int| 0 <= j < b@.len() ==> #[trigger] args_model(b@)[j] == arg_model(b@[j]),
            forall|j: int| 0 <= j < i ==> args_model(a@)[j] == args_model(b@)[j],
        decreases a@.len() - i,
    {
        assert(decreases_to!(a => a@[i as int]));
        if !same_arg(&a[i], &b[i]) {
            assert(args_model(a@)[i as int] != args_model(b@)[i as int]);
            return false;
        }
        i += 1;
    }
    assert(args_model(a@) =~= args_model(b@));
    true
}

pub fn same_arg(a: &GenericArg, b: &GenericArg) -> (r: bool)
    ensures
        r == (arg_model(*a) == arg_model(*b)),
    decreases a,
{
    match (a, b) {
        (GenericArg::Type(x), GenericArg::Type(y)) => x.same(y),
        (GenericArg::Const(x), GenericArg::Const(y)) => x.same(y),
        (GenericArg::Lifetime(x), GenericArg::Lifetime(y)) => x == y,
        _ => false,
    }
}

} // verus!
