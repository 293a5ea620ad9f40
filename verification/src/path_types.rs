//! The type a path written in type position denotes, given what the
//! surrounding checker knows: the generic parameters, type aliases and
//! struct and enum items in scope, the `Self` type and associated types of
//! an enclosing impl, and the `const` blocks evaluated so far.

use vstd::prelude::*;
use crate::call_types::{collection_constructor_signature, constructor_signature};
use crate::paths::{
    GenericParamDecl, adt_path_args, builtin_path_ty, builtin_type_path, explicit_model, params_model,
    path_type_args, strings_model, variant_value_model, variant_value_ty,
};
use crate::generic_types::{
    DiagModel, Substitutions, TypeDiagnostic, diags_model, duplicate_ty_list, subst, substitute_param_map, ty_list_model,
};
use crate::ty::{
    AdtDef, ArgModel, DefId, GenericArg, ParamModel, ParamTy, Ty, TyKind, TyModel, arg_model, args_model,
    lemma_args_model, str_equals,
};
use crate::type_shapes::{primitive_of_name, primitive_path_ty};

verus! {

/// What a path was resolved to by name resolution.
#[derive(Debug, Clone, Copy, PartialEq, Eq, Structural)]
pub enum PathRes {
    /// A definition.
    Def(DefId),
    /// `Self` in an impl.
    SelfTy,
    /// A local binding.
    Local,
    /// Nothing at all.
    Other,
}

/// One segment of a type path: its name and, when it writes generic
/// arguments, their checked types.
#[derive(Debug)]
pub struct TypePathSegment {
    pub name: String,
    pub args: Option<Vec<Ty>>,
}

/// A path in type position.
#[derive(Debug)]
pub struct TypePath {
    pub res: PathRes,
    pub segments: Vec<TypePathSegment>,
}

/// A struct or enum item as a path to it sees it: its declared generic
/// parameters.
#[derive(Debug)]
pub enum TypeItemDecl {
    Struct(Vec<GenericParamDecl>),
    Enum(Vec<GenericParamDecl>),
    /// Any other item (a function, a const, ...): not a type.
    Other,
}

/// A transparent type alias: its declared generic parameters and its
/// target type, checked in the alias's scope (where its parameter at
/// position `i` is the type parameter of index `i` and that name).
#[derive(Debug)]
pub struct AliasDecl {
    pub params: Vec<GenericParamDecl>,
    pub target: Ty,
}

/// What the checker knows around a type path.
#[derive(Debug)]
pub struct PathContext {
    /// The `Self` type of the enclosing impl, if any.
    pub self_type: Option<Ty>,
    /// The associated types the enclosing impl binds, if inside one.
    pub assoc_types: Option<Vec<(String, Ty)>>,
    /// The generic parameters in scope, by definition.
    pub generics: Vec<(DefId, Ty)>,
    /// The transparent type aliases, by definition.
    pub alias_targets: Vec<(DefId, AliasDecl)>,
    /// The struct and enum (and other) items, by definition.
    pub items: Vec<(DefId, TypeItemDecl)>,
    /// The `const` blocks evaluated so far, each with whether its value is
    /// a struct type.
    pub const_blocks: Vec<(DefId, bool)>,
}

/// Why a type path denotes no type.
#[derive(Debug, Clone, PartialEq, Eq)]
pub enum PathTyError {
    /// A `const` block whose value is not a type.
    ConstBlockNotAType,
    /// `Self` outside an impl.
    SelfUnavailable,
    /// `Self::Name` where the impl binds no associated type `Name`.
    AssocTypeUndefined(String),
    /// A path that names nothing.
    Unresolved,
    /// A definition that the item table does not hold.
    DefinitionNotFound,
    /// A definition that is not a type.
    NotAType,
    /// A local binding with no type inferred for it.
    LocalUntyped,
    /// A value path that names nothing.
    UnresolvedValue,
    /// A value definition that neither the item nor the member table holds.
    ValueNotFound,
    /// A `const` whose type was not recorded.
    ConstTypeNotRecorded,
    /// An item that is not a value.
    NotAValue,
}

/// What a type path denotes.
#[derive(Debug)]
pub enum PathTy {
    /// The type.
    Resolved(Ty),
    /// `Base::Assoc` with an unresolved base: the associated type `assoc`
    /// of the type that the first segment names (`base`, when it is a
    /// primitive; else the well-known struct `base_name` with the segment's
    /// arguments `base_args`), or else the one that the bounds of the
    /// generic parameter named `base_name` declare. The path is unresolved
    /// when neither declares it.
    Projection { base: Option<Ty>, base_name: String, base_args: Option<Vec<Ty>>, assoc: String },
    /// No type.
    Error(PathTyError),
}

pub enum PathTyModel {
    Resolved(TyModel),
    Projection { base: Option<TyModel>, base_name: Seq<char>, base_args: Option<Seq<TyModel>>, assoc: Seq<char> },
    Error(PathTyError),
}

pub open spec fn opt_ty_model(t: Option<Ty>) -> Option<TyModel> {
    match t {
        Some(x) => Some(x.model()),
        None => None,
    }
}

impl PathTy {
    pub open spec fn model(&self) -> PathTyModel {
        match self {
            PathTy::Resolved(t) => PathTyModel::Resolved(t.model()),
            PathTy::Projection { base, base_name, base_args, assoc } => PathTyModel::Projection {
                base: opt_ty_model(*base),
                base_name: base_name@,
                base_args: explicit_model(*base_args),
                assoc: assoc@,
            },
            PathTy::Error(e) => PathTyModel::Error(*e),
        }
    }
}

/// The entry for `d` from position `i` on: the first whose definition is
/// `d`.
pub open spec fn first_def<T>(s: Seq<(DefId, T)>, d: DefId, i: int) -> Option<T>
    decreases s.len() - i,
{
    if i < 0 || i >= s.len() {
        None
    } else if s[i].0 == d {
        Some(s[i].1)
    } else {
        first_def(s, d, i + 1)
    }
}

/// The entry named `n` from position `i` on: the first with that name.
pub open spec fn first_named<T>(s: Seq<(String, T)>, n: Seq<char>, i: int) -> Option<T>
    decreases s.len() - i,
{
    if i < 0 || i >= s.len() {
        None
    } else if s[i].0@ == n {
        Some(s[i].1)
    } else {
        first_named(s, n, i + 1)
    }
}

/// The generic arguments written on the first segment that writes any.
pub open spec fn first_args(segs: Seq<TypePathSegment>, i: int) -> Option<Vec<Ty>>
    decreases segs.len() - i,
{
    if i < 0 || i >= segs.len() {
        None
    } else if segs[i].args is Some {
        segs[i].args
    } else {
        first_args(segs, i + 1)
    }
}

pub open spec fn segment_names(segs: Seq<TypePathSegment>) -> Seq<Seq<char>> {
    segs.map_values(|s: TypePathSegment| s.name@)
}

/// The type a path to the struct or enum item `item` denotes.
pub open spec fn item_path_model(d: DefId, item: TypeItemDecl, path: TypePath) -> PathTyModel {
    let explicit = explicit_model(first_args(path.segments@, 0));
    match item {
        TypeItemDecl::Struct(ps) => PathTyModel::Resolved(
            TyModel::Adt(AdtDef { did: d }, adt_path_args(explicit, params_model(ps@))),
        ),
        TypeItemDecl::Enum(ps) => PathTyModel::Resolved(
            TyModel::Adt(AdtDef { did: d }, adt_path_args(explicit, params_model(ps@))),
        ),
        TypeItemDecl::Other => PathTyModel::Error(PathTyError::NotAType),
    }
}

/// The type an argument stands for (a non-type argument, which no
/// path's arguments hold, stands for the error type).
pub open spec fn arg_type(a: ArgModel) -> TyModel {
    match a {
        ArgModel::Type(t) => t,
        _ => TyModel::Error,
    }
}

/// The substitution that binds the first `n` of the declared parameters,
/// the one at position `i` to the argument at position `i`.
pub open spec fn param_bindings(params: Seq<(Seq<char>, Option<TyModel>)>, args: Seq<ArgModel>, n: int) -> Map<ParamModel, TyModel>
    decreases n,
{
    if n <= 0 {
        Map::empty()
    } else {
        param_bindings(params, args, n - 1).insert(
            ParamModel { index: (n - 1) as u32, name: params[n - 1].0 },
            arg_type(args[n - 1]),
        )
    }
}

/// The type the path `path` to the alias `a` denotes: the alias's target
/// with each of its parameters replaced by the path's argument at that
/// position (see `adt_path_args`).
pub open spec fn alias_model(a: AliasDecl, path: TypePath) -> TyModel {
    let ps = params_model(a.params@);
    let args = adt_path_args(explicit_model(first_args(path.segments@, 0)), ps);
    subst(a.target.model(), param_bindings(ps, args, ps.len() as int))
}

/// What the type path `path` denotes in `ctx`:
/// - a primitive type name as its last segment, that primitive;
/// - a `const` block evaluated to a struct type, that struct (with no
///   arguments), and to any other value, no type;
/// - `Self`, the impl's `Self` type, and `Self::Name`, the impl's
///   associated type `Name`;
/// - an unresolved path: `void` and `null` as built-in types, a path of
///   two or more segments as an associated-type projection, and otherwise
///   nothing;
/// - a definition: a generic parameter in scope, the target of a type
///   alias with its parameters replaced by the path's generic arguments,
///   or a struct or enum item with its generic arguments (the first
///   segment's that writes any, padded by the declared defaults, or else
///   the declared parameters themselves; an alias takes its arguments by
///   the same rule).
pub open spec fn path_model(path: TypePath, ctx: PathContext) -> PathTyModel {
    let segs = path.segments@;
    if segs.len() > 0 && primitive_of_name(segs.last().name@) is Some {
        PathTyModel::Resolved(primitive_of_name(segs.last().name@).unwrap())
    } else if path.res is Def && first_def(ctx.const_blocks@, path.res->Def_0, 0) is Some {
        if first_def(ctx.const_blocks@, path.res->Def_0, 0).unwrap() {
            PathTyModel::Resolved(TyModel::Adt(AdtDef { did: path.res->Def_0 }, Seq::empty()))
        } else {
            PathTyModel::Error(PathTyError::ConstBlockNotAType)
        }
    } else if path.res is SelfTy {
        match ctx.self_type {
            None => PathTyModel::Error(PathTyError::SelfUnavailable),
            Some(st) => if segs.len() >= 2 {
                let found = match ctx.assoc_types {
                    Some(a) => first_named(a@, segs[1].name@, 0),
                    None => None,
                };
                match found {
                    Some(t) => PathTyModel::Resolved(t.model()),
                    None => PathTyModel::Error(PathTyError::AssocTypeUndefined(segs[1].name)),
                }
            } else {
                PathTyModel::Resolved(st.model())
            },
        }
    } else if !(path.res is Def) {
        match builtin_type_path(segment_names(segs)) {
            Some(t) => PathTyModel::Resolved(t),
            None => if segs.len() >= 2 {
                PathTyModel::Projection {
                    base: primitive_of_name(segs[0].name@),
                    base_name: segs[0].name@,
                    base_args: explicit_model(segs[0].args),
                    assoc: segs.last().name@,
                }
            } else {
                PathTyModel::Error(PathTyError::Unresolved)
            },
        }
    } else {
        let d = path.res->Def_0;
        match first_def(ctx.generics@, d, 0) {
            Some(g) => PathTyModel::Resolved(g.model()),
            None => match first_def(ctx.alias_targets@, d, 0) {
                Some(a) => PathTyModel::Resolved(alias_model(a, path)),
                None => match first_def(ctx.items@, d, 0) {
                    None => PathTyModel::Error(PathTyError::DefinitionNotFound),
                    Some(item) => item_path_model(d, item, path),
                },
            },
        }
    }
}


/// Every alias's declared generic parameters can be numbered by a `u32`.
pub open spec fn aliases_fit(aliases: Seq<(DefId, AliasDecl)>) -> bool {
    forall|i: int| 0 <= i < aliases.len() ==> (#[trigger] aliases[i].1).params@.len() <= u32::MAX
}

/// The generic parameters of every item and alias can be numbered by a
/// `u32`.
pub open spec fn context_fits(ctx: PathContext) -> bool {
    items_fit(ctx.items@) && aliases_fit(ctx.alias_targets@)
}

proof fn lemma_param_bindings_keys(params: Seq<(Seq<char>, Option<TyModel>)>, args: Seq<ArgModel>, n: int)
    requires
        n <= u32::MAX + 1,
    ensures
        forall|k: ParamModel| #[trigger] param_bindings(params, args, n).contains_key(k) ==> (k.index as int) < n,
    decreases n,
{
    if n > 0 {
        lemma_param_bindings_keys(params, args, n - 1);
        let key = ParamModel { index: (n - 1) as u32, name: params[n - 1].0 };
        assert((key.index as int) == n - 1);
        assert forall|k: ParamModel| #[trigger] param_bindings(params, args, n).contains_key(k) implies (k.index as int) < n by {
            if k != key {
                assert(param_bindings(params, args, n - 1).contains_key(k));
            }
        }
    }
}

/// The type of a path to the alias `a`; see `alias_model`.
fn alias_ty(a: &AliasDecl, path: &TypePath) -> (r: Ty)
    requires
        a.params@.len() <= u32::MAX,
    ensures
        r.model() == alias_model(*a, *path),
{
    let ghost ps = params_model(a.params@);
    let args = path_type_args(first_segment_args(&path.segments), a.params.as_slice());
    let ghost am = args_model(args@);
    assert(am.len() >= ps.len());
    let mut subs = Substitutions::new();
    let mut i: usize = 0;
    while i < a.params.len()
        invariant
            i <= a.params@.len(),
            a.params@.len() <= u32::MAX,
            ps == params_model(a.params@),
            am == args_model(args@),
            am.len() >= ps.len(),
            subs.wf(),
            subs.model() == param_bindings(ps, am, i as int),
        decreases a.params@.len() - i,
    {
        let param = ParamTy { index: i as u32, name: a.params[i].name.clone() };
        assert(param.model() == ParamModel { index: i as u32, name: ps[i as int].0 });
        proof {
            lemma_param_bindings_keys(ps, am, i as int);
            lemma_args_model(args@);
        }
        let ty = match &args[i] {
            GenericArg::Type(t) => t.duplicate(),
            _ => Ty::error(),
        };
        assert(ty.model() == arg_type(am[i as int]));
        subs.insert_new(param, ty);
        i += 1;
    }
    substitute_param_map(&a.target, &subs)
}

/// Every item's declared generic parameters can be numbered by a `u32`.
pub open spec fn items_fit(items: Seq<(DefId, TypeItemDecl)>) -> bool {
    forall|i: int| 0 <= i < items.len() ==> match #[trigger] items[i].1 {
        TypeItemDecl::Struct(ps) => ps@.len() <= u32::MAX,
        TypeItemDecl::Enum(ps) => ps@.len() <= u32::MAX,
        TypeItemDecl::Other => true,
    }
}

fn find_def<T>(s: &Vec<(DefId, T)>, d: DefId) -> (r: Option<usize>)
    ensures
        r matches Some(i) ==> i < s@.len() && s@[i as int].0 == d && first_def(s@, d, 0) == Some(s@[i as int].1),
        r is None ==> first_def(s@, d, 0) is None,
{
    let mut i: usize = 0;
    while i < s.len()
        invariant
            i <= s@.len(),
            first_def(s@, d, 0) == first_def(s@, d, i as int),
        decreases s@.len() - i,
    {
        if s[i].0 == d {
            return Some(i);
        }
        i += 1;
    }
    None
}

fn find_named<T>(s: &Vec<(String, T)>, n: &str) -> (r: Option<usize>)
    ensures
        r matches Some(i) ==> i < s@.len() && first_named(s@, n@, 0) == Some(s@[i as int].1),
        r is None ==> first_named(s@, n@, 0) is None,
{
    let mut i: usize = 0;
    while i < s.len()
        invariant
            i <= s@.len(),
            first_named(s@, n@, 0) == first_named(s@, n@, i as int),
        decreases s@.len() - i,
    {
        if str_equals(s[i].0.as_str(), n) {
            return Some(i);
        }
        i += 1;
    }
    None
}

fn copy_args(a: &Option<Vec<Ty>>) -> (r: Option<Vec<Ty>>)
    ensures
        explicit_model(r) == explicit_model(*a),
{
    match a {
        Some(v) => Some(duplicate_ty_list(v.as_slice())),
        None => None,
    }
}

fn first_segment_args(segs: &Vec<TypePathSegment>) -> (r: Option<Vec<Ty>>)
    ensures
        explicit_model(r) == explicit_model(first_args(segs@, 0)),
{
    let mut i: usize = 0;
    while i < segs.len()
        invariant
            i <= segs@.len(),
            first_args(segs@, 0) == first_args(segs@, i as int),
        decreases segs@.len() - i,
    {
        if segs[i].args.is_some() {
            return copy_args(&segs[i].args);
        }
        i += 1;
    }
    None
}

fn segment_name_list(segs: &Vec<TypePathSegment>) -> (r: Vec<String>)
    ensures
        strings_model(r@) == segment_names(segs@),
{
    let mut r: Vec<String> = Vec::new();
    let mut i: usize = 0;
    while i < segs.len()
        invariant
            i <= segs@.len(),
            r@.len() == i,
            strings_model(r@) == segment_names(segs@).take(i as int),
        decreases segs@.len() - i,
    {
        let name = segs[i].name.clone();
        let ghost old_r = r@;
        r.push(name);
        assert(strings_model(r@) =~= segment_names(segs@).take(i + 1)) by {
            assert(r@ == old_r.push(name));
            assert(strings_model(r@)[i as int] == name@);
            assert(segment_names(segs@)[i as int] == segs@[i as int].name@);
            assert forall|j: int| 0 <= j < i implies strings_model(r@)[j] == strings_model(old_r)[j] by {
                assert(r@[j] == old_r[j]);
            }
        }
        i += 1;
    }
    assert(segment_names(segs@).take(segs@.len() as int) =~= segment_names(segs@));
    r
}

/// The type of a struct or enum item `item` named by `path`; see
/// `item_path_model`.
fn item_path_ty(d: DefId, item: &TypeItemDecl, path: &TypePath) -> (r: PathTy)
    requires
        match *item {
            TypeItemDecl::Struct(ps) => ps@.len() <= u32::MAX,
            TypeItemDecl::Enum(ps) => ps@.len() <= u32::MAX,
            TypeItemDecl::Other => true,
        },
    ensures
        r.model() == item_path_model(d, *item, *path),
{
    match item {
        TypeItemDecl::Struct(ps) => {
            let args = path_type_args(first_segment_args(&path.segments), ps.as_slice());
            PathTy::Resolved(Ty { kind: TyKind::Adt(AdtDef { did: d }, args) })
        },
        TypeItemDecl::Enum(ps) => {
            let args = path_type_args(first_segment_args(&path.segments), ps.as_slice());
            PathTy::Resolved(Ty { kind: TyKind::Adt(AdtDef { did: d }, args) })
        },
        TypeItemDecl::Other => PathTy::Error(PathTyError::NotAType),
    }
}

/// The type the path `path`, written in type position, denotes in `ctx`;
/// see `path_model`.
pub fn path_ty(path: &TypePath, ctx: &PathContext) -> (r: PathTy)
    requires
        context_fits(*ctx),
    ensures
        r.model() == path_model(*path, *ctx),
{
    let n = path.segments.len();
    if n > 0 {
        match primitive_path_ty(path.segments[n - 1].name.as_str()) {
            Some(t) => return PathTy::Resolved(t),
            None => {},
        }
    }
    if let PathRes::Def(d) = path.res {
        match find_def(&ctx.const_blocks, d) {
            Some(i) => {
                return if ctx.const_blocks[i].1 {
                    let no_args: Vec<crate::ty::GenericArg> = Vec::new();
                    assert(args_model(no_args@) =~= Seq::<crate::ty::ArgModel>::empty());
                    PathTy::Resolved(Ty { kind: TyKind::Adt(AdtDef { did: d }, no_args) })
                } else {
                    PathTy::Error(PathTyError::ConstBlockNotAType)
                };
            },
            None => {},
        }
    }
    match path.res {
        PathRes::SelfTy => {
            let st = match &ctx.self_type {
                None => return PathTy::Error(PathTyError::SelfUnavailable),
                Some(t) => t,
            };
            if n >= 2 {
                match &ctx.assoc_types {
                    Some(a) => match find_named(a, path.segments[1].name.as_str()) {
                        Some(i) => return PathTy::Resolved(a[i].1.duplicate()),
                        None => {},
                    },
                    None => {},
                }
                return PathTy::Error(PathTyError::AssocTypeUndefined(path.segments[1].name.clone()));
            }
            PathTy::Resolved(st.duplicate())
        },
        PathRes::Local | PathRes::Other => {
            let names = segment_name_list(&path.segments);
            match builtin_path_ty(names.as_slice()) {
                Some(t) => return PathTy::Resolved(t),
                None => {},
            }
            if n >= 2 {
                PathTy::Projection {
                    base: primitive_path_ty(path.segments[0].name.as_str()),
                    base_name: path.segments[0].name.clone(),
                    base_args: copy_args(&path.segments[0].args),
                    assoc: path.segments[n - 1].name.clone(),
                }
            } else {
                PathTy::Error(PathTyError::Unresolved)
            }
        },
        PathRes::Def(d) => {
            match find_def(&ctx.generics, d) {
                Some(i) => return PathTy::Resolved(ctx.generics[i].1.duplicate()),
                None => {},
            }
            match find_def(&ctx.alias_targets, d) {
                Some(i) => {
                    assert(aliases_fit(ctx.alias_targets@));
                    assert(ctx.alias_targets@[i as int].1.params@.len() <= u32::MAX);
                    return PathTy::Resolved(alias_ty(&ctx.alias_targets[i].1, path));
                },
                None => {},
            }
            match find_def(&ctx.items, d) {
                Some(i) => {
                    assert(items_fit(ctx.items@));
                    let ghost entry = ctx.items@[i as int];
                    assert(match entry.1 {
                        TypeItemDecl::Struct(ps) => ps@.len() <= u32::MAX,
                        TypeItemDecl::Enum(ps) => ps@.len() <= u32::MAX,
                        TypeItemDecl::Other => true,
                    });
                    item_path_ty(d, &ctx.items[i].1, path)
                },
                None => PathTy::Error(PathTyError::DefinitionNotFound),
            }
        },
    }
}


// ---------------------------------------------------------------------
// Paths in value position.
// ---------------------------------------------------------------------

/// An item as a value path to it sees it.
#[derive(Debug)]
pub enum ValueItem {
    /// A struct or enum: the path names its type.
    TypeItem,
    /// A `const` whose initializer is an integer literal, with its
    /// declared type, checked.
    LiteralConst(Ty),
    /// Any other `const`, with the type recorded for it, if any.
    Const(Option<Ty>),
    /// A function, with its signature as a function pointer type.
    Function(Ty),
    /// Any other item.
    Other,
}

/// A definition that is a member of an impl or an enum rather than an
/// item of its own.
#[derive(Debug)]
pub enum MemberDecl {
    /// An impl method, with its signature as a function pointer type.
    Method(Ty),
    /// An impl's associated `const`, with its declared type, checked.
    AssocConst(Ty),
    /// A variant of the enum `enum_def`, whose generic parameters are
    /// `params`, with its payload type, checked, if it has one.
    Variant { enum_def: DefId, params: Vec<GenericParamDecl>, payload: Option<Ty> },
}

/// What the checker knows around a value path.
#[derive(Debug)]
pub struct ValueContext {
    /// The local bindings in scope, with their types.
    pub locals: Vec<(String, Ty)>,
    /// The items, by definition.
    pub items: Vec<(DefId, ValueItem)>,
    /// The impl and enum members, by definition.
    pub members: Vec<(DefId, MemberDecl)>,
    /// What a path in type position sees.
    pub types: PathContext,
    /// The definitions of the well-known structs `HashMap` and
    /// `HashMapEntry`, when declared.
    pub map_def: Option<DefId>,
    pub map_entry_def: Option<DefId>,
}

/// Every enum member's declared generic parameters can be numbered by a
/// `u32`.
pub open spec fn members_fit(members: Seq<(DefId, MemberDecl)>) -> bool {
    forall|i: int| 0 <= i < members.len() ==> match #[trigger] members[i].1 {
        MemberDecl::Variant { params, .. } => params@.len() <= u32::MAX,
        _ => true,
    }
}

pub open spec fn value_context_fits(ctx: ValueContext) -> bool {
    context_fits(ctx.types) && members_fit(ctx.members@)
}

/// The generic arguments of an enum type named by a variant's path: the
/// first segment's that writes any, as written, or else the enum's
/// declared parameters themselves.
pub open spec fn enum_path_args(explicit: Option<Seq<TyModel>>, declared: Seq<(Seq<char>, Option<TyModel>)>) -> Seq<ArgModel> {
    match explicit {
        Some(ex) => ex.map_values(|t: TyModel| ArgModel::Type(t)),
        None => adt_path_args(None, declared),
    }
}

/// What the value path `path` denotes in `ctx`, and the diagnostics that
/// reading it records:
/// - a local, the type of the local binding named by its last segment;
/// - an unresolved path, the signature of the collection constructor it
///   stands for (`HashMap::from`), if any;
/// - a struct or enum item, the type the path names (see `path_model`);
/// - a `const`, its declared or recorded type; a function, its signature;
/// - an impl method or associated `const`, its signature or type;
/// - an enum variant, the enum value or the variant's constructor (see
///   `variant_value_model`), for the enum type with the path's arguments.
pub open spec fn expr_path_model(path: TypePath, ctx: ValueContext) -> (PathTyModel, Seq<DiagModel>) {
    let segs = path.segments@;
    match path.res {
        PathRes::Local => (if segs.len() > 0 && first_named(ctx.locals@, segs.last().name@, 0) is Some {
            PathTyModel::Resolved(first_named(ctx.locals@, segs.last().name@, 0).unwrap().model())
        } else {
            PathTyModel::Error(PathTyError::LocalUntyped)
        }, Seq::empty()),
        PathRes::Def(d) => (match first_def(ctx.items@, d, 0) {
            Some(ValueItem::TypeItem) => path_model(path, ctx.types),
            Some(ValueItem::LiteralConst(t)) => PathTyModel::Resolved(t.model()),
            Some(ValueItem::Const(Some(t))) => PathTyModel::Resolved(t.model()),
            Some(ValueItem::Const(None)) => PathTyModel::Error(PathTyError::ConstTypeNotRecorded),
            Some(ValueItem::Function(t)) => PathTyModel::Resolved(t.model()),
            Some(ValueItem::Other) => PathTyModel::Error(PathTyError::NotAValue),
            None => match first_def(ctx.members@, d, 0) {
                Some(MemberDecl::Method(t)) => PathTyModel::Resolved(t.model()),
                Some(MemberDecl::AssocConst(t)) => PathTyModel::Resolved(t.model()),
                Some(MemberDecl::Variant { enum_def, params, payload }) => PathTyModel::Resolved(variant_value_model(
                    TyModel::Adt(AdtDef { did: enum_def }, enum_path_args(explicit_model(first_args(segs, 0)), params_model(params@))),
                    opt_ty_model(payload),
                )),
                None => PathTyModel::Error(PathTyError::ValueNotFound),
            },
        }, Seq::empty()),
        _ => {
            let c = constructor_signature(segment_names(segs), ctx.map_def, ctx.map_entry_def);
            (match c.0 {
                Some(t) => PathTyModel::Resolved(t),
                None => PathTyModel::Error(PathTyError::UnresolvedValue),
            }, c.1)
        },
    }
}

fn enum_type_args(explicit: Option<Vec<Ty>>, declared: &[GenericParamDecl]) -> (r: Vec<GenericArg>)
    requires
        declared@.len() <= u32::MAX,
    ensures
        args_model(r@) == enum_path_args(explicit_model(explicit), params_model(declared@)),
{
    match explicit {
        Some(v) => {
            let ghost em = ty_list_model(v@);
            let mut r: Vec<GenericArg> = Vec::new();
            let mut i: usize = 0;
            while i < v.len()
                invariant
                    i <= v@.len(),
                    em == ty_list_model(v@),
                    r@.len() == i,
                    forall|j: int| 0 <= j < i ==> #[trigger] arg_model(r@[j]) == ArgModel::Type(em[j]),
                decreases v@.len() - i,
            {
                r.push(GenericArg::Type(v[i].duplicate()));
                i += 1;
            }
            proof {
                lemma_args_model(r@);
                assert(args_model(r@) =~= em.map_values(|t: TyModel| ArgModel::Type(t)));
            }
            r
        },
        None => path_type_args(None, declared),
    }
}

/// The type the path `path`, written in value position, denotes in `ctx`;
/// see `expr_path_model`.
pub fn expr_path_ty(path: &TypePath, ctx: &ValueContext, diags: &mut Vec<TypeDiagnostic>) -> (r: PathTy)
    requires
        value_context_fits(*ctx),
    ensures
        r.model() == expr_path_model(*path, *ctx).0,
        diags_model(final(diags)@) == diags_model(old(diags)@) + expr_path_model(*path, *ctx).1,
{
    let n = path.segments.len();
    match path.res {
        PathRes::Local => {
            assert(diags_model(diags@) =~= diags_model(diags@) + Seq::<DiagModel>::empty());
            if n > 0 {
                match find_named(&ctx.locals, path.segments[n - 1].name.as_str()) {
                    Some(i) => return PathTy::Resolved(ctx.locals[i].1.duplicate()),
                    None => {},
                }
            }
            PathTy::Error(PathTyError::LocalUntyped)
        },
        PathRes::Def(d) => {
            assert(diags_model(diags@) =~= diags_model(diags@) + Seq::<DiagModel>::empty());
            match find_def(&ctx.items, d) {
                Some(i) => match &ctx.items[i].1 {
                    ValueItem::TypeItem => path_ty(path, &ctx.types),
                    ValueItem::LiteralConst(t) => PathTy::Resolved(t.duplicate()),
                    ValueItem::Const(Some(t)) => PathTy::Resolved(t.duplicate()),
                    ValueItem::Const(None) => PathTy::Error(PathTyError::ConstTypeNotRecorded),
                    ValueItem::Function(t) => PathTy::Resolved(t.duplicate()),
                    ValueItem::Other => PathTy::Error(PathTyError::NotAValue),
                },
                None => match find_def(&ctx.members, d) {
                    Some(i) => match &ctx.members[i].1 {
                        MemberDecl::Method(t) => PathTy::Resolved(t.duplicate()),
                        MemberDecl::AssocConst(t) => PathTy::Resolved(t.duplicate()),
                        MemberDecl::Variant { enum_def, params, payload } => {
                            assert(members_fit(ctx.members@));
                            let ghost entry = ctx.members@[i as int];
                            assert(match entry.1 {
                                MemberDecl::Variant { params, .. } => params@.len() <= u32::MAX,
                                _ => true,
                            });
                            let args = enum_type_args(first_segment_args(&path.segments), params.as_slice());
                            let enum_ty = Ty { kind: TyKind::Adt(AdtDef { did: *enum_def }, args) };
                            let p = match payload {
                                Some(t) => Some(t.duplicate()),
                                None => None,
                            };
                            PathTy::Resolved(variant_value_ty(enum_ty, p))
                        },
                    },
                    None => PathTy::Error(PathTyError::ValueNotFound),
                },
            }
        },
        _ => {
            let names = segment_name_list(&path.segments);
            assert(names@.map_values(|s: String| s@) == strings_model(names@));
            match collection_constructor_signature(names.as_slice(), ctx.map_def, ctx.map_entry_def, diags) {
                Some(t) => PathTy::Resolved(t),
                None => PathTy::Error(PathTyError::UnresolvedValue),
            }
        },
    }
}

} // verus!
