//! Type bindings of the AST interpreter: scoped, global and imported type
//! names, and how a type path is resolved against them.

use vstd::prelude::*;
use crate::ty::str_equals;
use crate::ast::{
    AstFnTy, AstTy, AstTyModel, AstTypeExpr, DecimalType, TypeExprModel, TypeInt, TypePrimitive, ast_tys_model,
};

verus! {

// ---------------------------------------------------------------------
// Tables of type names.
// ---------------------------------------------------------------------

/// A table from type names to types; a later binding of a name replaces
/// an earlier one.
#[derive(Debug)]
pub struct TypeTable {
    entries: Vec<(String, AstTy)>,
}

pub open spec fn table_map(s: Seq<(String, AstTy)>) -> Map<Seq<char>, AstTyModel>
    decreases s.len(),
{
    if s.len() == 0 {
        Map::empty()
    } else {
        table_map(s.drop_last()).insert(s.last().0@, s.last().1.model())
    }
}

proof fn lemma_table_map(s: Seq<(String, AstTy)>, k: Seq<char>, i: int)
    requires
        -1 <= i < s.len(),
        forall|j: int| i < j < s.len() ==> (#[trigger] s[j]).0@ != k,
    ensures
        i >= 0 && s[i].0@ == k ==> table_map(s).contains_key(k) && table_map(s)[k] == s[i].1.model(),
        i == -1 ==> !table_map(s).contains_key(k),
    decreases s.len(),
{
    if s.len() > 0 {
        if i == s.len() - 1 {
            if i >= 0 && s[i].0@ != k {
            }
        } else {
            assert forall|j: int| i < j < s.drop_last().len() implies (#[trigger] s.drop_last()[j]).0@ != k by {
                assert(s.drop_last()[j] == s[j]);
            }
            lemma_table_map(s.drop_last(), k, i);
            assert(s.last() == s[s.len() - 1]);
            if i >= 0 {
                assert(s.drop_last()[i] == s[i]);
            }
        }
    }
}

impl TypeTable {
    /// The table as a map from names to types.
    pub closed spec fn model(&self) -> Map<Seq<char>, AstTyModel> {
        table_map(self.entries@)
    }

    pub fn new() -> (t: TypeTable)
        ensures
            t.model() == Map::<Seq<char>, AstTyModel>::empty(),
    {
        TypeTable { entries: Vec::new() }
    }

    /// Binds `name` to `ty`, replacing any binding it had.
    pub fn insert(&mut self, name: String, ty: AstTy)
        ensures
            final(self).model() == old(self).model().insert(name@, ty.model()),
    {
        let ghost old_entries = self.entries@;
        self.entries.push((name, ty));
        assert(self.entries@.drop_last() == old_entries);
    }

    /// The type bound to `name`, if any.
    pub fn get(&self, name: &str) -> (r: Option<&AstTy>)
        ensures
            r is Some <==> self.model().contains_key(name@),
            r matches Some(t) ==> t.model() == self.model()[name@],
    {
        let mut i: usize = self.entries.len();
        while i > 0
            invariant
                i <= self.entries@.len(),
                forall|j: int| i <= j < self.entries@.len() ==> (#[trigger] self.entries@[j]).0@ != name@,
            decreases i,
        {
            i -= 1;
            if str_equals(self.entries[i].0.as_str(), name) {
                proof { lemma_table_map(self.entries@, name@, i as int); }
                return Some(&self.entries[i].1);
            }
        }
        proof { lemma_table_map(self.entries@, name@, -1); }
        None
    }
}

/// A set of names.
#[derive(Debug)]
pub struct NameSet {
    names: Vec<String>,
}

impl NameSet {
    pub closed spec fn model(&self) -> Set<Seq<char>> {
        self.names@.map_values(|s: String| s@).to_set()
    }

    pub fn new() -> (s: NameSet)
        ensures
            s.model() == Set::<Seq<char>>::empty(),
    {
        let s = NameSet { names: Vec::new() };
        assert(s.names@.map_values(|x: String| x@).to_set() =~= Set::<Seq<char>>::empty());
        s
    }

    pub fn insert(&mut self, name: String)
        ensures
            final(self).model() == old(self).model().insert(name@),
    {
        let ghost old_names = self.names@;
        let ghost v = name@;
        self.names.push(name);
        proof {
            let olds = old_names.map_values(|x: String| x@);
            let news = self.names@.map_values(|x: String| x@);
            assert(news =~= olds.push(v));
            assert forall|x: Seq<char>| news.to_set().contains(x) <==> olds.to_set().insert(v).contains(x) by {
                if news.to_set().contains(x) && x != v {
                    let j = choose|j: int| 0 <= j < news.len() && news[j] == x;
                    assert(olds[j] == x);
                }
                if olds.to_set().contains(x) {
                    let j = choose|j: int| 0 <= j < olds.len() && olds[j] == x;
                    assert(news[j] == x);
                }
                if x == v {
                    assert(news[news.len() - 1] == v);
                }
            }
            assert(news.to_set() =~= olds.to_set().insert(v));
        }
    }

    pub fn contains(&self, name: &str) -> (r: bool)
        ensures
            r == self.model().contains(name@),
    {
        let ghost views = self.names@.map_values(|x: String| x@);
        let mut i: usize = 0;
        while i < self.names.len()
            invariant
                i <= self.names@.len(),
                views == self.names@.map_values(|x: String| x@),
                forall|j: int| 0 <= j < i ==> views[j] != name@,
            decreases self.names@.len() - i,
        {
            if str_equals(self.names[i].as_str(), name) {
                assert(views[i as int] == name@);
                return true;
            }
            i += 1;
        }
        proof {
            if views.to_set().contains(name@) {
                let j = choose|j: int| 0 <= j < views.len() && views[j] == name@;
            }
        }
        false
    }
}

// ---------------------------------------------------------------------
// Paths.
// ---------------------------------------------------------------------

/// Where a path starts: at the current scope, or at the crate root.
#[derive(Debug, Clone, Copy, PartialEq, Eq, Structural)]
pub enum PathPrefix {
    Plain,
    Crate,
}

/// A type path: a prefix and its segments' names.
#[derive(Debug)]
pub struct AstPath {
    pub prefix: PathPrefix,
    pub segments: Vec<String>,
}

/// Segments joined by `::`.
pub open spec fn join_segments(segs: Seq<Seq<char>>) -> Seq<char>
    decreases segs.len(),
{
    if segs.len() == 0 {
        Seq::empty()
    } else if segs.len() == 1 {
        segs[0]
    } else {
        join_segments(segs.drop_last()) + "::"@ + segs.last()
    }
}

pub open spec fn segment_names(p: AstPath) -> Seq<Seq<char>> {
    p.segments@.map_values(|s: String| s@)
}

/// How a path is written: `a::b::c`, or `crate::a::b` from the root.
pub open spec fn path_text(p: AstPath) -> Seq<char> {
    match p.prefix {
        PathPrefix::Plain => join_segments(segment_names(p)),
        PathPrefix::Crate => if p.segments@.len() == 0 {
            "crate"@
        } else {
            "crate::"@ + join_segments(segment_names(p))
        },
    }
}

impl AstPath {
    /// The path as it is written; see `path_text`.
    pub fn to_text(&self) -> (r: String)
        ensures
            r@ == path_text(*self),
    {
        let ghost names = segment_names(*self);
        let mut out = String::new();
        let mut i: usize = 0;
        while i < self.segments.len()
            invariant
                i <= self.segments@.len(),
                names == segment_names(*self),
                out@ == join_segments(names.take(i as int)),
            decreases self.segments@.len() - i,
        {
            proof {
                assert(names.take(i + 1).drop_last() =~= names.take(i as int));
                assert(names.take(i + 1).last() == self.segments@[i as int]@);
                if i == 0 {
                    assert(names.take(1)[0] == self.segments@[0]@);
                }
            }
            if i > 0 {
                out.append("::");
                proof { reveal_strlit("::"); }
            }
            out.append(self.segments[i].as_str());
            i += 1;
        }
        assert(names.take(self.segments@.len() as int) =~= names);
        match self.prefix {
            PathPrefix::Plain => out,
            PathPrefix::Crate => {
                if self.segments.len() == 0 {
                    String::from_str("crate")
                } else {
                    let mut full = String::from_str("crate::");
                    full.append(out.as_str());
                    full
                }
            },
        }
    }
}

// ---------------------------------------------------------------------
// Resolving a type path.
// ---------------------------------------------------------------------

/// What a type path resolves to.
#[derive(Debug)]
pub enum TypeBindingMatch {
    /// Bound in the scope at `index` (0 is the outermost) under `key`.
    Scoped { index: usize, key: String, ty: AstTy },
    /// Bound among the global types under `key`.
    Global { key: String, ty: AstTy },
    /// Not bound, but imported under `name`.
    MissingImported { name: String },
    Missing,
}

pub enum BindingModel {
    Scoped(int, Seq<char>, AstTyModel),
    Global(Seq<char>, AstTyModel),
    MissingImported(Seq<char>),
    Missing,
}

impl TypeBindingMatch {
    pub open spec fn model(&self) -> BindingModel {
        match self {
            TypeBindingMatch::Scoped { index, key, ty } => BindingModel::Scoped(*index as int, key@, ty.model()),
            TypeBindingMatch::Global { key, ty } => BindingModel::Global(key@, ty.model()),
            TypeBindingMatch::MissingImported { name } => BindingModel::MissingImported(name@),
            TypeBindingMatch::Missing => BindingModel::Missing,
        }
    }
}

/// The names a path is looked up under, in order: as written, then by its
/// last segment alone when that differs.
pub open spec fn lookup_keys(p: AstPath) -> Seq<Seq<char>> {
    if p.segments@.last()@ == path_text(p) {
        seq![path_text(p)]
    } else {
        seq![path_text(p), p.segments@.last()@]
    }
}

/// The first of the lookup keys that `m` binds.
pub open spec fn first_key(m: Map<Seq<char>, AstTyModel>, keys: Seq<Seq<char>>) -> Option<Seq<char>> {
    if keys.len() > 0 && m.contains_key(keys[0]) {
        Some(keys[0])
    } else if keys.len() > 1 && m.contains_key(keys[1]) {
        Some(keys[1])
    } else {
        None
    }
}

/// The innermost of the first `n` scopes that binds one of the keys, with
/// the first key it binds.
pub open spec fn innermost_binding(scopes: Seq<Map<Seq<char>, AstTyModel>>, keys: Seq<Seq<char>>, n: int) -> Option<(int, Seq<char>)>
    decreases n,
{
    if n <= 0 {
        None
    } else {
        match first_key(scopes[n - 1], keys) {
            Some(k) => Some((n - 1, k)),
            None => innermost_binding(scopes, keys, n - 1),
        }
    }
}

/// The resolution of the type path `p`: the innermost scope binding one
/// of its keys (the key as written first), else the global types, else
/// an imported name, else nothing; a path without segments resolves to
/// nothing.
pub open spec fn resolve_binding(
    scopes: Seq<Map<Seq<char>, AstTyModel>>,
    globals: Map<Seq<char>, AstTyModel>,
    imported: Set<Seq<char>>,
    p: AstPath,
) -> BindingModel {
    if p.segments@.len() == 0 {
        BindingModel::Missing
    } else {
        let keys = lookup_keys(p);
        match innermost_binding(scopes, keys, scopes.len() as int) {
            Some((i, k)) => BindingModel::Scoped(i, k, scopes[i][k]),
            None => match first_key(globals, keys) {
                Some(k) => BindingModel::Global(k, globals[k]),
                None => if imported.contains(keys[0]) {
                    BindingModel::MissingImported(keys[0])
                } else if keys.len() > 1 && imported.contains(keys[1]) {
                    BindingModel::MissingImported(keys[1])
                } else {
                    BindingModel::Missing
                },
            },
        }
    }
}

proof fn lemma_innermost_binding(scopes: Seq<Map<Seq<char>, AstTyModel>>, keys: Seq<Seq<char>>, n: int)
    ensures
        innermost_binding(scopes, keys, n) matches Some((i, k)) ==> {
            &&& 0 <= i < n
            &&& first_key(scopes[i], keys) == Some(k)
            &&& forall|j: int| i < j < n ==> #[trigger] first_key(scopes[j], keys) is None
        },
        innermost_binding(scopes, keys, n) is None ==> forall|j: int| 0 <= j < n ==> #[trigger] first_key(scopes[j], keys) is None,
    decreases n,
{
    if n > 0 {
        lemma_innermost_binding(scopes, keys, n - 1);
    }
}

/// The innermost binding wins: a type path resolves into the innermost
/// scope that binds one of its keys (the key as written before its last
/// segment alone), no scope inside that one binds either key, and only
/// when no scope binds one do the global types count.
pub proof fn lemma_most_local_binding_wins(
    scopes: Seq<Map<Seq<char>, AstTyModel>>,
    globals: Map<Seq<char>, AstTyModel>,
    imported: Set<Seq<char>>,
    p: AstPath,
)
    requires
        p.segments@.len() > 0,
    ensures
        resolve_binding(scopes, globals, imported, p) matches BindingModel::Scoped(i, k, t) ==> {
            &&& 0 <= i < scopes.len()
            &&& first_key(scopes[i], lookup_keys(p)) == Some(k)
            &&& scopes[i][k] == t
            &&& forall|j: int| i < j < scopes.len() ==> #[trigger] first_key(scopes[j], lookup_keys(p)) is None
        },
        resolve_binding(scopes, globals, imported, p) matches BindingModel::Global(k, t) ==> {
            &&& forall|j: int| 0 <= j < scopes.len() ==> #[trigger] first_key(scopes[j], lookup_keys(p)) is None
            &&& first_key(globals, lookup_keys(p)) == Some(k)
            &&& globals[k] == t
        },
{
    lemma_innermost_binding(scopes, lookup_keys(p), scopes.len() as int);
}

pub open spec fn scopes_model(scopes: Seq<TypeTable>) -> Seq<Map<Seq<char>, AstTyModel>> {
    scopes.map_values(|t: TypeTable| t.model())
}

/// Looks `keys` up in `table`, in order.
fn first_binding<'a>(table: &'a TypeTable, keys: &Vec<String>) -> (r: Option<(usize, &'a AstTy)>)
    requires
        1 <= keys@.len() <= 2,
    ensures
        match first_key(table.model(), keys@.map_values(|s: String| s@)) {
            Some(k) => r matches Some((j, t)) && j < keys@.len() && keys@[j as int]@ == k && t.model() == table.model()[k],
            None => r is None,
        },
{
    let ghost kv = keys@.map_values(|s: String| s@);
    let mut j: usize = 0;
    while j < keys.len()
        invariant
            j <= keys@.len(),
            1 <= keys@.len() <= 2,
            kv == keys@.map_values(|s: String| s@),
            forall|m: int| 0 <= m < j ==> !table.model().contains_key(#[trigger] kv[m]),
        decreases keys@.len() - j,
    {
        match table.get(keys[j].as_str()) {
            Some(t) => {
                assert(kv[j as int] == keys@[j as int]@);
                return Some((j, t));
            },
            None => {},
        }
        j += 1;
    }
    None
}

/// Resolves the type path `path` against the scoped type environment
/// (innermost scope last), the global types and the imported names; see
/// `resolve_binding`.
pub fn resolve_type_binding_match(
    type_env: &[TypeTable],
    global_types: &TypeTable,
    imported_types: &NameSet,
    path: &AstPath,
) -> (r: TypeBindingMatch)
    ensures
        r.model() == resolve_binding(scopes_model(type_env@), global_types.model(), imported_types.model(), *path),
{
    if path.segments.len() == 0 {
        return TypeBindingMatch::Missing;
    }
    let qualified = path.to_text();
    let base = path.segments[path.segments.len() - 1].clone();
    let mut lookup_keys: Vec<String> = Vec::new();
    lookup_keys.push(qualified.clone());
    if !str_equals(base.as_str(), qualified.as_str()) {
        lookup_keys.push(base);
    }
    let ghost keys = lookup_keys@.map_values(|s: String| s@);
    assert(keys =~= crate::runtime_types::lookup_keys(*path));
    let ghost scopes = scopes_model(type_env@);
    let mut idx: usize = type_env.len();
    while idx > 0
        invariant
            idx <= type_env@.len(),
            scopes == scopes_model(type_env@),
            1 <= lookup_keys@.len() <= 2,
            keys == lookup_keys@.map_values(|s: String| s@),
            keys == crate::runtime_types::lookup_keys(*path),
            path.segments@.len() > 0,
            innermost_binding(scopes, keys, type_env@.len() as int) == innermost_binding(scopes, keys, idx as int),
        decreases idx,
    {
        idx -= 1;
        assert(scopes[idx as int] == type_env@[idx as int].model());
        match first_binding(&type_env[idx], &lookup_keys) {
            Some((j, ty)) => {
                return TypeBindingMatch::Scoped { index: idx, key: lookup_keys[j].clone(), ty: ty.duplicate() };
            },
            None => {},
        }
    }
    match first_binding(global_types, &lookup_keys) {
        Some((j, ty)) => {
            return TypeBindingMatch::Global { key: lookup_keys[j].clone(), ty: ty.duplicate() };
        },
        None => {},
    }
    let mut j: usize = 0;
    while j < lookup_keys.len()
        invariant
            j <= lookup_keys@.len(),
            1 <= lookup_keys@.len() <= 2,
            keys == lookup_keys@.map_values(|s: String| s@),
            keys == crate::runtime_types::lookup_keys(*path),
            path.segments@.len() > 0,
            innermost_binding(scopes, keys, type_env@.len() as int) is None,
            first_key(global_types.model(), keys) is None,
            scopes == scopes_model(type_env@),
            forall|m: int| 0 <= m < j ==> !imported_types.model().contains(#[trigger] keys[m]),
        decreases lookup_keys@.len() - j,
    {
        if imported_types.contains(lookup_keys[j].as_str()) {
            assert(keys[j as int] == lookup_keys@[j as int]@);
            return TypeBindingMatch::MissingImported { name: lookup_keys[j].clone() };
        }
        j += 1;
    }
    TypeBindingMatch::Missing
}

/// The interpreter's built-in type names.
pub open spec fn builtin_bindings() -> Map<Seq<char>, AstTyModel> {
    Map::<Seq<char>, AstTyModel>::empty()
        .insert("i64"@, AstTyModel::Primitive(TypePrimitive::Int(TypeInt::I64)))
        .insert("u64"@, AstTyModel::Primitive(TypePrimitive::Int(TypeInt::U64)))
        .insert("i32"@, AstTyModel::Primitive(TypePrimitive::Int(TypeInt::I32)))
        .insert("u32"@, AstTyModel::Primitive(TypePrimitive::Int(TypeInt::U32)))
        .insert("i16"@, AstTyModel::Primitive(TypePrimitive::Int(TypeInt::I16)))
        .insert("u16"@, AstTyModel::Primitive(TypePrimitive::Int(TypeInt::U16)))
        .insert("i8"@, AstTyModel::Primitive(TypePrimitive::Int(TypeInt::I8)))
        .insert("u8"@, AstTyModel::Primitive(TypePrimitive::Int(TypeInt::U8)))
        .insert("isize"@, AstTyModel::Primitive(TypePrimitive::Int(TypeInt::I64)))
        .insert("usize"@, AstTyModel::Primitive(TypePrimitive::Int(TypeInt::U64)))
        .insert("bool"@, AstTyModel::Primitive(TypePrimitive::Bool))
        .insert("char"@, AstTyModel::Primitive(TypePrimitive::Char))
        .insert("str"@, AstTyModel::Primitive(TypePrimitive::String))
        .insert("String"@, AstTyModel::Primitive(TypePrimitive::String))
}

/// The table of the interpreter's built-in type names: the fixed-width
/// integers (`isize`/`usize` as 64-bit), `bool`, `char`, and `str` and
/// `String` as the string type.
pub fn builtin_type_bindings() -> (r: TypeTable)
    ensures
        r.model() == builtin_bindings(),
{
    let mut b = TypeTable::new();
    b.insert(String::from_str("i64"), AstTy::Primitive(TypePrimitive::Int(TypeInt::I64)));
    b.insert(String::from_str("u64"), AstTy::Primitive(TypePrimitive::Int(TypeInt::U64)));
    b.insert(String::from_str("i32"), AstTy::Primitive(TypePrimitive::Int(TypeInt::I32)));
    b.insert(String::from_str("u32"), AstTy::Primitive(TypePrimitive::Int(TypeInt::U32)));
    b.insert(String::from_str("i16"), AstTy::Primitive(TypePrimitive::Int(TypeInt::I16)));
    b.insert(String::from_str("u16"), AstTy::Primitive(TypePrimitive::Int(TypeInt::U16)));
    b.insert(String::from_str("i8"), AstTy::Primitive(TypePrimitive::Int(TypeInt::I8)));
    b.insert(String::from_str("u8"), AstTy::Primitive(TypePrimitive::Int(TypeInt::U8)));
    b.insert(String::from_str("isize"), AstTy::Primitive(TypePrimitive::Int(TypeInt::I64)));
    b.insert(String::from_str("usize"), AstTy::Primitive(TypePrimitive::Int(TypeInt::U64)));
    b.insert(String::from_str("bool"), AstTy::Primitive(TypePrimitive::Bool));
    b.insert(String::from_str("char"), AstTy::Primitive(TypePrimitive::Char));
    b.insert(String::from_str("str"), AstTy::Primitive(TypePrimitive::String));
    b.insert(String::from_str("String"), AstTy::Primitive(TypePrimitive::String));
    b
}

// ---------------------------------------------------------------------
// Types of interpreter values.
// ---------------------------------------------------------------------

/// An interpreter value, as far as its type depends on it: scalars by
/// their kind, a struct value by its struct's name, a function value by
/// its signature, tuples by their items.
#[derive(Debug)]
pub enum AstValue {
    Int,
    BigInt,
    Decimal,
    BigDecimal,
    Bool,
    Char,
    String,
    List,
    Struct(String),
    TokenStream,
    Function(AstFnTy),
    Type,
    Tuple(Vec<AstValue>),
    Unit,
    /// Any other value.
    Other,
}

/// The type a value has on its own, when it determines one: `i64`, big
/// integers, `f64`, big decimals, `bool`, `char`, strings and lists as
/// their primitives; a struct value its struct; a token stream its type; a
/// function value its signature's function type.
pub open spec fn value_ty(v: AstValue) -> Option<AstTyModel> {
    match v {
        AstValue::Int => Some(AstTyModel::Primitive(TypePrimitive::Int(TypeInt::I64))),
        AstValue::BigInt => Some(AstTyModel::Primitive(TypePrimitive::Int(TypeInt::BigInt))),
        AstValue::Decimal => Some(AstTyModel::Primitive(TypePrimitive::Decimal(DecimalType::F64))),
        AstValue::BigDecimal => Some(AstTyModel::Primitive(TypePrimitive::Decimal(DecimalType::BigDecimal))),
        AstValue::Bool => Some(AstTyModel::Primitive(TypePrimitive::Bool)),
        AstValue::Char => Some(AstTyModel::Primitive(TypePrimitive::Char)),
        AstValue::String => Some(AstTyModel::Primitive(TypePrimitive::String)),
        AstValue::List => Some(AstTyModel::Primitive(TypePrimitive::List)),
        AstValue::Struct(n) => Some(AstTyModel::Struct(n@)),
        AstValue::TokenStream => Some(AstTyModel::TokenStream),
        AstValue::Function(f) => Some((AstTy::Function(f)).model()),
        _ => None,
    }
}

/// The type of a value; see `value_ty`.
pub fn infer_value_ty(value: &AstValue) -> (r: Option<AstTy>)
    ensures
        match value_ty(*value) {
            Some(t) => r matches Some(ty) && ty.model() == t,
            None => r is None,
        },
{
    match value {
        AstValue::Int => Some(AstTy::Primitive(TypePrimitive::Int(TypeInt::I64))),
        AstValue::BigInt => Some(AstTy::Primitive(TypePrimitive::Int(TypeInt::BigInt))),
        AstValue::Decimal => Some(AstTy::Primitive(TypePrimitive::Decimal(DecimalType::F64))),
        AstValue::BigDecimal => Some(AstTy::Primitive(TypePrimitive::Decimal(DecimalType::BigDecimal))),
        AstValue::Bool => Some(AstTy::Primitive(TypePrimitive::Bool)),
        AstValue::Char => Some(AstTy::Primitive(TypePrimitive::Char)),
        AstValue::String => Some(AstTy::Primitive(TypePrimitive::String)),
        AstValue::List => Some(AstTy::Primitive(TypePrimitive::List)),
        AstValue::Struct(name) => Some(AstTy::Struct(name.clone())),
        AstValue::TokenStream => Some(AstTy::TokenStream),
        AstValue::Function(f) => Some(AstTy::Function(f.duplicate())),
        _ => None,
    }
}

/// The type of a value wherever one is needed: types have the type of
/// types, tuples the tuple of their items' types, the unit value the unit
/// type, and any other value its own type (`value_ty`) or, lacking one,
/// the dynamic `any` type.
pub open spec fn type_of_value(v: AstValue) -> AstTyModel
    decreases v,
{
    match v {
        AstValue::Type => AstTyModel::Type,
        AstValue::Tuple(items) => AstTyModel::Tuple(types_of_values(items@)),
        AstValue::Unit => AstTyModel::Unit,
        _ => match value_ty(v) {
            Some(t) => t,
            None => AstTyModel::Any,
        },
    }
}

pub open spec fn types_of_values(vs: Seq<AstValue>) -> Seq<AstTyModel>
    decreases vs,
{
    if vs.len() == 0 {
        Seq::empty()
    } else {
        types_of_values(vs.drop_last()).push(type_of_value(vs[vs.len() - 1]))
    }
}

/// The type of a value; see `type_of_value`.
pub fn type_from_value(value: &AstValue) -> (r: AstTy)
    ensures
        r.model() == type_of_value(*value),
    decreases value,
{
    match value {
        AstValue::Type => AstTy::Type,
        AstValue::Tuple(items) => {
            let mut types: Vec<AstTy> = Vec::new();
            let mut i: usize = 0;
            while i < items.len()
                invariant
                    i <= items@.len(),
                    value == AstValue::Tuple(*items),
                    ast_tys_model(types@) == types_of_values(items@.take(i as int)),
                decreases items@.len() - i,
            {
                assert(decreases_to!(*items => items@[i as int]));
                assert(decreases_to!(*value => value->Tuple_0));
                assert(value->Tuple_0 == *items);
                assert(decreases_to!(value => items@[i as int]));
                let t = type_from_value(&items[i]);
                let ghost old_types = types@;
                types.push(t);
                proof {
                    assert(types@.drop_last() == old_types);
                    assert(items@.take(i + 1).drop_last() =~= items@.take(i as int));
                    assert(items@.take(i + 1)[i as int] == items@[i as int]);
                }
                i += 1;
            }
            assert(items@.take(items@.len() as int) =~= items@);
            AstTy::Tuple(types)
        },
        AstValue::Unit => AstTy::Unit,
        other => match infer_value_ty(other) {
            Some(t) => t,
            None => AstTy::Any,
        },
    }
}

// ---------------------------------------------------------------------
// Materialising types written as expressions.
// ---------------------------------------------------------------------

/// What resolving a type written as an expression asks of its user: the
/// type a name denotes, and the type a `const` block evaluates to, when
/// they are known. An implementation states what it answers through
/// `name_answer` and `block_answer`; one that does not is held to knowing
/// nothing.
pub trait TypeMaterializeHooks {
    /// What `resolve_name` answers for `name`, in this state of the hooks.
    open spec fn name_answer(&self, name: AstPath) -> Option<AstTyModel> {
        None
    }

    /// What `eval_const_expr` answers for the block `block`, in this state
    /// of the hooks.
    open spec fn block_answer(&self, block: u32) -> Option<AstTyModel> {
        None
    }

    /// The type the name `name` denotes, when known.
    fn resolve_name(&mut self, name: &AstPath) -> (r: Option<AstTy>)
        ensures
            (match r {
                Some(t) => Some(t.model()),
                None => None,
            }) == old(self).name_answer(*name);

    /// The type the `const` block `block` evaluates to, when known.
    fn eval_const_expr(&mut self, block: u32) -> (r: Option<AstTy>)
        ensures
            (match r {
                Some(t) => Some(t.model()),
                None => None,
            }) == old(self).block_answer(block);
}

/// Whether a type is written as a name or a `const` block, which the hooks
/// resolve.
pub open spec fn resolved_by_hooks(ty: AstTyModel) -> bool {
    match ty {
        AstTyModel::Expr(TypeExprModel::Name(_, _)) => true,
        AstTyModel::Expr(TypeExprModel::ConstBlock(_)) => true,
        _ => false,
    }
}

/// A type with what the hooks answered for it: a type written as a name
/// or a `const` block becomes the answer, when there is one; every other
/// type, and one the hooks know nothing of, stays as it is.
pub open spec fn materialized_model(ty: AstTyModel, answer: Option<AstTyModel>) -> AstTyModel {
    match answer {
        Some(t) => if resolved_by_hooks(ty) { t } else { ty },
        None => ty,
    }
}

/// A type with what the hooks answered for it; see `materialized_model`.
pub fn materialized(ty: AstTy, answer: Option<AstTy>) -> (r: AstTy)
    ensures
        r.model() == materialized_model(ty.model(), match answer {
            Some(t) => Some(t.model()),
            None => None,
        }),
{
    let by_hooks = match &ty {
        AstTy::Expr(AstTypeExpr::Name(_)) | AstTy::Expr(AstTypeExpr::ConstBlock(_)) => true,
        _ => false,
    };
    match answer {
        Some(t) => if by_hooks {
            t
        } else {
            ty
        },
        None => ty,
    }
}

/// Resolves a type written as a name or a `const` block through the
/// hooks (the name to `resolve_name`, the block to `eval_const_expr`),
/// keeping it as it is when they know nothing of it; every other type
/// stays as it is, and the hooks are not asked. The result is what
/// `materialized_model` makes of the hook's answer (`name_answer` or
/// `block_answer`, as the hooks stood before the call).
pub fn materialize_type_with_hooks<H: TypeMaterializeHooks>(ty: AstTy, hooks: &mut H) -> (r: AstTy)
    ensures
        !resolved_by_hooks(ty.model()) ==> r.model() == ty.model(),
        ty matches AstTy::Expr(AstTypeExpr::Name(n)) ==> r.model() == materialized_model(ty.model(), old(hooks).name_answer(n)),
        ty matches AstTy::Expr(AstTypeExpr::ConstBlock(b)) ==> r.model() == materialized_model(ty.model(), old(hooks).block_answer(b)),
{
    let answer = match &ty {
        AstTy::Expr(AstTypeExpr::Name(name)) => hooks.resolve_name(name),
        AstTy::Expr(AstTypeExpr::ConstBlock(block)) => hooks.eval_const_expr(*block),
        _ => None,
    };
    materialized(ty, answer)
}

} // verus!
