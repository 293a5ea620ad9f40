//! Binding patterns against the type of the value they match: the type
//! every pattern node gets, the type every bound name gets, and what does
//! not fit. Field access on a struct value and the payload types of an
//! enum variant, which binding reads, are here too.
//!
//! What binding needs from looking a pattern's paths up is part of the
//! pattern: the variant a variant pattern names (with its declared
//! payload), the struct type a struct pattern's path names, and the
//! declared type of each field a struct pattern mentions.

use vstd::prelude::*;
use crate::call_types::{payload_types, peel_one_ref, variant_payload};
use crate::expr::Lit;
use crate::expr_rules::is_integer;
use crate::generic_types::{
    adt_check, diags_model, lemma_diags_push, require_same, require_same_adt, require_same_diags,
    subst_positional, substitute_params, ty_list_model, DiagModel, TypeDiagnostic,
};
use crate::literals::{literal_model, literal_ty};
use crate::ty::{arg_model, lemma_args_model, lemma_tys_model, args_model, tys_model, DefId, GenericArg, Ty, TyKind, TyModel};

verus! {

// ---------------------------------------------------------------------
// Fields and variant payloads.
// ---------------------------------------------------------------------

/// The type of a field of a value of type `receiver` (one outer reference
/// looked through), whose struct declares the field with the type
/// `declared` (`None` when it declares no such field), and what reading
/// it records: the declared type with the struct's parameters replaced by
/// the receiver's arguments; reading a field of a value that is not a
/// struct, or a field the struct does not declare, is an error.
pub open spec fn field_model(receiver: TyModel, declared: Option<TyModel>) -> (TyModel, Seq<DiagModel>) {
    match peel_one_ref(receiver) {
        TyModel::Adt(_, args) => match declared {
            Some(d) => (subst_positional(d, args), Seq::empty()),
            None => (TyModel::Error, seq![DiagModel::FieldNotFound]),
        },
        _ => (TyModel::Error, seq![DiagModel::FieldOfNonStruct]),
    }
}

fn record(diags: &mut Vec<TypeDiagnostic>, d: TypeDiagnostic)
    ensures
        diags_model(final(diags)@) == diags_model(old(diags)@) + seq![d.model()],
{
    proof { lemma_diags_push(diags@, d); }
    diags.push(d);
}

/// The type of a field of a value; see `field_model`.
pub fn field_ty(receiver: &Ty, declared: Option<&Ty>, diags: &mut Vec<TypeDiagnostic>) -> (t: Ty)
    ensures
        t.model() == field_model(receiver.model(), match declared {
            Some(d) => Some(d.model()),
            None => None,
        }).0,
        diags_model(final(diags)@) == diags_model(old(diags)@) + field_model(receiver.model(), match declared {
            Some(d) => Some(d.model()),
            None => None,
        }).1,
{
    let base = match &receiver.kind {
        TyKind::Ref(_, inner, _) => &**inner,
        _ => receiver,
    };
    assert(base.model() == peel_one_ref(receiver.model()));
    match &base.kind {
        TyKind::Adt(_, args) => match declared {
            Some(d) => {
                proof {
                    lemma_args_model(args@);
                    assert(args_model(args@) =~= args@.map_values(|a: GenericArg| arg_model(a)));
                }
                assert(diags_model(diags@) =~= diags_model(diags@) + Seq::<DiagModel>::empty());
                substitute_params(d.duplicate(), args.as_slice())
            },
            None => {
                record(diags, TypeDiagnostic::FieldNotFound);
                Ty::error()
            },
        },
        _ => {
            record(diags, TypeDiagnostic::FieldOfNonStruct);
            Ty::error()
        },
    }
}

/// What a variant pattern's path resolves to.
#[derive(Debug)]
pub enum VariantRes {
    /// The path resolves to nothing.
    Unresolved,
    /// The path resolves to a definition that is not a known variant.
    NotFound,
    /// A variant of the enum `owner`, with its declared payload type (in
    /// the enum's parameters), if it has a payload.
    Found { owner: DefId, payload: Option<Ty> },
}

/// The enum type a variant pattern matches and the types of its payload's
/// fields, for a scrutinee of type `scrutinee`, and what finding them
/// records. The scrutinee must be the variant's enum; its arguments then
/// replace the enum's parameters in the declared payload (see
/// `payload_types`). A variant without payload has no payload fields.
pub open spec fn variant_payloads_model(v: VariantRes, scrutinee: TyModel) -> (TyModel, Seq<TyModel>, Seq<DiagModel>) {
    match v {
        VariantRes::Unresolved => (TyModel::Error, Seq::empty(), seq![DiagModel::VariantUnresolved]),
        VariantRes::NotFound => (TyModel::Error, Seq::empty(), seq![DiagModel::VariantNotFound]),
        VariantRes::Found { owner, payload } => match scrutinee {
            TyModel::Adt(adt, args) => if adt.did == owner {
                match payload {
                    None => (scrutinee, Seq::empty(), Seq::empty()),
                    Some(p) => (scrutinee, payload_types(p.model(), args), Seq::empty()),
                }
            } else {
                (TyModel::Error, Seq::empty(), seq![DiagModel::VariantMismatch])
            },
            _ => (TyModel::Error, Seq::empty(), seq![DiagModel::VariantMismatch]),
        },
    }
}

/// The enum type and payload field types of a variant pattern; see
/// `variant_payloads_model`.
pub fn variant_payload_types(v: &VariantRes, scrutinee: &Ty, diags: &mut Vec<TypeDiagnostic>) -> (r: (Ty, Vec<Ty>))
    ensures
        r.0.model() == variant_payloads_model(*v, scrutinee.model()).0,
        ty_list_model(r.1@) == variant_payloads_model(*v, scrutinee.model()).1,
        diags_model(final(diags)@) == diags_model(old(diags)@) + variant_payloads_model(*v, scrutinee.model()).2,
{
    let empty: Vec<Ty> = Vec::new();
    assert(ty_list_model(empty@) =~= Seq::<TyModel>::empty());
    match v {
        VariantRes::Unresolved => {
            record(diags, TypeDiagnostic::VariantUnresolved);
            (Ty::error(), empty)
        },
        VariantRes::NotFound => {
            record(diags, TypeDiagnostic::VariantNotFound);
            (Ty::error(), empty)
        },
        VariantRes::Found { owner, payload } => {
            let args = match &scrutinee.kind {
                TyKind::Adt(adt, args) if adt.did.package == owner.package && adt.did.index == owner.index => args,
                _ => {
                    record(diags, TypeDiagnostic::VariantMismatch);
                    return (Ty::error(), empty);
                },
            };
            assert(diags_model(diags@) =~= diags_model(diags@) + Seq::<DiagModel>::empty());
            match payload {
                None => (scrutinee.duplicate(), empty),
                Some(p) => {
                    proof {
                        lemma_args_model(args@);
                        assert(args_model(args@) =~= args@.map_values(|a: GenericArg| arg_model(a)));
                    }
                    let fields = variant_payload(p.duplicate(), args.as_slice());
                    (scrutinee.duplicate(), fields)
                },
            }
        },
    }
}

/// Whether a type is an ADT among the structs `structs`.
pub open spec fn is_struct_of(t: TyModel, structs: Seq<DefId>) -> bool {
    match t {
        TyModel::Adt(adt, _) => structs.contains(adt.did),
        _ => false,
    }
}

/// The struct payload of an enum variant for a scrutinee of type
/// `scrutinee`, and what finding it records: the variant's first payload
/// field (see `variant_payloads_model`) when it is an ADT that is one of
/// the program's structs (`structs`), else none.
pub open spec fn struct_payload_model(v: VariantRes, scrutinee: TyModel, structs: Seq<DefId>) -> (Option<TyModel>, Seq<DiagModel>) {
    let vp = variant_payloads_model(v, scrutinee);
    (if vp.1.len() > 0 && is_struct_of(vp.1[0], structs) {
        Some(vp.1[0])
    } else {
        None
    }, vp.2)
}

/// The struct payload of an enum variant; see `struct_payload_model`.
#[verifier::loop_isolation(false)]
pub fn enum_struct_payload_type(v: &VariantRes, scrutinee: &Ty, structs: &[DefId], diags: &mut Vec<TypeDiagnostic>) -> (r: Option<Ty>)
    ensures
        match struct_payload_model(*v, scrutinee.model(), structs@).0 {
            Some(t) => r matches Some(x) && x.model() == t,
            None => r is None,
        },
        diags_model(final(diags)@) == diags_model(old(diags)@) + struct_payload_model(*v, scrutinee.model(), structs@).1,
{
    let (_, payloads) = variant_payload_types(v, scrutinee, diags);
    if payloads.len() == 0 {
        return None;
    }
    assert(ty_list_model(payloads@)[0] == payloads@[0].model());
    let did = match &payloads[0].kind {
        TyKind::Adt(adt, _) => adt.did,
        _ => return None,
    };
    assert(payloads@[0].model() matches TyModel::Adt(adt, _) && adt.did == did);
    let mut i: usize = 0;
    while i < structs.len()
        invariant
            i <= structs@.len(),
            payloads@.len() > 0,
            forall|j: int| 0 <= j < i ==> structs@[j] != did,
        decreases structs@.len() - i,
    {
        if structs[i].package == did.package && structs[i].index == did.index {
            assert(structs@[i as int] == did);
            return Some(payloads[0].duplicate());
        }
        i += 1;
    }
    None
}

// ---------------------------------------------------------------------
// Patterns.
// ---------------------------------------------------------------------

/// A pattern node, with the identity of its HIR node.
#[derive(Debug)]
pub struct Pat {
    pub id: u32,
    pub kind: PatKind,
}

#[derive(Debug)]
pub enum PatKind {
    /// A binding of the name.
    Binding(String),
    Wild,
    Lit(Lit),
    Tuple(Vec<Pat>),
    /// A struct pattern naming a struct: the struct type its path names
    /// (`None` for an empty path, which names the scrutinee's own type),
    /// and its fields.
    Struct(Option<Ty>, Vec<FieldPat>),
    /// A struct pattern naming an enum variant, whose payload is a struct.
    VariantStruct(VariantRes, Vec<FieldPat>),
    /// A tuple-struct pattern naming an enum variant.
    TupleStruct(VariantRes, Vec<Pat>),
    /// A pattern naming an enum variant without sub-patterns.
    Variant(VariantRes),
}

/// A field of a struct pattern: its sub-pattern, and the declared type of
/// the field in the struct the pattern matches (`None` when that struct
/// declares no such field).
#[derive(Debug)]
pub struct FieldPat {
    pub pat: Pat,
    pub declared: Option<Ty>,
}

/// What binding a pattern produces, in order: the type of each pattern
/// node, the type of each bound name, and the diagnostics.
pub struct BindModel {
    pub types: Seq<(u32, TyModel)>,
    pub locals: Seq<(Seq<char>, TyModel)>,
    pub diags: Seq<DiagModel>,
}

pub open spec fn bind_none() -> BindModel {
    BindModel { types: Seq::empty(), locals: Seq::empty(), diags: Seq::empty() }
}

pub open spec fn bind_diags(d: Seq<DiagModel>) -> BindModel {
    BindModel { types: Seq::empty(), locals: Seq::empty(), diags: d }
}

/// `a` followed by `b`.
pub open spec fn bind_then(a: BindModel, b: BindModel) -> BindModel {
    BindModel { types: a.types + b.types, locals: a.locals + b.locals, diags: a.diags + b.diags }
}

/// Whether a pattern matches the structure of a value (a tuple, struct or
/// variant), so that it looks through one reference on the value's type.
pub open spec fn is_structural(k: PatKind) -> bool {
    k is Tuple || k is Struct || k is VariantStruct || k is TupleStruct || k is Variant
}

pub open spec fn opt_model(t: Option<Ty>) -> Option<TyModel> {
    match t {
        Some(x) => Some(x.model()),
        None => None,
    }
}

/// What binding the pattern `p` against a value of type `ty` produces;
/// `cstr` is the declared `CStr` type, which C-string literal patterns
/// have. The pattern's own node has the type `ty`. A structural pattern
/// looks through one reference on `ty`. A binding binds its name to `ty`;
/// a literal must agree with `ty`, except an integer literal against an
/// integer type; a tuple pattern needs a tuple of as many elements and
/// binds them in order. A struct pattern requires the value to be the
/// struct its path names (see `adt_check`) and binds each field against
/// the field's type (see `field_model`). A variant pattern finds its
/// payload's fields (see `variant_payloads_model`): a struct pattern needs
/// exactly one, whose fields it binds; a tuple-struct pattern needs as many
/// as it has sub-patterns and binds them in order; a pattern without
/// sub-patterns needs none.
pub open spec fn bind_model(p: Pat, ty: TyModel, cstr: Option<TyModel>) -> BindModel
    decreases p, 1int,
{
    bind_then(BindModel { types: seq![(p.id, ty)], locals: Seq::empty(), diags: Seq::empty() }, bind_rest(p, ty, cstr))
}

/// What binding the pattern `p` produces after its own node's type; see
/// `bind_model`.
pub open spec fn bind_rest(p: Pat, ty: TyModel, cstr: Option<TyModel>) -> BindModel
    decreases p, 0int,
{
    let subject = if is_structural(p.kind) { peel_one_ref(ty) } else { ty };
    match p.kind {
        PatKind::Binding(name) => BindModel { types: Seq::empty(), locals: seq![(name@, ty)], diags: Seq::empty() },
        PatKind::Wild => bind_none(),
        PatKind::Lit(lit) => if lit is Integer && is_integer(ty) {
            bind_none()
        } else {
            bind_diags(require_same_diags(ty, literal_model(lit, cstr)))
        },
        PatKind::Tuple(pats) => match subject {
            TyModel::Tuple(fields) => if pats@.len() == fields.len() {
                bind_list(pats@, fields, cstr)
            } else {
                bind_diags(seq![DiagModel::TuplePatternArity])
            },
            _ => bind_diags(seq![DiagModel::NotTuplePattern]),
        },
        PatKind::Struct(path_ty, fields) => {
            let st = match path_ty {
                Some(t) => t.model(),
                None => subject,
            };
            bind_then(bind_diags(adt_check(subject, st, "struct pattern"@)), bind_fields(fields@, st, cstr))
        },
        PatKind::VariantStruct(v, fields) => {
            let vp = variant_payloads_model(v, subject);
            if vp.1.len() != 1 {
                bind_diags(vp.2 + seq![DiagModel::StructPayloadCount])
            } else {
                bind_then(bind_diags(vp.2), bind_fields(fields@, vp.1[0], cstr))
            }
        },
        PatKind::TupleStruct(v, pats) => {
            let vp = variant_payloads_model(v, subject);
            if pats@.len() != vp.1.len() {
                bind_diags(vp.2 + seq![DiagModel::TupleStructArity])
            } else {
                bind_then(bind_diags(vp.2), bind_list(pats@, vp.1, cstr))
            }
        },
        PatKind::Variant(v) => {
            let vp = variant_payloads_model(v, subject);
            bind_diags(vp.2 + if vp.1.len() > 0 {
                seq![DiagModel::PayloadVariantPattern]
            } else {
                Seq::<DiagModel>::empty()
            })
        },
    }
}

/// Binding the patterns `pats` against values of the types `tys`, in
/// order.
pub open spec fn bind_list(pats: Seq<Pat>, tys: Seq<TyModel>, cstr: Option<TyModel>) -> BindModel
    decreases pats, 2int,
{
    if pats.len() == 0 || tys.len() == 0 {
        bind_none()
    } else {
        bind_then(
            bind_list(pats.drop_last(), tys.drop_last(), cstr),
            bind_model(pats.last(), tys.last(), cstr),
        )
    }
}

/// Binding the fields `fields` of a struct pattern against a value of the
/// struct type `receiver`, in order.
pub open spec fn bind_fields(fields: Seq<FieldPat>, receiver: TyModel, cstr: Option<TyModel>) -> BindModel
    decreases fields, 2int,
{
    if fields.len() == 0 {
        bind_none()
    } else {
        let f = fields.last();
        let fm = field_model(receiver, opt_model(f.declared));
        bind_then(
            bind_then(bind_fields(fields.drop_last(), receiver, cstr), bind_diags(fm.1)),
            bind_model(f.pat, fm.0, cstr),
        )
    }
}

/// The types a pattern binding records: each pattern node's type (by the
/// node's identity) and each bound name's type, in order.
#[derive(Debug)]
pub struct PatternTypes {
    pub types: Vec<(u32, Ty)>,
    pub locals: Vec<(String, Ty)>,
}

pub open spec fn node_types_model(v: Seq<(u32, Ty)>) -> Seq<(u32, TyModel)> {
    v.map_values(|e: (u32, Ty)| (e.0, e.1.model()))
}

pub open spec fn locals_model(v: Seq<(String, Ty)>) -> Seq<(Seq<char>, TyModel)> {
    v.map_values(|e: (String, Ty)| (e.0@, e.1.model()))
}

impl PatternTypes {
    pub fn new() -> (r: PatternTypes)
        ensures
            r.types@.len() == 0,
            r.locals@.len() == 0,
    {
        PatternTypes { types: Vec::new(), locals: Vec::new() }
    }

    /// What has been recorded, as a binding model with the diagnostics `d`.
    pub open spec fn model_with(&self, d: Seq<DiagModel>) -> BindModel {
        BindModel { types: node_types_model(self.types@), locals: locals_model(self.locals@), diags: d }
    }
}

fn unbox_tys(v: &Vec<Box<Ty>>) -> (r: Vec<Ty>)
    ensures
        ty_list_model(r@) == tys_model(v@),
{
    proof { lemma_tys_model(v@); }
    let mut out: Vec<Ty> = Vec::new();
    let mut i: usize = 0;
    while i < v.len()
        invariant
            i <= v@.len(),
            out@.len() == i,
            tys_model(v@).len() == v@.len(),
            forall|j: int| 0 <= j < v@.len() ==> #[trigger] tys_model(v@)[j] == v@[j].model(),
            forall|j: int| 0 <= j < i ==> (#[trigger] out@[j]).model() == v@[j].model(),
        decreases v@.len() - i,
    {
        out.push(v[i].duplicate());
        i += 1;
    }
    assert(ty_list_model(out@) =~= tys_model(v@));
    out
}

proof fn lemma_bind_then_model(a: BindModel, b: BindModel, c: BindModel)
    ensures
        bind_then(bind_then(a, b), c) == bind_then(a, bind_then(b, c)),
{
    assert(bind_then(bind_then(a, b), c).types =~= bind_then(a, bind_then(b, c)).types);
    assert(bind_then(bind_then(a, b), c).locals =~= bind_then(a, bind_then(b, c)).locals);
    assert(bind_then(bind_then(a, b), c).diags =~= bind_then(a, bind_then(b, c)).diags);
}

proof fn lemma_bind_none_right(a: BindModel)
    ensures
        bind_then(a, bind_none()) == a,
{
    assert(bind_then(a, bind_none()).types =~= a.types);
    assert(bind_then(a, bind_none()).locals =~= a.locals);
    assert(bind_then(a, bind_none()).diags =~= a.diags);
}

proof fn lemma_diags_only(before: BindModel, after: BindModel, d: Seq<DiagModel>)
    requires
        after.types == before.types,
        after.locals == before.locals,
        after.diags == before.diags + d,
    ensures
        after == bind_then(before, bind_diags(d)),
{
    assert(before.types + Seq::<(u32, TyModel)>::empty() =~= before.types);
    assert(before.locals + Seq::<(Seq<char>, TyModel)>::empty() =~= before.locals);
}

/// Binds the pattern `p` against a value of type `ty`, recording each
/// node's type, each bound name's type and the diagnostics; see
/// `bind_model`.
pub fn bind_pattern(
    p: &Pat,
    ty: Ty,
    cstr: Option<&Ty>,
    out: &mut PatternTypes,
    diags: &mut Vec<TypeDiagnostic>,
)
    ensures
        final(out).model_with(diags_model(final(diags)@)) == bind_then(
            old(out).model_with(diags_model(old(diags)@)),
            bind_model(*p, ty.model(), cstr_model(cstr)),
        ),
    decreases p, 1int,
{
    let ghost cm = cstr_model(cstr);
    let ghost start = out.model_with(diags_model(diags@));
    let ghost tm = ty.model();
    let ghost own = BindModel { types: seq![(p.id, tm)], locals: Seq::empty(), diags: Seq::empty() };
    out.types.push((p.id, ty.duplicate()));
    proof {
        assert(node_types_model(out.types@) =~= start.types + own.types);
        assert(locals_model(out.locals@) =~= start.locals + own.locals);
        assert(diags_model(diags@) =~= start.diags + own.diags);
        assert(out.model_with(diags_model(diags@)) == bind_then(start, own));
    }
    bind_rest_exec(p, ty, cstr, out, diags);
    proof {
        lemma_bind_then_model(start, own, bind_rest(*p, tm, cm));
    }
}

pub open spec fn cstr_model(cstr: Option<&Ty>) -> Option<TyModel> {
    match cstr {
        Some(c) => Some(c.model()),
        None => None,
    }
}

fn bind_rest_exec(
    p: &Pat,
    ty: Ty,
    cstr: Option<&Ty>,
    out: &mut PatternTypes,
    diags: &mut Vec<TypeDiagnostic>,
)
    ensures
        final(out).model_with(diags_model(final(diags)@)) == bind_then(
            old(out).model_with(diags_model(old(diags)@)),
            bind_rest(*p, ty.model(), cstr_model(cstr)),
        ),
    decreases p, 0int,
{
    let ghost cm = cstr_model(cstr);
    let ghost mid = out.model_with(diags_model(diags@));
    let ghost tm = ty.model();
    let structural = match &p.kind {
        PatKind::Tuple(_) | PatKind::Struct(_, _) | PatKind::VariantStruct(_, _) | PatKind::TupleStruct(_, _)
        | PatKind::Variant(_) => true,
        _ => false,
    };
    let subject = if structural {
        match &ty.kind {
            TyKind::Ref(_, inner, _) => inner.duplicate(),
            _ => ty.duplicate(),
        }
    } else {
        ty.duplicate()
    };
    assert(subject.model() == if is_structural(p.kind) { peel_one_ref(tm) } else { tm });
    match &p.kind {
        PatKind::Binding(name) => {
            out.locals.push((name.clone(), ty));
            proof {
                let b = BindModel { types: Seq::empty(), locals: seq![(name@, tm)], diags: Seq::empty() };
                assert(node_types_model(out.types@) =~= mid.types + b.types);
                assert(locals_model(out.locals@) =~= mid.locals + b.locals);
                assert(diags_model(diags@) =~= mid.diags + b.diags);
            }
        },
        PatKind::Wild => {
            assert(diags_model(diags@) =~= mid.diags + Seq::<DiagModel>::empty());
            proof { lemma_diags_only(mid, out.model_with(diags_model(diags@)), Seq::empty()); }
        },
        PatKind::Lit(lit) => {
            let integer_literal = matches!(lit, Lit::Integer(_));
            if !(integer_literal && crate::expr_rules::is_integer_ty(&ty)) {
                let lt = literal_ty(lit, cstr);
                require_same(&ty, &lt, diags);
                proof { lemma_diags_only(mid, out.model_with(diags_model(diags@)), require_same_diags(tm, lt.model())); }
            } else {
                assert(diags_model(diags@) =~= mid.diags + Seq::<DiagModel>::empty());
                proof { lemma_diags_only(mid, out.model_with(diags_model(diags@)), Seq::empty()); }
            }
        },
        PatKind::Tuple(pats) => {
            match &subject.kind {
                TyKind::Tuple(fields) => {
                    proof { lemma_tys_model(fields@); }
                    if pats.len() == fields.len() {
                        let field_tys = unbox_tys(fields);
                        assert(decreases_to!(p => pats));
                        bind_list_exec(pats, &field_tys, cstr, out, diags);
                    } else {
                        record(diags, TypeDiagnostic::TuplePatternArity);
                        proof { lemma_diags_only(mid, out.model_with(diags_model(diags@)), seq![DiagModel::TuplePatternArity]); }
                    }
                },
                _ => {
                    record(diags, TypeDiagnostic::NotTuplePattern);
                    proof { lemma_diags_only(mid, out.model_with(diags_model(diags@)), seq![DiagModel::NotTuplePattern]); }
                },
            }
        },
        PatKind::Struct(path_ty, fields) => {
            let st = match path_ty {
                Some(t) => t.duplicate(),
                None => subject.duplicate(),
            };
            require_same_adt(&subject, &st, "struct pattern", diags);
            let ghost d = adt_check(subject.model(), st.model(), "struct pattern"@);
            proof {
                lemma_diags_only(mid, out.model_with(diags_model(diags@)), d);
                lemma_bind_then_model(mid, bind_diags(d), bind_fields(fields@, st.model(), cm));
            }
            assert(decreases_to!(p => fields));
            bind_fields_exec(fields, &st, cstr, out, diags);
        },
        PatKind::VariantStruct(v, fields) => {
            let (_, payloads) = variant_payload_types(v, &subject, diags);
            let ghost vp = variant_payloads_model(*v, subject.model());
            let ghost after = out.model_with(diags_model(diags@));
            proof { lemma_diags_only(mid, after, vp.2); }
            if payloads.len() != 1 {
                record(diags, TypeDiagnostic::StructPayloadCount);
                proof {
                    assert(diags_model(diags@) =~= mid.diags + (vp.2 + seq![DiagModel::StructPayloadCount]));
                    lemma_diags_only(mid, out.model_with(diags_model(diags@)), vp.2 + seq![DiagModel::StructPayloadCount]);
                }
            } else {
                proof {
                    assert(ty_list_model(payloads@)[0] == payloads@[0].model());
                    lemma_bind_then_model(mid, bind_diags(vp.2), bind_fields(fields@, vp.1[0], cm));
                }
                assert(decreases_to!(p => fields));
                bind_fields_exec(fields, &payloads[0], cstr, out, diags);
            }
        },
        PatKind::TupleStruct(v, pats) => {
            let (_, payloads) = variant_payload_types(v, &subject, diags);
            let ghost vp = variant_payloads_model(*v, subject.model());
            let ghost after = out.model_with(diags_model(diags@));
            proof { lemma_diags_only(mid, after, vp.2); }
            if pats.len() != payloads.len() {
                record(diags, TypeDiagnostic::TupleStructArity);
                proof {
                    assert(diags_model(diags@) =~= mid.diags + (vp.2 + seq![DiagModel::TupleStructArity]));
                    lemma_diags_only(mid, out.model_with(diags_model(diags@)), vp.2 + seq![DiagModel::TupleStructArity]);
                }
            } else {
                proof { lemma_bind_then_model(mid, bind_diags(vp.2), bind_list(pats@, vp.1, cm)); }
                assert(decreases_to!(p => pats));
                bind_list_exec(pats, &payloads, cstr, out, diags);
            }
        },
        PatKind::Variant(v) => {
            let (_, payloads) = variant_payload_types(v, &subject, diags);
            let ghost vp = variant_payloads_model(*v, subject.model());
            if payloads.len() > 0 {
                record(diags, TypeDiagnostic::PayloadVariantPattern);
                proof {
                    assert(diags_model(diags@) =~= mid.diags + (vp.2 + seq![DiagModel::PayloadVariantPattern]));
                    lemma_diags_only(mid, out.model_with(diags_model(diags@)), vp.2 + seq![DiagModel::PayloadVariantPattern]);
                }
            } else {
                proof {
                    assert(diags_model(diags@) =~= mid.diags + (vp.2 + Seq::<DiagModel>::empty()));
                    lemma_diags_only(mid, out.model_with(diags_model(diags@)), vp.2 + Seq::<DiagModel>::empty());
                }
            }
        },
    }
}

fn bind_list_exec(
    pats: &Vec<Pat>,
    tys: &Vec<Ty>,
    cstr: Option<&Ty>,
    out: &mut PatternTypes,
    diags: &mut Vec<TypeDiagnostic>,
)
    requires
        pats@.len() == tys@.len(),
    ensures
        final(out).model_with(diags_model(final(diags)@)) == bind_then(
            old(out).model_with(diags_model(old(diags)@)),
            bind_list(pats@, ty_list_model(tys@), cstr_model(cstr)),
        ),
    decreases pats, 2int,
{
    let ghost cm = cstr_model(cstr);
    let ghost start = out.model_with(diags_model(diags@));
    let ghost tm = ty_list_model(tys@);
    proof {
        assert(pats@.take(0) =~= Seq::<Pat>::empty());
        assert(tm.take(0) =~= Seq::<TyModel>::empty());
        lemma_bind_none_right(start);
    }
    let mut i: usize = 0;
    while i < pats.len()
        invariant
            i <= pats@.len(),
            pats@.len() == tys@.len(),
            tm == ty_list_model(tys@),
            cm == cstr_model(cstr),
            start == old(out).model_with(diags_model(old(diags)@)),
            out.model_with(diags_model(diags@)) == bind_then(start, bind_list(pats@.take(i as int), tm.take(i as int), cm)),
        decreases pats@.len() - i,
    {
        assert(decreases_to!(pats => pats@[i as int]));
        let ghost prev = bind_list(pats@.take(i as int), tm.take(i as int), cm);
        bind_pattern(&pats[i], tys[i].duplicate(), cstr, out, diags);
        proof {
            let ps = pats@.take(i + 1);
            let ts = tm.take(i + 1);
            assert(ps.drop_last() =~= pats@.take(i as int));
            assert(ts.drop_last() =~= tm.take(i as int));
            assert(ps.last() == pats@[i as int]);
            assert(ts.last() == tys@[i as int].model());
            lemma_bind_then_model(start, prev, bind_model(pats@[i as int], tys@[i as int].model(), cm));
        }
        i += 1;
    }
    proof {
        assert(pats@.take(pats@.len() as int) =~= pats@);
        assert(tm.take(pats@.len() as int) =~= tm);
    }
}

fn bind_fields_exec(
    fields: &Vec<FieldPat>,
    receiver: &Ty,
    cstr: Option<&Ty>,
    out: &mut PatternTypes,
    diags: &mut Vec<TypeDiagnostic>,
)
    ensures
        final(out).model_with(diags_model(final(diags)@)) == bind_then(
            old(out).model_with(diags_model(old(diags)@)),
            bind_fields(fields@, receiver.model(), cstr_model(cstr)),
        ),
    decreases fields, 2int,
{
    let ghost cm = cstr_model(cstr);
    let ghost start = out.model_with(diags_model(diags@));
    let ghost rm = receiver.model();
    proof {
        assert(fields@.take(0) =~= Seq::<FieldPat>::empty());
        lemma_bind_none_right(start);
    }
    let mut i: usize = 0;
    while i < fields.len()
        invariant
            i <= fields@.len(),
            rm == receiver.model(),
            cm == cstr_model(cstr),
            start == old(out).model_with(diags_model(old(diags)@)),
            out.model_with(diags_model(diags@)) == bind_then(start, bind_fields(fields@.take(i as int), rm, cm)),
        decreases fields@.len() - i,
    {
        assert(decreases_to!(fields => fields@[i as int]));
        assert(decreases_to!(fields@[i as int] => fields@[i as int].pat));
        let ghost prev = bind_fields(fields@.take(i as int), rm, cm);
        let f = &fields[i];
        let ghost fm = field_model(rm, opt_model(f.declared));
        let ghost before = out.model_with(diags_model(diags@));
        let ft = field_ty(receiver, match &f.declared {
            Some(d) => Some(d),
            None => None,
        }, diags);
        proof {
            assert(fm == field_model(rm, match f.declared {
                Some(d) => Some(d.model()),
                None => None,
            }));
            lemma_diags_only(before, out.model_with(diags_model(diags@)), fm.1);
            lemma_bind_then_model(start, prev, bind_diags(fm.1));
        }
        bind_pattern(&f.pat, ft, cstr, out, diags);
        proof {
            let fs = fields@.take(i + 1);
            assert(fs.drop_last() =~= fields@.take(i as int));
            assert(fs.last() == fields@[i as int]);
            lemma_bind_then_model(start, bind_then(prev, bind_diags(fm.1)), bind_model(f.pat, fm.0, cm));
        }
        i += 1;
    }
    proof {
        assert(fields@.take(fields@.len() as int) =~= fields@);
    }
}

} // verus!
