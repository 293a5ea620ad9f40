//! Associated types reached through traits: whether a trait declares an
//! associated type itself or through its supertraits (transitively, with
//! cyclic supertrait chains tolerated), and the associated type a bound
//! generic parameter gives.

use vstd::prelude::*;
use crate::ty::{DefId, ParamModel, ParamTy, Ty, TyKind, TyModel, str_equals};

verus! {

/// A trait, as associated-type lookup reads it.
#[derive(Debug)]
pub struct TraitDecl {
    pub id: DefId,
    /// The names of the associated types the trait declares.
    pub assoc_types: Vec<String>,
    /// The definitions its supertrait bounds resolve to (`None` for one
    /// that resolves to none).
    pub supertraits: Vec<Option<DefId>>,
}

/// The position of the first trait with the identity `id` from `i` on.
pub open spec fn first_with_id(traits: Seq<TraitDecl>, id: DefId, i: int) -> Option<int>
    decreases traits.len() - i,
{
    if i < 0 || i >= traits.len() {
        None
    } else if traits[i].id == id {
        Some(i)
    } else {
        first_with_id(traits, id, i + 1)
    }
}

/// The trait a definition identity names in the program's traits.
pub open spec fn lookup(traits: Seq<TraitDecl>, id: DefId) -> Option<TraitDecl> {
    match first_with_id(traits, id, 0) {
        Some(i) => Some(traits[i]),
        None => None,
    }
}

/// Whether a trait itself declares an associated type named `name`.
pub open spec fn declares(t: TraitDecl, name: Seq<char>) -> bool {
    exists|k: int| 0 <= k < t.assoc_types@.len() && (#[trigger] t.assoc_types@[k])@ == name
}

/// Whether a supertrait bound resolving to `slot` names the trait `b`.
pub open spec fn slot_names(traits: Seq<TraitDecl>, slot: Option<DefId>, b: TraitDecl) -> bool {
    match slot {
        Some(id) => lookup(traits, id) == Some(b),
        None => false,
    }
}

/// Whether `b` is a supertrait of `a`.
pub open spec fn super_edge(traits: Seq<TraitDecl>, a: TraitDecl, b: TraitDecl) -> bool {
    exists|k: int| 0 <= k < a.supertraits@.len() && slot_names(traits, #[trigger] a.supertraits@[k], b)
}

/// Whether `p` is a chain of traits, each a supertrait of the one before.
pub open spec fn is_chain(traits: Seq<TraitDecl>, p: Seq<TraitDecl>) -> bool {
    &&& p.len() >= 1
    &&& forall|i: int| 0 <= i < p.len() - 1 ==> #[trigger] super_edge(traits, p[i], p[i + 1])
}

/// Whether `root` declares an associated type named `name`, itself or
/// through a chain of supertraits.
pub open spec fn declares_transitively(traits: Seq<TraitDecl>, root: TraitDecl, name: Seq<char>) -> bool {
    exists|p: Seq<TraitDecl>| #[trigger] is_chain(traits, p) && p[0] == root && declares(p.last(), name)
}

// ---------------------------------------------------------------------
// The search.
// ---------------------------------------------------------------------

/// A supertrait bound resolving to `slot` that names a known trait names
/// one among `seen`.
pub open spec fn slot_seen(traits: Seq<TraitDecl>, slot: Option<DefId>, seen: Seq<DefId>) -> bool {
    match slot {
        Some(id) => lookup(traits, id) is Some ==> seen.contains(id),
        None => true,
    }
}

/// Every supertrait of `t` that names a known trait is among `seen`.
pub open spec fn supers_seen(traits: Seq<TraitDecl>, t: TraitDecl, seen: Seq<DefId>) -> bool {
    forall|k: int| 0 <= k < t.supertraits@.len() ==> slot_seen(traits, #[trigger] t.supertraits@[k], seen)
}

/// A trait whose search is over: it does not declare `name`, and its
/// supertraits have all been reached.
pub open spec fn finished(traits: Seq<TraitDecl>, t: TraitDecl, name: Seq<char>, seen: Seq<DefId>) -> bool {
    !declares(t, name) && supers_seen(traits, t, seen)
}

/// Every identity that joined `seen` since `before` names no known trait
/// or a finished one.
pub open spec fn new_ones_finished(traits: Seq<TraitDecl>, name: Seq<char>, before: Seq<DefId>, seen: Seq<DefId>) -> bool {
    forall|id: DefId| #[trigger] seen.contains(id) && !before.contains(id) && lookup(traits, id) is Some
        ==> finished(traits, lookup(traits, id)->Some_0, name, seen)
}

pub open spec fn includes(a: Seq<DefId>, b: Seq<DefId>) -> bool {
    forall|id: DefId| #[trigger] b.contains(id) ==> a.contains(id)
}

/// How many of the first `n` traits have an identity in `seen`.
pub open spec fn count_seen(traits: Seq<TraitDecl>, seen: Seq<DefId>, n: int) -> nat
    decreases n,
{
    if n <= 0 {
        0
    } else {
        count_seen(traits, seen, n - 1) + if seen.contains(traits[n - 1].id) { 1nat } else { 0nat }
    }
}

proof fn lemma_count_bounded(traits: Seq<TraitDecl>, seen: Seq<DefId>, n: int)
    requires
        0 <= n,
    ensures
        count_seen(traits, seen, n) <= n,
    decreases n,
{
    if n > 0 {
        lemma_count_bounded(traits, seen, n - 1);
    }
}

proof fn lemma_count_grows(traits: Seq<TraitDecl>, a: Seq<DefId>, b: Seq<DefId>, n: int)
    requires
        0 <= n,
        includes(b, a),
    ensures
        count_seen(traits, a, n) <= count_seen(traits, b, n),
    decreases n,
{
    if n > 0 {
        lemma_count_grows(traits, a, b, n - 1);
    }
}

proof fn lemma_count_grows_strictly(traits: Seq<TraitDecl>, a: Seq<DefId>, b: Seq<DefId>, n: int, j: int)
    requires
        0 <= j < n,
        includes(b, a),
        !a.contains(traits[j].id),
        b.contains(traits[j].id),
    ensures
        count_seen(traits, a, n) < count_seen(traits, b, n),
    decreases n,
{
    if j < n - 1 {
        lemma_count_grows_strictly(traits, a, b, n - 1, j);
    } else {
        lemma_count_grows(traits, a, b, n - 1);
    }
}

proof fn lemma_first_with_id(traits: Seq<TraitDecl>, id: DefId, i: int)
    ensures
        first_with_id(traits, id, i) matches Some(j) ==> i <= j < traits.len() && 0 <= j && traits[j].id == id,
    decreases traits.len() - i,
{
    if 0 <= i < traits.len() && traits[i].id != id {
        lemma_first_with_id(traits, id, i + 1);
    }
}

/// How far the search from a state with `seen` can still go.
pub open spec fn unseen(traits: Seq<TraitDecl>, seen: Seq<DefId>) -> int {
    traits.len() - count_seen(traits, seen, traits.len() as int)
}

fn same_def(a: DefId, b: DefId) -> (r: bool)
    ensures
        r == (a == b),
{
    a.package == b.package && a.index == b.index
}

fn seen_contains(seen: &Vec<DefId>, id: DefId) -> (r: bool)
    ensures
        r == seen@.contains(id),
{
    let mut i: usize = 0;
    while i < seen.len()
        invariant
            i <= seen@.len(),
            forall|j: int| 0 <= j < i ==> seen@[j] != id,
        decreases seen@.len() - i,
    {
        if same_def(seen[i], id) {
            assert(seen@[i as int] == id);
            return true;
        }
        i += 1;
    }
    false
}

fn lookup_trait<'a>(traits: &'a [TraitDecl], id: DefId) -> (r: Option<&'a TraitDecl>)
    ensures
        match lookup(traits@, id) {
            Some(t) => r matches Some(x) && *x == t,
            None => r is None,
        },
{
    let mut i: usize = 0;
    while i < traits.len()
        invariant
            i <= traits@.len(),
            first_with_id(traits@, id, 0) == first_with_id(traits@, id, i as int),
        decreases traits@.len() - i,
    {
        if same_def(traits[i].id, id) {
            return Some(&traits[i]);
        }
        i += 1;
    }
    None
}

fn declares_directly(t: &TraitDecl, name: &str) -> (r: bool)
    ensures
        r == declares(*t, name@),
{
    let mut i: usize = 0;
    while i < t.assoc_types.len()
        invariant
            i <= t.assoc_types@.len(),
            forall|j: int| 0 <= j < i ==> (#[trigger] t.assoc_types@[j])@ != name@,
        decreases t.assoc_types@.len() - i,
    {
        if str_equals(t.assoc_types[i].as_str(), name) {
            return true;
        }
        i += 1;
    }
    false
}

/// The search from `t`, with the identities already reached in `seen`.
/// It finds `name` only along a real chain of supertraits; when it does
/// not, `t` and every trait newly reached are finished.
fn declares_from(t: &TraitDecl, name: &str, traits: &[TraitDecl], seen: &mut Vec<DefId>) -> (r: bool)
    ensures
        r ==> exists|p: Seq<TraitDecl>| #[trigger] is_chain(traits@, p) && p[0] == *t && declares(p.last(), name@),
        !r ==> includes(final(seen)@, old(seen)@)
            && finished(traits@, *t, name@, final(seen)@)
            && new_ones_finished(traits@, name@, old(seen)@, final(seen)@),
    decreases unseen(traits@, old(seen)@),
{
    if declares_directly(t, name) {
        proof {
            let p = seq![*t];
            assert(is_chain(traits@, p));
        }
        return true;
    }
    let ghost before = seen@;
    proof { lemma_count_bounded(traits@, before, traits@.len() as int); }
    let mut k: usize = 0;
    while k < t.supertraits.len()
        invariant
            k <= t.supertraits@.len(),
            !declares(*t, name@),
            before == old(seen)@,
            includes(seen@, before),
            count_seen(traits@, before, traits@.len() as int) <= count_seen(traits@, seen@, traits@.len() as int),
            forall|j: int| 0 <= j < k ==> slot_seen(traits@, #[trigger] t.supertraits@[j], seen@),
            new_ones_finished(traits@, name@, before, seen@),
        decreases t.supertraits@.len() - k,
    {
        if let Some(id) = t.supertraits[k] {
            if !seen_contains(seen, id) {
                let ghost prev = seen@;
                seen.push(id);
                proof {
                    assert(seen@.contains(id)) by { assert(seen@[seen@.len() - 1] == id); }
                    assert(includes(seen@, prev)) by {
                        assert forall|x: DefId| #[trigger] prev.contains(x) implies seen@.contains(x) by {
                            let j = choose|j: int| 0 <= j < prev.len() && prev[j] == x;
                            assert(seen@[j] == x);
                        }
                    }
                    assert forall|x: DefId| #[trigger] seen@.contains(x) && !prev.contains(x) implies x == id by {
                        let j = choose|j: int| 0 <= j < seen@.len() && seen@[j] == x;
                        if j < prev.len() {
                            assert(prev[j] == x);
                        }
                    }
                    lemma_count_grows(traits@, prev, seen@, traits@.len() as int);
                }
                match lookup_trait(traits, id) {
                    None => {
                        proof {
                            assert forall|x: DefId| #[trigger] seen@.contains(x) && !before.contains(x)
                                && lookup(traits@, x) is Some implies finished(traits@, lookup(traits@, x)->Some_0, name@, seen@) by {
                                if !prev.contains(x) {
                                    assert(x == id);
                                }
                                let f = lookup(traits@, x)->Some_0;
                                assert(finished(traits@, f, name@, prev));
                                assert forall|m: int| 0 <= m < f.supertraits@.len() implies
                                    slot_seen(traits@, #[trigger] f.supertraits@[m], seen@) by {
                                    assert(slot_seen(traits@, f.supertraits@[m], prev));
                                    match f.supertraits@[m] {
                                        Some(y) => {
                                            if lookup(traits@, y) is Some {
                                                assert(prev.contains(y));
                                            }
                                        },
                                        None => {},
                                    }
                                }
                            }
                            assert forall|j: int| 0 <= j < k + 1 implies slot_seen(traits@, #[trigger] t.supertraits@[j], seen@) by {
                                if j < k {
                                    assert(slot_seen(traits@, t.supertraits@[j], prev));
                                    match t.supertraits@[j] {
                                        Some(y) => {
                                            if lookup(traits@, y) is Some {
                                                assert(prev.contains(y));
                                            }
                                        },
                                        None => {},
                                    }
                                }
                            }
                        }
                    },
                    Some(sup) => {
                        proof {
                            lemma_first_with_id(traits@, id, 0);
                            let j = first_with_id(traits@, id, 0)->Some_0;
                            lemma_count_grows_strictly(traits@, prev, seen@, traits@.len() as int, j);
                            lemma_count_grows(traits@, before, prev, traits@.len() as int);
                            lemma_count_bounded(traits@, seen@, traits@.len() as int);
                        }
                        let ghost mid = seen@;
                        if declares_from(sup, name, traits, seen) {
                            proof {
                                let q = choose|q: Seq<TraitDecl>| #[trigger] is_chain(traits@, q) && q[0] == *sup
                                    && declares(q.last(), name@);
                                let p = seq![*t] + q;
                                assert(super_edge(traits@, *t, *sup)) by {
                                    assert(t.supertraits@[k as int] == Some(id));
                                    assert(slot_names(traits@, t.supertraits@[k as int], *sup));
                                }
                                assert forall|i: int| 0 <= i < p.len() - 1 implies #[trigger] super_edge(traits@, p[i], p[i + 1]) by {
                                    if i == 0 {
                                        assert(p[0] == *t);
                                        assert(p[1] == q[0]);
                                    } else {
                                        assert(p[i] == q[i - 1]);
                                        assert(p[i + 1] == q[i]);
                                        assert(super_edge(traits@, q[i - 1], q[(i - 1) + 1]));
                                    }
                                }
                                assert(is_chain(traits@, p));
                                assert(p.last() == q.last());
                            }
                            return true;
                        }
                        proof {
                            lemma_count_grows(traits@, mid, seen@, traits@.len() as int);
                            assert(includes(seen@, before)) by {
                                assert forall|x: DefId| #[trigger] before.contains(x) implies seen@.contains(x) by {
                                    assert(prev.contains(x));
                                    assert(mid.contains(x));
                                }
                            }
                            assert forall|x: DefId| #[trigger] seen@.contains(x) && !before.contains(x)
                                && lookup(traits@, x) is Some implies finished(traits@, lookup(traits@, x)->Some_0, name@, seen@) by {
                                let f = lookup(traits@, x)->Some_0;
                                if mid.contains(x) {
                                    if prev.contains(x) {
                                        assert(finished(traits@, f, name@, prev));
                                    } else {
                                        assert(x == id);
                                        assert(f == *sup);
                                    }
                                    assert forall|m: int| 0 <= m < f.supertraits@.len() implies
                                        slot_seen(traits@, #[trigger] f.supertraits@[m], seen@) by {
                                        if x != id {
                                            assert(slot_seen(traits@, f.supertraits@[m], prev));
                                            match f.supertraits@[m] {
                                                Some(y) => {
                                                    if lookup(traits@, y) is Some {
                                                        assert(prev.contains(y));
                                                        assert(mid.contains(y));
                                                    }
                                                },
                                                None => {},
                                            }
                                        } else {
                                            assert(supers_seen(traits@, *sup, seen@));
                                        }
                                    }
                                }
                            }
                            assert forall|j: int| 0 <= j < k + 1 implies slot_seen(traits@, #[trigger] t.supertraits@[j], seen@) by {
                                if j < k {
                                    assert(slot_seen(traits@, t.supertraits@[j], prev));
                                    match t.supertraits@[j] {
                                        Some(y) => {
                                            if lookup(traits@, y) is Some {
                                                assert(prev.contains(y));
                                                assert(mid.contains(y));
                                            }
                                        },
                                        None => {},
                                    }
                                } else {
                                    assert(mid.contains(id));
                                }
                            }
                        }
                    },
                }
            }
        }
        k += 1;
    }
    false
}

proof fn lemma_chain_finished(
    traits: Seq<TraitDecl>,
    root: TraitDecl,
    name: Seq<char>,
    seen: Seq<DefId>,
    p: Seq<TraitDecl>,
    i: int,
)
    requires
        finished(traits, root, name, seen),
        new_ones_finished(traits, name, Seq::empty(), seen),
        is_chain(traits, p),
        p[0] == root,
        0 <= i < p.len(),
    ensures
        finished(traits, p[i], name, seen),
    decreases i,
{
    if i > 0 {
        lemma_chain_finished(traits, root, name, seen, p, i - 1);
        assert(super_edge(traits, p[i - 1], p[(i - 1) + 1]));
        let k = choose|k: int| 0 <= k < p[i - 1].supertraits@.len() && slot_names(traits, #[trigger] p[i - 1].supertraits@[k], p[i]);
        assert(slot_seen(traits, p[i - 1].supertraits@[k], seen));
        match p[i - 1].supertraits@[k] {
            Some(id) => {
                assert(seen.contains(id));
                assert(!Seq::<DefId>::empty().contains(id));
                assert(lookup(traits, id) == Some(p[i]));
            },
            None => {},
        }
    }
}

/// A search that reached only finished traits, starting from nothing
/// reached, leaves no chain from the root to a trait declaring `name`.
proof fn lemma_no_chain(traits: Seq<TraitDecl>, root: TraitDecl, name: Seq<char>, seen: Seq<DefId>)
    requires
        finished(traits, root, name, seen),
        new_ones_finished(traits, name, Seq::empty(), seen),
    ensures
        !declares_transitively(traits, root, name),
{
    assert forall|p: Seq<TraitDecl>| #[trigger] is_chain(traits, p) && p[0] == root implies !declares(p.last(), name) by {
        lemma_chain_finished(traits, root, name, seen, p, p.len() - 1);
    }
}

/// Whether the trait `t` declares an associated type named `name`, itself
/// or through a chain of supertraits (among `traits`); a cycle among
/// supertraits is searched once.
pub fn trait_declares_assoc_type(t: &TraitDecl, name: &str, traits: &[TraitDecl]) -> (r: bool)
    ensures
        r == declares_transitively(traits@, *t, name@),
{
    let mut seen: Vec<DefId> = Vec::new();
    let ghost empty = seen@;
    let r = declares_from(t, name, traits, &mut seen);
    proof {
        if !r {
            assert(empty =~= Seq::<DefId>::empty());
            lemma_no_chain(traits@, *t, name@, seen@);
        }
    }
    r
}

// ---------------------------------------------------------------------
// Projections on bound parameters.
// ---------------------------------------------------------------------

/// A bound on a generic parameter, as associated-type lookup reads it.
#[derive(Debug)]
pub enum ParamBound {
    /// An `Fn(..) -> R`-shaped bound, with the checked type `R`.
    FnPtr(Ty),
    /// A path bound, with the definition it resolves to (`None` for none).
    Path(Option<DefId>),
    /// Any other bound.
    Other,
}

/// The type of the first binding named `name` from position `i` on.
pub open spec fn first_binding(v: Seq<(String, Ty)>, name: Seq<char>, i: int) -> Option<TyModel>
    decreases v.len() - i,
{
    if i < 0 || i >= v.len() {
        None
    } else if v[i].0@ == name {
        Some(v[i].1.model())
    } else {
        first_binding(v, name, i + 1)
    }
}

/// The output type of the first `Fn`-shaped bound from position `i` on.
pub open spec fn first_fn_output(bounds: Seq<ParamBound>, i: int) -> Option<TyModel>
    decreases bounds.len() - i,
{
    if i < 0 || i >= bounds.len() {
        None
    } else {
        match bounds[i] {
            ParamBound::FnPtr(t) => Some(t.model()),
            _ => first_fn_output(bounds, i + 1),
        }
    }
}

/// Whether a bound is a trait among `traits` that declares an associated
/// type named `name` (see `declares_transitively`).
pub open spec fn bound_declares(traits: Seq<TraitDecl>, b: ParamBound, name: Seq<char>) -> bool {
    match b {
        ParamBound::Path(Some(id)) => match lookup(traits, id) {
            Some(t) => declares_transitively(traits, t, name),
            None => false,
        },
        _ => false,
    }
}

/// The associated type `name` of a generic parameter with the associated
/// type bindings `bindings` (checked) and the bounds `bounds` (`None` when
/// the parameter is not in scope): its binding of that name, if any; else,
/// for `Output`, the output of its first `Fn`-shaped bound; else, when
/// one of its trait bounds declares the name, an opaque placeholder
/// parameter named after it (at index `u32::MAX`); else none.
pub open spec fn param_projection(
    bindings: Seq<(String, Ty)>,
    bounds: Option<Seq<ParamBound>>,
    traits: Seq<TraitDecl>,
    name: Seq<char>,
) -> Option<TyModel> {
    match first_binding(bindings, name, 0) {
        Some(t) => Some(t),
        None => match bounds {
            None => None,
            Some(bs) => if name == "Output"@ && first_fn_output(bs, 0) is Some {
                first_fn_output(bs, 0)
            } else if exists|j: int| 0 <= j < bs.len() && bound_declares(traits, #[trigger] bs[j], name) {
                Some(TyModel::Param(ParamModel { index: u32::MAX, name }))
            } else {
                None
            },
        },
    }
}

/// The associated type `name` of a bound generic parameter; see
/// `param_projection`.
pub fn assoc_type_from_generic_param_bounds(
    bindings: &[(String, Ty)],
    bounds: Option<&[ParamBound]>,
    name: &str,
    traits: &[TraitDecl],
) -> (r: Option<Ty>)
    ensures
        match param_projection(bindings@, match bounds {
            Some(b) => Some(b@),
            None => None,
        }, traits@, name@) {
            Some(t) => r matches Some(x) && x.model() == t,
            None => r is None,
        },
{
    let mut i: usize = 0;
    while i < bindings.len()
        invariant
            i <= bindings@.len(),
            first_binding(bindings@, name@, 0) == first_binding(bindings@, name@, i as int),
        decreases bindings@.len() - i,
    {
        if str_equals(bindings[i].0.as_str(), name) {
            return Some(bindings[i].1.duplicate());
        }
        i += 1;
    }
    assert(first_binding(bindings@, name@, 0) is None);
    let bs = match bounds {
        None => return None,
        Some(b) => b,
    };
    let is_output = str_equals(name, "Output");
    if is_output {
        let mut j: usize = 0;
        while j < bs.len()
            invariant
                j <= bs@.len(),
                first_binding(bindings@, name@, 0) is None,
                name@ == "Output"@,
                bounds == Some(bs),
                first_fn_output(bs@, 0) == first_fn_output(bs@, j as int),
            decreases bs@.len() - j,
        {
            if let ParamBound::FnPtr(output) = &bs[j] {
                return Some(output.duplicate());
            }
            j += 1;
        }
    }
    assert(is_output ==> first_fn_output(bs@, 0) is None);
    let mut k: usize = 0;
    while k < bs.len()
        invariant
            k <= bs@.len(),
            first_binding(bindings@, name@, 0) is None,
            is_output == (name@ == "Output"@),
            is_output ==> first_fn_output(bs@, 0) is None,
            bounds == Some(bs),
            forall|j: int| 0 <= j < k ==> !bound_declares(traits@, #[trigger] bs@[j], name@),
        decreases bs@.len() - k,
    {
        if let ParamBound::Path(Some(id)) = &bs[k] {
            if let Some(t) = lookup_trait(traits, *id) {
                if trait_declares_assoc_type(t, name, traits) {
                    assert(bound_declares(traits@, bs@[k as int], name@));
                    let owned = name.to_string();
                    assert(owned@ == name@);
                    return Some(Ty { kind: TyKind::Param(ParamTy { index: u32::MAX, name: owned }) });
                }
            }
        }
        k += 1;
    }
    None
}

} // verus!
