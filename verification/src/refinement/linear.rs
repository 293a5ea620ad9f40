//! The mathematical model of linear terms and the facts about it that the
//! decision procedure rests on.
//!
//! A term `(c1*x1 + ... + cn*xn + k) / q` over rational-valued variables is
//! modelled as a `LinModel` with integer coefficients and a positive common
//! denominator `q`. A rational assignment is given by integer numerators
//! `sigma(x)` over one positive common denominator `d`, so that `x` stands
//! for `sigma(x) / d`. Under it the term's value is
//! `lin_num(m, sigma, d) / (q * d)`; its sign is that of `lin_num`.

use vstd::prelude::*;

verus! {

/// Integer numerators of a rational assignment to variable names.
pub type Assignment = spec_fn(Seq<char>) -> int;

pub struct LinModel {
    pub coeffs: Seq<(Seq<char>, int)>,
    pub constant: int,
    pub denom: int,
}

pub open spec fn in_i128(v: int) -> bool {
    i128::MIN <= v <= i128::MAX
}

/// The names of a coefficient list.
pub open spec fn names_of(s: Seq<(Seq<char>, int)>) -> Set<Seq<char>> {
    Set::new(|n: Seq<char>| exists|i: int| 0 <= i < s.len() && s[i].0 == n)
}

/// No name occurs twice and no coefficient is zero.
pub open spec fn coeffs_wf(s: Seq<(Seq<char>, int)>) -> bool {
    &&& forall|i: int, j: int| 0 <= i < j < s.len() ==> s[i].0 != s[j].0
    &&& forall|i: int| 0 <= i < s.len() ==> s[i].1 != 0
}

pub open spec fn lin_wf(m: LinModel) -> bool {
    coeffs_wf(m.coeffs) && m.denom > 0
}

/// `sum(c_i * sigma(x_i))`.
pub open spec fn eval_coeffs(s: Seq<(Seq<char>, int)>, sigma: Assignment) -> int
    decreases s.len(),
{
    if s.len() == 0 {
        0
    } else {
        eval_coeffs(s.drop_last(), sigma) + s.last().1 * sigma(s.last().0)
    }
}

/// The numerator of the term's value under `sigma` over denominator `d`.
pub open spec fn lin_num(m: LinModel, sigma: Assignment, d: int) -> int {
    eval_coeffs(m.coeffs, sigma) + m.constant * d
}

/// The index of the first entry named `n`, or `-1`.
pub open spec fn find_name(s: Seq<(Seq<char>, int)>, n: Seq<char>) -> int
    decreases s.len(),
{
    if s.len() == 0 {
        -1
    } else if s[0].0 == n {
        0
    } else {
        let r = find_name(s.drop_first(), n);
        if r < 0 { -1 } else { r + 1 }
    }
}

/// The coefficient of `n` (zero when absent).
pub open spec fn coeff_of(s: Seq<(Seq<char>, int)>, n: Seq<char>) -> int {
    let i = find_name(s, n);
    if i < 0 { 0 } else { s[i].1 }
}

/// Adds `c * n` to a coefficient list, dropping the entry if it cancels.
pub open spec fn insert_coeff(s: Seq<(Seq<char>, int)>, n: Seq<char>, c: int) -> Seq<(Seq<char>, int)> {
    let i = find_name(s, n);
    if i < 0 {
        if c == 0 { s } else { s.push((n, c)) }
    } else if s[i].1 + c == 0 {
        s.remove(i)
    } else {
        s.update(i, (n, s[i].1 + c))
    }
}

/// Whether `insert_coeff(s, n, c)` keeps its coefficient within `i128`.
pub open spec fn insert_fits(s: Seq<(Seq<char>, int)>, n: Seq<char>, c: int) -> bool {
    let i = find_name(s, n);
    i < 0 || in_i128(s[i].1 + c)
}

/// Adds every entry of `t`, first to last, into `s`.
pub open spec fn merge_coeffs(s: Seq<(Seq<char>, int)>, t: Seq<(Seq<char>, int)>) -> Seq<(Seq<char>, int)>
    decreases t.len(),
{
    if t.len() == 0 {
        s
    } else {
        insert_coeff(merge_coeffs(s, t.drop_last()), t.last().0, t.last().1)
    }
}

pub open spec fn merge_fits(s: Seq<(Seq<char>, int)>, t: Seq<(Seq<char>, int)>) -> bool
    decreases t.len(),
{
    if t.len() == 0 {
        true
    } else {
        merge_fits(s, t.drop_last()) && insert_fits(merge_coeffs(s, t.drop_last()), t.last().0, t.last().1)
    }
}

/// Every coefficient multiplied by `k`; scaling by zero leaves no entry.
pub open spec fn scale_coeffs(s: Seq<(Seq<char>, int)>, k: int) -> Seq<(Seq<char>, int)> {
    if k == 0 {
        Seq::empty()
    } else {
        s.map_values(|p: (Seq<char>, int)| (p.0, p.1 * k))
    }
}

pub open spec fn scale_fits(s: Seq<(Seq<char>, int)>, k: int) -> bool {
    forall|i: int| 0 <= i < s.len() ==> in_i128(s[i].1 * k)
}

/// `a + b` over the common denominator `a.denom * b.denom`.
pub open spec fn lin_add(a: LinModel, b: LinModel) -> LinModel {
    LinModel {
        coeffs: merge_coeffs(scale_coeffs(a.coeffs, b.denom), scale_coeffs(b.coeffs, a.denom)),
        constant: a.constant * b.denom + b.constant * a.denom,
        denom: a.denom * b.denom,
    }
}

pub open spec fn add_fits(a: LinModel, b: LinModel) -> bool {
    &&& scale_fits(a.coeffs, b.denom)
    &&& scale_fits(b.coeffs, a.denom)
    &&& merge_fits(scale_coeffs(a.coeffs, b.denom), scale_coeffs(b.coeffs, a.denom))
    &&& in_i128(a.constant * b.denom)
    &&& in_i128(b.constant * a.denom)
    &&& in_i128(a.constant * b.denom + b.constant * a.denom)
    &&& in_i128(a.denom * b.denom)
}

/// The sign that makes a nonzero denominator positive.
pub open spec fn sign_of(den: int) -> int {
    if den < 0 { -1 } else { 1 }
}

/// `m * num / den` (for `den != 0`), keeping the denominator positive.
pub open spec fn lin_scale(m: LinModel, num: int, den: int) -> LinModel {
    LinModel {
        coeffs: scale_coeffs(m.coeffs, num * sign_of(den)),
        constant: m.constant * (num * sign_of(den)),
        denom: m.denom * (den * sign_of(den)),
    }
}

pub open spec fn scale_ok(m: LinModel, num: int, den: int) -> bool {
    &&& in_i128(num * sign_of(den))
    &&& in_i128(den * sign_of(den))
    &&& scale_fits(m.coeffs, num * sign_of(den))
    &&& in_i128(m.constant * (num * sign_of(den)))
    &&& in_i128(m.denom * (den * sign_of(den)))
}

/// A term with no variables.
pub open spec fn lin_constant(v: int) -> LinModel {
    LinModel { coeffs: Seq::empty(), constant: v, denom: 1 }
}

/// The variable `n`.
pub open spec fn lin_var(n: Seq<char>) -> LinModel {
    LinModel { coeffs: seq![(n, 1int)], constant: 0, denom: 1 }
}

// ---------------------------------------------------------------------
// Facts about the model.
// ---------------------------------------------------------------------

/// `find_name` gives the first entry with the name, or `-1` when none has it.
pub proof fn lemma_find_name(s: Seq<(Seq<char>, int)>, n: Seq<char>)
    ensures
        -1 <= find_name(s, n) < s.len(),
        find_name(s, n) >= 0 ==> s[find_name(s, n)].0 == n,
        find_name(s, n) >= 0 ==> forall|j: int| 0 <= j < find_name(s, n) ==> s[j].0 != n,
        find_name(s, n) < 0 ==> forall|j: int| 0 <= j < s.len() ==> s[j].0 != n,
    decreases s.len(),
{
    if s.len() > 0 && s[0].0 != n {
        lemma_find_name(s.drop_first(), n);
        let r = find_name(s.drop_first(), n);
        if r < 0 {
            assert forall|j: int| 0 <= j < s.len() implies s[j].0 != n by {
                if j > 0 {
                    assert(s[j] == s.drop_first()[j - 1]);
                }
            }
        } else {
            assert forall|j: int| 0 <= j < r + 1 implies s[j].0 != n by {
                if j > 0 {
                    assert(s[j] == s.drop_first()[j - 1]);
                }
            }
        }
    }
}

/// In a well-formed list the entry found for `n` is its only entry.
pub proof fn lemma_find_name_unique(s: Seq<(Seq<char>, int)>, n: Seq<char>, i: int)
    requires
        coeffs_wf(s),
        0 <= i < s.len(),
        s[i].0 == n,
    ensures
        find_name(s, n) == i,
{
    lemma_find_name(s, n);
}

/// Appending an entry adds its product to the value of a coefficient list.
pub proof fn lemma_eval_push(s: Seq<(Seq<char>, int)>, p: (Seq<char>, int), sigma: Assignment)
    ensures
        eval_coeffs(s.push(p), sigma) == eval_coeffs(s, sigma) + p.1 * sigma(p.0),
{
    assert(s.push(p).drop_last() == s);
}

/// Replacing an entry replaces its product in the value.
pub proof fn lemma_eval_update(s: Seq<(Seq<char>, int)>, i: int, p: (Seq<char>, int), sigma: Assignment)
    requires
        0 <= i < s.len(),
    ensures
        eval_coeffs(s.update(i, p), sigma) == eval_coeffs(s, sigma) - s[i].1 * sigma(s[i].0) + p.1 * sigma(p.0),
    decreases s.len(),
{
    if i == s.len() - 1 {
        assert(s.update(i, p).drop_last() == s.drop_last());
    } else {
        lemma_eval_update(s.drop_last(), i, p, sigma);
        assert(s.update(i, p).drop_last() == s.drop_last().update(i, p));
    }
}

/// Removing an entry takes its product out of the value.
pub proof fn lemma_eval_remove(s: Seq<(Seq<char>, int)>, i: int, sigma: Assignment)
    requires
        0 <= i < s.len(),
    ensures
        eval_coeffs(s.remove(i), sigma) == eval_coeffs(s, sigma) - s[i].1 * sigma(s[i].0),
    decreases s.len(),
{
    if i == s.len() - 1 {
        assert(s.remove(i) == s.drop_last());
    } else {
        lemma_eval_remove(s.drop_last(), i, sigma);
        assert(s.remove(i).drop_last() == s.drop_last().remove(i));
    }
}

/// Adding `c * n` to a coefficient list adds `c * sigma(n)` to its value.
pub proof fn lemma_eval_insert(s: Seq<(Seq<char>, int)>, n: Seq<char>, c: int, sigma: Assignment)
    ensures
        eval_coeffs(insert_coeff(s, n, c), sigma) == eval_coeffs(s, sigma) + c * sigma(n),
{
    lemma_find_name(s, n);
    let i = find_name(s, n);
    if i < 0 {
        if c != 0 {
            lemma_eval_push(s, (n, c), sigma);
        } else {
            assert(c * sigma(n) == 0) by (nonlinear_arith) requires c == 0;
        }
    } else {
        let old_c = s[i].1;
        assert(s[i].0 == n);
        if old_c + c == 0 {
            lemma_eval_remove(s, i, sigma);
            assert(old_c * sigma(n) == -(c * sigma(n))) by (nonlinear_arith)
                requires old_c == -c;
            assert(insert_coeff(s, n, c) == s.remove(i));
        } else {
            lemma_eval_update(s, i, (n, old_c + c), sigma);
            assert((old_c + c) * sigma(n) == old_c * sigma(n) + c * sigma(n)) by (nonlinear_arith);
            assert(insert_coeff(s, n, c) == s.update(i, (n, old_c + c)));
        }
    }
}

/// The value of merged coefficient lists is the sum of their values.
pub proof fn lemma_eval_merge(s: Seq<(Seq<char>, int)>, t: Seq<(Seq<char>, int)>, sigma: Assignment)
    ensures
        eval_coeffs(merge_coeffs(s, t), sigma) == eval_coeffs(s, sigma) + eval_coeffs(t, sigma),
    decreases t.len(),
{
    if t.len() > 0 {
        lemma_eval_merge(s, t.drop_last(), sigma);
        lemma_eval_insert(merge_coeffs(s, t.drop_last()), t.last().0, t.last().1, sigma);
    }
}

/// Scaling every coefficient by `k` scales the value by `k`.
pub proof fn lemma_eval_scale(s: Seq<(Seq<char>, int)>, k: int, sigma: Assignment)
    ensures
        eval_coeffs(scale_coeffs(s, k), sigma) == k * eval_coeffs(s, sigma),
    decreases s.len(),
{
    if k == 0 {
        assert(k * eval_coeffs(s, sigma) == 0) by (nonlinear_arith) requires k == 0;
    } else if s.len() > 0 {
        lemma_eval_scale(s.drop_last(), k, sigma);
        assert(scale_coeffs(s, k).drop_last() == scale_coeffs(s.drop_last(), k));
        let e = eval_coeffs(s.drop_last(), sigma);
        let c = s.last().1;
        let v = sigma(s.last().0);
        assert(k * e + (c * k) * v == k * (e + c * v)) by (nonlinear_arith);
    }
}

/// Adding to a coefficient list introduces no name but the one added.
pub proof fn lemma_names_insert(s: Seq<(Seq<char>, int)>, n: Seq<char>, c: int)
    ensures
        names_of(insert_coeff(s, n, c)).subset_of(names_of(s).insert(n)),
{
    lemma_find_name(s, n);
    let r = insert_coeff(s, n, c);
    let i = find_name(s, n);
    assert forall|x: Seq<char>| names_of(r).contains(x) implies names_of(s).insert(n).contains(x) by {
        let j = choose|j: int| 0 <= j < r.len() && r[j].0 == x;
        if i < 0 {
            if c != 0 && j == s.len() {
            } else {
                assert(r[j] == s[j]);
            }
        } else if s[i].1 + c == 0 {
            if j < i {
                assert(r[j] == s[j]);
            } else {
                assert(r[j] == s[j + 1]);
            }
        } else {
            if j != i {
                assert(r[j] == s[j]);
            }
        }
    }
}

/// Adding to a well-formed coefficient list keeps it well formed and changes only the coefficient of the name added.
pub proof fn lemma_wf_insert(s: Seq<(Seq<char>, int)>, n: Seq<char>, c: int)
    requires
        coeffs_wf(s),
    ensures
        coeffs_wf(insert_coeff(s, n, c)),
        coeff_of(insert_coeff(s, n, c), n) == coeff_of(s, n) + c,
        forall|x: Seq<char>| x != n ==> coeff_of(insert_coeff(s, n, c), x) == coeff_of(s, x),
{
    lemma_find_name(s, n);
    let i = find_name(s, n);
    let r = insert_coeff(s, n, c);
    assert(coeffs_wf(r)) by {
        if i < 0 {
        } else if s[i].1 + c == 0 {
            assert forall|a: int, b: int| 0 <= a < b < r.len() implies r[a].0 != r[b].0 by {
                let a2 = if a < i { a } else { a + 1 };
                let b2 = if b < i { b } else { b + 1 };
                assert(r[a] == s[a2]);
                assert(r[b] == s[b2]);
            }
            assert forall|a: int| 0 <= a < r.len() implies r[a].1 != 0 by {
                let a2 = if a < i { a } else { a + 1 };
                assert(r[a] == s[a2]);
            }
        } else {
        }
    }
    lemma_find_name(r, n);
    assert forall|x: Seq<char>| x != n implies coeff_of(r, x) == coeff_of(s, x) by {
        lemma_find_name(s, x);
        lemma_find_name(r, x);
        let k = find_name(s, x);
        let kr = find_name(r, x);
        if k >= 0 {
            // the entry for `x` survives, at a possibly shifted position
            let k2 = if i >= 0 && s[i].1 + c == 0 && k > i { k - 1 } else { k };
            assert(r[k2] == s[k]);
            lemma_find_name_unique(r, x, k2);
        } else if kr >= 0 {
            let kk = if i >= 0 && s[i].1 + c == 0 && kr >= i { kr + 1 } else { kr };
            if i < 0 && c != 0 && kr == s.len() {
            } else {
                assert(r[kr] == s[kk]);
            }
        }
    }
    if i < 0 {
        if c != 0 {
            lemma_find_name_unique(r, n, s.len() as int);
        }
    } else if s[i].1 + c == 0 {
        assert forall|j: int| 0 <= j < r.len() implies r[j].0 != n by {
            let j2 = if j < i { j } else { j + 1 };
            assert(r[j] == s[j2]);
        }
    } else {
        lemma_find_name_unique(r, n, i);
    }
}

/// Merging into a well-formed list keeps it well formed and introduces no foreign name.
pub proof fn lemma_wf_merge(s: Seq<(Seq<char>, int)>, t: Seq<(Seq<char>, int)>)
    requires
        coeffs_wf(s),
    ensures
        coeffs_wf(merge_coeffs(s, t)),
        names_of(merge_coeffs(s, t)).subset_of(names_of(s).union(names_of(t))),
    decreases t.len(),
{
    if t.len() > 0 {
        let m = merge_coeffs(s, t.drop_last());
        lemma_wf_merge(s, t.drop_last());
        lemma_wf_insert(m, t.last().0, t.last().1);
        lemma_names_insert(m, t.last().0, t.last().1);
        assert forall|x: Seq<char>| names_of(t.drop_last()).contains(x) implies names_of(t).contains(x) by {
            let j = choose|j: int| 0 <= j < t.drop_last().len() && t.drop_last()[j].0 == x;
            assert(t[j] == t.drop_last()[j]);
        }
        assert(names_of(t).contains(t.last().0)) by {
            assert(t[t.len() - 1] == t.last());
        }
    }
}

/// The coefficient of each name in a merge of well-formed lists is the sum of
/// its coefficients in the two.
pub proof fn lemma_coeff_merge(s: Seq<(Seq<char>, int)>, t: Seq<(Seq<char>, int)>, x: Seq<char>)
    requires
        coeffs_wf(s),
        coeffs_wf(t),
    ensures
        coeff_of(merge_coeffs(s, t), x) == coeff_of(s, x) + coeff_of(t, x),
    decreases t.len(),
{
    if t.len() > 0 {
        let u = t.drop_last();
        assert(coeffs_wf(u));
        lemma_coeff_merge(s, u, x);
        lemma_wf_merge(s, u);
        lemma_wf_insert(merge_coeffs(s, u), t.last().0, t.last().1);
        lemma_find_name(t, x);
        lemma_find_name(u, x);
        let k = find_name(t, x);
        if t.last().0 == x {
            lemma_find_name_unique(t, x, t.len() - 1);
            assert(coeff_of(u, x) == 0);
        } else if k >= 0 {
            assert(k < u.len());
            assert(u[k] == t[k]);
            lemma_find_name_unique(u, x, k);
        } else {
            assert forall|j: int| 0 <= j < u.len() implies u[j].0 != x by {
                assert(u[j] == t[j]);
            }
        }
    }
}

/// Scaling keeps a list well formed and scales each coefficient.
pub proof fn lemma_scale_coeffs(s: Seq<(Seq<char>, int)>, k: int)
    requires
        coeffs_wf(s),
    ensures
        coeffs_wf(scale_coeffs(s, k)),
        names_of(scale_coeffs(s, k)).subset_of(names_of(s)),
        forall|x: Seq<char>| #[trigger] coeff_of(scale_coeffs(s, k), x) == coeff_of(s, x) * k,
{
    let r = scale_coeffs(s, k);
    if k == 0 {
        assert forall|x: Seq<char>| #[trigger] coeff_of(r, x) == coeff_of(s, x) * k by {
            assert(coeff_of(s, x) * k == 0) by (nonlinear_arith) requires k == 0;
        }
    } else {
        assert forall|i: int| 0 <= i < r.len() implies r[i].1 != 0 by {
            assert(s[i].1 * k != 0) by (nonlinear_arith) requires s[i].1 != 0, k != 0;
        }
        assert forall|x: Seq<char>| names_of(r).contains(x) implies names_of(s).contains(x) by {
            let j = choose|j: int| 0 <= j < r.len() && r[j].0 == x;
        }
        assert forall|x: Seq<char>| #[trigger] coeff_of(r, x) == coeff_of(s, x) * k by {
            lemma_find_name(s, x);
            lemma_find_name(r, x);
            let i = find_name(s, x);
            if i >= 0 {
                lemma_find_name_unique(r, x, i);
            } else {
                assert forall|j: int| 0 <= j < r.len() implies r[j].0 != x by {
                    assert(r[j].0 == s[j].0);
                }
            }
        }
    }
}

/// The value of a sum is the sum of the values (over the product
/// denominator).
pub proof fn lemma_lin_add(a: LinModel, b: LinModel, sigma: Assignment, d: int)
    ensures
        lin_num(lin_add(a, b), sigma, d) == lin_num(a, sigma, d) * b.denom + lin_num(b, sigma, d) * a.denom,
{
    lemma_eval_merge(scale_coeffs(a.coeffs, b.denom), scale_coeffs(b.coeffs, a.denom), sigma);
    lemma_eval_scale(a.coeffs, b.denom, sigma);
    lemma_eval_scale(b.coeffs, a.denom, sigma);
    let ea = eval_coeffs(a.coeffs, sigma);
    let eb = eval_coeffs(b.coeffs, sigma);
    assert((a.constant * b.denom + b.constant * a.denom) * d == (a.constant * d) * b.denom + (b.constant * d) * a.denom)
        by (nonlinear_arith);
    assert((ea + a.constant * d) * b.denom == ea * b.denom + (a.constant * d) * b.denom) by (nonlinear_arith);
    assert((eb + b.constant * d) * a.denom == eb * a.denom + (b.constant * d) * a.denom) by (nonlinear_arith);
    assert(b.denom * ea == ea * b.denom) by (nonlinear_arith);
    assert(a.denom * eb == eb * a.denom) by (nonlinear_arith);
}

/// A sum of well-formed terms is well formed, with coefficients cross-multiplied.
pub proof fn lemma_lin_add_wf(a: LinModel, b: LinModel)
    requires
        lin_wf(a),
        lin_wf(b),
    ensures
        lin_wf(lin_add(a, b)),
        names_of(lin_add(a, b).coeffs).subset_of(names_of(a.coeffs).union(names_of(b.coeffs))),
        forall|x: Seq<char>| #[trigger] coeff_of(lin_add(a, b).coeffs, x)
            == coeff_of(a.coeffs, x) * b.denom + coeff_of(b.coeffs, x) * a.denom,
{
    let sa = scale_coeffs(a.coeffs, b.denom);
    let sb = scale_coeffs(b.coeffs, a.denom);
    lemma_scale_coeffs(a.coeffs, b.denom);
    lemma_scale_coeffs(b.coeffs, a.denom);
    lemma_wf_merge(sa, sb);
    assert(a.denom * b.denom > 0) by (nonlinear_arith) requires a.denom > 0, b.denom > 0;
    assert forall|x: Seq<char>| #[trigger] coeff_of(lin_add(a, b).coeffs, x)
        == coeff_of(a.coeffs, x) * b.denom + coeff_of(b.coeffs, x) * a.denom by {
        lemma_coeff_merge(sa, sb, x);
    }
}

/// The value of a scaled term is the value times `num / den`.
pub proof fn lemma_lin_scale(m: LinModel, num: int, den: int, sigma: Assignment, d: int)
    ensures
        lin_num(lin_scale(m, num, den), sigma, d) == (num * sign_of(den)) * lin_num(m, sigma, d),
{
    let k = num * sign_of(den);
    lemma_eval_scale(m.coeffs, k, sigma);
    let e = eval_coeffs(m.coeffs, sigma);
    assert(k * e + m.constant * k * d == k * (e + m.constant * d)) by (nonlinear_arith);
}

/// Scaling a well-formed term (by a nonzero denominator) keeps it well formed.
pub proof fn lemma_lin_scale_wf(m: LinModel, num: int, den: int)
    requires
        lin_wf(m),
        den != 0,
    ensures
        lin_wf(lin_scale(m, num, den)),
        names_of(lin_scale(m, num, den).coeffs).subset_of(names_of(m.coeffs)),
        forall|x: Seq<char>| #[trigger] coeff_of(lin_scale(m, num, den).coeffs, x)
            == coeff_of(m.coeffs, x) * (num * sign_of(den)),
{
    lemma_scale_coeffs(m.coeffs, num * sign_of(den));
    assert(m.denom * (den * sign_of(den)) > 0) by (nonlinear_arith)
        requires m.denom > 0, den != 0, sign_of(den) == if den < 0 { -1int } else { 1int };
}

} // verus!

verus! {

// ---------------------------------------------------------------------
// Elementary constraints and Fourier–Motzkin elimination.
// ---------------------------------------------------------------------

/// `term < 0` when the flag is set, `term <= 0` otherwise.
pub open spec fn elem_holds(e: (LinModel, bool), sigma: Assignment, d: int) -> bool {
    if e.1 { lin_num(e.0, sigma, d) < 0 } else { lin_num(e.0, sigma, d) <= 0 }
}

pub open spec fn elems_hold(es: Seq<(LinModel, bool)>, sigma: Assignment, d: int) -> bool {
    forall|i: int| 0 <= i < es.len() ==> #[trigger] elem_holds(es[i], sigma, d)
}

/// The elementary constraints have a rational solution.
pub open spec fn elems_satisfiable(es: Seq<(LinModel, bool)>) -> bool {
    exists|sigma: Assignment, d: int| d > 0 && elems_hold(es, sigma, d)
}

/// The constraint that eliminates `v` between an upper bound `u` (positive
/// coefficient of `v`) and a lower bound `l` (negative coefficient):
/// `-kl * u + ku * l`, strict when either is.
pub open spec fn combine_bounds(u: (LinModel, bool), l: (LinModel, bool), v: Seq<char>) -> (LinModel, bool) {
    let ku = coeff_of(u.0.coeffs, v);
    let kl = coeff_of(l.0.coeffs, v);
    (lin_add(lin_scale(u.0, -kl, 1), lin_scale(l.0, ku, 1)), u.1 || l.1)
}

pub proof fn lemma_in_names_nonzero(s: Seq<(Seq<char>, int)>, n: Seq<char>)
    requires
        coeffs_wf(s),
        names_of(s).contains(n),
    ensures
        coeff_of(s, n) != 0,
{
    let j = choose|j: int| 0 <= j < s.len() && s[j].0 == n;
    lemma_find_name_unique(s, n, j);
}

/// Eliminating `v` between two bounds: the result holds wherever both do,
/// no longer mentions `v`, and mentions no name neither bound did.
pub proof fn lemma_combine_bounds(u: (LinModel, bool), l: (LinModel, bool), v: Seq<char>)
    requires
        lin_wf(u.0),
        lin_wf(l.0),
        coeff_of(u.0.coeffs, v) > 0,
        coeff_of(l.0.coeffs, v) < 0,
        u.0.denom == 1,
        l.0.denom == 1,
    ensures
        lin_wf(combine_bounds(u, l, v).0),
        combine_bounds(u, l, v).0.denom == 1,
        !names_of(combine_bounds(u, l, v).0.coeffs).contains(v),
        names_of(combine_bounds(u, l, v).0.coeffs).subset_of(names_of(u.0.coeffs).union(names_of(l.0.coeffs))),
        forall|sigma: Assignment, d: int| #![trigger elem_holds(combine_bounds(u, l, v), sigma, d)]
            elem_holds(u, sigma, d) && elem_holds(l, sigma, d) ==> elem_holds(combine_bounds(u, l, v), sigma, d),
{
    let ku = coeff_of(u.0.coeffs, v);
    let kl = coeff_of(l.0.coeffs, v);
    let su = lin_scale(u.0, -kl, 1);
    let sl = lin_scale(l.0, ku, 1);
    let c = lin_add(su, sl);
    assert(sign_of(1) == 1);
    lemma_lin_scale_wf(u.0, -kl, 1);
    lemma_lin_scale_wf(l.0, ku, 1);
    lemma_lin_add_wf(su, sl);
    assert(su.denom == u.0.denom * (1 * 1));
    assert(sl.denom == l.0.denom * (1 * 1));
    assert(coeff_of(su.coeffs, v) == ku * (-kl * 1));
    assert(coeff_of(sl.coeffs, v) == kl * (ku * 1));
    assert(coeff_of(c.coeffs, v) == coeff_of(su.coeffs, v) * sl.denom + coeff_of(sl.coeffs, v) * su.denom);
    assert(su.denom == 1);
    assert(sl.denom == 1);
    assert(c.denom == 1);
    assert(coeff_of(c.coeffs, v) == 0) by (nonlinear_arith)
        requires
            coeff_of(c.coeffs, v) == coeff_of(su.coeffs, v) * 1 + coeff_of(sl.coeffs, v) * 1,
            coeff_of(su.coeffs, v) == ku * (-kl * 1),
            coeff_of(sl.coeffs, v) == kl * (ku * 1);
    if names_of(c.coeffs).contains(v) {
        lemma_in_names_nonzero(c.coeffs, v);
    }
    assert forall|sigma: Assignment, d: int| #![trigger elem_holds(combine_bounds(u, l, v), sigma, d)]
        elem_holds(u, sigma, d) && elem_holds(l, sigma, d) implies elem_holds(combine_bounds(u, l, v), sigma, d) by {
        lemma_lin_scale(u.0, -kl, 1, sigma, d);
        lemma_lin_scale(l.0, ku, 1, sigma, d);
        lemma_lin_add(su, sl, sigma, d);
        let nu = lin_num(u.0, sigma, d);
        let nl = lin_num(l.0, sigma, d);
        let a = (-kl * 1) * nu;
        let b = (ku * 1) * nl;
        assert(lin_num(c, sigma, d) == a * sl.denom + b * su.denom);
        assert(a <= 0 && (u.1 ==> a < 0)) by (nonlinear_arith)
            requires a == (-kl * 1) * nu, kl < 0, nu <= 0, u.1 ==> nu < 0;
        assert(b <= 0 && (l.1 ==> b < 0)) by (nonlinear_arith)
            requires b == (ku * 1) * nl, ku > 0, nl <= 0, l.1 ==> nl < 0;
        assert(a * sl.denom + b * su.denom <= 0 && (u.1 || l.1 ==> a * sl.denom + b * su.denom < 0))
            by (nonlinear_arith)
            requires a <= 0, b <= 0, u.1 ==> a < 0, l.1 ==> b < 0, sl.denom > 0, su.denom > 0;
    }
}

} // verus!

verus! {

/// The value of the variable `n` is `sigma(n)`.
pub proof fn lemma_lin_var(n: Seq<char>, sigma: Assignment, d: int)
    ensures
        lin_num(lin_var(n), sigma, d) == sigma(n),
        lin_wf(lin_var(n)),
{
    let s = seq![(n, 1int)];
    assert(s.drop_last() =~= Seq::<(Seq<char>, int)>::empty());
    assert(eval_coeffs(s.drop_last(), sigma) == 0);
    assert(s.last() == (n, 1int));
    assert(eval_coeffs(s, sigma) == sigma(n));
    let c = lin_var(n).constant;
    assert(c * d == 0) by (nonlinear_arith) requires c == 0;
}

} // verus!
