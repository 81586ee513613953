use crate::weight::Weight;
use vstd::prelude::*;

verus! {

/// The sum of the weights of a sequence of entries, folded from the left
/// starting at the additive identity.
pub open spec fn total<T, P: Weight>(s: Seq<(T, P)>) -> P
    decreases s.len(),
{
    if s.len() == 0 {
        P::zero_spec()
    } else {
        P::add_spec(total(s.drop_last()), s.last().1)
    }
}

/// The sum of the weights of the entries whose category is `x`.
pub open spec fn weight_in<T, P: Weight>(s: Seq<(T, P)>, x: T) -> P
    decreases s.len(),
{
    if s.len() == 0 {
        P::zero_spec()
    } else if s.last().0 == x {
        P::add_spec(weight_in(s.drop_last(), x), s.last().1)
    } else {
        weight_in(s.drop_last(), x)
    }
}

/// The map obtained by folding entries into a keyed structure: the first
/// occurrence of a category inserts its weight, each later one adds to it.
pub open spec fn merged<T, P: Weight>(s: Seq<(T, P)>) -> Map<T, P>
    decreases s.len(),
{
    if s.len() == 0 {
        Map::empty()
    } else {
        let m = merged(s.drop_last());
        let (t, p) = s.last();
        if m.contains_key(t) {
            m.insert(t, P::add_spec(m[t], p))
        } else {
            m.insert(t, p)
        }
    }
}

/// Every weight multiplied by `c`, categories and order kept.
pub open spec fn scaled<T, P: Weight>(s: Seq<(T, P)>, c: P) -> Seq<(T, P)> {
    s.map_values(|e: (T, P)| (e.0, P::mul_spec(e.1, c)))
}

/// Each category paired with the multiplicative identity.
pub open spec fn unit_weights<T, P: Weight>(cats: Seq<T>) -> Seq<(T, P)> {
    cats.map_values(|t: T| (t, P::one_spec()))
}

/// Whether `s` lists the entries of `m`, each exactly once, in some order.
pub open spec fn lists_map<T, P>(m: Map<T, P>, s: Seq<(T, P)>) -> bool {
    &&& s.len() == m.dom().len()
    &&& enumerates(m, s)
}

/// Whether every entry of `s` is an entry of `m`, no category occurs twice
/// in `s`, and every category of `m` occurs in `s`.
pub open spec fn enumerates<T, P>(m: Map<T, P>, s: Seq<(T, P)>) -> bool {
    &&& forall|i: int, j: int| 0 <= i < j < s.len() ==> s[i].0 != s[j].0
    &&& forall|i: int| #![trigger s[i]] 0 <= i < s.len() ==> m.contains_key(s[i].0) && m[s[i].0] == s[i].1
    &&& forall|k: T| #[trigger] m.contains_key(k) ==> exists|i: int| 0 <= i < s.len() && s[i].0 == k
}

/// Whether `m` is `from` with every weight multiplied by `c`.
pub open spec fn scaled_map<T, P: Weight>(m: Map<T, P>, from: Map<T, P>, c: P) -> bool {
    &&& m.dom() == from.dom()
    &&& forall|k: T| #[trigger] m.contains_key(k) ==> m[k] == P::mul_spec(from[k], c)
}

/// Whether no category occurs twice in `s`.
pub open spec fn distinct_categories<T, P>(s: Seq<(T, P)>) -> bool {
    forall|i: int, j: int| 0 <= i < s.len() && 0 <= j < s.len() && i != j ==> s[i].0 != s[j].0
}

/// Whether `out` is the product of `a` and `b` under `f`: for each entry of `a`
/// (outer) and each entry of `b` (inner), in that order, the category that `f`
/// gives for the pair and the product of the two weights.
pub open spec fn joint<T1, T2, T, P: Weight, F: Fn(T1, T2) -> T>(
    a: Seq<(T1, P)>,
    b: Seq<(T2, P)>,
    f: F,
    out: Seq<(T, P)>,
) -> bool {
    &&& out.len() == a.len() * b.len()
    &&& forall|i: int, j: int|
        #![trigger out[i * b.len() + j]]
        0 <= i < a.len() && 0 <= j < b.len() ==> {
            &&& f.ensures((a[i].0, b[j].0), out[i * b.len() + j].0)
            &&& out[i * b.len() + j].1 == P::mul_spec(a[i].1, b[j].1)
        }
}

pub proof fn lemma_row_index(i: int, j: int, i2: int, j2: int, n: int)
    requires
        0 <= i2,
        0 <= j2 < n,
        0 <= j,
        i2 < i || (i2 == i && j2 < j),
    ensures
        i2 * n + j2 < i * n + j,
        0 <= i2 * n + j2,
{
    if i2 < i {
        assert(i2 * n + j2 < (i2 + 1) * n) by (nonlinear_arith)
            requires
                0 <= j2 < n,
        ;
        assert((i2 + 1) * n <= i * n) by (nonlinear_arith)
            requires
                i2 + 1 <= i,
                0 <= n,
        ;
    }
    assert(0 <= i2 * n) by (nonlinear_arith)
        requires
            0 <= i2,
            0 <= n,
    ;
}

} // verus!
