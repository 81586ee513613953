use crate::model::{
    distinct_categories, enumerates, joint, lists_map, merged, scaled, scaled_map, total, unit_weights,
    weight_in,
};
use crate::weight::Weight;
use vstd::arithmetic::div_mod::{lemma_fundamental_div_mod, lemma_mod_bound};
use vstd::prelude::*;

verus! {

/// Whether `P` divides exactly: one has a reciprocal, and every value that
/// has a reciprocal gives one when multiplied by it (true of the rationals,
/// not of integers that round).
pub open spec fn exact_division<P: Weight>() -> bool {
    &&& P::div_ok(P::one_spec(), P::one_spec())
    &&& forall|t: P|
        P::div_ok(P::one_spec(), t) ==> #[trigger] P::mul_spec(t, P::div_spec(P::one_spec(), t))
            == P::one_spec()
}

/// The reciprocal of the total of `s`: the factor normalization multiplies by.
pub open spec fn normalizer<T, P: Weight>(s: Seq<(T, P)>) -> P {
    P::div_spec(P::one_spec(), total(s))
}

pub proof fn lemma_mul_distributes_left<P: Weight>(a: P, x: P, y: P)
    ensures
        P::mul_spec(a, P::add_spec(x, y)) == P::add_spec(P::mul_spec(a, x), P::mul_spec(a, y)),
{
    P::lemma_mul_commutes(a, P::add_spec(x, y));
    P::lemma_mul_distributes(x, y, a);
    P::lemma_mul_commutes(x, a);
    P::lemma_mul_commutes(y, a);
}

/// Scaling every weight by `c` scales the total by `c`.
pub proof fn lemma_total_scaled<T, P: Weight>(s: Seq<(T, P)>, c: P)
    ensures
        total(scaled(s, c)) == P::mul_spec(total(s), c),
    decreases s.len(),
{
    if s.len() == 0 {
        P::lemma_mul_zero(c);
    } else {
        assert(scaled(s, c).drop_last() =~= scaled(s.drop_last(), c));
        lemma_total_scaled(s.drop_last(), c);
        P::lemma_mul_distributes(total(s.drop_last()), s.last().1, c);
    }
}

/// After normalization the weights sum to one, for a weight type that
/// divides exactly and a total that has a reciprocal.
pub proof fn lemma_normalized_total_is_one<T, P: Weight>(s: Seq<(T, P)>)
    requires
        exact_division::<P>(),
        P::div_ok(P::one_spec(), total(s)),
    ensures
        total(scaled(s, normalizer(s))) == P::one_spec(),
{
    lemma_total_scaled(s, normalizer(s));
}

/// Normalizing a normalized distribution succeeds and changes nothing.
pub proof fn lemma_normalize_idempotent<T, P: Weight>(s: Seq<(T, P)>)
    requires
        exact_division::<P>(),
        P::div_ok(P::one_spec(), total(s)),
    ensures
        P::div_ok(P::one_spec(), total(scaled(s, normalizer(s)))),
        scaled(scaled(s, normalizer(s)), normalizer(scaled(s, normalizer(s)))) == scaled(s, normalizer(s)),
{
    let t = scaled(s, normalizer(s));
    lemma_normalized_total_is_one(s);
    let one = P::one_spec();
    assert(P::mul_spec(one, P::div_spec(one, one)) == one);
    P::lemma_mul_one(P::div_spec(one, one));
    assert forall|i: int| 0 <= i < t.len() implies #[trigger] scaled(t, normalizer(t))[i] == t[i] by {
        P::lemma_mul_one(t[i].1);
    }
    assert(scaled(t, normalizer(t)) =~= t);
}

/// Taking out one entry takes its weight out of the total.
pub proof fn lemma_total_remove<T, P: Weight>(s: Seq<(T, P)>, idx: int)
    requires
        0 <= idx < s.len(),
    ensures
        total(s) == P::add_spec(total(s.remove(idx)), s[idx].1),
    decreases s.len(),
{
    if idx == s.len() - 1 {
        assert(s.remove(idx) =~= s.drop_last());
    } else {
        let d = s.drop_last();
        lemma_total_remove(d, idx);
        assert(s.remove(idx).drop_last() =~= d.remove(idx));
        assert(s.remove(idx).last() == s.last());
        let rest = total(d.remove(idx));
        P::lemma_add_associates(rest, s[idx].1, s.last().1);
        P::lemma_add_commutes(s[idx].1, s.last().1);
        P::lemma_add_associates(rest, s.last().1, s[idx].1);
    }
}

/// Two enumerations of the same map have the same total, whatever their
/// order.
pub proof fn lemma_enumerations_same_total<T, P: Weight>(m: Map<T, P>, s1: Seq<(T, P)>, s2: Seq<(T, P)>)
    requires
        enumerates(m, s1),
        enumerates(m, s2),
    ensures
        total(s1) == total(s2),
    decreases s1.len(),
{
    if s1.len() == 0 {
        if s2.len() > 0 {
            assert(m.contains_key(s2[0].0));
        }
    } else {
        let k = s1.last().0;
        let n1 = s1.len() - 1;
        assert(s1[n1] == s1.last());
        assert(m.contains_key(k));
        let idx = choose|i: int| 0 <= i < s2.len() && s2[i].0 == k;
        let m2 = m.remove(k);
        let d1 = s1.drop_last();
        let d2 = s2.remove(idx);
        assert forall|i: int, j: int| 0 <= i < j < d1.len() implies d1[i].0 != d1[j].0 by {
            assert(d1[i] == s1[i] && d1[j] == s1[j]);
        }
        assert forall|i: int| #![trigger d1[i]] 0 <= i < d1.len() implies m2.contains_key(d1[i].0)
            && m2[d1[i].0] == d1[i].1 by {
            assert(d1[i] == s1[i]);
            assert(s1[i].0 != s1[n1].0);
        }
        assert forall|k2: T| #[trigger] m2.contains_key(k2) implies exists|i: int|
            0 <= i < d1.len() && d1[i].0 == k2 by {
            assert(m.contains_key(k2));
            let i = choose|i: int| 0 <= i < s1.len() && s1[i].0 == k2;
            assert(i != n1);
            assert(d1[i] == s1[i]);
        }
        assert forall|i: int, j: int| 0 <= i < j < d2.len() implies d2[i].0 != d2[j].0 by {
            let i2 = if i < idx { i } else { i + 1 };
            let j2 = if j < idx { j } else { j + 1 };
            assert(d2[i] == s2[i2] && d2[j] == s2[j2]);
        }
        assert forall|i: int| #![trigger d2[i]] 0 <= i < d2.len() implies m2.contains_key(d2[i].0)
            && m2[d2[i].0] == d2[i].1 by {
            let i2 = if i < idx { i } else { i + 1 };
            assert(d2[i] == s2[i2]);
            assert(s2[i2].0 != s2[idx].0);
        }
        assert forall|k2: T| #[trigger] m2.contains_key(k2) implies exists|i: int|
            0 <= i < d2.len() && d2[i].0 == k2 by {
            assert(m.contains_key(k2));
            let i2 = choose|i: int| 0 <= i < s2.len() && s2[i].0 == k2;
            assert(i2 != idx);
            let i = if i2 < idx { i2 } else { i2 - 1 };
            assert(d2[i] == s2[i2]);
        }
        lemma_enumerations_same_total(m2, d1, d2);
        lemma_total_remove(s2, idx);
        assert(s2[idx].1 == m[k]);
    }
}

/// Scaling a map scales each of its enumerations.
pub proof fn lemma_scaled_enumerates<T, P: Weight>(m: Map<T, P>, from: Map<T, P>, s: Seq<(T, P)>, c: P)
    requires
        enumerates(from, s),
        scaled_map(m, from, c),
    ensures
        enumerates(m, scaled(s, c)),
{
    let t = scaled(s, c);
    assert forall|i: int| #![trigger t[i]] 0 <= i < t.len() implies m.contains_key(t[i].0) && m[t[i].0]
        == t[i].1 by {
        assert(from.contains_key(s[i].0));
    }
    assert forall|k: T| #[trigger] m.contains_key(k) implies exists|i: int| 0 <= i < t.len() && t[i].0 == k by {
        assert(from.contains_key(k));
        let i = choose|i: int| 0 <= i < s.len() && s[i].0 == k;
        assert(t[i].0 == k);
    }
}

/// For a merging backend: after normalization, any listing of the entries
/// sums to one, for a weight type that divides exactly and a total that has
/// a reciprocal.
pub proof fn lemma_normalized_map_total_is_one<T, P: Weight>(
    before: Map<T, P>,
    after: Map<T, P>,
    s: Seq<(T, P)>,
    s2: Seq<(T, P)>,
)
    requires
        exact_division::<P>(),
        lists_map(before, s),
        P::div_ok(P::one_spec(), total(s)),
        scaled_map(after, before, normalizer(s)),
        lists_map(after, s2),
    ensures
        total(s2) == P::one_spec(),
{
    lemma_scaled_enumerates(after, before, s, normalizer(s));
    lemma_enumerations_same_total(after, scaled(s, normalizer(s)), s2);
    lemma_normalized_total_is_one(s);
}

/// Uniform construction gives weights that sum to one, for a weight type
/// that divides exactly and a number of categories that has a reciprocal.
pub proof fn lemma_uniform_total_is_one<T, P: Weight>(cats: Seq<T>)
    requires
        exact_division::<P>(),
        P::div_ok(P::one_spec(), total(unit_weights::<T, P>(cats))),
    ensures
        total(scaled(unit_weights::<T, P>(cats), normalizer(unit_weights::<T, P>(cats))))
            == P::one_spec(),
{
    lemma_normalized_total_is_one(unit_weights::<T, P>(cats));
}

/// Building a merging distribution from a category given twice, with
/// weights `p1` and `p2`, gives that category the weight `p1 + p2`.
pub proof fn lemma_duplicate_category_adds<T, P: Weight>(x: T, p1: P, p2: P)
    ensures
        merged(seq![(x, p1), (x, p2)]).contains_key(x),
        merged(seq![(x, p1), (x, p2)])[x] == P::add_spec(p1, p2),
{
    let s = seq![(x, p1), (x, p2)];
    let s1 = seq![(x, p1)];
    assert(s.drop_last() =~= s1);
    assert(s1.drop_last() =~= Seq::<(T, P)>::empty());
    assert(merged(s1.drop_last()) == Map::<T, P>::empty());
    assert(merged(s1) == Map::<T, P>::empty().insert(x, p1));
    assert(merged(s) == merged(s1).insert(x, P::add_spec(p1, p2)));
}

pub proof fn lemma_weight_in_absent<T, P: Weight>(s: Seq<(T, P)>, x: T)
    requires
        forall|m: int| 0 <= m < s.len() ==> s[m].0 != x,
    ensures
        weight_in(s, x) == P::zero_spec(),
    decreases s.len(),
{
    if s.len() > 0 {
        lemma_weight_in_absent(s.drop_last(), x);
    }
}

pub proof fn lemma_weight_in_unique<T, P: Weight>(s: Seq<(T, P)>, k: int)
    requires
        0 <= k < s.len(),
        forall|m: int| 0 <= m < s.len() && m != k ==> s[m].0 != s[k].0,
    ensures
        weight_in(s, s[k].0) == s[k].1,
    decreases s.len(),
{
    let x = s[k].0;
    if k == s.len() - 1 {
        lemma_weight_in_absent(s.drop_last(), x);
        P::lemma_add_zero(s[k].1);
    } else {
        lemma_weight_in_unique(s.drop_last(), k);
    }
}

/// Combining under a function that is one-to-one on pairs gives one entry
/// per pair, and the weight of the category of a pair is the product of the
/// weights of its two parts (the inputs listing each category once).
pub proof fn lemma_injective_combination<T1, T2, T, P: Weight, F: Fn(T1, T2) -> T>(
    sa: Seq<(T1, P)>,
    sb: Seq<(T2, P)>,
    f: F,
    out: Seq<(T, P)>,
    i: int,
    j: int,
)
    requires
        distinct_categories(sa),
        distinct_categories(sb),
        joint(sa, sb, f, out),
        forall|a1: T1, b1: T2, a2: T1, b2: T2, r: T|
            f.ensures((a1, b1), r) && f.ensures((a2, b2), r) ==> a1 == a2 && b1 == b2,
        0 <= i < sa.len(),
        0 <= j < sb.len(),
    ensures
        out.len() == sa.len() * sb.len(),
        weight_in(out, out[i * sb.len() + j].0) == P::mul_spec(sa[i].1, sb[j].1),
{
    let n = sb.len() as int;
    let k = i * n + j;
    crate::model::lemma_row_index(i + 1, 0, i, j, n);
    assert((i + 1) * n <= sa.len() * n) by (nonlinear_arith)
        requires
            i + 1 <= sa.len(),
            0 <= n,
    ;
    assert forall|m: int| 0 <= m < out.len() && m != k implies out[m].0 != out[k].0 by {
        lemma_fundamental_div_mod(m, n);
        lemma_mod_bound(m, n);
        let i2 = m / n;
        let j2 = m % n;
        assert(m == i2 * n + j2) by (nonlinear_arith)
            requires
                m == n * (m / n) + m % n,
                i2 == m / n,
                j2 == m % n,
        ;
        assert(0 <= i2 < sa.len()) by (nonlinear_arith)
            requires
                0 <= m < sa.len() * n,
                m == i2 * n + j2,
                0 <= j2 < n,
        ;
        assert(out[i2 * n + j2] == out[m]);
        if out[m].0 == out[k].0 {
            assert(sa[i2].0 == sa[i].0 && sb[j2].0 == sb[j].0);
            assert(i2 == i && j2 == j);
        }
    }
    lemma_weight_in_unique(out, k);
}

/// Combining the single entry `((), 1)` with `sb` under a function that
/// returns its second argument gives `sb` back.
pub proof fn lemma_unit_combination<T, P: Weight, F: Fn((), T) -> T>(
    sb: Seq<(T, P)>,
    f: F,
    out: Seq<(T, P)>,
)
    requires
        joint(seq![((), P::one_spec())], sb, f, out),
        forall|u: (), b: T, r: T| f.ensures((u, b), r) ==> r == b,
    ensures
        out == sb,
{
    let sa = seq![((), P::one_spec())];
    assert(out.len() == sb.len()) by {
        assert(1 * sb.len() == sb.len());
    }
    assert forall|j: int| 0 <= j < sb.len() implies out[j] == sb[j] by {
        let k = 0 * sb.len() + j;
        assert(k == j);
        assert(f.ensures((sa[0].0, sb[j].0), out[k].0));
        assert(out[k].1 == P::mul_spec(sa[0].1, sb[j].1));
        P::lemma_mul_one(sb[j].1);
        assert(out[j].0 == sb[j].0);
        assert(out[j].1 == sb[j].1);
    }
    assert(out =~= sb);
}

pub proof fn lemma_merged_single_category<T, P: Weight>(s: Seq<(T, P)>, c: T)
    requires
        s.len() > 0,
        forall|m: int| 0 <= m < s.len() ==> s[m].0 == c,
    ensures
        merged(s) == Map::<T, P>::empty().insert(c, total(s)),
    decreases s.len(),
{
    assert(s.last().0 == c);
    if s.len() == 1 {
        assert(s.drop_last() =~= Seq::<(T, P)>::empty());
        assert(merged(s.drop_last()) == Map::<T, P>::empty());
        assert(total(s.drop_last()) == P::zero_spec());
        P::lemma_add_zero(s[0].1);
        assert(merged(s) == Map::<T, P>::empty().insert(c, s.last().1));
    } else {
        let d = s.drop_last();
        assert forall|m: int| 0 <= m < d.len() implies d[m].0 == c by {
            assert(d[m] == s[m]);
        }
        lemma_merged_single_category(d, c);
        assert(merged(d).contains_key(c));
        assert(merged(s) == merged(d).insert(c, P::add_spec(merged(d)[c], s.last().1)));
        assert(merged(s) =~= Map::<T, P>::empty().insert(c, total(s)));
    }
}

pub proof fn lemma_row_total<T1, T2, T, P: Weight, F: Fn(T1, T2) -> T>(
    sa: Seq<(T1, P)>,
    sb: Seq<(T2, P)>,
    f: F,
    out: Seq<(T, P)>,
    i: int,
    j: int,
)
    requires
        joint(sa, sb, f, out),
        0 <= i < sa.len(),
        0 <= j <= sb.len(),
        i * sb.len() + sb.len() <= out.len(),
        total(out.subrange(0, i * sb.len())) == P::mul_spec(total(sa.subrange(0, i)), total(sb)),
    ensures
        total(out.subrange(0, i * sb.len() + j)) == P::add_spec(
            P::mul_spec(total(sa.subrange(0, i)), total(sb)),
            P::mul_spec(sa[i].1, total(sb.subrange(0, j))),
        ),
    decreases j,
{
    let n = sb.len() as int;
    let x = P::mul_spec(total(sa.subrange(0, i)), total(sb));
    if j == 0 {
        assert(sb.subrange(0, 0) =~= Seq::<(T2, P)>::empty());
        P::lemma_mul_zero(sa[i].1);
        P::lemma_add_zero(x);
        assert(i * n + 0 == i * n);
    } else {
        lemma_row_total(sa, sb, f, out, i, j - 1);
        crate::model::lemma_row_index(i, j, i, j - 1, n);
        assert(out.subrange(0, i * n + j).drop_last() =~= out.subrange(0, i * n + j - 1));
        assert(out.subrange(0, i * n + j).last() == out[i * n + (j - 1)]);
        assert(sb.subrange(0, j).drop_last() =~= sb.subrange(0, j - 1));
        let tj = total(sb.subrange(0, j - 1));
        P::lemma_add_associates(x, P::mul_spec(sa[i].1, tj), P::mul_spec(sa[i].1, sb[j - 1].1));
        lemma_mul_distributes_left(sa[i].1, tj, sb[j - 1].1);
    }
}

pub proof fn lemma_rows_total<T1, T2, T, P: Weight, F: Fn(T1, T2) -> T>(
    sa: Seq<(T1, P)>,
    sb: Seq<(T2, P)>,
    f: F,
    out: Seq<(T, P)>,
    i: int,
)
    requires
        joint(sa, sb, f, out),
        0 <= i <= sa.len(),
    ensures
        i * sb.len() <= out.len(),
        total(out.subrange(0, i * sb.len())) == P::mul_spec(total(sa.subrange(0, i)), total(sb)),
    decreases i,
{
    let n = sb.len() as int;
    assert(i * n <= sa.len() * n) by (nonlinear_arith)
        requires
            i <= sa.len(),
            0 <= n,
    ;
    if i == 0 {
        assert(out.subrange(0, 0 * n) =~= Seq::<(T, P)>::empty());
        assert(sa.subrange(0, 0) =~= Seq::<(T1, P)>::empty());
        P::lemma_mul_zero(total(sb));
    } else {
        lemma_rows_total(sa, sb, f, out, i - 1);
        assert((i - 1) * n + n == i * n) by (nonlinear_arith);
        lemma_row_total(sa, sb, f, out, i - 1, n);
        assert(sb.subrange(0, n) =~= sb);
        assert(sa.subrange(0, i).drop_last() =~= sa.subrange(0, i - 1));
        P::lemma_mul_distributes(total(sa.subrange(0, i - 1)), sa[i - 1].1, total(sb));
    }
}

/// The weights of a combination sum to the product of the two totals.
pub proof fn lemma_joint_total<T1, T2, T, P: Weight, F: Fn(T1, T2) -> T>(
    sa: Seq<(T1, P)>,
    sb: Seq<(T2, P)>,
    f: F,
    out: Seq<(T, P)>,
)
    requires
        joint(sa, sb, f, out),
    ensures
        total(out) == P::mul_spec(total(sa), total(sb)),
{
    lemma_rows_total(sa, sb, f, out, sa.len() as int);
    assert(out.subrange(0, (sa.len() * sb.len()) as int) =~= out);
    assert(sa.subrange(0, sa.len() as int) =~= sa);
}

/// Combining under a function that maps every pair to `c`, with a merging
/// backend, gives the single category `c` whose weight is the product of
/// the two totals.
pub proof fn lemma_constant_combination<T1, T2, T, P: Weight, F: Fn(T1, T2) -> T>(
    sa: Seq<(T1, P)>,
    sb: Seq<(T2, P)>,
    f: F,
    out: Seq<(T, P)>,
    c: T,
)
    requires
        joint(sa, sb, f, out),
        forall|a: T1, b: T2, r: T| f.ensures((a, b), r) ==> r == c,
        sa.len() > 0,
        sb.len() > 0,
    ensures
        merged(out) == Map::<T, P>::empty().insert(c, P::mul_spec(total(sa), total(sb))),
{
    let n = sb.len() as int;
    assert(sa.len() * n > 0) by (nonlinear_arith)
        requires
            sa.len() > 0,
            n > 0,
    ;
    assert forall|m: int| 0 <= m < out.len() implies out[m].0 == c by {
        lemma_fundamental_div_mod(m, n);
        lemma_mod_bound(m, n);
        let i2 = m / n;
        let j2 = m % n;
        assert(m == i2 * n + j2) by (nonlinear_arith)
            requires
                m == n * (m / n) + m % n,
                i2 == m / n,
                j2 == m % n,
        ;
        assert(0 <= i2 < sa.len()) by (nonlinear_arith)
            requires
                0 <= m < sa.len() * n,
                m == i2 * n + j2,
                0 <= j2 < n,
        ;
        assert(out[i2 * n + j2] == out[m]);
    }
    lemma_merged_single_category(out, c);
    lemma_joint_total(sa, sb, f, out);
}

} // verus!
