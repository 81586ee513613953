//! Categorical probability distributions: a finite set of categories, each
//! with a weight. Distributions can be built from pairs, normalized, queried,
//! and combined under the assumption that the two are independent.
//!
//! Three backends implement [`Categorical`]: [`CategoricalVec`] keeps entries
//! as given, [`CategoricalHash`] and [`CategoricalOrd`] merge equal categories
//! by adding their weights. Each backend has an associated `combined`, built
//! on [`product_pairs`], which walks the first distribution outer and the
//! second inner.
//!
//! Two choices are deliberate. Querying an absent category gives zero on the
//! dense backend and is ruled out by the precondition on the merging ones.
//! Normalizing a distribution whose total has no reciprocal reports
//! [`ZeroTotalWeight`] and leaves the weights untouched.
use vstd::prelude::*;

pub mod categorical_hash;
pub mod categorical_ord;
pub mod categorical_vec;
pub mod laws;
pub mod model;
pub mod weight;

pub use categorical_hash::CategoricalHash;
pub use categorical_ord::CategoricalOrd;
pub use categorical_vec::CategoricalVec;
pub use weight::Weight;

use crate::model::{joint, lemma_row_index, total, unit_weights};

verus! {

/// Returned by normalization when the total weight has no reciprocal.
#[derive(Debug, Clone, Copy, PartialEq, Eq, Structural)]
pub struct ZeroTotalWeight;

/// A categorical distribution over values of `T` with weights of type `P`.
///
/// Weights need not sum to one; `normalize_in_place` rescales them so that
/// they do.
pub trait Categorical<T: Copy, P: Weight>: Sized {
    /// Whether the category type offers what this backend needs of it.
    spec fn category_ok() -> bool;

    /// The invariant every distribution of this backend keeps.
    spec fn wf(&self) -> bool;

    /// Whether this distribution is what building from `s` gives.
    spec fn built_from(&self, s: Seq<(T, P)>) -> bool;

    /// Whether `s` is the sequence of entries that iteration yields.
    spec fn lists(&self, s: Seq<(T, P)>) -> bool;

    /// Whether `probability_of` may be asked about `x`.
    spec fn can_query(&self, x: T) -> bool;

    /// What `probability_of` answers for `x`.
    spec fn weight_of(&self, x: T) -> P;

    /// Whether this is `from` with every weight multiplied by `c`.
    spec fn is_scaled(&self, from: &Self, c: P) -> bool;




    /// Builds a distribution from (category, weight) pairs.
    fn from_iter(pairs: Vec<(T, P)>) -> (r: Self)
        requires
            Self::category_ok(),
        ensures
            r.wf(),
            r.built_from(pairs@),
    ;

    /// The (category, weight) entries.
    fn iter(&self) -> (r: Vec<(T, P)>)
        requires
            self.wf(),
        ensures
            self.lists(r@),
    ;

    /// Consumes the distribution into its (category, weight) entries.
    fn into_iter(self) -> (r: Vec<(T, P)>)
        requires
            self.wf(),
        ensures
            self.lists(r@),
    ;

    /// The weight of category `x`.
    fn probability_of(&self, x: &T) -> (r: P)
        requires
            self.wf(),
            self.can_query(*x),
        ensures
            r == self.weight_of(*x),
    ;

    /// Multiplies every weight by `c`.
    fn scale_in_place(&mut self, c: P)
        requires
            old(self).wf(),
        ensures
            final(self).wf(),
            final(self).is_scaled(old(self), c),
    ;

    /// The sum of all weights, in iteration order.
    fn total_weight(&self) -> (r: P)
        requires
            self.wf(),
        ensures
            exists|s: Seq<(T, P)>| self.lists(s) && r == total(s),
    {
        let entries = self.iter();
        let mut acc = P::zero();
        let mut i: usize = 0;
        while i < entries.len()
            invariant
                i <= entries.len(),
                acc == total(entries@.subrange(0, i as int)),
            decreases entries.len() - i,
        {
            assert(entries@.subrange(0, i + 1).drop_last() == entries@.subrange(0, i as int));
            acc = acc.plus(entries[i].1);
            i = i + 1;
        }
        assert(entries@.subrange(0, i as int) == entries@);
        acc
    }

    /// Rescales the weights so that they sum to one: each is multiplied by
    /// the reciprocal of the total. Where the total has no reciprocal, the
    /// distribution is left as it is and `ZeroTotalWeight` is returned.
    ///
    /// The total is taken in iteration order; for the merging backends every
    /// order gives the same total (`laws::lemma_enumerations_same_total`).
    fn normalize_in_place(&mut self) -> (r: Result<(), ZeroTotalWeight>)
        requires
            old(self).wf(),
        ensures
            final(self).wf(),
            exists|s: Seq<(T, P)>|
                {
                    &&& old(self).lists(s)
                    &&& (r is Ok <==> P::div_ok(P::one_spec(), total(s)))
                    &&& r is Ok ==> final(self).is_scaled(old(self), P::div_spec(P::one_spec(), total(s)))
                },
            r is Err ==> *final(self) == *old(self),
    {
        let sum = self.total_weight();
        let one = P::one();
        if one.can_divide(sum) {
            let reciprocal = one.divided_by(sum);
            self.scale_in_place(reciprocal);
            Ok(())
        } else {
            Err(ZeroTotalWeight)
        }
    }

    /// Builds a distribution that gives every category the same weight.
    /// Fails with `ZeroTotalWeight` where the number of categories has no
    /// reciprocal in `P` (no categories at all, for instance).
    fn new_uniform(cats: Vec<T>) -> (r: Result<Self, ZeroTotalWeight>)
        requires
            Self::category_ok(),
        ensures
            exists|b: Self, s: Seq<(T, P)>|
                {
                    &&& b.wf()
                    &&& b.built_from(unit_weights(cats@))
                    &&& b.lists(s)
                    &&& (r is Ok <==> P::div_ok(P::one_spec(), total(s)))
                    &&& r is Ok ==> r->Ok_0.wf() && r->Ok_0.is_scaled(
                        &b,
                        P::div_spec(P::one_spec(), total(s)),
                    )
                },
    {
        let mut pairs: Vec<(T, P)> = Vec::new();
        let mut i: usize = 0;
        while i < cats.len()
            invariant
                i <= cats.len(),
                pairs@ == unit_weights::<T, P>(cats@.subrange(0, i as int)),
            decreases cats.len() - i,
        {
            pairs.push((cats[i], P::one()));
            i = i + 1;
            assert(pairs@ =~= unit_weights::<T, P>(cats@.subrange(0, i as int)));
        }
        assert(cats@.subrange(0, i as int) == cats@);
        let mut out = Self::from_iter(pairs);
        match out.normalize_in_place() {
            Ok(()) => Ok(out),
            Err(e) => Err(e),
        }
    }
}

/// The entries of the combination of `c1` and `other` under `f`, before they
/// are built into a distribution: `c1`'s entries outer, `other`'s inner.
pub fn product_pairs<T1: Copy, C1: Categorical<T1, P>, T2: Copy, C2: Categorical<T2, P>, T, P: Weight, F: Fn(T1, T2) -> T>(
    c1: &C1,
    other: &C2,
    f: F,
) -> (out: Vec<(T, P)>)
    requires
        c1.wf(),
        other.wf(),
        forall|a: T1, b: T2| f.requires((a, b)),
    ensures
        exists|sa: Seq<(T1, P)>, sb: Seq<(T2, P)>|
            c1.lists(sa) && other.lists(sb) && joint(sa, sb, f, out@),
    {
        let a = c1.iter();
        let b = other.iter();
        let n = b.len();
        let mut out: Vec<(T, P)> = Vec::new();
        let mut i: usize = 0;
        while i < a.len()
            invariant
                i <= a.len(),
                n == b.len(),
                out.len() == i * n,
                forall|a2: T1, b2: T2| f.requires((a2, b2)),
                forall|i2: int, j2: int|
                    #![trigger out@[i2 * n + j2]]
                    0 <= i2 < i && 0 <= j2 < n ==> {
                        &&& f.ensures((a@[i2].0, b@[j2].0), out@[i2 * n + j2].0)
                        &&& out@[i2 * n + j2].1 == P::mul_spec(a@[i2].1, b@[j2].1)
                    },
            decreases a.len() - i,
        {
            let mut j: usize = 0;
            while j < n
                invariant
                    i < a.len(),
                    j <= n,
                    n == b.len(),
                    out.len() == i * n + j,
                    forall|a2: T1, b2: T2| f.requires((a2, b2)),
                    forall|i2: int, j2: int|
                        #![trigger out@[i2 * n + j2]]
                        0 <= i2 && 0 <= j2 < n && (i2 < i || (i2 == i && j2 < j)) ==> {
                            &&& f.ensures((a@[i2].0, b@[j2].0), out@[i2 * n + j2].0)
                            &&& out@[i2 * n + j2].1 == P::mul_spec(a@[i2].1, b@[j2].1)
                        },
                decreases n - j,
            {
                let t = f(a[i].0, b[j].0);
                let w = a[i].1.times(b[j].1);
                let ghost before = out@;
                out.push((t, w));
                proof {
                    assert forall|i2: int, j2: int|
                        #![trigger out@[i2 * n + j2]]
                        0 <= i2 && 0 <= j2 < n && (i2 < i || (i2 == i && j2 <= j)) implies {
                            &&& f.ensures((a@[i2].0, b@[j2].0), out@[i2 * n + j2].0)
                            &&& out@[i2 * n + j2].1 == P::mul_spec(a@[i2].1, b@[j2].1)
                        } by {
                        if i2 == i && j2 == j {
                        } else {
                            lemma_row_index(i as int, j as int, i2, j2, n as int);
                            assert(out@[i2 * n + j2] == before[i2 * n + j2]);
                        }
                    }
                }
                j = j + 1;
            }
            assert((i + 1) * n == i * n + n) by (nonlinear_arith);
            i = i + 1;
        }
        assert(joint(a@, b@, f, out@));
        out
}


/// Builds the distribution with the single category `()` of weight one.
pub fn unit_categorical<C: Categorical<(), P>, P: Weight>() -> (r: C)
    requires
        C::category_ok(),
    ensures
        r.wf(),
        r.built_from(seq![((), P::one_spec())]),
{
    let mut pairs: Vec<((), P)> = Vec::new();
    pairs.push(((), P::one()));
    assert(pairs@ =~= seq![((), P::one_spec())]);
    C::from_iter(pairs)
}

} // verus!
