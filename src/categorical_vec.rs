use crate::model::{scaled, weight_in};
use crate::weight::Weight;
use crate::{product_pairs, Categorical};
use crate::model::joint;
use vstd::prelude::*;

verus! {

/// A distribution that keeps its entries as given: equal categories are not
/// merged, and iteration yields the entries in the order they were built.
///
/// `probability_of` sums the weights of all entries of the category and is
/// the additive identity for a category that is absent.
pub struct CategoricalVec<T, P> {
    categories: Vec<T>,
    probabilities: Vec<P>,
}

impl<T, P> CategoricalVec<T, P> {
    pub closed spec fn entries(&self) -> Seq<(T, P)> {
        Seq::new(self.categories@.len(), |i: int| (self.categories@[i as int], self.probabilities@[i as int]))
    }

    pub closed spec fn consistent(&self) -> bool {
        self.categories@.len() == self.probabilities@.len()
    }
}

impl<T: Copy + PartialEq, P: Weight> CategoricalVec<T, P> {
    /// Combines two distributions, assumed independent: each entry of `c1`
    /// (outer) with each entry of `other` (inner) gives the category
    /// `f(a, b)` with the product of the weights. Entries are kept as they
    /// come, equal categories included.
    pub fn combined<T1: Copy, C1: Categorical<T1, P>, T2: Copy, C2: Categorical<T2, P>, F: Fn(T1, T2) -> T>(
        c1: &C1,
        other: &C2,
        f: F,
    ) -> (r: Self)
        requires
            Self::category_ok(),
            c1.wf(),
            other.wf(),
            forall|a: T1, b: T2| f.requires((a, b)),
        ensures
            r.wf(),
            exists|sa: Seq<(T1, P)>, sb: Seq<(T2, P)>|
                c1.lists(sa) && other.lists(sb) && joint(sa, sb, f, r.entries()),
    {
        Self::from_iter(product_pairs(c1, other, f))
    }
}

impl<T: Copy + PartialEq, P: Weight> Categorical<T, P> for CategoricalVec<T, P> {
    open spec fn category_ok() -> bool {
        vstd::laws_eq::obeys_concrete_eq::<T>()
    }

    open spec fn wf(&self) -> bool {
        self.consistent() && Self::category_ok()
    }

    open spec fn built_from(&self, s: Seq<(T, P)>) -> bool {
        self.entries() == s
    }

    open spec fn lists(&self, s: Seq<(T, P)>) -> bool {
        self.entries() == s
    }

    open spec fn can_query(&self, x: T) -> bool {
        true
    }

    open spec fn weight_of(&self, x: T) -> P {
        weight_in(self.entries(), x)
    }

    open spec fn is_scaled(&self, from: &Self, c: P) -> bool {
        self.entries() == scaled(from.entries(), c)
    }




    fn from_iter(pairs: Vec<(T, P)>) -> (r: Self) {
        let mut categories: Vec<T> = Vec::new();
        let mut probabilities: Vec<P> = Vec::new();
        let mut i: usize = 0;
        while i < pairs.len()
            invariant
                i <= pairs.len(),
                categories@.len() == i,
                probabilities@.len() == i,
                forall|k: int|
                    0 <= k < i ==> categories@[k] == pairs@[k].0 && probabilities@[k] == pairs@[k].1,
            decreases pairs.len() - i,
        {
            categories.push(pairs[i].0);
            probabilities.push(pairs[i].1);
            i = i + 1;
        }
        let r = CategoricalVec { categories, probabilities };
        assert(r.entries() =~= pairs@);
        r
    }

    fn iter(&self) -> (r: Vec<(T, P)>) {
        let mut out: Vec<(T, P)> = Vec::new();
        let mut i: usize = 0;
        while i < self.categories.len()
            invariant
                self.consistent(),
                i <= self.categories.len(),
                out@ == self.entries().subrange(0, i as int),
            decreases self.categories.len() - i,
        {
            out.push((self.categories[i], self.probabilities[i]));
            i = i + 1;
            assert(out@ =~= self.entries().subrange(0, i as int));
        }
        assert(out@ =~= self.entries());
        out
    }

    fn into_iter(self) -> (r: Vec<(T, P)>) {
        self.iter()
    }

    fn probability_of(&self, x: &T) -> (r: P) {
        proof {
            reveal(vstd::laws_eq::obeys_concrete_eq);
        }
        let mut acc = P::zero();
        let mut i: usize = 0;
        while i < self.categories.len()
            invariant
                self.consistent(),
                Self::category_ok(),
                i <= self.categories.len(),
                acc == weight_in(self.entries().subrange(0, i as int), *x),
            decreases self.categories.len() - i,
        {
            assert(self.entries().subrange(0, i + 1).drop_last() =~= self.entries().subrange(0, i as int));
            proof {
                reveal(vstd::laws_eq::obeys_concrete_eq);
            }
            let same = self.categories[i].eq(x);
            assert(self.entries().subrange(0, i + 1).last() == (self.categories@[i as int], self.probabilities@[i as int]));
            assert(same == (self.categories@[i as int] == *x));
            if same {
                acc = acc.plus(self.probabilities[i]);
            }
            i = i + 1;
        }
        assert(self.entries().subrange(0, i as int) =~= self.entries());
        acc
    }

    fn scale_in_place(&mut self, c: P) {
        let ghost start = self.entries();
        let mut i: usize = 0;
        while i < self.probabilities.len()
            invariant
                self.consistent(),
                Self::category_ok(),
                self.categories@ == old(self).categories@,
                self.probabilities@.len() == old(self).probabilities@.len(),
                i <= self.probabilities.len(),
                forall|k: int|
                    0 <= k < i ==> self.probabilities@[k] == P::mul_spec(old(self).probabilities@[k], c),
                forall|k: int|
                    i <= k < self.probabilities@.len() ==> self.probabilities@[k] == old(self).probabilities@[k],
            decreases self.probabilities.len() - i,
        {
            let w = self.probabilities[i].times(c);
            self.probabilities.set(i, w);
            i = i + 1;
        }
        assert(self.entries() =~= scaled(old(self).entries(), c));
    }
}

} // verus!
