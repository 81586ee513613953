use crate::model::{joint, lists_map, merged, scaled_map};
use crate::weight::Weight;
use crate::{product_pairs, Categorical};
use std::collections::HashMap;
use std::hash::Hash;
use vstd::prelude::*;
use vstd::std_specs::hash::obeys_key_model;
use vstd::std_specs::iter::IteratorSpec;

verus! {

/// A distribution that merges equal categories by adding their weights,
/// keyed by hashing. Iteration order is unspecified.
pub struct CategoricalHash<T, P>(HashMap<T, P>);

impl<T, P> View for CategoricalHash<T, P> {
    type V = Map<T, P>;

    closed spec fn view(&self) -> Map<T, P> {
        self.0@
    }
}

impl<T: Copy + Eq + Hash, P: Weight> CategoricalHash<T, P> {
    /// Combines two distributions, assumed independent: each entry of `c1`
    /// (outer) with each entry of `other` (inner) gives the category
    /// `f(a, b)` with the product of the weights; equal categories are merged.
    pub fn combined<T1: Copy, C1: Categorical<T1, P>, T2: Copy, C2: Categorical<T2, P>, F: Fn(T1, T2) -> T>(
        c1: &C1,
        other: &C2,
        f: F,
    ) -> (r: Self)
        requires
            Self::category_ok(),
            c1.wf(),
            other.wf(),
            forall|a: T1, b: T2| f.requires((a, b)),
        ensures
            r.wf(),
            exists|sa: Seq<(T1, P)>, sb: Seq<(T2, P)>, out: Seq<(T, P)>|
                {
                    &&& c1.lists(sa)
                    &&& other.lists(sb)
                    &&& joint(sa, sb, f, out)
                    &&& r@ == merged(out)
                },
    {
        Self::from_iter(product_pairs(c1, other, f))
    }
}

impl<T: Copy + Eq + Hash, P: Weight> Categorical<T, P> for CategoricalHash<T, P> {
    open spec fn category_ok() -> bool {
        obeys_key_model::<T>()
    }

    open spec fn wf(&self) -> bool {
        Self::category_ok()
    }

    open spec fn built_from(&self, s: Seq<(T, P)>) -> bool {
        self@ == merged(s)
    }

    open spec fn lists(&self, s: Seq<(T, P)>) -> bool {
        lists_map(self@, s)
    }

    open spec fn can_query(&self, x: T) -> bool {
        self@.contains_key(x)
    }

    open spec fn weight_of(&self, x: T) -> P {
        self@[x]
    }

    open spec fn is_scaled(&self, from: &Self, c: P) -> bool {
        scaled_map(self@, from@, c)
    }




    fn from_iter(pairs: Vec<(T, P)>) -> (r: Self) {
        let mut out: HashMap<T, P> = HashMap::new();
        let mut i: usize = 0;
        while i < pairs.len()
            invariant
                obeys_key_model::<T>(),
                i <= pairs.len(),
                out@ == merged(pairs@.subrange(0, i as int)),
            decreases pairs.len() - i,
        {
            let (t, p) = pairs[i];
            assert(pairs@.subrange(0, i + 1).drop_last() == pairs@.subrange(0, i as int));
            match out.get(&t) {
                Some(w) => {
                    let sum = (*w).plus(p);
                    out.insert(t, sum);
                },
                None => {
                    out.insert(t, p);
                },
            }
            i = i + 1;
        }
        assert(pairs@.subrange(0, i as int) == pairs@);
        CategoricalHash(out)
    }

    fn iter(&self) -> (r: Vec<(T, P)>) {
        let mut out: Vec<(T, P)> = Vec::new();
        let entries = self.0.iter();
        let ghost v = vstd::std_specs::hash::spec_hash_map_iter(&self.0).remaining();
        assert(entries.remaining() == v);
        assert(v.no_duplicates());
        for e in it: entries
            invariant
                it.seq() == v,
                out@.len() == it.index(),
                forall|k: int| 0 <= k < it.index() ==> out@[k] == (*it.seq()[k].0, *it.seq()[k].1),
        {
            out.push((*e.0, *e.1));
        }
        proof {
            assert forall|a: int, b: int| 0 <= a < b < out@.len() implies out@[a].0 != out@[b].0 by {
                if out@[a].0 == out@[b].0 {
                    assert(self.0@[*v[a].0] == *v[a].1);
                    assert(self.0@[*v[b].0] == *v[b].1);
                    assert(v[a] == v[b]);
                }
            }
            assert forall|k: T| #[trigger] self@.contains_key(k) implies exists|i: int|
                0 <= i < out@.len() && out@[i].0 == k by {
                assert(v.contains((&k, &self@[k])));
                let i = choose|i: int| 0 <= i < v.len() && v[i] == (&k, &self@[k]);
                assert(out@[i].0 == k);
            }
        }
        out
    }

    fn into_iter(self) -> (r: Vec<(T, P)>) {
        self.iter()
    }

    fn probability_of(&self, x: &T) -> (r: P) {
        match self.0.get(x) {
            Some(w) => *w,
            None => {
                proof {
                    assert(false);
                }
                P::zero()
            },
        }
    }

    fn scale_in_place(&mut self, c: P) {
        let entries = self.iter();
        let mut out: HashMap<T, P> = HashMap::new();
        let mut i: usize = 0;
        while i < entries.len()
            invariant
                obeys_key_model::<T>(),
                lists_map(old(self)@, entries@),
                i <= entries.len(),
                forall|k: T| #[trigger]
                    out@.contains_key(k) <==> exists|j: int| 0 <= j < i && entries@[j].0 == k,
                forall|j: int| 0 <= j < i ==> #[trigger] out@[entries@[j].0] == P::mul_spec(entries@[j].1, c),
            decreases entries.len() - i,
        {
            let (t, p) = entries[i];
            out.insert(t, p.times(c));
            proof {
                assert forall|j: int| 0 <= j < i + 1 implies #[trigger] out@[entries@[j].0] == P::mul_spec(entries@[j].1, c) by {
                    if j < i {
                        assert(entries@[j].0 != entries@[i as int].0);
                    }
                }
                assert forall|k: T| #[trigger]
                    out@.contains_key(k) implies exists|j: int| 0 <= j < i + 1 && entries@[j].0 == k by {
                    if k == t {
                        assert(entries@[i as int].0 == k);
                    }
                }
            }
            i = i + 1;
        }
        proof {
            assert forall|k: T| #[trigger] out@.contains_key(k) implies out@[k] == P::mul_spec(old(self)@[k], c) by {
                let j = choose|j: int| 0 <= j < i && entries@[j].0 == k;
                assert(out@[entries@[j].0] == P::mul_spec(entries@[j].1, c));
            }
            assert(out@.dom() =~= old(self)@.dom());
        }
        self.0 = out;
    }
}

} // verus!
