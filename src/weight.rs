use vstd::arithmetic::div_mod::{lemma_add_mod_noop, lemma_mul_mod_noop_general};
use vstd::arithmetic::mul::{lemma_mul_is_associative, lemma_mul_is_commutative, lemma_mul_is_distributive_add};
use vstd::prelude::*;

verus! {

/// The numeric capability a probability weight must offer: an additive and a
/// multiplicative identity, addition, multiplication and division.
///
/// The spec functions describe each operation; the proof functions are the
/// commutative-ring laws that every implementation proves of them.
pub trait Weight: Copy + Sized {
    spec fn zero_spec() -> Self;

    spec fn one_spec() -> Self;

    spec fn add_spec(a: Self, b: Self) -> Self;

    spec fn mul_spec(a: Self, b: Self) -> Self;

    spec fn div_spec(a: Self, b: Self) -> Self;

    /// Whether `a / b` is defined for this numeric type.
    spec fn div_ok(a: Self, b: Self) -> bool;

    fn zero() -> (r: Self)
        ensures
            r == Self::zero_spec(),
    ;

    fn one() -> (r: Self)
        ensures
            r == Self::one_spec(),
    ;

    fn plus(self, o: Self) -> (r: Self)
        ensures
            r == Self::add_spec(self, o),
    ;

    fn times(self, o: Self) -> (r: Self)
        ensures
            r == Self::mul_spec(self, o),
    ;

    fn can_divide(self, o: Self) -> (r: bool)
        ensures
            r == Self::div_ok(self, o),
    ;

    fn divided_by(self, o: Self) -> (r: Self)
        requires
            Self::div_ok(self, o),
        ensures
            r == Self::div_spec(self, o),
    ;

    proof fn lemma_add_zero(a: Self)
        ensures
            Self::add_spec(Self::zero_spec(), a) == a,
            Self::add_spec(a, Self::zero_spec()) == a,
    ;

    proof fn lemma_add_commutes(a: Self, b: Self)
        ensures
            Self::add_spec(a, b) == Self::add_spec(b, a),
    ;

    proof fn lemma_add_associates(a: Self, b: Self, c: Self)
        ensures
            Self::add_spec(Self::add_spec(a, b), c) == Self::add_spec(a, Self::add_spec(b, c)),
    ;

    proof fn lemma_mul_one(a: Self)
        ensures
            Self::mul_spec(Self::one_spec(), a) == a,
            Self::mul_spec(a, Self::one_spec()) == a,
    ;

    proof fn lemma_mul_zero(a: Self)
        ensures
            Self::mul_spec(Self::zero_spec(), a) == Self::zero_spec(),
            Self::mul_spec(a, Self::zero_spec()) == Self::zero_spec(),
    ;

    proof fn lemma_mul_commutes(a: Self, b: Self)
        ensures
            Self::mul_spec(a, b) == Self::mul_spec(b, a),
    ;

    proof fn lemma_mul_associates(a: Self, b: Self, c: Self)
        ensures
            Self::mul_spec(Self::mul_spec(a, b), c) == Self::mul_spec(a, Self::mul_spec(b, c)),
    ;

    proof fn lemma_mul_distributes(a: Self, b: Self, c: Self)
        ensures
            Self::mul_spec(Self::add_spec(a, b), c) == Self::add_spec(
                Self::mul_spec(a, c),
                Self::mul_spec(b, c),
            ),
    ;
}

pub open spec fn wrap64(x: int) -> u64 {
    (x % 0x1_0000_0000_0000_0000) as u64
}

/// Unsigned 64-bit weights: addition and multiplication wrap around, and
/// division rounds down and is defined for a nonzero divisor.
impl Weight for u64 {
    open spec fn zero_spec() -> u64 {
        0
    }

    open spec fn one_spec() -> u64 {
        1
    }

    open spec fn add_spec(a: u64, b: u64) -> u64 {
        wrap64(a + b)
    }

    open spec fn mul_spec(a: u64, b: u64) -> u64 {
        wrap64(a * b)
    }

    open spec fn div_spec(a: u64, b: u64) -> u64 {
        (a / b) as u64
    }

    open spec fn div_ok(a: u64, b: u64) -> bool {
        b != 0
    }

    fn zero() -> (r: u64) {
        0
    }

    fn one() -> (r: u64) {
        1
    }

    fn plus(self, o: u64) -> (r: u64) {
        self.wrapping_add(o)
    }

    fn times(self, o: u64) -> (r: u64) {
        self.wrapping_mul(o)
    }

    fn can_divide(self, o: u64) -> (r: bool) {
        o != 0
    }

    fn divided_by(self, o: u64) -> (r: u64) {
        self / o
    }

    proof fn lemma_add_zero(a: u64) {
    }

    proof fn lemma_add_commutes(a: u64, b: u64) {
    }

    proof fn lemma_add_associates(a: u64, b: u64, c: u64) {
        let m: int = 0x1_0000_0000_0000_0000;
        lemma_add_mod_noop(a + b, c as int, m);
        lemma_add_mod_noop(a as int, b + c, m);
        assert((((a + b) % m) + c) % m == (a + b + c) % m) by {
            lemma_add_mod_noop(a + b, c as int, m);
            assert((c as int) % m == c);
            assert(((a + b) % m) % m == (a + b) % m) by {
                vstd::arithmetic::div_mod::lemma_mod_twice(a + b, m);
            }
        }
        assert((a + ((b + c) % m)) % m == (a + b + c) % m) by {
            lemma_add_mod_noop(a as int, b + c, m);
            assert((a as int) % m == a);
            vstd::arithmetic::div_mod::lemma_mod_twice(b + c, m);
        }
    }

    proof fn lemma_mul_one(a: u64) {
    }

    proof fn lemma_mul_zero(a: u64) {
    }

    proof fn lemma_mul_commutes(a: u64, b: u64) {
        lemma_mul_is_commutative(a as int, b as int);
    }

    proof fn lemma_mul_associates(a: u64, b: u64, c: u64) {
        let m: int = 0x1_0000_0000_0000_0000;
        lemma_mul_mod_noop_general(a * b, c as int, m);
        lemma_mul_mod_noop_general(a as int, b * c, m);
        lemma_mul_is_associative(a as int, b as int, c as int);
        assert((((a * b) % m) * c) % m == ((a * b) * c) % m);
        assert((a * ((b * c) % m)) % m == (a * (b * c)) % m);
    }

    proof fn lemma_mul_distributes(a: u64, b: u64, c: u64) {
        let m: int = 0x1_0000_0000_0000_0000;
        let ab = (a + b) % m;
        lemma_mul_mod_noop_general(a + b, c as int, m);
        lemma_mul_is_distributive_add(c as int, a as int, b as int);
        lemma_mul_is_commutative(a + b, c as int);
        lemma_mul_is_commutative(a as int, c as int);
        lemma_mul_is_commutative(b as int, c as int);
        lemma_add_mod_noop(a * c, b * c, m);
        assert((ab * c) % m == ((a + b) * c) % m);
        assert((a + b) * c == a * c + b * c);
    }
}

} // verus!
