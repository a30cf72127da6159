//! Exact non-negative fractions, used wherever a score or a similarity is
//! compared against a threshold or against another score.
use vstd::prelude::*;

verus! {

/// A fraction `num / den`.
#[derive(Clone, Copy, Debug)]
pub struct Ratio {
    pub num: u64,
    pub den: u64,
}


impl Ratio {
    /// A usable fraction: a positive denominator.
    pub open spec fn wf(self) -> bool {
        0 < self.den
    }

    /// The value as a fraction compared by cross multiplication:
    /// `self < other`.
    pub open spec fn lt(self, other: Ratio) -> bool {
        self.num * other.den < other.num * self.den
    }

    pub open spec fn le(self, other: Ratio) -> bool {
        self.num * other.den <= other.num * self.den
    }

    pub open spec fn same(self, other: Ratio) -> bool {
        self.num * other.den == other.num * self.den
    }

    /// `num / den > p / q` for small constants.
    pub open spec fn above(self, p: int, q: int) -> bool {
        self.num * q > p * self.den
    }

    /// `num / den >= p / q` for small constants.
    pub open spec fn at_least(self, p: int, q: int) -> bool {
        self.num * q >= p * self.den
    }

    pub open spec fn below(self, p: int, q: int) -> bool {
        self.num * q < p * self.den
    }

    pub fn new(num: u64, den: u64) -> (r: Ratio)
        ensures
            r.num == num,
            r.den == den,
    {
        Ratio { num, den }
    }

    /// The fraction one.
    pub fn one() -> (r: Ratio)
        ensures
            r.num == 1,
            r.den == 1,
            r.wf(),
    {
        Ratio { num: 1, den: 1 }
    }

    /// The fraction zero.
    pub fn zero() -> (r: Ratio)
        ensures
            r.num == 0,
            r.den == 1,
            r.wf(),
    {
        Ratio { num: 0, den: 1 }
    }

    /// `self < other`.
    pub fn less_than(&self, other: &Ratio) -> (r: bool)
        requires
            self.wf(),
            other.wf(),
        ensures
            r == self.lt(*other),
    {
        proof {
            lemma_mul_bound(self.num as int, other.den as int);
            lemma_mul_bound(other.num as int, self.den as int);
        }
        (self.num as u128) * (other.den as u128) < (other.num as u128) * (self.den as u128)
    }

    /// `self <= other`.
    pub fn le_ratio(&self, other: &Ratio) -> (r: bool)
        ensures
            r == self.le(*other),
    {
        proof {
            lemma_mul_bound(self.num as int, other.den as int);
            lemma_mul_bound(other.num as int, self.den as int);
        }
        (self.num as u128) * (other.den as u128) <= (other.num as u128) * (self.den as u128)
    }

    /// `num / den > p / q`.
    pub fn exceeds(&self, p: u64, q: u64) -> (r: bool)
        requires
            self.wf(),
        ensures
            r == self.above(p as int, q as int),
    {
        proof {
            lemma_mul_bound(self.num as int, q as int);
            lemma_mul_bound(p as int, self.den as int);
        }
        (self.num as u128) * (q as u128) > (p as u128) * (self.den as u128)
    }

    /// `num / den >= p / q`.
    pub fn reaches(&self, p: u64, q: u64) -> (r: bool)
        requires
            self.wf(),
        ensures
            r == self.at_least(p as int, q as int),
    {
        proof {
            lemma_mul_bound(self.num as int, q as int);
            lemma_mul_bound(p as int, self.den as int);
        }
        (self.num as u128) * (q as u128) >= (p as u128) * (self.den as u128)
    }

    /// `num / den < p / q`.
    pub fn under(&self, p: u64, q: u64) -> (r: bool)
        requires
            self.wf(),
        ensures
            r == self.below(p as int, q as int),
    {
        proof {
            lemma_mul_bound(self.num as int, q as int);
            lemma_mul_bound(p as int, self.den as int);
        }
        (self.num as u128) * (q as u128) < (p as u128) * (self.den as u128)
    }
}

/// The value in percent, rounded to the nearest whole number (an exact
/// half to the even neighbour).
pub open spec fn rounded_percent(r: Ratio) -> nat {
    let q = (r.num * 100) / (r.den as int);
    let rem = (r.num * 100) % (r.den as int);
    if 2 * rem > r.den || (2 * rem == r.den && q % 2 == 1) {
        (q + 1) as nat
    } else {
        q as nat
    }
}

/// The rounded percentage of a fraction.
pub fn percent(r: &Ratio) -> (p: u128)
    requires
        r.wf(),
    ensures
        p == rounded_percent(*r),
{
    let n = (r.num as u128) * 100;
    let d = r.den as u128;
    let q = n / d;
    let rem = n % d;
    proof {
        assert(q * d <= n) by (nonlinear_arith)
            requires
                q == n / d,
                d > 0,
        ;
        assert(q <= n) by (nonlinear_arith)
            requires
                q * d <= n,
                d >= 1,
                q >= 0,
        ;
    }
    if 2 * rem > d || (2 * rem == d && q % 2 == 1) {
        q + 1
    } else {
        q
    }
}

pub proof fn lemma_mul_bound(a: int, b: int)
    requires
        0 <= a <= u64::MAX,
        0 <= b <= u64::MAX,
    ensures
        0 <= a * b <= u128::MAX,
{
    assert(a * b <= u64::MAX * u64::MAX) by (nonlinear_arith)
        requires
            0 <= a <= u64::MAX,
            0 <= b <= u64::MAX,
    ;
    assert(0 <= a * b) by (nonlinear_arith)
        requires
            0 <= a,
            0 <= b,
    ;
}

} // verus!
