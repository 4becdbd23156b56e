//! Non-negative rational numbers, compared exactly by cross-multiplication.

use vstd::prelude::*;

verus! {

/// The non-negative rational number `num / den`.
///
/// Two fractions with different fields may stand for the same number
/// (`1/2` and `2/4`); the comparisons below are those of the numbers.
#[derive(Clone, Copy, Debug)]
pub struct Fraction {
    pub num: u64,
    pub den: u64,
}

impl Fraction {
    /// A fraction is well formed when its denominator is not zero.
    pub open spec fn wf(&self) -> bool {
        self.den > 0
    }

    /// `self <= other` as numbers.
    pub open spec fn spec_le(&self, other: &Fraction) -> bool {
        self.num * other.den <= other.num * self.den
    }

    /// `self < other` as numbers.
    pub open spec fn spec_lt(&self, other: &Fraction) -> bool {
        self.num * other.den < other.num * self.den
    }

    /// `self == other` as numbers.
    pub open spec fn spec_same(&self, other: &Fraction) -> bool {
        self.num * other.den == other.num * self.den
    }

    /// The number zero.
    pub open spec fn spec_is_zero(&self) -> bool {
        self.num == 0
    }

    /// The number one.
    pub open spec fn spec_is_one(&self) -> bool {
        self.num == self.den
    }

    /// The fraction `num / den`.
    pub fn new(num: u64, den: u64) -> (f: Fraction)
        requires
            den > 0,
        ensures
            f.num == num,
            f.den == den,
            f.wf(),
    {
        Fraction { num, den }
    }

    /// Whether `self <= other` as numbers.
    pub fn le(&self, other: &Fraction) -> (r: bool)
        ensures
            r == self.spec_le(other),
    {
        proof {
            lemma_product_fits(self.num, other.den);
            lemma_product_fits(other.num, self.den);
        }
        (self.num as u128) * (other.den as u128) <= (other.num as u128) * (self.den as u128)
    }

    /// Whether `self < other` as numbers.
    pub fn lt(&self, other: &Fraction) -> (r: bool)
        ensures
            r == self.spec_lt(other),
    {
        proof {
            lemma_product_fits(self.num, other.den);
            lemma_product_fits(other.num, self.den);
        }
        (self.num as u128) * (other.den as u128) < (other.num as u128) * (self.den as u128)
    }

    /// Whether `self == other` as numbers.
    pub fn same(&self, other: &Fraction) -> (r: bool)
        ensures
            r == self.spec_same(other),
    {
        proof {
            lemma_product_fits(self.num, other.den);
            lemma_product_fits(other.num, self.den);
        }
        (self.num as u128) * (other.den as u128) == (other.num as u128) * (self.den as u128)
    }

    /// Whether the fraction is the number zero.
    pub fn is_zero(&self) -> (r: bool)
        ensures
            r == self.spec_is_zero(),
    {
        self.num == 0
    }

    /// Whether the fraction is the number one.
    pub fn is_one(&self) -> (r: bool)
        ensures
            r == self.spec_is_one(),
    {
        self.num == self.den
    }
}

/// The product of two 64-bit numbers fits in 128 bits.
pub proof fn lemma_product_fits(a: u64, b: u64)
    ensures
        0 <= a * b <= u128::MAX,
{
    assert(0 <= a * b <= 0xffff_ffff_ffff_ffff * 0xffff_ffff_ffff_ffff) by (nonlinear_arith)
        requires
            0 <= a <= 0xffff_ffff_ffff_ffff,
            0 <= b <= 0xffff_ffff_ffff_ffff,
    ;
}

/// `a < b` implies `a <= b`.
pub proof fn lemma_lt_le(a: Fraction, b: Fraction)
    requires
        a.spec_lt(&b),
    ensures
        a.spec_le(&b),
{
}

/// `a <= b` and `b <= c` imply `a <= c`.
pub proof fn lemma_le_trans(a: Fraction, b: Fraction, c: Fraction)
    requires
        b.wf(),
        a.spec_le(&b),
        b.spec_le(&c),
    ensures
        a.spec_le(&c),
{
    let (an, ad) = (a.num as int, a.den as int);
    let (bn, bd) = (b.num as int, b.den as int);
    let (cn, cd) = (c.num as int, c.den as int);
    assert(an * cd <= cn * ad) by (nonlinear_arith)
        requires
            bd > 0,
            an >= 0, ad >= 0, bn >= 0, cn >= 0, cd >= 0,
            an * bd <= bn * ad,
            bn * cd <= cn * bd,
    {
        assert((an * bd) * cd <= (bn * ad) * cd);
        assert((bn * cd) * ad <= (cn * bd) * ad);
        assert((an * cd) * bd <= (cn * ad) * bd);
    }
}

} // verus!
