//! Fixed-point arithmetic on the amounts that the contract handles.
//!
//! `Uint128` amounts are plain `u128` values; a `Decimal` is a fixed-point
//! number with 18 fractional digits, held as its count of atomic units.

use vstd::prelude::*;
use vstd::arithmetic::div_mod::{lemma_fundamental_div_mod, lemma_fundamental_div_mod_converse_div};

verus! {

/// 10^18: the number of atomic units in the decimal `1.0`.
pub const DECIMAL_FRACTIONAL: u128 = 1_000_000_000_000_000_000u128;

/// A fixed-point decimal with 18 fractional digits: `atomics / 10^18`.
#[derive(Clone, Copy, Debug, PartialEq, Eq, Structural)]
pub struct Decimal {
    pub atomics: u128,
}

/// `floor(value * numerator / denominator)`, the exact ratio that
/// `Uint128::multiply_ratio` computes.
pub open spec fn spec_multiply_ratio(value: int, numerator: int, denominator: int) -> int {
    value * numerator / denominator
}

/// The atomics of `Decimal::from_ratio(numerator, denominator)`.
pub open spec fn spec_from_ratio(numerator: int, denominator: int) -> int {
    numerator * (DECIMAL_FRACTIONAL as int) / denominator
}

/// `floor(value * d)` for an amount `value` and a decimal of `atomics` units.
pub open spec fn spec_mul_decimal(value: int, atomics: int) -> int {
    value * atomics / (DECIMAL_FRACTIONAL as int)
}

/// `cosmwasm_std::Uint128::multiply_ratio`: multiplies in 256 bits and divides,
/// so the result is `floor(value * numerator / denominator)`. It panics when the
/// denominator is zero or the quotient does not fit in 128 bits; `requires`
/// leaves those inputs out.
#[verifier::external_body]
fn uint128_multiply_ratio(value: u128, numerator: u128, denominator: u128) -> (r: u128)
    requires
        denominator > 0,
        spec_multiply_ratio(value as int, numerator as int, denominator as int) <= u128::MAX,
    ensures
        r == spec_multiply_ratio(value as int, numerator as int, denominator as int),
{
    cosmwasm_std::Uint128::new(value).multiply_ratio(numerator, denominator).u128()
}

/// `value.multiply_ratio(numerator, denominator)` on a `Uint128` amount.
pub fn multiply_ratio(value: u128, numerator: u128, denominator: u128) -> (r: u128)
    requires
        denominator > 0,
        spec_multiply_ratio(value as int, numerator as int, denominator as int) <= u128::MAX,
    ensures
        r == spec_multiply_ratio(value as int, numerator as int, denominator as int),
{
    uint128_multiply_ratio(value, numerator, denominator)
}

impl Decimal {
    pub open spec fn spec_zero() -> Decimal {
        Decimal { atomics: 0 }
    }

    pub open spec fn spec_one() -> Decimal {
        Decimal { atomics: DECIMAL_FRACTIONAL }
    }

    /// The decimal `0.0`.
    pub fn zero() -> (d: Decimal)
        ensures
            d == Decimal::spec_zero(),
    {
        Decimal { atomics: 0 }
    }

    /// The decimal `1.0`.
    pub fn one() -> (d: Decimal)
        ensures
            d == Decimal::spec_one(),
    {
        Decimal { atomics: DECIMAL_FRACTIONAL }
    }

    /// `x` percent.
    pub fn percent(x: u64) -> (d: Decimal)
        ensures
            d.atomics == x as int * 10_000_000_000_000_000int,
    {
        assert(x as int * 10_000_000_000_000_000int <= u128::MAX) by (nonlinear_arith)
            requires
                x <= u64::MAX,
        ;
        Decimal { atomics: (x as u128) * 10_000_000_000_000_000u128 }
    }

    /// The ratio `numerator / denominator`, rounded down to 18 fractional digits.
    /// Undefined, and left out, for a zero denominator or a ratio beyond `Decimal::MAX`.
    pub fn from_ratio(numerator: u128, denominator: u128) -> (d: Decimal)
        requires
            denominator > 0,
            spec_from_ratio(numerator as int, denominator as int) <= u128::MAX,
        ensures
            d.atomics == spec_from_ratio(numerator as int, denominator as int),
    {
        Decimal { atomics: uint128_multiply_ratio(numerator, DECIMAL_FRACTIONAL, denominator) }
    }

    pub fn is_zero(&self) -> (b: bool)
        ensures
            b == (self.atomics == 0),
    {
        self.atomics == 0
    }

    /// `self + other`, which must not overflow.
    pub fn add(self, other: Decimal) -> (d: Decimal)
        requires
            self.atomics + other.atomics <= u128::MAX,
        ensures
            d.atomics == self.atomics + other.atomics,
    {
        Decimal { atomics: self.atomics + other.atomics }
    }

    /// `self - other`, which needs `other <= self`.
    pub fn sub(self, other: Decimal) -> (d: Decimal)
        requires
            self.atomics >= other.atomics,
        ensures
            d.atomics == self.atomics - other.atomics,
    {
        Decimal { atomics: self.atomics - other.atomics }
    }

    /// `self > other`.
    pub fn gt(&self, other: &Decimal) -> (b: bool)
        ensures
            b == (self.atomics > other.atomics),
    {
        self.atomics > other.atomics
    }

    /// `self < other`.
    pub fn lt(&self, other: &Decimal) -> (b: bool)
        ensures
            b == (self.atomics < other.atomics),
    {
        self.atomics < other.atomics
    }
}

/// `value * d` for an amount and a decimal (`Uint128 * Decimal`): the product
/// rounded down to an integer amount.
pub fn mul_decimal(value: u128, d: Decimal) -> (r: u128)
    requires
        spec_mul_decimal(value as int, d.atomics as int) <= u128::MAX,
    ensures
        r == spec_mul_decimal(value as int, d.atomics as int),
{
    if value == 0 || d.atomics == 0 {
        assert(spec_mul_decimal(value as int, d.atomics as int) == 0) by (nonlinear_arith)
            requires
                value == 0 || d.atomics == 0,
        ;
        0
    } else {
        uint128_multiply_ratio(value, d.atomics, DECIMAL_FRACTIONAL)
    }
}


/// 2^64, the base of the halves of a `u128`.
pub open spec fn half_base() -> int {
    0x1_0000_0000_0000_0000int
}

/// `floor(a * b / 2^128)`: the high 128 bits of the full product.
pub open spec fn high_half(a: int, b: int) -> int {
    (a * b) / (half_base() * half_base())
}

proof fn lemma_split(a: u128)
    ensures
        a == (a / 0x1_0000_0000_0000_0000u128) * half_base() + a % 0x1_0000_0000_0000_0000u128,
        a / 0x1_0000_0000_0000_0000u128 < half_base(),
        a % 0x1_0000_0000_0000_0000u128 < half_base(),
{
    lemma_fundamental_div_mod(a as int, half_base());
}

proof fn lemma_product_bound(x: int, y: int)
    requires
        0 <= x < half_base(),
        0 <= y < half_base(),
    ensures
        0 <= x * y <= (half_base() - 1) * (half_base() - 1),
{
    assert(0 <= x * y <= (half_base() - 1) * (half_base() - 1)) by (nonlinear_arith)
        requires
            0 <= x < half_base(),
            0 <= y < half_base(),
    ;
}

/// The high 128 bits of the product of two `u128` values, computed from
/// their 64-bit halves.
pub fn mul_high(a: u128, b: u128) -> (h: u128)
    ensures
        h == high_half(a as int, b as int),
{
    let x: u128 = 0x1_0000_0000_0000_0000u128;
    let a1 = a / x;
    let a0 = a % x;
    let b1 = b / x;
    let b0 = b % x;
    proof {
        lemma_split(a);
        lemma_split(b);
        lemma_product_bound(a0 as int, b0 as int);
        lemma_product_bound(a0 as int, b1 as int);
        lemma_product_bound(a1 as int, b0 as int);
        lemma_product_bound(a1 as int, b1 as int);
    }
    let p00 = a0 * b0;
    let p01 = a0 * b1;
    let p10 = a1 * b0;
    let p11 = a1 * b1;
    let h00 = p00 / x;
    let l00 = p00 % x;
    let h01 = p01 / x;
    let l01 = p01 % x;
    let h10 = p10 / x;
    let l10 = p10 % x;
    proof {
        lemma_split(p00);
        lemma_split(p01);
        lemma_split(p10);
        assert(h01 <= half_base() - 2) by (nonlinear_arith)
            requires
                p01 == h01 * half_base() + l01,
                0 <= l01,
                p01 <= (half_base() - 1) * (half_base() - 1),
                half_base() == 0x1_0000_0000_0000_0000int,
        ;
        assert(h10 <= half_base() - 2) by (nonlinear_arith)
            requires
                p10 == h10 * half_base() + l10,
                0 <= l10,
                p10 <= (half_base() - 1) * (half_base() - 1),
                half_base() == 0x1_0000_0000_0000_0000int,
        ;
    }
    let mid = h00 + l01 + l10;
    let hm = mid / x;
    let lm = mid % x;
    proof {
        lemma_split(mid);
        assert(hm <= 2);
    }
    let h = p11 + h01 + h10 + hm;
    proof {
        let big = half_base() * half_base();
        let q = p11 + h01 + h10 + hm;
        let r = lm * half_base() + l00;
        assert(a as int * b as int == q * big + r) by (nonlinear_arith)
            requires
                a as int == a1 * half_base() + a0,
                b as int == b1 * half_base() + b0,
                p00 == a0 * b0,
                p01 == a0 * b1,
                p10 == a1 * b0,
                p11 == a1 * b1,
                p00 == h00 * half_base() + l00,
                p01 == h01 * half_base() + l01,
                p10 == h10 * half_base() + l10,
                mid == h00 + l01 + l10,
                mid == hm * half_base() + lm,
                q == p11 + h01 + h10 + hm,
                r == lm * half_base() + l00,
                big == half_base() * half_base(),
        ;
        assert(0 <= r < big) by (nonlinear_arith)
            requires
                0 <= lm < half_base(),
                0 <= l00 < half_base(),
                r == lm * half_base() + l00,
                big == half_base() * half_base(),
        ;
        lemma_fundamental_div_mod_converse_div(a as int * b as int, big, q, r);
    }
    h
}

/// Whether `floor(value * numerator / denominator)` fits in 128 bits: the
/// range in which `Uint128::multiply_ratio` answers instead of panicking.
pub fn ratio_fits(value: u128, numerator: u128, denominator: u128) -> (b: bool)
    requires
        denominator > 0,
    ensures
        b == (spec_multiply_ratio(value as int, numerator as int, denominator as int) <= u128::MAX),
{
    let h = mul_high(value, numerator);
    proof {
        let big = half_base() * half_base();
        let p = value as int * numerator as int;
        let d = denominator as int;
        assert(big == u128::MAX + 1);
        lemma_fundamental_div_mod(p, big);
        lemma_fundamental_div_mod(p, d);
        assert((p / d <= u128::MAX) == (p / big < d)) by (nonlinear_arith)
            requires
                d > 0,
                p >= 0,
                big == u128::MAX + 1,
                p == big * (p / big) + p % big,
                0 <= p % big < big,
                p == d * (p / d) + p % d,
                0 <= p % d < d,
        ;
    }
    h < denominator
}

} // verus!
