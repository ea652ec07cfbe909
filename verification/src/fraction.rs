//! Exact rational numbers in `[0, 1]`, used for royalty and fee splits.
//!
//! A `Fraction` multiplies a 128-bit balance without rounding drift and
//! without overflow: the product `num * value` needs up to 160 bits, so
//! `mult` runs a widening multiply-divide over 64-bit halves and is
//! proved equal to `(num * value) / den` over the unbounded integers.

use vstd::arithmetic::div_mod::{
    lemma_fundamental_div_mod, lemma_fundamental_div_mod_converse, lemma_div_is_ordered,
    lemma_div_multiples_vanish,
};
use vstd::arithmetic::mul::{lemma_mul_inequality, lemma_mul_upper_bound};
use vstd::prelude::*;

verus! {

/// Number of values of a 64-bit half: `2^64`.
pub const TWO64: u128 = 0x1_0000_0000_0000_0000;

/// Represents a number between `0` and `1`, meant to be used as a
/// percentage to calculate both fees and royalties.
#[derive(Clone, Copy, PartialEq, Eq, Structural, Debug)]
pub struct Fraction {
    pub num: u32,
    pub den: u32,
}

/// Why a fraction could not be formed.
#[derive(Clone, Copy, PartialEq, Eq, Structural, Debug)]
pub enum FractionError {
    /// The denominator was zero.
    ZeroDenominator,
    /// The numerator exceeded the denominator.
    GreaterThanOne,
}

/// The mathematical product of `num/den` and `v`, rounded toward zero.
pub open spec fn frac_mult(num: nat, den: nat, v: nat) -> nat {
    (num * v) / den
}

impl FractionError {
    /// The user-visible message for this error.
    pub open spec fn spec_message(self) -> Seq<char> {
        match self {
            FractionError::ZeroDenominator => "Denominator must be a positive number, but was 0"@,
            FractionError::GreaterThanOne => "The fraction must be less or equal to 1"@,
        }
    }

    /// Returns the user-visible message for this error.
    pub fn message(&self) -> (r: String)
        ensures
            r@ == self.spec_message(),
    {
        match self {
            FractionError::ZeroDenominator => {
                String::from_str("Denominator must be a positive number, but was 0")
            },
            FractionError::GreaterThanOne => {
                String::from_str("The fraction must be less or equal to 1")
            },
        }
    }
}

impl Fraction {
    /// Both invariants of the type: a positive denominator, and a value
    /// of at most one.
    pub open spec fn wf(self) -> bool {
        self.den != 0 && self.num <= self.den
    }

    /// The value used for comparisons: this fraction applied to the
    /// largest balance.
    pub open spec fn spec_value(self) -> nat {
        frac_mult(self.num as nat, self.den as nat, u128::MAX as nat)
    }

    /// Creates a new `Fraction` with the given `num`erator and `den`ominator.
    ///
    /// Callers must have checked the two invariants; `checked_new` is the
    /// total variant that reports which of them fails.
    pub fn new(num: u32, den: u32) -> (r: Self)
        requires
            den != 0,
            num <= den,
        ensures
            r == (Fraction { num, den }),
            r.wf(),
    {
        Fraction { num, den }
    }

    /// Creates a new `Fraction`, rejecting a zero denominator and a
    /// value above one, in that order.
    pub fn checked_new(num: u32, den: u32) -> (r: Result<Self, FractionError>)
        ensures
            den == 0 ==> r == Result::<Self, FractionError>::Err(FractionError::ZeroDenominator),
            den != 0 && num > den ==> r == Result::<Self, FractionError>::Err(
                FractionError::GreaterThanOne,
            ),
            den != 0 && num <= den ==> r == Result::<Self, FractionError>::Ok(
                Fraction { num, den },
            ),
    {
        if den == 0 {
            Err(FractionError::ZeroDenominator)
        } else if num > den {
            Err(FractionError::GreaterThanOne)
        } else {
            Ok(Fraction { num, den })
        }
    }

    /// Multiplies this `Fraction` by the given `value`.
    ///
    /// The 160-bit product is handled by splitting `value` into 64-bit
    /// halves and long-dividing; the result equals `(num * value) / den`
    /// and in particular never exceeds `value`.
    pub fn mult(&self, value: u128) -> (r: u128)
        requires
            self.wf(),
        ensures
            r == frac_mult(self.num as nat, self.den as nat, value as nat),
            r <= value,
    {
        let num: u128 = self.num as u128;
        let den: u128 = self.den as u128;
        let v_hi: u128 = value / TWO64;
        let v_lo: u128 = value % TWO64;
        proof {
            lemma_fundamental_div_mod(value as int, TWO64 as int);
            lemma_mul_upper_bound(num as int, 0xffff_ffff, v_hi as int, 0xffff_ffff_ffff_ffff);
            lemma_mul_upper_bound(num as int, 0xffff_ffff, v_lo as int, 0xffff_ffff_ffff_ffff);
        }
        let hi: u128 = num * v_hi;
        let q_hi: u128 = hi / den;
        let r_hi: u128 = hi % den;
        proof {
            lemma_fundamental_div_mod(hi as int, den as int);
            // q_hi <= v_hi, because num <= den.
            lemma_mul_inequality(num as int, den as int, v_hi as int);
            lemma_div_is_ordered(num as int * v_hi as int, den as int * v_hi as int, den as int);
            lemma_div_multiples_vanish(v_hi as int, den as int);
        }
        let mid: u128 = r_hi * TWO64;
        let lo: u128 = mid + num * v_lo;
        let q_lo: u128 = lo / den;
        let ghost rem: int = lo as int % den as int;
        let ghost total: int = q_hi as int * TWO64 as int + q_lo as int;
        proof {
            lemma_fundamental_div_mod(lo as int, den as int);
            assert(num as int * value as int == total * den as int + rem) by (nonlinear_arith)
                requires
                    value as int == TWO64 as int * v_hi as int + v_lo as int,
                    num as int * v_hi as int == den as int * q_hi as int + r_hi as int,
                    lo as int == r_hi as int * TWO64 as int + num as int * v_lo as int,
                    lo as int == den as int * q_lo as int + rem,
                    total == q_hi as int * TWO64 as int + q_lo as int,
            ;
            lemma_fundamental_div_mod_converse(
                num as int * value as int,
                den as int,
                total,
                rem,
            );
            // The quotient is at most `value`, because num <= den.
            lemma_mul_inequality(num as int, den as int, value as int);
            lemma_div_is_ordered(
                num as int * value as int,
                den as int * value as int,
                den as int,
            );
            lemma_div_multiples_vanish(value as int, den as int);
        }
        q_hi * TWO64 + q_lo
    }

    /// Whether this fraction denotes the same value as `other`, i.e.
    /// whether they agree on the largest balance.
    pub fn eq(&self, other: &Fraction) -> (r: bool)
        requires
            self.wf(),
            other.wf(),
        ensures
            r == (self.spec_value() == other.spec_value()),
    {
        self.mult(u128::MAX) == other.mult(u128::MAX)
    }

    /// Whether this fraction denotes a smaller value than `other`.
    pub fn lt(&self, other: &Fraction) -> (r: bool)
        requires
            self.wf(),
            other.wf(),
        ensures
            r == (self.spec_value() < other.spec_value()),
    {
        self.mult(u128::MAX) < other.mult(u128::MAX)
    }
}

/// Multiplying any fraction by zero gives zero.
pub proof fn lemma_mult_by_zero(num: u32, den: u32)
    requires
        den != 0,
        num <= den,
    ensures
        frac_mult(num as nat, den as nat, 0) == 0,
{
}

/// A fraction with a zero numerator sends every value to zero.
pub proof fn lemma_zero_fraction(den: u32, v: u128)
    requires
        den != 0,
    ensures
        frac_mult(0, den as nat, v as nat) == 0,
{
}

/// A fraction equal to one leaves every value unchanged.
pub proof fn lemma_one_fraction(den: u32, v: u128)
    requires
        den != 0,
    ensures
        frac_mult(den as nat, den as nat, v as nat) == v,
{
    lemma_div_multiples_vanish(v as int, den as int);
}

/// Scaling numerator and denominator by the same factor does not change
/// what the fraction does to any value.
pub proof fn lemma_scaled_fraction(num: u32, den: u32, k: u32, v: u128)
    requires
        den != 0,
        num <= den,
        k != 0,
        k * den <= u32::MAX,
    ensures
        frac_mult((k * num) as nat, (k * den) as nat, v as nat)
            == frac_mult(num as nat, den as nat, v as nat),
{
    let q: int = (num as int * v as int) / den as int;
    let r: int = (num as int * v as int) % den as int;
    lemma_fundamental_div_mod(num as int * v as int, den as int);
    assert((k * num) as int * v as int == q * (k as int * den as int) + k as int * r)
        by (nonlinear_arith)
        requires
            num as int * v as int == den as int * q + r,
            (k * num) as int == k as int * num as int,
    ;
    assert(0 <= k as int * r < k as int * den as int) by (nonlinear_arith)
        requires
            0 <= r < den as int,
            k as int >= 1,
    ;
    lemma_fundamental_div_mod_converse(
        (k * num) as int * v as int,
        k as int * den as int,
        q,
        k as int * r,
    );
}

/// Halving: the fraction one-half computes integer division by two.
pub proof fn lemma_half_fraction(v: u128)
    ensures
        frac_mult(1, 2, v as nat) == v as nat / 2,
{
}

} // verus!
