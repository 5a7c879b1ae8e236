//! Exact fractions of a monitor's width or height.

use vstd::prelude::*;

verus! {

/// A fraction `num / den` with a positive denominator.
///
/// Positions and sizes of split regions are fractions of the physical
/// monitor's width or height; holding them exactly keeps an equal split into
/// `n` parts exact for every `n`.
#[derive(Clone, Copy, Debug)]
pub struct Ratio {
    num: i64,
    den: u32,
}

impl View for Ratio {
    /// The pair (numerator, denominator).
    type V = (int, int);

    closed spec fn view(&self) -> (int, int) {
        (self.num as int, self.den as int)
    }
}

/// `a < b` for fractions with positive denominators.
pub open spec fn rat_lt(a: (int, int), b: (int, int)) -> bool {
    a.0 * b.1 < b.0 * a.1
}

/// `a + b` for fractions, over the product of the denominators.
pub open spec fn rat_sum(a: (int, int), b: (int, int)) -> (int, int) {
    (a.0 * b.1 + b.0 * a.1, a.1 * b.1)
}

/// The length, in whole pixels, of the fraction `q` of `length` pixels:
/// rounded toward zero, 0 when the product is not positive, and at most
/// `u32::MAX`.
pub open spec fn scaled_length(length: int, q: (int, int)) -> int {
    if length * q.0 <= 0 {
        0
    } else if (length * q.0) / q.1 > u32::MAX {
        u32::MAX as int
    } else {
        (length * q.0) / q.1
    }
}

impl Ratio {
    #[verifier::type_invariant]
    spec fn positive_denominator(self) -> bool {
        self.den > 0
    }

    /// The fraction `num / den`, or `None` when `den` is zero.
    pub fn new(num: i64, den: u32) -> (r: Option<Ratio>)
        ensures
            den == 0 ==> r is None,
            den > 0 ==> (r matches Some(q) && q@ == (num as int, den as int)),
    {
        if den == 0 {
            None
        } else {
            Some(Ratio { num, den })
        }
    }

    /// The fraction `num / den` for a positive `den`.
    pub fn of(num: i64, den: u32) -> (r: Ratio)
        requires
            den > 0,
        ensures
            r@ == (num as int, den as int),
    {
        Ratio { num, den }
    }

    /// The numerator.
    pub fn numerator(&self) -> (n: i64)
        ensures
            n == self@.0,
    {
        self.num
    }

    /// The denominator, which is positive.
    pub fn denominator(&self) -> (d: u32)
        ensures
            d == self@.1,
            d > 0,
    {
        proof {
            use_type_invariant(self);
        }
        self.den
    }

    /// The fraction `self` of `length` pixels, rounded toward zero and held
    /// within `0..=u32::MAX`.
    pub fn scale_length(&self, length: u32) -> (r: u32)
        ensures
            r == scaled_length(length as int, self@),
    {
        let den = self.denominator();
        proof {
            assert(-0x8000_0000_0000_0000 * 0x1_0000_0000 <= (length as int) * (self.num as int)
                <= 0x7fff_ffff_ffff_ffff * 0xffff_ffff) by (nonlinear_arith)
                requires
                    0 <= length <= 0xffff_ffff,
                    -0x8000_0000_0000_0000 <= self.num <= 0x7fff_ffff_ffff_ffff,
            ;
        }
        let product: i128 = (length as i128) * (self.num as i128);
        if product <= 0 {
            0
        } else {
            let whole = product / (den as i128);
            if whole > u32::MAX as i128 {
                u32::MAX
            } else {
                whole as u32
            }
        }
    }
}

} // verus!
