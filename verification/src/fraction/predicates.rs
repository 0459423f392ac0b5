use vstd::prelude::*;
use crate::fraction::Fraction;
use crate::sign::Sign;
use crate::unsigned_number::UnsignedNumber;

verus! {

impl<N: UnsignedNumber> Fraction<N> {
    /// Whether the fraction is below zero.
    pub fn is_negative(&self) -> (result: bool)
        ensures
            result == (self@.numerator != 0 && self@.sign == Sign::Negative && self@.denominator
                != 0),
            self@.denominator != 0 ==> result == (self@.signed_numerator() < 0),
    {
        if self.is_zero() {
            false
        } else {
            proof {
                N::lemma_constants();
            }
            !self.denominator().is_equal(N::ZERO) && matches!(self.sign, Sign::Negative)
        }
    }

    /// Whether the fraction is above zero.
    pub fn is_positive(&self) -> (result: bool)
        ensures
            result == (self@.numerator != 0 && self@.sign == Sign::Positive && self@.denominator
                != 0),
            self@.denominator != 0 ==> result == (self@.signed_numerator() > 0),
    {
        if self.is_zero() {
            false
        } else {
            proof {
                N::lemma_constants();
            }
            !self.denominator().is_equal(N::ZERO) && matches!(self.sign, Sign::Positive)
        }
    }

    /// Whether the fraction is a whole number above zero.
    pub fn is_natural(&self) -> (result: bool)
        ensures
            result == (self@.sign == Sign::Positive && self@.numerator >= 1 && self@.denominator
                == 1),
    {
        proof {
            N::lemma_constants();
        }
        self.is_positive() && !N::ONE.is_greater(self.numerator()) && self.denominator().is_equal(
            N::ONE,
        )
    }

    /// Whether the fraction is zero.
    pub fn is_zero(&self) -> (result: bool)
        ensures
            result == (self@.numerator == 0 && self@.denominator != 0),
    {
        proof {
            N::lemma_constants();
        }
        self.numerator().is_equal(N::ZERO) && !self.denominator().is_equal(N::ZERO)
    }
}

} // verus!
