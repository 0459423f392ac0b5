use vstd::prelude::*;
use crate::fraction::Fraction;
use crate::fraction::view::FractionView;
use crate::sign::Sign;
use crate::unsigned_number::UnsignedNumber;

verus! {

impl<N: UnsignedNumber> Fraction<N> {
    /// The numerator, without the sign.
    pub fn numerator(&self) -> (result: N)
        ensures
            result.value() == self@.numerator,
    {
        self.numerator
    }

    /// The denominator.
    pub fn denominator(&self) -> (result: N)
        ensures
            result.value() == self@.denominator,
    {
        self.denominator
    }

    /// The sign.
    pub fn sign(&self) -> (result: Sign)
        ensures
            result == self@.sign,
    {
        self.sign
    }

    /// What is left of the numerator after whole denominators are taken
    /// out, over the same denominator, in lowest terms.
    pub fn remainder(&self) -> (result: Fraction<N>)
        requires
            self.wf(),
        ensures
            result.wf(),
            result@ == FractionView::reduced(
                self@.sign,
                self@.numerator % self@.denominator,
                self@.denominator,
            ),
    {
        Fraction::new(self.sign(), self.numerator().modulo(self.denominator()), self.denominator())
    }

    /// The magnitude rounded down to a whole number.
    pub fn trunc(&self) -> (result: N)
        requires
            self.wf(),
        ensures
            result.value() == self@.numerator / self@.denominator,
    {
        self.numerator().quotient(self.denominator())
    }
}

} // verus!
