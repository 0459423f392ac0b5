use vstd::prelude::*;
use crate::fraction::Fraction;
use crate::fraction::outcome;
use crate::fraction::view::FractionView;
use crate::fraction::view::lemma_reduced_is_identity;
use crate::operation_error::ErrorView;
use crate::operation_error::OperationError;
use crate::sign::Sign;
use crate::unsigned_number::UnsignedNumber;

verus! {

impl<N: UnsignedNumber> Fraction<N> {
    /// The magnitude of the fraction.
    pub fn abs(&self) -> (result: Fraction<N>)
        requires
            self.wf(),
        ensures
            result.wf(),
            result@ == self@.absolute(),
    {
        proof {
            lemma_reduced_is_identity(self@.absolute());
        }
        Fraction::new(Sign::Positive, self.numerator(), self.denominator())
    }

    /// The magnitude of the fraction. Never fails on a fraction in lowest
    /// terms.
    pub fn try_abs(&self) -> (result: Result<Fraction<N>, OperationError>)
        requires
            self.wf(),
        ensures
            outcome(result) == Ok::<FractionView, ErrorView>(self@.absolute()),
            result is Ok && result->Ok_0.wf(),
    {
        proof {
            lemma_reduced_is_identity(self@.absolute());
        }
        Fraction::try_new(Sign::Positive, self.numerator(), self.denominator())
    }
}

} // verus!
