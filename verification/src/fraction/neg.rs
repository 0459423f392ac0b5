use vstd::prelude::*;
use crate::fraction::Fraction;
use crate::fraction::outcome;
use crate::fraction::view::FractionView;
use crate::fraction::view::lemma_reduced_is_identity;
use crate::operation_error::ErrorView;
use crate::operation_error::OperationError;
use crate::unsigned_number::UnsignedNumber;

verus! {

impl<N: UnsignedNumber> Fraction<N> {
    /// The fraction with its sign flipped; zero stays zero.
    pub fn neg(&self) -> (result: Fraction<N>)
        requires
            self.wf(),
        ensures
            result.wf(),
            result@ == self@.negated(),
    {
        proof {
            lemma_reduced_is_identity(self@);
            lemma_reduced_is_identity(self@.negated());
        }
        Fraction::new(self.sign.inverse(), self.numerator(), self.denominator())
    }

    /// The fraction with its sign flipped; zero stays zero. Never fails on a
    /// fraction in lowest terms.
    pub fn try_neg(&self) -> (result: Result<Fraction<N>, OperationError>)
        requires
            self.wf(),
        ensures
            outcome(result) == Ok::<FractionView, ErrorView>(self@.negated()),
            result is Ok && result->Ok_0.wf(),
    {
        proof {
            lemma_reduced_is_identity(self@);
            lemma_reduced_is_identity(self@.negated());
        }
        Fraction::try_new(self.sign.inverse(), self.numerator(), self.denominator())
    }
}

} // verus!
