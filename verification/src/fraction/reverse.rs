use vstd::prelude::*;
use crate::fraction::Fraction;
use crate::fraction::outcome;
use crate::fraction::view::FractionView;
use crate::fraction::view::lemma_reduced_is_identity;
use crate::gcd::lemma_gcd_symmetric;
use crate::operation_error::ErrorView;
use crate::operation_error::OperationError;
use crate::operation_error::OperationErrorType;
use crate::unsigned_number::UnsignedNumber;

verus! {

impl<N: UnsignedNumber> Fraction<N> {
    /// What `try_reverse` returns: an error for zero, else numerator and
    /// denominator exchanged.
    pub open spec fn spec_try_reverse(v: FractionView) -> Result<FractionView, ErrorView> {
        if v.numerator == 0 {
            Err(
                ErrorView {
                    kind: OperationErrorType::DivisionByZero,
                    text: "Numerator is zero, can't divide by zero"@,
                },
            )
        } else {
            Ok(v.reciprocal())
        }
    }

    /// One over the fraction, for a fraction that is not zero.
    pub fn reverse(&self) -> (result: Fraction<N>)
        requires
            self.wf(),
            self@.numerator != 0,
        ensures
            result.wf(),
            result@ == self@.reciprocal(),
    {
        proof {
            lemma_gcd_symmetric(self@.numerator, self@.denominator);
            lemma_reduced_is_identity(self@.reciprocal());
        }
        Fraction::new(self.sign, self.denominator, self.numerator)
    }

    /// One over the fraction; fails with `DivisionByZero` exactly when the
    /// fraction is zero.
    pub fn try_reverse(&self) -> (result: Result<Fraction<N>, OperationError>)
        requires
            self.wf(),
        ensures
            outcome(result) == Self::spec_try_reverse(self@),
            result is Ok ==> result->Ok_0.wf(),
    {
        if self.is_zero() {
            Err(
                OperationError::new(
                    "Numerator is zero, can't divide by zero",
                    OperationErrorType::DivisionByZero,
                ),
            )
        } else {
            proof {
                lemma_gcd_symmetric(self@.numerator, self@.denominator);
                lemma_reduced_is_identity(self@.reciprocal());
            }
            Fraction::try_new(self.sign, self.denominator, self.numerator)
        }
    }
}

} // verus!
