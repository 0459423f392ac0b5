use vstd::prelude::*;
use crate::fraction::Fraction;
use crate::fraction::outcome;
use crate::fraction::view::FractionView;
use crate::gcd::lemma_gcd_basics;
use crate::operation_error::ErrorView;
use crate::operation_error::OperationError;
use crate::operation_error::OperationErrorType;
use crate::sign::Sign;
use crate::unsigned_number::UnsignedNumber;

verus! {

impl<N: UnsignedNumber> Fraction<N> {
    /// What `try_new` returns: an error for a zero denominator, else the
    /// fraction in lowest terms.
    pub open spec fn spec_try_new(sign: Sign, numerator: nat, denominator: nat) -> Result<
        FractionView,
        ErrorView,
    > {
        if denominator == 0 {
            Err(
                ErrorView {
                    kind: OperationErrorType::DivisionByZero,
                    text: "Denominator can not be zero"@,
                },
            )
        } else {
            Ok(FractionView::reduced(sign, numerator, denominator))
        }
    }

    /// The fraction `numerator / denominator` with the given sign, in lowest
    /// terms, for a nonzero denominator.
    pub fn new(sign: Sign, numerator: N, denominator: N) -> (result: Fraction<N>)
        requires
            denominator.value() != 0,
        ensures
            result.wf(),
            result@ == FractionView::reduced(sign, numerator.value(), denominator.value()),
    {
        Fraction { sign, numerator, denominator }.simplify()
    }

    /// The fraction `numerator / denominator` with the given sign, in lowest
    /// terms; fails with `DivisionByZero` exactly when the denominator is zero.
    pub fn try_new(sign: Sign, numerator: N, denominator: N) -> (result: Result<
        Fraction<N>,
        OperationError,
    >)
        ensures
            outcome(result) == Self::spec_try_new(sign, numerator.value(), denominator.value()),
            result is Ok ==> result->Ok_0.wf(),
    {
        proof {
            N::lemma_constants();
        }
        if denominator.is_equal(N::ZERO) {
            return Err(
                OperationError::new(
                    "Denominator can not be zero",
                    OperationErrorType::DivisionByZero,
                ),
            );
        }
        if numerator.is_equal(N::ZERO) {
            return Ok(Fraction::new_zero());
        }
        Ok(Fraction { sign, numerator, denominator }.simplify())
    }

    /// Zero.
    pub fn new_zero() -> (result: Fraction<N>)
        ensures
            result.wf(),
            result@ == FractionView::zero(),
    {
        proof {
            N::lemma_constants();
            lemma_gcd_basics(0);
            N::ONE.lemma_in_range();
        }
        Fraction { sign: Sign::Positive, numerator: N::ZERO, denominator: N::ONE }
    }

    /// The natural number `value`, over one.
    pub fn new_natural(value: N) -> (result: Fraction<N>)
        ensures
            result.wf(),
            result@ == FractionView::natural(value.value()),
    {
        proof {
            N::lemma_constants();
            lemma_gcd_basics(value.value());
            N::ONE.lemma_in_range();
            value.lemma_in_range();
        }
        Fraction { sign: Sign::Positive, numerator: value, denominator: N::ONE }
    }
}

impl<N: UnsignedNumber> Default for Fraction<N> {
    /// Zero.
    fn default() -> (result: Fraction<N>)
        ensures
            result.wf(),
            result@ == FractionView::zero(),
    {
        Fraction::new_zero()
    }
}

} // verus!
