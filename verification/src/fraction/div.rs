use vstd::prelude::*;
use crate::fraction::Fraction;
use crate::fraction::outcome;
use crate::fraction::view::FractionView;
use crate::operation_error::ErrorView;
use crate::operation_error::OperationError;
use crate::unsigned_number::UnsignedNumber;

verus! {

impl<N: UnsignedNumber> Fraction<N> {
    /// What `try_div` returns: the product of the first operand and one
    /// over the second, or the error of taking one over zero.
    pub open spec fn spec_try_div(a: FractionView, b: FractionView) -> Result<
        FractionView,
        ErrorView,
    > {
        match Self::spec_try_reverse(b) {
            Err(error) => Err(error),
            Ok(reciprocal) => Self::spec_try_mul(a, reciprocal),
        }
    }

    /// The quotient, for a divisor that is not zero and products that fit `N`.
    pub fn div(&self, other: &Fraction<N>) -> (result: Fraction<N>)
        requires
            self.wf(),
            other.wf(),
            Self::spec_try_div(self@, other@) is Ok,
        ensures
            result.wf(),
            Ok::<FractionView, ErrorView>(result@) == Self::spec_try_div(self@, other@),
    {
        self.try_div(other).unwrap()
    }

    /// The quotient in lowest terms; fails with `DivisionByZero` exactly
    /// when the divisor is zero, and with `Overflow` exactly when
    /// multiplying by one over the divisor does.
    pub fn try_div(&self, other: &Fraction<N>) -> (result: Result<Fraction<N>, OperationError>)
        requires
            self.wf(),
            other.wf(),
        ensures
            outcome(result) == Self::spec_try_div(self@, other@),
            result is Ok ==> result->Ok_0.wf(),
    {
        self.try_mul(&other.try_reverse()?)
    }
}

} // verus!
