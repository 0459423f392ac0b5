use vstd::prelude::*;
use crate::fraction::Fraction;
use crate::fraction::outcome;
use crate::fraction::view::FractionView;
use crate::operation_error::ErrorView;
use crate::operation_error::OperationError;
use crate::unsigned_number::UnsignedNumber;

verus! {

impl<N: UnsignedNumber> Fraction<N> {
    /// What `try_mul` returns: the product of the numerators over the
    /// product of the denominators, in lowest terms, or an overflow error
    /// when one of the two products exceeds the range of `N`.
    pub open spec fn spec_try_mul(a: FractionView, b: FractionView) -> Result<
        FractionView,
        ErrorView,
    > {
        if a.numerator * b.numerator > N::max_value() || a.denominator * b.denominator
            > N::max_value() {
            Err(Self::mul_overflow())
        } else {
            Ok(
                FractionView::reduced(
                    a.sign.spec_mul(b.sign),
                    a.numerator * b.numerator,
                    a.denominator * b.denominator,
                ),
            )
        }
    }

    /// The product, where both products of parts fit `N`.
    pub fn mul(&self, other: &Fraction<N>) -> (result: Fraction<N>)
        requires
            self.wf(),
            other.wf(),
            Self::spec_try_mul(self@, other@) is Ok,
        ensures
            result.wf(),
            Ok::<FractionView, ErrorView>(result@) == Self::spec_try_mul(self@, other@),
    {
        self.try_mul(other).unwrap()
    }

    /// The product in lowest terms; fails with `Overflow` exactly when the
    /// product of the numerators or of the denominators exceeds the range
    /// of `N`.
    pub fn try_mul(&self, other: &Fraction<N>) -> (result: Result<Fraction<N>, OperationError>)
        requires
            self.wf(),
            other.wf(),
        ensures
            outcome(result) == Self::spec_try_mul(self@, other@),
            result is Ok ==> result->Ok_0.wf(),
    {
        let sign = self.sign.mul(&other.sign);
        let numerator = match self.numerator().try_mul(other.numerator()) {
            Ok(product) => product,
            Err(error) => { return Err(error); },
        };
        let denominator = match self.denominator().try_mul(other.denominator()) {
            Ok(product) => product,
            Err(error) => { return Err(error); },
        };
        proof {
            numerator.lemma_in_range();
            denominator.lemma_in_range();
            assert(self@.denominator * other@.denominator > 0) by (nonlinear_arith)
                requires
                    self@.denominator > 0,
                    other@.denominator > 0,
            ;
        }
        Fraction::try_new(sign, numerator, denominator)
    }
}

} // verus!
