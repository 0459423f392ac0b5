use vstd::prelude::*;
use crate::fraction::Fraction;
use crate::fraction::outcome;
use crate::fraction::view::FractionView;
use crate::operation_error::ErrorView;
use crate::operation_error::OperationError;
use crate::sign::Sign;
use crate::unsigned_number::UnsignedNumber;

verus! {

impl<N: UnsignedNumber> Fraction<N> {
    /// The sign of a sum of two fractions over one denominator: that of
    /// the operand with the larger numerator.
    pub open spec fn sum_sign(a: FractionView, b: FractionView) -> Sign {
        if a.numerator > b.numerator {
            a.sign
        } else {
            b.sign
        }
    }

    /// The numerator of a sum of two fractions over one denominator: the
    /// numerators added where the signs agree, else their distance.
    pub open spec fn sum_numerator(a: FractionView, b: FractionView) -> nat {
        if a.sign == b.sign {
            a.numerator + b.numerator
        } else if a.numerator > b.numerator {
            (a.numerator - b.numerator) as nat
        } else {
            (b.numerator - a.numerator) as nat
        }
    }

    /// What `try_add` returns: the operands are brought over a common
    /// denominator, their numerators combined, and the result reduced. An
    /// overflow in scaling or in adding the numerators is an error.
    pub open spec fn spec_try_add(a: FractionView, b: FractionView) -> Result<
        FractionView,
        ErrorView,
    > {
        match Self::spec_unify(a, b) {
            Err(error) => Err(error),
            Ok((ua, ub)) => {
                if ua.sign == ub.sign && ua.numerator + ub.numerator > N::max_value() {
                    Err(Self::add_overflow())
                } else {
                    Ok(
                        FractionView::reduced(
                            Self::sum_sign(ua, ub),
                            Self::sum_numerator(ua, ub),
                            ua.denominator,
                        ),
                    )
                }
            },
        }
    }

    /// The sum, where nothing overflows on the way.
    pub fn add(&self, other: &Fraction<N>) -> (result: Fraction<N>)
        requires
            self.wf(),
            other.wf(),
            Self::spec_try_add(self@, other@) is Ok,
        ensures
            result.wf(),
            Ok::<FractionView, ErrorView>(result@) == Self::spec_try_add(self@, other@),
    {
        self.try_add(other).unwrap()
    }

    /// The sum in lowest terms; fails with `Overflow` exactly when bringing
    /// the operands over a common denominator, or adding their numerators,
    /// exceeds the range of `N`.
    pub fn try_add(&self, other: &Fraction<N>) -> (result: Result<Fraction<N>, OperationError>)
        requires
            self.wf(),
            other.wf(),
        ensures
            outcome(result) == Self::spec_try_add(self@, other@),
            result is Ok ==> result->Ok_0.wf(),
    {
        let (this, that) = self.unify(other)?;
        let sign = this.get_result_sign(&that);
        let numerator = this.get_result_numerator(&that)?;
        proof {
            Self::lemma_unify_factors(self@, other@);
            assert(this@.denominator > 0) by (nonlinear_arith)
                requires
                    self@.denominator > 0,
                    Self::unify_factors(self@, other@).0 > 0,
                    this@.denominator == self@.denominator * Self::unify_factors(self@, other@).0,
            ;
        }
        Fraction::try_new(sign, numerator, this.denominator)
    }

    fn get_result_sign(&self, other: &Fraction<N>) -> (result: Sign)
        ensures
            result == Self::sum_sign(self@, other@),
    {
        if self.numerator().is_greater(other.numerator()) {
            self.sign()
        } else {
            other.sign()
        }
    }

    fn get_result_numerator(&self, other: &Fraction<N>) -> (result: Result<N, OperationError>)
        ensures
            match result {
                Ok(numerator) => numerator.value() == Self::sum_numerator(self@, other@) && !(
                self@.sign == other@.sign && self@.numerator + other@.numerator > N::max_value()),
                Err(error) => error@ == Self::add_overflow() && self@.sign == other@.sign
                    && self@.numerator + other@.numerator > N::max_value(),
            },
    {
        if self.sign() == other.sign() {
            let sum = self.numerator().try_add(other.numerator());
            proof {
                if sum is Ok {
                    sum->Ok_0.lemma_in_range();
                }
            }
            sum
        } else {
            Ok(self.get_abs_numerator_difference(other))
        }
    }

    fn get_abs_numerator_difference(&self, other: &Fraction<N>) -> (result: N)
        ensures
            self@.numerator > other@.numerator ==> result.value() == self@.numerator
                - other@.numerator,
            self@.numerator <= other@.numerator ==> result.value() == other@.numerator
                - self@.numerator,
    {
        if self.numerator().is_greater(other.numerator()) {
            self.numerator().difference(other.numerator())
        } else {
            other.numerator().difference(self.numerator())
        }
    }
}

} // verus!
