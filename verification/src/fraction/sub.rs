use vstd::prelude::*;
use crate::fraction::Fraction;
use crate::fraction::outcome;
use crate::fraction::view::FractionView;
use crate::operation_error::ErrorView;
use crate::operation_error::OperationError;
use crate::unsigned_number::UnsignedNumber;

verus! {

impl<N: UnsignedNumber> Fraction<N> {
    /// What `try_sub` returns: the sum of the first operand and the
    /// negated second.
    pub open spec fn spec_try_sub(a: FractionView, b: FractionView) -> Result<
        FractionView,
        ErrorView,
    > {
        Self::spec_try_add(a, b.negated())
    }

    /// The difference, where nothing overflows on the way.
    pub fn sub(&self, other: &Fraction<N>) -> (result: Fraction<N>)
        requires
            self.wf(),
            other.wf(),
            Self::spec_try_sub(self@, other@) is Ok,
        ensures
            result.wf(),
            Ok::<FractionView, ErrorView>(result@) == Self::spec_try_sub(self@, other@),
    {
        self.try_sub(other).unwrap()
    }

    /// The difference in lowest terms; fails with `Overflow` exactly when
    /// adding the negated operand does.
    pub fn try_sub(&self, other: &Fraction<N>) -> (result: Result<Fraction<N>, OperationError>)
        requires
            self.wf(),
            other.wf(),
        ensures
            outcome(result) == Self::spec_try_sub(self@, other@),
            result is Ok ==> result->Ok_0.wf(),
    {
        self.try_add(&other.try_neg()?)
    }
}

} // verus!
