use vstd::prelude::*;
use vstd::std_specs::ops::AddSpecImpl;
use vstd::std_specs::ops::DivSpecImpl;
use vstd::std_specs::ops::MulSpecImpl;
use vstd::std_specs::ops::SubSpecImpl;
use crate::fraction::Fraction;
use crate::fraction::view::FractionView;
use crate::operation_error::ErrorView;
use crate::unsigned_number::UnsignedNumber;

verus! {

impl<N: UnsignedNumber> std::ops::Add for Fraction<N> {
    type Output = Fraction<N>;

    /// `a + b`: the sum, where nothing overflows on the way.
    fn add(self, other: Self) -> (result: Fraction<N>)
        ensures
            result.wf(),
            Ok::<FractionView, ErrorView>(result@) == Fraction::<N>::spec_try_add(self@, other@),
    {
        let result = self.try_add(&other).unwrap();
        proof {
            result.lemma_view_determines(Fraction::<N>::holding(result@));
        }
        result
    }
}

impl<N: UnsignedNumber> AddSpecImpl for Fraction<N> {
    open spec fn obeys_add_spec() -> bool {
        true
    }

    open spec fn add_req(self, other: Self) -> bool {
        self.wf() && other.wf() && Fraction::<N>::spec_try_add(self@, other@) is Ok
    }

    open spec fn add_spec(self, other: Self) -> Fraction<N> {
        Fraction::<N>::holding(Fraction::<N>::spec_try_add(self@, other@)->Ok_0)
    }
}

impl<'a, N: UnsignedNumber> std::ops::Add for &'a Fraction<N> {
    type Output = Fraction<N>;

    /// `a + b`: the sum, where nothing overflows on the way.
    fn add(self, other: Self) -> (result: Fraction<N>)
        ensures
            result.wf(),
            Ok::<FractionView, ErrorView>(result@) == Fraction::<N>::spec_try_add(self@, other@),
    {
        let result = self.try_add(other).unwrap();
        proof {
            result.lemma_view_determines(Fraction::<N>::holding(result@));
        }
        result
    }
}

impl<'a, N: UnsignedNumber> AddSpecImpl for &'a Fraction<N> {
    open spec fn obeys_add_spec() -> bool {
        true
    }

    open spec fn add_req(self, other: Self) -> bool {
        self.wf() && other.wf() && Fraction::<N>::spec_try_add(self@, other@) is Ok
    }

    open spec fn add_spec(self, other: Self) -> Fraction<N> {
        Fraction::<N>::holding(Fraction::<N>::spec_try_add(self@, other@)->Ok_0)
    }
}

impl<'a, N: UnsignedNumber> std::ops::AddAssign<&'a Fraction<N>> for Fraction<N> {
    /// `a += b`: replaces `a` by the sum, where nothing overflows on the way.
    fn add_assign(&mut self, other: &'a Fraction<N>)
        requires
            old(self).wf(),
            other.wf(),
            Fraction::<N>::spec_try_add(old(self)@, other@) is Ok,
        ensures
            final(self).wf(),
            Ok::<FractionView, ErrorView>(final(self)@) == Fraction::<N>::spec_try_add(
                old(self)@,
                other@,
            ),
    {
        *self = self.try_add(other).unwrap();
    }
}

impl<N: UnsignedNumber> std::ops::AddAssign for Fraction<N> {
    /// `a += b`: replaces `a` by the sum, where nothing overflows on the way.
    fn add_assign(&mut self, other: Fraction<N>)
        requires
            old(self).wf(),
            other.wf(),
            Fraction::<N>::spec_try_add(old(self)@, other@) is Ok,
        ensures
            final(self).wf(),
            Ok::<FractionView, ErrorView>(final(self)@) == Fraction::<N>::spec_try_add(
                old(self)@,
                other@,
            ),
    {
        *self = self.try_add(&other).unwrap();
    }
}

impl<N: UnsignedNumber> std::ops::Sub for Fraction<N> {
    type Output = Fraction<N>;

    /// `a - b`: the difference, where nothing overflows on the way.
    fn sub(self, other: Self) -> (result: Fraction<N>)
        ensures
            result.wf(),
            Ok::<FractionView, ErrorView>(result@) == Fraction::<N>::spec_try_sub(self@, other@),
    {
        let result = self.try_sub(&other).unwrap();
        proof {
            result.lemma_view_determines(Fraction::<N>::holding(result@));
        }
        result
    }
}

impl<N: UnsignedNumber> SubSpecImpl for Fraction<N> {
    open spec fn obeys_sub_spec() -> bool {
        true
    }

    open spec fn sub_req(self, other: Self) -> bool {
        self.wf() && other.wf() && Fraction::<N>::spec_try_sub(self@, other@) is Ok
    }

    open spec fn sub_spec(self, other: Self) -> Fraction<N> {
        Fraction::<N>::holding(Fraction::<N>::spec_try_sub(self@, other@)->Ok_0)
    }
}

impl<'a, N: UnsignedNumber> std::ops::Sub for &'a Fraction<N> {
    type Output = Fraction<N>;

    /// `a - b`: the difference, where nothing overflows on the way.
    fn sub(self, other: Self) -> (result: Fraction<N>)
        ensures
            result.wf(),
            Ok::<FractionView, ErrorView>(result@) == Fraction::<N>::spec_try_sub(self@, other@),
    {
        let result = self.try_sub(other).unwrap();
        proof {
            result.lemma_view_determines(Fraction::<N>::holding(result@));
        }
        result
    }
}

impl<'a, N: UnsignedNumber> SubSpecImpl for &'a Fraction<N> {
    open spec fn obeys_sub_spec() -> bool {
        true
    }

    open spec fn sub_req(self, other: Self) -> bool {
        self.wf() && other.wf() && Fraction::<N>::spec_try_sub(self@, other@) is Ok
    }

    open spec fn sub_spec(self, other: Self) -> Fraction<N> {
        Fraction::<N>::holding(Fraction::<N>::spec_try_sub(self@, other@)->Ok_0)
    }
}

impl<'a, N: UnsignedNumber> std::ops::SubAssign<&'a Fraction<N>> for Fraction<N> {
    /// `a -= b`: replaces `a` by the difference, where nothing overflows on the way.
    fn sub_assign(&mut self, other: &'a Fraction<N>)
        requires
            old(self).wf(),
            other.wf(),
            Fraction::<N>::spec_try_sub(old(self)@, other@) is Ok,
        ensures
            final(self).wf(),
            Ok::<FractionView, ErrorView>(final(self)@) == Fraction::<N>::spec_try_sub(
                old(self)@,
                other@,
            ),
    {
        *self = self.try_sub(other).unwrap();
    }
}

impl<N: UnsignedNumber> std::ops::SubAssign for Fraction<N> {
    /// `a -= b`: replaces `a` by the difference, where nothing overflows on the way.
    fn sub_assign(&mut self, other: Fraction<N>)
        requires
            old(self).wf(),
            other.wf(),
            Fraction::<N>::spec_try_sub(old(self)@, other@) is Ok,
        ensures
            final(self).wf(),
            Ok::<FractionView, ErrorView>(final(self)@) == Fraction::<N>::spec_try_sub(
                old(self)@,
                other@,
            ),
    {
        *self = self.try_sub(&other).unwrap();
    }
}

impl<N: UnsignedNumber> std::ops::Mul for Fraction<N> {
    type Output = Fraction<N>;

    /// `a * b`: the product, where both products of parts fit `N`.
    fn mul(self, other: Self) -> (result: Fraction<N>)
        ensures
            result.wf(),
            Ok::<FractionView, ErrorView>(result@) == Fraction::<N>::spec_try_mul(self@, other@),
    {
        let result = self.try_mul(&other).unwrap();
        proof {
            result.lemma_view_determines(Fraction::<N>::holding(result@));
        }
        result
    }
}

impl<N: UnsignedNumber> MulSpecImpl for Fraction<N> {
    open spec fn obeys_mul_spec() -> bool {
        true
    }

    open spec fn mul_req(self, other: Self) -> bool {
        self.wf() && other.wf() && Fraction::<N>::spec_try_mul(self@, other@) is Ok
    }

    open spec fn mul_spec(self, other: Self) -> Fraction<N> {
        Fraction::<N>::holding(Fraction::<N>::spec_try_mul(self@, other@)->Ok_0)
    }
}

impl<'a, N: UnsignedNumber> std::ops::Mul for &'a Fraction<N> {
    type Output = Fraction<N>;

    /// `a * b`: the product, where both products of parts fit `N`.
    fn mul(self, other: Self) -> (result: Fraction<N>)
        ensures
            result.wf(),
            Ok::<FractionView, ErrorView>(result@) == Fraction::<N>::spec_try_mul(self@, other@),
    {
        let result = self.try_mul(other).unwrap();
        proof {
            result.lemma_view_determines(Fraction::<N>::holding(result@));
        }
        result
    }
}

impl<'a, N: UnsignedNumber> MulSpecImpl for &'a Fraction<N> {
    open spec fn obeys_mul_spec() -> bool {
        true
    }

    open spec fn mul_req(self, other: Self) -> bool {
        self.wf() && other.wf() && Fraction::<N>::spec_try_mul(self@, other@) is Ok
    }

    open spec fn mul_spec(self, other: Self) -> Fraction<N> {
        Fraction::<N>::holding(Fraction::<N>::spec_try_mul(self@, other@)->Ok_0)
    }
}

impl<'a, N: UnsignedNumber> std::ops::MulAssign<&'a Fraction<N>> for Fraction<N> {
    /// `a *= b`: replaces `a` by the product, where both products of parts fit `N`.
    fn mul_assign(&mut self, other: &'a Fraction<N>)
        requires
            old(self).wf(),
            other.wf(),
            Fraction::<N>::spec_try_mul(old(self)@, other@) is Ok,
        ensures
            final(self).wf(),
            Ok::<FractionView, ErrorView>(final(self)@) == Fraction::<N>::spec_try_mul(
                old(self)@,
                other@,
            ),
    {
        *self = self.try_mul(other).unwrap();
    }
}

impl<N: UnsignedNumber> std::ops::MulAssign for Fraction<N> {
    /// `a *= b`: replaces `a` by the product, where both products of parts fit `N`.
    fn mul_assign(&mut self, other: Fraction<N>)
        requires
            old(self).wf(),
            other.wf(),
            Fraction::<N>::spec_try_mul(old(self)@, other@) is Ok,
        ensures
            final(self).wf(),
            Ok::<FractionView, ErrorView>(final(self)@) == Fraction::<N>::spec_try_mul(
                old(self)@,
                other@,
            ),
    {
        *self = self.try_mul(&other).unwrap();
    }
}

impl<N: UnsignedNumber> std::ops::Div for Fraction<N> {
    type Output = Fraction<N>;

    /// `a / b`: the quotient, for a divisor that is not zero and products that fit `N`.
    fn div(self, other: Self) -> (result: Fraction<N>)
        ensures
            result.wf(),
            Ok::<FractionView, ErrorView>(result@) == Fraction::<N>::spec_try_div(self@, other@),
    {
        let result = self.try_div(&other).unwrap();
        proof {
            result.lemma_view_determines(Fraction::<N>::holding(result@));
        }
        result
    }
}

impl<N: UnsignedNumber> DivSpecImpl for Fraction<N> {
    open spec fn obeys_div_spec() -> bool {
        true
    }

    open spec fn div_req(self, other: Self) -> bool {
        self.wf() && other.wf() && Fraction::<N>::spec_try_div(self@, other@) is Ok
    }

    open spec fn div_spec(self, other: Self) -> Fraction<N> {
        Fraction::<N>::holding(Fraction::<N>::spec_try_div(self@, other@)->Ok_0)
    }
}

impl<'a, N: UnsignedNumber> std::ops::Div for &'a Fraction<N> {
    type Output = Fraction<N>;

    /// `a / b`: the quotient, for a divisor that is not zero and products that fit `N`.
    fn div(self, other: Self) -> (result: Fraction<N>)
        ensures
            result.wf(),
            Ok::<FractionView, ErrorView>(result@) == Fraction::<N>::spec_try_div(self@, other@),
    {
        let result = self.try_div(other).unwrap();
        proof {
            result.lemma_view_determines(Fraction::<N>::holding(result@));
        }
        result
    }
}

impl<'a, N: UnsignedNumber> DivSpecImpl for &'a Fraction<N> {
    open spec fn obeys_div_spec() -> bool {
        true
    }

    open spec fn div_req(self, other: Self) -> bool {
        self.wf() && other.wf() && Fraction::<N>::spec_try_div(self@, other@) is Ok
    }

    open spec fn div_spec(self, other: Self) -> Fraction<N> {
        Fraction::<N>::holding(Fraction::<N>::spec_try_div(self@, other@)->Ok_0)
    }
}

impl<'a, N: UnsignedNumber> std::ops::DivAssign<&'a Fraction<N>> for Fraction<N> {
    /// `a /= b`: replaces `a` by the quotient, for a divisor that is not zero and products that fit `N`.
    fn div_assign(&mut self, other: &'a Fraction<N>)
        requires
            old(self).wf(),
            other.wf(),
            Fraction::<N>::spec_try_div(old(self)@, other@) is Ok,
        ensures
            final(self).wf(),
            Ok::<FractionView, ErrorView>(final(self)@) == Fraction::<N>::spec_try_div(
                old(self)@,
                other@,
            ),
    {
        *self = self.try_div(other).unwrap();
    }
}

impl<N: UnsignedNumber> std::ops::DivAssign for Fraction<N> {
    /// `a /= b`: replaces `a` by the quotient, for a divisor that is not zero and products that fit `N`.
    fn div_assign(&mut self, other: Fraction<N>)
        requires
            old(self).wf(),
            other.wf(),
            Fraction::<N>::spec_try_div(old(self)@, other@) is Ok,
        ensures
            final(self).wf(),
            Ok::<FractionView, ErrorView>(final(self)@) == Fraction::<N>::spec_try_div(
                old(self)@,
                other@,
            ),
    {
        *self = self.try_div(&other).unwrap();
    }
}

} // verus!
