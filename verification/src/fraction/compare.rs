use vstd::prelude::*;
use vstd::std_specs::cmp::PartialEqSpecImpl;
use vstd::std_specs::cmp::PartialOrdSpecImpl;
use std::cmp::Ordering;
use crate::fraction::Fraction;
use crate::fraction::view::FractionView;
use crate::fraction::view::lemma_same_value_equal;
use crate::sign::Sign;
use crate::unsigned_number::UnsignedNumber;

verus! {

/// How one number stands to another.
#[derive(Debug, Copy, Clone, PartialEq, Eq, Structural)]
pub enum Relation {
    Less,
    Equal,
    Greater,
}

/// How `x` stands to `y`.
pub open spec fn relation_of(x: int, y: int) -> Relation {
    if x < y {
        Relation::Less
    } else if x == y {
        Relation::Equal
    } else {
        Relation::Greater
    }
}

/// How the ratio `n1 / d1` stands to the ratio `n2 / d2`.
pub open spec fn ratio_relation(n1: nat, d1: nat, n2: nat, d2: nat) -> Relation {
    relation_of((n1 * d2) as int, (n2 * d1) as int)
}

/// The ratio with the larger whole part is the larger ratio.
proof fn lemma_whole_parts_decide(a: int, b: int, c: int, d: int)
    requires
        a >= 0,
        c >= 0,
        b > 0,
        d > 0,
        a / b > c / d,
    ensures
        a * d > c * b,
{
    let q1 = a / b;
    let q2 = c / d;
    let r1 = a % b;
    let r2 = c % d;
    vstd::arithmetic::div_mod::lemma_fundamental_div_mod(a, b);
    vstd::arithmetic::div_mod::lemma_fundamental_div_mod(c, d);
    assert(a * d >= (q2 + 1) * (b * d)) by (nonlinear_arith)
        requires
            a == b * q1 + r1,
            r1 >= 0,
            q1 >= q2 + 1,
            b > 0,
            d > 0,
    ;
    assert(c * b < (q2 + 1) * (b * d)) by (nonlinear_arith)
        requires
            c == d * q2 + r2,
            r2 < d,
            b > 0,
            d > 0,
    ;
}

/// Ratios with equal whole parts stand to each other as their remainders
/// do.
proof fn lemma_remainders_decide(a: int, b: int, c: int, d: int)
    requires
        a >= 0,
        c >= 0,
        b > 0,
        d > 0,
        a / b == c / d,
    ensures
        relation_of(a * d, c * b) == relation_of((a % b) * d, (c % d) * b),
        relation_of(a * d, c * b) == relation_of(d * (a % b), b * (c % d)),
{
    let q = a / b;
    let r1 = a % b;
    let r2 = c % d;
    vstd::arithmetic::div_mod::lemma_fundamental_div_mod(a, b);
    vstd::arithmetic::div_mod::lemma_fundamental_div_mod(c, d);
    assert(a * d - c * b == r1 * d - r2 * b) by (nonlinear_arith)
        requires
            a == b * q + r1,
            c == d * q + r2,
    ;
    assert(r1 * d == d * r1 && r2 * b == b * r2) by (nonlinear_arith);
}

/// A ratio without remainder is below one with the same whole part and a
/// remainder.
proof fn lemma_zero_remainder(r: int, b: int)
    requires
        r > 0,
        b > 0,
    ensures
        r * b > 0,
{
    assert(r * b > 0) by (nonlinear_arith)
        requires
            r > 0,
            b > 0,
    ;
}

impl<N: UnsignedNumber> Fraction<N> {
    /// How `n1 / d1` stands to `n2 / d2`, found without a product that
    /// could overflow: by whole parts first, then by the remainders'
    /// ratios turned over.
    pub fn compare_ratios(n1: N, d1: N, n2: N, d2: N) -> (result: Relation)
        requires
            d1.value() > 0,
            d2.value() > 0,
        ensures
            result == ratio_relation(n1.value(), d1.value(), n2.value(), d2.value()),
    {
        let mut a = n1;
        let mut b = d1;
        let mut c = n2;
        let mut d = d2;
        proof {
            N::lemma_constants();
        }
        loop
            invariant
                b.value() > 0,
                d.value() > 0,
                N::ZERO.value() == 0,
                ratio_relation(a.value(), b.value(), c.value(), d.value()) == ratio_relation(
                    n1.value(),
                    d1.value(),
                    n2.value(),
                    d2.value(),
                ),
            decreases b.value() + d.value(),
        {
            let q1 = a.quotient(b);
            let q2 = c.quotient(d);
            if q1.is_greater(q2) {
                proof {
                    lemma_whole_parts_decide(
                        a.value() as int,
                        b.value() as int,
                        c.value() as int,
                        d.value() as int,
                    );
                }
                return Relation::Greater;
            }
            if q2.is_greater(q1) {
                proof {
                    lemma_whole_parts_decide(
                        c.value() as int,
                        d.value() as int,
                        a.value() as int,
                        b.value() as int,
                    );
                }
                return Relation::Less;
            }
            let r1 = a.modulo(b);
            let r2 = c.modulo(d);
            proof {
                lemma_remainders_decide(
                    a.value() as int,
                    b.value() as int,
                    c.value() as int,
                    d.value() as int,
                );
                if r1.value() > 0 {
                    lemma_zero_remainder(r1.value() as int, d.value() as int);
                }
                if r2.value() > 0 {
                    lemma_zero_remainder(r2.value() as int, b.value() as int);
                }
                assert(0 * d.value() == 0 && 0 * b.value() == 0);
            }
            if r1.is_equal(N::ZERO) {
                if r2.is_equal(N::ZERO) {
                    return Relation::Equal;
                }
                return Relation::Less;
            }
            if r2.is_equal(N::ZERO) {
                return Relation::Greater;
            }
            a = d;
            c = b;
            b = r2;
            d = r1;
        }
    }
}

/// Whether `a` is below `b`, is `b`, or is above `b`, as rational numbers.
pub open spec fn value_relation(a: FractionView, b: FractionView) -> Relation {
    relation_of(a.signed_numerator() * b.denominator, b.signed_numerator() * a.denominator)
}

/// A number below zero is below every number that is not.
proof fn lemma_negative_is_less(a: FractionView, b: FractionView)
    requires
        a.denominator > 0,
        b.denominator > 0,
        a.signed_numerator() < 0,
        b.signed_numerator() >= 0,
    ensures
        value_relation(a, b) == Relation::Less,
        value_relation(b, a) == Relation::Greater,
{
    let sa = a.signed_numerator();
    let sb = b.signed_numerator();
    let da = a.denominator as int;
    let db = b.denominator as int;
    assert(sa * db < 0 && sb * da >= 0) by (nonlinear_arith)
        requires
            sa < 0,
            sb >= 0,
            da > 0,
            db > 0,
    ;
}

/// Among numbers of one polarity the magnitudes decide, turned round
/// below zero.
proof fn lemma_magnitudes_decide(a: FractionView, b: FractionView)
    ensures
        a.signed_numerator() >= 0 && b.signed_numerator() >= 0 ==> value_relation(a, b)
            == ratio_relation(a.numerator, a.denominator, b.numerator, b.denominator),
        a.signed_numerator() < 0 && b.signed_numerator() < 0 ==> value_relation(a, b)
            == ratio_relation(b.numerator, b.denominator, a.numerator, a.denominator),
{
    let na = a.numerator as int;
    let nb = b.numerator as int;
    let da = a.denominator as int;
    let db = b.denominator as int;
    assert((-1 * na) * db == -(na * db) && (-1 * nb) * da == -(nb * da)) by (nonlinear_arith);
    assert((1 * na) * db == na * db && (1 * nb) * da == nb * da) by (nonlinear_arith);
    assert(0 * db == 0 && 0 * da == 0);
}

impl<N: UnsignedNumber> Fraction<N> {
    /// How this fraction stands to another as a rational number, for
    /// nonzero denominators.
    pub fn relation_to(&self, other: &Fraction<N>) -> (result: Relation)
        requires
            self@.denominator > 0,
            other@.denominator > 0,
        ensures
            result == value_relation(self@, other@),
    {
        proof {
            lemma_magnitudes_decide(self@, other@);
        }
        let self_negative = self.is_negative();
        let other_negative = other.is_negative();
        if self_negative && !other_negative {
            proof {
                lemma_negative_is_less(self@, other@);
            }
            Relation::Less
        } else if !self_negative && other_negative {
            proof {
                lemma_negative_is_less(other@, self@);
            }
            Relation::Greater
        } else if self_negative {
            Self::compare_ratios(
                other.numerator(),
                other.denominator(),
                self.numerator(),
                self.denominator(),
            )
        } else {
            Self::compare_ratios(
                self.numerator(),
                self.denominator(),
                other.numerator(),
                other.denominator(),
            )
        }
    }
}

impl<N: UnsignedNumber> PartialEq for Fraction<N> {
    /// Whether sign, numerator and denominator agree. For fractions in
    /// lowest terms that is whether they stand for the same number.
    fn eq(&self, other: &Self) -> (result: bool) {
        self.sign() == other.sign() && self.numerator().is_equal(other.numerator())
            && self.denominator().is_equal(other.denominator())
    }
}

impl<N: UnsignedNumber> PartialEqSpecImpl for Fraction<N> {
    open spec fn obeys_eq_spec() -> bool {
        true
    }

    open spec fn eq_spec(&self, other: &Self) -> bool {
        self@ == other@
    }
}

impl<N: UnsignedNumber> Eq for Fraction<N> {

}

impl<N: UnsignedNumber> PartialOrd for Fraction<N> {
    /// The order of the rational numbers that the two fractions stand
    /// for.
    fn partial_cmp(&self, other: &Self) -> (result: Option<Ordering>) {
        proof {
            N::lemma_constants();
        }
        if self.denominator().is_equal(N::ZERO) || other.denominator().is_equal(N::ZERO) {
            return None;
        }
        match self.relation_to(other) {
            Relation::Less => Some(Ordering::Less),
            Relation::Equal => Some(Ordering::Equal),
            Relation::Greater => Some(Ordering::Greater),
        }
    }
}

impl<N: UnsignedNumber> PartialOrdSpecImpl for Fraction<N> {
    open spec fn obeys_partial_cmp_spec() -> bool {
        true
    }

    open spec fn partial_cmp_spec(&self, other: &Self) -> Option<Ordering> {
        if self@.denominator == 0 || other@.denominator == 0 {
            None
        } else {
            match value_relation(self@, other@) {
                Relation::Less => Some(Ordering::Less),
                Relation::Equal => Some(Ordering::Equal),
                Relation::Greater => Some(Ordering::Greater),
            }
        }
    }
}

/// How two fractions over one denominator stand to each other: a negative
/// one is below a positive one; under one sign the numerators decide,
/// turned round where both are negative.
pub open spec fn unified_relation(a: FractionView, b: FractionView) -> Relation {
    if a.sign == Sign::Negative && b.sign == Sign::Positive {
        Relation::Less
    } else if a.sign == Sign::Positive && b.sign == Sign::Negative {
        Relation::Greater
    } else if a.sign == Sign::Negative {
        relation_of(b.numerator as int, a.numerator as int)
    } else {
        relation_of(a.numerator as int, b.numerator as int)
    }
}

/// Scaling both sides of a comparison by a positive number keeps it.
proof fn lemma_relation_scales(x: int, y: int, k: int)
    requires
        k > 0,
    ensures
        relation_of(x * k, y * k) == relation_of(x, y),
{
    assert(x < y ==> x * k < y * k) by (nonlinear_arith)
        requires
            k > 0,
    ;
    assert(x > y ==> x * k > y * k) by (nonlinear_arith)
        requires
            k > 0,
    ;
    assert(x == y ==> x * k == y * k) by (nonlinear_arith);
}

impl<N: UnsignedNumber> Fraction<N> {
    /// Wherever two fractions can be brought over a common denominator
    /// without overflow, their order as rational numbers is the order
    /// that their signs and unified numerators give, and they are equal
    /// exactly when their unified forms are.
    pub proof fn law_order_by_unified_numerators(a: Fraction<N>, b: Fraction<N>)
        requires
            a.wf(),
            b.wf(),
            Self::spec_unify(a@, b@) is Ok,
        ensures
            value_relation(a@, b@) == unified_relation(
                Self::spec_unify(a@, b@)->Ok_0.0,
                Self::spec_unify(a@, b@)->Ok_0.1,
            ),
            a@ == b@ <==> Self::spec_unify(a@, b@)->Ok_0.0 == Self::spec_unify(a@, b@)->Ok_0.1,
    {
        Self::lemma_unify_factors(a@, b@);
        let (ka, kb) = Self::unify_factors(a@, b@);
        let ua = a@.scaled(ka);
        let ub = b@.scaled(kb);
        let fa = a@.sign.factor();
        let fb = b@.sign.factor();
        let na = a@.numerator as int;
        let nb = b@.numerator as int;
        let da = a@.denominator as int;
        let db = b@.denominator as int;
        let ia = ka as int;
        let ib = kb as int;
        let common = da * ia;
        let sa = fa * na;
        let sb = fb * nb;
        assert(common > 0 && ia * ib > 0) by (nonlinear_arith)
            requires
                common == da * ia,
                da > 0,
                ia > 0,
                ib > 0,
        ;
        lemma_relation_scales(sa * db, sb * da, ia * ib);
        assert((sa * db) * (ia * ib) == (sa * ia) * common) by (nonlinear_arith)
            requires
                common == db * ib,
        ;
        assert((sb * da) * (ia * ib) == (sb * ib) * common) by (nonlinear_arith)
            requires
                common == da * ia,
        ;
        lemma_relation_scales(sa * ia, sb * ib, common);
        assert(sa * ia == fa * (na * ia) && sb * ib == fb * (nb * ib)) by (nonlinear_arith)
            requires
                sa == fa * na,
                sb == fb * nb,
        ;
        assert(value_relation(a@, b@) == relation_of(
            fa * (ua.numerator as int),
            fb * (ub.numerator as int),
        ));
        let xa = ua.numerator as int;
        let xb = ub.numerator as int;
        assert(fa * xa == (if fa == 1 {
            xa
        } else {
            -xa
        }) && fb * xb == (if fb == 1 {
            xb
        } else {
            -xb
        })) by (nonlinear_arith)
            requires
                fa == 1 || fa == -1,
                fb == 1 || fb == -1,
        ;
        if a@.numerator == 0 {
            assert(na * ia == 0) by (nonlinear_arith)
                requires
                    na == 0,
            ;
        } else {
            assert(na * ia > 0) by (nonlinear_arith)
                requires
                    na > 0,
                    ia > 0,
            ;
        }
        if b@.numerator == 0 {
            assert(nb * ib == 0) by (nonlinear_arith)
                requires
                    nb == 0,
            ;
        } else {
            assert(nb * ib > 0) by (nonlinear_arith)
                requires
                    nb > 0,
                    ib > 0,
            ;
        }
        if ua == ub {
            assert(a@.same_value(b@)) by {
                assert(relation_of(sa * ia, sb * ib) == Relation::Equal);
            }
            lemma_same_value_equal(a@, b@);
        }
    }
}

} // verus!
