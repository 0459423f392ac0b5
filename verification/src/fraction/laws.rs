use vstd::prelude::*;
use vstd::arithmetic::mul::lemma_mul_equality_converse;
use crate::fraction::Fraction;
use crate::fraction::digits::digits_of;
use crate::fraction::digits::without_plus;
use crate::fraction::view::FractionView;
use crate::fraction::view::lemma_reduced;
use crate::fraction::view::lemma_same_value_equal;
use crate::fraction::view::lemma_value_unique;
use crate::gcd::lemma_divisor_bound;
use crate::gcd::lemma_gcd_basics;
use crate::operation_error::ErrorView;
use crate::operation_error::OperationErrorType;
use crate::sign::Sign;
use crate::unsigned_number::UnsignedNumber;

verus! {

/// If `x` stands for `p / q`, and `r` for the product of `x` and `c`, then
/// `r` stands for `(p * c) / (q * d)`, where `c / d` is the other factor.
pub proof fn lemma_product_of_value(r: FractionView, x: FractionView, p: int, q: int, c: int, d: int)
    requires
        x.denominator > 0,
        x.has_value(p, q),
        r.has_value(x.signed_numerator() * c, x.denominator * d),
    ensures
        r.has_value(p * c, q * d),
{
    let rs = r.signed_numerator();
    let rd = r.denominator as int;
    let xs = x.signed_numerator();
    let xd = x.denominator as int;
    let lhs = rs * (xd * d);
    let rhs = (xs * c) * rd;
    assert(xd * (rs * (q * d)) == q * lhs) by (nonlinear_arith)
        requires
            lhs == rs * (xd * d),
    ;
    assert(q * rhs == (xs * q) * (c * rd)) by (nonlinear_arith)
        requires
            rhs == (xs * c) * rd,
    ;
    assert((p * xd) * (c * rd) == xd * ((p * c) * rd)) by (nonlinear_arith);
    lemma_mul_equality_converse(xd, rs * (q * d), (p * c) * rd);
}

/// If `x` stands for `p / q`, and `r` for the sum of `x` and `c / d`, then
/// `r` stands for `(p * d + c * q) / (q * d)`.
pub proof fn lemma_sum_of_value(r: FractionView, x: FractionView, p: int, q: int, c: int, d: int)
    requires
        x.denominator > 0,
        x.has_value(p, q),
        r.has_value(x.signed_numerator() * d + c * x.denominator, x.denominator * d),
    ensures
        r.has_value(p * d + c * q, q * d),
{
    let rs = r.signed_numerator();
    let rd = r.denominator as int;
    let xs = x.signed_numerator();
    let xd = x.denominator as int;
    let lhs = rs * (xd * d);
    let rhs = (xs * d + c * xd) * rd;
    assert(xd * (rs * (q * d)) == q * lhs) by (nonlinear_arith)
        requires
            lhs == rs * (xd * d),
    ;
    let t1 = (xs * d) * rd;
    let t2 = (c * xd) * rd;
    assert(rhs == t1 + t2) by (nonlinear_arith)
        requires
            rhs == (xs * d + c * xd) * rd,
            t1 == (xs * d) * rd,
            t2 == (c * xd) * rd,
    ;
    assert(q * (t1 + t2) == q * t1 + q * t2) by (nonlinear_arith);
    assert(q * t1 == (xs * q) * (d * rd)) by (nonlinear_arith)
        requires
            t1 == (xs * d) * rd,
    ;
    assert(q * t2 == xd * ((c * q) * rd)) by (nonlinear_arith)
        requires
            t2 == (c * xd) * rd,
    ;
    assert((p * xd) * (d * rd) == xd * ((p * d) * rd)) by (nonlinear_arith);
    assert(xd * ((p * d) * rd) + xd * ((c * q) * rd) == xd * ((p * d + c * q) * rd))
        by (nonlinear_arith);
    lemma_mul_equality_converse(xd, rs * (q * d), (p * d + c * q) * rd);
}

impl<N: UnsignedNumber> Fraction<N> {
    /// Construction gives lowest terms: for a nonzero denominator the
    /// result exists, has no divisor common to numerator and denominator,
    /// stores zero as `+0/1`, and stands for the ratio that was asked for.
    pub proof fn law_new_is_canonical(sign: Sign, numerator: nat, denominator: nat)
        requires
            denominator != 0,
        ensures
            Self::spec_try_new(sign, numerator, denominator) is Ok,
            Self::spec_try_new(sign, numerator, denominator)->Ok_0.canonical(),
            Self::spec_try_new(sign, numerator, denominator)->Ok_0.has_value(
                sign.factor() * numerator,
                denominator as int,
            ),
    {
        lemma_reduced(sign, numerator, denominator);
    }

    /// A product stands for the product of the rational numbers that its
    /// factors stand for.
    pub proof fn law_mul_value(a: Fraction<N>, b: Fraction<N>)
        requires
            a.wf(),
            b.wf(),
            Self::spec_try_mul(a@, b@) is Ok,
        ensures
            Self::spec_try_mul(a@, b@)->Ok_0.canonical(),
            Self::spec_try_mul(a@, b@)->Ok_0.has_value(
                a@.signed_numerator() * b@.signed_numerator(),
                (a@.denominator * b@.denominator) as int,
            ),
    {
        Self::lemma_product_value(a@, b@);
    }

    /// Multiplication does not depend on the order of its operands: the
    /// same product, or the same error.
    pub proof fn law_mul_commutative(a: Fraction<N>, b: Fraction<N>)
        ensures
            Self::spec_try_mul(a@, b@) == Self::spec_try_mul(b@, a@),
    {
        assert(a@.numerator * b@.numerator == b@.numerator * a@.numerator) by (nonlinear_arith);
        assert(a@.denominator * b@.denominator == b@.denominator * a@.denominator)
            by (nonlinear_arith);
    }

    /// Multiplication is associative wherever none of the four products
    /// overflows.
    pub proof fn law_mul_associative(a: Fraction<N>, b: Fraction<N>, c: Fraction<N>)
        requires
            a.wf(),
            b.wf(),
            c.wf(),
            Self::spec_try_mul(a@, b@) is Ok,
            Self::spec_try_mul(b@, c@) is Ok,
            Self::spec_try_mul(Self::spec_try_mul(a@, b@)->Ok_0, c@) is Ok,
            Self::spec_try_mul(a@, Self::spec_try_mul(b@, c@)->Ok_0) is Ok,
        ensures
            Self::spec_try_mul(Self::spec_try_mul(a@, b@)->Ok_0, c@) == Self::spec_try_mul(
                a@,
                Self::spec_try_mul(b@, c@)->Ok_0,
            ),
    {
        let ab = Self::spec_try_mul(a@, b@)->Ok_0;
        let bc = Self::spec_try_mul(b@, c@)->Ok_0;
        let left = Self::spec_try_mul(ab, c@)->Ok_0;
        let right = Self::spec_try_mul(a@, bc)->Ok_0;
        Self::lemma_product_value(a@, b@);
        Self::lemma_product_value(b@, c@);
        Self::lemma_product_value(ab, c@);
        Self::lemma_product_value(a@, bc);
        let sa = a@.signed_numerator();
        let sb = b@.signed_numerator();
        let sc = c@.signed_numerator();
        let da = a@.denominator as int;
        let db = b@.denominator as int;
        let dc = c@.denominator as int;
        lemma_product_of_value(left, ab, sa * sb, da * db, sc, dc);
        let sx = bc.signed_numerator();
        let dx = bc.denominator as int;
        assert(sa * sx == sx * sa && da * dx == dx * da) by (nonlinear_arith);
        assert(right.has_value(sx * sa, dx * da));
        lemma_product_of_value(right, bc, sb * sc, db * dc, sa, da);
        assert((sa * sb) * sc == (sb * sc) * sa) by (nonlinear_arith);
        assert((da * db) * dc == (db * dc) * da) by (nonlinear_arith);
        assert((da * db) * dc > 0) by (nonlinear_arith)
            requires
                da > 0,
                db > 0,
                dc > 0,
        ;
        lemma_value_unique(left, right, (sa * sb) * sc, (da * db) * dc);
    }

    /// A sum stands for the sum of the rational numbers that its operands
    /// stand for.
    pub proof fn law_add_value(a: Fraction<N>, b: Fraction<N>)
        requires
            a.wf(),
            b.wf(),
            Self::spec_try_add(a@, b@) is Ok,
        ensures
            Self::spec_try_add(a@, b@)->Ok_0.canonical(),
            Self::spec_try_add(a@, b@)->Ok_0.has_value(
                a@.signed_numerator() * b@.denominator + b@.signed_numerator() * a@.denominator,
                (a@.denominator * b@.denominator) as int,
            ),
    {
        Self::lemma_sum_value(a@, b@);
    }

    /// Addition does not depend on the order of its operands: the same
    /// sum, or the same error.
    pub proof fn law_add_commutative(a: Fraction<N>, b: Fraction<N>)
        requires
            a.wf(),
            b.wf(),
        ensures
            Self::spec_try_add(a@, b@) == Self::spec_try_add(b@, a@),
    {
        Self::lemma_unify_factors(a@, b@);
        Self::lemma_unify_factors(b@, a@);
        let da = a@.denominator;
        let db = b@.denominator;
        if da != db && db % da == 0 && da % db == 0 {
            lemma_divisor_bound(da, db);
            lemma_divisor_bound(db, da);
        }
        let (ka, kb) = Self::unify_factors(a@, b@);
        assert(Self::unify_factors(b@, a@) == (kb, ka));
        let ua = a@.scaled(ka);
        let ub = b@.scaled(kb);
        assert(ua.denominator == ub.denominator);
    }

    /// Addition is associative wherever none of the four sums overflows.
    pub proof fn law_add_associative(a: Fraction<N>, b: Fraction<N>, c: Fraction<N>)
        requires
            a.wf(),
            b.wf(),
            c.wf(),
            Self::spec_try_add(a@, b@) is Ok,
            Self::spec_try_add(b@, c@) is Ok,
            Self::spec_try_add(Self::spec_try_add(a@, b@)->Ok_0, c@) is Ok,
            Self::spec_try_add(a@, Self::spec_try_add(b@, c@)->Ok_0) is Ok,
        ensures
            Self::spec_try_add(Self::spec_try_add(a@, b@)->Ok_0, c@) == Self::spec_try_add(
                a@,
                Self::spec_try_add(b@, c@)->Ok_0,
            ),
    {
        let ab = Self::spec_try_add(a@, b@)->Ok_0;
        let bc = Self::spec_try_add(b@, c@)->Ok_0;
        let left = Self::spec_try_add(ab, c@)->Ok_0;
        let right = Self::spec_try_add(a@, bc)->Ok_0;
        Self::lemma_sum_value(a@, b@);
        Self::lemma_sum_value(b@, c@);
        Self::lemma_sum_value(ab, c@);
        Self::lemma_sum_value(a@, bc);
        let sa = a@.signed_numerator();
        let sb = b@.signed_numerator();
        let sc = c@.signed_numerator();
        let da = a@.denominator as int;
        let db = b@.denominator as int;
        let dc = c@.denominator as int;
        let sx = bc.signed_numerator();
        let dx = bc.denominator as int;
        lemma_sum_of_value(left, ab, sa * db + sb * da, da * db, sc, dc);
        assert(sa * dx + sx * da == sx * da + sa * dx && da * dx == dx * da) by (nonlinear_arith);
        assert(right.has_value(sx * da + sa * dx, dx * da));
        lemma_sum_of_value(right, bc, sb * dc + sc * db, db * dc, sa, da);
        let p = (sa * db + sb * da) * dc + sc * (da * db);
        let q = (da * db) * dc;
        assert((sb * dc + sc * db) * da == (sb * dc) * da + (sc * db) * da) by (nonlinear_arith);
        assert((sa * db + sb * da) * dc == (sa * db) * dc + (sb * da) * dc) by (nonlinear_arith);
        assert((sb * dc) * da == (sb * da) * dc) by (nonlinear_arith);
        assert((sc * db) * da == sc * (da * db)) by (nonlinear_arith);
        assert(sa * (db * dc) == (sa * db) * dc) by (nonlinear_arith);
        assert((sb * dc + sc * db) * da + sa * (db * dc) == p);
        assert((db * dc) * da == q) by (nonlinear_arith)
            requires
                q == (da * db) * dc,
        ;
        assert(q > 0) by (nonlinear_arith)
            requires
                q == (da * db) * dc,
                da > 0,
                db > 0,
                dc > 0,
        ;
        lemma_value_unique(left, right, p, q);
    }

    /// A fraction and its negation add up to zero, and a fraction minus
    /// itself is zero: neither can overflow.
    pub proof fn law_add_negated_is_zero(a: Fraction<N>)
        requires
            a.wf(),
        ensures
            Self::spec_try_add(a@, a@.negated()) == Ok::<FractionView, ErrorView>(
                FractionView::zero(),
            ),
            Self::spec_try_sub(a@, a@) == Ok::<FractionView, ErrorView>(FractionView::zero()),
    {
        assert(a@.scaled(1) == a@);
        assert(a@.negated().scaled(1) == a@.negated());
    }

    /// A fraction that is not zero, times one over it, is one, wherever
    /// the product of its numerator and its denominator fits `N`; where it
    /// does not, the multiplication reports the overflow.
    pub proof fn law_mul_reciprocal_is_one(a: Fraction<N>)
        requires
            a.wf(),
            a@.numerator != 0,
        ensures
            a@.numerator * a@.denominator <= N::max_value() ==> Self::spec_try_mul(
                a@,
                a@.reciprocal(),
            ) == Ok::<FractionView, ErrorView>(FractionView::natural(1)),
            a@.numerator * a@.denominator > N::max_value() ==> Self::spec_try_mul(
                a@,
                a@.reciprocal(),
            ) == Err::<FractionView, ErrorView>(Self::mul_overflow()),
    {
        let n = a@.numerator;
        let d = a@.denominator;
        assert(n * d == d * n) by (nonlinear_arith);
        assert(n * d > 0) by (nonlinear_arith)
            requires
                n > 0,
                d > 0,
        ;
        lemma_gcd_basics(n * d);
        vstd::arithmetic::div_mod::lemma_div_multiples_vanish(1, (n * d) as int);
    }

    /// Fractions in lowest terms are equal exactly when they stand for the
    /// same rational number.
    pub proof fn law_equal_iff_same_value(a: Fraction<N>, b: Fraction<N>)
        requires
            a.wf(),
            b.wf(),
        ensures
            a@ == b@ <==> a@.same_value(b@),
    {
        if a@.same_value(b@) {
            lemma_same_value_equal(a@, b@);
        }
    }

    /// Every failure of an addition or a multiplication is an overflow.
    pub proof fn law_failure_is_overflow(a: Fraction<N>, b: Fraction<N>)
        ensures
            Self::spec_try_add(a@, b@) is Err ==> Self::spec_try_add(a@, b@)->Err_0.kind
                == OperationErrorType::Overflow,
            Self::spec_try_mul(a@, b@) is Err ==> Self::spec_try_mul(a@, b@)->Err_0.kind
                == OperationErrorType::Overflow,
    {
    }

    /// The rendering of zero reads back as zero. (Every other rendering
    /// holds a slash, which no reading of whole numbers accepts.)
    pub proof fn law_zero_text_reads_back()
        ensures
            Self::ratio_text(FractionView::zero()) == "0"@,
            Self::spec_from_integer_text("0"@) == Some(FractionView::zero()),
    {
        reveal_strlit("0");
        let text = "0"@;
        assert(text =~= seq!['0']);
        assert(without_plus(text) == text);
        assert(text.drop_last() =~= Seq::<char>::empty());
        assert(digits_of(text.drop_last()) == Some(Seq::<u8>::empty()));
        assert(digits_of(text) == Some(Seq::<u8>::empty().push(0u8)));
        let digits = Seq::<u8>::empty().push(0u8);
        assert(digits.skip(1) =~= Seq::<u8>::empty());
        reveal_with_fuel(Fraction::spec_accumulate, 3);
        assert(Self::spec_accumulate(0, digits) == Ok::<nat, ErrorView>(0));
    }

    /// The sum of two fractions with positive denominators, where it
    /// exists, is in lowest terms and stands for the sum of the values.
    pub proof fn lemma_sum_value(a: FractionView, b: FractionView)
        requires
            a.denominator > 0,
            b.denominator > 0,
            Self::spec_try_add(a, b) is Ok,
        ensures
            Self::spec_try_add(a, b)->Ok_0.canonical(),
            Self::spec_try_add(a, b)->Ok_0.has_value(
                a.signed_numerator() * b.denominator + b.signed_numerator() * a.denominator,
                (a.denominator * b.denominator) as int,
            ),
    {
        Self::lemma_unify_factors(a, b);
        let (ka, kb) = Self::unify_factors(a, b);
        let ua = a.scaled(ka);
        let ub = b.scaled(kb);
        let sign = Self::sum_sign(ua, ub);
        let n = Self::sum_numerator(ua, ub);
        let r = Self::spec_try_add(a, b)->Ok_0;
        let fa = a.sign.factor();
        let fb = b.sign.factor();
        let na = a.numerator as int;
        let nb = b.numerator as int;
        let da = a.denominator as int;
        let db = b.denominator as int;
        let ia = ka as int;
        let ib = kb as int;
        let common = da * ia;
        assert(common > 0) by (nonlinear_arith)
            requires
                common == da * ia,
                da > 0,
                ia > 0,
        ;
        lemma_reduced(sign, n, ua.denominator);
        let rs = r.signed_numerator();
        let rd = r.denominator as int;
        let total = fa * (na * ia) + fb * (nb * ib);
        assert(sign.factor() * n == total);
        assert(rs * common == total * rd);
        let sa = fa * na;
        let sb = fb * nb;
        let goal = sa * db + sb * da;
        assert(total == sa * ia + sb * ib) by (nonlinear_arith)
            requires
                total == fa * (na * ia) + fb * (nb * ib),
                sa == fa * na,
                sb == fb * nb,
        ;
        let c1 = da * ia;
        let c2 = db * ib;
        let u = sa * ia;
        let v = sb * ib;
        let w = da * db;
        assert((u + v) * w == u * w + v * w) by (nonlinear_arith);
        assert(u * w == (sa * c1) * db) by (nonlinear_arith)
            requires
                u == sa * ia,
                w == da * db,
                c1 == da * ia,
        ;
        assert(v * w == (sb * c2) * da) by (nonlinear_arith)
            requires
                v == sb * ib,
                w == da * db,
                c2 == db * ib,
        ;
        assert((sa * common) * db + (sb * common) * da == common * goal) by (nonlinear_arith)
            requires
                goal == sa * db + sb * da,
        ;
        let lhs = rs * common;
        let rhs = total * rd;
        assert(common * (rs * (da * db)) == lhs * (da * db)) by (nonlinear_arith)
            requires
                lhs == rs * common,
        ;
        assert(rhs * (da * db) == (total * (da * db)) * rd) by (nonlinear_arith)
            requires
                rhs == total * rd,
        ;
        assert((common * goal) * rd == common * (goal * rd)) by (nonlinear_arith);
        lemma_mul_equality_converse(common, rs * (da * db), goal * rd);
    }

    /// The product of two fractions with positive denominators, where it
    /// exists, is in lowest terms and stands for the product of the values.
    pub proof fn lemma_product_value(a: FractionView, b: FractionView)
        requires
            a.denominator > 0,
            b.denominator > 0,
            Self::spec_try_mul(a, b) is Ok,
        ensures
            Self::spec_try_mul(a, b)->Ok_0.canonical(),
            Self::spec_try_mul(a, b)->Ok_0.has_value(
                a.signed_numerator() * b.signed_numerator(),
                (a.denominator * b.denominator) as int,
            ),
    {
        let sign = a.sign.spec_mul(b.sign);
        let n = a.numerator * b.numerator;
        let d = a.denominator * b.denominator;
        assert(d > 0) by (nonlinear_arith)
            requires
                d == a.denominator * b.denominator,
                a.denominator > 0,
                b.denominator > 0,
        ;
        lemma_reduced(sign, n, d);
        assert(sign.factor() * n == a.signed_numerator() * b.signed_numerator())
            by (nonlinear_arith)
            requires
                sign.factor() == a.sign.factor() * b.sign.factor(),
                n == a.numerator * b.numerator,
                a.signed_numerator() == a.sign.factor() * a.numerator,
                b.signed_numerator() == b.sign.factor() * b.numerator,
        ;
    }
}

} // verus!
