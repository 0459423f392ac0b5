use vstd::prelude::*;
use vstd::arithmetic::mul::lemma_mul_equality_converse;
use crate::gcd::gcd;
use crate::gcd::lemma_gcd_basics;
use crate::gcd::lemma_lowest_terms_unique;
use crate::gcd::lemma_reduce;
use crate::sign::Sign;

verus! {

/// A fraction as plain values: a sign, and a numerator over a denominator.
pub struct FractionView {
    pub sign: Sign,
    pub numerator: nat,
    pub denominator: nat,
}

impl FractionView {
    /// Zero, in the one form it is stored in.
    pub open spec fn zero() -> FractionView {
        FractionView { sign: Sign::Positive, numerator: 0, denominator: 1 }
    }

    /// The natural number `n` over one.
    pub open spec fn natural(n: nat) -> FractionView {
        FractionView { sign: Sign::Positive, numerator: n, denominator: 1 }
    }

    /// Lowest terms: a positive denominator that shares no divisor with the
    /// numerator, and zero stored as `+0/1`.
    pub open spec fn canonical(self) -> bool {
        &&& self.denominator > 0
        &&& gcd(self.numerator, self.denominator) == 1
        &&& (self.numerator == 0 ==> self.sign == Sign::Positive)
    }

    /// Whether numerator and denominator are at most `max`.
    pub open spec fn fits(self, max: nat) -> bool {
        self.numerator <= max && self.denominator <= max
    }

    /// The numerator with the sign applied.
    pub open spec fn signed_numerator(self) -> int {
        self.sign.factor() * self.numerator
    }

    /// Whether both stand for the same rational number.
    pub open spec fn same_value(self, other: FractionView) -> bool {
        self.signed_numerator() * other.denominator == other.signed_numerator()
            * self.denominator
    }

    /// Whether the fraction stands for the rational number `p / q`.
    pub open spec fn has_value(self, p: int, q: int) -> bool {
        self.signed_numerator() * q == p * self.denominator
    }

    /// Numerator and denominator both multiplied by `k`.
    pub open spec fn scaled(self, k: nat) -> FractionView {
        FractionView {
            sign: self.sign,
            numerator: self.numerator * k,
            denominator: self.denominator * k,
        }
    }

    /// The same magnitude with the opposite sign; zero stays as it is.
    pub open spec fn negated(self) -> FractionView {
        if self.numerator == 0 {
            self
        } else {
            FractionView { sign: self.sign.spec_inverse(), ..self }
        }
    }

    /// The same magnitude with a positive sign.
    pub open spec fn absolute(self) -> FractionView {
        FractionView { sign: Sign::Positive, ..self }
    }

    /// Numerator and denominator exchanged, under the same sign.
    pub open spec fn reciprocal(self) -> FractionView {
        FractionView {
            sign: self.sign,
            numerator: self.denominator,
            denominator: self.numerator,
        }
    }

    /// `n / d` with the given sign, in lowest terms; a zero numerator gives
    /// the canonical zero whatever the sign.
    pub open spec fn reduced(sign: Sign, n: nat, d: nat) -> FractionView {
        if n == 0 {
            FractionView::zero()
        } else {
            FractionView { sign, numerator: n / gcd(n, d), denominator: d / gcd(n, d) }
        }
    }
}

/// Reducing keeps the value, gives lowest terms, and never grows a part.
pub proof fn lemma_reduced(sign: Sign, n: nat, d: nat)
    requires
        d > 0,
    ensures
        FractionView::reduced(sign, n, d).canonical(),
        FractionView::reduced(sign, n, d).same_value(
            FractionView { sign, numerator: n, denominator: d },
        ),
        FractionView::reduced(sign, n, d).numerator <= n,
        FractionView::reduced(sign, n, d).denominator <= d,
        FractionView::reduced(sign, n, d).numerator * d == n * FractionView::reduced(
            sign,
            n,
            d,
        ).denominator,
{
    lemma_gcd_basics(1);
    if n != 0 {
        lemma_reduce(n, d);
        let g = gcd(n, d);
        let x = n / g;
        let y = d / g;
        assert(x * d == n * y) by (nonlinear_arith)
            requires
                n == g * x,
                d == g * y,
        ;
        assert(x <= n && y <= d) by (nonlinear_arith)
            requires
                n == g * x,
                d == g * y,
                g > 0,
        ;
        assert((sign.factor() * x) * d == (sign.factor() * n) * y) by (nonlinear_arith)
            requires
                x * d == n * y,
        ;
        if x == 0 {
            assert(g * x == 0) by (nonlinear_arith)
                requires
                    x == 0,
            ;
        }
    }
}

/// A fraction already in lowest terms is its own reduced form.
pub proof fn lemma_reduced_is_identity(v: FractionView)
    requires
        v.canonical(),
    ensures
        FractionView::reduced(v.sign, v.numerator, v.denominator) == v,
{
    lemma_gcd_basics(v.denominator);
}

/// Two fractions in lowest terms that stand for the same rational number
/// `p / q` are the same fraction.
pub proof fn lemma_value_unique(a: FractionView, b: FractionView, p: int, q: int)
    requires
        a.canonical(),
        b.canonical(),
        q > 0,
        a.has_value(p, q),
        b.has_value(p, q),
    ensures
        a == b,
{
    let sa = a.signed_numerator();
    let sb = b.signed_numerator();
    let da = a.denominator as int;
    let db = b.denominator as int;
    assert(q * (sa * db) == q * (sb * da)) by (nonlinear_arith)
        requires
            sa * q == p * da,
            sb * q == p * db,
    ;
    lemma_mul_equality_converse(q, sa * db, sb * da);
    lemma_same_value_equal(a, b);
}

/// Two fractions in lowest terms with equal cross products are the same
/// fraction.
pub proof fn lemma_same_value_equal(a: FractionView, b: FractionView)
    requires
        a.canonical(),
        b.canonical(),
        a.same_value(b),
    ensures
        a == b,
{
    let na = a.numerator as int;
    let nb = b.numerator as int;
    let da = a.denominator as int;
    let db = b.denominator as int;
    if a.sign == b.sign {
        assert(na * db == nb * da) by (nonlinear_arith)
            requires
                (a.sign.factor() * na) * db == (a.sign.factor() * nb) * da,
                a.sign.factor() == 1 || a.sign.factor() == -1,
        ;
        lemma_lowest_terms_unique(a.numerator, a.denominator, b.numerator, b.denominator);
    } else {
        assert(na == 0 && nb == 0) by (nonlinear_arith)
            requires
                (a.sign.factor() * na) * db == (b.sign.factor() * nb) * da,
                a.sign.factor() == 1 || a.sign.factor() == -1,
                b.sign.factor() == -a.sign.factor(),
                na >= 0,
                nb >= 0,
                da > 0,
                db > 0,
        ;
    }
}

} // verus!
