use vstd::prelude::*;
use vstd::arithmetic::div_mod::lemma_fundamental_div_mod;
use vstd::arithmetic::div_mod::lemma_mod_multiples_basic;
use vstd::arithmetic::div_mod::lemma_small_mod;
use vstd::arithmetic::div_mod::lemma_truncate_middle;
use vstd::arithmetic::mul::lemma_mul_equality_converse;

verus! {

/// Whether `d` divides `n` without a remainder.
pub open spec fn divides(d: nat, n: nat) -> bool {
    d > 0 && n % d == 0
}

/// The greatest common divisor of `a` and `b`, by Euclid's recursion.
/// `lemma_gcd_divides` and `lemma_gcd_greatest` show that it is the common
/// divisor that every other common divisor divides.
pub open spec fn gcd(a: nat, b: nat) -> nat
    decreases b,
{
    if b == 0 {
        a
    } else {
        gcd(b, a % b)
    }
}

/// A number that `d` divides is `d` times its quotient by `d`.
pub proof fn lemma_divides_product(d: nat, n: nat)
    requires
        divides(d, n),
    ensures
        n == d * (n / d),
{
    lemma_fundamental_div_mod(n as int, d as int);
}

/// Whatever divides two numbers divides every `x * q + y` built from them.
pub proof fn lemma_divides_combination(d: nat, x: nat, q: nat, y: nat)
    requires
        divides(d, x),
        divides(d, y),
    ensures
        divides(d, x * q + y),
{
    lemma_divides_product(d, x);
    lemma_divides_product(d, y);
    let k = (x / d) * q + (y / d);
    assert(x * q + y == k * d) by (nonlinear_arith)
        requires
            x == d * (x / d),
            y == d * (y / d),
            k == (x / d) * q + (y / d),
    ;
    lemma_mod_multiples_basic(k as int, d as int);
}

/// Whatever divides a number and its divisor divides the remainder too.
pub proof fn lemma_divides_remainder(d: nat, a: nat, b: nat)
    requires
        b > 0,
        divides(d, a),
        divides(d, b),
    ensures
        divides(d, a % b),
{
    lemma_divides_product(d, a);
    lemma_divides_product(d, b);
    lemma_fundamental_div_mod(a as int, b as int);
    let r = (a % b) as int;
    let q = (a / b) as int;
    let qa = (a / d) as int;
    let qb = (b / d) as int;
    let k = qa - qb * q;
    assert(r == k * d) by (nonlinear_arith)
        requires
            d * qa == (d * qb) * q + r,
            k == qa - qb * q,
    ;
    lemma_mod_multiples_basic(k, d as int);
}

/// A positive number is at least as large as each of its divisors.
pub proof fn lemma_divisor_bound(d: nat, n: nat)
    requires
        n > 0,
        divides(d, n),
    ensures
        d <= n,
{
    if d > n {
        lemma_small_mod(n, d);
    }
}

/// The greatest common divisor is positive unless both numbers are zero.
pub proof fn lemma_gcd_positive(a: nat, b: nat)
    requires
        a > 0 || b > 0,
    ensures
        gcd(a, b) > 0,
    decreases b,
{
    if b != 0 {
        lemma_gcd_positive(b, a % b);
    }
}

/// The greatest common divisor divides both numbers.
pub proof fn lemma_gcd_divides(a: nat, b: nat)
    requires
        a > 0 || b > 0,
    ensures
        divides(gcd(a, b), a),
        divides(gcd(a, b), b),
    decreases b,
{
    let g = gcd(a, b);
    lemma_gcd_positive(a, b);
    if b == 0 {
        lemma_mod_multiples_basic(1, a as int);
        lemma_mod_multiples_basic(0, a as int);
    } else {
        lemma_gcd_divides(b, a % b);
        lemma_fundamental_div_mod(a as int, b as int);
        lemma_divides_combination(g, b, a / b, a % b);
    }
}

/// Every common divisor of two numbers divides their greatest common divisor.
pub proof fn lemma_gcd_greatest(a: nat, b: nat, d: nat)
    requires
        divides(d, a),
        divides(d, b),
    ensures
        divides(d, gcd(a, b)),
    decreases b,
{
    if b != 0 {
        lemma_divides_remainder(d, a, b);
        lemma_gcd_greatest(b, a % b, d);
    }
}

/// The greatest common divisor does not depend on the order of its arguments.
pub proof fn lemma_gcd_symmetric(a: nat, b: nat)
    ensures
        gcd(a, b) == gcd(b, a),
{
    if a == 0 && b == 0 {
    } else {
        lemma_gcd_divides(a, b);
        lemma_gcd_divides(b, a);
        lemma_gcd_greatest(b, a, gcd(a, b));
        lemma_gcd_greatest(a, b, gcd(b, a));
        lemma_gcd_positive(a, b);
        lemma_gcd_positive(b, a);
        lemma_divisor_bound(gcd(a, b), gcd(b, a));
        lemma_divisor_bound(gcd(b, a), gcd(a, b));
    }
}

/// A common factor can be taken out of a greatest common divisor.
pub proof fn lemma_gcd_scales(k: nat, a: nat, b: nat)
    requires
        k > 0,
    ensures
        gcd(k * a, k * b) == k * gcd(a, b),
    decreases b,
{
    if b == 0 {
        assert(k * b == 0) by (nonlinear_arith)
            requires
                b == 0,
        ;
    } else {
        assert(k * b > 0) by (nonlinear_arith)
            requires
                b > 0,
                k > 0,
        ;
        lemma_truncate_middle(a as int, k as int, b as int);
        assert((k * a) % (k * b) == k * (a % b));
        lemma_gcd_scales(k, b, a % b);
    }
}

/// The greatest common divisors with zero, with one, and of a number with itself.
pub proof fn lemma_gcd_basics(a: nat)
    ensures
        gcd(a, 0) == a,
        gcd(0, a) == a,
        gcd(a, 1) == 1,
        gcd(a, a) == a,
{
    reveal_with_fuel(gcd, 3);
    if a > 0 {
        lemma_mod_multiples_basic(1, a as int);
        lemma_small_mod(0, a);
    }
}

/// Dividing two numbers by their greatest common divisor leaves nothing in
/// common, and loses nothing: each is the divisor times its quotient.
pub proof fn lemma_reduce(a: nat, b: nat)
    requires
        b > 0,
    ensures
        gcd(a, b) > 0,
        a == gcd(a, b) * (a / gcd(a, b)),
        b == gcd(a, b) * (b / gcd(a, b)),
        b / gcd(a, b) > 0,
        gcd(a / gcd(a, b), b / gcd(a, b)) == 1,
{
    let g = gcd(a, b);
    lemma_gcd_positive(a, b);
    lemma_gcd_divides(a, b);
    lemma_divides_product(g, a);
    lemma_divides_product(g, b);
    let x = a / g;
    let y = b / g;
    lemma_gcd_scales(g, x, y);
    assert(g * gcd(x, y) == g * 1);
    lemma_mul_equality_converse(g as int, gcd(x, y) as int, 1);
    if y == 0 {
        assert(g * y == 0) by (nonlinear_arith)
            requires
                y == 0,
        ;
    }
}

/// A ratio has one form in lowest terms: two reduced pairs with equal cross
/// products are the same pair.
pub proof fn lemma_lowest_terms_unique(n1: nat, d1: nat, n2: nat, d2: nat)
    requires
        d1 > 0,
        d2 > 0,
        gcd(n1, d1) == 1,
        gcd(n2, d2) == 1,
        n1 * d2 == n2 * d1,
    ensures
        n1 == n2,
        d1 == d2,
{
    lemma_gcd_scales(d2, n1, d1);
    lemma_gcd_scales(d1, n2, d2);
    assert(d2 * n1 == d1 * n2) by (nonlinear_arith)
        requires
            n1 * d2 == n2 * d1,
    ;
    assert(d2 * d1 == d1 * d2) by (nonlinear_arith);
    assert(d2 * 1 == d1 * 1);
    assert(d1 == d2);
    lemma_mul_equality_converse(d1 as int, n1 as int, n2 as int);
}

} // verus!
