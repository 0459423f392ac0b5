use rfraction::Fraction;
use rfraction::OperationErrorType;
use rfraction::Sign;

fn gcd(a: u32, b: u32) -> u32 {
    if b == 0 {
        a
    } else {
        gcd(b, a % b)
    }
}

fn samples() -> Vec<Fraction<u32>> {
    let mut all = Vec::new();
    for numerator in 0..7u32 {
        for denominator in 1..7u32 {
            all.push(Fraction::new(Sign::Positive, numerator, denominator));
            all.push(Fraction::new(Sign::Negative, numerator, denominator));
        }
    }
    all
}

#[test]
fn construction_gives_lowest_terms() {
    for numerator in 0..40u32 {
        for denominator in 1..40u32 {
            let number = Fraction::new(Sign::Negative, numerator, denominator);
            assert_eq!(gcd(number.numerator(), number.denominator()), 1);
            assert_eq!(
                number.numerator() * denominator,
                numerator * number.denominator()
            );
            if numerator == 0 {
                assert_eq!(number.denominator(), 1);
                assert_eq!(number.sign(), Sign::Positive);
            } else {
                assert_eq!(number.sign(), Sign::Negative);
            }
        }
    }
}

#[test]
fn addition_and_multiplication_are_commutative() {
    for a in samples() {
        for b in samples() {
            assert_eq!(a.try_add(&b).unwrap(), b.try_add(&a).unwrap());
            assert_eq!(a.try_mul(&b).unwrap(), b.try_mul(&a).unwrap());
        }
    }
}

#[test]
fn addition_and_multiplication_are_associative() {
    let all = samples();
    for a in all.iter().step_by(5) {
        for b in all.iter().step_by(3) {
            for c in all.iter().step_by(7) {
                assert_eq!(
                    a.try_add(b).unwrap().try_add(c).unwrap(),
                    a.try_add(&b.try_add(c).unwrap()).unwrap()
                );
                assert_eq!(
                    a.try_mul(b).unwrap().try_mul(c).unwrap(),
                    a.try_mul(&b.try_mul(c).unwrap()).unwrap()
                );
            }
        }
    }
}

#[test]
fn commutativity_holds_for_failures_too() {
    let a = Fraction::<u8>::new(Sign::Positive, 1, 17);
    let b = Fraction::<u8>::new(Sign::Negative, 1, 19);
    assert_eq!(a.try_add(&b).unwrap_err(), b.try_add(&a).unwrap_err());
    let c = Fraction::<u8>::new(Sign::Positive, 20, 1);
    let d = Fraction::<u8>::new(Sign::Positive, 13, 1);
    assert_eq!(c.try_mul(&d).unwrap_err(), d.try_mul(&c).unwrap_err());
}

#[test]
fn a_number_plus_its_negation_is_zero() {
    for a in samples() {
        assert_eq!(a.try_add(&a.neg()).unwrap(), Fraction::new_zero());
        assert_eq!(a.try_sub(&a).unwrap(), Fraction::new_zero());
    }
    let large = Fraction::<u8>::new(Sign::Negative, 255, 254);
    assert_eq!(large.try_add(&large.neg()).unwrap(), Fraction::new_zero());
    assert_eq!(large.try_sub(&large).unwrap(), Fraction::new_zero());
}

#[test]
fn a_number_times_its_reciprocal_is_one() {
    for a in samples() {
        if a.is_zero() {
            let error = a.try_reverse().unwrap_err();
            assert_eq!(error.error_type(), OperationErrorType::DivisionByZero);
        } else {
            assert_eq!(
                a.try_mul(&a.reverse()).unwrap(),
                Fraction::new_natural(1)
            );
        }
    }
}

#[test]
fn a_reciprocal_product_beyond_the_range_overflows() {
    let a = Fraction::<u8>::new(Sign::Positive, 20, 21);
    let error = a.try_mul(&a.reverse()).unwrap_err();
    assert_eq!(error.error_type(), OperationErrorType::Overflow);
}

#[test]
fn the_rendering_of_zero_reads_back() {
    let zero = Fraction::<u64>::new_zero();
    assert_eq!(
        Fraction::<u64>::from_integer_str(&zero.to_ratio_string()),
        Some(zero)
    );
    let ten = Fraction::<u64>::new_natural(10);
    assert_eq!(Fraction::<u64>::from_integer_str(&ten.to_ratio_string()), None);
}

#[test]
fn order_agrees_with_cross_multiplication() {
    for a in samples() {
        for b in samples() {
            let left = signed(&a) * i64::from(b.denominator());
            let right = signed(&b) * i64::from(a.denominator());
            assert_eq!(a.partial_cmp(&b), left.partial_cmp(&right));
            assert_eq!(a == b, left == right);
        }
    }
}

fn signed(number: &Fraction<u32>) -> i64 {
    match number.sign() {
        Sign::Positive => i64::from(number.numerator()),
        Sign::Negative => -i64::from(number.numerator()),
    }
}
