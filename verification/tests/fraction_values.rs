use std::cmp::Ordering;

use fasti::{Fraction, TimeError};
#[test]
fn rejects_zero_denominator() {
    assert_eq!(Fraction::new(0, 0), Err(TimeError::ZeroDenominator));
    assert_eq!(Fraction::new(7, 0), Err(TimeError::ZeroDenominator));
    assert_eq!(Fraction::new(-7, 0), Err(TimeError::ZeroDenominator));
}

#[test]
fn reduces_on_construction() {
    assert_eq!(Fraction::new(2, 4).unwrap().parts(), (1, 2));
    assert_eq!(Fraction::new(0, 5).unwrap().parts(), (0, 1));
    assert_eq!(Fraction::new(7, 360).unwrap().parts(), (7, 360));
    assert_eq!(Fraction::new(360, 360).unwrap().parts(), (1, 1));
}

#[test]
fn negative_numerator_round_trips() {
    // Sign lives on the numerator; the denominator stays positive.
    assert_eq!(Fraction::new(-30, 360).unwrap().parts(), (-1, 12));
    assert_eq!(Fraction::new(-7, 360).unwrap().parts(), (-7, 360));
}

#[test]
fn negation_through_construction() {
    let pos = Fraction::new(7, 360).unwrap();
    let neg = Fraction::new(-7, 360).unwrap();
    assert_eq!(pos.numerator(), 7);
    assert_eq!(neg.numerator(), -7);
    assert_eq!(pos.denominator(), neg.denominator());
}

#[test]
fn already_reduced_is_no_op() {
    let f = Fraction::new(7, 360).unwrap();
    let again = Fraction::new(f.numerator(), f.denominator()).unwrap();
    assert_eq!(f, again);
}

#[test]
fn zero_constant() {
    assert_eq!(Fraction::zero(), Fraction::new(0, 1).unwrap());
    assert_eq!(Fraction::zero(), Fraction::new(0, 12345).unwrap());
    assert!(Fraction::zero().is_zero());
}

#[test]
fn default_is_zero() {
    assert_eq!(Fraction::default(), Fraction::zero());
    // Critical for the `Result::unwrap_or_default` pattern in
    // `DayCount` impls — `Default` must agree with `ZERO`, not
    // the derived `(0, 0)` field default which would have a
    // zero denominator.
    let parts = Fraction::default().parts();
    assert_eq!(parts, (0, 1));
    assert_ne!(parts.1, 0);
}

#[test]
fn is_negative_examples() {
    assert!(!Fraction::zero().is_negative());
    assert!(!Fraction::new(1, 2).unwrap().is_negative());
    assert!(Fraction::new(-1, 2).unwrap().is_negative());
}

#[test]
fn unreduced_inputs_compare_equal() {
    // (1, 2) and (2, 4) reduce to the same canonical form.
    let half = Fraction::new(1, 2).unwrap();
    let two_quarters = Fraction::new(2, 4).unwrap();
    assert_eq!(half, two_quarters);
    assert_eq!(half.cmp_cross(two_quarters), Ordering::Equal);
}

#[test]
fn cmp_cross_orders_correctly() {
    let third = Fraction::new(1, 3).unwrap();
    let half = Fraction::new(1, 2).unwrap();
    let two_thirds = Fraction::new(2, 3).unwrap();
    let neg_third = Fraction::new(-1, 3).unwrap();
    assert_eq!(third.cmp_cross(half), Ordering::Less);
    assert_eq!(half.cmp_cross(third), Ordering::Greater);
    assert_eq!(half.cmp_cross(two_thirds), Ordering::Less);
    assert_eq!(neg_third.cmp_cross(third), Ordering::Less);
    assert_eq!(neg_third.cmp_cross(Fraction::zero()), Ordering::Less);
}

#[test]
fn checked_add_basic_examples() {
    let third = Fraction::new(1, 3).unwrap();
    let two_thirds = third.checked_add(third).unwrap();
    assert_eq!(two_thirds.parts(), (2, 3));

    let a = Fraction::new(1, 2).unwrap();
    let b = Fraction::new(1, 4).unwrap();
    assert_eq!(a.checked_add(b).unwrap().parts(), (3, 4));
}

#[test]
fn checked_add_zero_is_identity() {
    let f = Fraction::new(7, 360).unwrap();
    assert_eq!(f.checked_add(Fraction::zero()), Some(f));
    assert_eq!(Fraction::zero().checked_add(f), Some(f));
}

#[test]
fn checked_add_with_negation_cancels() {
    let f = Fraction::new(7, 360).unwrap();
    let neg_f = Fraction::new(-7, 360).unwrap();
    assert_eq!(f.checked_add(neg_f), Some(Fraction::zero()));
}

#[test]
fn checked_add_mixed_signs() {
    // 3/4 + (-1/2) = 1/4.
    let three_quarters = Fraction::new(3, 4).unwrap();
    let neg_half = Fraction::new(-1, 2).unwrap();
    assert_eq!(
        three_quarters.checked_add(neg_half).unwrap().parts(),
        (1, 4),
    );
}

#[test]
fn checked_add_overflows_when_result_exceeds_i64() {
    // (i64::MAX / 2 + 1, 1) + (i64::MAX / 2 + 1, 1) — the reduced
    // numerator of the sum exceeds i64::MAX.
    let half_max = i64::MAX / 2 + 1;
    let a = Fraction::new(half_max, 1).unwrap();
    let b = Fraction::new(half_max, 1).unwrap();
    assert_eq!(a.checked_add(b), None);
}

#[test]
fn display_renders_reduced_form() {
    assert_eq!(Fraction::new(2, 4).unwrap().to_string(), "1/2");
    assert_eq!(Fraction::zero().to_string(), "0/1");
    assert_eq!(
        Fraction::new(7, 360).unwrap().to_string(),
        "7/360",
    );
    assert_eq!(
        Fraction::new(-30, 360).unwrap().to_string(),
        "-1/12",
    );
}

#[test]
fn into_tuple_round_trips() {
    let f = Fraction::new(7, 360).unwrap();
    let parts: (i64, u64) = f.into();
    assert_eq!(parts, (7, 360));
    let neg = Fraction::new(-7, 360).unwrap();
    let neg_parts: (i64, u64) = neg.into();
    assert_eq!(neg_parts, (-7, 360));
}

#[test]
fn ord_consistent_with_cmp_cross() {
    let a = Fraction::new(1, 3).unwrap();
    let b = Fraction::new(1, 2).unwrap();
    let c = Fraction::new(-1, 2).unwrap();
    assert!(a < b);
    assert!(b > a);
    assert!(c < a);
    assert_eq!(a.partial_cmp(&a), Some(Ordering::Equal));
}

#[test]
fn checked_neg_round_trip() {
    let pos = Fraction::new(7, 360).unwrap();
    let neg = pos.checked_neg().unwrap();
    assert_eq!(neg.parts(), (-7, 360));
    assert_eq!(neg.checked_neg().unwrap(), pos);
    // ZERO negates to ZERO.
    assert_eq!(Fraction::zero().checked_neg(), Some(Fraction::zero()));
}

#[test]
fn checked_neg_returns_none_at_i64_min() {
    let edge = Fraction::new(i64::MIN, 1).unwrap();
    assert_eq!(edge.checked_neg(), None);
}

#[test]
fn handles_i64_min_numerator() {
    // i64::MIN.unsigned_abs() = 2^63 doesn't fit i64; the
    // construction must still produce a valid reduced form.
    let yf = Fraction::new(i64::MIN, 1).unwrap();
    assert_eq!(yf.parts(), (i64::MIN, 1));
    // With a non-trivial gcd:
    let yf = Fraction::new(i64::MIN, 2).unwrap();
    // 2^63 / 2 = 2^62 = i64::MAX/2 + 1; reduced (-2^62, 1).
    assert_eq!(yf.parts(), (i64::MIN / 2, 1));
}

// ---- sampled property checks ----------------------------------------

/// A deterministic spread of `n` values in `lo..=hi`.
fn spread(n: u64, lo: i64, hi: i64) -> Vec<i64> {
    let width = (hi - lo + 1) as u64;
    let mut state: u64 = 0x9e37_79b9_7f4a_7c15;
    let mut out = vec![lo, hi];
    for _ in 0..n {
        state = state.wrapping_mul(6_364_136_223_846_793_005).wrapping_add(1_442_695_040_888_963_407);
        out.push(lo + ((state >> 17) % width) as i64);
    }
    out
}

fn fractions(n: u64, bound: i64) -> Vec<Fraction> {
    let nums = spread(n, -bound, bound);
    let dens = spread(n, 1, bound);
    nums.iter()
        .zip(dens.iter())
        .map(|(&num, &den)| Fraction::new(num, den as u64).unwrap())
        .collect()
}

/// New always produces a reduced form: feeding the result
/// back through `new` is a no-op.
#[test]
fn new_is_idempotent_on_reduced_inputs() {
    for num in spread(60, -10_000, 10_000) {
        for den in spread(60, 1, 10_000) {
            let once = Fraction::new(num, den as u64).unwrap();
            let twice = Fraction::new(once.numerator(), once.denominator()).unwrap();
            assert_eq!(once, twice);
        }
    }
}

/// Equality matches cross-multiplication: `a == b` iff
/// `a.cmp_cross(b) == Equal`.
#[test]
fn equality_matches_cross_multiplication() {
    let all = fractions(80, 10_000);
    let extra = [Fraction::new(1, 2).unwrap(), Fraction::new(50, 100).unwrap()];
    for a in all.iter().chain(extra.iter()) {
        for b in all.iter().chain(extra.iter()) {
            assert_eq!(a == b, a.cmp_cross(*b) == Ordering::Equal);
        }
    }
}

/// The ordering matches cross-multiplication.
#[test]
fn ord_matches_cross_multiplication() {
    let all = fractions(80, 10_000);
    for a in &all {
        for b in &all {
            assert_eq!(a.partial_cmp(b), Some(a.cmp_cross(*b)));
        }
    }
}

/// Adding zero is the identity.
#[test]
fn add_zero_identity() {
    for f in fractions(300, 10_000) {
        assert_eq!(f.checked_add(Fraction::zero()), Some(f));
        assert_eq!(Fraction::zero().checked_add(f), Some(f));
    }
}

/// A fraction plus its negation is zero.
#[test]
fn add_negation_cancels() {
    for num in spread(40, -10_000, 10_000) {
        for den in spread(40, 1, 10_000) {
            let f = Fraction::new(num, den as u64).unwrap();
            let neg = Fraction::new(-num, den as u64).unwrap();
            assert_eq!(f.checked_add(neg), Some(Fraction::zero()));
        }
    }
}

/// Addition is commutative whenever it is defined.
#[test]
fn add_is_commutative() {
    let all = fractions(80, 10_000);
    for a in &all {
        for b in &all {
            assert_eq!(a.checked_add(*b), b.checked_add(*a));
        }
    }
}

/// Addition is associative whenever every intermediate addition
/// succeeds.
#[test]
fn add_is_associative() {
    let all = fractions(25, 200);
    for a in &all {
        for b in &all {
            for c in &all {
                let lhs = a.checked_add(*b).and_then(|r| r.checked_add(*c));
                let rhs = b.checked_add(*c).and_then(|r| a.checked_add(r));
                assert_eq!(lhs, rhs);
            }
        }
    }
}
