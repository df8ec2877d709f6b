//! [`Fraction`]: an integer rational `num / den`, kept in reduced form
//! with a positive denominator, so that two fractions are equal exactly
//! when they denote the same rational.

use vstd::prelude::*;

use core::cmp::Ordering;
use vstd::arithmetic::div_mod::{
    lemma_fundamental_div_mod, lemma_fundamental_div_mod_converse, lemma_mod_multiples_vanish,
};
use vstd::std_specs::cmp::PartialOrdSpecImpl;

use crate::error::TimeError;
use crate::text::{decimal, push_decimal, push_signed, signed_decimal, string_of};

verus! {

// ---- Greatest common divisor --------------------------------------------

/// Greatest common divisor by Euclid's recursion; `gcd(a, 0) == a`.
pub open spec fn gcd(a: nat, b: nat) -> nat
    decreases b,
{
    if b == 0 {
        a
    } else {
        gcd(b, a % b)
    }
}

/// Absolute value.
pub open spec fn abs_int(x: int) -> nat {
    if x < 0 {
        (-x) as nat
    } else {
        x as nat
    }
}

/// `true` iff `n / d` has a positive denominator and no common factor.
pub open spec fn is_reduced(n: int, d: int) -> bool {
    d > 0 && gcd(abs_int(n), d as nat) == 1
}

/// `n / d` divided through by `gcd(|n|, d)`.
pub open spec fn reduce(n: int, d: int) -> (int, int) {
    let g = gcd(abs_int(n), d as nat) as int;
    (n / g, d / g)
}

/// `true` iff the pair fits the `(i64, u64)` representation.
pub open spec fn fits_parts(p: (int, int)) -> bool {
    i64::MIN <= p.0 <= i64::MAX && 0 <= p.1 <= u64::MAX
}

/// `true` iff `x` fits an `i128`.
pub open spec fn fits_i128(x: int) -> bool {
    i128::MIN <= x <= i128::MAX
}

/// The reduced form of `n / d` when it fits, else `None`.
pub open spec fn reduce_checked(n: int, d: int) -> Option<(int, int)> {
    if fits_parts(reduce(n, d)) {
        Some(reduce(n, d))
    } else {
        None
    }
}

/// `a + b` in reduced form, or `None` when the reduced result does not
/// fit.
pub open spec fn sum_of(a: (int, int), b: (int, int)) -> Option<(int, int)> {
    reduce_checked(a.0 * b.1 + b.0 * a.1, a.1 * b.1)
}

/// `a × b` in reduced form, or `None` when the `i128` intermediates
/// `a.0·b.0` and `a.1·b.1`, or the reduced result, do not fit.
pub open spec fn product_of(a: (int, int), b: (int, int)) -> Option<(int, int)> {
    let n = a.0 * b.0;
    let d = a.1 * b.1;
    if fits_i128(n) && fits_i128(d) {
        reduce_checked(n, d)
    } else {
        None
    }
}

proof fn lemma_gcd_positive(a: nat, b: nat)
    requires
        a > 0 || b > 0,
    ensures
        gcd(a, b) > 0,
    decreases b,
{
    if b != 0 {
        lemma_gcd_positive(b, a % b);
    }
}

/// `gcd(a, b)` divides both `a` and `b`.
pub proof fn lemma_gcd_divides(a: nat, b: nat)
    requires
        a > 0 || b > 0,
    ensures
        gcd(a, b) > 0,
        a % gcd(a, b) == 0,
        b % gcd(a, b) == 0,
    decreases b,
{
    lemma_gcd_positive(a, b);
    if b != 0 {
        lemma_gcd_divides(b, a % b);
        let g = gcd(b, a % b) as int;
        let ai = a as int;
        let bi = b as int;
        lemma_fundamental_div_mod(ai, bi);
        lemma_fundamental_div_mod(bi, g);
        lemma_fundamental_div_mod(ai % bi, g);
        let k = (bi / g) * (ai / bi) + (ai % bi) / g;
        assert(ai == g * k) by (nonlinear_arith)
            requires
                ai == bi * (ai / bi) + ai % bi,
                bi == g * (bi / g) + 0,
                ai % bi == g * ((ai % bi) / g) + 0,
                k == (bi / g) * (ai / bi) + (ai % bi) / g,
        ;
        lemma_mod_multiples_vanish(k, 0, g);
    }
}

/// Every common divisor of `a` and `b` divides `gcd(a, b)`.
pub proof fn lemma_common_divisor(a: nat, b: nat, d: int)
    requires
        d > 0,
        (a as int) % d == 0,
        (b as int) % d == 0,
    ensures
        (gcd(a, b) as int) % d == 0,
    decreases b,
{
    if b != 0 {
        let ai = a as int;
        let bi = b as int;
        lemma_fundamental_div_mod(ai, bi);
        lemma_fundamental_div_mod(ai, d);
        lemma_fundamental_div_mod(bi, d);
        let k = ai / d - (bi / d) * (ai / bi);
        assert(ai % bi == d * k) by (nonlinear_arith)
            requires
                ai == bi * (ai / bi) + ai % bi,
                ai == d * (ai / d) + 0,
                bi == d * (bi / d) + 0,
                k == ai / d - (bi / d) * (ai / bi),
        ;
        lemma_mod_multiples_vanish(k, 0, d);
        lemma_common_divisor(b, a % b, d);
    }
}

proof fn lemma_mod_scale(a: nat, b: nat, c: nat)
    requires
        b > 0,
        c > 0,
    ensures
        (a * c) % (b * c) == (a % b) * c,
{
    let ai = a as int;
    let bi = b as int;
    let ci = c as int;
    lemma_fundamental_div_mod(ai, bi);
    let q = ai / bi;
    let r = ai % bi;
    assert(ai * ci == q * (bi * ci) + r * ci && 0 <= r * ci < bi * ci) by (nonlinear_arith)
        requires
            ai == bi * q + r,
            0 <= r < bi,
            ci > 0,
    ;
    lemma_fundamental_div_mod_converse(ai * ci, bi * ci, q, r * ci);
}

/// Scaling both arguments scales the gcd.
pub proof fn lemma_gcd_scale(a: nat, b: nat, c: nat)
    ensures
        gcd(a * c, b * c) == gcd(a, b) * c,
    decreases b,
{
    if b == 0 {
        assert(b * c == 0) by (nonlinear_arith)
            requires
                b == 0,
        ;
    } else if c == 0 {
        assert(a * c == 0 && b * c == 0) by (nonlinear_arith)
            requires
                c == 0,
        ;
    } else {
        assert(b * c > 0) by (nonlinear_arith)
            requires
                b > 0,
                c > 0,
        ;
        lemma_mod_scale(a, b, c);
        lemma_gcd_scale(b, a % b, c);
    }
}

/// Dividing through by the gcd leaves coprime parts.
proof fn lemma_divided_coprime(a: nat, b: nat)
    requires
        b > 0,
    ensures
        gcd(a / gcd(a, b), b / gcd(a, b)) == 1,
        a / gcd(a, b) * gcd(a, b) == a,
        b / gcd(a, b) * gcd(a, b) == b,
{
    lemma_gcd_divides(a, b);
    let g = gcd(a, b);
    lemma_fundamental_div_mod(a as int, g as int);
    lemma_fundamental_div_mod(b as int, g as int);
    assert(a / g * g == a && b / g * g == b) by (nonlinear_arith)
        requires
            a == g * (a / g) + 0,
            b == g * (b / g) + 0,
    ;
    lemma_gcd_scale(a / g, b / g, g);
    let h = gcd(a / g, b / g);
    assert(h == 1) by (nonlinear_arith)
        requires
            h * g == g,
            g > 0,
    ;
}

/// If `y` divides `x·z` and shares no factor with `x`, it divides `z`.
proof fn lemma_coprime_divides(x: nat, y: nat, z: nat)
    requires
        y > 0,
        gcd(x, y) == 1,
        ((x * z) as int) % (y as int) == 0,
    ensures
        (z as int) % (y as int) == 0,
{
    lemma_gcd_scale(x, y, z);
    assert(((y * z) as int) % (y as int) == 0) by {
        lemma_mod_multiples_vanish(z as int, 0, y as int);
        assert(y * z == (y as int) * (z as int) + 0);
    }
    lemma_common_divisor(x * z, y * z, y as int);
    assert(gcd(x, y) * z == z) by (nonlinear_arith)
        requires
            gcd(x, y) == 1,
    ;
}

/// A rational has one reduced form.
pub proof fn lemma_reduced_unique(n1: int, d1: int, n2: int, d2: int)
    requires
        is_reduced(n1, d1),
        is_reduced(n2, d2),
        n1 * d2 == n2 * d1,
    ensures
        n1 == n2 && d1 == d2,
{
    let a1 = abs_int(n1);
    let a2 = abs_int(n2);
    let e1 = d1 as nat;
    let e2 = d2 as nat;
    if n1 < 0 {
        assert(n2 < 0) by (nonlinear_arith)
            requires
                n1 * d2 == n2 * d1,
                d1 > 0,
                d2 > 0,
                n1 < 0,
        ;
        assert((-n1) * d2 == (-n2) * d1) by (nonlinear_arith)
            requires
                n1 * d2 == n2 * d1,
        ;
    } else {
        assert(n2 >= 0) by (nonlinear_arith)
            requires
                n1 * d2 == n2 * d1,
                d1 > 0,
                d2 > 0,
                n1 >= 0,
        ;
    }
    assert(a1 * e2 == a2 * e1);
    lemma_mod_multiples_vanish(a2 as int, 0, d1);
    assert(d1 * (a2 as int) + 0 == a1 * e2) by (nonlinear_arith)
        requires
            a1 * e2 == a2 * e1,
            e1 == d1,
    ;
    lemma_coprime_divides(a1, e1, e2);
    lemma_mod_multiples_vanish(a1 as int, 0, d2);
    assert(d2 * (a1 as int) + 0 == a2 * e1) by (nonlinear_arith)
        requires
            a1 * e2 == a2 * e1,
            e2 == d2,
    ;
    lemma_coprime_divides(a2, e2, e1);
    lemma_fundamental_div_mod(d2, d1);
    lemma_fundamental_div_mod(d1, d2);
    assert(d1 == d2) by (nonlinear_arith)
        requires
            d2 == d1 * (d2 / d1) + 0,
            d1 == d2 * (d1 / d2) + 0,
            d1 > 0,
            d2 > 0,
    ;
    assert(n1 == n2) by (nonlinear_arith)
        requires
            n1 * d2 == n2 * d1,
            d1 == d2,
            d1 > 0,
    ;
}

/// The reduced form denotes the same rational and is reduced.
pub proof fn lemma_reduce(n: int, d: int)
    requires
        d > 0,
    ensures
        is_reduced(reduce(n, d).0, reduce(n, d).1),
        reduce(n, d).0 * d == n * reduce(n, d).1,
        abs_int(reduce(n, d).0) <= abs_int(n),
        (reduce(n, d).0 < 0) == (n < 0),
        0 < reduce(n, d).1 <= d,
{
    let a = abs_int(n);
    let g = gcd(a, d as nat);
    lemma_divided_coprime(a, d as nat);
    let q = a / g;
    let sq: int = if n < 0 { -q } else { q as int };
    assert(n == sq * g + 0) by (nonlinear_arith)
        requires
            q * g == a,
            a == if n < 0 { -n } else { n },
            sq == if n < 0 { -q } else { q as int },
    ;
    lemma_fundamental_div_mod_converse(n, g as int, sq, 0);
    let dq = (d as nat / g) as int;
    assert(d == dq * g + 0) by (nonlinear_arith)
        requires
            dq * g == d,
    ;
    lemma_fundamental_div_mod_converse(d, g as int, dq, 0);
    assert(abs_int(reduce(n, d).0) == q);
    assert(q <= a && dq <= d) by (nonlinear_arith)
        requires
            q * g == a,
            dq * g == d,
            g > 0,
            d > 0,
    ;
    let rn = reduce(n, d).0;
    let rd = reduce(n, d).1;
    assert(rd == dq);
    assert(gcd(q, (d as nat) / g) == 1);
    assert(dq > 0) by (nonlinear_arith)
        requires
            dq * g == d,
            d > 0,
            g > 0,
    ;
    assert(gcd(abs_int(rn), rd as nat) == 1);
    assert(rn * d == n * rd) by (nonlinear_arith)
        requires
            rn * g == n,
            rd * g == d,
            g > 0,
    ;
}

/// Reducing a reduced fraction changes nothing: constructing a fraction
/// from the parts of another gives it back.
pub proof fn lemma_reduce_reduced(n: int, d: int)
    requires
        is_reduced(n, d),
    ensures
        reduce(n, d) == (n, d),
{
    lemma_fundamental_div_mod_converse(n, 1, n, 0);
    lemma_fundamental_div_mod_converse(d, 1, d, 0);
}

/// Regrouping the factors of a product of four.
proof fn lemma_regroup(a: int, b: int, c: int, d: int)
    ensures
        (a * b) * (c * d) == (a * c) * (b * d),
{
    assert((a * b) * (c * d) == (a * c) * (b * d)) by (nonlinear_arith);
}

/// Scaling a cross sum by the product of two denominators.
proof fn lemma_sum_scale(p: int, q: int, r: int, t: int, d1: int, d2: int)
    ensures
        (p * q + r * t) * (d1 * d2) == (p * d1) * (q * d2) + (r * d2) * (t * d1),
{
    vstd::arithmetic::mul::lemma_mul_is_distributive_add_other_way(d1 * d2, p * q, r * t);
    assert((p * q) * (d1 * d2) == (p * d1) * (q * d2)) by (nonlinear_arith);
    assert((r * t) * (d1 * d2) == (r * d2) * (t * d1)) by (nonlinear_arith);
}

/// Collecting a cross sum around a common factor.
proof fn lemma_sum_collect(n1: int, t: int, n2: int, q: int, d1: int, d2: int)
    ensures
        (n1 * t) * (q * d2) + (n2 * q) * (t * d1) == (t * q) * (n1 * d2 + n2 * d1),
{
    assert((n1 * t) * (q * d2) == (t * q) * (n1 * d2)) by (nonlinear_arith);
    assert((n2 * q) * (t * d1) == (t * q) * (n2 * d1)) by (nonlinear_arith);
    vstd::arithmetic::mul::lemma_mul_is_distributive_add(t * q, n1 * d2, n2 * d1);
}

/// Equal rationals have the same reduced form.
pub proof fn lemma_reduce_equal(n1: int, d1: int, n2: int, d2: int)
    requires
        d1 > 0,
        d2 > 0,
        n1 * d2 == n2 * d1,
    ensures
        reduce(n1, d1) == reduce(n2, d2),
{
    lemma_reduce(n1, d1);
    lemma_reduce(n2, d2);
    let r1 = reduce(n1, d1);
    let r2 = reduce(n2, d2);
    lemma_regroup(r1.0, r2.1, d1, d2);
    lemma_regroup(n1, r1.1, r2.1, d2);
    lemma_regroup(r2.0, r1.1, d2, d1);
    lemma_regroup(n2, r2.1, r1.1, d1);
    assert((r1.0 * r2.1) * (d1 * d2) == (r1.0 * d1) * (r2.1 * d2));
    assert((n1 * r1.1) * (r2.1 * d2) == (n1 * r2.1) * (r1.1 * d2));
    assert((r1.0 * r2.1) * (d1 * d2) == (r1.1 * r2.1) * (n1 * d2)) by (nonlinear_arith)
        requires
            (r1.0 * r2.1) * (d1 * d2) == (r1.0 * d1) * (r2.1 * d2),
            r1.0 * d1 == n1 * r1.1,
    ;
    assert((r2.0 * r1.1) * (d1 * d2) == (r1.1 * r2.1) * (n2 * d1)) by (nonlinear_arith)
        requires
            r2.0 * d2 == n2 * r2.1,
    ;
    assert(r1.0 * r2.1 == r2.0 * r1.1) by (nonlinear_arith)
        requires
            (r1.0 * r2.1) * (d1 * d2) == (r2.0 * r1.1) * (d1 * d2),
            d1 > 0,
            d2 > 0,
    ;
    lemma_reduced_unique(r1.0, r1.1, r2.0, r2.1);
}

/// Reducing `-n / d` negates the reduced form of `n / d`.
pub proof fn lemma_reduce_negate(n: int, d: int)
    requires
        d > 0,
    ensures
        reduce(-n, d) == (-reduce(n, d).0, reduce(n, d).1),
{
    lemma_reduce(n, d);
    let r = reduce(n, d);
    assert(gcd(abs_int(-r.0), r.1 as nat) == gcd(abs_int(r.0), r.1 as nat));
    assert((-r.0) * d == (-n) * r.1) by (nonlinear_arith)
        requires
            r.0 * d == n * r.1,
    ;
    lemma_reduce(-n, d);
    let q = reduce(-n, d);
    assert(q.0 * r.1 == (-r.0) * q.1) by (nonlinear_arith)
        requires
            q.0 * d == (-n) * q.1,
            (-r.0) * d == (-n) * r.1,
            d > 0,
    ;
    lemma_reduced_unique(q.0, q.1, -r.0, r.1);
}

/// The sum of the reduced forms of `n1 / d1` and `n2 / d2` is the reduced
/// form of any `n3 / d3` with the same value, when the result fits.
pub proof fn lemma_sum_values(n1: int, d1: int, n2: int, d2: int, n3: int, d3: int)
    requires
        0 < d1,
        0 < d2,
        0 < d3,
        fits_parts((n3, d3)),
        (n1 * d2 + n2 * d1) * d3 == n3 * (d1 * d2),
    ensures
        sum_of(reduce(n1, d1), reduce(n2, d2)) == Some(reduce(n3, d3)),
{
    lemma_reduce(n1, d1);
    lemma_reduce(n2, d2);
    lemma_reduce(n3, d3);
    let r1 = reduce(n1, d1);
    let r2 = reduce(n2, d2);
    let nn = r1.0 * r2.1 + r2.0 * r1.1;
    let dd = r1.1 * r2.1;
    let x1 = r1.0 * d1;
    let x2 = r2.0 * d2;
    lemma_sum_scale(r1.0, r2.1, r2.0, r1.1, d1, d2);
    lemma_sum_collect(n1, r1.1, n2, r2.1, d1, d2);
    assert(nn * (d1 * d2) == dd * (n1 * d2 + n2 * d1));
    assert(nn * d3 * (d1 * d2) == n3 * dd * (d1 * d2)) by (nonlinear_arith)
        requires
            nn * (d1 * d2) == dd * (n1 * d2 + n2 * d1),
            (n1 * d2 + n2 * d1) * d3 == n3 * (d1 * d2),
    ;
    assert(nn * d3 == n3 * dd) by (nonlinear_arith)
        requires
            nn * d3 * (d1 * d2) == n3 * dd * (d1 * d2),
            d1 > 0,
            d2 > 0,
    ;
    assert(dd > 0) by (nonlinear_arith)
        requires
            r1.1 > 0,
            r2.1 > 0,
            dd == r1.1 * r2.1,
    ;
    lemma_reduce_equal(nn, dd, n3, d3);
}

/// Two reduced fractions are equal exactly when their cross products are.
pub proof fn lemma_equal_iff_cross_equal(a: (int, int), b: (int, int))
    requires
        is_reduced(a.0, a.1),
        is_reduced(b.0, b.1),
    ensures
        (a == b) <==> (a.0 * b.1 == b.0 * a.1),
{
    if a.0 * b.1 == b.0 * a.1 {
        lemma_reduced_unique(a.0, a.1, b.0, b.1);
    }
}

/// Addition is commutative, overflow included.
pub proof fn lemma_add_commutative(a: (int, int), b: (int, int))
    ensures
        sum_of(a, b) == sum_of(b, a),
{
    assert(a.0 * b.1 + b.0 * a.1 == b.0 * a.1 + a.0 * b.1 && a.1 * b.1 == b.1 * a.1) by (
    nonlinear_arith);
}

/// Multiplication is commutative, overflow included.
pub proof fn lemma_mul_commutative(a: (int, int), b: (int, int))
    ensures
        product_of(a, b) == product_of(b, a),
{
    assert(a.0 * b.0 == b.0 * a.0 && a.1 * b.1 == b.1 * a.1) by (nonlinear_arith);
}

/// Zero is the identity of addition, on either side.
pub proof fn lemma_add_zero(a: (int, int))
    requires
        is_reduced(a.0, a.1),
        fits_parts(a),
    ensures
        sum_of(a, (0, 1)) == Some(a),
        sum_of((0, 1), a) == Some(a),
{
    assert(a.0 * 1 + 0 * a.1 == a.0 && a.1 * 1 == a.1) by (nonlinear_arith);
    assert(0 * a.1 + a.0 * 1 == a.0 && 1 * a.1 == a.1) by (nonlinear_arith);
    lemma_reduce_reduced(a.0, a.1);
}

/// `true` iff `p` and `q` denote the same rational: equal cross products.
pub open spec fn same_value(p: (int, int), q: (int, int)) -> bool {
    p.0 * q.1 == q.0 * p.1
}

/// The unreduced sum `p + q`.
pub open spec fn raw_sum(p: (int, int), q: (int, int)) -> (int, int) {
    (p.0 * q.1 + q.0 * p.1, p.1 * q.1)
}

/// Denoting the same rational is transitive over positive denominators.
pub proof fn lemma_same_value_trans(p: (int, int), q: (int, int), s: (int, int))
    requires
        p.1 > 0,
        q.1 > 0,
        s.1 > 0,
        same_value(p, q),
        same_value(q, s),
    ensures
        same_value(p, s),
{
    assert((p.0 * s.1) * q.1 == (q.0 * p.1) * s.1) by (nonlinear_arith)
        requires
            p.0 * q.1 == q.0 * p.1,
    ;
    assert((q.0 * s.1) * p.1 == (s.0 * q.1) * p.1) by (nonlinear_arith)
        requires
            q.0 * s.1 == s.0 * q.1,
    ;
    assert((q.0 * p.1) * s.1 == (q.0 * s.1) * p.1) by (nonlinear_arith);
    assert((s.0 * q.1) * p.1 == (s.0 * p.1) * q.1) by (nonlinear_arith);
    assert(p.0 * s.1 == s.0 * p.1) by (nonlinear_arith)
        requires
            (p.0 * s.1) * q.1 == (s.0 * p.1) * q.1,
            q.1 > 0,
    ;
}

/// Adding the same rational to two representations of one rational gives
/// representations of one rational.
pub proof fn lemma_raw_sum_congruent(x: (int, int), y: (int, int), z: (int, int))
    requires
        same_value(x, y),
    ensures
        same_value(raw_sum(x, z), raw_sum(y, z)),
{
    let (x0, x1) = x;
    let (y0, y1) = y;
    let (z0, z1) = z;
    assert((x0 * z1) * (y1 * z1) == (x0 * y1) * (z1 * z1)) by (nonlinear_arith);
    assert((y0 * z1) * (x1 * z1) == (y0 * x1) * (z1 * z1)) by (nonlinear_arith);
    assert((z0 * x1) * (y1 * z1) == (z0 * y1) * (x1 * z1)) by (nonlinear_arith);
    assert((x0 * y1) * (z1 * z1) == (y0 * x1) * (z1 * z1)) by (nonlinear_arith)
        requires
            x0 * y1 == y0 * x1,
    ;
    vstd::arithmetic::mul::lemma_mul_is_distributive_add_other_way(y1 * z1, x0 * z1, z0 * x1);
    vstd::arithmetic::mul::lemma_mul_is_distributive_add_other_way(x1 * z1, y0 * z1, z0 * y1);
}

/// Addition of representations commutes up to the value denoted.
pub proof fn lemma_raw_sum_commutes(x: (int, int), y: (int, int))
    ensures
        raw_sum(x, y) == raw_sum(y, x),
{
    assert(x.0 * y.1 + y.0 * x.1 == y.0 * x.1 + x.0 * y.1);
    assert(x.1 * y.1 == y.1 * x.1) by (nonlinear_arith);
}

/// Unreduced addition is associative exactly.
pub proof fn lemma_raw_sum_associative(a: (int, int), b: (int, int), c: (int, int))
    ensures
        raw_sum(raw_sum(a, b), c) == raw_sum(a, raw_sum(b, c)),
{
    let (a0, a1) = a;
    let (b0, b1) = b;
    let (c0, c1) = c;
    vstd::arithmetic::mul::lemma_mul_is_distributive_add_other_way(c1, a0 * b1, b0 * a1);
    vstd::arithmetic::mul::lemma_mul_is_distributive_add_other_way(a1, b0 * c1, c0 * b1);
    assert((a0 * b1) * c1 == a0 * (b1 * c1)) by (nonlinear_arith);
    assert((b0 * a1) * c1 == (b0 * c1) * a1) by (nonlinear_arith);
    assert(c0 * (a1 * b1) == (c0 * b1) * a1) by (nonlinear_arith);
    assert((a1 * b1) * c1 == a1 * (b1 * c1)) by (nonlinear_arith);
}

/// A successful sum is the reduced form of the unreduced sum, and denotes
/// the same rational.
pub proof fn lemma_sum_denotes(p: (int, int), q: (int, int))
    requires
        p.1 > 0,
        q.1 > 0,
        sum_of(p, q) is Some,
    ensures
        sum_of(p, q)->Some_0 == reduce(raw_sum(p, q).0, raw_sum(p, q).1),
        same_value(sum_of(p, q)->Some_0, raw_sum(p, q)),
        is_reduced(sum_of(p, q)->Some_0.0, sum_of(p, q)->Some_0.1),
        raw_sum(p, q).1 > 0,
{
    assert(p.1 * q.1 > 0) by (nonlinear_arith)
        requires
            p.1 > 0,
            q.1 > 0,
    ;
    lemma_reduce(raw_sum(p, q).0, raw_sum(p, q).1);
}

/// Addition is associative whenever every intermediate sum is defined.
pub proof fn lemma_add_associative(a: (int, int), b: (int, int), c: (int, int))
    requires
        a.1 > 0,
        b.1 > 0,
        c.1 > 0,
        sum_of(a, b) is Some,
        sum_of(b, c) is Some,
        sum_of(sum_of(a, b)->Some_0, c) is Some,
        sum_of(a, sum_of(b, c)->Some_0) is Some,
    ensures
        sum_of(sum_of(a, b)->Some_0, c) == sum_of(a, sum_of(b, c)->Some_0),
{
    let ab = sum_of(a, b)->Some_0;
    let bc = sum_of(b, c)->Some_0;
    lemma_sum_denotes(a, b);
    lemma_sum_denotes(b, c);
    let l = sum_of(ab, c)->Some_0;
    let r = sum_of(a, bc)->Some_0;
    lemma_sum_denotes(ab, c);
    lemma_sum_denotes(a, bc);
    let t = raw_sum(raw_sum(a, b), c);
    lemma_raw_sum_associative(a, b, c);
    // l denotes (a + b) + c.
    lemma_raw_sum_congruent(ab, raw_sum(a, b), c);
    assert(raw_sum(a, b).1 * c.1 > 0) by (nonlinear_arith)
        requires
            raw_sum(a, b).1 > 0,
            c.1 > 0,
    ;
    lemma_same_value_trans(l, raw_sum(ab, c), t);
    // r denotes a + (b + c).
    lemma_raw_sum_congruent(bc, raw_sum(b, c), a);
    lemma_raw_sum_commutes(bc, a);
    lemma_raw_sum_commutes(raw_sum(b, c), a);
    assert(a.1 * raw_sum(b, c).1 > 0) by (nonlinear_arith)
        requires
            raw_sum(b, c).1 > 0,
            a.1 > 0,
    ;
    lemma_same_value_trans(r, raw_sum(a, bc), t);
    // Both are reduced forms of one rational.
    assert(same_value(t, r)) by (nonlinear_arith)
        requires
            same_value(r, t),
    ;
    lemma_same_value_trans(l, t, r);
    lemma_reduced_unique(l.0, l.1, r.0, r.1);
}

/// A fraction plus its negation is zero.
pub proof fn lemma_add_negation(a: (int, int))
    requires
        is_reduced(a.0, a.1),
    ensures
        sum_of(a, (-a.0, a.1)) == Some((0int, 1int)),
{
    let d = a.1 * a.1;
    assert(a.0 * a.1 + (-a.0) * a.1 == 0) by (nonlinear_arith);
    assert(d > 0) by (nonlinear_arith)
        requires
            a.1 > 0,
            d == a.1 * a.1,
    ;
    assert(gcd(0, d as nat) == gcd(d as nat, 0));
    lemma_fundamental_div_mod_converse(0, d, 0, 0);
    lemma_fundamental_div_mod_converse(d, d, 1, 0);
}

/// Greatest common divisor by Euclid's algorithm.
fn gcd_u128(a: u128, b: u128) -> (r: u128)
    ensures
        r == gcd(a as nat, b as nat),
{
    let mut x = a;
    let mut y = b;
    while y != 0
        invariant
            gcd(x as nat, y as nat) == gcd(a as nat, b as nat),
        decreases y,
    {
        let t = y;
        y = x % y;
        x = t;
    }
    x
}

// ---- Fraction -----------------------------------------------------------

/// An integer rational `numerator / denominator` in reduced form: the
/// denominator is positive and shares no factor with the numerator.
#[derive(Debug, Clone, Copy, PartialEq, Eq, Hash, Structural)]
pub struct Fraction {
    num: i64,
    den: u64,
}

impl View for Fraction {
    type V = (int, int);

    closed spec fn view(&self) -> (int, int) {
        (self.num as int, self.den as int)
    }
}

/// Reduce `±m / d` (negative when `neg`) and narrow it into a fraction,
/// if it fits.
fn reduce_signed(neg: bool, m: u128, d: u128) -> (r: Option<Fraction>)
    requires
        d > 0,
    ensures
        match reduce_checked(if neg { -(m as int) } else { m as int }, d as int) {
            Some(p) => r is Some && r->Some_0@ == p,
            None => r is None,
        },
{
    let ghost n: int = if neg { -(m as int) } else { m as int };
    let g = gcd_u128(m, d);
    proof {
        assert(abs_int(n) == m as nat);
        lemma_reduce(n, d as int);
        lemma_gcd_divides(m as nat, d as nat);
    }
    let q = m / g;
    let rd = d / g;
    proof {
        lemma_fundamental_div_mod(m as int, g as int);
        lemma_fundamental_div_mod(d as int, g as int);
        let sq: int = if neg { -(q as int) } else { q as int };
        assert(n == sq * g + 0) by (nonlinear_arith)
            requires
                m == g * q + 0,
                n == if neg { -(m as int) } else { m as int },
                sq == if neg { -(q as int) } else { q as int },
        ;
        lemma_fundamental_div_mod_converse(n, g as int, sq, 0);
        assert(rd > 0) by (nonlinear_arith)
            requires
                d == g * rd + 0,
                d > 0,
                g > 0,
        ;
    }
    if neg && q != 0 {
        if q > 9223372036854775808 || rd > 18446744073709551615 {
            return None;
        }
        let num: i64 = if q == 9223372036854775808 {
            i64::MIN
        } else {
            -(q as i64)
        };
        Some(Fraction { num, den: rd as u64 })
    } else {
        if q > 9223372036854775807 || rd > 18446744073709551615 {
            return None;
        }
        Some(Fraction { num: q as i64, den: rd as u64 })
    }
}

/// Reduce `n / d` and narrow it into a fraction, if it fits.
fn reduce_wide(n: i128, d: i128) -> (r: Option<Fraction>)
    requires
        d > 0,
    ensures
        match reduce_checked(n as int, d as int) {
            Some(p) => r is Some && r->Some_0@ == p,
            None => r is None,
        },
{
    let m: u128 = if n < 0 {
        ((-(n + 1)) as u128) + 1
    } else {
        n as u128
    };
    reduce_signed(n < 0, m, d as u128)
}

impl Fraction {
    #[verifier::type_invariant]
    spec fn reduced(self) -> bool {
        is_reduced(self.num as int, self.den as int)
    }

    /// The rational value `num / den` of a fraction with this view.
    pub open spec fn holds_value(self, n: int, d: int) -> bool {
        self@.0 * d == n * self@.1
    }

    /// Every fraction is reduced with a positive denominator.
    pub fn reduced_form(&self)
        ensures
            is_reduced(self@.0, self@.1),
    {
        proof {
            use_type_invariant(self);
        }
    }

    /// Two fractions with the same parts are the same fraction.
    pub proof fn lemma_view_injective(a: Fraction, b: Fraction)
        requires
            a@ == b@,
        ensures
            a == b,
    {
    }

    /// The zero fraction, `0 / 1`.
    pub fn zero() -> (r: Fraction)
        ensures
            r@ == (0int, 1int),
    {
        proof {
            assert(gcd(0, 1) == gcd(1, 0));
        }
        Fraction { num: 0, den: 1 }
    }

    /// `num / den` reduced by `gcd(|num|, den)`; a zero denominator is
    /// refused.
    pub fn new(num: i64, den: u64) -> (r: Result<Fraction, TimeError>)
        ensures
            den == 0 ==> r == Err::<Fraction, TimeError>(TimeError::ZeroDenominator),
            den != 0 ==> r is Ok && r->Ok_0@ == reduce(num as int, den as int),
    {
        if den == 0 {
            return Err(TimeError::ZeroDenominator);
        }
        proof {
            lemma_reduce(num as int, den as int);
        }
        match reduce_wide(num as i128, den as i128) {
            Some(f) => Ok(f),
            None => Err(TimeError::ZeroDenominator),
        }
    }

    /// The signed numerator.
    pub fn numerator(self) -> (r: i64)
        ensures
            r == self@.0,
    {
        self.num
    }

    /// The positive denominator.
    pub fn denominator(self) -> (r: u64)
        ensures
            r == self@.1,
            r > 0,
    {
        proof {
            use_type_invariant(&self);
        }
        self.den
    }

    /// The fraction as `numerator/denominator` text, as in `-1/12`.
    pub fn to_string(self) -> (s: String)
        ensures
            s@ == signed_decimal(self@.0) + seq!['/'] + decimal(self@.1 as nat),
    {
        let mut out: Vec<char> = Vec::new();
        push_signed(&mut out, self.num);
        out.push('/');
        push_decimal(&mut out, self.den);
        proof {
            assert(out@ =~= signed_decimal(self@.0) + seq!['/'] + decimal(self@.1 as nat));
        }
        string_of(&out)
    }

    /// `(numerator, denominator)`.
    pub fn parts(self) -> (r: (i64, u64))
        ensures
            r.0 == self@.0 && r.1 == self@.1,
    {
        (self.num, self.den)
    }

    /// `true` iff the fraction is zero.
    pub fn is_zero(self) -> (r: bool)
        ensures
            r == (self@.0 == 0),
    {
        self.num == 0
    }

    /// `true` iff the fraction is negative.
    pub fn is_negative(self) -> (r: bool)
        ensures
            r == (self@.0 < 0),
    {
        self.num < 0
    }

    /// The negation; `None` when the numerator is `i64::MIN`.
    pub fn checked_neg(self) -> (r: Option<Fraction>)
        ensures
            self@.0 == i64::MIN ==> r is None,
            self@.0 != i64::MIN ==> r is Some && r->Some_0@ == (-self@.0, self@.1),
    {
        proof {
            use_type_invariant(&self);
        }
        if self.num == i64::MIN {
            None
        } else {
            proof {
                assert(abs_int(-self.num) == abs_int(self.num as int));
            }
            Some(Fraction { num: -self.num, den: self.den })
        }
    }

    /// The sum, reduced; `None` exactly when the reduced sum does not fit.
    /// The denominators are divided through by their common factor first,
    /// so no intermediate overflows on a sum that fits.
    pub fn checked_add(self, other: Fraction) -> (r: Option<Fraction>)
        ensures
            match sum_of(self@, other@) {
                Some(p) => r is Some && r->Some_0@ == p,
                None => r is None,
            },
    {
        proof {
            use_type_invariant(&self);
            use_type_invariant(&other);
        }
        let b = self.den as u128;
        let d = other.den as u128;
        let g = gcd_u128(b, d);
        proof {
            lemma_gcd_divides(b as nat, d as nat);
            lemma_fundamental_div_mod(b as int, g as int);
            lemma_fundamental_div_mod(d as int, g as int);
        }
        let b1 = b / g;
        let d1 = d / g;
        proof {
            assert(1 <= b1 <= b && 1 <= d1 <= d) by (nonlinear_arith)
                requires
                    b == g * b1 + 0,
                    d == g * d1 + 0,
                    b > 0,
                    d > 0,
                    g > 0,
            ;
        }
        let a = self.num as i128;
        let c = other.num as i128;
        let ghost x_bound: int = 0x8000_0000_0000_0000int * 0xFFFF_FFFF_FFFF_FFFFint;
        proof {
            assert(-x_bound <= a * d1 <= x_bound) by (nonlinear_arith)
                requires
                    -0x8000_0000_0000_0000 <= a < 0x8000_0000_0000_0000,
                    0 < d1 < 0x1_0000_0000_0000_0000,
                    x_bound == 0x8000_0000_0000_0000 * 0xFFFF_FFFF_FFFF_FFFF,
            ;
            assert(-x_bound <= c * b1 <= x_bound) by (nonlinear_arith)
                requires
                    -0x8000_0000_0000_0000 <= c < 0x8000_0000_0000_0000,
                    0 < b1 < 0x1_0000_0000_0000_0000,
                    x_bound == 0x8000_0000_0000_0000 * 0xFFFF_FFFF_FFFF_FFFF,
            ;
            assert(b1 * d < 0x1_0000_0000_0000_0000 * 0x1_0000_0000_0000_0000) by (nonlinear_arith)
                requires
                    0 < b1 < 0x1_0000_0000_0000_0000,
                    0 < d < 0x1_0000_0000_0000_0000,
            ;
            assert(b1 * d > 0) by (nonlinear_arith)
                requires
                    0 < b1,
                    0 < d,
            ;
        }
        let x = a * (d1 as i128);
        let y = c * (b1 as i128);
        // The numerator `x + y`, as a sign and a magnitude.
        let (neg, m) = if x >= 0 && y >= 0 {
            (false, x as u128 + y as u128)
        } else if x < 0 && y < 0 {
            (true, (-x) as u128 + (-y) as u128)
        } else {
            let t = x + y;
            if t < 0 {
                (true, (-t) as u128)
            } else {
                (false, t as u128)
            }
        };
        let den = b1 * d;
        proof {
            let t = x + y;
            assert((if neg { -(m as int) } else { m as int }) == t);
            // `t / den` is the sum scaled down by the common factor `g`.
            let n0 = self@.0 * other@.1 + other@.0 * self@.1;
            let d0 = self@.1 * other@.1;
            assert(n0 == g * t) by (nonlinear_arith)
                requires
                    n0 == a * d + c * b,
                    t == a * d1 + c * b1,
                    b == g * b1,
                    d == g * d1,
            ;
            assert(d0 == g * den) by (nonlinear_arith)
                requires
                    d0 == b * d,
                    den == b1 * d,
                    b == g * b1,
            ;
            assert(t * d0 == n0 * den) by (nonlinear_arith)
                requires
                    n0 == g * t,
                    d0 == g * den,
            ;
            assert(d0 > 0) by (nonlinear_arith)
                requires
                    d0 == b * d,
                    b > 0,
                    d > 0,
            ;
            lemma_reduce_equal(t, den as int, n0, d0);
        }
        reduce_signed(neg, m, den)
    }

    /// The product, reduced; `None` when an `i128` intermediate or the
    /// result does not fit.
    pub fn checked_mul(self, other: Fraction) -> (r: Option<Fraction>)
        ensures
            match product_of(self@, other@) {
                Some(p) => r is Some && r->Some_0@ == p,
                None => r is None,
            },
    {
        proof {
            use_type_invariant(&self);
            use_type_invariant(&other);
        }
        let a = self.num as i128;
        let b = self.den as i128;
        let c = other.num as i128;
        let d = other.den as i128;
        proof {
            assert(0 < b * d) by (nonlinear_arith)
                requires
                    0 < b,
                    0 < d,
            ;
        }
        let num = match a.checked_mul(c) {
            Some(n) => n,
            None => return None,
        };
        let den = match b.checked_mul(d) {
            Some(x) => x,
            None => return None,
        };
        reduce_wide(num, den)
    }

    /// The two cross products `self.num · other.den` and
    /// `other.num · self.den`.
    fn cross_products(self, other: Fraction) -> (r: (i128, i128))
        ensures
            r.0 == self@.0 * other@.1,
            r.1 == other@.0 * self@.1,
    {
        let a = self.num as i128;
        let b = self.den as i128;
        let c = other.num as i128;
        let d = other.den as i128;
        proof {
            assert(-0x8000_0000_0000_0000_0000_0000_0000_0000 < a * d < 0x8000_0000_0000_0000_0000_0000_0000_0000) by (nonlinear_arith)
                requires
                    -0x8000_0000_0000_0000 <= a < 0x8000_0000_0000_0000,
                    0 <= d < 0x1_0000_0000_0000_0000,
            ;
            assert(-0x8000_0000_0000_0000_0000_0000_0000_0000 < c * b < 0x8000_0000_0000_0000_0000_0000_0000_0000) by (nonlinear_arith)
                requires
                    -0x8000_0000_0000_0000 <= c < 0x8000_0000_0000_0000,
                    0 <= b < 0x1_0000_0000_0000_0000,
            ;
        }
        (a * d, c * b)
    }

    /// Compare by cross-multiplication: `a/b` against `c/d` is `a·d`
    /// against `c·b`.
    pub fn cmp_cross(self, other: Fraction) -> (r: Ordering)
        ensures
            (r == Ordering::Less) == (self@.0 * other@.1 < other@.0 * self@.1),
            (r == Ordering::Equal) == (self@.0 * other@.1 == other@.0 * self@.1),
            (r == Ordering::Greater) == (self@.0 * other@.1 > other@.0 * self@.1),
    {
        let (lhs, rhs) = self.cross_products(other);
        if lhs < rhs {
            Ordering::Less
        } else if lhs == rhs {
            Ordering::Equal
        } else {
            Ordering::Greater
        }
    }
}

/// The order of two fractions by value.
pub open spec fn order_of(a: (int, int), b: (int, int)) -> Ordering {
    if a.0 * b.1 < b.0 * a.1 {
        Ordering::Less
    } else if a.0 * b.1 == b.0 * a.1 {
        Ordering::Equal
    } else {
        Ordering::Greater
    }
}

impl PartialOrd for Fraction {
    fn partial_cmp(&self, other: &Fraction) -> (r: Option<Ordering>) {
        Some(self.cmp_cross(*other))
    }
}

impl PartialOrdSpecImpl for Fraction {
    open spec fn obeys_partial_cmp_spec() -> bool {
        true
    }

    open spec fn partial_cmp_spec(&self, other: &Fraction) -> Option<Ordering> {
        Some(order_of(self@, other@))
    }
}

impl Default for Fraction {
    /// The zero fraction.
    fn default() -> (r: Fraction)
        ensures
            r@ == (0int, 1int),
    {
        Fraction::zero()
    }
}

impl From<Fraction> for (i64, u64) {
    fn from(f: Fraction) -> (r: (i64, u64)) {
        f.parts()
    }
}

impl vstd::std_specs::convert::FromSpecImpl<Fraction> for (i64, u64) {
    open spec fn obeys_from_spec() -> bool {
        true
    }

    open spec fn from_spec(f: Fraction) -> (i64, u64) {
        (f@.0 as i64, f@.1 as u64)
    }
}

} // verus!
