//! Binary floating-point rounding, in whole numbers.
//!
//! A positive number is rounded to the nearest one that has a significand of fifty-three
//! bits, and to the even one of two that are equally near. Exponents are not bounded.
use vstd::prelude::*;

verus! {

/// A power of two.
pub open spec fn two(n: nat) -> nat
    decreases n,
{
    if n == 0 {
        1
    } else {
        2 * two((n - 1) as nat)
    }
}

/// A power of ten.
pub open spec fn ten(n: nat) -> nat
    decreases n,
{
    if n == 0 {
        1
    } else {
        10 * ten((n - 1) as nat)
    }
}

/// The whole number nearest to a quotient, and the even one of two that are equally near.
pub open spec fn quotient_rounded(a: nat, b: nat) -> nat {
    let floor = a / b;
    let rest = a % b;
    if 2 * rest < b || (2 * rest == b && floor % 2 == 0) {
        floor
    } else {
        floor + 1
    }
}

/// A numerator after division by a power of two, as far as that goes into it.
pub open spec fn scaled_numerator(p: nat, e: int) -> nat {
    if e < 0 {
        p * two((-e) as nat)
    } else {
        p
    }
}

/// A denominator after division by a power of two, as far as that goes into it.
pub open spec fn scaled_denominator(q: nat, e: int) -> nat {
    if e > 0 {
        q * two(e as nat)
    } else {
        q
    }
}

/// The quotient of `p` and `q`, divided by two to the power of `e`, has fifty-three bits.
pub open spec fn has_exponent(p: nat, q: nat, e: int) -> bool {
    two(52) * scaled_denominator(q, e) <= scaled_numerator(p, e) < two(53) * scaled_denominator(
        q,
        e,
    )
}

/// The quotient of `p` and `q` rounds to `m` times two to the power of `e`.
pub open spec fn rounds_to(p: nat, q: nat, m: nat, e: int) -> bool {
    &&& has_exponent(p, q, e)
    &&& m == quotient_rounded(scaled_numerator(p, e), scaled_denominator(q, e))
}

/// What the quotient of two positive numbers rounds to: a significand, and the exponent
/// of two that goes with it.
pub open spec fn nearest(p: nat, q: nat) -> (nat, int) {
    choose|r: (nat, int)| rounds_to(p, q, r.0, r.1)
}

/// Powers of two are positive.
pub proof fn lemma_two_positive(n: nat)
    ensures
        two(n) >= 1,
    decreases n,
{
    if n > 0 {
        lemma_two_positive((n - 1) as nat);
    }
}

/// Powers of ten are positive.
pub proof fn lemma_ten_positive(n: nat)
    ensures
        ten(n) >= 1,
    decreases n,
{
    if n > 0 {
        lemma_ten_positive((n - 1) as nat);
    }
}

/// Exponents add up.
pub proof fn lemma_two_adds(a: nat, b: nat)
    ensures
        two(a + b) == two(a) * two(b),
    decreases a,
{
    if a > 0 {
        lemma_two_adds((a - 1) as nat, b);
        assert((a + b - 1) as nat == (a - 1) as nat + b);
        assert(two(a + b) == 2 * two((a + b - 1) as nat));
        assert(2 * (two((a - 1) as nat) * two(b)) == (2 * two((a - 1) as nat)) * two(b))
            by (nonlinear_arith);
    } else {
        assert(two(0) * two(b) == two(b)) by (nonlinear_arith)
            requires
                two(0) == 1,
        ;
    }
}

/// Larger exponents make larger powers.
pub proof fn lemma_two_grows(a: nat, b: nat)
    requires
        a <= b,
    ensures
        two(a) <= two(b),
    decreases b - a,
{
    if a < b {
        lemma_two_grows(a, (b - 1) as nat);
        lemma_two_positive((b - 1) as nat);
    }
}

/// A power of two is larger than its exponent.
pub proof fn lemma_two_exceeds(n: nat)
    ensures
        two(n) > n,
    decreases n,
{
    if n > 0 {
        lemma_two_exceeds((n - 1) as nat);
    }
}

/// The powers of two that are needed, as numbers.
pub proof fn lemma_two_values()
    ensures
        two(40) == 0x100_0000_0000,
        two(52) == 0x10_0000_0000_0000,
        two(53) == 0x20_0000_0000_0000,
        two(54) == 0x40_0000_0000_0000,
        two(64) == 0x1_0000_0000_0000_0000,
{
    assert(two(10) == 1024 && two(4) == 16) by {
        reveal_with_fuel(two, 11);
    }
    lemma_two_adds(10, 10);
    assert(two(20) == 0x10_0000);
    lemma_two_adds(20, 20);
    assert(two(40) == 0x100_0000_0000);
    lemma_two_adds(10, 40);
    assert(two(50) == 0x4_0000_0000_0000);
    lemma_two_adds(4, 50);
    assert(two(54) == 0x40_0000_0000_0000);
    assert(two(54) == 2 * two(53));
    assert(two(53) == 2 * two(52));
    lemma_two_adds(10, 54);
}

/// One more power of two is taken out.
proof fn lemma_scale_step(p: nat, q: nat, e: int)
    ensures
        e > 0 ==> scaled_denominator(q, e) == 2 * scaled_denominator(q, e - 1)
            && scaled_numerator(p, e) == scaled_numerator(p, e - 1),
        e <= 0 ==> scaled_numerator(p, e - 1) == 2 * scaled_numerator(p, e)
            && scaled_denominator(q, e) == scaled_denominator(q, e - 1),
{
    if e > 0 {
        assert(q * (2 * two((e - 1) as nat)) == 2 * (q * two((e - 1) as nat))) by (nonlinear_arith);
        if e == 1 {
            assert(q * two(0) == q) by (nonlinear_arith)
                requires
                    two(0) == 1,
            ;
        }
    } else {
        let n = (-e) as nat;
        assert(p * (2 * two(n)) == 2 * (p * two(n))) by (nonlinear_arith);
        assert(two(n + 1) == 2 * two(n));
        if e == 0 {
            assert(p * two(0) == p) by (nonlinear_arith)
                requires
                    two(0) == 1,
            ;
        }
    }
}

/// Scaled numbers are positive.
proof fn lemma_scaled_positive(p: nat, q: nat, e: int)
    requires
        p > 0,
        q > 0,
    ensures
        scaled_numerator(p, e) > 0,
        scaled_denominator(q, e) > 0,
{
    if e < 0 {
        lemma_two_positive((-e) as nat);
        assert(p * two((-e) as nat) > 0) by (nonlinear_arith)
            requires
                p > 0,
                two((-e) as nat) >= 1,
        ;
    }
    if e > 0 {
        lemma_two_positive(e as nat);
        assert(q * two(e as nat) > 0) by (nonlinear_arith)
            requires
                q > 0,
                two(e as nat) >= 1,
        ;
    }
}

/// Looks for the exponent from above.
proof fn lemma_exponent_from_above(p: nat, q: nat, e: int) -> (found: int)
    requires
        p > 0,
        q > 0,
        scaled_numerator(p, e) < two(53) * scaled_denominator(q, e),
    ensures
        has_exponent(p, q, found),
    decreases two(53) * scaled_denominator(q, e) - scaled_numerator(p, e),
{
    if two(52) * scaled_denominator(q, e) <= scaled_numerator(p, e) {
        e
    } else {
        lemma_scale_step(p, q, e);
        lemma_scaled_positive(p, q, e);
        lemma_scaled_positive(p, q, e - 1);
        let a = scaled_numerator(p, e) as int;
        let b = scaled_denominator(q, e) as int;
        let c = scaled_denominator(q, e - 1) as int;
        assert(two(53) == 2 * two(52));
        let t = two(52) as int;
        if e > 0 {
            assert(t * (2 * c) == 2 * (t * c)) by (nonlinear_arith);
            assert((2 * t) * c == 2 * (t * c)) by (nonlinear_arith);
            assert((2 * t) * (2 * c) == 4 * (t * c)) by (nonlinear_arith);
            lemma_two_positive(52);
            assert(t * c > 0) by (nonlinear_arith)
                requires
                    t > 0,
                    c > 0,
            ;
        } else {
            assert((2 * t) * b == 2 * (t * b)) by (nonlinear_arith);
        }
        lemma_exponent_from_above(p, q, e - 1)
    }
}

/// Every positive quotient rounds to something.
pub proof fn law_rounding_exists(p: nat, q: nat)
    requires
        p > 0,
        q > 0,
    ensures
        rounds_to(p, q, nearest(p, q).0, nearest(p, q).1),
{
    lemma_two_exceeds(p);
    lemma_two_positive(53);
    let t = two(p) as int;
    assert(q * t >= t) by (nonlinear_arith)
        requires
            q >= 1,
            t >= 0,
    ;
    let b = scaled_denominator(q, p as int) as int;
    assert(two(53) * b >= b) by (nonlinear_arith)
        requires
            two(53) >= 1,
            b >= 0,
    ;
    let e = lemma_exponent_from_above(p, q, p as int);
    let m = quotient_rounded(scaled_numerator(p, e), scaled_denominator(q, e));
    assert(rounds_to(p, q, (m, e).0, (m, e).1));
}

/// Scaling by two exponents differs by a power of two.
proof fn lemma_scales_compare(p: nat, q: nat, e: int, f: int)
    requires
        e < f,
    ensures
        scaled_numerator(p, f) * scaled_denominator(q, e) * two((f - e) as nat)
            == scaled_numerator(p, e) * scaled_denominator(q, f),
    decreases f - e,
{
    lemma_scale_step(p, q, f);
    let a = scaled_numerator(p, f) as int;
    let b = scaled_denominator(q, f) as int;
    let a1 = scaled_numerator(p, f - 1) as int;
    let b1 = scaled_denominator(q, f - 1) as int;
    let c = scaled_numerator(p, e) as int;
    let d = scaled_denominator(q, e) as int;
    let t = two((f - 1 - e) as nat) as int;
    assert(two((f - e) as nat) == 2 * t);
    if e < f - 1 {
        lemma_scales_compare(p, q, e, f - 1);
    } else {
        assert(t == 1);
        assert(a1 * d * 1 == c * b1) by (nonlinear_arith)
            requires
                a1 == c,
                b1 == d,
        ;
    }
    assert(a1 * d * t == c * b1);
    if f > 0 {
        assert(a * d * (2 * t) == c * b) by (nonlinear_arith)
            requires
                a == a1,
                b == 2 * b1,
                a1 * d * t == c * b1,
        ;
    } else {
        assert(a * d * (2 * t) == c * b) by (nonlinear_arith)
            requires
                a1 == 2 * a,
                b == b1,
                a1 * d * t == c * b1,
        ;
    }
}

/// The exponent is unique.
proof fn lemma_exponent_unique(p: nat, q: nat, e: int, f: int)
    requires
        p > 0,
        q > 0,
        has_exponent(p, q, e),
        has_exponent(p, q, f),
    ensures
        e == f,
{
    if e < f {
        lemma_exponents_ordered(p, q, e, f);
    } else if f < e {
        lemma_exponents_ordered(p, q, f, e);
    }
}

/// Where one exponent fits, a larger one does not.
proof fn lemma_exponents_ordered(p: nat, q: nat, e: int, f: int)
    requires
        p > 0,
        q > 0,
        has_exponent(p, q, e),
        e < f,
    ensures
        !has_exponent(p, q, f),
{
    lemma_scales_compare(p, q, e, f);
    lemma_scaled_positive(p, q, e);
    lemma_scaled_positive(p, q, f);
    lemma_two_grows(1, (f - e) as nat);
    assert(two(1) == 2) by {
        reveal_with_fuel(two, 2);
    }
    lemma_two_positive(52);
    let a = scaled_numerator(p, f) as int;
    let b = scaled_denominator(q, f) as int;
    let c = scaled_numerator(p, e) as int;
    let d = scaled_denominator(q, e) as int;
    let t = two((f - e) as nat) as int;
    let h = two(52) as int;
    assert(two(53) == 2 * h);
    if h * b <= a {
        assert(h * b * d * 2 <= a * d * t) by (nonlinear_arith)
            requires
                h * b <= a,
                t >= 2,
                d > 0,
                b > 0,
                h > 0,
        ;
    }
    assert(c * b < 2 * h * d * b) by (nonlinear_arith)
        requires
            c < 2 * h * d,
            b > 0,
    ;
    assert(h * b * d * 2 == 2 * h * d * b) by (nonlinear_arith);
}

/// A quotient rounds to one number only.
pub proof fn law_rounding_is_unique(p: nat, q: nat, m: nat, e: int)
    requires
        p > 0,
        q > 0,
        rounds_to(p, q, m, e),
    ensures
        nearest(p, q) == (m, e),
{
    law_rounding_exists(p, q);
    lemma_exponent_unique(p, q, e, nearest(p, q).1);
}

/// A rounded significand has fifty-three bits, or is the next power of two.
pub proof fn law_significand_range(p: nat, q: nat)
    requires
        p > 0,
        q > 0,
    ensures
        two(52) <= nearest(p, q).0 <= two(53),
{
    law_rounding_exists(p, q);
    let (m, e) = nearest(p, q);
    let a = scaled_numerator(p, e) as int;
    let b = scaled_denominator(q, e) as int;
    lemma_scaled_positive(p, q, e);
    let h = two(52) as int;
    let k = two(53) as int;
    assert(h <= a / b < k) by (nonlinear_arith)
        requires
            h * b <= a,
            a < k * b,
            b > 0,
    ;
}

/// What a quotient rounds to is nearest to it: it is off by half a unit of its last place at
/// most, and where it is off by exactly that it is even.
pub proof fn law_rounding_is_to_nearest(p: nat, q: nat)
    requires
        p > 0,
        q > 0,
    ensures
        ({
            let (m, e) = nearest(p, q);
            let a = if e < 0 {
                p * two((-e) as nat)
            } else {
                p
            };
            let b = if e > 0 {
                q * two(e as nat)
            } else {
                q
            };
            &&& -(b as int) <= 2 * (a - m * b) <= b
            &&& 2 * (a - m * b) == b || 2 * (a - m * b) == -(b as int) ==> m % 2 == 0
        }),
{
    law_rounding_exists(p, q);
    let (m, e) = nearest(p, q);
    let a = scaled_numerator(p, e);
    let b = scaled_denominator(q, e);
    lemma_scaled_positive(p, q, e);
    let floor = a / b;
    let rest = a % b;
    assert(a == floor * b + rest && 0 <= rest < b) by (nonlinear_arith)
        requires
            floor == a / b,
            rest == a % b,
            b > 0,
    ;
    if m == floor {
        assert(a - m * b == rest);
    } else {
        assert((floor + 1) * b == floor * b + b) by (nonlinear_arith);
        assert(a - m * b == rest - b);
    }
}

/// Powers grow by their base.
pub proof fn law_powers(n: nat)
    ensures
        two(0) == 1,
        ten(0) == 1,
        two(n + 1) == 2 * two(n),
        ten(n + 1) == 10 * ten(n),
{
}

} // verus!
