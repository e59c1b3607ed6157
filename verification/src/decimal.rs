//! Decimal numbers with a fraction, multiplied as binary floating-point numbers are.
use crate::rounding::{
    lemma_ten_positive, lemma_two_adds, lemma_two_grows, lemma_two_positive, lemma_two_values,
    law_rounding_exists, law_rounding_is_unique, law_significand_range, nearest, quotient_rounded,
    rounds_to, scaled_denominator, scaled_numerator, ten, two,
};
use crate::number::{decimal_digit, digit_value, digits_value};
use vstd::prelude::*;

verus! {

/// The number that decimal digits stand for.
pub open spec fn number_of(digits: Seq<u8>) -> nat
    decreases digits.len(),
{
    if digits.len() == 0 {
        0
    } else {
        10 * number_of(digits.drop_last()) + digits.last() as nat
    }
}

/// All of them are digits.
pub open spec fn all_digits(digits: Seq<u8>) -> bool {
    forall|i: int| 0 <= i < digits.len() ==> (#[trigger] digits[i]) < 10
}

/// What a decimal number comes to after multiplication.
pub enum Outcome {
    /// Nothing.
    Zero,
    /// More than nothing, but less than one.
    BelowOne,
    /// So much, without the fraction.
    Whole(u128),
    /// More than two to the power of sixty-four.
    TooLarge,
}

/// A number with a significand and an exponent of two is less than one.
pub open spec fn below_one(x: (nat, int)) -> bool {
    x.1 < 0 && x.0 < two((-x.1) as nat)
}

/// It is more than two to the power of sixty-four.
pub open spec fn too_large(x: (nat, int)) -> bool {
    if x.1 >= 0 {
        x.0 * two(x.1 as nat) > two(64)
    } else {
        x.0 > two(64) * two((-x.1) as nat)
    }
}

/// Its whole part.
pub open spec fn whole_part(x: (nat, int)) -> nat {
    if x.1 >= 0 {
        x.0 * two(x.1 as nat)
    } else {
        x.0 / two((-x.1) as nat)
    }
}

/// A decimal number of `n` over ten to the power of `k`, rounded, then multiplied and
/// rounded again: significand and exponent of two. Rounding looks at the significand
/// only, so the exponents add up.
pub open spec fn float_product(n: nat, k: nat, multiplier: nat) -> (nat, int) {
    let (m, e) = nearest(n, ten(k));
    let (product, f) = nearest(m * multiplier, 1);
    (product, e + f)
}

/// What a decimal number of `n` over ten to the power of `k` comes to after
/// multiplication.
pub open spec fn scaled_outcome(n: nat, k: nat, multiplier: nat) -> Outcome {
    if n == 0 {
        Outcome::Zero
    } else {
        let x = float_product(n, k, multiplier);
        if below_one(x) {
            Outcome::BelowOne
        } else if too_large(x) {
            Outcome::TooLarge
        } else {
            Outcome::Whole(whole_part(x) as u128)
        }
    }
}

/// The number of digits in two parts.
proof fn lemma_number_of_concat(a: Seq<u8>, b: Seq<u8>)
    ensures
        number_of(a + b) == number_of(a) * ten(b.len()) + number_of(b),
    decreases b.len(),
{
    if b.len() == 0 {
        assert(a + b =~= a);
        assert(number_of(a) * ten(0) == number_of(a)) by (nonlinear_arith)
            requires
                ten(0) == 1,
        ;
    } else {
        let c = b.drop_last();
        lemma_number_of_concat(a, c);
        assert((a + b).drop_last() =~= a + c);
        assert((a + b).last() == b.last());
        assert(ten(b.len()) == 10 * ten(c.len()));
        assert(10 * (number_of(a) * ten(c.len())) == number_of(a) * (10 * ten(c.len())))
            by (nonlinear_arith);
    }
}

/// Digits stand for less than the next power of ten.
proof fn lemma_number_of_bound(digits: Seq<u8>)
    requires
        all_digits(digits),
    ensures
        number_of(digits) < ten(digits.len()),
    decreases digits.len(),
{
    if digits.len() > 0 {
        let rest = digits.drop_last();
        assert(all_digits(rest)) by {
            assert forall|i: int| 0 <= i < rest.len() implies (#[trigger] rest[i]) < 10 by {
                assert(rest[i] == digits[i]);
            }
        }
        lemma_number_of_bound(rest);
        assert(digits[digits.len() - 1] < 10);
    }
}

/// Digits stand for zero exactly where all of them are zero.
proof fn lemma_number_of_zero(digits: Seq<u8>)
    ensures
        number_of(digits) == 0 <==> forall|i: int|
            0 <= i < digits.len() ==> #[trigger] digits[i] == 0,
    decreases digits.len(),
{
    if digits.len() > 0 {
        let rest = digits.drop_last();
        lemma_number_of_zero(rest);
        if number_of(digits) == 0 {
            assert forall|i: int| 0 <= i < digits.len() implies #[trigger] digits[i] == 0 by {
                if i < rest.len() {
                    assert(rest[i] == digits[i]);
                }
            }
        }
        if forall|i: int| 0 <= i < digits.len() ==> #[trigger] digits[i] == 0 {
            assert forall|i: int| 0 <= i < rest.len() implies #[trigger] rest[i] == 0 by {
                assert(rest[i] == digits[i]);
            }
            assert(digits[digits.len() - 1] == 0);
        }
    }
}

/// Whether any digit is not zero.
fn any_nonzero(digits: &Vec<u8>) -> (b: bool)
    ensures
        b == (number_of(digits@) != 0),
{
    let mut i: usize = 0;
    while i < digits.len()
        invariant
            i <= digits@.len(),
            forall|j: int| 0 <= j < i ==> #[trigger] digits@[j] == 0,
        decreases digits@.len() - i,
    {
        if digits[i] != 0 {
            proof {
                lemma_number_of_zero(digits@);
                assert(digits@[i as int] != 0);
            }
            return true;
        }
        i = i + 1;
    }
    proof {
        lemma_number_of_zero(digits@);
    }
    false
}

/// Doubles the fraction that digits stand for, and returns what goes over.
fn double_digits(digits: &mut Vec<u8>) -> (carry: u8)
    requires
        all_digits(old(digits)@),
    ensures
        carry <= 1,
        final(digits)@.len() == old(digits)@.len(),
        all_digits(final(digits)@),
        number_of(final(digits)@) + carry * ten(final(digits)@.len()) == 2 * number_of(
            old(digits)@,
        ),
{
    let n: usize = digits.len();
    let mut i: usize = n;
    let mut carry: u8 = 0;
    let ghost o = old(digits)@;
    proof {
        assert(o.take(n as int) =~= o);
        assert(digits@.skip(n as int) =~= Seq::empty());
        assert((2 * number_of(o)) * ten(0) == 2 * number_of(o)) by (nonlinear_arith)
            requires
                ten(0) == 1,
        ;
    }
    while i > 0
        invariant
            i <= n,
            n == o.len(),
            digits@.len() == n,
            carry <= 1,
            all_digits(o),
            all_digits(digits@),
            forall|j: int| 0 <= j < i ==> digits@[j] == o[j],
            2 * number_of(o) == (2 * number_of(o.take(i as int)) + carry) * ten((n - i) as nat)
                + number_of(digits@.skip(i as int)),
        decreases i,
    {
        let ghost before = digits@;
        let ghost c0 = carry;
        i = i - 1;
        assert(o[i as int] < 10);
        let x: u8 = 2 * digits[i] + carry;
        digits[i] = x % 10;
        carry = x / 10;
        proof {
            let d = o[i as int];
            assert(o.take(i + 1).drop_last() =~= o.take(i as int));
            assert(o.take(i + 1).last() == d);
            let a = number_of(o.take(i as int)) as int;
            assert(number_of(o.take(i + 1)) == 10 * a + d);
            let tail = digits@.skip(i + 1);
            assert(tail =~= before.skip(i + 1));
            let head = seq![(x % 10) as u8];
            assert(digits@.skip(i as int) =~= head + tail);
            lemma_number_of_concat(head, tail);
            assert(head.drop_last() =~= Seq::empty());
            assert(number_of(head) == x % 10) by {
                assert(number_of(head.drop_last()) == 0);
            }
            let t = ten((n - i - 1) as nat) as int;
            assert(tail.len() == n - i - 1);
            assert(ten((n - i) as nat) == 10 * t);
            let r = number_of(tail) as int;
            assert(number_of(digits@.skip(i as int)) == (x % 10) * t + r);
            assert(x == 10 * (x / 10) + x % 10);
            assert((2 * (10 * a + d) + c0) * t == (2 * a + x / 10) * (10 * t) + (x % 10) * t)
                by (nonlinear_arith)
                requires
                    x == 2 * d + c0,
                    x == 10 * (x / 10) + x % 10,
            ;
            assert forall|j: int| 0 <= j < digits@.len() implies (#[trigger] digits@[j]) < 10 by {
                if j != i {
                    assert(digits@[j] == before[j]);
                }
            }
        }
    }
    proof {
        assert(digits@.skip(0) =~= digits@);
        assert(o.take(0) =~= Seq::empty());
        assert(number_of(o.take(0)) == 0);
        assert((2 * 0 + carry) * ten(n as nat) == carry * ten(n as nat));
    }
    carry
}

/// Rounding by the floor of the doubled quotient, and by whether that left a rest.
proof fn lemma_round_from_floor(a: nat, b: nat, q: nat, rest: nat)
    requires
        b > 0,
        2 * a == q * b + rest,
        rest < b,
    ensures
        quotient_rounded(a, b) == (if q % 2 == 1 && (rest > 0 || (q / 2) % 2 == 1) {
            q / 2 + 1
        } else {
            q / 2
        }),
        two(53) <= q ==> two(52) * b <= a,
        q < two(54) ==> a < two(53) * b,
{
    let f = q / 2;
    let bit = q % 2;
    let r = a - f * b;
    assert(q == 2 * f + bit);
    assert((2 * f + bit) * b == 2 * (f * b) + bit * b) by (nonlinear_arith);
    assert(2 * r == bit * b + rest);
    if bit == 0 {
        assert(bit * b == 0) by (nonlinear_arith)
            requires
                bit == 0,
        ;
    } else {
        assert(bit * b == b) by (nonlinear_arith)
            requires
                bit == 1,
        ;
    }
    assert(0 <= r < b);
    assert(a / b == f && a % b == r) by (nonlinear_arith)
        requires
            a == f * b + r,
            0 <= r < b,
    ;
    let h = two(52) as int;
    assert(two(53) == 2 * h);
    assert(two(54) == 2 * two(53));
    if two(53) <= q {
        assert(2 * (h * b) <= q * b) by (nonlinear_arith)
            requires
                2 * h <= q,
                b > 0,
        ;
    }
    if q < two(54) {
        assert((q + 1) * b <= (4 * h) * b) by (nonlinear_arith)
            requires
                q + 1 <= 4 * h,
                b > 0,
        ;
        assert((q + 1) * b == q * b + b) by (nonlinear_arith);
        assert((4 * h) * b == 2 * ((2 * h) * b)) by (nonlinear_arith);
    }
}

/// The nearest significand, from the floor of the doubled quotient.
fn significand(q: u128, rest: bool) -> (m: u64)
    requires
        q < two(54),
    ensures
        m == (if q % 2 == 1 && (rest || (q / 2) % 2 == 1) {
            q as nat / 2 + 1
        } else {
            q as nat / 2
        }),
{
    proof {
        lemma_two_values();
    }
    let half: u64 = (q / 2) as u64;
    if q % 2 == 1 && (rest || half % 2 == 1) {
        half + 1
    } else {
        half
    }
}

/// How often a fraction is doubled at most.
pub const MAX_DOUBLINGS: u32 = 97;

/// The number that a whole part and a fraction stand for, over a power of ten.
pub open spec fn decimal_number(whole: nat, fraction: Seq<u8>) -> nat {
    whole * ten(fraction.len()) + number_of(fraction)
}

/// Rounds a decimal number: the significand and the exponent of two. Returns `None` for
/// a number that is far too small to matter.
fn round_decimal(whole: u128, fraction: Vec<u8>) -> (r: Option<(u64, i32)>)
    requires
        whole < two(100),
        all_digits(fraction@),
        decimal_number(whole as nat, fraction@) > 0,
    ensures
        r matches Some(x) ==> rounds_to(
            decimal_number(whole as nat, fraction@),
            ten(fraction@.len()),
            x.0 as nat,
            x.1 as int,
        ) && -97 < x.1 <= 101,
        r is None ==> decimal_number(whole as nat, fraction@) * two(97) < two(53) * ten(
            fraction@.len(),
        ),
{
    let mut digits = fraction;
    let ghost k = fraction@.len();
    let ghost n = decimal_number(whole as nat, fraction@);
    let ghost t = ten(k);
    let mut q: u128 = whole;
    proof {
        lemma_two_values();
        lemma_ten_positive(k);
        lemma_number_of_bound(fraction@);
    }
    if q >= 0x20_0000_0000_0000 {
        return Some(round_large(whole, digits));
    }
    let mut doublings: u32 = 0;
    assert(n * two(0) == q * t + number_of(digits@)) by {
        assert(n * two(0) == n) by (nonlinear_arith)
            requires
                two(0) == 1,
        ;
    }
    while q < 0x20_0000_0000_0000
        invariant
            doublings <= MAX_DOUBLINGS,
            q < two(54),
            digits@.len() == k,
            all_digits(digits@),
            t == ten(k),
            n * two(doublings as nat) == q * t + number_of(digits@),
            two(53) == 0x20_0000_0000_0000,
            two(54) == 0x40_0000_0000_0000,
            doublings == 0 ==> q < two(53),
            k == fraction@.len(),
            n == decimal_number(whole as nat, fraction@),
            t > 0,
        decreases MAX_DOUBLINGS - doublings,
    {
        if doublings == MAX_DOUBLINGS {
            proof {
                lemma_number_of_bound(digits@);
                assert(q * t + number_of(digits@) < two(53) * t) by (nonlinear_arith)
                    requires
                        q + 1 <= two(53),
                        number_of(digits@) < t,
                        t > 0,
                ;
            }
            return None;
        }
        let ghost before = number_of(digits@);
        let carry: u8 = double_digits(&mut digits);
        proof {
            let d = doublings as nat;
            assert(two(d + 1) == 2 * two(d));
            assert(n * (2 * two(d)) == 2 * (n * two(d))) by (nonlinear_arith);
            assert(2 * (q * t + before) == (2 * q + carry) * t + number_of(digits@))
                by (nonlinear_arith)
                requires
                    number_of(digits@) + carry * t == 2 * before,
            ;
        }
        q = 2 * q + carry as u128;
        doublings = doublings + 1;
    }
    let rest: bool = any_nonzero(&digits);
    let m: u64 = significand(q, rest);
    let e: i32 = 1 - doublings as i32;
    proof {
        lemma_number_of_bound(digits@);
        let d = (doublings - 1) as nat;
        assert(two(doublings as nat) == 2 * two(d));
        assert(n * (2 * two(d)) == 2 * (n * two(d))) by (nonlinear_arith);
        if d == 0 {
            assert(n * two(0) == n) by (nonlinear_arith)
                requires
                    two(0) == 1,
            ;
        }
        assert(scaled_numerator(n, e as int) == n * two(d));
        assert(scaled_denominator(t, e as int) == t);
        lemma_round_from_floor(n * two(d), t, q as nat, number_of(digits@));
    }
    Some((m, e))
}

/// Rounds a decimal number whose whole part has fifty-four bits or more.
fn round_large(whole: u128, fraction: Vec<u8>) -> (x: (u64, i32))
    requires
        two(53) <= whole < two(100),
        all_digits(fraction@),
    ensures
        rounds_to(
            decimal_number(whole as nat, fraction@),
            ten(fraction@.len()),
            x.0 as nat,
            x.1 as int,
        ),
        -97 < x.1 <= 101,
{
    let ghost n = decimal_number(whole as nat, fraction@);
    let ghost t = ten(fraction@.len());
    let ghost f = number_of(fraction@);
    let mut q: u128 = whole;
    let mut shifts: u32 = 0;
    let mut rest: bool = any_nonzero(&fraction);
    let ghost low: nat = 0;
    proof {
        lemma_two_values();
        lemma_ten_positive(fraction@.len());
        lemma_number_of_bound(fraction@);
        assert(q * two(0) + low == whole) by (nonlinear_arith)
            requires
                two(0) == 1,
                low == 0,
                q == whole,
        ;
    }
    while q >= 0x40_0000_0000_0000
        invariant
            two(53) <= q <= whole,
            whole < two(100),
            two(53) == 0x20_0000_0000_0000,
            two(54) == 0x40_0000_0000_0000,
            whole == q * two(shifts as nat) + low,
            low < two(shifts as nat),
            rest == (low > 0 || f > 0),
            shifts <= 100,
        decreases q,
    {
        proof {
            let s = shifts as nat;
            if shifts >= 100 {
                lemma_two_grows(100, s);
                assert(q * two(s) >= two(s)) by (nonlinear_arith)
                    requires
                        q >= 1,
                        two(s) >= 0,
                ;
            }
            lemma_two_positive(s);
            let bit = (q % 2) as nat;
            let half = (q / 2) as nat;
            assert(q == 2 * half + bit);
            assert(two(s + 1) == 2 * two(s));
            assert((2 * half + bit) * two(s) == half * (2 * two(s)) + bit * two(s))
                by (nonlinear_arith);
            low = low + bit * two(s);
            if bit == 0 {
                assert(bit * two(s) == 0) by (nonlinear_arith)
                    requires
                        bit == 0,
                ;
            } else {
                assert(bit * two(s) == two(s)) by (nonlinear_arith)
                    requires
                        bit == 1,
                ;
            }
        }
        rest = rest || q % 2 == 1;
        q = q / 2;
        shifts = shifts + 1;
    }
    let m: u64 = significand(q, rest);
    let e: i32 = 1 + shifts as i32;
    proof {
        let s = shifts as nat;
        let p = two(s) as int;
        assert(two(s + 1) == 2 * p);
        let b = t * two(s + 1);
        assert(scaled_numerator(n, e as int) == n);
        assert(scaled_denominator(t, e as int) == b);
        lemma_two_positive(s);
        assert(b > 0) by (nonlinear_arith)
            requires
                b == t * (2 * p),
                t > 0,
                p > 0,
        ;
        let r = 2 * (low * t + f);
        assert(2 * n == q * b + r) by (nonlinear_arith)
            requires
                n == whole * t + f,
                whole == q * p + low,
                b == t * (2 * p),
                r == 2 * (low * t + f),
        ;
        assert(r < b) by (nonlinear_arith)
            requires
                low + 1 <= p,
                f < t,
                t > 0,
                b == t * (2 * p),
                r == 2 * (low * t + f),
        ;
        assert(r > 0 <==> low > 0 || f > 0) by {
            if low > 0 {
                assert(low * t > 0) by (nonlinear_arith)
                    requires
                        low > 0,
                        t > 0,
                ;
            } else {
                assert(low * t == 0) by (nonlinear_arith)
                    requires
                        low == 0,
                ;
            }
        }
        lemma_round_from_floor(n, b, q as nat, r as nat);
    }
    (m, e)
}

/// A number that is far too small stays below one after multiplication.
proof fn lemma_small_product(n: nat, k: nat, multiplier: nat)
    requires
        n > 0,
        n * two(97) < two(53) * ten(k),
        1 <= multiplier <= two(40),
    ensures
        below_one(float_product(n, k, multiplier)),
{
    let t = ten(k);
    lemma_ten_positive(k);
    lemma_two_values();
    law_rounding_exists(n, t);
    law_significand_range(n, t);
    let (m, e) = nearest(n, t);
    lemma_two_positive(96);
    assert(two(97) == 2 * two(96));
    assert(2 * (n * two(96)) == n * (2 * two(96))) by (nonlinear_arith);
    assert(two(53) * t == 2 * (two(52) * t)) by (nonlinear_arith)
        requires
            two(53) == 2 * two(52),
    ;
    assert(n * two(96) < two(52) * t);
    assert(e <= -97) by {
        if e > -97 {
            if e >= 0 {
                let d = scaled_denominator(t, e) as int;
                assert(d >= t) by {
                    if e > 0 {
                        lemma_two_positive(e as nat);
                        assert(t * two(e as nat) >= t) by (nonlinear_arith)
                            requires
                                two(e as nat) >= 1,
                                t >= 1,
                        ;
                    }
                }
                assert(two(52) * d >= two(52) * t) by (nonlinear_arith)
                    requires
                        d >= t,
                        two(52) >= 1,
                ;
                assert(n * two(96) >= n) by (nonlinear_arith)
                    requires
                        two(96) >= 1,
                        n >= 0,
                ;
            } else {
                lemma_two_grows((-e) as nat, 96);
                assert(n * two((-e) as nat) <= n * two(96)) by (nonlinear_arith)
                    requires
                        two((-e) as nat) <= two(96),
                        n >= 0,
                ;
            }
        }
    }
    let product = m * multiplier;
    lemma_product_range(m, multiplier);
    law_rounding_exists(product, 1);
    law_significand_range(product, 1);
    let (p, f) = nearest(product, 1);
    assert(f <= 41) by {
        if f > 41 {
            lemma_two_adds(52, f as nat);
            lemma_two_grows(94, 52 + f as nat);
            lemma_two_adds(53, 40);
            assert(two(94) == 2 * two(93));
            lemma_two_positive(93);
            assert(two(52) * (1 * two(f as nat)) == two(52) * two(f as nat));
        }
    }
    lemma_two_grows(54, (-(e + f)) as nat);
}

/// The product of a significand and a multiplier has between fifty-three and ninety-four
/// bits.
proof fn lemma_product_range(m: nat, multiplier: nat)
    requires
        two(52) <= m <= two(53),
        1 <= multiplier <= two(40),
    ensures
        two(52) <= m * multiplier <= two(93),
        m * multiplier < two(100),
        m * multiplier > 0,
{
    lemma_two_adds(53, 40);
    lemma_two_positive(52);
    lemma_two_grows(94, 100);
    lemma_two_positive(93);
    assert(two(94) == 2 * two(93));
    assert(m <= m * multiplier <= two(53) * two(40)) by (nonlinear_arith)
        requires
            m <= two(53),
            1 <= multiplier <= two(40),
            m >= 0,
    ;
}

/// A number that is far too large stays so after multiplication.
proof fn lemma_large_product(n: nat, k: nat, multiplier: nat)
    requires
        n >= two(66) * ten(k),
        1 <= multiplier <= two(40),
    ensures
        n > 0,
        too_large(float_product(n, k, multiplier)),
        !below_one(float_product(n, k, multiplier)),
{
    let t = ten(k);
    lemma_ten_positive(k);
    lemma_two_values();
    lemma_two_positive(66);
    assert(two(66) * t >= 1) by (nonlinear_arith)
        requires
            two(66) >= 1,
            t >= 1,
    ;
    law_rounding_exists(n, t);
    law_significand_range(n, t);
    let (m, e) = nearest(n, t);
    lemma_two_grows(53, 66);
    assert(e >= 14) by {
        if e < 14 {
            if e <= 0 {
                let a = scaled_numerator(n, e) as int;
                assert(a >= n) by {
                    if e < 0 {
                        lemma_two_positive((-e) as nat);
                        assert(n * two((-e) as nat) >= n) by (nonlinear_arith)
                            requires
                                two((-e) as nat) >= 1,
                                n >= 0,
                        ;
                    }
                }
                assert(two(53) * t <= two(66) * t) by (nonlinear_arith)
                    requires
                        two(53) <= two(66),
                        t >= 1,
                ;
            } else {
                lemma_two_adds(53, e as nat);
                lemma_two_grows(53 + e as nat, 66);
                assert(two(53) * (t * two(e as nat)) == (two(53) * two(e as nat)) * t)
                    by (nonlinear_arith);
                assert((two(53) * two(e as nat)) * t <= two(66) * t) by (nonlinear_arith)
                    requires
                        two(53) * two(e as nat) <= two(66),
                        t >= 1,
                ;
            }
        }
    }
    let product = m * multiplier;
    lemma_product_range(m, multiplier);
    lemma_product_exponent(product);
    let (p, f) = nearest(product, 1);
    let g = (e + f) as nat;
    lemma_two_grows(14, g);
    lemma_two_adds(52, 14);
    lemma_two_adds(2, 64);
    assert(two(2) == 4) by {
        reveal_with_fuel(two, 3);
    }
    lemma_two_positive(64);
    assert(p * two(g) >= two(52) * two(14)) by (nonlinear_arith)
        requires
            p >= two(52),
            two(g) >= two(14),
    ;
}

/// A whole number of fifty-three bits or more is rounded without a negative exponent.
proof fn lemma_product_exponent(product: nat)
    requires
        two(52) <= product,
    ensures
        product > 0,
        rounds_to(product, 1, nearest(product, 1).0, nearest(product, 1).1),
        two(52) <= nearest(product, 1).0 <= two(53),
        nearest(product, 1).1 >= 0,
{
    lemma_two_positive(52);
    law_rounding_exists(product, 1);
    law_significand_range(product, 1);
    let f = nearest(product, 1).1;
    if f < 0 {
        lemma_two_grows(1, (-f) as nat);
        assert(two(1) == 2) by {
            reveal_with_fuel(two, 2);
        }
        assert(product * two((-f) as nat) >= two(52) * 2) by (nonlinear_arith)
            requires
                product >= two(52),
                two((-f) as nat) >= 2,
        ;
        assert(two(53) == 2 * two(52));
        assert(two(53) * 1 == two(53));
    }
}

/// A power of two.
fn power_of_two(n: u32) -> (r: u128)
    requires
        n <= 60,
    ensures
        r == two(n as nat),
{
    let mut r: u128 = 1;
    let mut i: u32 = 0;
    proof {
        lemma_two_values();
        lemma_two_grows(60, 64);
    }
    while i < n
        invariant
            i <= n <= 60,
            r == two(i as nat),
            two(60) <= two(64),
            two(64) == 0x1_0000_0000_0000_0000,
        decreases n - i,
    {
        proof {
            lemma_two_grows((i + 1) as nat, 60);
            assert(two((i + 1) as nat) == 2 * two(i as nat));
        }
        r = 2 * r;
        i = i + 1;
    }
    r
}

/// What a significand and an exponent come to.
fn outcome_of(m: u64, e: i64) -> (r: Outcome)
    requires
        two(52) <= m <= two(53),
        -1000 < e < 1000,
    ensures
        r == (if below_one((m as nat, e as int)) {
            Outcome::BelowOne
        } else if too_large((m as nat, e as int)) {
            Outcome::TooLarge
        } else {
            Outcome::Whole(whole_part((m as nat, e as int)) as u128)
        }),
{
    proof {
        lemma_two_values();
    }
    if e >= 13 {
        proof {
            lemma_two_grows(13, e as nat);
            lemma_two_adds(52, 13);
            assert(two(65) == 2 * two(64));
            assert(m * two(e as nat) >= two(52) * two(13)) by (nonlinear_arith)
                requires
                    m >= two(52),
                    two(e as nat) >= two(13),
            ;
        }
        Outcome::TooLarge
    } else if e >= 0 {
        let p: u128 = power_of_two(e as u32);
        proof {
            lemma_two_grows(e as nat, 40);
            assert(m * p <= 0x20_0000_0000_0000 * 0x100_0000_0000) by (nonlinear_arith)
                requires
                    m <= 0x20_0000_0000_0000,
                    0 <= p <= 0x100_0000_0000,
            ;
        }
        let x: u128 = m as u128 * p;
        if x > 0x1_0000_0000_0000_0000 {
            Outcome::TooLarge
        } else {
            Outcome::Whole(x)
        }
    } else {
        let d: i64 = -e;
        proof {
            lemma_two_positive(d as nat);
            assert(two(64) * two(d as nat) >= two(64)) by (nonlinear_arith)
                requires
                    two(d as nat) >= 1,
            ;
        }
        if d >= 54 {
            proof {
                lemma_two_grows(54, d as nat);
            }
            Outcome::BelowOne
        } else {
            let p: u128 = power_of_two(d as u32);
            if (m as u128) < p {
                Outcome::BelowOne
            } else {
                Outcome::Whole(m as u128 / p)
            }
        }
    }
}

/// What a decimal number, given by its digits before and after the point, comes to when
/// it is multiplied as a binary floating-point number.
pub fn scale_decimal(whole_digits: &Vec<u8>, fraction: Vec<u8>, multiplier: u64) -> (r: Outcome)
    requires
        all_digits(whole_digits@),
        all_digits(fraction@),
        1 <= multiplier <= 0x100_0000_0000,
    ensures
        r == scaled_outcome(
            decimal_number(number_of(whole_digits@), fraction@),
            fraction@.len(),
            multiplier as nat,
        ),
{
    let ghost n = decimal_number(number_of(whole_digits@), fraction@);
    let ghost k = fraction@.len();
    let ghost t = ten(k);
    proof {
        lemma_two_values();
        lemma_ten_positive(k);
        lemma_two_adds(2, 64);
        assert(two(2) == 4) by {
            reveal_with_fuel(two, 3);
        }
    }
    let mut whole: u128 = 0;
    let mut i: usize = 0;
    while i < whole_digits.len()
        invariant
            i <= whole_digits@.len(),
            whole == number_of(whole_digits@.take(i as int)),
            whole < two(66),
            two(66) == 0x4_0000_0000_0000_0000,
            two(40) == 0x100_0000_0000,
            all_digits(whole_digits@),
            n == decimal_number(number_of(whole_digits@), fraction@),
            k == fraction@.len(),
            t == ten(k),
            t >= 1,
            1 <= multiplier <= 0x100_0000_0000,
        decreases whole_digits@.len() - i,
    {
        assert(whole_digits@[i as int] < 10);
        assert(whole_digits@.take(i + 1).drop_last() =~= whole_digits@.take(i as int));
        let next: u128 = whole * 10 + whole_digits[i] as u128;
        if next >= 0x4_0000_0000_0000_0000 {
            proof {
                lemma_more_number(whole_digits@, i + 1);
                let w = number_of(whole_digits@);
                assert(w * t >= two(66) * t) by (nonlinear_arith)
                    requires
                        w >= two(66),
                        t >= 1,
                ;
                lemma_large_product(n, k, multiplier as nat);
            }
            return Outcome::TooLarge;
        }
        whole = next;
        i = i + 1;
    }
    assert(whole_digits@.take(i as int) =~= whole_digits@);
    if whole == 0 && !any_nonzero(&fraction) {
        assert(0 * t == 0);
        return Outcome::Zero;
    }
    proof {
        lemma_two_grows(66, 100);
        if whole > 0 {
            assert(whole * t >= 1) by (nonlinear_arith)
                requires
                    whole >= 1,
                    t >= 1,
            ;
        }
    }
    match round_decimal(whole, fraction) {
        None => {
            proof {
                lemma_small_product(n, k, multiplier as nat);
            }
            Outcome::BelowOne
        },
        Some((m, e)) => {
            proof {
                law_rounding_is_unique(n, t, m as nat, e as int);
                law_significand_range(n, t);
                lemma_product_range(m as nat, multiplier as nat);
                lemma_product_exponent(m as nat * multiplier as nat);
                assert(m * multiplier <= 0x20_0000_0000_0000 * 0x100_0000_0000)
                    by (nonlinear_arith)
                    requires
                        m <= 0x20_0000_0000_0000,
                        multiplier <= 0x100_0000_0000,
                ;
            }
            let product: u128 = m as u128 * multiplier as u128;
            let nothing: Vec<u8> = Vec::new();
            proof {
                let empty = nothing@;
                assert(number_of(empty) == 0);
                assert(ten(0) == 1);
                assert(decimal_number(product as nat, empty) == product) by (nonlinear_arith)
                    requires
                        decimal_number(product as nat, empty) == product * ten(0) + 0,
                        ten(0) == 1,
                ;
            }
            match round_decimal(product, nothing) {
                None => {
                    proof {
                        lemma_two_grows(53, 97);
                        assert(product * two(97) >= two(53)) by (nonlinear_arith)
                            requires
                                product >= 1,
                                two(97) >= two(53),
                        ;
                        assert(two(53) * 1 == two(53));
                    }
                    Outcome::BelowOne
                },
                Some((p, f)) => {
                    proof {
                        law_rounding_is_unique(product as nat, 1, p as nat, f as int);
                    }
                    outcome_of(p, e as i64 + f as i64)
                },
            }
        },
    }
}

/// Further digits never make a number smaller.
proof fn lemma_more_number(digits: Seq<u8>, n: int)
    requires
        0 <= n <= digits.len(),
    ensures
        number_of(digits.take(n)) <= number_of(digits),
    decreases digits.len() - n,
{
    if n < digits.len() {
        lemma_more_number(digits, n + 1);
        assert(digits.take(n + 1).drop_last() =~= digits.take(n));
    } else {
        assert(digits.take(n) =~= digits);
    }
}

/// The values of digit characters.
pub open spec fn digit_values(s: Seq<char>) -> Seq<u8> {
    Seq::new(s.len(), |i: int| (s[i] as u32 - '0' as u32) as u8)
}

/// All characters are decimal digits.
pub open spec fn all_decimal(s: Seq<char>) -> bool {
    forall|i: int| 0 <= i < s.len() ==> digit_value(#[trigger] s[i]) is Some
}

/// The number of characters in front of the first point.
pub open spec fn point_at(s: Seq<char>) -> nat
    decreases s.len(),
{
    if s.len() == 0 || s[0] == '.' {
        0
    } else {
        1 + point_at(s.skip(1))
    }
}

/// The characters before and after the point of a decimal number: digits, of which there
/// is at least one, and one point at most.
pub open spec fn decimal_parts(s: Seq<char>) -> Option<(Seq<char>, Seq<char>)> {
    let n = point_at(s) as int;
    let whole = s.take(n);
    let fraction = if n < s.len() {
        s.skip(n + 1)
    } else {
        Seq::empty()
    };
    if all_decimal(whole) && all_decimal(fraction) && whole.len() + fraction.len() > 0 {
        Some((whole, fraction))
    } else {
        None
    }
}

/// What a decimal number in writing comes to after multiplication; `None` where it is no
/// decimal number.
pub open spec fn decimal_outcome(s: Seq<char>, multiplier: nat) -> Option<Outcome> {
    match decimal_parts(s) {
        Some((whole, fraction)) => Some(
            scaled_outcome(
                decimal_number(number_of(digit_values(whole)), digit_values(fraction)),
                fraction.len(),
                multiplier,
            ),
        ),
        None => None,
    }
}

/// Reads the digits between two places.
fn read_decimal(v: &[char], from: usize, to: usize) -> (r: Option<Vec<u8>>)
    requires
        from <= to <= v@.len(),
    ensures
        r is Some <==> all_decimal(v@.subrange(from as int, to as int)),
        r matches Some(digits) ==> digits@ == digit_values(v@.subrange(from as int, to as int))
            && all_digits(digits@),
{
    let ghost s = v@.subrange(from as int, to as int);
    let mut digits: Vec<u8> = Vec::new();
    let mut i: usize = from;
    while i < to
        invariant
            from <= i <= to <= v@.len(),
            s == v@.subrange(from as int, to as int),
            digits@.len() == i - from,
            forall|j: int|
                0 <= j < i - from ==> digit_value(#[trigger] s[j]) is Some && digits@[j]
                    == digit_values(s)[j] && digits@[j] < 10,
        decreases to - i,
    {
        assert(s[i - from] == v@[i as int]);
        match decimal_digit(v[i]) {
            None => {
                return None;
            },
            Some(d) => {
                digits.push(d as u8);
            },
        }
        i = i + 1;
    }
    assert(digits@ =~= digit_values(s));
    assert forall|j: int| 0 <= j < digits@.len() implies (#[trigger] digits@[j]) < 10 by {
        assert(digit_value(s[j]) is Some);
    }
    Some(digits)
}

/// Multiplies a decimal number in writing as a binary floating-point number. Returns
/// `None` where it is no decimal number.
pub fn scale_text(v: &[char], multiplier: u64) -> (r: Option<Outcome>)
    requires
        1 <= multiplier <= 0x100_0000_0000,
    ensures
        r == decimal_outcome(v@, multiplier as nat),
{
    let mut point: usize = 0;
    assert(v@.skip(0) =~= v@);
    while point < v.len() && v[point] != '.'
        invariant
            point <= v@.len(),
            point_at(v@) == point + point_at(v@.skip(point as int)),
        decreases v@.len() - point,
    {
        assert(v@.skip(point as int).skip(1) =~= v@.skip(point + 1));
        point = point + 1;
    }
    let after: usize = if point < v.len() {
        point + 1
    } else {
        point
    };
    proof {
        assert(v@.subrange(0, point as int) =~= v@.take(point as int));
        if point < v@.len() {
            assert(v@.subrange(after as int, v@.len() as int) =~= v@.skip(point + 1));
        } else {
            assert(v@.subrange(after as int, v@.len() as int) =~= Seq::empty());
        }
    }
    let whole = read_decimal(v, 0, point);
    let fraction = read_decimal(v, after, v.len());
    match whole {
        None => None,
        Some(whole) => match fraction {
            None => None,
            Some(fraction) => {
                if whole.len() == 0 && fraction.len() == 0 {
                    return None;
                }
                Some(scale_decimal(&whole, fraction, multiplier))
            },
        },
    }
}

/// A significand and an exponent stand for exactly this whole number.
pub open spec fn is_exactly(x: (nat, int), v: nat) -> bool {
    if x.1 >= 0 {
        x.0 * two(x.1 as nat) == v
    } else {
        x.0 == v * two((-x.1) as nat)
    }
}

/// A number of fifty-three bits, times a power of two, is rounded to itself.
proof fn lemma_bits_rounded_to_itself(c: nat, j: nat)
    requires
        0 < c < two(53),
    ensures
        c * two(j) > 0,
        is_exactly(nearest(c * two(j), 1), c * two(j)),
{
    let p = c * two(j);
    lemma_two_positive(j);
    assert(p > 0) by (nonlinear_arith)
        requires
            p == c * two(j),
            c > 0,
            two(j) >= 1,
    ;
    law_rounding_exists(p, 1);
    let (m, e) = nearest(p, 1);
    if e <= 0 {
        let a = scaled_numerator(p, e);
        assert(a / 1 == a && a % 1 == 0);
        if e == 0 {
            assert(p * two(0) == p) by (nonlinear_arith)
                requires
                    two(0) == 1,
            ;
            assert(m * two(0) == m) by (nonlinear_arith)
                requires
                    two(0) == 1,
            ;
        }
    } else {
        let b = two(e as nat);
        assert(scaled_denominator(1, e) == b);
        lemma_two_positive(e as nat);
        if e as nat > j {
            lemma_two_grows(j + 1, e as nat);
            lemma_two_positive(52);
            assert(two(52) * b >= two(53) * two(j)) by (nonlinear_arith)
                requires
                    b >= 2 * two(j),
                    two(53) == 2 * two(52),
                    two(52) >= 1,
            ;
            assert(c * two(j) < two(53) * two(j)) by (nonlinear_arith)
                requires
                    c < two(53),
                    two(j) >= 1,
            ;
        }
        let d = (j - e) as nat;
        lemma_two_adds(d, e as nat);
        let w = c * two(d);
        assert(p == w * b) by (nonlinear_arith)
            requires
                p == c * two(j),
                two(j) == two(d) * b,
                w == c * two(d),
        ;
        assert(p / b == w && p % b == 0) by (nonlinear_arith)
            requires
                p == w * b,
                b >= 1,
        ;
    }
}

/// A number up to two to the power of 53, times a power of two, is rounded to itself.
proof fn lemma_rounded_to_itself(c: nat, j: nat)
    requires
        0 < c <= two(53),
    ensures
        c * two(j) > 0,
        is_exactly(nearest(c * two(j), 1), c * two(j)),
{
    lemma_two_values();
    if c < two(53) {
        lemma_bits_rounded_to_itself(c, j);
    } else {
        lemma_two_adds(1, j);
        assert(two(1) == 2) by {
            reveal_with_fuel(two, 2);
        }
        lemma_bits_rounded_to_itself(two(52), j + 1);
        assert(two(52) * two(j + 1) == c * two(j)) by (nonlinear_arith)
            requires
                two(j + 1) == 2 * two(j),
                c == 2 * two(52),
        ;
    }
}

/// Products up to two to the power of 53 are exact: no byte is lost or gained by
/// calculating with floating-point numbers.
pub proof fn law_small_products_are_exact(n: nat, multiplier: nat)
    requires
        n > 0,
        multiplier > 0,
        n * multiplier <= two(53),
    ensures
        scaled_outcome(n, 0, multiplier) == Outcome::Whole((n * multiplier) as u128),
{
    let c = n * multiplier;
    lemma_two_values();
    assert(n <= c && c > 0) by (nonlinear_arith)
        requires
            c == n * multiplier,
            multiplier >= 1,
            n >= 1,
    ;
    assert(n * two(0) == n) by (nonlinear_arith)
        requires
            two(0) == 1,
    ;
    assert(ten(0) == 1);
    lemma_rounded_to_itself(n, 0);
    law_rounding_exists(n, 1);
    let (m, e) = nearest(n, 1);
    let product = m * multiplier;
    let (p, f) = nearest(product, 1);
    let x = (p, e + f);
    let g = e + f;
    if e > 0 {
        assert(two(1) == 2) by {
            reveal_with_fuel(two, 2);
        }
        lemma_two_grows(1, e as nat);
        law_significand_range(n, 1);
        assert(m == two(52) && two(e as nat) == 2 && n == two(53)) by (nonlinear_arith)
            requires
                m * two(e as nat) == n,
                n <= two(53),
                two(53) == 2 * two(52),
                m >= two(52),
                two(e as nat) >= 2,
                two(52) > 0,
        ;
        assert(e == 1) by {
            if e > 1 {
                lemma_two_grows(2, e as nat);
                assert(two(2) == 4) by {
                    reveal_with_fuel(two, 3);
                }
            }
        }
        assert(multiplier == 1) by (nonlinear_arith)
            requires
                n * multiplier <= two(53),
                n == two(53),
                two(53) > 0,
                multiplier > 0,
        ;
        assert(product == m);
        lemma_rounded_to_itself(product, 0);
        assert(product * two(0) == product) by (nonlinear_arith)
            requires
                two(0) == 1,
        ;
        if f >= 0 {
            lemma_two_adds(1, f as nat);
            assert(p * two(g as nat) == c) by (nonlinear_arith)
                requires
                    p * two(f as nat) == product,
                    two(g as nat) == 2 * two(f as nat),
                    c == 2 * product,
            ;
        } else {
            lemma_two_adds(1, (-g) as nat);
            assert(p == c * two((-g) as nat)) by (nonlinear_arith)
                requires
                    p == product * two((-f) as nat),
                    two((-f) as nat) == 2 * two((-g) as nat),
                    c == 2 * product,
            ;
            if g == 0 {
                assert(p * two(0) == c) by (nonlinear_arith)
                    requires
                        p == c * two(0),
                        two(0) == 1,
                ;
            }
        }
    } else {
        let d = (-e) as nat;
        assert(m == n * two(d)) by {
            if e == 0 {
                assert(m * two(0) == m) by (nonlinear_arith)
                    requires
                        two(0) == 1,
                ;
            }
        }
        assert(product == c * two(d)) by (nonlinear_arith)
            requires
                product == m * multiplier,
                m == n * two(d),
                c == n * multiplier,
        ;
        lemma_rounded_to_itself(c, d);
        if f < 0 {
            let h = (-f) as nat;
            lemma_two_adds(d, h);
            assert(p == c * two((-g) as nat)) by (nonlinear_arith)
                requires
                    p == (c * two(d)) * two(h),
                    two((-g) as nat) == two(d) * two(h),
            ;
        } else if g >= 0 {
            lemma_two_adds(g as nat, d);
            lemma_two_positive(d);
            assert(p * two(g as nat) == c) by (nonlinear_arith)
                requires
                    p * two(f as nat) == c * two(d),
                    two(f as nat) == two(g as nat) * two(d),
                    two(d) >= 1,
            ;
        } else {
            lemma_two_adds((-g) as nat, f as nat);
            lemma_two_positive(f as nat);
            assert(p == c * two((-g) as nat)) by (nonlinear_arith)
                requires
                    p * two(f as nat) == c * two(d),
                    two(d) == two((-g) as nat) * two(f as nat),
                    two(f as nat) >= 1,
            ;
        }
    }
    assert(is_exactly(x, c));
    if g < 0 {
        let t = two((-g) as nat);
        lemma_two_positive((-g) as nat);
        assert(p >= t) by (nonlinear_arith)
            requires
                p == c * t,
                c >= 1,
        ;
        assert(p <= two(64) * t) by (nonlinear_arith)
            requires
                p == c * t,
                c <= two(64),
        ;
        assert(p / t == c) by (nonlinear_arith)
            requires
                p == c * t,
                t >= 1,
        ;
    }
}

/// What is not below one has a whole part, and what is not too large has one that fits.
pub proof fn law_whole_part_range(n: nat, k: nat, multiplier: nat)
    requires
        n > 0,
        multiplier > 0,
    ensures
        scaled_outcome(n, k, multiplier) matches Outcome::Whole(x) ==> 1 <= x
            <= 0x1_0000_0000_0000_0000,
{
    lemma_two_values();
    lemma_ten_positive(k);
    law_rounding_exists(n, ten(k));
    law_significand_range(n, ten(k));
    let (m, e) = nearest(n, ten(k));
    let product = m * multiplier;
    assert(product >= m) by (nonlinear_arith)
        requires
            product == m * multiplier,
            multiplier >= 1,
            m >= 0,
    ;
    law_significand_range(product, 1);
    let x = float_product(n, k, multiplier);
    if x.1 >= 0 {
        lemma_two_positive(x.1 as nat);
        assert(x.0 * two(x.1 as nat) >= 1) by (nonlinear_arith)
            requires
                x.0 >= 1,
                two(x.1 as nat) >= 1,
        ;
    } else {
        let t = two((-x.1) as nat);
        lemma_two_positive((-x.1) as nat);
        if !below_one(x) && !too_large(x) {
            assert(1 <= x.0 / t <= two(64)) by (nonlinear_arith)
                requires
                    x.0 >= t,
                    x.0 <= two(64) * t,
                    t >= 1,
            ;
        }
    }
}

/// The digits of a text are read as the number that they stand for.
proof fn lemma_digits_agree(s: Seq<char>)
    requires
        all_decimal(s),
    ensures
        digits_value(s) == Some(number_of(digit_values(s))),
    decreases s.len(),
{
    if s.len() > 0 {
        let rest = s.drop_last();
        assert forall|i: int| 0 <= i < rest.len() implies digit_value(#[trigger] rest[i]) is Some by {
            assert(rest[i] == s[i]);
        }
        lemma_digits_agree(rest);
        assert(digit_values(s).drop_last() =~= digit_values(rest));
        assert(digit_value(s[s.len() - 1]) is Some);
        assert(digit_values(s).last() == digit_value(s.last())->0);
    }
}

/// Digits have no point among them.
proof fn lemma_no_point(s: Seq<char>, rest: Seq<char>)
    requires
        all_decimal(s),
        rest.len() == 0 || rest[0] == '.',
    ensures
        point_at(s + rest) == s.len(),
    decreases s.len(),
{
    if s.len() > 0 {
        assert((s + rest)[0] == s[0]);
        assert(digit_value(s[0]) is Some);
        let tail = s.skip(1);
        assert((s + rest).skip(1) =~= tail + rest);
        assert forall|i: int| 0 <= i < tail.len() implies digit_value(#[trigger] tail[i]) is Some by {
            assert(tail[i] == s[i + 1]);
        }
        lemma_no_point(tail, rest);
    } else {
        assert(s + rest =~= rest);
    }
}

/// A decimal number in writing is what its digits stand for, divided by ten for each digit
/// behind the point; and without a point just that.
pub proof fn law_points_divide_by_ten(whole: Seq<char>, fraction: Seq<char>, multiplier: nat)
    requires
        all_decimal(whole),
        all_decimal(fraction),
        whole.len() > 0,
    ensures
        decimal_outcome(whole, multiplier) == Some(
            scaled_outcome(digits_value(whole)->0, 0, multiplier),
        ),
        decimal_outcome(whole + seq!['.'] + fraction, multiplier) == Some(
            scaled_outcome(digits_value(whole + fraction)->0, fraction.len(), multiplier),
        ),
        decimal_outcome(whole + seq!['.'], multiplier) == decimal_outcome(whole, multiplier),
{
    lemma_decimal_parts(whole, Seq::empty());
    lemma_decimal_parts(whole, fraction);
    assert(whole + seq!['.'] + Seq::<char>::empty() =~= whole + seq!['.']);
    lemma_digits_agree(whole);
    let all = whole + fraction;
    assert forall|i: int| 0 <= i < all.len() implies digit_value(#[trigger] all[i]) is Some by {
        if i < whole.len() {
            assert(all[i] == whole[i]);
        } else {
            assert(all[i] == fraction[i - whole.len()]);
        }
    }
    lemma_digits_agree(all);
    assert(digit_values(all) =~= digit_values(whole) + digit_values(fraction));
    lemma_number_of_concat(digit_values(whole), digit_values(fraction));
    let none = digit_values(Seq::<char>::empty());
    assert(none.len() == 0);
    assert(number_of(digit_values(whole)) * ten(0) == number_of(digit_values(whole)))
        by (nonlinear_arith)
        requires
            ten(0) == 1,
    ;
}

/// A decimal number is taken apart at its point.
proof fn lemma_decimal_parts(whole: Seq<char>, fraction: Seq<char>)
    requires
        all_decimal(whole),
        all_decimal(fraction),
        whole.len() > 0,
    ensures
        decimal_parts(whole) == Some((whole, Seq::<char>::empty())),
        decimal_parts(whole + seq!['.'] + fraction) == Some((whole, fraction)),
{
    lemma_no_point(whole, Seq::empty());
    assert(whole + Seq::<char>::empty() =~= whole);
    assert(whole.take(whole.len() as int) =~= whole);
    let s = whole + seq!['.'] + fraction;
    let tail = seq!['.'] + fraction;
    assert(s =~= whole + tail);
    lemma_no_point(whole, tail);
    assert(s.take(whole.len() as int) =~= whole);
    assert(s.skip(whole.len() as int + 1) =~= fraction);
}

/// A decimal number is made of digits and a point, and of nothing else.
pub proof fn law_characters_of_decimals(s: Seq<char>, i: int)
    requires
        decimal_parts(s) is Some,
        0 <= i < s.len(),
    ensures
        s.len() > 0,
        s[i] == '.' || ('0' <= s[i] && s[i] <= '9'),
{
    lemma_point_bound(s);
    let n = point_at(s) as int;
    if i < n {
        assert(s.take(n)[i] == s[i]);
    } else if i > n {
        assert(s.skip(n + 1)[i - n - 1] == s[i]);
    }
}

proof fn lemma_point_bound(s: Seq<char>)
    ensures
        point_at(s) <= s.len(),
        point_at(s) < s.len() ==> s[point_at(s) as int] == '.',
    decreases s.len(),
{
    if s.len() > 0 && s[0] != '.' {
        lemma_point_bound(s.skip(1));
    }
}

/// What a product comes to, by its value: nothing for nothing, less than one, more than two to
/// the power of 64, or its whole part.
pub proof fn law_outcomes_by_value(n: nat, k: nat, multiplier: nat)
    requires
        n > 0,
        multiplier > 0,
    ensures
        scaled_outcome(0, k, multiplier) is Zero,
        ({
            let (p, e) = float_product(n, k, multiplier);
            let outcome = scaled_outcome(n, k, multiplier);
            &&& !(outcome is Zero)
            &&& e >= 0 ==> {
                &&& !(outcome is BelowOne)
                &&& outcome is TooLarge <==> p * two(e as nat) > 0x1_0000_0000_0000_0000
                &&& outcome matches Outcome::Whole(x) ==> x == p * two(e as nat)
            }
            &&& e < 0 ==> {
                let unit = two((-e) as nat);
                &&& outcome is BelowOne <==> p < unit
                &&& outcome is TooLarge <==> p > 0x1_0000_0000_0000_0000 * unit
                &&& outcome matches Outcome::Whole(x) ==> x * unit <= p < (x + 1) * unit
            }
        }),
{
    lemma_two_values();
    lemma_ten_positive(k);
    law_rounding_exists(n, ten(k));
    law_significand_range(n, ten(k));
    let (m, _e) = nearest(n, ten(k));
    let product = m * multiplier;
    assert(product >= m) by (nonlinear_arith)
        requires
            product == m * multiplier,
            multiplier >= 1,
            m >= 0,
    ;
    law_significand_range(product, 1);
    let (p, e) = float_product(n, k, multiplier);
    if e < 0 {
        let unit = two((-e) as nat);
        lemma_two_positive((-e) as nat);
        let q = p / unit;
        assert(q * unit <= p < (q + 1) * unit) by (nonlinear_arith)
            requires
                q == p / unit,
                unit >= 1,
        ;
        if p <= two(64) * unit {
            assert(q <= two(64)) by (nonlinear_arith)
                requires
                    q == p / unit,
                    p <= two(64) * unit,
                    unit >= 1,
            ;
        }
        assert(two(64) * unit >= unit) by (nonlinear_arith)
            requires
                two(64) >= 1,
                unit >= 0,
        ;
    } else {
        lemma_two_positive(e as nat);
    }
}

/// A product is the decimal number, rounded, times the multiplier, and rounded again.
pub proof fn law_products_are_rounded_twice(n: nat, k: nat, multiplier: nat)
    requires
        n > 0,
        multiplier > 0,
    ensures
        ({
            let (m, e) = nearest(n, ten(k));
            let (p, g) = float_product(n, k, multiplier);
            rounds_to(n, ten(k), m, e) && rounds_to(m * multiplier, 1, p, g - e)
        }),
{
    lemma_two_values();
    lemma_ten_positive(k);
    law_rounding_exists(n, ten(k));
    law_significand_range(n, ten(k));
    let (m, _e) = nearest(n, ten(k));
    let product = m * multiplier;
    assert(product >= m) by (nonlinear_arith)
        requires
            product == m * multiplier,
            multiplier >= 1,
            m >= 0,
    ;
    law_rounding_exists(product, 1);
}

} // verus!
