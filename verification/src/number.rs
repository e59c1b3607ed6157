//! Whole numbers in text.
use crate::text::{digit, law_digits_by_code, law_written_digits, written};
use vstd::prelude::*;

verus! {

/// The value of a decimal digit.
pub open spec fn digit_value(c: char) -> Option<nat> {
    if '0' <= c && c <= '9' {
        Some((c as u32 - '0' as u32) as nat)
    } else {
        None
    }
}

/// The number that decimal digits stand for; no digits stand for zero.
pub open spec fn digits_value(s: Seq<char>) -> Option<nat>
    decreases s.len(),
{
    if s.len() == 0 {
        Some(0)
    } else {
        match (digits_value(s.drop_last()), digit_value(s.last())) {
            (Some(v), Some(d)) => Some(v * 10 + d),
            _ => None,
        }
    }
}

/// The number that a text stands for: decimal digits, at least one, with a plus in
/// front or not.
pub open spec fn unsigned_value(s: Seq<char>) -> Option<nat> {
    let body = if s.len() > 0 && s[0] == '+' {
        s.skip(1)
    } else {
        s
    };
    if body.len() == 0 {
        None
    } else {
        digits_value(body)
    }
}

/// The number that a text stands for, where it is within a bound.
pub open spec fn bounded_value(s: Seq<char>, max: nat) -> Option<nat> {
    match unsigned_value(s) {
        Some(v) => if v <= max {
            Some(v)
        } else {
            None
        },
        None => None,
    }
}

/// Further digits never make a number smaller.
pub proof fn lemma_more_digits(s: Seq<char>, n: int)
    requires
        0 <= n <= s.len(),
        digits_value(s) is Some,
    ensures
        digits_value(s.take(n)) is Some,
        digits_value(s.take(n))->0 <= digits_value(s)->0,
    decreases s.len() - n,
{
    if n < s.len() {
        lemma_more_digits(s, n + 1);
        assert(s.take(n + 1).drop_last() =~= s.take(n));
    } else {
        assert(s.take(n) =~= s);
    }
}

/// The value of a decimal digit.
pub fn decimal_digit(c: char) -> (r: Option<u64>)
    ensures
        match digit_value(c) {
            Some(d) => r is Some && r->0 == d && d < 10,
            None => r is None,
        },
{
    if '0' <= c && c <= '9' {
        Some((c as u32 - '0' as u32) as u64)
    } else {
        None
    }
}

/// Reads decimal digits, where they stand for a number within a bound.
fn read_digits(v: &[char], from: usize, max: u64) -> (r: Option<u64>)
    requires
        from <= v@.len(),
    ensures
        match digits_value(v@.skip(from as int)) {
            Some(n) => if n <= max {
                r is Some && r->0 == n
            } else {
                r is None
            },
            None => r is None,
        },
{
    let ghost s = v@.skip(from as int);
    let mut value: u64 = 0;
    let mut i: usize = from;
    while i < v.len()
        invariant
            from <= i <= v@.len(),
            s == v@.skip(from as int),
            value <= max,
            digits_value(s.take(i - from)) == Some(value as nat),
        decreases v@.len() - i,
    {
        let ghost n = i - from + 1;
        assert(s.take(n).drop_last() =~= s.take(i - from));
        assert(s.take(n).last() == v@[i as int]);
        proof {
            if digits_value(s) is Some {
                lemma_more_digits(s, n);
            }
        }
        match decimal_digit(v[i]) {
            None => {
                return None;
            },
            Some(d) => {
                if d > max || value > (max - d) / 10 {
                    assert(value * 10 + d > max);
                    return None;
                }
                value = value * 10 + d;
            },
        }
        i = i + 1;
    }
    assert(s.take(i - from) =~= s);
    Some(value)
}

/// Reads a whole number without sign, or with a plus, where it is within a bound.
pub fn parse_bounded(v: &[char], max: u64) -> (r: Option<u64>)
    ensures
        match bounded_value(v@, max as nat) {
            Some(n) => r is Some && r->0 == n,
            None => r is None,
        },
{
    assert(v@.skip(0) =~= v@);
    let from: usize = if v.len() > 0 && v[0] == '+' {
        1
    } else {
        0
    };
    if from == v.len() {
        return None;
    }
    read_digits(v, from, max)
}

/// Reads a number of thirty-two bits.
pub fn parse_u32(v: &[char]) -> (r: Option<u32>)
    ensures
        match bounded_value(v@, u32::MAX as nat) {
            Some(n) => r is Some && r->0 == n,
            None => r is None,
        },
{
    match parse_bounded(v, u32::MAX as u64) {
        Some(n) => Some(n as u32),
        None => None,
    }
}

/// Reads a number of sixty-four bits.
pub fn parse_u64(v: &[char]) -> (r: Option<u64>)
    ensures
        match bounded_value(v@, u64::MAX as nat) {
            Some(n) => r is Some && r->0 == n,
            None => r is None,
        },
{
    parse_bounded(v, u64::MAX)
}

/// Whether a list of numbers holds one.
pub fn holds(numbers: &[u32], n: u32) -> (found: bool)
    ensures
        found == numbers@.contains(n),
{
    let mut i: usize = 0;
    while i < numbers.len()
        invariant
            i <= numbers@.len(),
            forall|j: int| 0 <= j < i ==> numbers@[j] != n,
        decreases numbers@.len() - i,
    {
        if numbers[i] == n {
            assert(numbers@[i as int] == n);
            return true;
        }
        i = i + 1;
    }
    false
}

/// A number in decimal writing reads as itself, with a plus in front or not; and a text is
/// no number where it is empty or holds anything but digits.
pub proof fn law_numbers_read_back(n: nat, max: nat)
    ensures
        digits_value(written(n, 10)) == Some(n),
        unsigned_value(written(n, 10)) == Some(n),
        unsigned_value(seq!['+'] + written(n, 10)) == Some(n),
        bounded_value(written(n, 10), max) == (if n <= max {
            Some(n)
        } else {
            None
        }),
        unsigned_value(Seq::empty()) is None,
        unsigned_value(seq!['+']) is None,
{
    lemma_written_value(n);
    law_written_digits(n, 10);
    let s = written(n, 10);
    assert(s[0] != '+') by {
        law_digits_by_code(0);
    }
    assert((seq!['+'] + s).skip(1) =~= s);
    assert(seq!['+'].skip(1).len() == 0);
}

/// Digits read one after the other as the number that they are written for.
proof fn lemma_written_value(n: nat)
    ensures
        digits_value(written(n, 10)) == Some(n),
    decreases n,
{
    let s = written(n, 10);
    let last = n % 10;
    assert(digit_value(digit(last)) == Some(last));
    if n < 10 {
        assert(s.drop_last().len() == 0);
        assert(digits_value(s.drop_last()) == Some(0nat));
        assert(s.last() == digit(n));
    } else {
        lemma_written_value(n / 10);
        assert(s.drop_last() =~= written(n / 10, 10));
        assert(s.last() == digit(last));
        assert((n / 10) * 10 + last == n);
    }
}

/// What is read of a text is read of digits alone.
pub proof fn law_only_digits_are_read(s: Seq<char>, i: int)
    requires
        0 <= i < s.len(),
        digits_value(s) is Some,
    ensures
        '0' <= s[i] && s[i] <= '9',
    decreases s.len(),
{
    if i < s.len() - 1 {
        law_only_digits_are_read(s.drop_last(), i);
    }
}

} // verus!
