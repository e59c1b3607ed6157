//! Quantities with units, as they are written in the annotations of a pod.
use crate::decimal::{
    all_decimal, decimal_outcome, decimal_parts, law_characters_of_decimals,
    law_points_divide_by_ten, law_small_products_are_exact, point_at, scale_text, Outcome,
};
use crate::number::{
    bounded_value, decimal_digit, digit_value, law_numbers_read_back, law_only_digits_are_read,
    parse_u64, unsigned_value,
};
use crate::rounding::lemma_two_values;
use crate::text::{
    alphabetic, ascii, ascii_letter, ascii_lower, ascii_lowered, ascii_uppered, chars_of,
    is_alphabetic, law_written_digits, part, push_text, same, same_text, string_of, to_uppercase,
    trim, trimmed, uppercased, written,
};
use vstd::prelude::*;

verus! {

/// A unit of compute.
#[derive(Clone, Copy, PartialEq, Eq, Structural, Debug)]
pub enum TflopsUnit {
    /// TFLOPS as they are.
    One,
    /// A thousandth of them.
    Milli,
    /// A thousand.
    Kilo,
    /// A million.
    Mega,
    /// A billion.
    Giga,
}

/// An amount of compute: a number in writing, and the unit it is in.
#[derive(Debug)]
pub struct Tflops {
    /// The number, as a floating-point number is written.
    pub number: String,
    /// The unit.
    pub unit: TflopsUnit,
}

/// The part of a number after its sign, if it has one.
pub open spec fn after_sign(s: Seq<char>) -> Seq<char> {
    if s.len() > 0 && (s[0] == '+' || s[0] == '-') {
        s.skip(1)
    } else {
        s
    }
}

/// A decimal number, with a sign or without.
pub open spec fn is_signed_decimal(s: Seq<char>) -> bool {
    decimal_parts(after_sign(s)) is Some
}

/// The number of characters in front of the first `e`, small or capital.
pub open spec fn exponent_at(s: Seq<char>) -> nat
    decreases s.len(),
{
    if s.len() == 0 || s[0] == 'e' || s[0] == 'E' {
        0
    } else {
        1 + exponent_at(s.skip(1))
    }
}

/// A floating-point number in writing: with a sign or without, either a word for infinity
/// or for no number, or a decimal number that may be followed by an exponent of ten.
pub open spec fn is_float(s: Seq<char>) -> bool {
    let body = after_sign(s);
    let word = ascii_lowered(body);
    let n = exponent_at(body) as int;
    ||| word == "inf"@
    ||| word == "infinity"@
    ||| word == "nan"@
    ||| n == body.len() && decimal_parts(body) is Some
    ||| n < body.len() && decimal_parts(body.take(n)) is Some && {
        let exponent = after_sign(body.skip(n + 1));
        exponent.len() > 0 && all_decimal(exponent)
    }
}

/// The number of characters in front of the first letter, where there is one.
pub open spec fn letter_at(s: Seq<char>, letter: spec_fn(char) -> bool) -> Option<nat>
    decreases s.len(),
{
    if s.len() == 0 {
        None
    } else if letter(s[0]) {
        Some(0)
    } else {
        match letter_at(s.skip(1), letter) {
            Some(n) => Some(n + 1),
            None => None,
        }
    }
}

/// The bytes that a unit in capitals stands for.
pub open spec fn unit_bytes(unit: Seq<char>) -> Option<u64> {
    if unit == "B"@ || unit == ""@ {
        Some(1)
    } else if unit == "K"@ || unit == "KI"@ {
        Some(0x400)
    } else if unit == "M"@ || unit == "MI"@ {
        Some(0x10_0000)
    } else if unit == "G"@ || unit == "GI"@ {
        Some(0x4000_0000)
    } else if unit == "T"@ || unit == "TI"@ {
        Some(0x100_0000_0000)
    } else {
        None
    }
}

/// The bytes that a product comes to: none below one byte or with a minus, and the
/// largest number where it is more than can be counted.
pub open spec fn bytes_of(negative: bool, outcome: Outcome) -> u64 {
    if negative {
        0
    } else {
        match outcome {
            Outcome::Whole(x) => if x <= u64::MAX {
                x as u64
            } else {
                u64::MAX
            },
            Outcome::TooLarge => u64::MAX,
            _ => 0,
        }
    }
}

/// The memory that a number and a unit stand for, given the unit in capitals; or what is
/// wrong with them.
pub open spec fn memory_with_unit(
    number: Seq<char>,
    unit: Seq<char>,
    capitals: Seq<char>,
) -> Result<u64, Seq<char>> {
    if !is_signed_decimal(number) {
        Err("Invalid numeric part in memory value: "@ + number)
    } else {
        match unit_bytes(capitals) {
            None => Err("Unsupported memory unit: "@ + unit),
            Some(multiplier) => Ok(
                bytes_of(
                    number[0] == '-',
                    decimal_outcome(after_sign(number), multiplier as nat)->0,
                ),
            ),
        }
    }
}

/// The memory that a text stands for: plain bytes, or a number and a unit; or what is
/// wrong with it. `letter` tells letters, and `capitals` makes capitals.
pub open spec fn memory_value_by(
    s: Seq<char>,
    letter: spec_fn(char) -> bool,
    capitals: spec_fn(Seq<char>) -> Seq<char>,
) -> Result<u64, Seq<char>> {
    let v = trimmed(s);
    match bounded_value(v, u64::MAX as nat) {
        Some(n) => Ok(n as u64),
        None => match letter_at(v, letter) {
            None => Err("Invalid memory value format: "@ + v),
            Some(n) => memory_with_unit(
                v.take(n as int),
                v.skip(n as int),
                capitals(v.skip(n as int)),
            ),
        },
    }
}

/// The memory that a text stands for, by the rules of Unicode.
pub open spec fn memory_value(s: Seq<char>) -> Result<u64, Seq<char>> {
    memory_value_by(s, |c: char| alphabetic(c), |t: Seq<char>| uppercased(t))
}

/// The memory that an ASCII text stands for.
pub open spec fn ascii_memory_value(s: Seq<char>) -> Result<u64, Seq<char>> {
    memory_value_by(s, |c: char| ascii_letter(c), |t: Seq<char>| ascii_uppered(t))
}

/// The unit of compute that a text stands for.
pub open spec fn tflops_unit(unit: Seq<char>) -> Option<TflopsUnit> {
    if unit == "m"@ {
        Some(TflopsUnit::Milli)
    } else if unit == "k"@ || unit == "K"@ {
        Some(TflopsUnit::Kilo)
    } else if unit == "M"@ {
        Some(TflopsUnit::Mega)
    } else if unit == "G"@ {
        Some(TflopsUnit::Giga)
    } else {
        None
    }
}

/// The compute that a text stands for: a plain number, or a number and a unit; or what is
/// wrong with it. `letter` tells letters.
pub open spec fn tflops_value_by(
    s: Seq<char>,
    letter: spec_fn(char) -> bool,
) -> Result<(Seq<char>, TflopsUnit), Seq<char>> {
    let v = trimmed(s);
    if is_float(v) {
        Ok((v, TflopsUnit::One))
    } else {
        match letter_at(v, letter) {
            None => Err("Invalid TFLOPS value format: "@ + v),
            Some(n) => if !is_signed_decimal(v.take(n as int)) {
                Err("Invalid numeric part in TFLOPS value: "@ + v.take(n as int))
            } else {
                match tflops_unit(v.skip(n as int)) {
                    None => Err("Unsupported TFLOPS unit: "@ + v.skip(n as int)),
                    Some(unit) => Ok((v.take(n as int), unit)),
                }
            },
        }
    }
}

/// The compute that a text stands for, by the rules of Unicode.
pub open spec fn tflops_value(s: Seq<char>) -> Result<(Seq<char>, TflopsUnit), Seq<char>> {
    tflops_value_by(s, |c: char| alphabetic(c))
}

/// The compute that an ASCII text stands for.
pub open spec fn ascii_tflops_value(s: Seq<char>) -> Result<(Seq<char>, TflopsUnit), Seq<char>> {
    tflops_value_by(s, |c: char| ascii_letter(c))
}

/// A message about a text.
fn complaint(about: &str, v: &[char]) -> (m: String)
    ensures
        m@ == about@ + v@,
{
    let mut m = String::new();
    push_text(&mut m, about);
    let text = string_of(v);
    push_text(&mut m, text.as_str());
    assert(m@ =~= about@ + v@);
    m
}

/// Where the part after a sign begins.
fn sign_length(v: &[char], from: usize) -> (n: usize)
    requires
        from <= v@.len(),
    ensures
        from <= n <= v@.len(),
        v@.skip(n as int) == after_sign(v@.skip(from as int)),
{
    if from < v.len() && (v[from] == '+' || v[from] == '-') {
        assert(v@.skip(from as int).skip(1) =~= v@.skip(from + 1));
        from + 1
    } else {
        from
    }
}

/// The part of a number after its sign.
fn unsigned_part(v: &[char]) -> (r: Vec<char>)
    ensures
        r@ == after_sign(v@),
{
    assert(v@.skip(0) =~= v@);
    let n: usize = sign_length(v, 0);
    let r = part(v, n, v.len());
    assert(r@ =~= v@.skip(n as int));
    r
}

/// Whether a text is a decimal number, with a sign or without.
fn signed_decimal(v: &[char]) -> (b: bool)
    ensures
        b == is_signed_decimal(v@),
{
    let body = unsigned_part(v);
    scale_text(body.as_slice(), 1).is_some()
}

/// Whether a text is made of digits from a place on.
fn digits_from(v: &[char], from: usize) -> (b: bool)
    requires
        from <= v@.len(),
    ensures
        b == all_decimal(v@.skip(from as int)),
{
    let mut i: usize = from;
    while i < v.len()
        invariant
            from <= i <= v@.len(),
            forall|j: int| from <= j < i ==> digit_value(#[trigger] v@[j]) is Some,
        decreases v@.len() - i,
    {
        if decimal_digit(v[i]).is_none() {
            assert(v@.skip(from as int)[i - from] == v@[i as int]);
            return false;
        }
        i = i + 1;
    }
    assert forall|j: int| 0 <= j < v@.skip(from as int).len() implies digit_value(
        #[trigger] v@.skip(from as int)[j],
    ) is Some by {
        assert(v@.skip(from as int)[j] == v@[from + j]);
    }
    true
}

/// A character with an ASCII capital made small.
fn lower(c: char) -> (r: char)
    ensures
        r == ascii_lower(c),
{
    if 'A' <= c && c <= 'Z' {
        (c as u8 + 32) as char
    } else {
        c
    }
}

/// Whether a text is a word, letter case aside.
fn is_word(v: &[char], word: &str) -> (b: bool)
    ensures
        b == (ascii_lowered(v@) == word@),
{
    let mut lowered: Vec<char> = Vec::new();
    let mut i: usize = 0;
    while i < v.len()
        invariant
            i <= v@.len(),
            lowered@ == ascii_lowered(v@.take(i as int)),
        decreases v@.len() - i,
    {
        lowered.push(lower(v[i]));
        i = i + 1;
        assert(lowered@ =~= ascii_lowered(v@.take(i as int)));
    }
    assert(v@.take(i as int) =~= v@);
    let w = chars_of(word);
    same(lowered.as_slice(), w.as_slice())
}

/// Whether a text is a floating-point number in writing.
pub fn float_text(v: &[char]) -> (b: bool)
    ensures
        b == is_float(v@),
{
    let body = unsigned_part(v);
    if is_word(body.as_slice(), "inf") || is_word(body.as_slice(), "infinity") || is_word(
        body.as_slice(),
        "nan",
    ) {
        return true;
    }
    let mut n: usize = 0;
    assert(body@.skip(0) =~= body@);
    while n < body.len() && body[n] != 'e' && body[n] != 'E'
        invariant
            n <= body@.len(),
            exponent_at(body@) == n + exponent_at(body@.skip(n as int)),
        decreases body@.len() - n,
    {
        assert(body@.skip(n as int).skip(1) =~= body@.skip(n + 1));
        n = n + 1;
    }
    if n == body.len() {
        scale_text(body.as_slice(), 1).is_some()
    } else {
        let number = part(body.as_slice(), 0, n);
        assert(number@ =~= body@.take(n as int));
        if scale_text(number.as_slice(), 1).is_none() {
            return false;
        }
        let from: usize = sign_length(body.as_slice(), n + 1);
        from < body.len() && digits_from(body.as_slice(), from)
    }
}

/// Where the first letter of a text is.
fn find_letter(v: &[char]) -> (r: Option<usize>)
    ensures
        match letter_at(v@, |c: char| alphabetic(c)) {
            Some(n) => r is Some && r->0 == n && n <= v@.len(),
            None => r is None,
        },
        ascii(v@) ==> letter_at(v@, |c: char| ascii_letter(c)) == letter_at(
            v@,
            |c: char| alphabetic(c),
        ),
{
    let ghost unicode = |c: char| alphabetic(c);
    let ghost plain = |c: char| ascii_letter(c);
    let mut i: usize = 0;
    assert(v@.skip(0) =~= v@);
    while i < v.len()
        invariant
            i <= v@.len(),
            unicode == (|c: char| alphabetic(c)),
            plain == (|c: char| ascii_letter(c)),
            letter_at(v@, unicode) == shifted(letter_at(v@.skip(i as int), unicode), i as nat),
            ascii(v@) ==> letter_at(v@, plain) == shifted(
                letter_at(v@.skip(i as int), plain),
                i as nat,
            ),
        decreases v@.len() - i,
    {
        let ghost rest = v@.skip(i as int);
        assert(rest[0] == v@[i as int]);
        assert(rest.skip(1) =~= v@.skip(i + 1));
        if is_alphabetic(v[i]) {
            return Some(i);
        }
        i = i + 1;
    }
    None
}

/// A place further on by so much.
spec fn shifted(place: Option<nat>, by: nat) -> Option<nat> {
    match place {
        Some(n) => Some(n + by),
        None => None,
    }
}

/// The bytes that a unit in capitals stands for.
fn bytes_of_unit(unit: &str) -> (r: Option<u64>)
    ensures
        r == unit_bytes(unit@),
        r matches Some(m) ==> 1 <= m <= 0x100_0000_0000,
{
    if same_text(unit, "B") || same_text(unit, "") {
        Some(1)
    } else if same_text(unit, "K") || same_text(unit, "KI") {
        Some(0x400)
    } else if same_text(unit, "M") || same_text(unit, "MI") {
        Some(0x10_0000)
    } else if same_text(unit, "G") || same_text(unit, "GI") {
        Some(0x4000_0000)
    } else if same_text(unit, "T") || same_text(unit, "TI") {
        Some(0x100_0000_0000)
    } else {
        None
    }
}

/// Reads a number with a unit, which is also given in capitals.
pub fn parse_memory_with_unit(
    number: &[char],
    unit: &[char],
    capitals: &str,
) -> (r: Result<u64, String>)
    ensures
        match memory_with_unit(number@, unit@, capitals@) {
            Ok(bytes) => r is Ok && r->Ok_0 == bytes,
            Err(e) => r is Err && r->Err_0@ == e,
        },
{
    if !signed_decimal(number) {
        return Err(complaint("Invalid numeric part in memory value: ", number));
    }
    match bytes_of_unit(capitals) {
        None => Err(complaint("Unsupported memory unit: ", unit)),
        Some(multiplier) => {
            let body = unsigned_part(number);
            let outcome = scale_text(body.as_slice(), multiplier);
            assert(number@.len() > 0);
            if number[0] == '-' {
                return Ok(0);
            }
            match outcome {
                Some(Outcome::Whole(x)) => if x <= u64::MAX as u128 {
                    Ok(x as u64)
                } else {
                    Ok(u64::MAX)
                },
                Some(Outcome::TooLarge) => Ok(u64::MAX),
                _ => Ok(0),
            }
        },
    }
}

/// Reads an amount of memory: plain bytes, or a number with a unit in either case.
pub fn parse_memory_value(value: &str) -> (r: Result<u64, String>)
    ensures
        match memory_value(value@) {
            Ok(bytes) => r is Ok && r->Ok_0 == bytes,
            Err(e) => r is Err && r->Err_0@ == e,
        },
        ascii(trimmed(value@)) ==> memory_value(value@) == ascii_memory_value(value@),
{
    let all = chars_of(value);
    let v = trim(all.as_slice());
    if let Some(bytes) = parse_u64(v.as_slice()) {
        return Ok(bytes);
    }
    match find_letter(v.as_slice()) {
        None => Err(complaint("Invalid memory value format: ", v.as_slice())),
        Some(n) => {
            let number = part(v.as_slice(), 0, n);
            let unit = part(v.as_slice(), n, v.len());
            let text = string_of(unit.as_slice());
            let capitals = to_uppercase(text.as_str());
            proof {
                assert(number@ =~= v@.take(n as int));
                assert(unit@ =~= v@.skip(n as int));
                if ascii(v@) {
                    assert(ascii(unit@)) by {
                        assert forall|i: int| 0 <= i < unit@.len() implies (
                        #[trigger] unit@[i]) < '\u{80}' by {
                            assert(unit@[i] == v@[n + i]);
                        }
                    }
                }
            }
            parse_memory_with_unit(number.as_slice(), unit.as_slice(), capitals.as_str())
        },
    }
}

/// The unit of compute that a text stands for.
fn unit_of_tflops(unit: &str) -> (r: Option<TflopsUnit>)
    ensures
        r == tflops_unit(unit@),
{
    if same_text(unit, "m") {
        Some(TflopsUnit::Milli)
    } else if same_text(unit, "k") || same_text(unit, "K") {
        Some(TflopsUnit::Kilo)
    } else if same_text(unit, "M") {
        Some(TflopsUnit::Mega)
    } else if same_text(unit, "G") {
        Some(TflopsUnit::Giga)
    } else {
        None
    }
}

/// Reads an amount of compute: a plain number, or a number with a unit. The number is
/// kept as it is written.
pub fn parse_tflops_value(value: &str) -> (r: Result<Tflops, String>)
    ensures
        match tflops_value(value@) {
            Ok((number, unit)) => r is Ok && r->Ok_0.number@ == number && r->Ok_0.unit == unit,
            Err(e) => r is Err && r->Err_0@ == e,
        },
        ascii(trimmed(value@)) ==> tflops_value(value@) == ascii_tflops_value(value@),
{
    let all = chars_of(value);
    let v = trim(all.as_slice());
    if float_text(v.as_slice()) {
        return Ok(Tflops { number: string_of(v.as_slice()), unit: TflopsUnit::One });
    }
    match find_letter(v.as_slice()) {
        None => Err(complaint("Invalid TFLOPS value format: ", v.as_slice())),
        Some(n) => {
            let number = part(v.as_slice(), 0, n);
            let unit = part(v.as_slice(), n, v.len());
            proof {
                assert(number@ =~= v@.take(n as int));
                assert(unit@ =~= v@.skip(n as int));
            }
            if !signed_decimal(number.as_slice()) {
                return Err(
                    complaint("Invalid numeric part in TFLOPS value: ", number.as_slice()),
                );
            }
            let text = string_of(unit.as_slice());
            match unit_of_tflops(text.as_str()) {
                None => Err(complaint("Unsupported TFLOPS unit: ", unit.as_slice())),
                Some(unit) => Ok(Tflops { number: string_of(number.as_slice()), unit }),
            }
        },
    }
}

/// The characters of a decimal number with a sign or without: digits, a point and a sign.
proof fn lemma_signed_decimal(number: Seq<char>)
    requires
        is_signed_decimal(number),
    ensures
        number.len() > 0,
        forall|i: int|
            0 <= i < number.len() ==> {
                let c = #[trigger] number[i];
                c == '+' || c == '-' || c == '.' || ('0' <= c && c <= '9')
            },
{
    let body = after_sign(number);
    if number.len() == 0 {
        assert(body =~= Seq::<char>::empty());
        assert(point_at(body) == 0);
        assert(body.take(0).len() == 0);
    }
    assert forall|i: int| 0 <= i < number.len() implies {
        let c = #[trigger] number[i];
        c == '+' || c == '-' || c == '.' || ('0' <= c && c <= '9')
    } by {
        if body == number {
            law_characters_of_decimals(body, i);
        } else if i > 0 {
            assert(body[i - 1] == number[i]);
            law_characters_of_decimals(body, i - 1);
        }
    }
}

/// A unit begins at the first letter.
proof fn lemma_unit_begins(number: Seq<char>, unit: Seq<char>)
    requires
        forall|i: int| 0 <= i < number.len() ==> !ascii_letter(#[trigger] number[i]),
        unit.len() > 0,
        ascii_letter(unit[0]),
    ensures
        letter_at(number + unit, |c: char| ascii_letter(c)) == Some(number.len()),
    decreases number.len(),
{
    let letter = |c: char| ascii_letter(c);
    let s = number + unit;
    if number.len() > 0 {
        assert(s[0] == number[0]);
        assert(s.skip(1) =~= number.skip(1) + unit);
        lemma_unit_begins(number.skip(1), unit);
    } else {
        assert(s =~= unit);
    }
}

/// A text with a letter at its end is no whole number.
proof fn lemma_letters_are_no_number(s: Seq<char>)
    requires
        s.len() > 0,
        ascii_letter(s.last()),
    ensures
        unsigned_value(s) is None,
{
    let body = if s[0] == '+' {
        s.skip(1)
    } else {
        s
    };
    if body.len() > 0 {
        assert(body.last() == s.last());
    }
}

/// A decimal number and a unit of letters are taken apart between them.
proof fn lemma_number_and_unit(number: Seq<char>, unit: Seq<char>)
    requires
        is_signed_decimal(number),
        letters(unit),
    ensures
        ascii_memory_value(number + unit) == memory_with_unit(number, unit, ascii_uppered(unit)),
        !is_exponent_like(unit) ==> ascii_tflops_value(number + unit) == (match tflops_unit(unit) {
            None => Err("Unsupported TFLOPS unit: "@ + unit),
            Some(u) => Ok((number, u)),
        }),
{
    let s = number + unit;
    lemma_signed_decimal(number);
    assert(s[0] == number[0]);
    assert(s.last() == unit[unit.len() - 1]);
    assert(ascii_letter(unit[unit.len() - 1]));
    assert(trimmed(s) == s);
    lemma_letters_are_no_number(s);
    lemma_unit_begins(number, unit);
    assert(s.take(number.len() as int) =~= number);
    assert(s.skip(number.len() as int) =~= unit);
    if !is_exponent_like(unit) {
        lemma_units_are_no_floats(number, unit);
    }
}

/// The unit could be taken for an exponent of ten or a word for infinity.
pub open spec fn is_exponent_like(unit: Seq<char>) -> bool {
    exists|i: int| 0 <= i < unit.len() && (#[trigger] unit[i] == 'e' || unit[i] == 'E')
}

/// A number with a unit is not a plain number.
proof fn lemma_units_are_no_floats(number: Seq<char>, unit: Seq<char>)
    requires
        is_signed_decimal(number),
        unit.len() > 0,
        forall|i: int| 0 <= i < unit.len() ==> ascii_letter(#[trigger] unit[i]),
        !is_exponent_like(unit),
    ensures
        !is_float(number + unit),
{
    let s = number + unit;
    lemma_signed_decimal(number);
    let body = after_sign(s);
    let front = after_sign(number);
    assert(body =~= front + unit);
    assert(front.len() > 0) by {
        if front.len() == 0 {
            assert(front =~= Seq::<char>::empty());
            assert(point_at(front) == 0);
            assert(front.take(0).len() == 0);
        }
    }
    assert(body[0] == front[0]);
    law_characters_of_decimals(front, 0);
    reveal_strlit("inf");
    reveal_strlit("infinity");
    reveal_strlit("nan");
    assert("inf"@[0] == 'i' && "infinity"@[0] == 'i' && "nan"@[0] == 'n');
    assert(ascii_lowered(body)[0] == body[0]);
    assert forall|i: int| 0 <= i < body.len() implies #[trigger] body[i] != 'e' && body[i] != 'E' by {
        if i < front.len() {
            law_characters_of_decimals(front, i);
            assert(body[i] == front[i]);
        } else {
            assert(body[i] == unit[i - front.len()]);
        }
    }
    lemma_no_exponent(body);
    if decimal_parts(body) is Some {
        law_characters_of_decimals(body, body.len() - 1);
        assert(body[body.len() - 1] == unit[unit.len() - 1]);
    }
}

proof fn lemma_no_exponent(s: Seq<char>)
    requires
        forall|i: int| 0 <= i < s.len() ==> #[trigger] s[i] != 'e' && s[i] != 'E',
    ensures
        exponent_at(s) == s.len(),
    decreases s.len(),
{
    if s.len() > 0 {
        assert forall|i: int| 0 <= i < s.skip(1).len() implies #[trigger] s.skip(1)[i] != 'e'
            && s.skip(1)[i] != 'E' by {
            assert(s.skip(1)[i] == s[i + 1]);
        }
        lemma_no_exponent(s.skip(1));
    }
}

/// The units of memory one by one, in capitals.
proof fn lemma_memory_units()
    ensures
        unit_bytes("B"@) == Some(1u64),
        unit_bytes("K"@) == Some(1_024u64),
        unit_bytes("KI"@) == Some(1_024u64),
        ascii_uppered("K"@) == "K"@,
        ascii_uppered("Ki"@) == "KI"@,
        unit_bytes("M"@) == Some(1_048_576u64),
        unit_bytes("MI"@) == Some(1_048_576u64),
        ascii_uppered("M"@) == "M"@,
        ascii_uppered("Mi"@) == "MI"@,
        unit_bytes("G"@) == Some(1_073_741_824u64),
        unit_bytes("GI"@) == Some(1_073_741_824u64),
        ascii_uppered("G"@) == "G"@,
        ascii_uppered("Gi"@) == "GI"@,
        unit_bytes("T"@) == Some(1_099_511_627_776u64),
        unit_bytes("TI"@) == Some(1_099_511_627_776u64),
        ascii_uppered("T"@) == "T"@,
        ascii_uppered("Ti"@) == "TI"@,
        ascii_uppered("B"@) == "B"@,
{
    reveal_strlit("");
    reveal_strlit("B");
    assert(""@.len() == 0);
    assert("B"@.len() == 1 && "B"@[0] == 'B');
    assert(ascii_uppered("B"@) =~= "B"@);
    reveal_strlit("K");
    reveal_strlit("Ki");
    reveal_strlit("KI");
    assert("K"@.len() == 1 && "K"@[0] == 'K');
    assert("KI"@.len() == 2 && "KI"@[0] == 'K');
    assert(ascii_uppered("K"@) =~= "K"@);
    assert(ascii_uppered("Ki"@) =~= "KI"@);
    reveal_strlit("M");
    reveal_strlit("Mi");
    reveal_strlit("MI");
    assert("M"@.len() == 1 && "M"@[0] == 'M');
    assert("MI"@.len() == 2 && "MI"@[0] == 'M');
    assert(ascii_uppered("M"@) =~= "M"@);
    assert(ascii_uppered("Mi"@) =~= "MI"@);
    reveal_strlit("G");
    reveal_strlit("Gi");
    reveal_strlit("GI");
    assert("G"@.len() == 1 && "G"@[0] == 'G');
    assert("GI"@.len() == 2 && "GI"@[0] == 'G');
    assert(ascii_uppered("G"@) =~= "G"@);
    assert(ascii_uppered("Gi"@) =~= "GI"@);
    reveal_strlit("T");
    reveal_strlit("Ti");
    reveal_strlit("TI");
    assert("T"@.len() == 1 && "T"@[0] == 'T');
    assert("TI"@.len() == 2 && "TI"@[0] == 'T');
    assert(ascii_uppered("T"@) =~= "T"@);
    assert(ascii_uppered("Ti"@) =~= "TI"@);
}

/// The units of memory are made of letters.
proof fn lemma_memory_unit_letters()
    ensures
        letters("B"@),
        letters("K"@),
        letters("Ki"@),
        letters("M"@),
        letters("Mi"@),
        letters("G"@),
        letters("Gi"@),
        letters("T"@),
        letters("Ti"@),
{
    reveal_strlit("B");
    reveal_strlit("K");
    reveal_strlit("Ki");
    reveal_strlit("M");
    reveal_strlit("Mi");
    reveal_strlit("G");
    reveal_strlit("Gi");
    reveal_strlit("T");
    reveal_strlit("Ti");
}

/// A unit is made of letters.
spec fn letters(unit: Seq<char>) -> bool {
    unit.len() > 0 && forall|i: int| 0 <= i < unit.len() ==> ascii_letter(#[trigger] unit[i])
}

/// For every decimal number a unit means the same with an `i` and without.
#[verifier::rlimit(40)]
pub proof fn law_units_with_and_without_i(number: Seq<char>)
    requires
        is_signed_decimal(number),
    ensures
        ascii_memory_value(number + "K"@) is Ok,
        ascii_memory_value(number + "K"@) == ascii_memory_value(number + "Ki"@),
        ascii_memory_value(number + "M"@) is Ok,
        ascii_memory_value(number + "M"@) == ascii_memory_value(number + "Mi"@),
        ascii_memory_value(number + "G"@) is Ok,
        ascii_memory_value(number + "G"@) == ascii_memory_value(number + "Gi"@),
        ascii_memory_value(number + "T"@) is Ok,
        ascii_memory_value(number + "T"@) == ascii_memory_value(number + "Ti"@),
{
    lemma_memory_units();
    lemma_memory_unit_letters();
    lemma_number_and_unit(number, "K"@);
    lemma_number_and_unit(number, "Ki"@);
    lemma_number_and_unit(number, "M"@);
    lemma_number_and_unit(number, "Mi"@);
    lemma_number_and_unit(number, "G"@);
    lemma_number_and_unit(number, "Gi"@);
    lemma_number_and_unit(number, "T"@);
    lemma_number_and_unit(number, "Ti"@);
}

/// What a whole number with a unit comes to.
proof fn lemma_whole_with_unit(n: nat, unit: Seq<char>, multiplier: u64)
    requires
        n > 0,
        letters(unit),
        unit_bytes(ascii_uppered(unit)) == Some(multiplier),
        multiplier > 0,
        n * multiplier <= 0x20_0000_0000_0000,
    ensures
        ascii_memory_value(written(n, 10) + unit) == Ok::<u64, Seq<char>>((n * multiplier) as u64),
{
    let number = written(n, 10);
    law_numbers_read_back(n, n);
    law_written_digits(n, 10);
    assert forall|i: int| 0 <= i < number.len() implies digit_value(#[trigger] number[i]) is Some by {
        law_only_digits_are_read(number, i);
    }
    law_only_digits_are_read(number, 0);
    law_points_divide_by_ten(number, Seq::empty(), multiplier as nat);
    assert(after_sign(number) == number);
    assert(is_signed_decimal(number));
    lemma_number_and_unit(number, unit);
    lemma_two_values();
    law_small_products_are_exact(n, multiplier as nat);
}

/// Whole numbers with a unit: plain bytes are taken as they are, `Ki` is 1024 bytes, and
/// each further unit 1024 times the one before.
pub proof fn law_memory_in_writing(n: nat)
    requires
        n > 0,
    ensures
        n <= u64::MAX ==> ascii_memory_value(written(n, 10)) == Ok::<u64, Seq<char>>(n as u64),
        n <= 0x20_0000_0000_0000 ==> ascii_memory_value(written(n, 10) + "B"@) == Ok::<
            u64,
            Seq<char>,
        >(n as u64),
        n * (1024) <= 0x20_0000_0000_0000 ==> ascii_memory_value(
            written(n, 10) + "Ki"@,
        ) == Ok::<u64, Seq<char>>((n * (1024)) as u64),
        n * (1024 * 1024) <= 0x20_0000_0000_0000 ==> ascii_memory_value(
            written(n, 10) + "Mi"@,
        ) == Ok::<u64, Seq<char>>((n * (1024 * 1024)) as u64),
        n * (1024 * 1024 * 1024) <= 0x20_0000_0000_0000 ==> ascii_memory_value(
            written(n, 10) + "Gi"@,
        ) == Ok::<u64, Seq<char>>((n * (1024 * 1024 * 1024)) as u64),
        n * (1024 * 1024 * 1024 * 1024) <= 0x20_0000_0000_0000 ==> ascii_memory_value(
            written(n, 10) + "Ti"@,
        ) == Ok::<u64, Seq<char>>((n * (1024 * 1024 * 1024 * 1024)) as u64),
{
    lemma_memory_units();
    lemma_memory_unit_letters();
    let number = written(n, 10);
    law_numbers_read_back(n, u64::MAX as nat);
    law_written_digits(n, 10);
    law_only_digits_are_read(number, 0);
    law_only_digits_are_read(number, number.len() - 1);
    assert(trimmed(number) == number);
    if n <= 0x20_0000_0000_0000 {
        lemma_whole_with_unit(n, "B"@, 1);
    }
    if n * 1_024 <= 0x20_0000_0000_0000 {
        lemma_whole_with_unit(n, "Ki"@, 1_024);
    }
    if n * 1_048_576 <= 0x20_0000_0000_0000 {
        lemma_whole_with_unit(n, "Mi"@, 1_048_576);
    }
    if n * 1_073_741_824 <= 0x20_0000_0000_0000 {
        lemma_whole_with_unit(n, "Gi"@, 1_073_741_824);
    }
    if n * 1_099_511_627_776 <= 0x20_0000_0000_0000 {
        lemma_whole_with_unit(n, "Ti"@, 1_099_511_627_776);
    }
}

/// A memory value with a minus is none, one below a byte is none, and one that is more than
/// can be counted is the largest.
pub proof fn law_memory_at_its_bounds(outcome: Outcome)
    ensures
        bytes_of(true, outcome) == 0,
        outcome is Zero || outcome is BelowOne ==> bytes_of(false, outcome) == 0,
        outcome is TooLarge ==> bytes_of(false, outcome) == u64::MAX,
        outcome matches Outcome::Whole(x) ==> bytes_of(false, outcome) == (if x <= u64::MAX {
            x as int
        } else {
            u64::MAX as int
        }),
{
}

/// The units of compute one by one.
proof fn lemma_compute_units()
    ensures
        tflops_unit("m"@) == Some(TflopsUnit::Milli),
        letters("m"@),
        !is_exponent_like("m"@),
        tflops_unit("k"@) == Some(TflopsUnit::Kilo),
        letters("k"@),
        !is_exponent_like("k"@),
        tflops_unit("K"@) == Some(TflopsUnit::Kilo),
        letters("K"@),
        !is_exponent_like("K"@),
        tflops_unit("M"@) == Some(TflopsUnit::Mega),
        letters("M"@),
        !is_exponent_like("M"@),
        tflops_unit("G"@) == Some(TflopsUnit::Giga),
        letters("G"@),
        !is_exponent_like("G"@),
{
    reveal_strlit("m");
    assert("m"@.len() == 1 && "m"@[0] == 'm');
    reveal_strlit("k");
    assert("k"@.len() == 1 && "k"@[0] == 'k');
    reveal_strlit("K");
    assert("K"@.len() == 1 && "K"@[0] == 'K');
    reveal_strlit("M");
    assert("M"@.len() == 1 && "M"@[0] == 'M');
    reveal_strlit("G");
    assert("G"@.len() == 1 && "G"@[0] == 'G');
}

/// The units of compute, behind every decimal number: a small `m` is a thousandth and a
/// capital one a million, a `k` of either case a thousand, and a `G` a billion. The number is
/// kept as it is written.
#[verifier::rlimit(40)]
pub proof fn law_compute_in_writing(number: Seq<char>)
    requires
        is_signed_decimal(number),
    ensures
        ascii_tflops_value(number + "m"@) == Ok::<(Seq<char>, TflopsUnit), Seq<char>>(
            (number, TflopsUnit::Milli),
        ),
        ascii_tflops_value(number + "k"@) == Ok::<(Seq<char>, TflopsUnit), Seq<char>>(
            (number, TflopsUnit::Kilo),
        ),
        ascii_tflops_value(number + "K"@) == Ok::<(Seq<char>, TflopsUnit), Seq<char>>(
            (number, TflopsUnit::Kilo),
        ),
        ascii_tflops_value(number + "M"@) == Ok::<(Seq<char>, TflopsUnit), Seq<char>>(
            (number, TflopsUnit::Mega),
        ),
        ascii_tflops_value(number + "G"@) == Ok::<(Seq<char>, TflopsUnit), Seq<char>>(
            (number, TflopsUnit::Giga),
        ),
{
    lemma_compute_units();
    lemma_number_and_unit(number, "m"@);
    lemma_number_and_unit(number, "k"@);
    lemma_number_and_unit(number, "K"@);
    lemma_number_and_unit(number, "M"@);
    lemma_number_and_unit(number, "G"@);
}

/// No other unit is known, of memory or of compute.
pub proof fn law_other_units_are_refused(unit: Seq<char>)
    ensures
        unit_bytes(unit) is Some ==> {
            ||| unit == ""@
            ||| unit == "B"@
            ||| unit == "K"@
            ||| unit == "KI"@
            ||| unit == "M"@
            ||| unit == "MI"@
            ||| unit == "G"@
            ||| unit == "GI"@
            ||| unit == "T"@
            ||| unit == "TI"@
        },
        tflops_unit(unit) is Some ==> unit == "m"@ || unit == "k"@ || unit == "K"@ || unit == "M"@
            || unit == "G"@,
{
}

/// Plain numbers of compute: a decimal number with a sign or without is taken as it is, and so
/// is one with an exponent of ten behind an `e` of either case.
pub proof fn law_plain_compute_in_writing(number: Seq<char>, exponent: Seq<char>)
    requires
        is_signed_decimal(number),
        exponent.len() > 0,
        all_decimal(exponent),
    ensures
        ascii_tflops_value(number) == Ok::<(Seq<char>, TflopsUnit), Seq<char>>(
            (number, TflopsUnit::One),
        ),
        is_float(number),
        is_float(number + seq!['e'] + exponent),
        is_float(number + seq!['E'] + exponent),
        is_float(number + seq!['e', '-'] + exponent),
        is_float(number + seq!['e', '+'] + exponent),
{
    lemma_signed_decimal(number);
    assert(trimmed(number) == number);
    let front = after_sign(number);
    assert(front.len() > 0) by {
        if front.len() == 0 {
            assert(front =~= Seq::<char>::empty());
            assert(point_at(front) == 0);
            assert(front.take(0).len() == 0);
        }
    }
    assert forall|i: int| 0 <= i < front.len() implies #[trigger] front[i] != 'e' && front[i]
        != 'E' by {
        law_characters_of_decimals(front, i);
    }
    lemma_no_exponent(front);
    assert(digit_value(exponent[0]) is Some);
    lemma_exponent(number, 'e', Seq::empty(), exponent);
    lemma_exponent(number, 'E', Seq::empty(), exponent);
    lemma_exponent(number, 'e', seq!['-'], exponent);
    lemma_exponent(number, 'e', seq!['+'], exponent);
    assert(number + seq!['e'] + Seq::<char>::empty() + exponent =~= number + seq!['e'] + exponent);
    assert(number + seq!['E'] + Seq::<char>::empty() + exponent =~= number + seq!['E'] + exponent);
    assert(number + seq!['e'] + seq!['-'] + exponent =~= number + seq!['e', '-'] + exponent);
    assert(number + seq!['e'] + seq!['+'] + exponent =~= number + seq!['e', '+'] + exponent);
}

/// A decimal number with an exponent.
proof fn lemma_exponent(number: Seq<char>, e: char, sign: Seq<char>, exponent: Seq<char>)
    requires
        is_signed_decimal(number),
        exponent.len() > 0,
        all_decimal(exponent),
        e == 'e' || e == 'E',
        sign.len() == 0 || sign == seq!['-'] || sign == seq!['+'],
    ensures
        is_float(number + seq![e] + sign + exponent),
{
    lemma_signed_decimal(number);
    let s = number + seq![e] + sign + exponent;
    let front = after_sign(number);
    let tail = seq![e] + sign + exponent;
    assert(front.len() > 0) by {
        if front.len() == 0 {
            assert(front =~= Seq::<char>::empty());
            assert(point_at(front) == 0);
            assert(front.take(0).len() == 0);
        }
    }
    let body = after_sign(s);
    assert(s[0] == number[0]);
    assert(body =~= front + tail);
    assert forall|i: int| 0 <= i < front.len() implies #[trigger] front[i] != 'e' && front[i]
        != 'E' by {
        law_characters_of_decimals(front, i);
    }
    lemma_exponent_place(front, tail);
    let n = front.len() as int;
    assert(body.take(n) =~= front);
    assert(body.skip(n + 1) =~= sign + exponent);
    assert(digit_value(exponent[0]) is Some);
    assert(after_sign(sign + exponent) =~= exponent);
}

proof fn lemma_exponent_place(front: Seq<char>, tail: Seq<char>)
    requires
        forall|i: int| 0 <= i < front.len() ==> #[trigger] front[i] != 'e' && front[i] != 'E',
        tail.len() > 0,
        tail[0] == 'e' || tail[0] == 'E',
    ensures
        exponent_at(front + tail) == front.len(),
    decreases front.len(),
{
    let s = front + tail;
    if front.len() > 0 {
        let rest = front.skip(1);
        assert(s[0] == front[0]);
        assert(s.skip(1) =~= rest + tail);
        assert forall|i: int| 0 <= i < rest.len() implies #[trigger] rest[i] != 'e' && rest[i]
            != 'E' by {
            assert(rest[i] == front[i + 1]);
        }
        lemma_exponent_place(rest, tail);
    } else {
        assert(s =~= tail);
    }
}

/// A decimal number with letters behind it that are no unit is refused, and the letters are
/// named as they were written.
pub proof fn law_unknown_units_are_named(number: Seq<char>, unit: Seq<char>)
    requires
        is_signed_decimal(number),
        unit.len() > 0,
        forall|i: int| 0 <= i < unit.len() ==> ascii_letter(#[trigger] unit[i]),
    ensures
        unit_bytes(ascii_uppered(unit)) is None ==> ascii_memory_value(number + unit) == Err::<
            u64,
            Seq<char>,
        >("Unsupported memory unit: "@ + unit),
        tflops_unit(unit) is None && !is_exponent_like(unit) ==> ascii_tflops_value(number + unit)
            == Err::<(Seq<char>, TflopsUnit), Seq<char>>("Unsupported TFLOPS unit: "@ + unit),
{
    lemma_number_and_unit(number, unit);
}

/// A memory value without a letter is plain bytes or nothing at all, and a unit without a
/// number in front is refused.
pub proof fn law_values_without_units(s: Seq<char>, unit: Seq<char>)
    requires
        trimmed(s) == s,
        forall|i: int| 0 <= i < s.len() ==> !ascii_letter(#[trigger] s[i]),
        unit.len() > 0,
        forall|i: int| 0 <= i < unit.len() ==> ascii_letter(#[trigger] unit[i]),
    ensures
        ascii_memory_value(s) == (match bounded_value(s, 0xffff_ffff_ffff_ffff) {
            Some(n) => Ok(n as u64),
            None => Err("Invalid memory value format: "@ + s),
        }),
        ascii_memory_value(unit) == Err::<u64, Seq<char>>(
            "Invalid numeric part in memory value: "@ + Seq::<char>::empty(),
        ),
{
    lemma_no_letters(s);
    assert(ascii_letter(unit[0]) && ascii_letter(unit[unit.len() - 1]));
    assert(trimmed(unit) == unit);
    lemma_letters_are_no_number(unit);
    lemma_unit_begins(Seq::empty(), unit);
    assert(Seq::<char>::empty() + unit =~= unit);
    let nothing = unit.take(0);
    assert(nothing =~= Seq::<char>::empty());
    assert(after_sign(nothing) =~= Seq::<char>::empty());
    assert(point_at(nothing) == 0);
    assert(nothing.take(0).len() == 0);
}

proof fn lemma_no_letters(s: Seq<char>)
    requires
        forall|i: int| 0 <= i < s.len() ==> !ascii_letter(#[trigger] s[i]),
    ensures
        letter_at(s, |c: char| ascii_letter(c)) is None,
    decreases s.len(),
{
    if s.len() > 0 {
        assert(!ascii_letter(s[0]));
        assert forall|i: int| 0 <= i < s.skip(1).len() implies !ascii_letter(
            #[trigger] s.skip(1)[i],
        ) by {
            assert(s.skip(1)[i] == s[i + 1]);
        }
        lemma_no_letters(s.skip(1));
    }
}

} // verus!
