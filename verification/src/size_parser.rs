//! Memory sizes as people write them.
use crate::decimal::{
    all_decimal, decimal_number, decimal_outcome, decimal_parts, digit_values,
    law_points_divide_by_ten, law_small_products_are_exact, law_whole_part_range, number_of,
    point_at, scale_text, scaled_outcome, Outcome,
};
use crate::number::{
    bounded_value, decimal_digit, digit_value, digits_value, law_numbers_read_back,
    law_only_digits_are_read, parse_u64,
};
use crate::rounding::lemma_two_values;
use crate::text::{
    ascii, ascii_lower, ascii_lowered, ascii_upper, ascii_uppered, blank, chars_of,
    law_written_digits, lemma_trimmed_ascii, lemma_trimmed_mapped, lemma_trimmed_surrounded,
    lower_case, part, same_text, string_of, to_lowercase, trim, trimmed, white, written,
};
use vstd::prelude::*;

verus! {

/// The number of bytes that a suffix stands for: powers of a thousand, and of 1024 for
/// the suffixes with an `i`.
pub open spec fn suffix_multiplier(suffix: Seq<char>) -> Option<u64> {
    if suffix == ""@ || suffix == "b"@ {
        Some(1)
    } else if suffix == "k"@ || suffix == "kb"@ {
        Some(1_000)
    } else if suffix == "kib"@ {
        Some(1_024)
    } else if suffix == "m"@ || suffix == "mb"@ {
        Some(1_000_000)
    } else if suffix == "mib"@ {
        Some(1_048_576)
    } else if suffix == "g"@ || suffix == "gb"@ {
        Some(1_000_000_000)
    } else if suffix == "gib"@ {
        Some(1_073_741_824)
    } else if suffix == "t"@ || suffix == "tb"@ {
        Some(1_000_000_000_000)
    } else if suffix == "tib"@ {
        Some(1_099_511_627_776)
    } else {
        None
    }
}

/// The number of bytes that a suffix in lower case stands for.
fn multiplier_of(suffix: &str) -> (r: Option<u64>)
    ensures
        r == suffix_multiplier(suffix@),
        r matches Some(m) ==> 1 <= m <= 0x100_0000_0000,
{
    if same_text(suffix, "") || same_text(suffix, "b") {
        Some(1)
    } else if same_text(suffix, "k") || same_text(suffix, "kb") {
        Some(1_000)
    } else if same_text(suffix, "kib") {
        Some(1_024)
    } else if same_text(suffix, "m") || same_text(suffix, "mb") {
        Some(1_000_000)
    } else if same_text(suffix, "mib") {
        Some(1_048_576)
    } else if same_text(suffix, "g") || same_text(suffix, "gb") {
        Some(1_000_000_000)
    } else if same_text(suffix, "gib") {
        Some(1_073_741_824)
    } else if same_text(suffix, "t") || same_text(suffix, "tb") {
        Some(1_000_000_000_000)
    } else if same_text(suffix, "tib") {
        Some(1_099_511_627_776)
    } else {
        None
    }
}

/// A character of a number.
pub open spec fn numeric(c: char) -> bool {
    digit_value(c) is Some || c == '.'
}

/// The number of characters of a number that a text begins with.
pub open spec fn numeric_length(s: Seq<char>) -> nat
    decreases s.len(),
{
    if s.len() == 0 || !numeric(s[0]) {
        0
    } else {
        1 + numeric_length(s.skip(1))
    }
}

/// The limit that a product comes to: none where it is less than one byte or more than
/// can be counted.
pub open spec fn limit_of(outcome: Outcome) -> Option<u64> {
    match outcome {
        Outcome::Whole(x) => if x <= u64::MAX {
            Some(x as u64)
        } else {
            None
        },
        _ => None,
    }
}

/// The limit that a number and a suffix stand for. Whole bytes are taken exactly, and
/// anything else is multiplied as a binary floating-point number.
pub open spec fn limit_with_suffix(number: Seq<char>, suffix: Seq<char>) -> Option<u64> {
    match suffix_multiplier(suffix) {
        None => None,
        Some(multiplier) => if multiplier == 1 && !number.contains('.') {
            match bounded_value(number, u64::MAX as nat) {
                Some(n) => if n > 0 {
                    Some(n as u64)
                } else {
                    None
                },
                None => None,
            }
        } else {
            match decimal_outcome(number, multiplier as nat) {
                Some(outcome) => limit_of(outcome),
                None => None,
            }
        },
    }
}

/// The number that a text begins with.
pub open spec fn number_text(s: Seq<char>) -> Seq<char> {
    trimmed(s).take(numeric_length(trimmed(s)) as int)
}

/// The suffix that follows it.
pub open spec fn suffix_text(s: Seq<char>) -> Seq<char> {
    trimmed(trimmed(s).skip(numeric_length(trimmed(s)) as int))
}

/// The limit that a text stands for: a number, and a suffix in either case, with white
/// space around both.
pub open spec fn memory_limit(s: Seq<char>) -> Option<u64> {
    if trimmed(s).len() == 0 {
        None
    } else {
        limit_with_suffix(number_text(s), lower_case(suffix_text(s)))
    }
}

/// Whether a number has a point.
fn has_point(v: &[char]) -> (b: bool)
    ensures
        b == v@.contains('.'),
{
    let mut i: usize = 0;
    while i < v.len()
        invariant
            i <= v@.len(),
            forall|j: int| 0 <= j < i ==> v@[j] != '.',
        decreases v@.len() - i,
    {
        if v[i] == '.' {
            assert(v@[i as int] == '.');
            return true;
        }
        i = i + 1;
    }
    false
}

/// Reads a number with a suffix in lower case.
pub fn parse_with_suffix(number: &[char], suffix: &str) -> (r: Option<u64>)
    ensures
        r == limit_with_suffix(number@, suffix@),
{
    match multiplier_of(suffix) {
        None => None,
        Some(multiplier) => if multiplier == 1 && !has_point(number) {
            match parse_u64(number) {
                Some(n) => if n > 0 {
                    Some(n)
                } else {
                    None
                },
                None => None,
            }
        } else {
            match scale_text(number, multiplier) {
                Some(Outcome::Whole(x)) => if x <= u64::MAX as u128 {
                    Some(x as u64)
                } else {
                    None
                },
                _ => None,
            }
        },
    }
}

/// Reads a memory limit: plain bytes, or a number with or without a fraction and a
/// suffix. Returns `None` for zero, for more than can be counted, and for what is no
/// size at all.
pub fn parse_memory_limit(s: &str) -> (r: Option<u64>)
    ensures
        r == memory_limit(s@),
{
    let v = chars_of(s);
    let t = trim(v.as_slice());
    if t.len() == 0 {
        return None;
    }
    let mut n: usize = 0;
    assert(t@.skip(0) =~= t@);
    while n < t.len() && (decimal_digit(t[n]).is_some() || t[n] == '.')
        invariant
            n <= t@.len(),
            numeric_length(t@) == n + numeric_length(t@.skip(n as int)),
        decreases t@.len() - n,
    {
        assert(t@.skip(n as int).skip(1) =~= t@.skip(n + 1));
        n = n + 1;
    }
    let number = part(t.as_slice(), 0, n);
    let rest = part(t.as_slice(), n, t.len());
    proof {
        assert(number@ =~= t@.take(n as int));
        assert(rest@ =~= t@.skip(n as int));
    }
    let suffix = trim(rest.as_slice());
    let suffix = string_of(suffix.as_slice());
    let suffix = to_lowercase(suffix.as_str());
    parse_with_suffix(number.as_slice(), suffix.as_str())
}

/// No text stands for a limit of zero bytes.
pub proof fn law_limits_are_positive(s: Seq<char>)
    ensures
        memory_limit(s) matches Some(bytes) ==> bytes > 0,
{
    let number = number_text(s);
    let suffix = lower_case(suffix_text(s));
    if let Some(multiplier) = suffix_multiplier(suffix) {
        if let Some((whole, fraction)) = decimal_parts(number) {
            let n = decimal_number(number_of(digit_values(whole)), digit_values(fraction));
            if n > 0 {
                law_whole_part_range(n, fraction.len(), multiplier as nat);
            }
        }
    }
}

/// Changing the case of its letters leaves the number of a text as it is, and changes the
/// case of its suffix.
proof fn lemma_case_of_parts(s: Seq<char>, f: spec_fn(char) -> char)
    requires
        forall|c: char| white(#[trigger] f(c)) == white(c),
        forall|c: char| numeric(#[trigger] f(c)) == numeric(c),
        forall|c: char| numeric(c) ==> #[trigger] f(c) == c,
    ensures
        trimmed(s.map_values(f)).len() == trimmed(s).len(),
        number_text(s.map_values(f)) == number_text(s),
        suffix_text(s.map_values(f)) == suffix_text(s).map_values(f),
{
    lemma_trimmed_mapped(s, f);
    let t = trimmed(s);
    lemma_numeric_length(t, f);
    let n = numeric_length(t) as int;
    assert forall|i: int| 0 <= i < n implies f(t[i]) == t[i] by {
        assert(numeric(t[i]));
    }
    assert(t.map_values(f).take(n) =~= t.take(n));
    assert(t.map_values(f).skip(n) =~= t.skip(n).map_values(f));
    lemma_trimmed_mapped(t.skip(n), f);
}

/// The number that a text begins with consists of its characters.
proof fn lemma_numeric_length(t: Seq<char>, f: spec_fn(char) -> char)
    requires
        forall|c: char| numeric(#[trigger] f(c)) == numeric(c),
    ensures
        numeric_length(t) <= t.len(),
        numeric_length(t.map_values(f)) == numeric_length(t),
        forall|i: int| 0 <= i < numeric_length(t) ==> numeric(#[trigger] t[i]),
    decreases t.len(),
{
    if t.len() > 0 {
        assert(numeric(f(t[0])) == numeric(t[0]));
        if numeric(t[0]) {
            assert(t.map_values(f).skip(1) =~= t.skip(1).map_values(f));
            lemma_numeric_length(t.skip(1), f);
            assert forall|i: int| 0 <= i < numeric_length(t) implies numeric(#[trigger] t[i]) by {
                if i > 0 {
                    assert(t[i] == t.skip(1)[i - 1]);
                }
            }
        }
    }
}

/// The suffix of an ASCII text is ASCII.
proof fn lemma_suffix_is_ascii(s: Seq<char>)
    requires
        ascii(s),
    ensures
        ascii(suffix_text(s)),
{
    lemma_trimmed_ascii(s);
    let t = trimmed(s);
    lemma_numeric_length(t, |c: char| c);
    let rest = t.skip(numeric_length(t) as int);
    assert forall|i: int| 0 <= i < rest.len() implies (#[trigger] rest[i]) < '\u{80}' by {
        assert(rest[i] == t[i + numeric_length(t)]);
    }
    lemma_trimmed_ascii(rest);
}

/// The case of letters does not matter in any ASCII text.
pub proof fn law_case_does_not_matter(s: Seq<char>)
    requires
        ascii(s),
    ensures
        memory_limit(ascii_uppered(s)) == memory_limit(s),
        memory_limit(ascii_lowered(s)) == memory_limit(s),
{
    let up = |c: char| ascii_upper(c);
    let low = |c: char| ascii_lower(c);
    lemma_case_of_parts(s, up);
    lemma_case_of_parts(s, low);
    lemma_suffix_is_ascii(s);
    let suffix = suffix_text(s);
    assert(ascii(ascii_uppered(suffix)) && ascii(ascii_lowered(suffix)));
    assert(ascii_lowered(ascii_uppered(suffix)) =~= ascii_lowered(suffix));
    assert(ascii_lowered(ascii_lowered(suffix)) =~= ascii_lowered(suffix));
}

/// White space around a text does not matter.
pub proof fn law_space_does_not_matter(a: Seq<char>, s: Seq<char>, b: Seq<char>)
    requires
        blank(a),
        blank(b),
    ensures
        memory_limit(a + s + b) == memory_limit(s),
{
    lemma_trimmed_surrounded(a, s, b);
}

/// A text that neither begins nor ends in white space is left as it is.
proof fn lemma_nothing_to_trim(s: Seq<char>)
    requires
        s.len() > 0,
        !white(s[0]),
        !white(s.last()),
    ensures
        trimmed(s) == s,
{
}

/// Digits in front of something else are the number of a text.
proof fn lemma_number_in_front(digits: Seq<char>, rest: Seq<char>)
    requires
        forall|i: int| 0 <= i < digits.len() ==> numeric(#[trigger] digits[i]),
        rest.len() == 0 || !numeric(rest[0]),
    ensures
        numeric_length(digits + rest) == digits.len(),
    decreases digits.len(),
{
    if digits.len() > 0 {
        assert((digits + rest)[0] == digits[0]);
        assert((digits + rest).skip(1) =~= digits.skip(1) + rest);
        lemma_number_in_front(digits.skip(1), rest);
    } else {
        assert(digits + rest =~= rest);
    }
}

/// A number in writing is made of digits.
proof fn lemma_written_is_decimal(n: nat)
    ensures
        all_decimal(written(n, 10)),
        written(n, 10).len() > 0,
        !written(n, 10).contains('.'),
        forall|i: int| 0 <= i < written(n, 10).len() ==> numeric(#[trigger] written(n, 10)[i]),
        forall|i: int| 0 <= i < written(n, 10).len() ==> !white(#[trigger] written(n, 10)[i]),
{
    law_numbers_read_back(n, n);
    law_written_digits(n, 10);
    assert forall|i: int| 0 <= i < written(n, 10).len() implies digit_value(
        #[trigger] written(n, 10)[i],
    ) is Some && written(n, 10)[i] != '.' && !white(written(n, 10)[i]) by {
        law_only_digits_are_read(written(n, 10), i);
    }
}

/// What a whole number with a suffix in small letters comes to.
proof fn lemma_whole_with_suffix(n: nat, suffix: Seq<char>, multiplier: u64)
    requires
        n > 0,
        small_letters(suffix),
        suffix_multiplier(suffix) == Some(multiplier),
        multiplier > 1,
        n * multiplier <= 0x20_0000_0000_0000,
    ensures
        memory_limit(written(n, 10) + suffix) == Some((n * multiplier) as u64),
{
    let digits = written(n, 10);
    let s = digits + suffix;
    lemma_written_is_decimal(n);
    lemma_number_in_front(digits, suffix);
    assert(s[0] == digits[0]);
    assert(s.last() == suffix[suffix.len() - 1]);
    lemma_nothing_to_trim(s);
    lemma_nothing_to_trim(suffix);
    assert(s.take(digits.len() as int) =~= digits);
    assert(s.skip(digits.len() as int) =~= suffix);
    assert(ascii(suffix));
    assert(ascii_lowered(suffix) =~= suffix);
    law_points_divide_by_ten(digits, Seq::empty(), multiplier as nat);
    law_numbers_read_back(n, n);
    lemma_two_values();
    law_small_products_are_exact(n, multiplier as nat);
}

/// The suffixes one by one.
proof fn lemma_suffix_values()
    ensures
        suffix_multiplier(""@) == Some(1u64),
        suffix_multiplier("b"@) == Some(1u64),
        suffix_multiplier("k"@) == Some(1_000u64),
        suffix_multiplier("kb"@) == Some(1_000u64),
        suffix_multiplier("kib"@) == Some(1_024u64),
        suffix_multiplier("m"@) == Some(1_000_000u64),
        suffix_multiplier("mb"@) == Some(1_000_000u64),
        suffix_multiplier("mib"@) == Some(1_048_576u64),
        suffix_multiplier("g"@) == Some(1_000_000_000u64),
        suffix_multiplier("gb"@) == Some(1_000_000_000u64),
        suffix_multiplier("gib"@) == Some(1_073_741_824u64),
        suffix_multiplier("t"@) == Some(1_000_000_000_000u64),
        suffix_multiplier("tb"@) == Some(1_000_000_000_000u64),
        suffix_multiplier("tib"@) == Some(1_099_511_627_776u64),
{
    reveal_strlit("");
    reveal_strlit("b");
    assert(""@.len() == 0);
    assert("b"@.len() == 1 && "b"@[0] == 'b');
    reveal_strlit("k");
    assert("k"@.len() == 1 && "k"@[0] == 'k');
    reveal_strlit("kb");
    assert("kb"@.len() == 2 && "kb"@[0] == 'k');
    reveal_strlit("kib");
    assert("kib"@.len() == 3 && "kib"@[0] == 'k');
    reveal_strlit("m");
    assert("m"@.len() == 1 && "m"@[0] == 'm');
    reveal_strlit("mb");
    assert("mb"@.len() == 2 && "mb"@[0] == 'm');
    reveal_strlit("mib");
    assert("mib"@.len() == 3 && "mib"@[0] == 'm');
    reveal_strlit("g");
    assert("g"@.len() == 1 && "g"@[0] == 'g');
    reveal_strlit("gb");
    assert("gb"@.len() == 2 && "gb"@[0] == 'g');
    reveal_strlit("gib");
    assert("gib"@.len() == 3 && "gib"@[0] == 'g');
    reveal_strlit("t");
    assert("t"@.len() == 1 && "t"@[0] == 't');
    reveal_strlit("tb");
    assert("tb"@.len() == 2 && "tb"@[0] == 't');
    reveal_strlit("tib");
    assert("tib"@.len() == 3 && "tib"@[0] == 't');
}

/// A suffix is made of small letters.
spec fn small_letters(suffix: Seq<char>) -> bool {
    suffix.len() > 0 && forall|i: int|
        0 <= i < suffix.len() ==> 'a' <= (#[trigger] suffix[i]) && suffix[i] <= 'z'
}

/// The suffixes are made of small letters.
proof fn lemma_suffix_letters()
    ensures
        small_letters("b"@),
        small_letters("k"@),
        small_letters("kb"@),
        small_letters("kib"@),
        small_letters("m"@),
        small_letters("mb"@),
        small_letters("mib"@),
        small_letters("g"@),
        small_letters("gb"@),
        small_letters("gib"@),
        small_letters("t"@),
        small_letters("tb"@),
        small_letters("tib"@),
{
    reveal_strlit("b");
    reveal_strlit("k");
    reveal_strlit("kb");
    reveal_strlit("kib");
    reveal_strlit("m");
    reveal_strlit("mb");
    reveal_strlit("mib");
    reveal_strlit("g");
    reveal_strlit("gb");
    reveal_strlit("gib");
    reveal_strlit("t");
    reveal_strlit("tb");
    reveal_strlit("tib");
}

/// A whole number without a suffix, or with a `b`.
proof fn lemma_plain_bytes(n: nat)
    requires
        n > 0,
    ensures
        n <= u64::MAX ==> memory_limit(written(n, 10)) == Some(n as u64),
        n <= u64::MAX ==> memory_limit(written(n, 10) + "b"@) == Some(n as u64),
        n > u64::MAX ==> memory_limit(written(n, 10)) is None,
{
    let digits = written(n, 10);
    lemma_written_is_decimal(n);
    law_numbers_read_back(n, u64::MAX as nat);
    lemma_suffix_values();
    reveal_strlit("");
    reveal_strlit("b");
    lemma_number_in_front(digits, Seq::empty());
    assert(digits + Seq::<char>::empty() =~= digits);
    lemma_nothing_to_trim(digits);
    assert(digits.take(digits.len() as int) =~= digits);
    let nothing = digits.skip(digits.len() as int);
    assert(nothing =~= ""@);
    assert(trimmed(nothing) =~= ""@);
    assert(ascii_lowered(""@) =~= ""@);
    let b = digits + "b"@;
    lemma_number_in_front(digits, "b"@);
    assert(b[0] == digits[0]);
    lemma_nothing_to_trim(b);
    lemma_nothing_to_trim("b"@);
    assert(b.take(digits.len() as int) =~= digits);
    assert(b.skip(digits.len() as int) =~= "b"@);
    assert(ascii_lowered("b"@) =~= "b"@);
}

/// Whole numbers in writing: plain bytes and bytes with a `b` are taken as they are, a
/// suffix without an `i` stands for a power of a thousand, and one with an `i` for the same
/// power of 1024.
#[verifier::rlimit(40)]
pub proof fn law_sizes_in_writing(n: nat)
    requires
        n > 0,
    ensures
        n <= u64::MAX ==> memory_limit(written(n, 10)) == Some(n as u64),
        n <= u64::MAX ==> memory_limit(written(n, 10) + "b"@) == Some(n as u64),
        n > u64::MAX ==> memory_limit(written(n, 10)) is None,
        n * 1_000 <= 0x20_0000_0000_0000 ==> memory_limit(written(n, 10) + "k"@) == Some(
            (n * 1_000) as u64,
        ),
        n * 1_000 <= 0x20_0000_0000_0000 ==> memory_limit(written(n, 10) + "kb"@) == Some(
            (n * 1_000) as u64,
        ),
        n * 1_024 <= 0x20_0000_0000_0000 ==> memory_limit(written(n, 10) + "kib"@) == Some(
            (n * 1_024) as u64,
        ),
        n * 1_000_000 <= 0x20_0000_0000_0000 ==> memory_limit(written(n, 10) + "m"@) == Some(
            (n * 1_000_000) as u64,
        ),
        n * 1_000_000 <= 0x20_0000_0000_0000 ==> memory_limit(written(n, 10) + "mb"@) == Some(
            (n * 1_000_000) as u64,
        ),
        n * 1_048_576 <= 0x20_0000_0000_0000 ==> memory_limit(written(n, 10) + "mib"@) == Some(
            (n * 1_048_576) as u64,
        ),
        n * 1_000_000_000 <= 0x20_0000_0000_0000 ==> memory_limit(written(n, 10) + "g"@) == Some(
            (n * 1_000_000_000) as u64,
        ),
        n * 1_000_000_000 <= 0x20_0000_0000_0000 ==> memory_limit(written(n, 10) + "gb"@) == Some(
            (n * 1_000_000_000) as u64,
        ),
        n * 1_073_741_824 <= 0x20_0000_0000_0000 ==> memory_limit(written(n, 10) + "gib"@) == Some(
            (n * 1_073_741_824) as u64,
        ),
        n * 1_000_000_000_000 <= 0x20_0000_0000_0000 ==> memory_limit(written(n, 10) + "t"@) == Some(
            (n * 1_000_000_000_000) as u64,
        ),
        n * 1_000_000_000_000 <= 0x20_0000_0000_0000 ==> memory_limit(written(n, 10) + "tb"@) == Some(
            (n * 1_000_000_000_000) as u64,
        ),
        n * 1_099_511_627_776 <= 0x20_0000_0000_0000 ==> memory_limit(written(n, 10) + "tib"@) == Some(
            (n * 1_099_511_627_776) as u64,
        ),
{
    lemma_plain_bytes(n);
    lemma_suffix_values();
    lemma_suffix_letters();
    if n * 1_000 <= 0x20_0000_0000_0000 {
        lemma_whole_with_suffix(n, "k"@, 1_000);
    }
    if n * 1_000 <= 0x20_0000_0000_0000 {
        lemma_whole_with_suffix(n, "kb"@, 1_000);
    }
    if n * 1_024 <= 0x20_0000_0000_0000 {
        lemma_whole_with_suffix(n, "kib"@, 1_024);
    }
    if n * 1_000_000 <= 0x20_0000_0000_0000 {
        lemma_whole_with_suffix(n, "m"@, 1_000_000);
    }
    if n * 1_000_000 <= 0x20_0000_0000_0000 {
        lemma_whole_with_suffix(n, "mb"@, 1_000_000);
    }
    if n * 1_048_576 <= 0x20_0000_0000_0000 {
        lemma_whole_with_suffix(n, "mib"@, 1_048_576);
    }
    if n * 1_000_000_000 <= 0x20_0000_0000_0000 {
        lemma_whole_with_suffix(n, "g"@, 1_000_000_000);
    }
    if n * 1_000_000_000 <= 0x20_0000_0000_0000 {
        lemma_whole_with_suffix(n, "gb"@, 1_000_000_000);
    }
    if n * 1_073_741_824 <= 0x20_0000_0000_0000 {
        lemma_whole_with_suffix(n, "gib"@, 1_073_741_824);
    }
    if n * 1_000_000_000_000 <= 0x20_0000_0000_0000 {
        lemma_whole_with_suffix(n, "t"@, 1_000_000_000_000);
    }
    if n * 1_000_000_000_000 <= 0x20_0000_0000_0000 {
        lemma_whole_with_suffix(n, "tb"@, 1_000_000_000_000);
    }
    if n * 1_099_511_627_776 <= 0x20_0000_0000_0000 {
        lemma_whole_with_suffix(n, "tib"@, 1_099_511_627_776);
    }
}

/// No other suffix stands for anything, and no suffix stands alone.
pub proof fn law_other_suffixes_are_refused(s: Seq<char>)
    requires
        memory_limit(s) is Some,
    ensures
        number_text(s).len() > 0,
        ({
            let suffix = lower_case(suffix_text(s));
            ||| suffix == ""@
            ||| suffix == "b"@
            ||| suffix == "k"@
            ||| suffix == "kb"@
            ||| suffix == "kib"@
            ||| suffix == "m"@
            ||| suffix == "mb"@
            ||| suffix == "mib"@
            ||| suffix == "g"@
            ||| suffix == "gb"@
            ||| suffix == "gib"@
            ||| suffix == "t"@
            ||| suffix == "tb"@
            ||| suffix == "tib"@
        }),
{
    if number_text(s).len() == 0 {
        assert(number_text(s) =~= Seq::<char>::empty());
        assert(point_at(number_text(s)) == 0);
        assert(decimal_parts(number_text(s)) is None);
    }
}

/// A number with a point and a suffix stands for what its digits stand for, divided by ten
/// for each behind the point, times what the suffix stands for; as long as that is at least
/// one byte and can be counted.
pub proof fn law_fractions_in_writing(
    whole: Seq<char>,
    fraction: Seq<char>,
    suffix: Seq<char>,
    multiplier: u64,
)
    requires
        all_decimal(whole),
        all_decimal(fraction),
        whole.len() > 0,
        suffix.len() > 0,
        forall|i: int| 0 <= i < suffix.len() ==> 'a' <= (#[trigger] suffix[i]) && suffix[i] <= 'z',
        suffix_multiplier(suffix) == Some(multiplier),
    ensures
        ({
            let outcome = scaled_outcome(
                digits_value(whole + fraction)->0,
                fraction.len(),
                multiplier as nat,
            );
            let limit = memory_limit(whole + seq!['.'] + fraction + suffix);
            &&& limit is Some <==> outcome is Whole && outcome->Whole_0 <= u64::MAX
            &&& limit matches Some(bytes) ==> bytes == outcome->Whole_0
        }),
{
    let number = whole + seq!['.'] + fraction;
    let s = number + suffix;
    assert forall|i: int| 0 <= i < number.len() implies numeric(#[trigger] number[i]) by {
        if i < whole.len() {
            assert(number[i] == whole[i]);
        } else if i > whole.len() {
            assert(number[i] == fraction[i - whole.len() - 1]);
        }
    }
    lemma_number_in_front(number, suffix);
    assert(s[0] == whole[0]);
    assert(digit_value(whole[0]) is Some);
    assert(s.last() == suffix[suffix.len() - 1]);
    lemma_nothing_to_trim(s);
    lemma_nothing_to_trim(suffix);
    assert(s.take(number.len() as int) =~= number);
    assert(s.skip(number.len() as int) =~= suffix);
    assert(ascii_lowered(suffix) =~= suffix);
    assert(number[whole.len() as int] == '.');
    law_points_divide_by_ten(whole, fraction, multiplier as nat);
}

} // verus!
