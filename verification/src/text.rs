//! Text as sequences of characters.
use vstd::prelude::*;

verus! {

/// Trusted: `String::push` appends one character.
pub assume_specification[ String::push ](s: &mut String, c: char)
    ensures
        final(s)@ == old(s)@.push(c),
;

/// The lower-case form of a text, by the rules of Unicode.
pub uninterp spec fn lowercased(s: Seq<char>) -> Seq<char>;

/// The upper-case form of a text, by the rules of Unicode.
pub uninterp spec fn uppercased(s: Seq<char>) -> Seq<char>;

/// Whether a character is a letter, by the rules of Unicode.
pub uninterp spec fn alphabetic(c: char) -> bool;

/// The text is ASCII only.
pub open spec fn ascii(s: Seq<char>) -> bool {
    forall|i: int| 0 <= i < s.len() ==> (#[trigger] s[i]) < '\u{80}'
}

/// The character with an ASCII capital made small.
pub open spec fn ascii_lower(c: char) -> char {
    if 'A' <= c && c <= 'Z' {
        ((c as u32 + 32) as u32) as char
    } else {
        c
    }
}

/// The character with a small ASCII letter made a capital.
pub open spec fn ascii_upper(c: char) -> char {
    if 'a' <= c && c <= 'z' {
        ((c as u32 - 32) as u32) as char
    } else {
        c
    }
}

/// A text with its ASCII capitals made small.
pub open spec fn ascii_lowered(s: Seq<char>) -> Seq<char> {
    s.map_values(|c: char| ascii_lower(c))
}

/// A text with its small ASCII letters made capitals.
pub open spec fn ascii_uppered(s: Seq<char>) -> Seq<char> {
    s.map_values(|c: char| ascii_upper(c))
}

/// The lower-case form of a text. In an ASCII text only the capitals differ.
pub open spec fn lower_case(s: Seq<char>) -> Seq<char> {
    if ascii(s) {
        ascii_lowered(s)
    } else {
        lowercased(s)
    }
}

/// An ASCII letter.
pub open spec fn ascii_letter(c: char) -> bool {
    ('a' <= c && c <= 'z') || ('A' <= c && c <= 'Z')
}

/// Trusted: `str::to_lowercase` returns the lower-case form, which depends on the
/// text alone. Of an ASCII text it changes the capitals and nothing else.
#[verifier::external_body]
pub(crate) fn to_lowercase(s: &str) -> (r: String)
    ensures
        r@ == lowercased(s@),
        ascii(s@) ==> r@ == ascii_lowered(s@),
{
    s.to_lowercase()
}

/// Trusted: `str::to_uppercase` returns the upper-case form, which depends on the
/// text alone. Of an ASCII text it changes the small letters and nothing else.
#[verifier::external_body]
pub(crate) fn to_uppercase(s: &str) -> (r: String)
    ensures
        r@ == uppercased(s@),
        ascii(s@) ==> r@ == ascii_uppered(s@),
{
    s.to_uppercase()
}

/// Trusted: `char::is_alphabetic` tells the letters of Unicode, which depends on
/// the character alone. Among the ASCII characters they are `a` to `z` and `A` to
/// `Z`.
#[verifier::external_body]
pub(crate) fn is_alphabetic(c: char) -> (b: bool)
    ensures
        b == alphabetic(c),
        c < '\u{80}' ==> b == ascii_letter(c),
{
    c.is_alphabetic()
}

/// The characters of a text.
pub fn chars_of(s: &str) -> (v: Vec<char>)
    ensures
        v@ == s@,
{
    let mut v: Vec<char> = Vec::new();
    for c in iter: s.chars()
        invariant
            iter.seq() == s@,
            v@ == iter.seq().take(iter.index() as int),
    {
        v.push(c);
        assert(v@ =~= s@.take(iter.index() + 1));
    }
    assert(v@ =~= s@);
    v
}

/// The text made of the given characters.
pub fn string_of(v: &[char]) -> (s: String)
    ensures
        s@ == v@,
{
    let mut s = String::new();
    let mut i: usize = 0;
    while i < v.len()
        invariant
            i <= v@.len(),
            s@ == v@.take(i as int),
        decreases v@.len() - i,
    {
        s.push(v[i]);
        i = i + 1;
        assert(s@ =~= v@.take(i as int));
    }
    assert(s@ =~= v@);
    s
}

/// The characters from one place up to another.
pub fn part(v: &[char], from: usize, to: usize) -> (r: Vec<char>)
    requires
        from <= to <= v@.len(),
    ensures
        r@ == v@.subrange(from as int, to as int),
{
    let mut r: Vec<char> = Vec::new();
    let mut i: usize = from;
    while i < to
        invariant
            from <= i <= to <= v@.len(),
            r@ == v@.subrange(from as int, i as int),
        decreases to - i,
    {
        r.push(v[i]);
        i = i + 1;
        assert(r@ =~= v@.subrange(from as int, i as int));
    }
    r
}

/// Whether two texts are the same.
pub fn same(a: &[char], b: &[char]) -> (r: bool)
    ensures
        r == (a@ == b@),
{
    if a.len() != b.len() {
        return false;
    }
    let mut i: usize = 0;
    while i < a.len()
        invariant
            i <= a@.len(),
            a@.len() == b@.len(),
            forall|j: int| 0 <= j < i ==> a@[j] == b@[j],
        decreases a@.len() - i,
    {
        if a[i] != b[i] {
            return false;
        }
        i = i + 1;
    }
    assert(a@ =~= b@);
    true
}

/// Whether a text equals another.
pub fn same_text(a: &str, b: &str) -> (r: bool)
    ensures
        r == (a@ == b@),
{
    let x = chars_of(a);
    let y = chars_of(b);
    same(x.as_slice(), y.as_slice())
}

/// Whether a text begins with another.
pub fn starts_with(v: &[char], prefix: &[char]) -> (r: bool)
    ensures
        r == prefix@.is_prefix_of(v@),
{
    if prefix.len() > v.len() {
        return false;
    }
    let mut i: usize = 0;
    while i < prefix.len()
        invariant
            i <= prefix@.len() <= v@.len(),
            forall|j: int| 0 <= j < i ==> prefix@[j] == v@[j],
        decreases prefix@.len() - i,
    {
        if prefix[i] != v[i] {
            return false;
        }
        i = i + 1;
    }
    assert(prefix@ =~= v@.subrange(0, prefix@.len() as int));
    true
}

/// A text without a prefix, where it has it.
pub open spec fn without_prefix(s: Seq<char>, prefix: Seq<char>) -> Seq<char> {
    if prefix.is_prefix_of(s) {
        s.skip(prefix.len() as int)
    } else {
        s
    }
}

/// Takes a prefix off a text, where it has it.
pub fn strip_prefix(s: &str, prefix: &str) -> (r: String)
    ensures
        r@ == without_prefix(s@, prefix@),
{
    let v = chars_of(s);
    let p = chars_of(prefix);
    if starts_with(v.as_slice(), p.as_slice()) {
        let rest = part(v.as_slice(), p.len(), v.len());
        assert(rest@ =~= s@.skip(prefix@.len() as int));
        string_of(rest.as_slice())
    } else {
        string_of(v.as_slice())
    }
}

/// A digit as a character, in bases up to sixteen.
pub open spec fn digit(d: nat) -> char {
    if d == 0 {
        '0'
    } else if d == 1 {
        '1'
    } else if d == 2 {
        '2'
    } else if d == 3 {
        '3'
    } else if d == 4 {
        '4'
    } else if d == 5 {
        '5'
    } else if d == 6 {
        '6'
    } else if d == 7 {
        '7'
    } else if d == 8 {
        '8'
    } else if d == 9 {
        '9'
    } else if d == 10 {
        'a'
    } else if d == 11 {
        'b'
    } else if d == 12 {
        'c'
    } else if d == 13 {
        'd'
    } else if d == 14 {
        'e'
    } else {
        'f'
    }
}

/// A number written in a base, without leading zeros.
pub open spec fn written(n: nat, base: nat) -> Seq<char>
    decreases n,
    via written_decreases
{
    if base < 2 || n < base {
        seq![digit(n)]
    } else {
        written(n / base, base).push(digit(n % base))
    }
}

#[via_fn]
proof fn written_decreases(n: nat, base: nat) {
    if base >= 2 && n >= base {
        assert(n / base < n) by (nonlinear_arith)
            requires
                n >= base,
                base >= 2,
        ;
    }
}

/// A text with zeros in front up to a width.
pub open spec fn zero_padded(s: Seq<char>, width: nat) -> Seq<char> {
    if s.len() >= width {
        s
    } else {
        Seq::new((width - s.len()) as nat, |i: int| '0') + s
    }
}

/// The digits of an integer, with a minus in front of a negative one.
pub open spec fn signed(n: int) -> Seq<char> {
    if n < 0 {
        seq!['-'] + written((-n) as nat, 10)
    } else {
        written(n as nat, 10)
    }
}

/// A digit as a character.
pub fn digit_char(d: u64) -> (c: char)
    requires
        d < 16,
    ensures
        c == digit(d as nat),
{
    match d {
        0 => '0',
        1 => '1',
        2 => '2',
        3 => '3',
        4 => '4',
        5 => '5',
        6 => '6',
        7 => '7',
        8 => '8',
        9 => '9',
        10 => 'a',
        11 => 'b',
        12 => 'c',
        13 => 'd',
        14 => 'e',
        _ => 'f',
    }
}

/// Writes a number in a base.
pub fn write_number(n: u64, base: u64) -> (v: Vec<char>)
    requires
        2 <= base <= 16,
    ensures
        v@ == written(n as nat, base as nat),
    decreases n,
{
    if n < base {
        let mut v: Vec<char> = Vec::new();
        v.push(digit_char(n));
        assert(v@ =~= written(n as nat, base as nat));
        v
    } else {
        assert(n / base < n) by (nonlinear_arith)
            requires
                n >= base >= 2,
        ;
        let mut v = write_number(n / base, base);
        v.push(digit_char(n % base));
        v
    }
}

/// Appends characters to a text.
pub fn push_chars(s: &mut String, v: &[char])
    ensures
        final(s)@ == old(s)@ + v@,
{
    let mut i: usize = 0;
    assert(old(s)@ =~= old(s)@ + v@.take(0));
    while i < v.len()
        invariant
            i <= v@.len(),
            s@ == old(s)@ + v@.take(i as int),
        decreases v@.len() - i,
    {
        s.push(v[i]);
        i = i + 1;
        assert(s@ =~= old(s)@ + v@.take(i as int));
    }
    assert(v@.take(i as int) =~= v@);
}

/// Appends a text to another.
pub fn push_text(s: &mut String, t: &str)
    ensures
        final(s)@ == old(s)@ + t@,
{
    let v = chars_of(t);
    push_chars(s, v.as_slice());
}

/// Appends a number in decimal.
pub fn push_decimal(s: &mut String, n: u64)
    ensures
        final(s)@ == old(s)@ + written(n as nat, 10),
{
    let v = write_number(n, 10);
    push_chars(s, v.as_slice());
}

/// Appends an integer in decimal.
pub fn push_signed(s: &mut String, n: i64)
    ensures
        final(s)@ == old(s)@ + signed(n as int),
{
    if n < 0 {
        let ghost before = s@;
        s.push('-');
        let magnitude: u64 = if n == i64::MIN {
            0x8000_0000_0000_0000
        } else {
            (-n) as u64
        };
        push_decimal(s, magnitude);
        assert(s@ =~= before + signed(n as int));
    } else {
        push_decimal(s, n as u64);
    }
}

/// Appends a number in hexadecimal, with zeros in front up to a width.
pub fn push_hex(s: &mut String, n: u64, width: usize)
    ensures
        final(s)@ == old(s)@ + zero_padded(written(n as nat, 16), width as nat),
{
    let v = write_number(n, 16);
    let ghost before = s@;
    if v.len() < width {
        let missing: usize = width - v.len();
        let mut i: usize = 0;
        assert(before =~= before + Seq::new(0, |j: int| '0'));
        while i < missing
            invariant
                i <= missing,
                s@ == before + Seq::new(i as nat, |j: int| '0'),
            decreases missing - i,
        {
            s.push('0');
            i = i + 1;
            assert(s@ =~= before + Seq::new(i as nat, |j: int| '0'));
        }
    }
    push_chars(s, v.as_slice());
    assert(s@ =~= before + zero_padded(written(n as nat, 16), width as nat));
}

/// A character of Unicode's property `White_Space`.
pub open spec fn white(c: char) -> bool {
    ||| ('\u{9}' <= c && c <= '\u{d}')
    ||| c == ' '
    ||| c == '\u{85}'
    ||| c == '\u{a0}'
    ||| c == '\u{1680}'
    ||| ('\u{2000}' <= c && c <= '\u{200a}')
    ||| c == '\u{2028}'
    ||| c == '\u{2029}'
    ||| c == '\u{202f}'
    ||| c == '\u{205f}'
    ||| c == '\u{3000}'
}

/// Whether a character is white space.
pub fn is_white(c: char) -> (b: bool)
    ensures
        b == white(c),
{
    ('\u{9}' <= c && c <= '\u{d}') || c == ' ' || c == '\u{85}' || c == '\u{a0}' || c == '\u{1680}'
        || ('\u{2000}' <= c && c <= '\u{200a}') || c == '\u{2028}' || c == '\u{2029}' || c
        == '\u{202f}' || c == '\u{205f}' || c == '\u{3000}'
}

/// A text without the white space in front.
pub open spec fn trimmed_start(s: Seq<char>) -> Seq<char>
    decreases s.len(),
{
    if s.len() > 0 && white(s[0]) {
        trimmed_start(s.skip(1))
    } else {
        s
    }
}

/// A text without the white space at its end.
pub open spec fn trimmed_end(s: Seq<char>) -> Seq<char>
    decreases s.len(),
{
    if s.len() > 0 && white(s.last()) {
        trimmed_end(s.drop_last())
    } else {
        s
    }
}

/// A text without white space around it.
pub open spec fn trimmed(s: Seq<char>) -> Seq<char> {
    trimmed_end(trimmed_start(s))
}

/// Takes the white space off both ends of a text.
pub fn trim(v: &[char]) -> (r: Vec<char>)
    ensures
        r@ == trimmed(v@),
{
    let mut from: usize = 0;
    assert(v@ =~= v@.skip(0));
    while from < v.len() && is_white(v[from])
        invariant
            from <= v@.len(),
            trimmed_start(v@) == trimmed_start(v@.skip(from as int)),
        decreases v@.len() - from,
    {
        assert(v@.skip(from as int).skip(1) =~= v@.skip(from + 1));
        from = from + 1;
    }
    assert(trimmed_start(v@) == v@.skip(from as int));
    let ghost s = trimmed_start(v@);
    let mut to: usize = v.len();
    assert(s =~= v@.subrange(from as int, to as int));
    while to > from && is_white(v[to - 1])
        invariant
            from <= to <= v@.len(),
            trimmed_end(s) == trimmed_end(v@.subrange(from as int, to as int)),
        decreases to - from,
    {
        assert(v@.subrange(from as int, to as int).drop_last() =~= v@.subrange(
            from as int,
            to - 1,
        ));
        to = to - 1;
    }
    part(v, from, to)
}

/// Changing the letters of a text changes those of the trimmed text.
pub proof fn lemma_trimmed_mapped(s: Seq<char>, f: spec_fn(char) -> char)
    requires
        forall|c: char| white(#[trigger] f(c)) == white(c),
    ensures
        trimmed(s.map_values(f)) == trimmed(s).map_values(f),
{
    lemma_start_mapped(s, f);
    lemma_end_mapped(trimmed_start(s), f);
}

proof fn lemma_start_mapped(s: Seq<char>, f: spec_fn(char) -> char)
    requires
        forall|c: char| white(#[trigger] f(c)) == white(c),
    ensures
        trimmed_start(s.map_values(f)) == trimmed_start(s).map_values(f),
    decreases s.len(),
{
    if s.len() > 0 && white(s[0]) {
        assert(white(f(s[0])));
        assert(s.map_values(f).skip(1) =~= s.skip(1).map_values(f));
        lemma_start_mapped(s.skip(1), f);
    } else if s.len() > 0 {
        assert(!white(f(s[0])));
    }
}

proof fn lemma_end_mapped(s: Seq<char>, f: spec_fn(char) -> char)
    requires
        forall|c: char| white(#[trigger] f(c)) == white(c),
    ensures
        trimmed_end(s.map_values(f)) == trimmed_end(s).map_values(f),
    decreases s.len(),
{
    if s.len() > 0 && white(s.last()) {
        assert(white(f(s.last())));
        assert(s.map_values(f).drop_last() =~= s.drop_last().map_values(f));
        lemma_end_mapped(s.drop_last(), f);
    } else if s.len() > 0 {
        assert(!white(f(s.last())));
    }
}

/// What is trimmed off an ASCII text leaves an ASCII text.
pub proof fn lemma_trimmed_ascii(s: Seq<char>)
    ensures
        ascii(s) ==> ascii(trimmed(s)),
{
    lemma_start_ascii(s);
    lemma_end_ascii(trimmed_start(s));
}

proof fn lemma_start_ascii(s: Seq<char>)
    ensures
        ascii(s) ==> ascii(trimmed_start(s)),
    decreases s.len(),
{
    if s.len() > 0 && white(s[0]) {
        lemma_start_ascii(s.skip(1));
    }
}

proof fn lemma_end_ascii(s: Seq<char>)
    ensures
        ascii(s) ==> ascii(trimmed_end(s)),
    decreases s.len(),
{
    if s.len() > 0 && white(s.last()) {
        lemma_end_ascii(s.drop_last());
    }
}

/// A text of nothing but white space.
pub open spec fn blank(s: Seq<char>) -> bool {
    forall|i: int| 0 <= i < s.len() ==> white(#[trigger] s[i])
}

/// White space around a text is trimmed with its own.
pub proof fn lemma_trimmed_surrounded(a: Seq<char>, s: Seq<char>, b: Seq<char>)
    requires
        blank(a),
        blank(b),
    ensures
        trimmed(a + s + b) == trimmed(s),
{
    assert(a + s + b =~= a + (s + b));
    lemma_start_led(a, s + b);
    lemma_start_followed(s, b);
    let t = trimmed_start(s);
    if blank(s) {
        lemma_end_followed(Seq::empty(), trimmed_start(s + b));
        assert(Seq::<char>::empty() + trimmed_start(s + b) =~= trimmed_start(s + b));
    } else {
        lemma_end_followed(t, b);
    }
}

proof fn lemma_start_led(a: Seq<char>, s: Seq<char>)
    requires
        blank(a),
    ensures
        trimmed_start(a + s) == trimmed_start(s),
    decreases a.len(),
{
    if a.len() > 0 {
        assert((a + s)[0] == a[0]);
        assert((a + s).skip(1) =~= a.skip(1) + s);
        lemma_start_led(a.skip(1), s);
    } else {
        assert(a + s =~= s);
    }
}

proof fn lemma_start_followed(s: Seq<char>, b: Seq<char>)
    requires
        blank(b),
    ensures
        blank(s) ==> blank(trimmed_start(s + b)) && trimmed_start(s).len() == 0,
        !blank(s) ==> trimmed_start(s + b) == trimmed_start(s) + b,
    decreases s.len(),
{
    if s.len() == 0 {
        assert(s + b =~= b);
        lemma_start_led(b, Seq::empty());
        assert(b + Seq::<char>::empty() =~= b);
    } else {
        assert((s + b)[0] == s[0]);
        if white(s[0]) {
            assert((s + b).skip(1) =~= s.skip(1) + b);
            lemma_start_followed(s.skip(1), b);
            if blank(s.skip(1)) {
                assert forall|i: int| 0 <= i < s.len() implies white(#[trigger] s[i]) by {
                    if i > 0 {
                        assert(s[i] == s.skip(1)[i - 1]);
                    }
                }
            } else {
                assert(!blank(s)) by {
                    let i = choose|i: int|
                        0 <= i < s.skip(1).len() && !white(#[trigger] s.skip(1)[i]);
                    assert(s[i + 1] == s.skip(1)[i]);
                }
            }
        } else {
            assert(!blank(s));
        }
    }
}

proof fn lemma_end_followed(s: Seq<char>, b: Seq<char>)
    requires
        blank(b),
    ensures
        trimmed_end(s + b) == trimmed_end(s),
    decreases b.len(),
{
    if b.len() > 0 {
        assert((s + b).last() == b.last());
        assert(white(b[b.len() - 1]));
        assert((s + b).drop_last() =~= s + b.drop_last());
        lemma_end_followed(s, b.drop_last());
    } else {
        assert(s + b =~= s);
    }
}

/// The characters of each of several texts.
pub open spec fn texts(s: Seq<String>) -> Seq<Seq<char>> {
    Seq::new(s.len(), |i: int| s[i]@)
}

/// One text comes before another in the order of their characters.
pub open spec fn before(a: Seq<char>, b: Seq<char>) -> bool
    decreases a.len(),
{
    if b.len() == 0 {
        false
    } else if a.len() == 0 {
        true
    } else if a[0] != b[0] {
        a[0] < b[0]
    } else {
        before(a.skip(1), b.skip(1))
    }
}

/// Of two different texts one comes before the other, and no text before itself.
pub proof fn lemma_before_total(a: Seq<char>, b: Seq<char>)
    ensures
        a == b ==> !before(a, b),
        a != b ==> before(a, b) || before(b, a),
        !(before(a, b) && before(b, a)),
    decreases a.len(),
{
    if a.len() > 0 && b.len() > 0 && a[0] == b[0] {
        lemma_before_total(a.skip(1), b.skip(1));
        if a != b {
            if a.skip(1) == b.skip(1) {
                assert(a =~= seq![a[0]] + a.skip(1));
                assert(b =~= seq![b[0]] + b.skip(1));
            }
        }
    } else if a.len() == 0 && b.len() == 0 {
        assert(a =~= b);
    }
}

/// The order of texts is transitive.
pub proof fn lemma_before_transitive(a: Seq<char>, b: Seq<char>, c: Seq<char>)
    requires
        before(a, b),
        before(b, c),
    ensures
        before(a, c),
    decreases a.len(),
{
    if a.len() > 0 && a[0] == b[0] && b[0] == c[0] {
        lemma_before_transitive(a.skip(1), b.skip(1), c.skip(1));
    }
}

/// Whether one text comes before another.
pub fn is_before(a: &[char], b: &[char]) -> (r: bool)
    ensures
        r == before(a@, b@),
{
    let mut i: usize = 0;
    assert(a@.skip(0) =~= a@ && b@.skip(0) =~= b@);
    while i < a.len() && i < b.len()
        invariant
            i <= a@.len(),
            i <= b@.len(),
            before(a@, b@) == before(a@.skip(i as int), b@.skip(i as int)),
        decreases a@.len() - i,
    {
        if a[i] != b[i] {
            return a[i] < b[i];
        }
        assert(a@.skip(i as int).skip(1) =~= a@.skip(i + 1));
        assert(b@.skip(i as int).skip(1) =~= b@.skip(i + 1));
        i = i + 1;
    }
    i < b.len()
}

/// Whether one text comes before another.
fn text_before(a: &str, b: &str) -> (r: bool)
    ensures
        r == before(a@, b@),
{
    let x = chars_of(a);
    let y = chars_of(b);
    is_before(x.as_slice(), y.as_slice())
}

/// `r` holds every one of the given texts once, in order.
pub open spec fn is_sorted_set(given: Seq<Seq<char>>, r: Seq<Seq<char>>) -> bool {
    &&& forall|i: int, j: int| 0 <= i < j < r.len() ==> before(#[trigger] r[i], #[trigger] r[j])
    &&& forall|x: Seq<char>| #[trigger] given.contains(x) <==> r.contains(x)
}

/// Adds a text to an ordered list, unless it is there.
fn insert_text(sorted: &mut Vec<String>, x: String)
    requires
        forall|i: int, j: int|
            0 <= i < j < old(sorted)@.len() ==> before(
                (#[trigger] old(sorted)@[i])@,
                (#[trigger] old(sorted)@[j])@,
            ),
    ensures
        forall|i: int, j: int|
            0 <= i < j < final(sorted)@.len() ==> before(
                (#[trigger] final(sorted)@[i])@,
                (#[trigger] final(sorted)@[j])@,
            ),
        forall|y: Seq<char>| #[trigger]
            texts(final(sorted)@).contains(y) <==> texts(old(sorted)@).contains(y) || y == x@,
{
    let mut p: usize = 0;
    while p < sorted.len() && text_before(sorted[p].as_str(), x.as_str())
        invariant
            p <= sorted@.len(),
            *sorted == *old(sorted),
            forall|i: int| 0 <= i < p ==> before((#[trigger] sorted@[i])@, x@),
        decreases sorted@.len() - p,
    {
        p = p + 1;
    }
    let ghost o = old(sorted)@;
    if p < sorted.len() && same_text(sorted[p].as_str(), x.as_str()) {
        assert(texts(o)[p as int] == x@);
        return;
    }
    let ghost given = x;
    sorted.insert(p, x);
    proof {
        let n = sorted@;
        assert(n =~= o.insert(p as int, given));
        if p < o.len() {
            lemma_before_total(o[p as int]@, given@);
        }
        assert forall|i: int, j: int| 0 <= i < j < n.len() implies before(
            (#[trigger] n[i])@,
            (#[trigger] n[j])@,
        ) by {
            if j == p {
                assert(n[i] == o[i]);
            } else if i == p {
                assert(n[j] == o[j - 1]);
                if j - 1 > p {
                    lemma_before_transitive(given@, o[p as int]@, o[j - 1]@);
                }
            } else if i < p && j < p {
                assert(n[i] == o[i] && n[j] == o[j]);
            } else if i < p {
                assert(n[i] == o[i] && n[j] == o[j - 1]);
            } else {
                assert(n[i] == o[i - 1] && n[j] == o[j - 1]);
            }
        }
        assert forall|y: Seq<char>| #[trigger] texts(n).contains(y) <==> texts(o).contains(y) || y
            == given@ by {
            if texts(o).contains(y) {
                let k = choose|k: int| 0 <= k < o.len() && texts(o)[k] == y;
                if k < p {
                    assert(texts(n)[k] == y);
                } else {
                    assert(texts(n)[k + 1] == y);
                }
            }
            assert(texts(n)[p as int] == given@);
            if texts(n).contains(y) {
                let k = choose|k: int| 0 <= k < n.len() && texts(n)[k] == y;
                if k < p {
                    assert(texts(o)[k] == y);
                } else if k > p {
                    assert(texts(o)[k - 1] == y);
                }
            }
        }
    }
}

/// Sorts texts and drops repetitions.
pub fn sorted_set(given: &[String]) -> (r: Vec<String>)
    ensures
        is_sorted_set(texts(given@), texts(r@)),
{
    let mut r: Vec<String> = Vec::new();
    let mut i: usize = 0;
    while i < given.len()
        invariant
            i <= given@.len(),
            forall|k: int, l: int|
                0 <= k < l < r@.len() ==> before((#[trigger] r@[k])@, (#[trigger] r@[l])@),
            forall|x: Seq<char>| #[trigger]
                texts(given@.take(i as int)).contains(x) <==> texts(r@).contains(x),
        decreases given@.len() - i,
    {
        let ghost o = r@;
        insert_text(&mut r, given[i].clone());
        proof {
            let a = texts(given@.take(i as int));
            let b = texts(given@.take(i + 1));
            assert(b =~= a.push(given@[i as int]@));
            assert forall|x: Seq<char>| #[trigger] b.contains(x) <==> texts(r@).contains(x) by {
                if b.contains(x) {
                    let k = choose|k: int| 0 <= k < b.len() && b[k] == x;
                    if k < i {
                        assert(a[k] == x);
                        assert(a.contains(x));
                    }
                }
                if texts(r@).contains(x) {
                    if texts(o).contains(x) {
                        assert(a.contains(x));
                        let k = choose|k: int| 0 <= k < a.len() && a[k] == x;
                        assert(b[k] == x);
                    } else {
                        assert(b[i as int] == x);
                    }
                }
            }
        }
        i = i + 1;
    }
    assert(given@.take(i as int) =~= given@);
    assert forall|k: int, l: int| 0 <= k < l < texts(r@).len() implies before(
        #[trigger] texts(r@)[k],
        #[trigger] texts(r@)[l],
    ) by {
        assert(before(r@[k]@, r@[l]@));
    }
    r
}

/// Digits go by their codes: `0` to `9`, and from ten on `a` to `f`.
pub proof fn law_digits_by_code(d: nat)
    requires
        d < 16,
    ensures
        d < 10 ==> digit(d) as u32 == '0' as u32 + d,
        d >= 10 ==> digit(d) as u32 == 'a' as u32 + d - 10,
{
}

/// A number in writing has no leading zeros, its last digit is what a division by the base
/// leaves over, and the digits in front of it are those of the quotient.
pub proof fn law_written_digits(n: nat, base: nat)
    requires
        2 <= base <= 16,
    ensures
        written(n, base).len() >= 1,
        written(n, base).last() == digit(n % base),
        n >= base ==> written(n, base).drop_last() == written(n / base, base),
        n < base ==> written(n, base).len() == 1,
        n > 0 ==> written(n, base)[0] != '0',
        forall|i: int|
            0 <= i < written(n, base).len() ==> exists|d: nat|
                d < base && #[trigger] written(n, base)[i] == #[trigger] digit(d),
    decreases n,
{
    assert(n % base < base) by (nonlinear_arith)
        requires
            base >= 2,
    ;
    if n >= base {
        let q = n / base;
        assert(0 < q < n) by (nonlinear_arith)
            requires
                q == n / base,
                n >= base,
                base >= 2,
        ;
        law_written_digits(q, base);
        let front = written(q, base);
        assert(written(n, base).drop_last() =~= front);
        assert(written(n, base)[0] == front[0]);
        assert forall|i: int| 0 <= i < written(n, base).len() implies exists|d: nat|
            d < base && #[trigger] written(n, base)[i] == #[trigger] digit(d) by {
            if i < front.len() {
                let d = choose|d: nat| d < base && front[i] == #[trigger] digit(d);
                assert(written(n, base)[i] == digit(d));
            } else {
                assert(written(n, base)[i] == digit(n % base));
            }
        }
    } else {
        assert(n % base == n) by (nonlinear_arith)
            requires
                n < base,
        ;
        assert(written(n, base)[0] == digit(n));
    }
}

/// A text that is padded ends in the text, has at least the width, and only zeros in front.
pub proof fn law_padding(s: Seq<char>, width: nat)
    ensures
        zero_padded(s, width).len() == (if s.len() < width {
            width
        } else {
            s.len()
        }),
        s.len() <= zero_padded(s, width).len(),
        zero_padded(s, width).skip(zero_padded(s, width).len() - s.len()) == s,
        forall|i: int|
            0 <= i < zero_padded(s, width).len() - s.len() ==> #[trigger] zero_padded(s, width)[i]
                == '0',
{
    assert(zero_padded(s, width).skip(zero_padded(s, width).len() - s.len()) =~= s);
}

/// A negative number has a minus in front of what its opposite is written as.
pub proof fn law_signs(n: int)
    ensures
        n >= 0 ==> signed(n) == written(n as nat, 10),
        n < 0 ==> signed(n) == seq!['-'] + signed(-n),
{
}

/// A trimmed text is a part of the text with white space around it, and has none at its
/// own ends.
pub proof fn law_trimming(s: Seq<char>) -> (r: (Seq<char>, Seq<char>))
    ensures
        s == r.0 + trimmed(s) + r.1,
        blank(r.0),
        blank(r.1),
        trimmed(s).len() > 0 ==> !white(trimmed(s)[0]) && !white(trimmed(s).last()),
{
    let a = lemma_start_split(s);
    let t = trimmed_start(s);
    let b = lemma_end_split(t);
    assert(s =~= a + trimmed(s) + b);
    if trimmed(s).len() > 0 {
        assert(trimmed(s)[0] == t[0]);
    }
    (a, b)
}

proof fn lemma_start_split(s: Seq<char>) -> (a: Seq<char>)
    ensures
        s == a + trimmed_start(s),
        blank(a),
        trimmed_start(s).len() > 0 ==> !white(trimmed_start(s)[0]),
    decreases s.len(),
{
    if s.len() > 0 && white(s[0]) {
        let a = lemma_start_split(s.skip(1));
        let r = seq![s[0]] + a;
        assert(s =~= seq![s[0]] + s.skip(1));
        assert(seq![s[0]] + (a + trimmed_start(s)) =~= r + trimmed_start(s));
        assert forall|i: int| 0 <= i < r.len() implies white(#[trigger] r[i]) by {
            if i > 0 {
                assert(r[i] == a[i - 1]);
            }
        }
        r
    } else {
        assert(s =~= Seq::<char>::empty() + s);
        Seq::empty()
    }
}

proof fn lemma_end_split(s: Seq<char>) -> (b: Seq<char>)
    ensures
        s == trimmed_end(s) + b,
        blank(b),
        trimmed_end(s).len() > 0 ==> !white(trimmed_end(s).last()),
    decreases s.len(),
{
    if s.len() > 0 && white(s.last()) {
        let b = lemma_end_split(s.drop_last());
        let r = b.push(s.last());
        assert(s =~= s.drop_last().push(s.last()));
        assert((trimmed_end(s) + b).push(s.last()) =~= trimmed_end(s) + r);
        assert forall|i: int| 0 <= i < r.len() implies white(#[trigger] r[i]) by {
            if i < b.len() {
                assert(r[i] == b[i]);
            }
        }
        r
    } else {
        assert(s =~= s + Seq::<char>::empty());
        Seq::empty()
    }
}

/// The white characters of ASCII are the blank and the five from tabulator to carriage
/// return; no letter, digit or mark is among them.
pub proof fn law_ascii_white_space(c: char)
    requires
        c < '\u{80}',
    ensures
        white(c) <==> c == ' ' || c == '\t' || c == '\n' || c == '\u{b}' || c == '\u{c}' || c
            == '\r',
{
}

/// Capitals and small letters of ASCII are thirty-two codes apart, and nothing else changes.
pub proof fn law_ascii_case(c: char)
    ensures
        'A' <= c && c <= 'Z' ==> ascii_lower(c) as u32 == c as u32 + 32 && ascii_upper(
            ascii_lower(c),
        ) == c,
        'a' <= c && c <= 'z' ==> ascii_upper(c) as u32 == c as u32 - 32 && ascii_lower(
            ascii_upper(c),
        ) == c,
        !('A' <= c && c <= 'Z') ==> ascii_lower(c) == c,
        !('a' <= c && c <= 'z') ==> ascii_upper(c) == c,
        ascii_letter(c) <==> ascii_lower(c) != c || ascii_upper(c) != c,
{
}

/// A prefix is taken off once, where it is there.
pub proof fn law_prefixes(s: Seq<char>, prefix: Seq<char>)
    ensures
        without_prefix(prefix + s, prefix) == s,
        without_prefix(s, prefix) == s || prefix + without_prefix(s, prefix) == s,
        without_prefix(s, prefix) == s && prefix.len() > 0 ==> !prefix.is_prefix_of(s),
{
    assert((prefix + s).subrange(0, prefix.len() as int) =~= prefix);
    assert((prefix + s).skip(prefix.len() as int) =~= s);
    if prefix.is_prefix_of(s) {
        assert(prefix + s.skip(prefix.len() as int) =~= s);
    }
}

/// The first character in which two texts differ decides which comes first, and a text
/// comes before its continuations.
pub proof fn law_order_of_texts(common: Seq<char>, a: Seq<char>, b: Seq<char>)
    ensures
        a.len() > 0 && b.len() > 0 && a[0] != b[0] ==> (before(common + a, common + b) <==> a[0]
            < b[0]),
        a.len() == 0 && b.len() > 0 ==> before(common + a, common + b),
        b.len() == 0 ==> !before(common + a, common + b),
    decreases common.len(),
{
    if common.len() > 0 {
        law_order_of_texts(common.skip(1), a, b);
        assert((common + a).skip(1) =~= common.skip(1) + a);
        assert((common + b).skip(1) =~= common.skip(1) + b);
        assert((common + a)[0] == common[0] && (common + b)[0] == common[0]);
        if b.len() == 0 {
            assert(common.skip(1) + b =~= common.skip(1));
        }
    } else {
        assert(common + a =~= a);
        assert(common + b =~= b);
    }
}

/// A sorted set holds what was given, once and in order.
pub proof fn law_sorted_sets(
    given: Seq<Seq<char>>,
    r: Seq<Seq<char>>,
    x: Seq<char>,
    i: int,
    j: int,
)
    requires
        is_sorted_set(given, r),
    ensures
        given.contains(x) <==> r.contains(x),
        0 <= i < j < r.len() ==> before(r[i], r[j]) && r[i] != r[j],
{
    if 0 <= i < j < r.len() {
        lemma_before_total(r[i], r[j]);
    }
}

/// The white characters by their codes.
pub proof fn law_white_space_by_code(c: char)
    ensures
        white(c) <==> {
            let n = c as u32;
            ||| 0x9 <= n <= 0xd
            ||| n == 0x20
            ||| n == 0x85
            ||| n == 0xa0
            ||| n == 0x1680
            ||| 0x2000 <= n <= 0x200a
            ||| n == 0x2028
            ||| n == 0x2029
            ||| n == 0x202f
            ||| n == 0x205f
            ||| n == 0x3000
        },
{
}

/// The characters of several texts are those of each.
pub proof fn law_characters_of_texts(s: Seq<String>, i: int)
    requires
        0 <= i < s.len(),
    ensures
        texts(s).len() == s.len(),
        texts(s)[i] == s[i]@,
{
}

} // verus!
