//! Bytes and numbers.

use vstd::prelude::*;
use vstd::utf8;

verus! {

/// The ASCII digit 0.
pub const DIGIT_0: u8 = 0x30;

/// The ASCII digit 9.
pub const DIGIT_9: u8 = 0x39;

/// The ASCII plus sign.
pub const PLUS: u8 = 0x2b;

/// The ASCII minus sign.
pub const MINUS: u8 = 0x2d;

/// A copy of a byte slice.
pub fn copied(bytes: &[u8]) -> (r: Vec<u8>)
    ensures
        r@ == bytes@,
{
    let mut r: Vec<u8> = Vec::with_capacity(bytes.len());
    for i in 0..bytes.len()
        invariant
            r@ == bytes@.take(i as int),
    {
        r.push(bytes[i]);
        assert(r@ =~= bytes@.take(i + 1));
    }
    assert(r@ =~= bytes@);
    r
}

/// Whether two byte slices hold the same bytes.
pub fn same_bytes(a: &[u8], b: &[u8]) -> (r: bool)
    ensures
        r == (a@ == b@),
{
    if a.len() != b.len() {
        return false;
    }
    for i in 0..a.len()
        invariant
            a@.len() == b@.len(),
            forall|k: int| 0 <= k < i ==> a@[k] == b@[k],
    {
        if a[i] != b[i] {
            return false;
        }
    }
    assert(a@ =~= b@);
    true
}

/// Whether `prefix` stands at the start of `bytes`.
pub open spec fn has_prefix(bytes: Seq<u8>, prefix: Seq<u8>) -> bool {
    prefix.len() <= bytes.len() && bytes.take(prefix.len() as int) == prefix
}

/// Whether `part` stands in `bytes` from `at` on.
pub fn stands_at(bytes: &[u8], at: usize, part: &[u8]) -> (r: bool)
    requires
        at <= bytes@.len(),
    ensures
        r == has_prefix(bytes@.skip(at as int), part@),
{
    let len: usize = bytes.len();
    if len - at < part.len() {
        return false;
    }
    let ghost rest = bytes@.skip(at as int);
    for i in 0..part.len()
        invariant
            len == bytes@.len(),
            at + part@.len() <= len,
            rest == bytes@.skip(at as int),
            forall|k: int| 0 <= k < i ==> rest[k] == part@[k],
    {
        if bytes[at + i] != part[i] {
            assert(rest[i as int] == rest.take(part@.len() as int)[i as int]);
            return false;
        }
    }
    assert(rest.take(part@.len() as int) =~= part@);
    true
}

/// `std::str::from_utf8`, with the error dropped.
///
/// Claimed: it succeeds exactly on well-formed UTF-8, and gives the text that the
/// bytes encode.
#[verifier::external_body]
pub(crate) fn read_utf8(bytes: &[u8]) -> (r: Option<&str>)
    ensures
        match r {
            Some(s) => utf8::encode_utf8(s@) == bytes@,
            None => !utf8::valid_utf8(bytes@),
        },
{
    std::str::from_utf8(bytes).ok()
}

/// `String::push`: the character comes to stand at the end.
pub assume_specification[ String::push ](s: &mut String, c: char)
    ensures
        final(s)@ == old(s)@.push(c),
;

/// `String::pop`: the last character is taken off, where there is one.
pub assume_specification[ String::pop ](s: &mut String) -> (c: Option<char>)
    ensures
        old(s)@.len() == 0 ==> c is None && final(s)@ == old(s)@,
        old(s)@.len() > 0 ==> c == Some(old(s)@.last()) && final(s)@ == old(s)@.drop_last(),
;

/// The characters of a string.
pub fn chars_of(s: &str) -> (r: Vec<char>)
    ensures
        r@ == s@,
{
    let mut r: Vec<char> = Vec::new();
    for c in it: s.chars()
        invariant
            it.seq() == s@,
            r@ == s@.take(it.index()),
    {
        r.push(c);
        assert(r@ =~= s@.take(it.index() + 1));
    }
    assert(r@ =~= s@);
    r
}

/// Whether two strings hold the same characters.
pub fn same_text(a: &str, b: &str) -> (r: bool)
    ensures
        r == (a@ == b@),
{
    let same = same_bytes(a.as_bytes(), b.as_bytes());
    proof {
        utf8::encode_utf8_decode_utf8(a@);
        utf8::encode_utf8_decode_utf8(b@);
    }
    same
}

/// A character with the Unicode property `White_Space`.
pub open spec fn is_white_space(c: char) -> bool {
    let n = c as u32;
    ||| 0x09 <= n <= 0x0d
    ||| n == 0x20
    ||| n == 0x85
    ||| n == 0xa0
    ||| n == 0x1680
    ||| 0x2000 <= n <= 0x200a
    ||| n == 0x2028
    ||| n == 0x2029
    ||| n == 0x202f
    ||| n == 0x205f
    ||| n == 0x3000
}

/// Whether a character is white space.
pub fn white_space(c: char) -> (r: bool)
    ensures
        r == is_white_space(c),
{
    let n: u32 = c as u32;
    (0x09 <= n && n <= 0x0d) || n == 0x20 || n == 0x85 || n == 0xa0 || n == 0x1680 || (0x2000 <= n
        && n <= 0x200a) || n == 0x2028 || n == 0x2029 || n == 0x202f || n == 0x205f || n == 0x3000
}

/// Whether a text is empty or all white space.
pub open spec fn is_blank_text(chars: Seq<char>) -> bool {
    forall|i: int| 0 <= i < chars.len() ==> is_white_space(#[trigger] chars[i])
}

/// Whether a text is empty or all white space.
pub fn blank_text(s: &str) -> (r: bool)
    ensures
        r == is_blank_text(s@),
{
    let chars = chars_of(s);
    for i in 0..chars.len()
        invariant
            chars@ == s@,
            forall|k: int| 0 <= k < i ==> is_white_space(#[trigger] s@[k]),
    {
        if !white_space(chars[i]) {
            assert(!is_white_space(s@[i as int]));
            return false;
        }
    }
    true
}

/// A text without the white space at its end.
pub open spec fn trimmed_end(chars: Seq<char>) -> Seq<char>
    decreases chars.len(),
{
    if chars.len() > 0 && is_white_space(chars.last()) {
        trimmed_end(chars.drop_last())
    } else {
        chars
    }
}

/// How many characters remain when the white space at the end is trimmed.
pub fn trimmed_end_len(chars: &Vec<char>) -> (n: usize)
    ensures
        n <= chars@.len(),
        chars@.take(n as int) == trimmed_end(chars@),
{
    let mut n: usize = chars.len();
    assert(chars@.take(n as int) =~= chars@);
    while n > 0 && white_space(chars[n - 1])
        invariant
            n <= chars@.len(),
            trimmed_end(chars@.take(n as int)) == trimmed_end(chars@),
        decreases n,
    {
        assert(chars@.take(n as int).drop_last() =~= chars@.take(n - 1));
        n -= 1;
    }
    n
}

/// A number in decimal, as ASCII digits.
pub open spec fn decimal(n: nat) -> Seq<u8>
    decreases n,
{
    if n < 10 {
        seq![(n + DIGIT_0) as u8]
    } else {
        decimal(n / 10).push((n % 10 + DIGIT_0) as u8)
    }
}

/// Appends a number in decimal.
pub fn push_decimal(out: &mut Vec<u8>, n: usize)
    ensures
        final(out)@ == old(out)@ + decimal(n as nat),
    decreases n,
{
    if n < 10 {
        out.push(n as u8 + DIGIT_0);
    } else {
        push_decimal(out, n / 10);
        out.push((n % 10) as u8 + DIGIT_0);
    }
    assert(out@ =~= old(out)@ + decimal(n as nat));
}

pub open spec fn is_digit(b: u8) -> bool {
    DIGIT_0 <= b <= DIGIT_9
}

pub open spec fn all_digits(s: Seq<u8>) -> bool {
    forall|i: int| 0 <= i < s.len() ==> is_digit(#[trigger] s[i])
}

/// The value of a string of decimal digits.
pub open spec fn digits_value(digits: Seq<u8>) -> int
    decreases digits.len(),
{
    if digits.len() == 0 {
        0
    } else {
        digits_value(digits.drop_last()) * 10 + (digits.last() - DIGIT_0)
    }
}

/// The number that a string spells: an optional sign and decimal digits, within
/// the range of `i32`.
pub open spec fn spelled_i32(s: Seq<u8>) -> Option<i32> {
    let negative = s.len() > 0 && s[0] == MINUS;
    let signed = negative || s.len() > 0 && s[0] == PLUS;
    let digits = if signed {
        s.skip(1)
    } else {
        s
    };
    let value = if negative {
        -digits_value(digits)
    } else {
        digits_value(digits)
    };
    if digits.len() > 0 && all_digits(digits) && i32::MIN <= value <= i32::MAX {
        Some(value as i32)
    } else {
        None
    }
}

/// Reads a signed decimal number.
#[verifier::rlimit(40)]
pub fn parse_i32(s: &[u8]) -> (r: Option<i32>)
    ensures
        r == spelled_i32(s@),
{
    let negative = s.len() > 0 && s[0] == MINUS;
    let signed = negative || s.len() > 0 && s[0] == PLUS;
    let start: usize = if signed { 1 } else { 0 };
    let ghost digits = s@.skip(start as int);
    assert(s@.skip(0) =~= s@);
    if start >= s.len() {
        return None;
    }
    let mut value: i64 = 0;
    let mut over = false;
    let mut i: usize = start;
    assert(digits.take(0) =~= Seq::<u8>::empty());
    while i < s.len()
        invariant
            start <= i <= s@.len(),
            digits == s@.skip(start as int),
            digits == (if signed { s@.skip(1) } else { s@ }),
            signed == (negative || s@.len() > 0 && s@[0] == PLUS),
            negative == (s@.len() > 0 && s@[0] == MINUS),
            forall|k: int| 0 <= k < i - start ==> is_digit(#[trigger] digits[k]),
            over ==> digits_value(digits.take(i - start)) > 0x8000_0000,
            !over ==> value == digits_value(digits.take(i - start)),
            0 <= value <= 0x8000_0000,
        decreases s@.len() - i,
    {
        let b: u8 = s[i];
        assert(digits[i - start] == b);
        if b < DIGIT_0 || b > DIGIT_9 {
            assert(!is_digit(digits[i - start]));
            return None;
        }
        assert(digits.take(i + 1 - start).drop_last() =~= digits.take(i - start));
        if !over {
            let next: i64 = value * 10 + (b - DIGIT_0) as i64;
            if next > 0x8000_0000 {
                over = true;
            } else {
                value = next;
            }
        }
        i += 1;
    }
    assert(digits.take(s@.len() - start) =~= digits);
    if over {
        None
    } else if negative {
        Some((-value) as i32)
    } else if value <= 0x7fff_ffff {
        Some(value as i32)
    } else {
        None
    }
}

/// Trimming takes white space off the end, all of it, and nothing else.
pub proof fn trimming_takes_only_the_end(chars: Seq<char>)
    ensures
        ({
            let n = trimmed_end(chars).len() as int;
            &&& n <= chars.len()
            &&& trimmed_end(chars) == chars.take(n)
            &&& forall|i: int| n <= i < chars.len() ==> is_white_space(#[trigger] chars[i])
            &&& n > 0 ==> !is_white_space(chars[n - 1])
        }),
    decreases chars.len(),
{
    if chars.len() > 0 && is_white_space(chars.last()) {
        let front = chars.drop_last();
        trimming_takes_only_the_end(front);
        let n = trimmed_end(chars).len() as int;
        assert(front.take(n) =~= chars.take(n));
        assert forall|i: int| n <= i < chars.len() implies is_white_space(#[trigger] chars[i]) by {
            if i < front.len() {
                assert(is_white_space(front[i]));
            }
        }
        if n > 0 {
            assert(front[n - 1] == chars[n - 1]);
        }
    } else {
        assert(chars.take(chars.len() as int) =~= chars);
    }
}

/// White space in ASCII is the space and the control characters from tab to
/// carriage return; beyond it, the next line, and the spaces and separators of
/// Unicode.
pub proof fn white_space_is_no_glyph(c: char)
    ensures
        c as u32 <= 0x9f ==> is_white_space(c) == (c == ' ' || c == '\t' || c == '\n' || c == '\r'
            || c as u32 == 0x0b || c as u32 == 0x0c || c as u32 == 0x85),
        0xa0 <= c as u32 ==> is_white_space(c) == (c == '\u{a0}' || c == '\u{1680}' || '\u{2000}'
            <= c <= '\u{200a}' || c == '\u{2028}' || c == '\u{2029}' || c == '\u{202f}' || c
            == '\u{205f}' || c == '\u{3000}'),
{
}

/// A number in decimal is digits, without a leading zero but for zero itself, and
/// spells the number.
pub proof fn decimal_spells_the_number(n: nat)
    ensures
        decimal(n).len() > 0,
        forall|i: int| 0 <= i < decimal(n).len() ==> 0x30 <= #[trigger] decimal(n)[i] <= 0x39,
        digits_value(decimal(n)) == n,
        n > 0 ==> decimal(n)[0] != 0x30,
        n <= 9 ==> decimal(n).len() == 1,
    decreases n,
{
    if n < 10 {
        assert(decimal(n).drop_last() =~= Seq::<u8>::empty());
        assert(digits_value(decimal(n).drop_last()) == 0);
    } else {
        decimal_spells_the_number(n / 10);
        assert(decimal(n).drop_last() =~= decimal(n / 10));
        assert(decimal(n)[0] == decimal(n / 10)[0]);
    }
}

/// Reading a number that was written in decimal gives the number, with or without
/// a sign before it; what is no number in the range of `i32` gives none.
pub proof fn reading_undoes_writing(n: nat)
    ensures
        spelled_i32(decimal(n)) == if n <= 0x7fff_ffff {
            Some(n as i32)
        } else {
            None
        },
        spelled_i32(seq![0x2bu8] + decimal(n)) == spelled_i32(decimal(n)),
        spelled_i32(seq![0x2du8] + decimal(n)) == if n <= 0x8000_0000 {
            Some((-(n as int)) as i32)
        } else {
            None
        },
{
    decimal_spells_the_number(n);
    let d = decimal(n);
    assert((seq![0x2bu8] + d).skip(1) =~= d);
    assert((seq![0x2du8] + d).skip(1) =~= d);
    assert(0x30 <= d[0] <= 0x39);
    assert(all_digits(d));
}

/// The value of a string of digits grows tenfold with each digit that is added.
pub proof fn digits_are_decimal(s: Seq<u8>, b: u8)
    ensures
        digits_value(s.push(b)) == digits_value(s) * 10 + b - 0x30,
        spelled_i32(Seq::empty()) is None,
{
    assert(s.push(b).drop_last() =~= s);
}

/// A string with a byte in it that is no digit, behind the sign, spells no number.
pub proof fn only_digits_spell_a_number(s: Seq<u8>, i: int)
    requires
        0 <= i < s.len(),
        !(0x30 <= s[i] <= 0x39),
        i > 0 || s[0] != 0x2b && s[0] != 0x2d || s.len() == 1,
    ensures
        spelled_i32(s) is None,
{
    let rest = s.skip(1);
    if i > 0 {
        assert(rest[i - 1] == s[i]);
        assert(!is_digit(rest[i - 1]));
    }
    assert(!is_digit(s[i]));
}

} // verus!
