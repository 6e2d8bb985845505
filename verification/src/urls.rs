//! URL detection within a row of terminal text.
//!
//! Terminal text is messy, so this is no full URL parser. The rules:
//!
//! - A URL starts with `https://`, `http://` or `file://`.
//! - It extends until white space or an ASCII control character, or a closing
//!   parenthesis that it did not open.
//! - Trailing `.`, `,`, `;`, `:`, `!`, `?`, `)`, `]`, `}`, `'`, `"`, `>` are
//!   stripped. A closing parenthesis stays where the URL opens one.
//! - A scheme with nothing behind it is no URL.

use std::ops::Range;

use vstd::prelude::*;
use vstd::utf8;

use crate::text;
use crate::vt;

verus! {

/// `https://`.
pub open spec fn https() -> Seq<u8> {
    seq![0x68u8, 0x74u8, 0x74u8, 0x70u8, 0x73u8, 0x3au8, 0x2fu8, 0x2fu8]
}

/// `http://`.
pub open spec fn http() -> Seq<u8> {
    seq![0x68u8, 0x74u8, 0x74u8, 0x70u8, 0x3au8, 0x2fu8, 0x2fu8]
}

/// `file://`.
pub open spec fn file() -> Seq<u8> {
    seq![0x66u8, 0x69u8, 0x6cu8, 0x65u8, 0x3au8, 0x2fu8, 0x2fu8]
}

/// The length of the scheme at the start of `s`; 0 where there is none.
pub open spec fn scheme_len(s: Seq<u8>) -> int {
    if text::has_prefix(s, https()) {
        8
    } else if text::has_prefix(s, http()) || text::has_prefix(s, file()) {
        7
    } else {
        0
    }
}

/// Whether a character of white space stands in `s` at `at`.
pub open spec fn white_at(s: Seq<u8>, at: int) -> bool {
    exists|c: char|
        text::is_white_space(c) && #[trigger] text::has_prefix(s.skip(at), vt::encoded(c))
}

/// Whether every URL ends at `at`: white space or an ASCII control character
/// stands there.
pub open spec fn is_stop(s: Seq<u8>, at: int) -> bool {
    s[at] <= 0x1f || s[at] == 0x7f || white_at(s, at)
}

/// Where a URL that has come to `end` with `depth` open parentheses stops.
pub open spec fn stop_at(s: Seq<u8>, end: int, depth: int) -> int
    decreases s.len() - end,
{
    if end < 0 || end >= s.len() || is_stop(s, end) {
        end
    } else if s[end] == 0x28 {
        stop_at(s, end + 1, depth + 1)
    } else if s[end] == 0x29 {
        if depth == 0 {
            end
        } else {
            stop_at(s, end + 1, depth - 1)
        }
    } else {
        stop_at(s, end + 1, depth)
    }
}

/// Punctuation that does not end a URL.
pub open spec fn is_trailing(b: u8) -> bool {
    ||| b == 0x2e
    ||| b == 0x2c
    ||| b == 0x3b
    ||| b == 0x3a
    ||| b == 0x21
    ||| b == 0x3f
    ||| b == 0x29
    ||| b == 0x5d
    ||| b == 0x7d
    ||| b == 0x27
    ||| b == 0x22
    ||| b == 0x3e
}

/// The end without trailing punctuation, but not before `least`.
pub open spec fn stripped(s: Seq<u8>, least: int, end: int, opened: bool) -> int
    decreases end,
{
    if 0 <= least < end <= s.len() && is_trailing(s[end - 1]) && !(s[end - 1] == 0x29 && opened) {
        stripped(s, least, end - 1, opened)
    } else {
        end
    }
}

/// Whether an opening parenthesis stands in `s[start..end]`.
pub open spec fn opens(s: Seq<u8>, start: int, end: int) -> bool {
    exists|i: int| start <= i < end && #[trigger] s[i] == 0x28
}

/// Where the URL that starts at `start` ends; its scheme takes `n` bytes.
pub open spec fn url_end(s: Seq<u8>, start: int, n: int) -> int {
    let stop = stop_at(s, start + n, 0);
    stripped(s, start + n, stop, opens(s, start, stop))
}

/// The bytes of white space in UTF-8.
spec fn white_bytes(s: Seq<u8>, at: int) -> bool {
    let two = at + 1 < s.len();
    let three = at + 2 < s.len();
    ||| 0x09 <= s[at] <= 0x0d
    ||| s[at] == 0x20
    ||| two && s[at] == 0xc2 && (s[at + 1] == 0x85 || s[at + 1] == 0xa0)
    ||| three && s[at] == 0xe1 && s[at + 1] == 0x9a && s[at + 2] == 0x80
    ||| three && s[at] == 0xe2 && s[at + 1] == 0x80 && (0x80 <= s[at + 2] <= 0x8a || s[at + 2]
        == 0xa8 || s[at + 2] == 0xa9 || s[at + 2] == 0xaf)
    ||| three && s[at] == 0xe2 && s[at + 1] == 0x81 && s[at + 2] == 0x9f
    ||| three && s[at] == 0xe3 && s[at + 1] == 0x80 && s[at + 2] == 0x80
}

/// The encoding of a character of up to two bytes.
proof fn encoded_short(c: char)
    ensures
        c as u32 <= 0x7f ==> vt::encoded(c).len() == 1 && vt::encoded(c)[0] == c as u32,
        c as u32 == 0x85 ==> vt::encoded(c) == seq![0xc2u8, 0x85u8],
        c as u32 == 0xa0 ==> vt::encoded(c) == seq![0xc2u8, 0xa0u8],
{
    let v = c as u32;
    if v <= 0x7f {
        assert((v & 0x7f) as u8 as u32 == v) by (bit_vector)
            requires
                v <= 0x7f,
        ;
    }
    assert(0xc0u8 | ((0x85u32 >> 6) & 0x1f) as u8 == 0xc2u8) by (bit_vector);
    assert(0x80u8 | (0x85u32 & 0x3f) as u8 == 0x85u8) by (bit_vector);
    assert(0xc0u8 | ((0xa0u32 >> 6) & 0x1f) as u8 == 0xc2u8) by (bit_vector);
    assert(0x80u8 | (0xa0u32 & 0x3f) as u8 == 0xa0u8) by (bit_vector);
}

/// The encoding of white space of three bytes.
proof fn encoded_long(c: char)
    requires
        text::is_white_space(c),
        c as u32 > 0xa0,
    ensures
        vt::encoded(c) == seq![
            if c as u32 == 0x1680 {
                0xe1u8
            } else if c as u32 == 0x3000 {
                0xe3u8
            } else {
                0xe2u8
            },
            if c as u32 == 0x1680 {
                0x9au8
            } else if c as u32 == 0x205f {
                0x81u8
            } else {
                0x80u8
            },
            if c as u32 == 0x205f {
                0x9fu8
            } else if 0x2000 <= c as u32 <= 0x202f {
                (c as u32 - 0x2000 + 0x80) as u8
            } else {
                0x80u8
            },
        ],
{
    let v = c as u32;
    assert(v == 0x1680 ==> 0xe0u8 | ((v >> 12) & 0x0f) as u8 == 0xe1u8 && 0x80u8 | ((v >> 6)
        & 0x3f) as u8 == 0x9au8 && 0x80u8 | (v & 0x3f) as u8 == 0x80u8) by (bit_vector);
    assert(v == 0x3000 ==> 0xe0u8 | ((v >> 12) & 0x0f) as u8 == 0xe3u8 && 0x80u8 | ((v >> 6)
        & 0x3f) as u8 == 0x80u8 && 0x80u8 | (v & 0x3f) as u8 == 0x80u8) by (bit_vector);
    assert(v == 0x205f ==> 0xe0u8 | ((v >> 12) & 0x0f) as u8 == 0xe2u8 && 0x80u8 | ((v >> 6)
        & 0x3f) as u8 == 0x81u8 && 0x80u8 | (v & 0x3f) as u8 == 0x9fu8) by (bit_vector);
    assert(0x2000 <= v <= 0x202f ==> 0xe0u8 | ((v >> 12) & 0x0f) as u8 == 0xe2u8 && 0x80u8 | ((v
        >> 6) & 0x3f) as u8 == 0x80u8 && 0x80u8 | (v & 0x3f) as u8 == (v - 0x2000 + 0x80) as u8)
        by (bit_vector);
}

proof fn white_is_bytes(s: Seq<u8>, at: int)
    requires
        0 <= at < s.len(),
    ensures
        white_at(s, at) == white_bytes(s, at),
        white_at(s, at) ==> !utf8::is_continuation_byte(s[at]),
{
    if white_at(s, at) {
        let c = choose|c: char|
            text::is_white_space(c) && #[trigger] text::has_prefix(s.skip(at), vt::encoded(c));
        let part = vt::encoded(c);
        encoded_short(c);
        if c as u32 > 0xa0 {
            encoded_long(c);
        }
        let start = s.skip(at).take(part.len() as int);
        assert(start == part);
        assert(start[0] == s[at]);
        if part.len() > 1 {
            assert(start[1] == s[at + 1]);
        }
        if part.len() > 2 {
            assert(start[2] == s[at + 2]);
        }
    }
    if white_bytes(s, at) {
        let n: int = if s[at] <= 0x20 {
            s[at] as int
        } else if s[at] == 0xc2 {
            s[at + 1] as int
        } else if s[at] == 0xe1 {
            0x1680
        } else if s[at] == 0xe3 {
            0x3000
        } else if s[at + 1] == 0x81 {
            0x205f
        } else {
            s[at + 2] - 0x80 + 0x2000
        };
        let c = n as char;
        assert(c as u32 == n);
        encoded_short(c);
        if n > 0xa0 {
            encoded_long(c);
        }
        let part = vt::encoded(c);
        assert(s.skip(at).take(part.len() as int) =~= part);
        assert(text::has_prefix(s.skip(at), vt::encoded(c)));
    }
}

proof fn stop_in_bounds(s: Seq<u8>, end: int, depth: int)
    requires
        0 <= end <= s.len(),
    ensures
        end <= stop_at(s, end, depth) <= s.len(),
        stop_at(s, end, depth) < s.len() ==> is_stop(s, stop_at(s, end, depth)) || s[stop_at(
            s,
            end,
            depth,
        )] == 0x29,
    decreases s.len() - end,
{
    if end < s.len() && !is_stop(s, end) {
        if s[end] == 0x28 {
            stop_in_bounds(s, end + 1, depth + 1);
        } else if s[end] == 0x29 {
            if depth != 0 {
                stop_in_bounds(s, end + 1, depth - 1);
            }
        } else {
            stop_in_bounds(s, end + 1, depth);
        }
    }
}

proof fn stripped_in_bounds(s: Seq<u8>, least: int, end: int, opened: bool)
    requires
        0 <= least <= end <= s.len(),
    ensures
        least <= stripped(s, least, end, opened) <= end,
        stripped(s, least, end, opened) < end ==> is_trailing(s[stripped(s, least, end, opened)]),
    decreases end,
{
    if least < end && is_trailing(s[end - 1]) && !(s[end - 1] == 0x29 && opened) {
        stripped_in_bounds(s, least, end - 1, opened);
    }
}

/// The end of a URL lies behind its scheme and within the text, and a character
/// starts there.
proof fn url_end_in_bounds(s: Seq<u8>, start: int)
    requires
        0 <= start <= s.len(),
        scheme_len(s.skip(start)) > 0,
    ensures
        start + scheme_len(s.skip(start)) <= url_end(s, start, scheme_len(s.skip(start)))
            <= s.len(),
        url_end(s, start, scheme_len(s.skip(start))) < s.len() ==> !utf8::is_continuation_byte(
            s[url_end(s, start, scheme_len(s.skip(start)))],
        ),
{
    let n = scheme_len(s.skip(start));
    stop_in_bounds(s, start + n, 0);
    let stop = stop_at(s, start + n, 0);
    if stop < s.len() {
        white_is_bytes(s, stop);
    }
    stripped_in_bounds(s, start + n, stop, opens(s, start, stop));
}

/// The URLs in `s` from `i` on, as ranges of bytes.
pub open spec fn urls_from(s: Seq<u8>, i: int) -> Seq<(int, int)>
    decreases s.len() - i,
{
    if i < 0 || i >= s.len() {
        Seq::empty()
    } else {
        let n = scheme_len(s.skip(i));
        let end = url_end(s, i, n);
        if n == 0 || !(i < end <= s.len()) {
            urls_from(s, i + 1)
        } else if end > i + n {
            seq![(i, end)] + urls_from(s, end)
        } else {
            urls_from(s, end)
        }
    }
}

/// A range that is a URL and lies at or behind `i`: it starts with a scheme and
/// goes on behind it, and both its ends fall between characters of a UTF-8 text,
/// since a character starts there or the text ends.
pub open spec fn is_url(s: Seq<u8>, i: int, range: (int, int)) -> bool {
    let (start, end) = range;
    &&& 0 <= i <= start
    &&& 0 < scheme_len(s.skip(start)) < end - start
    &&& end <= s.len()
    &&& s[start] < 0x80
    &&& end < s.len() ==> !utf8::is_continuation_byte(s[end])
}

/// Every range that is found is a URL. The ranges come in order and do not
/// overlap.
pub proof fn urls_are_ranges(s: Seq<u8>, i: int)
    requires
        i >= 0,
    ensures
        forall|k: int|
            0 <= k < urls_from(s, i).len() ==> is_url(s, i, #[trigger] urls_from(s, i)[k]),
        forall|k: int, m: int|
            0 <= k < m < urls_from(s, i).len() ==> (#[trigger] urls_from(s, i)[k]).1 <= (
            #[trigger] urls_from(s, i)[m]).0,
    decreases s.len() - i,
{
    if i < s.len() {
        let n = scheme_len(s.skip(i));
        let end = url_end(s, i, n);
        let all = urls_from(s, i);
        if n == 0 {
            urls_are_ranges(s, i + 1);
            assert(all == urls_from(s, i + 1));
        } else {
            url_end_in_bounds(s, i);
            urls_are_ranges(s, end);
            let rest = urls_from(s, end);
            if end > i + n {
                assert(all == seq![(i, end)] + rest);
                assert(s[i] == 0x68 || s[i] == 0x66) by {
                    assert(https()[0] == 0x68 && http()[0] == 0x68 && file()[0] == 0x66);
                    assert(s.skip(i).take(n)[0] == s[i]);
                }
                assert(is_url(s, i, all[0]));
                assert forall|k: int| 0 <= k < all.len() implies is_url(s, i, #[trigger] all[k]) by {
                    if k > 0 {
                        assert(all[k] == rest[k - 1]);
                        assert(is_url(s, end, rest[k - 1]));
                    }
                }
                assert forall|k: int, m: int| 0 <= k < m < all.len() implies (
                #[trigger] all[k]).1 <= (#[trigger] all[m]).0 by {
                    assert(all[m] == rest[m - 1]);
                    assert(is_url(s, end, rest[m - 1]));
                    if k > 0 {
                        assert(all[k] == rest[k - 1]);
                    }
                }
            } else {
                assert(all == rest);
                assert forall|k: int| 0 <= k < all.len() implies is_url(s, i, #[trigger] all[k]) by {
                    assert(is_url(s, end, rest[k]));
                }
            }
        }
    }
}

fn match_scheme(s: &[u8], at: usize) -> (n: usize)
    requires
        at <= s@.len(),
    ensures
        n == scheme_len(s@.skip(at as int)),
{
    let https: [u8; 8] = [0x68, 0x74, 0x74, 0x70, 0x73, 0x3a, 0x2f, 0x2f];
    let http: [u8; 7] = [0x68, 0x74, 0x74, 0x70, 0x3a, 0x2f, 0x2f];
    let file: [u8; 7] = [0x66, 0x69, 0x6c, 0x65, 0x3a, 0x2f, 0x2f];
    assert(https@ =~= self::https());
    assert(http@ =~= self::http());
    assert(file@ =~= self::file());
    if text::stands_at(s, at, &https) {
        8
    } else if text::stands_at(s, at, &http) || text::stands_at(s, at, &file) {
        7
    } else {
        0
    }
}

fn stops_at(s: &[u8], at: usize) -> (r: bool)
    requires
        at < s@.len(),
    ensures
        r == is_stop(s@, at as int),
{
    proof {
        white_is_bytes(s@, at as int);
    }
    let b: u8 = s[at];
    if b <= 0x20 || b == 0x7f {
        return true;
    }
    if b < 0xc2 || s.len() - at < 2 {
        return false;
    }
    let c: u8 = s[at + 1];
    if b == 0xc2 {
        return c == 0x85 || c == 0xa0;
    }
    if s.len() - at < 3 {
        return false;
    }
    let d: u8 = s[at + 2];
    if b == 0xe2 && c == 0x80 {
        (0x80 <= d && d <= 0x8a) || d == 0xa8 || d == 0xa9 || d == 0xaf
    } else {
        (b == 0xe1 && c == 0x9a && d == 0x80) || (b == 0xe2 && c == 0x81 && d == 0x9f) || (b == 0xe3
            && c == 0x80 && d == 0x80)
    }
}

fn is_trailing_byte(b: u8) -> (r: bool)
    ensures
        r == is_trailing(b),
{
    b == 0x2e || b == 0x2c || b == 0x3b || b == 0x3a || b == 0x21 || b == 0x3f || b == 0x29 || b
        == 0x5d || b == 0x7d || b == 0x27 || b == 0x22 || b == 0x3e
}

fn find_url_end(s: &[u8], start: usize, n: usize) -> (end: usize)
    requires
        start + n <= s@.len(),
        n == scheme_len(s@.skip(start as int)),
        n > 0,
    ensures
        end == url_end(s@, start as int, n as int),
        start + n <= end <= s@.len(),
{
    let len: usize = s.len();
    assert(start + n <= len);
    let least: usize = start + n;
    let mut end: usize = least;
    let mut depth: usize = 0;
    proof {
        url_end_in_bounds(s@, start as int);
        assert(!opens(s@, start as int, least as int)) by {
            assert forall|i: int| start <= i < least implies #[trigger] s@[i] != 0x28 by {
                assert(s@[i] == s@.skip(start as int).take(n as int)[i - start]);
            }
        }
    }
    let mut opened = false;
    while end < s.len() && !stops_at(s, end) && !(s[end] == 0x29 && depth == 0)
        invariant
            start <= least <= end <= s@.len(),
            depth <= end - least,
            stop_at(s@, end as int, depth as int) == stop_at(s@, least as int, 0),
            opened == opens(s@, start as int, end as int),
        decreases s@.len() - end,
    {
        if s[end] == 0x28 {
            assert(s@[end as int] == 0x28);
            depth += 1;
            opened = true;
        } else if s[end] == 0x29 {
            depth -= 1;
        }
        end += 1;
        proof {
            if opens(s@, start as int, end as int) && s@[end - 1] != 0x28 {
                let i = choose|i: int| start <= i < end && #[trigger] s@[i] == 0x28;
                assert(i < end - 1);
            }
        }
    }
    let ghost stop = end as int;
    while end > least && is_trailing_byte(s[end - 1]) && !(s[end - 1] == 0x29 && opened)
        invariant
            least <= end <= s@.len(),
            stripped(s@, least as int, end as int, opened) == stripped(
                s@,
                least as int,
                stop,
                opened,
            ),
        decreases end,
    {
        end -= 1;
    }
    end
}

/// The model of a list of ranges.
pub open spec fn pairs_of(ranges: Seq<Range<usize>>) -> Seq<(int, int)> {
    Seq::new(ranges.len(), |i: int| (ranges[i].start as int, ranges[i].end as int))
}

/// The byte ranges of the URLs in `text`, left to right.
pub fn find_urls(text: &str) -> (out: Vec<Range<usize>>)
    ensures
        pairs_of(out@) == urls_from(utf8::encode_utf8(text@), 0),
{
    let bytes = text.as_bytes();
    let ghost s = bytes@;
    let mut out: Vec<Range<usize>> = Vec::new();
    let mut i: usize = 0;
    assert(pairs_of(out@) + urls_from(s, 0) =~= urls_from(s, 0));
    while i < bytes.len()
        invariant
            s == bytes@,
            i <= s.len(),
            pairs_of(out@) + urls_from(s, i as int) == urls_from(s, 0),
        decreases s.len() - i,
    {
        let n: usize = match_scheme(bytes, i);
        if n == 0 {
            i += 1;
            continue;
        }
        let ghost before = out@;
        let end: usize = find_url_end(bytes, i, n);
        if end > i + n {
            out.push(i..end);
            proof {
                assert(pairs_of(out@) =~= pairs_of(before).push((i as int, end as int)));
                assert(pairs_of(out@) + urls_from(s, end as int) =~= pairs_of(before) + urls_from(
                    s,
                    i as int,
                ));
            }
        }
        i = end;
    }
    assert(pairs_of(out@) + Seq::<(int, int)>::empty() =~= pairs_of(out@));
    out
}

/// Whether an ASCII word stands in `s` at `at`.
pub open spec fn spells(s: Seq<u8>, at: int, word: Seq<char>) -> bool {
    &&& 0 <= at
    &&& at + word.len() <= s.len()
    &&& forall|j: int| 0 <= j < word.len() ==> #[trigger] s[at + j] == word[j] as u32
}

/// The length of the scheme that stands in `s` at `at`; 0 where none does.
pub open spec fn scheme_at(s: Seq<u8>, at: int) -> int {
    if spells(s, at, "https://"@) {
        8
    } else if spells(s, at, "http://"@) || spells(s, at, "file://"@) {
        7
    } else {
        0
    }
}

/// The end of the text, a space or another ASCII control character, or white space
/// beyond ASCII.
pub open spec fn text_breaks(s: Seq<u8>, at: int) -> bool {
    at == s.len() || s[at] <= 0x20 || s[at] == 0x7f || s[at] >= 0x80 && white_at(s, at)
}

/// One of `! " ' ) , . : ; > ? ] }`.
pub open spec fn punctuation(b: u8) -> bool {
    ||| b == 0x21
    ||| b == 0x22
    ||| b == 0x27
    ||| b == 0x29
    ||| b == 0x2c
    ||| b == 0x2e
    ||| b == 0x3a
    ||| b == 0x3b
    ||| b == 0x3e
    ||| b == 0x3f
    ||| b == 0x5d
    ||| b == 0x7d
}

/// How many more parentheses are opened than closed in `s[from..to]`.
pub open spec fn balance(s: Seq<u8>, from: int, to: int) -> int
    decreases to - from,
{
    if to <= from {
        0
    } else {
        balance(s, from, to - 1) + if s[to - 1] == 0x28 {
            1int
        } else if s[to - 1] == 0x29 {
            -1
        } else {
            0
        }
    }
}

/// That a URL from `start`, if it goes on at all, goes on to before `stop`: no text
/// break lies between, every parenthesis that is closed there was opened there, and
/// at `stop` the text breaks or a parenthesis is closed that was not opened.
pub open spec fn runs_to(s: Seq<u8>, start: int, stop: int) -> bool {
    &&& 0 <= start <= stop <= s.len()
    &&& forall|j: int| start <= j < stop ==> !#[trigger] text_breaks(s, j)
    &&& forall|j: int|
        start <= j < stop && #[trigger] s[j] == 0x29 ==> balance(s, start, j) > 0
    &&& text_breaks(s, stop) || s[stop] == 0x29 && balance(s, start, stop) == 0
}

/// That `end` is `stop` with the punctuation before it stripped, down to `least`. A
/// closing parenthesis stays where one was opened from `start` on.
pub open spec fn strips_to(s: Seq<u8>, start: int, least: int, end: int, stop: int) -> bool {
    let opened = exists|i: int| start <= i < stop && #[trigger] s[i] == 0x28;
    &&& least <= end <= stop
    &&& forall|j: int|
        end <= j < stop ==> punctuation(#[trigger] s[j]) && !(s[j] == 0x29 && opened)
    &&& end == least || !punctuation(s[end - 1]) || s[end - 1] == 0x29 && opened
}

proof fn scheme_is_spelled(s: Seq<u8>, at: int)
    requires
        0 <= at <= s.len(),
    ensures
        scheme_len(s.skip(at)) == scheme_at(s, at),
        forall|j: int|
            at < j < at + scheme_at(s, at) ==> #[trigger] s[j] > 0x20 && s[j] < 0x7f && s[j] != 0x68
                && s[j] != 0x66 && s[j] != 0x28 && s[j] != 0x29,
        scheme_at(s, at) > 0 ==> s[at] == 0x68 || s[at] == 0x66,
{
    reveal_strlit("https://");
    reveal_strlit("http://");
    reveal_strlit("file://");
    let rest = s.skip(at);
    assert(text::has_prefix(rest, https()) == spells(s, at, "https://"@)) by {
        if text::has_prefix(rest, https()) {
            assert forall|j: int| 0 <= j < 8 implies #[trigger] s[at + j] == "https://"@[j] as u32 by {
                assert(s[at + j] == rest.take(8)[j]);
            }
        }
        if spells(s, at, "https://"@) {
            assert forall|j: int| 0 <= j < 8 implies rest.take(8)[j] == https()[j] by {
                assert(s[at + j] == "https://"@[j] as u32);
            }
            assert(rest.take(8) =~= https());
        }
    }
    assert(text::has_prefix(rest, http()) == spells(s, at, "http://"@)) by {
        if text::has_prefix(rest, http()) {
            assert forall|j: int| 0 <= j < 7 implies #[trigger] s[at + j] == "http://"@[j] as u32 by {
                assert(s[at + j] == rest.take(7)[j]);
            }
        }
        if spells(s, at, "http://"@) {
            assert forall|j: int| 0 <= j < 7 implies rest.take(7)[j] == http()[j] by {
                assert(s[at + j] == "http://"@[j] as u32);
            }
            assert(rest.take(7) =~= http());
        }
    }
    assert(text::has_prefix(rest, file()) == spells(s, at, "file://"@)) by {
        if text::has_prefix(rest, file()) {
            assert forall|j: int| 0 <= j < 7 implies #[trigger] s[at + j] == "file://"@[j] as u32 by {
                assert(s[at + j] == rest.take(7)[j]);
            }
        }
        if spells(s, at, "file://"@) {
            assert forall|j: int| 0 <= j < 7 implies rest.take(7)[j] == file()[j] by {
                assert(s[at + j] == "file://"@[j] as u32);
            }
            assert(rest.take(7) =~= file());
        }
    }
    let n = scheme_at(s, at);
    assert forall|j: int| at < j < at + n implies #[trigger] s[j] > 0x20 && s[j] < 0x7f && s[j]
        != 0x68 && s[j] != 0x66 && s[j] != 0x28 && s[j] != 0x29 by {
        assert(s[at + (j - at)] == s[j]);
        if spells(s, at, "https://"@) {
            assert(s[at + (j - at)] == "https://"@[j - at] as u32);
        } else if spells(s, at, "http://"@) {
            assert(s[at + (j - at)] == "http://"@[j - at] as u32);
        } else {
            assert(s[at + (j - at)] == "file://"@[j - at] as u32);
        }
    }
    if n > 0 {
        assert(s[at + 0] == s[at]);
    }
}

proof fn stop_is_text_break(s: Seq<u8>, at: int)
    requires
        0 <= at < s.len(),
    ensures
        is_stop(s, at) == text_breaks(s, at),
{
    white_is_bytes(s, at);
}

proof fn balance_from_front(s: Seq<u8>, from: int, to: int)
    requires
        from < to,
    ensures
        balance(s, from, to) == balance(s, from + 1, to) + if s[from] == 0x28 {
            1int
        } else if s[from] == 0x29 {
            -1
        } else {
            0
        },
    decreases to - from,
{
    if from + 1 < to {
        balance_from_front(s, from, to - 1);
    } else {
        assert(balance(s, from, from) == 0);
        assert(balance(s, from + 1, to) == 0);
    }
}

proof fn stop_facts(s: Seq<u8>, end: int, depth: int)
    requires
        0 <= end <= s.len(),
        depth >= 0,
    ensures
        ({
            let stop = stop_at(s, end, depth);
            &&& end <= stop <= s.len()
            &&& forall|j: int| end <= j < stop ==> !#[trigger] text_breaks(s, j)
            &&& forall|j: int|
                end <= j < stop && #[trigger] s[j] == 0x29 ==> depth + balance(s, end, j) > 0
            &&& text_breaks(s, stop) || s[stop] == 0x29 && depth + balance(s, end, stop) == 0
        }),
    decreases s.len() - end,
{
    let stop = stop_at(s, end, depth);
    if end < s.len() {
        stop_is_text_break(s, end);
        if !is_stop(s, end) && !(s[end] == 0x29 && depth == 0) {
            let next = if s[end] == 0x28 {
                depth + 1
            } else if s[end] == 0x29 {
                depth - 1
            } else {
                depth
            };
            stop_facts(s, end + 1, next);
            assert(stop == stop_at(s, end + 1, next));
            assert forall|j: int| end <= j < stop && #[trigger] s[j] == 0x29 implies depth
                + balance(s, end, j) > 0 by {
                if j > end {
                    balance_from_front(s, end, j);
                }
            }
            assert forall|j: int| end <= j < stop implies !#[trigger] text_breaks(s, j) by {
                if j > end {
                    assert(!text_breaks(s, j));
                }
            }
            balance_from_front(s, end, stop);
        }
    }
}

proof fn stripped_facts(s: Seq<u8>, least: int, end: int, opened: bool)
    requires
        0 <= least <= end <= s.len(),
    ensures
        ({
            let r = stripped(s, least, end, opened);
            &&& least <= r <= end
            &&& forall|j: int|
                r <= j < end ==> punctuation(#[trigger] s[j]) && !(s[j] == 0x29 && opened)
            &&& r == least || !punctuation(s[r - 1]) || s[r - 1] == 0x29 && opened
        }),
    decreases end,
{
    if least < end && is_trailing(s[end - 1]) && !(s[end - 1] == 0x29 && opened) {
        stripped_facts(s, least, end - 1, opened);
    }
}

proof fn balance_of_none(s: Seq<u8>, from: int, mid: int, to: int)
    requires
        from <= mid <= to,
        forall|j: int| from <= j < mid ==> #[trigger] s[j] != 0x28 && s[j] != 0x29,
    ensures
        balance(s, from, to) == balance(s, mid, to),
    decreases mid - from,
{
    if from < mid {
        balance_from_front(s, from, to);
        balance_of_none(s, from + 1, mid, to);
    }
}

/// Where the URL at a scheme ends, in terms of the text alone.
proof fn url_end_facts(s: Seq<u8>, start: int) -> (stop: int)
    requires
        0 <= start <= s.len(),
        scheme_at(s, start) > 0,
    ensures
        runs_to(s, start, stop),
        strips_to(
            s,
            start,
            start + scheme_at(s, start),
            url_end(s, start, scheme_at(s, start)),
            stop,
        ),
{
    let n = scheme_at(s, start);
    scheme_is_spelled(s, start);
    let stop = stop_at(s, start + n, 0);
    stop_facts(s, start + n, 0);
    stripped_facts(s, start + n, stop, opens(s, start, stop));
    assert forall|j: int| start <= j < stop implies !#[trigger] text_breaks(s, j) by {
        if j < start + n {
            assert(s[j] > 0x20 && s[j] < 0x7f);
        }
    }
    assert forall|j: int| start <= j < stop && #[trigger] s[j] == 0x29 implies balance(s, start, j)
        > 0 by {
        balance_of_none(s, start, start + n, j);
    }
    balance_of_none(s, start, start + n, stop);
    stop
}

/// What a URL that is found is: it starts with a scheme and something behind it. It
/// goes on until white space, an ASCII control character, the end of the text or a
/// closing parenthesis that it did not open, less the punctuation right before
/// that; no other byte ends it, and none of these lies within it.
pub open spec fn is_whole_url(s: Seq<u8>, range: (int, int)) -> bool {
    let (start, end) = range;
    &&& 0 < scheme_at(s, start) < end - start
    &&& exists|stop: int|
        #[trigger] runs_to(s, start, stop) && strips_to(
            s,
            start,
            start + scheme_at(s, start),
            end,
            stop,
        )
}

/// Every URL that is found is whole: it is neither cut short nor does it run on.
pub proof fn found_urls_are_whole(s: Seq<u8>, i: int)
    requires
        i >= 0,
    ensures
        forall|k: int|
            0 <= k < urls_from(s, i).len() ==> is_whole_url(s, #[trigger] urls_from(s, i)[k]),
    decreases s.len() - i,
{
    if i < s.len() {
        scheme_is_spelled(s, i);
        let n = scheme_len(s.skip(i));
        if n == 0 {
            found_urls_are_whole(s, i + 1);
            assert(urls_from(s, i) == urls_from(s, i + 1));
        } else {
            let end = url_end(s, i, n);
            url_end_in_bounds(s, i);
            let stop = url_end_facts(s, i);
            found_urls_are_whole(s, end);
            if end > i + n {
                let rest = urls_from(s, end);
                assert(urls_from(s, i) == seq![(i, end)] + rest);
                assert(is_whole_url(s, (i, end))) by {
                    assert(runs_to(s, i, stop));
                }
                assert forall|k: int| 0 <= k < urls_from(s, i).len() implies is_whole_url(
                    s,
                    #[trigger] urls_from(s, i)[k],
                ) by {
                    if k > 0 {
                        assert(urls_from(s, i)[k] == rest[k - 1]);
                    }
                }
            } else {
                assert(urls_from(s, i) == urls_from(s, end));
            }
        }
    }
}

/// No URL is missed: wherever a scheme stands, a URL that is found covers it, or
/// nothing but punctuation follows it up to where it would end.
pub proof fn no_url_is_missed(s: Seq<u8>, i: int, at: int)
    requires
        0 <= i <= at < s.len(),
        scheme_at(s, at) > 0,
    ensures
        ({
            ||| exists|k: int|
                0 <= k < urls_from(s, i).len() && (#[trigger] urls_from(s, i)[k]).0 <= at
                    < urls_from(s, i)[k].1
            ||| exists|stop: int|
                #[trigger] runs_to(s, at, stop) && strips_to(
                    s,
                    at,
                    at + scheme_at(s, at),
                    at + scheme_at(s, at),
                    stop,
                )
        }),
    decreases s.len() - i,
{
    scheme_is_spelled(s, i);
    scheme_is_spelled(s, at);
    let n = scheme_len(s.skip(i));
    let all = urls_from(s, i);
    if n == 0 {
        no_url_is_missed(s, i + 1, at);
    } else {
        let end = url_end(s, i, n);
        url_end_in_bounds(s, i);
        let stop = url_end_facts(s, i);
        let rest = urls_from(s, end);
        if end > i + n {
            assert(all == seq![(i, end)] + rest);
            if at < end {
                assert(all[0] == (i, end));
                assert(all[0].0 <= at < all[0].1);
            } else {
                no_url_is_missed(s, end, at);
                if exists|k: int| 0 <= k < rest.len() && (#[trigger] rest[k]).0 <= at < rest[k].1 {
                    let k = choose|k: int|
                        0 <= k < rest.len() && (#[trigger] rest[k]).0 <= at < rest[k].1;
                    assert(all[k + 1] == rest[k]);
                }
            }
        } else if at == i {
            assert(runs_to(s, at, stop));
        } else {
            assert(at >= end);
            no_url_is_missed(s, end, at);
        }
    }
}

} // verus!
