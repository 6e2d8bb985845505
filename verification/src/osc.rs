//! Operating system commands: the working directory (OSC 7) and shell
//! integration marks (OSC 133).

use vstd::prelude::*;
use vstd::utf8;

use crate::blocks::TermBlockState;
use crate::text;

verus! {

/// `file://`.
pub open spec fn file_scheme() -> Seq<u8> {
    seq![0x66u8, 0x69u8, 0x6cu8, 0x65u8, 0x3au8, 0x2fu8, 0x2fu8]
}

/// The value of a hexadecimal digit.
pub open spec fn hex_value(b: u8) -> Option<int> {
    if 0x30 <= b <= 0x39 {
        Some(b - 0x30)
    } else if 0x61 <= b <= 0x66 {
        Some(b - 0x61 + 10)
    } else if 0x41 <= b <= 0x46 {
        Some(b - 0x41 + 10)
    } else {
        None
    }
}

/// Percent escapes decoded, each to the byte it stands for. An escape takes the
/// two bytes behind the percent sign, or what is left of them; one that is not
/// two hexadecimal digits leaves nothing.
pub open spec fn percent_decoded(s: Seq<u8>) -> Seq<u8>
    decreases s.len(),
{
    if s.len() == 0 {
        Seq::empty()
    } else if s[0] != 0x25 {
        seq![s[0]] + percent_decoded(s.skip(1))
    } else if s.len() < 3 {
        Seq::empty()
    } else {
        match (hex_value(s[1]), hex_value(s[2])) {
            (Some(hi), Some(lo)) => seq![(hi * 16 + lo) as u8] + percent_decoded(s.skip(3)),
            _ => percent_decoded(s.skip(3)),
        }
    }
}

/// The part from the first slash on.
pub open spec fn from_slash(s: Seq<u8>) -> Option<Seq<u8>>
    decreases s.len(),
{
    if s.len() == 0 {
        None
    } else if s[0] == 0x2f {
        Some(s)
    } else {
        from_slash(s.skip(1))
    }
}

/// The local path in a file URL: `file://host/path` or `file:///path`. The host
/// does not matter. The URL is text, but the path is bytes: an escape may stand
/// for any byte.
pub open spec fn osc7_path(raw: Seq<u8>) -> Option<Seq<u8>> {
    if utf8::valid_utf8(raw) && text::has_prefix(raw, file_scheme()) {
        match from_slash(raw.skip(7)) {
            Some(encoded) => Some(percent_decoded(encoded)),
            None => None,
        }
    } else {
        None
    }
}

fn hex_digit(b: u8) -> (r: Option<u8>)
    ensures
        match r {
            Some(v) => hex_value(b) == Some(v as int) && v < 16,
            None => hex_value(b) is None,
        },
{
    if 0x30 <= b && b <= 0x39 {
        Some(b - 0x30)
    } else if 0x61 <= b && b <= 0x66 {
        Some(b - 0x61 + 10)
    } else if 0x41 <= b && b <= 0x46 {
        Some(b - 0x41 + 10)
    } else {
        None
    }
}

/// Decodes the percent escapes of `s` from `start` on.
pub fn percent_decode(s: &[u8], start: usize) -> (out: Vec<u8>)
    requires
        start <= s@.len(),
    ensures
        out@ == percent_decoded(s@.skip(start as int)),
{
    let mut out: Vec<u8> = Vec::new();
    let mut i: usize = start;
    let len: usize = s.len();
    assert(out@ + percent_decoded(s@.skip(i as int)) =~= percent_decoded(s@.skip(start as int)));
    while i < len
        invariant
            start <= i <= len,
            len == s@.len(),
            out@ + percent_decoded(s@.skip(i as int)) == percent_decoded(s@.skip(start as int)),
        decreases len - i,
    {
        let ghost rest = s@.skip(i as int);
        let ghost before = out@;
        assert(rest[0] == s@[i as int]);
        if s[i] != 0x25 {
            assert(rest.skip(1) =~= s@.skip(i + 1));
            out.push(s[i]);
            i += 1;
            assert(out@ + percent_decoded(s@.skip(i as int)) =~= before + percent_decoded(rest));
        } else if len - i < 3 {
            i = len;
            assert(s@.skip(i as int) =~= Seq::<u8>::empty());
            assert(out@ + percent_decoded(s@.skip(i as int)) =~= before + percent_decoded(rest));
        } else {
            assert(rest[1] == s@[i + 1] && rest[2] == s@[i + 2]);
            assert(rest.skip(3) =~= s@.skip(i + 3));
            if let (Some(hi), Some(lo)) = (hex_digit(s[i + 1]), hex_digit(s[i + 2])) {
                out.push(hi * 16 + lo);
            }
            i += 3;
            assert(out@ + percent_decoded(s@.skip(i as int)) =~= before + percent_decoded(rest));
        }
    }
    assert(s@.skip(i as int) =~= Seq::<u8>::empty());
    assert(out@ + Seq::<u8>::empty() =~= out@);
    out
}

/// Reads an OSC 7 file URL.
pub fn parse_osc7_url(raw: &[u8]) -> (r: Option<Vec<u8>>)
    ensures
        match r {
            Some(path) => osc7_path(raw@) == Some(path@),
            None => osc7_path(raw@) is None,
        },
{
    let scheme: [u8; 7] = [0x66, 0x69, 0x6c, 0x65, 0x3a, 0x2f, 0x2f];
    assert(scheme@ =~= file_scheme());
    assert(raw@.skip(0) =~= raw@);
    let well_formed = match text::read_utf8(raw) {
        Some(url) => {
            proof {
                utf8::encode_utf8_valid_utf8(url@);
            }
            true
        },
        None => false,
    };
    if !well_formed || !text::stands_at(raw, 0, &scheme) {
        return None;
    }
    let mut i: usize = 7;
    while i < raw.len()
        invariant
            7 <= i <= raw@.len(),
            utf8::valid_utf8(raw@),
            text::has_prefix(raw@, file_scheme()),
            from_slash(raw@.skip(i as int)) == from_slash(raw@.skip(7)),
        decreases raw@.len() - i,
    {
        assert(raw@.skip(i as int)[0] == raw@[i as int]);
        if raw[i] == 0x2f {
            return Some(percent_decode(raw, i));
        }
        assert(raw@.skip(i as int).skip(1) =~= raw@.skip(i + 1));
        i += 1;
    }
    None
}

/// What an OSC 133 sequence reports.
#[derive(Debug, Clone, Copy, PartialEq, Eq, Structural)]
pub enum BlockMark {
    /// A prompt starts: a new block begins.
    Prompt,
    /// The newest block moves to this state.
    Becomes(TermBlockState),
}

/// The mark in the parts of an OSC 133 sequence: `A` prompt start, `B` command
/// start, `C` output start, `D;N` command done with exit code `N`. An exit code
/// that is missing or no number counts as 0.
pub open spec fn block_mark(parts: Seq<Seq<u8>>) -> Option<BlockMark> {
    if parts.len() < 2 {
        None
    } else if parts[1] == seq![0x41u8] {
        Some(BlockMark::Prompt)
    } else if parts[1] == seq![0x42u8] || parts[1] == seq![0x43u8] {
        Some(BlockMark::Becomes(TermBlockState::Running))
    } else if parts[1] == seq![0x44u8] {
        let exit_code = if parts.len() < 3 {
            0i32
        } else {
            match text::spelled_i32(parts[2]) {
                Some(n) => n,
                None => 0i32,
            }
        };
        Some(BlockMark::Becomes(TermBlockState::Done { exit_code }))
    } else {
        None
    }
}

/// Reads the mark of an OSC 133 sequence.
pub fn parse_block_mark(parts: &Vec<Vec<u8>>) -> (r: Option<BlockMark>)
    ensures
        r == block_mark(crate::vt::parts_of(parts@)),
{
    let ghost model = crate::vt::parts_of(parts@);
    if parts.len() < 2 {
        return None;
    }
    let mark = &parts[1];
    assert(model[1] == mark@);
    if mark.len() != 1 {
        return None;
    }
    assert(mark@ =~= seq![mark@[0]]);
    let letter: u8 = mark[0];
    assert(seq![letter][0] == letter);
    if letter == 0x41 {
        Some(BlockMark::Prompt)
    } else if letter == 0x42 || letter == 0x43 {
        assert(seq![0x41u8][0] == 0x41);
        Some(BlockMark::Becomes(TermBlockState::Running))
    } else if letter == 0x44 {
        assert(seq![0x41u8][0] == 0x41 && seq![0x42u8][0] == 0x42 && seq![0x43u8][0] == 0x43);
        let exit_code: i32 = if parts.len() < 3 {
            0
        } else {
            match text::parse_i32(parts[2].as_slice()) {
                Some(n) => n,
                None => 0,
            }
        };
        Some(BlockMark::Becomes(TermBlockState::Done { exit_code }))
    } else {
        assert(seq![0x41u8][0] == 0x41 && seq![0x42u8][0] == 0x42 && seq![0x43u8][0] == 0x43
            && seq![0x44u8][0] == 0x44);
        None
    }
}

/// A hexadecimal digit of a value below 16, in capitals or not.
pub open spec fn hex_of(value: int, capital: bool) -> u8 {
    if value < 10 {
        (0x30 + value) as u8
    } else if capital {
        (0x41 + value - 10) as u8
    } else {
        (0x61 + value - 10) as u8
    }
}

/// Bytes written as percent escapes, each as two hexadecimal digits.
pub open spec fn percent_escaped(bytes: Seq<u8>, capital: bool) -> Seq<u8>
    decreases bytes.len(),
{
    if bytes.len() == 0 {
        Seq::empty()
    } else {
        seq![
            0x25u8,
            hex_of(bytes[0] as int / 16, capital),
            hex_of(bytes[0] as int % 16, capital),
        ] + percent_escaped(bytes.skip(1), capital)
    }
}

/// Decoding undoes escaping, whatever the bytes are and in which case the digits are
/// written.
pub proof fn decoding_undoes_escaping(bytes: Seq<u8>, capital: bool)
    ensures
        percent_decoded(percent_escaped(bytes, capital)) == bytes,
    decreases bytes.len(),
{
    let all = percent_escaped(bytes, capital);
    if bytes.len() > 0 {
        let rest = bytes.skip(1);
        decoding_undoes_escaping(rest, capital);
        assert(all.skip(3) =~= percent_escaped(rest, capital));
        let hi = bytes[0] as int / 16;
        let lo = bytes[0] as int % 16;
        assert(all[1] == hex_of(hi, capital) && all[2] == hex_of(lo, capital));
        assert(hex_value(hex_of(hi, capital)) == Some(hi));
        assert(hex_value(hex_of(lo, capital)) == Some(lo));
        assert(hi * 16 + lo == bytes[0]);
        assert(seq![bytes[0]] + rest =~= bytes);
    } else {
        assert(percent_decoded(all) =~= bytes);
    }
}

/// Bytes other than the percent sign stand for themselves, before and behind escapes.
pub proof fn other_bytes_are_kept(plain: Seq<u8>, rest: Seq<u8>)
    requires
        !plain.contains(0x25),
    ensures
        percent_decoded(plain + rest) == plain + percent_decoded(rest),
    decreases plain.len(),
{
    let all = plain + rest;
    if plain.len() == 0 {
        assert(all =~= rest);
        assert(plain + percent_decoded(rest) =~= percent_decoded(rest));
    } else {
        let tail = plain.skip(1);
        assert(plain[0] != 0x25);
        assert(!tail.contains(0x25)) by {
            if tail.contains(0x25) {
                let k = choose|k: int| 0 <= k < tail.len() && tail[k] == 0x25;
                assert(plain[k + 1] == 0x25);
            }
        }
        other_bytes_are_kept(tail, rest);
        assert(all.skip(1) =~= tail + rest);
        assert(all[0] == plain[0]);
        assert(seq![plain[0]] + (tail + percent_decoded(rest)) =~= plain + percent_decoded(rest));
    }
}

/// An escape that is not two hexadecimal digits leaves nothing, and one that is cut
/// off at the end neither.
pub proof fn broken_escapes_leave_nothing(a: u8, b: u8, rest: Seq<u8>)
    requires
        hex_value(a) is None || hex_value(b) is None,
    ensures
        percent_decoded(seq![0x25u8, a, b] + rest) == percent_decoded(rest),
        percent_decoded(seq![0x25u8, a]).len() == 0,
        percent_decoded(seq![0x25u8]).len() == 0,
        hex_value(a) is None <==> !(0x30 <= a <= 0x39 || 0x41 <= a <= 0x46 || 0x61 <= a <= 0x66),
{
    let all = seq![0x25u8, a, b] + rest;
    assert(all.skip(3) =~= rest);
    assert(all[0] == 0x25 && all[1] == a && all[2] == b);
}

proof fn slash_behind_host(host: Seq<u8>, path: Seq<u8>)
    requires
        !host.contains(0x2f),
        path.len() > 0,
        path[0] == 0x2f,
    ensures
        from_slash(host + path) == Some(path),
    decreases host.len(),
{
    let all = host + path;
    if host.len() == 0 {
        assert(all =~= path);
    } else {
        let tail = host.skip(1);
        assert(host[0] != 0x2f);
        assert(!tail.contains(0x2f)) by {
            if tail.contains(0x2f) {
                let k = choose|k: int| 0 <= k < tail.len() && tail[k] == 0x2f;
                assert(host[k + 1] == 0x2f);
            }
        }
        slash_behind_host(tail, path);
        assert(all.skip(1) =~= tail + path);
    }
}

proof fn no_slash(s: Seq<u8>)
    requires
        !s.contains(0x2f),
    ensures
        from_slash(s) is None,
    decreases s.len(),
{
    if s.len() > 0 {
        let tail = s.skip(1);
        assert(s[0] != 0x2f);
        assert(!tail.contains(0x2f)) by {
            if tail.contains(0x2f) {
                let k = choose|k: int| 0 <= k < tail.len() && tail[k] == 0x2f;
                assert(s[k + 1] == 0x2f);
            }
        }
        no_slash(tail);
    }
}

/// The path of a file URL is what follows the host, from its slash on, with the
/// escapes decoded; the host does not matter. A URL without a path names none.
pub proof fn path_follows_the_host(scheme: Seq<u8>, host: Seq<u8>, path: Seq<u8>)
    requires
        scheme.len() == 7,
        scheme[0] == 0x66 && scheme[1] == 0x69 && scheme[2] == 0x6c && scheme[3] == 0x65,
        scheme[4] == 0x3a && scheme[5] == 0x2f && scheme[6] == 0x2f,
        !host.contains(0x2f),
        path.len() > 0 ==> path[0] == 0x2f,
        utf8::valid_utf8(scheme + host + path),
    ensures
        osc7_path(scheme + host + path) == if path.len() > 0 {
            Some(percent_decoded(path))
        } else {
            None
        },
{
    let raw = scheme + host + path;
    assert(scheme =~= file_scheme());
    assert(raw.take(7) =~= file_scheme());
    assert(raw.skip(7) =~= host + path);
    if path.len() > 0 {
        slash_behind_host(host, path);
    } else {
        assert(host + path =~= host);
        no_slash(host);
    }
}

/// A URL of another scheme names no path, nor do bytes that are no text.
pub proof fn other_urls_name_no_path(raw: Seq<u8>)
    requires
        ({
            ||| !utf8::valid_utf8(raw)
            ||| raw.len() < 7
            ||| !(raw[0] == 0x66 && raw[1] == 0x69 && raw[2] == 0x6c && raw[3] == 0x65 && raw[4]
                == 0x3a && raw[5] == 0x2f && raw[6] == 0x2f)
        }),
    ensures
        osc7_path(raw) is None,
{
    if text::has_prefix(raw, file_scheme()) {
        let start = raw.take(7);
        assert(start == file_scheme());
        assert(start[0] == raw[0] && start[1] == raw[1] && start[2] == raw[2] && start[3] == raw[3]
            && start[4] == raw[4] && start[5] == raw[5] && start[6] == raw[6]);
    }
}

/// An escape stands for the byte that its two digits spell, whatever follows it.
pub proof fn one_escape_is_one_byte(b: u8, capital: bool, rest: Seq<u8>)
    ensures
        percent_decoded(
            seq![0x25u8, hex_of(b as int / 16, capital), hex_of(b as int % 16, capital)] + rest,
        ) == seq![b] + percent_decoded(rest),
{
    let hi = b as int / 16;
    let lo = b as int % 16;
    let all = seq![0x25u8, hex_of(hi, capital), hex_of(lo, capital)] + rest;
    assert(all.skip(3) =~= rest);
    assert(all[0] == 0x25 && all[1] == hex_of(hi, capital) && all[2] == hex_of(lo, capital));
    assert(hex_value(hex_of(hi, capital)) == Some(hi));
    assert(hex_value(hex_of(lo, capital)) == Some(lo));
    assert(hi * 16 + lo == b);
}

} // verus!
