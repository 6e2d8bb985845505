//! The output of `lsof -Fn`: one field per line, the field's name as the first
//! character.

use std::ops::Range;

use vstd::prelude::*;
use vstd::utf8;

verus! {

/// Where the line that starts at `at` ends: before its line feed, or at the end
/// of the text.
pub open spec fn line_end(s: Seq<u8>, at: int) -> int
    decreases s.len() - at,
{
    if at < 0 || at >= s.len() || s[at] == 0x0a {
        at
    } else {
        line_end(s, at + 1)
    }
}

/// The end of the line's content: a carriage return before the line feed belongs
/// to the line end.
pub open spec fn content_end(s: Seq<u8>, at: int) -> int {
    let end = line_end(s, at);
    if at < end < s.len() && s[end - 1] == 0x0d {
        end - 1
    } else {
        end
    }
}

/// The first name field (`n`) of the lines from `at` on: the range of its value.
pub open spec fn name_field(s: Seq<u8>, at: int) -> Option<(int, int)>
    decreases s.len() - at,
{
    if at < 0 || at >= s.len() {
        None
    } else if s[at] == 0x6e {
        Some((at + 1, content_end(s, at)))
    } else if at <= line_end(s, at) < s.len() {
        name_field(s, line_end(s, at) + 1)
    } else {
        None
    }
}

/// Finds the working directory in the output of `lsof -d cwd -Fn`, as a range of
/// bytes.
pub fn find_cwd(output: &str) -> (r: Option<Range<usize>>)
    ensures
        match r {
            Some(range) => {
                &&& name_field(utf8::encode_utf8(output@), 0) == Some(
                    (range.start as int, range.end as int),
                )
                &&& range.start <= range.end <= utf8::encode_utf8(output@).len()
            },
            None => name_field(utf8::encode_utf8(output@), 0) is None,
        },
{
    let bytes = output.as_bytes();
    let ghost s = bytes@;
    let mut at: usize = 0;
    while at < bytes.len()
        invariant
            s == bytes@,
            at <= s.len(),
            s == utf8::encode_utf8(output@),
            name_field(s, at as int) == name_field(s, 0),
        decreases s.len() - at,
    {
        let mut end: usize = at;
        while end < bytes.len() && bytes[end] != 0x0a
            invariant
                s == bytes@,
                at <= end <= s.len(),
                line_end(s, end as int) == line_end(s, at as int),
            decreases s.len() - end,
        {
            end += 1;
        }
        assert(line_end(s, at as int) == end);
        if bytes[at] == 0x6e {
            let stop: usize = if at < end && end < bytes.len() && bytes[end - 1] == 0x0d {
                end - 1
            } else {
                end
            };
            assert(stop > at);
            return Some(at + 1..stop);
        }
        if end == bytes.len() {
            return None;
        }
        at = end + 1;
    }
    None
}

/// Whether a line begins at `at`: at the start of the text, or behind a line feed.
pub open spec fn line_begins(s: Seq<u8>, at: int) -> bool {
    0 <= at < s.len() && (at == 0 || s[at - 1] == 0x0a)
}

proof fn line_end_facts(s: Seq<u8>, at: int)
    requires
        0 <= at <= s.len(),
    ensures
        at <= line_end(s, at) <= s.len(),
        forall|j: int| at <= j < line_end(s, at) ==> #[trigger] s[j] != 0x0a,
        line_end(s, at) < s.len() ==> s[line_end(s, at)] == 0x0a,
    decreases s.len() - at,
{
    if at < s.len() && s[at] != 0x0a {
        line_end_facts(s, at + 1);
    }
}

proof fn name_field_facts(s: Seq<u8>, at: int)
    requires
        0 <= at <= s.len(),
        at < s.len() ==> line_begins(s, at),
    ensures
        match name_field(s, at) {
            Some((from, to)) => {
                &&& at < from <= to <= s.len()
                &&& line_begins(s, from - 1)
                &&& s[from - 1] == 0x6e
                &&& forall|j: int| from <= j < to ==> #[trigger] s[j] != 0x0a
                &&& to == s.len() || s[to] == 0x0a || to + 1 < s.len() && s[to] == 0x0d && s[to + 1]
                    == 0x0a
                &&& to < s.len() && s[to] == 0x0a ==> s[to - 1] != 0x0d
                &&& forall|j: int|
                    at <= j < from - 1 && #[trigger] line_begins(s, j) ==> s[j] != 0x6e
            },
            None => forall|j: int| at <= j && #[trigger] line_begins(s, j) ==> s[j] != 0x6e,
        },
    decreases s.len() - at,
{
    if at < s.len() {
        line_end_facts(s, at);
        let end = line_end(s, at);
        if s[at] == 0x6e {
        } else if end < s.len() {
            assert forall|j: int| at < j <= end implies !#[trigger] line_begins(s, j) by {}
            name_field_facts(s, end + 1);
            assert forall|j: int|
                at <= j && #[trigger] line_begins(s, j) && j <= end implies s[j] != 0x6e by {
                assert(j == at);
            }
        } else {
            assert forall|j: int| at <= j && #[trigger] line_begins(s, j) implies s[j] != 0x6e by {
                assert(j == at);
            }
        }
    }
}

/// What is found is the rest of the first line that begins with `n`, up to its line
/// end, be that LF or CR LF; nothing is found only where no line begins so.
pub proof fn first_name_is_found(s: Seq<u8>)
    ensures
        match name_field(s, 0) {
            Some((from, to)) => {
                &&& 1 <= from <= to <= s.len()
                &&& line_begins(s, from - 1)
                &&& s[from - 1] == 0x6e
                &&& forall|j: int| from <= j < to ==> #[trigger] s[j] != 0x0a
                &&& to == s.len() || s[to] == 0x0a || to + 1 < s.len() && s[to] == 0x0d && s[to + 1]
                    == 0x0a
                &&& to < s.len() && s[to] == 0x0a ==> s[to - 1] != 0x0d
                &&& forall|j: int|
                    0 <= j < from - 1 && #[trigger] line_begins(s, j) ==> s[j] != 0x6e
            },
            None => forall|j: int| 0 <= j && #[trigger] line_begins(s, j) ==> s[j] != 0x6e,
        },
{
    name_field_facts(s, 0);
}

} // verus!
