//! Pasting: what is written to the shell for a clipboard text.

use vstd::prelude::*;
use vstd::utf8;

use crate::text;

verus! {

/// The bracket that opens a paste, `ESC [200~`.
pub open spec fn paste_start() -> Seq<u8> {
    seq![0x1bu8, 0x5bu8, 0x32u8, 0x30u8, 0x30u8, 0x7eu8]
}

/// The bracket that closes a paste, `ESC [201~`.
pub open spec fn paste_end() -> Seq<u8> {
    seq![0x1bu8, 0x5bu8, 0x32u8, 0x30u8, 0x31u8, 0x7eu8]
}

/// Whether `s` ends with the closing bracket.
pub open spec fn ends_paste(s: Seq<u8>) -> bool {
    s.len() >= 6 && s.skip(s.len() - 6) == paste_end()
}

/// The text without closing brackets: each is dropped as soon as it is complete,
/// also one that comes together only because another was dropped.
pub open spec fn without_paste_end(s: Seq<u8>) -> Seq<u8>
    decreases s.len(),
{
    if s.len() == 0 {
        s
    } else {
        let t = without_paste_end(s.drop_last()).push(s.last());
        if ends_paste(t) {
            t.take(t.len() - 6)
        } else {
            t
        }
    }
}

/// Whether a closing bracket stands in `s` at `i`.
pub open spec fn paste_end_at(s: Seq<u8>, i: int) -> bool {
    0 <= i && i + 6 <= s.len() && s.subrange(i, i + 6) == paste_end()
}

/// What is written to the shell for a pasted text.
pub open spec fn paste_payload(s: Seq<u8>, bracketed: bool) -> Seq<u8> {
    if bracketed {
        paste_start() + without_paste_end(s) + paste_end()
    } else {
        s
    }
}

proof fn sanitized_holds_none(s: Seq<u8>, i: int)
    ensures
        !paste_end_at(without_paste_end(s), i),
        without_paste_end(s).len() <= s.len(),
    decreases s.len(),
{
    if s.len() > 0 {
        let front = without_paste_end(s.drop_last());
        sanitized_holds_none(s.drop_last(), i);
        let t = front.push(s.last());
        let r = without_paste_end(s);
        if paste_end_at(r, i) {
            if i + 6 <= front.len() {
                assert(front.subrange(i, i + 6) =~= r.subrange(i, i + 6));
            } else {
                assert(r == t);
                assert(t.skip(t.len() - 6) =~= t.subrange(i, i + 6));
            }
        }
    }
}

/// The bytes of a closing bracket: only the first of them is ESC.
proof fn paste_end_bytes(s: Seq<u8>, i: int)
    requires
        paste_end_at(s, i),
    ensures
        s[i] == 0x1b,
        s[i + 4] == 0x31,
        forall|k: int| i < k < i + 6 ==> #[trigger] s[k] != 0x1b,
{
    let found = s.subrange(i, i + 6);
    assert(found[0] == s[i]);
    assert(found[4] == s[i + 4]);
    assert forall|k: int| i < k < i + 6 implies #[trigger] s[k] != 0x1b by {
        assert(found[k - i] == s[k]);
        assert(paste_end()[k - i] != 0x1b);
    }
}

proof fn bracketed_only_at_end(body: Seq<u8>, i: int)
    requires
        !paste_end_at(body, i - 6),
        paste_end_at(paste_start() + body + paste_end(), i),
    ensures
        i == body.len() + 6,
{
    let all = paste_start() + body + paste_end();
    let n = body.len() as int;
    paste_end_bytes(all, i);
    if i == 0 {
        assert(all[4] == paste_start()[4]);
    } else if i < 6 {
        assert(all[i] == paste_start()[i]);
    } else if i <= n {
        assert(all.subrange(i, i + 6) =~= body.subrange(i - 6, i));
    } else if i < n + 6 {
        assert(all[n + 6] == paste_end()[0]);
    }
}

/// Pasted text cannot leave its brackets: the payload holds the closing bracket
/// at its very end and nowhere else.
pub proof fn paste_stays_bracketed(s: Seq<u8>, i: int)
    ensures
        paste_end_at(paste_payload(s, true), i) <==> i == paste_payload(s, true).len() - 6,
{
    let body = without_paste_end(s);
    let all = paste_payload(s, true);
    let n = body.len() as int;
    sanitized_holds_none(s, i - 6);
    assert(all.subrange(n + 6, n + 12) =~= paste_end());
    if paste_end_at(all, i) {
        bracketed_only_at_end(body, i);
    }
}

/// Text without a closing bracket is pasted as it is.
pub proof fn clean_text_is_kept(s: Seq<u8>)
    requires
        forall|i: int| !paste_end_at(s, i),
    ensures
        without_paste_end(s) == s,
    decreases s.len(),
{
    if s.len() > 0 {
        let front = s.drop_last();
        assert forall|i: int| !paste_end_at(front, i) by {
            if paste_end_at(front, i) {
                assert(s.subrange(i, i + 6) =~= front.subrange(i, i + 6));
                assert(paste_end_at(s, i));
            }
        }
        clean_text_is_kept(front);
        assert(front.push(s.last()) =~= s);
        if ends_paste(s) {
            assert(s.subrange(s.len() - 6, s.len() as int) =~= s.skip(s.len() - 6));
            assert(paste_end_at(s, s.len() - 6));
        }
    }
}

fn strip_paste_end(s: &[u8]) -> (out: Vec<u8>)
    ensures
        out@ == without_paste_end(s@),
{
    let end: [u8; 6] = [0x1b, 0x5b, 0x32, 0x30, 0x31, 0x7e];
    assert(end@ =~= paste_end());
    let mut out: Vec<u8> = Vec::new();
    for i in 0..s.len()
        invariant
            end@ == paste_end(),
            out@ == without_paste_end(s@.take(i as int)),
    {
        assert(s@.take(i + 1).drop_last() =~= s@.take(i as int));
        out.push(s[i]);
        let n: usize = out.len();
        if n >= 6 {
            assert(paste_end().len() == 6);
            if text::stands_at(out.as_slice(), n - 6, &end) {
                assert(out@.skip(n - 6).take(6) =~= out@.skip(n - 6));
                out.truncate(n - 6);
            } else {
                assert(out@.skip(n - 6).take(6) =~= out@.skip(n - 6));
            }
        }
    }
    assert(s@.take(s@.len() as int) =~= s@);
    out
}

fn bracketed_payload(s: &[u8], bracketed: bool) -> (out: Vec<u8>)
    ensures
        out@ == paste_payload(s@, bracketed),
{
    if !bracketed {
        return text::copied(s);
    }
    let mut out: Vec<u8> = vec![0x1b, 0x5b, 0x32, 0x30, 0x30, 0x7e];
    assert(out@ =~= paste_start());
    let body = strip_paste_end(s);
    out.extend_from_slice(body.as_slice());
    let end: [u8; 6] = [0x1b, 0x5b, 0x32, 0x30, 0x31, 0x7e];
    assert(end@ =~= paste_end());
    out.extend_from_slice(&end);
    assert(out@ =~= paste_payload(s@, true));
    out
}

/// The bytes to write to the shell for a pasted text. Where the shell asked for
/// bracketed paste, the text is put in brackets, and closing brackets in it are
/// dropped, so that a paste cannot leave its brackets and have the rest of it
/// taken for commands.
pub fn build_paste_payload(s: &str, bracketed: bool) -> (out: Vec<u8>)
    ensures
        out@ == paste_payload(utf8::encode_utf8(s@), bracketed),
{
    bracketed_payload(s.as_bytes(), bracketed)
}

/// Line ends as a shell expects them: CR for CR LF and for LF.
pub open spec fn with_shell_newlines(s: Seq<u8>) -> Seq<u8>
    decreases s.len(),
{
    if s.len() == 0 {
        s
    } else if s[0] == 0x0d && s.len() > 1 && s[1] == 0x0a {
        seq![0x0du8] + with_shell_newlines(s.skip(2))
    } else if s[0] == 0x0a {
        seq![0x0du8] + with_shell_newlines(s.skip(1))
    } else {
        seq![s[0]] + with_shell_newlines(s.skip(1))
    }
}

/// Turns CR LF and LF into CR.
pub fn normalize_newlines(s: &[u8]) -> (out: Vec<u8>)
    ensures
        out@ == with_shell_newlines(s@),
{
    let mut out: Vec<u8> = Vec::new();
    let mut i: usize = 0;
    assert(s@.skip(0) =~= s@);
    assert(out@ + with_shell_newlines(s@) =~= with_shell_newlines(s@));
    while i < s.len()
        invariant
            i <= s@.len(),
            out@ + with_shell_newlines(s@.skip(i as int)) == with_shell_newlines(s@),
        decreases s@.len() - i,
    {
        let ghost rest = s@.skip(i as int);
        let ghost before = out@;
        assert(rest[0] == s@[i as int]);
        assert(rest.skip(1) =~= s@.skip(i + 1));
        if s[i] == 0x0d && s.len() - i > 1 && s[i + 1] == 0x0a {
            assert(rest[1] == s@[i + 1]);
            assert(rest.skip(2) =~= s@.skip(i + 2));
            out.push(0x0d);
            i += 2;
        } else {
            assert(rest.len() > 1 ==> rest[1] == s@[i + 1]);
            if s[i] == 0x0a {
                out.push(0x0d);
            } else {
                out.push(s[i]);
            }
            i += 1;
        }
        assert(out@ + with_shell_newlines(s@.skip(i as int)) =~= before + with_shell_newlines(
            rest,
        ));
    }
    assert(s@.skip(i as int) =~= Seq::<u8>::empty());
    assert(out@ + Seq::<u8>::empty() =~= out@);
    out
}

/// A paste, ready to be written.
#[derive(Debug)]
pub struct Paste {
    /// The text with its line ends normalized.
    pub typed: Vec<u8>,
    /// What is written to the shell.
    pub payload: Vec<u8>,
}

/// Prepares a clipboard text for the shell.
pub fn prepare_paste(clipboard: &str, bracketed: bool) -> (r: Paste)
    ensures
        r.typed@ == with_shell_newlines(utf8::encode_utf8(clipboard@)),
        r.payload@ == paste_payload(r.typed@, bracketed),
{
    let typed = normalize_newlines(clipboard.as_bytes());
    let payload = bracketed_payload(typed.as_slice(), bracketed);
    Paste { typed, payload }
}

/// No line feed is left for the shell, and text without one is not changed.
pub proof fn no_line_feed_reaches_the_shell(s: Seq<u8>, i: int)
    ensures
        0 <= i < with_shell_newlines(s).len() ==> with_shell_newlines(s)[i] != 0x0a,
        !s.contains(0x0a) ==> with_shell_newlines(s) == s,
    decreases s.len(),
{
    if s.len() > 0 {
        let n: int = if s[0] == 0x0d && s.len() > 1 && s[1] == 0x0a {
            2
        } else {
            1
        };
        let rest = s.skip(n);
        no_line_feed_reaches_the_shell(rest, i - 1);
        if !s.contains(0x0a) {
            assert(s[0] != 0x0a);
            if n == 2 {
                assert(s[1] != 0x0a);
            }
            assert(!rest.contains(0x0a)) by {
                if rest.contains(0x0a) {
                    let k = choose|k: int| 0 <= k < rest.len() && rest[k] == 0x0a;
                    assert(s[k + n] == 0x0a);
                }
            }
            assert(seq![s[0]] + rest =~= s);
        }
    }
}

/// A line end, be it LF or CR LF, becomes one CR, and what is before and behind it is
/// converted on its own.
pub proof fn line_ends_become_cr(a: Seq<u8>, b: Seq<u8>)
    requires
        a.len() > 0 ==> a.last() != 0x0d,
    ensures
        with_shell_newlines(a + seq![0x0au8] + b) == with_shell_newlines(a) + seq![0x0du8]
            + with_shell_newlines(b),
        with_shell_newlines(a + seq![0x0du8, 0x0au8] + b) == with_shell_newlines(a) + seq![0x0du8]
            + with_shell_newlines(b),
    decreases a.len(),
{
    let lf = a + seq![0x0au8] + b;
    let crlf = a + seq![0x0du8, 0x0au8] + b;
    let done = with_shell_newlines(a) + seq![0x0du8] + with_shell_newlines(b);
    if a.len() == 0 {
        assert(lf.skip(1) =~= b);
        assert(crlf.skip(2) =~= b);
        assert(lf[0] == 0x0a);
        assert(crlf[0] == 0x0d && crlf[1] == 0x0a);
        assert(with_shell_newlines(lf) =~= done);
        assert(with_shell_newlines(crlf) =~= done);
    } else {
        let n: int = if a[0] == 0x0d && a.len() > 1 && a[1] == 0x0a {
            2
        } else {
            1
        };
        let rest = a.skip(n);
        line_ends_become_cr(rest, b);
        assert(lf.skip(n) =~= rest + seq![0x0au8] + b);
        assert(crlf.skip(n) =~= rest + seq![0x0du8, 0x0au8] + b);
        assert(lf[0] == a[0] && crlf[0] == a[0]);
        if a.len() > 1 {
            assert(lf[1] == a[1] && crlf[1] == a[1]);
        }
        assert(with_shell_newlines(lf) =~= done);
        assert(with_shell_newlines(crlf) =~= done);
    }
}

/// A closing bracket behind text without one is dropped, and nothing else.
pub proof fn closing_bracket_is_dropped(a: Seq<u8>)
    requires
        forall|i: int| !paste_end_at(a, i),
    ensures
        without_paste_end(a + paste_end()) == a,
{
    let all = a + paste_end();
    let n = a.len() as int;
    clean_text_is_kept(a);
    closing_bracket_part(a, 5);
    let front = a + paste_end().take(5);
    assert(all.drop_last() =~= front);
    let t = front.push(paste_end()[5]);
    assert(t =~= all);
    assert(all.last() == paste_end()[5]);
    assert(t.skip(t.len() - 6) =~= paste_end());
    assert(t.take(t.len() - 6) =~= a);
}

proof fn closing_bracket_part(a: Seq<u8>, k: int)
    requires
        forall|i: int| !paste_end_at(a, i),
        0 <= k <= 5,
    ensures
        without_paste_end(a + paste_end().take(k)) == a + paste_end().take(k),
    decreases k,
{
    let all = a + paste_end().take(k);
    clean_text_is_kept(a);
    if k > 0 {
        closing_bracket_part(a, k - 1);
        assert(all.drop_last() =~= a + paste_end().take(k - 1));
        assert((a + paste_end().take(k - 1)).push(all.last()) =~= all);
        if ends_paste(all) {
            let end = all.skip(all.len() - 6);
            assert(end == paste_end());
            assert(end[6 - k] == all[all.len() - k]);
            assert(all[all.len() - k] == paste_end().take(k)[0]);
            assert(end[6 - k] == paste_end()[0]);
            assert(paste_end()[6 - k] != 0x1b);
        }
    } else {
        assert(all =~= a);
    }
}

/// Where a closing bracket stands behind text without one, it is as if it were not
/// there: whatever follows is treated in the same way.
pub proof fn text_behind_a_closing_bracket(a: Seq<u8>, b: Seq<u8>)
    requires
        forall|i: int| !paste_end_at(a, i),
    ensures
        without_paste_end(a + paste_end() + b) == without_paste_end(a + b),
    decreases b.len(),
{
    let with = a + paste_end() + b;
    let without = a + b;
    if b.len() == 0 {
        assert(with =~= a + paste_end());
        assert(without =~= a);
        closing_bracket_is_dropped(a);
        clean_text_is_kept(a);
    } else {
        text_behind_a_closing_bracket(a, b.drop_last());
        assert(with.drop_last() =~= a + paste_end() + b.drop_last());
        assert(without.drop_last() =~= a + b.drop_last());
    }
}

} // verus!
