//! A terminal: a grid and the escape sequence parser that drives it.
//!
//! Feed it bytes with [`Terminal::advance`] and the grid changes in place. What
//! each recognized sequence does is stated as a function from screen to screen.

use vstd::prelude::*;
use vstd::utf8;

use crate::grid::{Grid, MAX_SIDE};
use crate::osc;
use crate::osc::BlockMark;
use crate::screen::Screen;
use crate::text;
use crate::vt;
use crate::vt::{Event, VtEvent};

verus! {

/// A control character.
pub open spec fn executed(s: Screen, byte: u8) -> Screen {
    if byte == 0x0d {
        s.at_col(0)
    } else if byte == 0x0a || byte == 0x0b || byte == 0x0c {
        s.advanced_row()
    } else if byte == 0x08 {
        s.backspaced()
    } else if byte == 0x09 {
        s.tabbed()
    } else {
        s
    }
}

/// The first value of parameter `i`; the default where it is missing or 0.
pub open spec fn value_at(params: Seq<Seq<u16>>, i: int, default: u16) -> u16 {
    if 0 <= i < params.len() && params[i].len() > 0 && params[i][0] != 0 {
        params[i][0]
    } else {
        default
    }
}

/// All values, subparameters included, in one list.
pub open spec fn flat(params: Seq<Seq<u16>>) -> Seq<u16>
    decreases params.len(),
{
    if params.len() == 0 {
        Seq::empty()
    } else {
        flat(params.drop_last()) + params.last()
    }
}

/// One DEC private mode switched.
pub open spec fn dec_mode(s: Screen, mode: u16, enable: bool) -> Screen {
    if mode == 25 {
        Screen { cursor_visible: enable, ..s }
    } else if mode == 1049 || mode == 1047 || mode == 47 {
        if enable {
            s.entered_alt()
        } else {
            s.left_alt()
        }
    } else if mode == 2004 {
        Screen { bracketed_paste: enable, ..s }
    } else {
        s
    }
}

/// Several DEC private modes switched in turn.
pub open spec fn dec_modes(s: Screen, modes: Seq<u16>, enable: bool) -> Screen
    decreases modes.len(),
{
    if modes.len() == 0 {
        s
    } else {
        dec_mode(dec_modes(s, modes.drop_last(), enable), modes.last(), enable)
    }
}

/// The reply to a request for the terminal's attributes: a VT220.
pub open spec fn attributes_reply() -> Seq<u8> {
    seq![0x1bu8, 0x5bu8, 0x3fu8, 0x36u8, 0x32u8, 0x3bu8, 0x32u8, 0x32u8, 0x63u8]
}

/// The reply to a request for the cursor's position: `CSI row ; col R`, counted
/// from 1.
pub open spec fn position_reply(s: Screen) -> Seq<u8> {
    seq![0x1bu8, 0x5bu8] + text::decimal((s.cursor.row + 1) as nat) + seq![0x3bu8]
        + text::decimal((s.clamped_col() + 1) as nat) + seq![0x52u8]
}

/// A control sequence.
pub open spec fn csi(
    s: Screen,
    params: Seq<Seq<u16>>,
    intermediates: Seq<u8>,
    action: char,
) -> Screen {
    let n = value_at(params, 0, 1) as int;
    if intermediates.len() > 0 && intermediates[0] == 0x3f {
        if action == 'h' {
            dec_modes(s, flat(params), true)
        } else if action == 'l' {
            dec_modes(s, flat(params), false)
        } else {
            s
        }
    } else if intermediates.len() > 0 {
        s
    } else if action == 'A' {
        s.moved_up(n)
    } else if action == 'B' || action == 'e' {
        s.moved_down(n)
    } else if action == 'C' || action == 'a' {
        s.moved_forward(n)
    } else if action == 'D' {
        s.moved_back(n)
    } else if action == 'G' || action == '`' {
        s.to_col(n - 1)
    } else if action == 'd' {
        s.to_row(n - 1)
    } else if action == 'H' || action == 'f' {
        s.cursor_at(n - 1, value_at(params, 1, 1) - 1)
    } else if action == 'J' {
        s.erased_display(value_at(params, 0, 0))
    } else if action == 'K' {
        s.erased_line(value_at(params, 0, 0))
    } else if action == 'L' {
        s.inserted_lines(n)
    } else if action == 'M' {
        s.deleted_lines(n)
    } else if action == 'S' {
        s.scrolled_up(n)
    } else if action == 'T' {
        s.scrolled_down(n)
    } else if action == '@' {
        s.inserted_chars(n)
    } else if action == 'P' {
        s.deleted_chars(n)
    } else if action == 'X' {
        s.erased_chars(n)
    } else if action == 'r' {
        s.with_scroll_region(
            n - 1,
            value_at(params, 1, (s.size.rows % 65536) as u16) as int,
        )
    } else if action == 's' {
        s.saved()
    } else if action == 'u' {
        s.restored()
    } else if action == 'm' {
        s.with_sgr(flat(params))
    } else if action == 'c' {
        s.with_response(attributes_reply())
    } else if action == 'n' && value_at(params, 0, 0) == 6 {
        s.with_response(position_reply(s))
    } else {
        s
    }
}

/// A short escape sequence.
pub open spec fn esc(s: Screen, byte: u8) -> Screen {
    if byte == 0x37 {
        s.saved()
    } else if byte == 0x38 {
        s.restored()
    } else if byte == 0x4d {
        s.reversed_row()
    } else if byte == 0x45 {
        s.at_col(0).advanced_row()
    } else if byte == 0x44 {
        s.advanced_row()
    } else {
        s
    }
}

/// An operating system command.
pub open spec fn osc_command(s: Screen, parts: Seq<Seq<u8>>) -> Screen {
    if parts.len() > 1 && parts[0] == seq![0x37u8] {
        match osc::osc7_path(parts[1]) {
            Some(path) => s.with_cwd(path),
            None => s,
        }
    } else if parts.len() > 0 && parts[0] == seq![0x31u8, 0x33u8, 0x33u8] {
        match osc::block_mark(parts) {
            Some(BlockMark::Prompt) => s.with_block(),
            Some(BlockMark::Becomes(state)) => s.with_block_state(state),
            None => s,
        }
    } else {
        s
    }
}

/// One recognized event.
pub open spec fn performed(s: Screen, event: Event) -> Screen {
    match event {
        Event::Print(c) => s.typed(c),
        Event::Execute(b) => executed(s, b),
        Event::Csi { params, intermediates, action } => csi(s, params, intermediates, action),
        Event::Esc(b) => esc(s, b),
        Event::Osc(parts) => osc_command(s, parts),
    }
}

/// Several events in turn.
pub open spec fn performed_all(s: Screen, events: Seq<Event>) -> Screen
    decreases events.len(),
{
    if events.len() == 0 {
        s
    } else {
        performed(performed_all(s, events.drop_last()), events.last())
    }
}

/// The screen after `bytes`, where the parser was fed `history` before them.
pub open spec fn run(s: Screen, history: Seq<u8>, bytes: Seq<u8>) -> Screen
    decreases bytes.len(),
{
    if bytes.len() == 0 {
        s
    } else {
        performed_all(
            run(s, history, bytes.drop_last()),
            vt::vt_events(history + bytes.drop_last(), bytes.last()),
        )
    }
}

/// The first value of the first parameter; the default where it is missing or 0.
pub fn first_nonzero(params: &Vec<Vec<u16>>, default: u16) -> (r: u16)
    ensures
        r == value_at(vt::groups_of(params@), 0, default),
{
    first_or(params, 0, default)
}

/// The first value of parameter `i`; the default where it is missing or 0.
pub fn first_or(params: &Vec<Vec<u16>>, i: usize, default: u16) -> (r: u16)
    ensures
        r == value_at(vt::groups_of(params@), i as int, default),
{
    if i < params.len() && params[i].len() > 0 && params[i][0] != 0 {
        params[i][0]
    } else {
        default
    }
}

fn flatten(params: &Vec<Vec<u16>>) -> (r: Vec<u16>)
    ensures
        r@ == flat(vt::groups_of(params@)),
{
    let ghost groups = vt::groups_of(params@);
    let mut r: Vec<u16> = Vec::new();
    for i in 0..params.len()
        invariant
            groups == vt::groups_of(params@),
            r@ == flat(groups.take(i as int)),
    {
        r.extend_from_slice(params[i].as_slice());
        assert(groups.take(i + 1).drop_last() =~= groups.take(i as int));
        assert(r@ =~= flat(groups.take(i + 1)));
    }
    assert(groups.take(groups.len() as int) =~= groups);
    r
}

/// Performs a control character.
pub fn execute(grid: &mut Grid, byte: u8)
    requires
        old(grid)@.wf(),
    ensures
        final(grid)@ == executed(old(grid)@, byte),
        final(grid)@.wf(),
{
    match byte {
        0x0d => grid.carriage_return(),
        0x0a | 0x0b | 0x0c => grid.line_feed(),
        0x08 => grid.backspace(),
        0x09 => grid.tab(),
        _ => {},
    }
}

/// Switches one DEC private mode. Modes that are not known are accepted and
/// have no effect.
pub fn set_dec_mode(grid: &mut Grid, mode: u16, enable: bool)
    requires
        old(grid)@.wf(),
    ensures
        final(grid)@ == dec_mode(old(grid)@, mode, enable),
        final(grid)@.wf(),
{
    match mode {
        25 => grid.set_cursor_visible(enable),
        1049 | 1047 | 47 => {
            if enable {
                grid.enter_alt_screen();
            } else {
                grid.leave_alt_screen();
            }
        },
        2004 => grid.set_bracketed_paste(enable),
        _ => {},
    }
}

fn set_dec_modes(grid: &mut Grid, params: &Vec<Vec<u16>>, enable: bool)
    requires
        old(grid)@.wf(),
    ensures
        final(grid)@ == dec_modes(old(grid)@, flat(vt::groups_of(params@)), enable),
        final(grid)@.wf(),
{
    let modes = flatten(params);
    for i in 0..modes.len()
        invariant
            grid@ == dec_modes(old(grid)@, modes@.take(i as int), enable),
            grid@.wf(),
    {
        assert(modes@.take(i + 1).drop_last() =~= modes@.take(i as int));
        set_dec_mode(grid, modes[i], enable);
    }
    assert(modes@.take(modes@.len() as int) =~= modes@);
}

fn attributes_bytes() -> (r: Vec<u8>)
    ensures
        r@ == attributes_reply(),
{
    let bytes: [u8; 9] = [0x1b, 0x5b, 0x3f, 0x36, 0x32, 0x3b, 0x32, 0x32, 0x63];
    let r = text::copied(&bytes);
    assert(r@ =~= attributes_reply());
    r
}

fn position_bytes(grid: &Grid) -> (r: Vec<u8>)
    requires
        grid@.wf(),
    ensures
        r@ == position_reply(grid@),
{
    let cursor = grid.cursor();
    let last: usize = grid.cols() - 1;
    let col: usize = if cursor.col < last { cursor.col } else { last };
    let mut r: Vec<u8> = Vec::new();
    r.push(0x1b);
    r.push(0x5b);
    assert(r@ =~= seq![0x1bu8, 0x5bu8]);
    text::push_decimal(&mut r, cursor.row + 1);
    r.push(0x3b);
    text::push_decimal(&mut r, col + 1);
    r.push(0x52);
    assert(r@ =~= position_reply(grid@));
    r
}

/// Performs a control sequence.
pub fn csi_dispatch(
    grid: &mut Grid,
    params: &Vec<Vec<u16>>,
    intermediates: &Vec<u8>,
    action: char,
)
    requires
        old(grid)@.wf(),
    ensures
        final(grid)@ == csi(old(grid)@, vt::groups_of(params@), intermediates@, action),
        final(grid)@.wf(),
{
    if intermediates.len() > 0 {
        if intermediates[0] == 0x3f {
            if action == 'h' {
                set_dec_modes(grid, params, true);
            } else if action == 'l' {
                set_dec_modes(grid, params, false);
            }
        }
        return;
    }
    let n: usize = first_nonzero(params, 1) as usize;
    match action {
        'A' => grid.cursor_up(n),
        'B' | 'e' => grid.cursor_down(n),
        'C' | 'a' => grid.cursor_forward(n),
        'D' => grid.cursor_back(n),
        'G' | '`' => grid.cursor_horizontal_absolute(n - 1),
        'd' => grid.cursor_vertical_absolute(n - 1),
        'H' | 'f' => {
            let col: usize = first_or(params, 1, 1) as usize;
            grid.move_cursor(n - 1, col - 1);
        },
        'J' => grid.erase_in_display(first_or(params, 0, 0)),
        'K' => grid.erase_in_line(first_or(params, 0, 0)),
        'L' => grid.insert_lines(n),
        'M' => grid.delete_lines(n),
        'S' => grid.scroll_up(n),
        'T' => grid.scroll_down(n),
        '@' => grid.insert_chars(n),
        'P' => grid.delete_chars(n),
        'X' => grid.erase_chars(n),
        'r' => {
            let rows: u16 = (grid.rows() % 65536) as u16;
            let bot: usize = first_or(params, 1, rows) as usize;
            grid.set_scroll_region(n - 1, bot);
        },
        's' => grid.save_cursor(),
        'u' => grid.restore_cursor(),
        'm' => {
            let codes = flatten(params);
            grid.apply_sgr(codes.as_slice());
        },
        'c' => grid.queue_response(attributes_bytes()),
        'n' => {
            if first_nonzero(params, 0) == 6 {
                let reply = position_bytes(grid);
                grid.queue_response(reply);
            }
        },
        _ => {},
    }
}

/// Performs a short escape sequence.
pub fn esc_dispatch(grid: &mut Grid, byte: u8)
    requires
        old(grid)@.wf(),
    ensures
        final(grid)@ == esc(old(grid)@, byte),
        final(grid)@.wf(),
{
    match byte {
        0x37 => grid.save_cursor(),
        0x38 => grid.restore_cursor(),
        0x4d => grid.reverse_line_feed(),
        0x45 => {
            grid.carriage_return();
            grid.line_feed();
        },
        0x44 => grid.line_feed(),
        _ => {},
    }
}

/// Performs an operating system command.
pub fn osc_dispatch(grid: &mut Grid, parts: &Vec<Vec<u8>>)
    requires
        old(grid)@.wf(),
    ensures
        final(grid)@ == osc_command(old(grid)@, vt::parts_of(parts@)),
        final(grid)@.wf(),
{
    let ghost model = vt::parts_of(parts@);
    if parts.len() == 0 {
        return;
    }
    assert(model[0] == parts@[0]@);
    let cwd: [u8; 1] = [0x37];
    let mark: [u8; 3] = [0x31, 0x33, 0x33];
    assert(cwd@ =~= seq![0x37u8]);
    assert(mark@ =~= seq![0x31u8, 0x33u8, 0x33u8]);
    assert(cwd@.len() == 1 && mark@.len() == 3);
    if text::same_bytes(parts[0].as_slice(), &cwd) {
        if parts.len() > 1 {
            assert(model[1] == parts@[1]@);
            if let Some(path) = osc::parse_osc7_url(parts[1].as_slice()) {
                grid.set_cwd(path);
            }
        }
    } else if text::same_bytes(parts[0].as_slice(), &mark) {
        match osc::parse_block_mark(parts) {
            Some(BlockMark::Prompt) => grid.begin_block(),
            Some(BlockMark::Becomes(state)) => grid.set_block_state(state),
            None => {},
        }
    }
}

/// Performs one recognized event.
pub fn perform(grid: &mut Grid, event: &VtEvent)
    requires
        old(grid)@.wf(),
    ensures
        final(grid)@ == performed(old(grid)@, event@),
        final(grid)@.wf(),
{
    match event {
        VtEvent::Print(c) => {
            grid.try_put_char(*c);
        },
        VtEvent::Execute(b) => execute(grid, *b),
        VtEvent::Csi { params, intermediates, action } => csi_dispatch(
            grid,
            params,
            intermediates,
            *action,
        ),
        VtEvent::Esc(b) => esc_dispatch(grid, *b),
        VtEvent::Osc(parts) => osc_dispatch(grid, parts),
    }
}

/// Performs several events in turn.
fn perform_all(grid: &mut Grid, events: &Vec<VtEvent>)
    requires
        old(grid)@.wf(),
    ensures
        final(grid)@ == performed_all(old(grid)@, vt::events_of(events@)),
        final(grid)@.wf(),
{
    let ghost model = vt::events_of(events@);
    for k in 0..events.len()
        invariant
            model == vt::events_of(events@),
            grid@ == performed_all(old(grid)@, model.take(k as int)),
            grid@.wf(),
    {
        perform(grid, &events[k]);
        assert(model.take(k + 1).drop_last() =~= model.take(k as int));
        assert(model.take(k + 1).last() == events@[k as int]@);
    }
    assert(model.take(model.len() as int) =~= model);
}

/// That every byte of `bytes`, fed after `history`, is read as text where it is
/// text.
pub open spec fn text_is_read(history: Seq<u8>, bytes: Seq<u8>) -> bool {
    forall|i: int|
        0 <= i < bytes.len() ==> #[trigger] vt::reads_text(
            history + bytes.take(i),
            bytes[i],
            vt::vt_events(history + bytes.take(i), bytes[i]),
        )
}

/// The screen after plain text, character by character.
pub open spec fn shown(s: Screen, chars: Seq<char>) -> Screen
    decreases chars.len(),
{
    if chars.len() == 0 {
        s
    } else {
        performed(shown(s, chars.drop_last()), vt::text_event(chars.last()))
    }
}

/// That `history` is text without an escape sequence, complete to its last
/// character.
pub open spec fn is_plain(history: Seq<u8>) -> bool {
    exists|chars: Seq<char>|
        vt::no_escape(chars) && history == #[trigger] utf8::encode_utf8(chars)
}

/// Bytes fed in two pieces do what they do in one: how a stream is cut into
/// pieces does not matter, be it in the middle of an escape sequence or of a
/// character.
pub proof fn pieces_do_not_matter(s: Screen, history: Seq<u8>, a: Seq<u8>, b: Seq<u8>)
    ensures
        run(s, history, a + b) == run(run(s, history, a), history + a, b),
    decreases b.len(),
{
    if b.len() == 0 {
        assert(a + b =~= a);
    } else {
        pieces_do_not_matter(s, history, a, b.drop_last());
        assert((a + b).drop_last() =~= a + b.drop_last());
        assert(history + (a + b.drop_last()) =~= (history + a) + b.drop_last());
    }
}

pub proof fn encode_concat(a: Seq<char>, b: Seq<char>)
    ensures
        utf8::encode_utf8(a + b) == utf8::encode_utf8(a) + utf8::encode_utf8(b),
    decreases a.len(),
{
    if a.len() == 0 {
        assert(a + b =~= b);
        assert(utf8::encode_utf8(a) + utf8::encode_utf8(b) =~= utf8::encode_utf8(b));
    } else {
        encode_concat(a.drop_first(), b);
        assert((a + b).drop_first() =~= a.drop_first() + b);
        assert(utf8::encode_utf8(a + b) =~= utf8::encode_utf8(a) + utf8::encode_utf8(b));
    }
}

pub proof fn encode_one(c: char)
    ensures
        utf8::encode_utf8(seq![c]) == vt::encoded(c),
{
    assert(seq![c].drop_first() =~= Seq::<char>::empty());
    assert(utf8::encode_utf8(Seq::<char>::empty()) =~= Seq::<u8>::empty());
    assert(vt::encoded(c) + Seq::<u8>::empty() =~= vt::encoded(c));
}

/// The first bytes of a character show nothing yet.
proof fn character_begins(s: Screen, chars: Seq<char>, c: char, k: int)
    requires
        vt::no_escape(chars),
        c != vt::ESC,
        0 <= k < vt::encoded(c).len(),
        text_is_read(utf8::encode_utf8(chars), vt::encoded(c)),
    ensures
        run(s, utf8::encode_utf8(chars), vt::encoded(c).take(k)) == s,
    decreases k,
{
    let h = utf8::encode_utf8(chars);
    let e = vt::encoded(c);
    if k > 0 {
        character_begins(s, chars, c, k - 1);
        assert(e.take(k).drop_last() =~= e.take(k - 1));
        let events = vt::vt_events(h + e.take(k - 1), e[k - 1]);
        assert(vt::reads_text(h + e.take(k - 1), e[k - 1], events));
        assert((h + e.take(k - 1)).push(e[k - 1]) =~= h + e.take(k));
        assert(events.len() == 0) by {
            reveal(vt::reads_text);
        }
    }
}

proof fn one_event(s: Screen, e: Event)
    ensures
        performed_all(s, seq![e]) == performed(s, e),
{
    assert(seq![e].drop_last() =~= Seq::<Event>::empty());
    assert(performed_all(s, seq![e].drop_last()) == s);
}

/// The last byte of a character is where the character is recognized.
proof fn character_ends(chars: Seq<char>, c: char)
    requires
        vt::no_escape(chars),
        c != vt::ESC,
        text_is_read(utf8::encode_utf8(chars), vt::encoded(c)),
    ensures
        vt::vt_events(
            utf8::encode_utf8(chars) + vt::encoded(c).drop_last(),
            vt::encoded(c).last(),
        ) == seq![vt::text_event(c)],
{
    let h = utf8::encode_utf8(chars);
    let e = vt::encoded(c);
    let k = e.len() - 1;
    assert(e.drop_last() =~= e.take(k));
    let events = vt::vt_events(h + e.take(k), e[k]);
    assert(vt::reads_text(h + e.take(k), e[k], events));
    assert((h + e.take(k)).push(e[k]) =~= h + e);
    reveal(vt::reads_text);
}

/// All bytes of a character show the character.
proof fn character_shows(s: Screen, chars: Seq<char>, c: char)
    requires
        vt::no_escape(chars),
        c != vt::ESC,
        text_is_read(utf8::encode_utf8(chars), vt::encoded(c)),
    ensures
        run(s, utf8::encode_utf8(chars), vt::encoded(c)) == performed(s, vt::text_event(c)),
{
    let e = vt::encoded(c);
    let k = e.len() - 1;
    character_begins(s, chars, c, k);
    character_ends(chars, c);
    one_event(s, vt::text_event(c));
    assert(e.drop_last() =~= e.take(k));
}

proof fn front_is_read(history: Seq<u8>, a: Seq<u8>, b: Seq<u8>)
    requires
        text_is_read(history, a + b),
    ensures
        text_is_read(history, a),
{
    let all = a + b;
    assert forall|i: int| 0 <= i < a.len() implies #[trigger] vt::reads_text(
        history + a.take(i),
        a[i],
        vt::vt_events(history + a.take(i), a[i]),
    ) by {
        assert(all.take(i) =~= a.take(i));
        assert(all[i] == a[i]);
        assert(vt::reads_text(
            history + all.take(i),
            all[i],
            vt::vt_events(history + all.take(i), all[i]),
        ));
    }
}

proof fn rest_is_read(history: Seq<u8>, a: Seq<u8>, b: Seq<u8>)
    requires
        text_is_read(history, a + b),
    ensures
        text_is_read(history + a, b),
{
    let all = a + b;
    let g = history + a;
    assert forall|i: int| 0 <= i < b.len() implies #[trigger] vt::reads_text(
        g + b.take(i),
        b[i],
        vt::vt_events(g + b.take(i), b[i]),
    ) by {
        let j = a.len() + i;
        assert(history + all.take(j) =~= g + b.take(i));
        assert(all[j] == b[i]);
        assert(vt::reads_text(
            history + all.take(j),
            all[j],
            vt::vt_events(history + all.take(j), all[j]),
        ));
    }
}

proof fn no_escape_parts(chars: Seq<char>)
    requires
        vt::no_escape(chars),
        chars.len() > 0,
    ensures
        vt::no_escape(chars.drop_last()),
        chars.last() != vt::ESC,
{
    let front = chars.drop_last();
    assert forall|i: int| 0 <= i < front.len() implies #[trigger] front[i] != vt::ESC by {
        assert(front[i] == chars[i]);
    }
    assert(chars[chars.len() - 1] != vt::ESC);
}

/// Plain text shows its characters in turn.
proof fn text_shows(s: Screen, before: Seq<char>, chars: Seq<char>)
    requires
        vt::no_escape(before),
        vt::no_escape(chars),
        text_is_read(utf8::encode_utf8(before), utf8::encode_utf8(chars)),
    ensures
        run(s, utf8::encode_utf8(before), utf8::encode_utf8(chars)) == shown(s, chars),
    decreases chars.len(),
{
    if chars.len() > 0 {
        let front = chars.drop_last();
        let c = chars.last();
        let h = utf8::encode_utf8(before);
        let first = utf8::encode_utf8(front);
        let e = vt::encoded(c);
        assert(chars =~= front + seq![c]);
        encode_concat(front, seq![c]);
        encode_one(c);
        no_escape_parts(chars);
        front_is_read(h, first, e);
        rest_is_read(h, first, e);
        text_shows(s, before, front);
        pieces_do_not_matter(s, h, first, e);
        encode_concat(before, front);
        assert(vt::no_escape(before + front));
        character_shows(shown(s, front), before + front, c);
    }
}

/// A terminal: a grid and the state machine that drives it.
pub struct Terminal {
    grid: Grid,
    parser: vte::Parser,
}

/// The model of a terminal: its screen, and the bytes it was fed.
#[verifier::ext_equal]
pub struct TerminalModel {
    pub screen: Screen,
    pub history: Seq<u8>,
}

impl View for Terminal {
    type V = TerminalModel;

    closed spec fn view(&self) -> TerminalModel {
        TerminalModel { screen: self.grid@, history: vt::fed(self.parser) }
    }
}

impl Terminal {
    /// A terminal with a blank grid.
    pub fn new(rows: usize, cols: usize) -> (t: Self)
        requires
            rows <= MAX_SIDE,
            cols <= MAX_SIDE,
        ensures
            t@.screen == Screen::fresh(rows, cols),
            t@.history == Seq::<u8>::empty(),
            t@.screen.wf(),
            is_plain(t@.history),
    {
        assert(is_plain(Seq::<u8>::empty())) by {
            assert(vt::no_escape(Seq::<char>::empty()));
            assert(utf8::encode_utf8(Seq::<char>::empty()) =~= Seq::<u8>::empty());
        }
        Terminal { grid: Grid::new(rows, cols), parser: vt::new_parser() }
    }

    /// The grid.
    pub fn grid(&self) -> (r: &Grid)
        ensures
            r@ == self@.screen,
    {
        &self.grid
    }

    /// The grid, to change it. The parser is not affected.
    pub fn grid_mut(&mut self) -> (r: &mut Grid)
        ensures
            r@ == old(self)@.screen,
            final(self)@ == (TerminalModel { screen: final(r)@, ..old(self)@ }),
    {
        &mut self.grid
    }

    /// Feeds bytes through the parser.
    pub fn advance(&mut self, bytes: &[u8])
        requires
            old(self)@.screen.wf(),
        ensures
            final(self)@.screen == run(old(self)@.screen, old(self)@.history, bytes@),
            final(self)@.history == old(self)@.history + bytes@,
            final(self)@.screen.wf(),
            forall|chars: Seq<char>|
                is_plain(old(self)@.history) && vt::no_escape(chars) && bytes@
                    == #[trigger] utf8::encode_utf8(chars) ==> final(self)@.screen == shown(
                    old(self)@.screen,
                    chars,
                ) && is_plain(final(self)@.history),
    {
        let ghost start = old(self)@;
        let ghost all = bytes@;
        assert(start.history + all.take(0) =~= start.history);
        for i in 0..bytes.len()
            invariant
                all == bytes@,
                self@.screen == run(start.screen, start.history, all.take(i as int)),
                self@.history == start.history + all.take(i as int),
                self@.screen.wf(),
                forall|k: int|
                    0 <= k < i ==> #[trigger] vt::reads_text(
                        start.history + all.take(k),
                        all[k],
                        vt::vt_events(start.history + all.take(k), all[k]),
                    ),
        {
            let events = vt::feed(&mut self.parser, bytes[i]);
            perform_all(&mut self.grid, &events);
            proof {
                assert(all.take(i + 1).drop_last() =~= all.take(i as int));
                assert(self@.history =~= start.history + all.take(i + 1));
            }
        }
        assert(all.take(all.len() as int) =~= all);
        assert(text_is_read(start.history, all));
        assert forall|chars: Seq<char>|
            is_plain(start.history) && vt::no_escape(chars) && all == #[trigger] utf8::encode_utf8(
                chars,
            ) implies self@.screen == shown(start.screen, chars) && is_plain(self@.history) by {
            let before = choose|before: Seq<char>|
                vt::no_escape(before) && start.history == #[trigger] utf8::encode_utf8(before);
            text_shows(start.screen, before, chars);
            encode_concat(before, chars);
            assert(vt::no_escape(before + chars));
        }
    }

    /// Feeds text through the parser. Text without escape sequences, where none
    /// was left open before, shows its characters one after the other.
    pub fn advance_str(&mut self, s: &str)
        requires
            old(self)@.screen.wf(),
        ensures
            final(self)@.screen == run(
                old(self)@.screen,
                old(self)@.history,
                utf8::encode_utf8(s@),
            ),
            final(self)@.history == old(self)@.history + utf8::encode_utf8(s@),
            final(self)@.screen.wf(),
            is_plain(old(self)@.history) && vt::no_escape(s@) ==> final(self)@.screen == shown(
                old(self)@.screen,
                s@,
            ) && is_plain(final(self)@.history),
    {
        self.advance(s.as_bytes());
    }
}

} // verus!
