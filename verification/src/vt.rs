//! The boundary to the `vte` escape sequence parser.
//!
//! `vte` splits a byte stream into printed characters, control characters and
//! escape sequences. Here each of these is an [`VtEvent`], a plain value, so
//! that what a terminal does with them can be stated and proved.

use vstd::prelude::*;
use vstd::utf8;

use crate::text;

verus! {

/// The character that opens an escape sequence.
pub const ESC: char = '\x1b';

/// One thing that the parser recognized.
#[derive(Debug)]
pub enum VtEvent {
    /// A character to show.
    Print(char),
    /// A control character.
    Execute(u8),
    /// `CSI` sequence: parameters (each with its subparameters), intermediate
    /// bytes, and the final character.
    Csi { params: Vec<Vec<u16>>, intermediates: Vec<u8>, action: char },
    /// `ESC` sequence, by its final byte.
    Esc(u8),
    /// `OSC` sequence: the parts between semicolons.
    Osc(Vec<Vec<u8>>),
}

/// The model of an event.
#[verifier::ext_equal]
pub enum Event {
    Print(char),
    Execute(u8),
    Csi { params: Seq<Seq<u16>>, intermediates: Seq<u8>, action: char },
    Esc(u8),
    Osc(Seq<Seq<u8>>),
}

/// The model of a list of parameter groups.
pub open spec fn groups_of(params: Seq<Vec<u16>>) -> Seq<Seq<u16>> {
    Seq::new(params.len(), |i: int| params[i]@)
}

/// The model of a list of byte strings.
pub open spec fn parts_of(parts: Seq<Vec<u8>>) -> Seq<Seq<u8>> {
    Seq::new(parts.len(), |i: int| parts[i]@)
}

impl View for VtEvent {
    type V = Event;

    open spec fn view(&self) -> Event {
        match *self {
            VtEvent::Print(c) => Event::Print(c),
            VtEvent::Execute(b) => Event::Execute(b),
            VtEvent::Csi { params, intermediates, action } => Event::Csi {
                params: groups_of(params@),
                intermediates: intermediates@,
                action,
            },
            VtEvent::Esc(b) => Event::Esc(b),
            VtEvent::Osc(parts) => Event::Osc(parts_of(parts@)),
        }
    }
}

/// The model of a list of events.
pub open spec fn events_of(events: Seq<VtEvent>) -> Seq<Event> {
    Seq::new(events.len(), |i: int| events[i]@)
}

/// `vte::Parser`, the state machine.
#[verifier::external_type_specification]
#[verifier::external_body]
pub struct ExParser<const OSC_RAW_BUF_SIZE: usize>(vte::Parser<OSC_RAW_BUF_SIZE>);

/// `vte::Params`, the parameters of one sequence.
#[verifier::external_type_specification]
#[verifier::external_body]
pub struct ExParams(vte::Params);

/// The bytes that a parser was fed since it was made.
pub uninterp spec fn fed(parser: vte::Parser) -> Seq<u8>;

/// What a parser recognizes at byte `b` after the bytes `history`.
pub uninterp spec fn vt_events(history: Seq<u8>, b: u8) -> Seq<Event>;

/// The parameters of a sequence, each with its subparameters.
pub uninterp spec fn param_values(params: vte::Params) -> Seq<Seq<u16>>;

/// Text that opens no escape sequence.
pub open spec fn no_escape(text: Seq<char>) -> bool {
    forall|i: int| 0 <= i < text.len() ==> #[trigger] text[i] != ESC
}

/// The UTF-8 encoding of one character.
pub open spec fn encoded(c: char) -> Seq<u8> {
    utf8::encode_scalar(c as u32)
}

/// What a character of plain text stands for.
pub open spec fn text_event(c: char) -> Event {
    if c as u32 <= 0x1f {
        Event::Execute(c as u8)
    } else {
        Event::Print(c)
    }
}

/// That `events` is what plain text gives at byte `b` after the bytes
/// `history`: the character that `b` completes, or nothing where it completes
/// none.
#[verifier::opaque]
pub open spec fn reads_text(history: Seq<u8>, b: u8, events: Seq<Event>) -> bool {
    &&& forall|text: Seq<char>, c: char|
        no_escape(text) && c != ESC && history.push(b) == #[trigger] utf8::encode_utf8(text)
            + #[trigger] encoded(c) ==> events == seq![text_event(c)]
    &&& forall|text: Seq<char>, c: char, k: int|
        no_escape(text) && c != ESC && 0 < k < encoded(c).len()
            && history.push(b) == #[trigger] utf8::encode_utf8(text)
            + #[trigger] encoded(c).take(k) ==> events.len() == 0
}

/// Records what the parser recognizes.
struct EventLog {
    events: Vec<VtEvent>,
}

impl View for EventLog {
    type V = Seq<Event>;

    closed spec fn view(&self) -> Seq<Event> {
        events_of(self.events@)
    }
}

impl EventLog {
    fn record(&mut self, event: VtEvent)
        ensures
            final(self)@ == old(self)@.push(event@),
    {
        self.events.push(event);
        assert(self@ =~= old(self)@.push(event@));
    }
}

/// `vte::Params::iter`, copied into vectors.
///
/// Claimed: the groups come in order, each with its subparameters.
#[verifier::external_body]
fn param_groups(params: &vte::Params) -> (groups: Vec<Vec<u16>>)
    ensures
        groups_of(groups@) == param_values(*params),
{
    params.iter().map(|group| group.to_vec()).collect()
}

impl vte::Perform for EventLog {
    fn print(&mut self, c: char)
        ensures
            final(self)@ == old(self)@.push(Event::Print(c)),
    {
        self.record(VtEvent::Print(c));
    }

    fn execute(&mut self, byte: u8)
        ensures
            final(self)@ == old(self)@.push(Event::Execute(byte)),
    {
        self.record(VtEvent::Execute(byte));
    }

    fn csi_dispatch(
        &mut self,
        params: &vte::Params,
        intermediates: &[u8],
        _ignore: bool,
        action: char,
    )
        ensures
            final(self)@ == old(self)@.push(
                Event::Csi {
                    params: param_values(*params),
                    intermediates: intermediates@,
                    action,
                },
            ),
    {
        let event = VtEvent::Csi {
            params: param_groups(params),
            intermediates: text::copied(intermediates),
            action,
        };
        self.record(event);
    }

    fn esc_dispatch(&mut self, _intermediates: &[u8], _ignore: bool, byte: u8)
        ensures
            final(self)@ == old(self)@.push(Event::Esc(byte)),
    {
        self.record(VtEvent::Esc(byte));
    }

    fn osc_dispatch(&mut self, params: &[&[u8]], _bell_terminated: bool)
        ensures
            final(self)@ == old(self)@.push(
                Event::Osc(Seq::new(params@.len(), |i: int| params@[i]@)),
            ),
    {
        let mut parts: Vec<Vec<u8>> = Vec::new();
        for i in 0..params.len()
            invariant
                parts_of(parts@) == Seq::new(i as nat, |k: int| params@[k]@),
        {
            let ghost before = parts@;
            parts.push(text::copied(params[i]));
            assert(parts_of(parts@) =~= parts_of(before).push(params@[i as int]@));
        }
        assert(parts_of(parts@) =~= Seq::new(params@.len(), |i: int| params@[i]@));
        self.record(VtEvent::Osc(parts));
    }
}

/// `vte::Parser::new`.
///
/// Claimed: the parser was fed nothing yet.
#[verifier::external_body]
pub(crate) fn new_parser() -> (parser: vte::Parser)
    ensures
        fed(parser) == Seq::<u8>::empty(),
{
    vte::Parser::new()
}

/// `vte::Parser::advance`, with what it calls back for as a list.
///
/// Claimed: what the parser recognizes is a function of the bytes that it was
/// fed. In text without escape sequences it recognizes each character at the
/// character's last byte. Device control strings are not recorded.
#[verifier::external_body]
pub(crate) fn feed(parser: &mut vte::Parser, b: u8) -> (events: Vec<VtEvent>)
    ensures
        fed(*final(parser)) == fed(*old(parser)).push(b),
        events_of(events@) == vt_events(fed(*old(parser)), b),
        reads_text(fed(*old(parser)), b, events_of(events@)),
{
    let mut log = EventLog { events: Vec::new() };
    parser.advance(&mut log, b);
    log.events
}

} // verus!
