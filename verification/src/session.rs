//! The state of one tab, and what keyboard input does to it.
//!
//! Keys go to the shell, until `>` at an empty prompt opens a line for the
//! agent. The line is kept and echoed here; the shell sees nothing of it. While
//! the agent runs, only Ctrl+C is heard.

use vstd::math;
use vstd::prelude::*;
use vstd::utf8;

use crate::keys;
use crate::keys::{Key, KeyEvent, KeyInput, KeyModel, Modifiers, NamedKey};
use crate::paste;
use crate::selection::Selection;
use crate::text;

verus! {

/// Where keyboard input goes.
#[derive(Debug)]
pub enum InputMode {
    /// To the shell.
    Normal,
    /// Into the agent's prompt. `start_col` is the column of the `> ` marker:
    /// only what is right of it is redrawn, so that the shell's prompt stays.
    AgentInput { buffer: String, start_col: usize },
    /// Nowhere: an agent is running. Ctrl+C kills it.
    AgentRunning,
}

impl Default for InputMode {
    fn default() -> (r: Self)
        ensures
            r@ == ModeModel::Normal,
    {
        InputMode::Normal
    }
}

/// The model of an input mode.
#[verifier::ext_equal]
pub enum ModeModel {
    Normal,
    AgentInput { buffer: Seq<char>, start_col: usize },
    AgentRunning,
}

impl View for InputMode {
    type V = ModeModel;

    open spec fn view(&self) -> ModeModel {
        match *self {
            InputMode::Normal => ModeModel::Normal,
            InputMode::AgentInput { buffer, start_col } => ModeModel::AgentInput {
                buffer: buffer@,
                start_col,
            },
            InputMode::AgentRunning => ModeModel::AgentRunning,
        }
    }
}

/// What a tab remembers while another one is shown.
#[derive(Debug)]
pub struct SavedSessionState {
    /// How many rows the view is scrolled back.
    pub scroll_offset: usize,
    pub input_mode: InputMode,
    /// An estimate of whether the shell's input line is empty.
    pub shell_input_empty: bool,
    pub selection: Option<Selection>,
}

/// The model of a tab's state.
#[verifier::ext_equal]
pub struct SessionModel {
    pub scroll_offset: usize,
    pub mode: ModeModel,
    pub shell_input_empty: bool,
    pub selection: Option<Selection>,
}

impl SessionModel {
    /// The state of a tab that was just opened.
    pub open spec fn fresh() -> SessionModel {
        SessionModel {
            scroll_offset: 0,
            mode: ModeModel::Normal,
            shell_input_empty: false,
            selection: None,
        }
    }

    /// The state when the agent has finished: keys go to the shell again, at a fresh
    /// prompt.
    pub open spec fn agent_done(self) -> SessionModel {
        SessionModel { mode: ModeModel::Normal, shell_input_empty: true, ..self }
    }

    /// The state when the agent could not be started: keys go to the shell again.
    pub open spec fn agent_failed(self) -> SessionModel {
        SessionModel { mode: ModeModel::Normal, ..self }
    }

    /// The marker's column can be counted from 1.
    pub open spec fn wf(self) -> bool {
        self.mode matches ModeModel::AgentInput { start_col, .. } ==> start_col < usize::MAX
    }
}

impl View for SavedSessionState {
    type V = SessionModel;

    open spec fn view(&self) -> SessionModel {
        SessionModel {
            scroll_offset: self.scroll_offset,
            mode: self.input_mode@,
            shell_input_empty: self.shell_input_empty,
            selection: self.selection,
        }
    }
}

impl Default for SavedSessionState {
    fn default() -> (r: Self)
        ensures
            r@ == SessionModel::fresh(),
    {
        SavedSessionState {
            scroll_offset: 0,
            input_mode: InputMode::Normal,
            shell_input_empty: false,
            selection: None,
        }
    }
}

/// What is to be done about an input.
#[derive(Debug)]
pub struct InputEffect {
    /// Bytes for the shell.
    pub write: Vec<u8>,
    /// Bytes for the terminal's own grid.
    pub echo: Vec<u8>,
    /// Start an agent with this prompt.
    pub spawn: Option<String>,
    /// Kill the running agent.
    pub kill: bool,
    pub redraw: bool,
}

/// The model of an effect.
#[verifier::ext_equal]
pub struct EffectModel {
    pub write: Seq<u8>,
    pub echo: Seq<u8>,
    pub spawn: Option<Seq<char>>,
    pub kill: bool,
    pub redraw: bool,
}

impl EffectModel {
    pub open spec fn none() -> EffectModel {
        EffectModel {
            write: Seq::empty(),
            echo: Seq::empty(),
            spawn: None,
            kill: false,
            redraw: false,
        }
    }
}

impl View for InputEffect {
    type V = EffectModel;

    open spec fn view(&self) -> EffectModel {
        EffectModel {
            write: self.write@,
            echo: self.echo@,
            spawn: match self.spawn {
                Some(s) => Some(s@),
                None => None,
            },
            kill: self.kill,
            redraw: self.redraw,
        }
    }
}

impl InputEffect {
    fn none() -> (r: Self)
        ensures
            r@ == EffectModel::none(),
    {
        let r = InputEffect {
            write: Vec::new(),
            echo: Vec::new(),
            spawn: None,
            kill: false,
            redraw: false,
        };
        assert(r@ =~= EffectModel::none());
        r
    }
}

/// A byte of printable ASCII or of UTF-8 text beyond ASCII.
pub open spec fn fills_line(b: u8) -> bool {
    0x20 <= b <= 0x7e || b >= 0x80
}

/// Whether the shell's input line is taken to be empty after `bytes` were sent.
///
/// - Enter, Ctrl+C and Ctrl+U empty it.
/// - Backspace, Tab and escape sequences change nothing.
/// - Text fills it.
/// - Any other control character changes nothing.
pub open spec fn input_empty_after(bytes: Seq<u8>, was: bool) -> bool {
    if bytes.len() == 0 {
        was
    } else if bytes.len() == 1 && (bytes[0] == 0x0d || bytes[0] == 0x0a || bytes[0] == 0x03
        || bytes[0] == 0x15) {
        true
    } else if bytes[0] == 0x1b {
        was
    } else if exists|i: int| 0 <= i < bytes.len() && fills_line(#[trigger] bytes[i]) {
        false
    } else {
        was
    }
}

/// Updates the estimate of whether the shell's input line is empty.
pub fn update_shell_input_empty(bytes: &[u8], shell_input_empty: &mut bool)
    ensures
        *final(shell_input_empty) == input_empty_after(bytes@, *old(shell_input_empty)),
{
    if bytes.len() == 0 {
        return;
    }
    if bytes.len() == 1 && (bytes[0] == 0x0d || bytes[0] == 0x0a || bytes[0] == 0x03 || bytes[0]
        == 0x15) {
        *shell_input_empty = true;
        return;
    }
    if bytes[0] == 0x1b {
        return;
    }
    for i in 0..bytes.len()
        invariant
            forall|k: int| 0 <= k < i ==> !fills_line(#[trigger] bytes@[k]),
            bytes@.len() > 0,
            bytes@[0] != 0x1b,
            !(bytes@.len() == 1 && (bytes@[0] == 0x0d || bytes@[0] == 0x0a || bytes@[0] == 0x03
                || bytes@[0] == 0x15)),
            *shell_input_empty == *old(shell_input_empty),
    {
        let b: u8 = bytes[i];
        if (0x20 <= b && b <= 0x7e) || b >= 0x80 {
            assert(fills_line(bytes@[i as int]));
            *shell_input_empty = false;
            return;
        }
    }
}

/// The bytes that erase the agent's line from its marker on.
pub open spec fn clear_line(start_col: int) -> Seq<u8> {
    seq![0x1bu8, 0x5bu8] + text::decimal((start_col + 1) as nat) + seq![
        0x47u8,
        0x1bu8,
        0x5bu8,
        0x4bu8,
    ]
}

/// The `> ` marker, in bold cyan.
pub open spec fn marker() -> Seq<u8> {
    seq![
        0x1bu8,
        0x5bu8,
        0x31u8,
        0x3bu8,
        0x33u8,
        0x36u8,
        0x6du8,
        0x3eu8,
        0x20u8,
        0x1bu8,
        0x5bu8,
        0x30u8,
        0x6du8,
    ]
}

/// The bytes that redraw the agent's line.
pub open spec fn agent_line(buffer: Seq<char>, start_col: int) -> Seq<u8> {
    clear_line(start_col) + marker() + utf8::encode_utf8(buffer)
}

/// Builds the bytes that erase the agent's line.
pub fn clear_line_bytes(start_col: usize) -> (r: Vec<u8>)
    requires
        start_col < usize::MAX,
    ensures
        r@ == clear_line(start_col as int),
{
    let mut r: Vec<u8> = vec![0x1b, 0x5b];
    assert(r@ =~= seq![0x1bu8, 0x5bu8]);
    text::push_decimal(&mut r, start_col + 1);
    let tail: [u8; 4] = [0x47, 0x1b, 0x5b, 0x4b];
    r.extend_from_slice(&tail);
    assert(r@ =~= clear_line(start_col as int));
    r
}

/// Builds the bytes that redraw the agent's line. The marker is always shown:
/// the line is in use, be it empty or not.
pub fn agent_line_bytes(buffer: &str, start_col: usize) -> (r: Vec<u8>)
    requires
        start_col < usize::MAX,
    ensures
        r@ == agent_line(buffer@, start_col as int),
{
    let mut r = clear_line_bytes(start_col);
    let mark: [u8; 13] = [
        0x1b,
        0x5b,
        0x31,
        0x3b,
        0x33,
        0x36,
        0x6d,
        0x3e,
        0x20,
        0x1b,
        0x5b,
        0x30,
        0x6d,
    ];
    assert(mark@ =~= marker());
    r.extend_from_slice(&mark);
    r.extend_from_slice(buffer.as_bytes());
    assert(r@ =~= agent_line(buffer@, start_col as int));
    r
}

/// A key for the shell. Any key brings the view back to the live bottom. `>` at
/// an empty prompt opens the agent's line instead of reaching the shell.
pub open spec fn normal_key(s: SessionModel, bytes: Option<Seq<u8>>, cursor_col: usize) -> (
    SessionModel,
    EffectModel,
) {
    match bytes {
        None => (s, EffectModel::none()),
        Some(b) => if b == seq![0x3eu8] && s.shell_input_empty {
            (
                SessionModel {
                    scroll_offset: 0,
                    mode: ModeModel::AgentInput { buffer: Seq::empty(), start_col: cursor_col },
                    ..s
                },
                EffectModel {
                    echo: agent_line(Seq::empty(), cursor_col as int),
                    redraw: true,
                    ..EffectModel::none()
                },
            )
        } else {
            (
                SessionModel {
                    scroll_offset: 0,
                    shell_input_empty: input_empty_after(b, s.shell_input_empty),
                    ..s
                },
                EffectModel { write: b, redraw: s.scroll_offset != 0, ..EffectModel::none() },
            )
        },
    }
}

/// The agent's line closed and erased.
pub open spec fn line_closed(s: SessionModel, start_col: usize) -> (SessionModel, EffectModel) {
    (
        SessionModel { mode: ModeModel::Normal, ..s },
        EffectModel { echo: clear_line(start_col as int), redraw: true, ..EffectModel::none() },
    )
}

/// The agent's line with another content.
pub open spec fn line_edited(s: SessionModel, buffer: Seq<char>, start_col: usize) -> (
    SessionModel,
    EffectModel,
) {
    (
        SessionModel { mode: ModeModel::AgentInput { buffer, start_col }, ..s },
        EffectModel {
            echo: agent_line(buffer, start_col as int),
            redraw: true,
            ..EffectModel::none()
        },
    )
}

/// A key for the agent's line: Escape leaves it, Enter starts the agent (or
/// leaves the line where it is blank), Backspace takes the last character off or
/// leaves the line where it is empty, and text is appended.
pub open spec fn agent_key(
    s: SessionModel,
    buffer: Seq<char>,
    start_col: usize,
    event: KeyEvent,
) -> (SessionModel, EffectModel) {
    if !event.pressed {
        (s, EffectModel::none())
    } else if event.key == KeyModel::Named(NamedKey::Escape) {
        line_closed(s, start_col)
    } else if event.key == KeyModel::Named(NamedKey::Enter) {
        if text::is_blank_text(buffer) {
            line_closed(s, start_col)
        } else {
            (
                SessionModel { mode: ModeModel::AgentRunning, ..s },
                EffectModel {
                    echo: seq![0x0du8, 0x0au8],
                    spawn: Some(buffer),
                    ..EffectModel::none()
                },
            )
        }
    } else if event.key == KeyModel::Named(NamedKey::Backspace) {
        if buffer.len() > 0 {
            line_edited(s, buffer.drop_last(), start_col)
        } else {
            line_closed(s, start_col)
        }
    } else {
        match event.text {
            Some(t) => if t.len() > 0 {
                line_edited(s, buffer + t, start_col)
            } else {
                (s, EffectModel::none())
            },
            None => (s, EffectModel::none()),
        }
    }
}

/// A key event, by mode.
pub open spec fn key_pressed(
    s: SessionModel,
    event: KeyEvent,
    mods: Modifiers,
    cursor_col: usize,
) -> (SessionModel, EffectModel) {
    match s.mode {
        ModeModel::Normal => normal_key(s, keys::key_bytes(event, mods), cursor_col),
        ModeModel::AgentInput { buffer, start_col } => agent_key(s, buffer, start_col, event),
        ModeModel::AgentRunning => (
            s,
            EffectModel {
                kill: keys::key_bytes(event, mods) == Some(seq![0x03u8]),
                ..EffectModel::none()
            },
        ),
    }
}

/// Text committed by an input method, by mode.
pub open spec fn committed(s: SessionModel, chars: Seq<char>) -> (SessionModel, EffectModel) {
    let bottom = SessionModel { scroll_offset: 0, ..s };
    let bytes = utf8::encode_utf8(chars);
    let moved = s.scroll_offset != 0;
    if chars.len() == 0 {
        (s, EffectModel::none())
    } else {
        match s.mode {
            ModeModel::Normal => (
                SessionModel {
                    shell_input_empty: input_empty_after(bytes, s.shell_input_empty),
                    ..bottom
                },
                EffectModel { write: bytes, redraw: moved, ..EffectModel::none() },
            ),
            ModeModel::AgentInput { buffer, start_col } => line_edited(
                bottom,
                buffer + chars,
                start_col,
            ),
            ModeModel::AgentRunning => (
                bottom,
                EffectModel { redraw: moved, ..EffectModel::none() },
            ),
        }
    }
}

/// A clipboard text pasted: it goes to the shell in every mode. The view goes
/// back to the live bottom and the selection is dropped.
pub open spec fn pasted(s: SessionModel, chars: Seq<char>, bracketed: bool) -> (
    SessionModel,
    EffectModel,
) {
    let typed = paste::with_shell_newlines(utf8::encode_utf8(chars));
    if chars.len() == 0 {
        (s, EffectModel::none())
    } else {
        (
            SessionModel {
                shell_input_empty: input_empty_after(typed, s.shell_input_empty),
                scroll_offset: 0,
                selection: None,
                ..s
            },
            EffectModel {
                write: paste::paste_payload(typed, bracketed),
                redraw: true,
                ..EffectModel::none()
            },
        )
    }
}

/// The scroll offset after the wheel turned by `delta` rows; up is positive.
pub open spec fn wheeled(offset: int, delta: int, max: int) -> int {
    if delta > 0 {
        math::min(offset + delta, max)
    } else {
        math::max(offset + delta, 0)
    }
}

impl SavedSessionState {
    fn close_line(&mut self, start_col: usize) -> (e: InputEffect)
        requires
            start_col < usize::MAX,
        ensures
            (final(self)@, e@) == line_closed(old(self)@, start_col),
    {
        self.input_mode = InputMode::Normal;
        let mut e = InputEffect::none();
        e.echo = clear_line_bytes(start_col);
        e.redraw = true;
        assert(e@ =~= line_closed(old(self)@, start_col).1);
        assert(self@ =~= line_closed(old(self)@, start_col).0);
        e
    }

    fn edit_line(&mut self, buffer: String, start_col: usize) -> (e: InputEffect)
        requires
            start_col < usize::MAX,
        ensures
            (final(self)@, e@) == line_edited(old(self)@, buffer@, start_col),
    {
        let mut e = InputEffect::none();
        e.echo = agent_line_bytes(buffer.as_str(), start_col);
        e.redraw = true;
        self.input_mode = InputMode::AgentInput { buffer, start_col };
        assert(e@ =~= line_edited(old(self)@, buffer@, start_col).1);
        assert(self@ =~= line_edited(old(self)@, buffer@, start_col).0);
        e
    }

    /// A key for the shell. `cursor_col` is the terminal's cursor column.
    pub fn handle_normal_input(&mut self, event: &KeyInput, mods: Modifiers, cursor_col: usize) -> (e:
        InputEffect)
        requires
            cursor_col < usize::MAX,
        ensures
            (final(self)@, e@) == normal_key(
                old(self)@,
                keys::key_bytes(event@, mods),
                cursor_col,
            ),
    {
        let mut e = InputEffect::none();
        let ghost s = old(self)@;
        match keys::key_event_to_bytes(event, mods) {
            None => {},
            Some(bytes) => {
                e.redraw = self.scroll_offset != 0;
                self.scroll_offset = 0;
                let prompt: [u8; 1] = [0x3e];
                assert(prompt@ =~= seq![0x3eu8]);
                if text::same_bytes(bytes.as_slice(), &prompt) && self.shell_input_empty {
                    let buffer = String::new();
                    e.echo = agent_line_bytes(buffer.as_str(), cursor_col);
                    e.redraw = true;
                    self.input_mode = InputMode::AgentInput { buffer, start_col: cursor_col };
                } else {
                    update_shell_input_empty(bytes.as_slice(), &mut self.shell_input_empty);
                    e.write = bytes;
                }
            },
        }
        proof {
            let (s2, e2) = normal_key(s, keys::key_bytes(event@, mods), cursor_col);
            assert(self@ =~= s2);
            assert(e@ =~= e2);
        }
        e
    }

    /// A key for the agent's line.
    pub fn handle_agent_input(&mut self, event: &KeyInput) -> (e: InputEffect)
        requires
            old(self)@.mode is AgentInput,
            old(self)@.wf(),
        ensures
            (final(self)@, e@) == agent_key(
                old(self)@,
                old(self)@.mode->buffer,
                old(self)@.mode->start_col,
                event@,
            ),
    {
        let ghost s = old(self)@;
        if !event.pressed {
            return InputEffect::none();
        }
        let mut mode = InputMode::Normal;
        core::mem::swap(&mut mode, &mut self.input_mode);
        let e = match mode {
            InputMode::AgentInput { buffer, start_col } => {
                let mut buffer = buffer;
                let named: NamedKey = match &event.key {
                    Key::Named(k) => *k,
                    _ => NamedKey::Other,
                };
                if named == NamedKey::Escape {
                    self.close_line(start_col)
                } else if named == NamedKey::Enter {
                    if text::blank_text(buffer.as_str()) {
                        self.close_line(start_col)
                    } else {
                        self.input_mode = InputMode::AgentRunning;
                        let mut e = InputEffect::none();
                        e.echo = vec![0x0d, 0x0a];
                        e.spawn = Some(buffer);
                        assert(e.echo@ =~= seq![0x0du8, 0x0au8]);
                        e
                    }
                } else if named == NamedKey::Backspace {
                    if buffer.pop().is_some() {
                        self.edit_line(buffer, start_col)
                    } else {
                        self.close_line(start_col)
                    }
                } else {
                    let mut typed = false;
                    if let Some(t) = &event.text {
                        if text::chars_of(t.as_str()).len() > 0 {
                            buffer.append(t.as_str());
                            typed = true;
                        }
                    }
                    if typed {
                        self.edit_line(buffer, start_col)
                    } else {
                        self.input_mode = InputMode::AgentInput { buffer, start_col };
                        InputEffect::none()
                    }
                }
            },
            other => {
                assert(false);
                self.input_mode = other;
                InputEffect::none()
            },
        };
        proof {
            let (s2, e2) = agent_key(s, s.mode->buffer, s.mode->start_col, event@);
            assert(self@ =~= s2);
            assert(e@ =~= e2);
        }
        e
    }

    /// A key event, by mode.
    pub fn handle_keyboard_input(
        &mut self,
        event: &KeyInput,
        mods: Modifiers,
        cursor_col: usize,
    ) -> (e: InputEffect)
        requires
            old(self)@.wf(),
            cursor_col < usize::MAX,
        ensures
            (final(self)@, e@) == key_pressed(old(self)@, event@, mods, cursor_col),
            final(self)@.wf(),
    {
        match &self.input_mode {
            InputMode::Normal => self.handle_normal_input(event, mods, cursor_col),
            InputMode::AgentInput { .. } => self.handle_agent_input(event),
            InputMode::AgentRunning => {
                let mut e = InputEffect::none();
                if let Some(bytes) = keys::key_event_to_bytes(event, mods) {
                    let interrupt: [u8; 1] = [0x03];
                    assert(interrupt@ =~= seq![0x03u8]);
                    e.kill = text::same_bytes(bytes.as_slice(), &interrupt);
                }
                e
            },
        }
    }

    /// Text committed by an input method.
    pub fn handle_ime_commit(&mut self, committed_text: &str) -> (e: InputEffect)
        requires
            old(self)@.wf(),
        ensures
            (final(self)@, e@) == committed(old(self)@, committed_text@),
            final(self)@.wf(),
    {
        let ghost s = old(self)@;
        let mut e = InputEffect::none();
        if text::chars_of(committed_text).len() == 0 {
            return e;
        }
        e.redraw = self.scroll_offset != 0;
        self.scroll_offset = 0;
        let mut mode = InputMode::Normal;
        core::mem::swap(&mut mode, &mut self.input_mode);
        match mode {
            InputMode::Normal => {
                e.write = text::copied(committed_text.as_bytes());
                update_shell_input_empty(committed_text.as_bytes(), &mut self.shell_input_empty);
            },
            InputMode::AgentInput { buffer, start_col } => {
                let mut buffer = buffer;
                buffer.append(committed_text);
                e = self.edit_line(buffer, start_col);
            },
            InputMode::AgentRunning => {
                self.input_mode = InputMode::AgentRunning;
            },
        }
        proof {
            let (s2, e2) = committed(s, committed_text@);
            assert(self@ =~= s2);
            assert(e@ =~= e2);
        }
        e
    }

    /// A clipboard text pasted.
    pub fn handle_paste(&mut self, clipboard: &str, bracketed: bool) -> (e: InputEffect)
        ensures
            (final(self)@, e@) == pasted(old(self)@, clipboard@, bracketed),
    {
        let ghost s = old(self)@;
        let mut e = InputEffect::none();
        if text::chars_of(clipboard).len() == 0 {
            return e;
        }
        let ready = paste::prepare_paste(clipboard, bracketed);
        update_shell_input_empty(ready.typed.as_slice(), &mut self.shell_input_empty);
        self.scroll_offset = 0;
        self.selection = None;
        e.write = ready.payload;
        e.redraw = true;
        proof {
            let (s2, e2) = pasted(s, clipboard@, bracketed);
            assert(self@ =~= s2);
            assert(e@ =~= e2);
        }
        e
    }

    /// The wheel turned by `delta_rows`, up being positive. Returns whether the
    /// view moved.
    pub fn handle_wheel(&mut self, delta_rows: i32, scrollback_len: usize) -> (moved: bool)
        requires
            delta_rows > i32::MIN,
        ensures
            final(self)@ == (SessionModel {
                scroll_offset: wheeled(
                    old(self)@.scroll_offset as int,
                    delta_rows as int,
                    scrollback_len as int,
                ) as usize,
                ..old(self)@
            }),
            moved == (final(self)@.scroll_offset != old(self)@.scroll_offset),
    {
        let before: usize = self.scroll_offset;
        let after: usize = if delta_rows > 0 {
            let sum: usize = before.saturating_add(delta_rows as usize);
            if sum < scrollback_len {
                sum
            } else {
                scrollback_len
            }
        } else {
            before.saturating_sub((-delta_rows) as usize)
        };
        self.scroll_offset = after;
        after != before
    }

    /// The tab's agent has finished: keys go to the shell again, at a fresh
    /// prompt.
    pub fn agent_finished(&mut self)
        ensures
            final(self)@ == (SessionModel {
                mode: ModeModel::Normal,
                shell_input_empty: true,
                ..old(self)@
            }),
            final(self)@ == old(self)@.agent_done(),
    {
        self.input_mode = InputMode::Normal;
        self.shell_input_empty = true;
    }

    /// The tab's agent could not be started: keys go to the shell again.
    pub fn agent_not_started(&mut self)
        ensures
            final(self)@ == (SessionModel { mode: ModeModel::Normal, ..old(self)@ }),
            final(self)@ == old(self)@.agent_failed(),
    {
        self.input_mode = InputMode::Normal;
    }
}

/// Opening the agent's line and leaving it again with Backspace, before anything
/// was typed, brings the state back; so `>` opens it again.
pub proof fn backspace_leaves_agent_line(s: SessionModel, cursor_col: usize, back: KeyEvent)
    requires
        s.mode is Normal,
        s.shell_input_empty,
        back.pressed,
        back.key == KeyModel::Named(NamedKey::Backspace),
    ensures
        ({
            let (opened, _) = normal_key(s, Some(seq![0x3eu8]), cursor_col);
            let (left, effect) = agent_key(opened, Seq::empty(), cursor_col, back);
            &&& opened.mode == (ModeModel::AgentInput {
                buffer: Seq::empty(),
                start_col: cursor_col,
            })
            &&& left == (SessionModel { scroll_offset: 0, ..s })
            &&& effect.write.len() == 0
        }),
{
}

/// While the agent's line is in use, no key reaches the shell.
pub proof fn agent_line_is_private(
    s: SessionModel,
    event: KeyEvent,
    mods: Modifiers,
    cursor_col: usize,
)
    requires
        !(s.mode is Normal),
    ensures
        key_pressed(s, event, mods, cursor_col).1.write.len() == 0,
        key_pressed(s, event, mods, cursor_col).0.shell_input_empty == s.shell_input_empty,
{
}

/// While the agent's line is in use, what is echoed shows the marker, unless the
/// line is left.
pub proof fn marker_stays_visible(
    s: SessionModel,
    event: KeyEvent,
    mods: Modifiers,
    cursor_col: usize,
)
    requires
        s.mode is AgentInput,
    ensures
        ({
            let (after, effect) = key_pressed(s, event, mods, cursor_col);
            after.mode matches ModeModel::AgentInput { buffer, start_col } ==> effect.echo.len()
                == 0 || effect.echo == clear_line(start_col as int) + marker()
                + utf8::encode_utf8(buffer)
        }),
{
}

/// Keys reach the shell as the bytes they stand for, and bring the view back to the
/// live bottom; nothing else happens, and nothing at all where a key stands for
/// none. Only `>` at an empty prompt does not reach the shell: it opens the agent's
/// line at the cursor.
pub proof fn keys_reach_the_shell(
    s: SessionModel,
    event: KeyEvent,
    mods: Modifiers,
    cursor_col: usize,
)
    requires
        s.mode is Normal,
    ensures
        ({
            let (after, effect) = key_pressed(s, event, mods, cursor_col);
            let quiet = effect.echo.len() == 0 && effect.spawn is None && !effect.kill;
            match keys::key_bytes(event, mods) {
                None => after == s && quiet && effect.write.len() == 0 && !effect.redraw,
                Some(b) => if b.len() == 1 && b[0] == 0x3e && s.shell_input_empty {
                    &&& effect.write.len() == 0
                    &&& effect.spawn is None
                    &&& !effect.kill
                    &&& effect.redraw
                    &&& effect.echo == agent_line(Seq::empty(), cursor_col as int)
                    &&& after.mode matches ModeModel::AgentInput { buffer, start_col }
                    &&& buffer.len() == 0
                    &&& start_col == cursor_col
                    &&& after.scroll_offset == 0
                    &&& after.shell_input_empty
                    &&& after.selection == s.selection
                } else {
                    &&& effect.write == b
                    &&& quiet
                    &&& effect.redraw == (s.scroll_offset != 0)
                    &&& after.shell_input_empty == input_empty_after(b, s.shell_input_empty)
                    &&& after.mode is Normal
                    &&& after.scroll_offset == 0
                    &&& after.selection == s.selection
                },
            }
        }),
{
    if let Some(b) = keys::key_bytes(event, mods) {
        if b.len() == 1 {
            assert(b =~= seq![b[0]]);
        }
        assert(seq![0x3eu8][0] == 0x3e && seq![0x3eu8].len() == 1);
    }
}

/// What is known of the shell's line after one byte was sent: CR, LF, Ctrl+C and
/// Ctrl+U empty it, printable characters and bytes beyond ASCII fill it, and any
/// other byte leaves it.
pub proof fn one_byte_and_the_shell_line(b: u8, was: bool)
    ensures
        input_empty_after(seq![b], was) == if b == 0x0d || b == 0x0a || b == 0x03 || b == 0x15 {
            true
        } else if 0x20 <= b <= 0x7e || b >= 0x80 {
            false
        } else {
            was
        },
{
    let bytes = seq![b];
    assert(bytes[0] == b);
    if exists|i: int| 0 <= i < bytes.len() && fills_line(#[trigger] bytes[i]) {
        let i = choose|i: int| 0 <= i < bytes.len() && fills_line(#[trigger] bytes[i]);
        assert(i == 0);
    }
}

/// What is known of the shell's line after several bytes were sent: an escape
/// sequence leaves it, anything else with a printable character or a byte beyond
/// ASCII in it fills it, and other bytes leave it, as sending nothing does.
pub proof fn bytes_and_the_shell_line(bytes: Seq<u8>, was: bool, i: int)
    requires
        bytes.len() != 1,
    ensures
        bytes.len() == 0 ==> input_empty_after(bytes, was) == was,
        bytes.len() > 0 && bytes[0] == 0x1b ==> input_empty_after(bytes, was) == was,
        bytes.len() > 0 && bytes[0] != 0x1b && 0 <= i < bytes.len() && (0x20 <= bytes[i] <= 0x7e
            || bytes[i] >= 0x80) ==> !input_empty_after(bytes, was),
        (forall|k: int|
            0 <= k < bytes.len() ==> #[trigger] bytes[k] < 0x20 || bytes[k] == 0x7f)
            ==> input_empty_after(bytes, was) == was,
{
    if bytes.len() > 0 && 0 <= i < bytes.len() && (0x20 <= bytes[i] <= 0x7e || bytes[i] >= 0x80) {
        assert(fills_line(bytes[i]));
    }
}

/// In the agent's line, text is put behind what is there and Backspace takes the last
/// character off; so Backspace undoes a character that was typed. Neither changes
/// where the line stands, and the line is redrawn as it is now.
pub proof fn agent_line_is_edited(
    s: SessionModel,
    buffer: Seq<char>,
    start_col: usize,
    event: KeyEvent,
    mods: Modifiers,
    cursor_col: usize,
)
    requires
        s.mode == (ModeModel::AgentInput { buffer, start_col }),
        event.pressed,
    ensures
        ({
            let (after, effect) = key_pressed(s, event, mods, cursor_col);
            let named = event.key == KeyModel::Named(NamedKey::Escape) || event.key
                == KeyModel::Named(NamedKey::Enter) || event.key == KeyModel::Named(
                NamedKey::Backspace,
            );
            &&& !named ==> match event.text {
                Some(t) => after == (SessionModel {
                    mode: ModeModel::AgentInput { buffer: buffer + t, start_col },
                    ..s
                }),
                None => after == s,
            }
            &&& event.key == KeyModel::Named(NamedKey::Backspace) && buffer.len() > 0 ==> after
                == (SessionModel {
                mode: ModeModel::AgentInput {
                    buffer: buffer.take(buffer.len() - 1),
                    start_col,
                },
                ..s
            })
            &&& after.mode is AgentInput && after.mode->buffer != buffer ==> {
                &&& after.mode->start_col == start_col
                &&& effect.redraw
                &&& effect.echo == agent_line(after.mode->buffer, start_col as int)
            }
            &&& effect.write.len() == 0
            &&& !effect.kill
        }),
{
    let (after, effect) = key_pressed(s, event, mods, cursor_col);
    if event.text matches Some(t) && t.len() == 0 {
        assert(buffer + event.text->0 =~= buffer);
    }
    assert(buffer.len() > 0 ==> buffer.drop_last() =~= buffer.take(buffer.len() - 1));
}

/// Typing one character and Backspace bring the agent's line back.
pub proof fn backspace_undoes_typing(buffer: Seq<char>, c: char)
    ensures
        (buffer + seq![c]).drop_last() == buffer,
{
    assert((buffer + seq![c]).drop_last() =~= buffer);
}

/// Enter starts the agent with exactly what the line holds, unless that is blank;
/// Escape, Enter in a blank line and Backspace in an empty one leave the line without
/// starting anything. Nothing is sent to the shell.
pub proof fn agent_line_is_left(
    s: SessionModel,
    buffer: Seq<char>,
    start_col: usize,
    event: KeyEvent,
    mods: Modifiers,
    cursor_col: usize,
)
    requires
        s.mode == (ModeModel::AgentInput { buffer, start_col }),
        event.pressed,
    ensures
        ({
            let (after, effect) = key_pressed(s, event, mods, cursor_col);
            let blank = forall|i: int|
                0 <= i < buffer.len() ==> text::is_white_space(#[trigger] buffer[i]);
            let enter = event.key == KeyModel::Named(NamedKey::Enter);
            let escape = event.key == KeyModel::Named(NamedKey::Escape);
            let back = event.key == KeyModel::Named(NamedKey::Backspace);
            &&& enter && !blank ==> effect.spawn == Some(buffer) && effect.echo == seq![
                0x0du8,
                0x0au8,
            ] && after == (SessionModel { mode: ModeModel::AgentRunning, ..s })
            &&& escape || enter && blank || back && buffer.len() == 0 ==> effect.spawn is None
                && effect.echo == clear_line(start_col as int) && effect.redraw && after == (SessionModel { mode: ModeModel::Normal, ..s })
            &&& !enter ==> effect.spawn is None
            &&& effect.write.len() == 0
        }),
{
}

/// A key that goes up does nothing to the agent's line.
pub proof fn agent_line_hears_keys_going_down(
    s: SessionModel,
    event: KeyEvent,
    mods: Modifiers,
    cursor_col: usize,
)
    requires
        s.mode is AgentInput,
        !event.pressed,
    ensures
        key_pressed(s, event, mods, cursor_col) == (s, EffectModel::none()),
{
}

/// While an agent runs, Ctrl+C kills it, in either case; no other character does, and
/// no key without Ctrl. Nothing else changes.
pub proof fn only_interrupt_kills(
    s: SessionModel,
    c: char,
    chars: Option<Seq<char>>,
    mods: Modifiers,
    cursor_col: usize,
)
    requires
        s.mode is AgentRunning,
        mods.control,
        !mods.super_key,
    ensures
        ({
            let (after, effect) = key_pressed(s, keys::pressing(c, chars), mods, cursor_col);
            &&& after == s
            &&& effect.write.len() == 0
            &&& effect.echo.len() == 0
            &&& effect.spawn is None
            &&& 'a' <= c <= 'z' || 'A' <= c <= 'Z' ==> effect.kill == (c == 'c' || c == 'C')
        }),
{
    keys::control_clears_the_upper_bits(c, chars, mods);
    let n = c as u32;
    assert(seq![0x03u8][0] == 0x03);
    if 'a' <= c <= 'z' {
        assert(seq![(n - 0x60) as u8][0] == n - 0x60);
    }
    if 'A' <= c <= 'Z' {
        assert(seq![(n - 0x40) as u8][0] == n - 0x40);
    }
}

/// Text from an input method goes where keys go: to the shell in UTF-8, into the
/// agent's line, or nowhere while an agent runs. Empty text does nothing.
pub proof fn composed_text_goes_where_keys_go(s: SessionModel, chars: Seq<char>)
    ensures
        ({
            let (after, effect) = committed(s, chars);
            &&& chars.len() == 0 ==> after == s && effect == EffectModel::none()
            &&& chars.len() > 0 ==> after.scroll_offset == 0 && after.selection == s.selection
                && effect.spawn is None && !effect.kill
            &&& chars.len() > 0 && s.mode is Normal ==> effect.write == utf8::encode_utf8(chars)
                && after.mode is Normal && effect.echo.len() == 0 && after.shell_input_empty
                == input_empty_after(effect.write, s.shell_input_empty)
            &&& chars.len() > 0 && s.mode is AgentRunning ==> after.mode is AgentRunning
                && effect.write.len() == 0 && effect.echo.len() == 0
            &&& s.mode matches ModeModel::AgentInput { buffer, start_col } ==> effect.write.len()
                == 0 && (chars.len() > 0 ==> effect.redraw && effect.echo == agent_line(
                buffer + chars,
                start_col as int,
            ) && after.mode == (ModeModel::AgentInput { buffer: buffer + chars, start_col }))
        }),
{
}

/// A paste goes to the shell whatever the mode, drops the selection and brings the view
/// back to the live bottom. Without brackets it is the text with its line ends
/// converted, and with them the same in brackets, less closing ones.
pub proof fn paste_goes_to_the_shell(s: SessionModel, chars: Seq<char>, bracketed: bool)
    ensures
        ({
            let (after, effect) = pasted(s, chars, bracketed);
            let typed = paste::with_shell_newlines(utf8::encode_utf8(chars));
            &&& chars.len() == 0 ==> after == s && effect == EffectModel::none()
            &&& chars.len() > 0 ==> {
                &&& after.mode == s.mode
                &&& after.scroll_offset == 0
                &&& after.selection is None
                &&& after.shell_input_empty == input_empty_after(typed, s.shell_input_empty)
                &&& effect.echo.len() == 0
                &&& effect.spawn is None
                &&& !effect.kill
                &&& !bracketed ==> effect.write == typed
                &&& bracketed && (forall|i: int| !paste::paste_end_at(typed, i)) ==> effect.write
                    == seq![0x1bu8, 0x5bu8] + text::decimal(200) + seq![0x7eu8] + typed + seq![
                    0x1bu8,
                    0x5bu8,
                ] + text::decimal(201) + seq![0x7eu8]
            }
        }),
{
    let typed = paste::with_shell_newlines(utf8::encode_utf8(chars));
    reveal_with_fuel(text::decimal, 4);
    assert(paste::paste_start() =~= seq![0x1bu8, 0x5bu8] + text::decimal(200) + seq![0x7eu8]);
    assert(paste::paste_end() =~= seq![0x1bu8, 0x5bu8] + text::decimal(201) + seq![0x7eu8]);
    if forall|i: int| !paste::paste_end_at(typed, i) {
        paste::clean_text_is_kept(typed);
        assert(paste::paste_start() + typed + paste::paste_end() =~= seq![0x1bu8, 0x5bu8]
            + text::decimal(200) + seq![0x7eu8] + typed + seq![0x1bu8, 0x5bu8] + text::decimal(201)
            + seq![0x7eu8]);
    }
}

/// The wheel moves the view by as many rows as it turned, up into the past and down to
/// the present, but not beyond the oldest row nor beyond the live bottom. Turning back
/// brings the view back, where it was not stopped.
pub proof fn wheel_moves_the_view(offset: int, delta: int, max: int)
    requires
        0 <= offset <= max,
    ensures
        0 <= wheeled(offset, delta, max) <= max,
        0 <= offset + delta <= max ==> wheeled(offset, delta, max) == offset + delta && wheeled(
            wheeled(offset, delta, max),
            -delta,
            max,
        ) == offset,
        offset + delta > max ==> wheeled(offset, delta, max) == max,
        offset + delta < 0 ==> wheeled(offset, delta, max) == 0,
{
}

/// The agent's line is redrawn from the marker's column on: the cursor goes there
/// (`CSI column G`, counted from 1), the rest of the row is erased (`CSI K`), and
/// the marker and the text follow. A line that is left is only erased.
pub proof fn agent_line_is_redrawn(buffer: Seq<char>, start_col: nat)
    ensures
        ({
            let erase = seq![0x1bu8, 0x5bu8] + text::decimal(start_col + 1) + seq![0x47u8] + seq![
                0x1bu8,
                0x5bu8,
                0x4bu8,
            ];
            let cyan = seq![0x1bu8, 0x5bu8] + text::decimal(1) + seq![0x3bu8] + text::decimal(36)
                + seq![0x6du8];
            let plain = seq![0x1bu8, 0x5bu8] + text::decimal(0) + seq![0x6du8];
            &&& clear_line(start_col as int) == erase
            &&& agent_line(buffer, start_col as int) == erase + cyan + seq![0x3eu8, 0x20u8] + plain
                + utf8::encode_utf8(buffer)
        }),
{
    reveal_with_fuel(text::decimal, 3);
    let erase = seq![0x1bu8, 0x5bu8] + text::decimal(start_col + 1) + seq![0x47u8] + seq![
        0x1bu8,
        0x5bu8,
        0x4bu8,
    ];
    let cyan = seq![0x1bu8, 0x5bu8] + text::decimal(1) + seq![0x3bu8] + text::decimal(36) + seq![
        0x6du8,
    ];
    let plain = seq![0x1bu8, 0x5bu8] + text::decimal(0) + seq![0x6du8];
    assert(clear_line(start_col as int) =~= erase);
    assert(marker() =~= cyan + seq![0x3eu8, 0x20u8] + plain);
    assert(agent_line(buffer, start_col as int) =~= erase + cyan + seq![0x3eu8, 0x20u8] + plain
        + utf8::encode_utf8(buffer));
}

/// When an agent has finished, `>` opens its line again at once; when one could not be
/// started, keys go to the shell again, and what is known of the shell's line stays. The
/// view and the selection stay in both cases.
pub proof fn agent_can_be_called_again(s: SessionModel, event: KeyEvent, mods: Modifiers, col: usize)
    requires
        keys::key_bytes(event, mods) == Some(seq![0x3eu8]),
    ensures
        ({
            let (after, effect) = key_pressed(s.agent_done(), event, mods, col);
            &&& after.mode == (ModeModel::AgentInput { buffer: Seq::empty(), start_col: col })
            &&& effect.write.len() == 0
        }),
        s.agent_done().scroll_offset == s.scroll_offset && s.agent_done().selection == s.selection,
        s.agent_failed().mode is Normal,
        s.agent_failed().shell_input_empty == s.shell_input_empty,
        s.agent_failed().scroll_offset == s.scroll_offset && s.agent_failed().selection
            == s.selection,
{
}

/// While an agent runs, a key kills it exactly where it stands for the interrupt
/// character; no key is sent, echoed or remembered.
pub proof fn running_agent_hears_only_the_interrupt(
    s: SessionModel,
    event: KeyEvent,
    mods: Modifiers,
    cursor_col: usize,
)
    requires
        s.mode is AgentRunning,
    ensures
        ({
            let (after, effect) = key_pressed(s, event, mods, cursor_col);
            &&& after == s
            &&& effect.kill <==> (keys::key_bytes(event, mods) matches Some(b) && b.len() == 1
                && b[0] == 0x03)
            &&& effect.write.len() == 0 && effect.echo.len() == 0 && effect.spawn is None
            &&& !event.pressed ==> !effect.kill
        }),
{
    if let Some(b) = keys::key_bytes(event, mods) {
        if b.len() == 1 {
            assert(b =~= seq![b[0]]);
        }
        assert(seq![0x03u8][0] == 0x03 && seq![0x03u8].len() == 1);
    }
}

} // verus!
