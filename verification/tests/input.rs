//! Keys, shortcuts, the agent's line, and tabs.

use purrtty::keys::{key_event_to_bytes, shortcut, Key, KeyInput, Modifiers, NamedKey, Shortcut};
use purrtty::mouse::{press, Press, TabHit};
use purrtty::paste::{normalize_newlines, prepare_paste};
use purrtty::selection::{GridPoint, Selection};
use purrtty::session::{InputEffect, InputMode, SavedSessionState};
use purrtty::tabs::TabSet;

fn none() -> Modifiers {
    Modifiers { super_key: false, control: false, alt: false }
}

fn ctrl() -> Modifiers {
    Modifiers { control: true, ..none() }
}

fn alt() -> Modifiers {
    Modifiers { alt: true, ..none() }
}

fn cmd() -> Modifiers {
    Modifiers { super_key: true, ..none() }
}

fn char_key(s: &str) -> KeyInput {
    KeyInput { pressed: true, key: Key::Character(s.to_string()), text: Some(s.to_string()) }
}

fn named(key: NamedKey) -> KeyInput {
    KeyInput { pressed: true, key: Key::Named(key), text: None }
}

fn bytes(event: &KeyInput, mods: Modifiers) -> Option<Vec<u8>> {
    key_event_to_bytes(event, mods)
}

#[test]
fn control_letters_are_control_characters() {
    assert_eq!(bytes(&char_key("a"), ctrl()), Some(vec![0x01]));
    assert_eq!(bytes(&char_key("Z"), ctrl()), Some(vec![0x1a]));
    assert_eq!(bytes(&char_key("c"), ctrl()), Some(vec![0x03]));
    for (s, b) in [
        ("@", 0x00),
        (" ", 0x00),
        ("[", 0x1b),
        ("\\", 0x1c),
        ("]", 0x1d),
        ("^", 0x1e),
        ("_", 0x1f),
        ("?", 0x7f),
    ] {
        assert_eq!(bytes(&char_key(s), ctrl()), Some(vec![b]));
    }
    // No control character: the composed text goes through.
    assert_eq!(bytes(&char_key("1"), ctrl()), Some(b"1".to_vec()));
    assert_eq!(bytes(&char_key("é"), ctrl()), Some("é".as_bytes().to_vec()));
}

#[test]
fn alt_prefixes_escape() {
    assert_eq!(bytes(&char_key("b"), alt()), Some(b"\x1bb".to_vec()));
    assert_eq!(bytes(&char_key("한"), alt()), Some("\x1b한".as_bytes().to_vec()));
    let both = Modifiers { alt: true, ..ctrl() };
    assert_eq!(bytes(&char_key("b"), both), Some(vec![0x02]));
    assert_eq!(bytes(&char_key("1"), both), Some(b"1".to_vec()));
}

#[test]
fn named_keys_have_fixed_sequences() {
    for (key, expected) in [
        (NamedKey::Enter, &b"\r"[..]),
        (NamedKey::Tab, b"\t"),
        (NamedKey::Backspace, b"\x7f"),
        (NamedKey::Escape, b"\x1b"),
        (NamedKey::ArrowUp, b"\x1b[A"),
        (NamedKey::ArrowDown, b"\x1b[B"),
        (NamedKey::ArrowRight, b"\x1b[C"),
        (NamedKey::ArrowLeft, b"\x1b[D"),
        (NamedKey::Home, b"\x1b[H"),
        (NamedKey::End, b"\x1b[F"),
        (NamedKey::Delete, b"\x1b[3~"),
        (NamedKey::PageUp, b"\x1b[5~"),
        (NamedKey::PageDown, b"\x1b[6~"),
    ] {
        assert_eq!(bytes(&named(key), none()), Some(expected.to_vec()));
        assert_eq!(bytes(&named(key), ctrl()), Some(expected.to_vec()));
    }
    assert_eq!(bytes(&named(NamedKey::Other), none()), None);
}

#[test]
fn super_and_releases_are_not_forwarded() {
    assert_eq!(bytes(&char_key("a"), cmd()), None);
    let mut up = char_key("a");
    up.pressed = false;
    assert_eq!(bytes(&up, none()), None);
    assert_eq!(shortcut(&up, cmd()), None);
    let dead = KeyInput { pressed: true, key: Key::Unknown, text: None };
    assert_eq!(bytes(&dead, none()), None);
    assert_eq!(shortcut(&dead, cmd()), None);
}

#[test]
fn text_of_the_layout_goes_through() {
    assert_eq!(bytes(&char_key("ß"), none()), Some("ß".as_bytes().to_vec()));
    let space = KeyInput {
        pressed: true,
        key: Key::Named(NamedKey::Other),
        text: Some(" ".to_string()),
    };
    assert_eq!(bytes(&space, none()), Some(b" ".to_vec()));
}

#[test]
fn shortcuts_by_modifier() {
    for m in [ctrl(), cmd()] {
        assert_eq!(shortcut(&char_key("="), m), Some(Shortcut::ZoomIn));
        assert_eq!(shortcut(&char_key("+"), m), Some(Shortcut::ZoomIn));
        assert_eq!(shortcut(&char_key("-"), m), Some(Shortcut::ZoomOut));
        assert_eq!(shortcut(&char_key("0"), m), Some(Shortcut::ZoomReset));
    }
    assert_eq!(shortcut(&char_key("c"), cmd()), Some(Shortcut::Copy));
    assert_eq!(shortcut(&char_key("V"), cmd()), Some(Shortcut::Paste));
    assert_eq!(shortcut(&char_key("t"), cmd()), Some(Shortcut::NewTab));
    assert_eq!(shortcut(&char_key("w"), cmd()), Some(Shortcut::CloseTab));
    assert_eq!(shortcut(&char_key("1"), cmd()), Some(Shortcut::SwitchTab(0)));
    assert_eq!(shortcut(&char_key("8"), cmd()), Some(Shortcut::SwitchTab(7)));
    assert_eq!(shortcut(&char_key("9"), cmd()), Some(Shortcut::LastTab));
    assert_eq!(shortcut(&char_key("x"), cmd()), None);
    assert_eq!(shortcut(&char_key("cc"), cmd()), None);
    // The shell keeps these.
    assert_eq!(shortcut(&char_key("c"), ctrl()), None);
    assert_eq!(shortcut(&char_key("w"), ctrl()), None);
    assert_eq!(shortcut(&char_key("="), none()), None);
}

fn fresh_prompt() -> SavedSessionState {
    let mut s = SavedSessionState::default();
    s.shell_input_empty = true;
    s
}

fn key(s: &mut SavedSessionState, event: &KeyInput) -> InputEffect {
    s.handle_keyboard_input(event, none(), 4)
}

#[test]
fn agent_line_from_prompt_to_start() {
    let mut s = fresh_prompt();
    s.scroll_offset = 3;
    let e = key(&mut s, &char_key(">"));
    assert_eq!(e.echo, b"\x1b[5G\x1b[K\x1b[1;36m> \x1b[0m");
    assert!(e.write.is_empty() && e.redraw);
    assert_eq!(s.scroll_offset, 0);
    let e = key(&mut s, &char_key("h"));
    assert_eq!(e.echo, b"\x1b[5G\x1b[K\x1b[1;36m> \x1b[0mh");
    let e = s.handle_ime_commit("안");
    assert_eq!(e.echo, "\x1b[5G\x1b[K\x1b[1;36m> \x1b[0mh안".as_bytes());
    let e = key(&mut s, &named(NamedKey::Backspace));
    assert_eq!(e.echo, b"\x1b[5G\x1b[K\x1b[1;36m> \x1b[0mh");
    let e = key(&mut s, &named(NamedKey::Enter));
    assert_eq!(e.spawn.as_deref(), Some("h"));
    assert_eq!(e.echo, b"\r\n");
    assert!(matches!(s.input_mode, InputMode::AgentRunning));
    // Only Ctrl+C is heard now.
    let e = key(&mut s, &char_key("x"));
    assert!(e.write.is_empty() && !e.kill);
    let e = s.handle_keyboard_input(&char_key("c"), ctrl(), 0);
    assert!(e.kill);
    s.agent_finished();
    assert!(matches!(s.input_mode, InputMode::Normal));
    assert!(s.shell_input_empty);
}

#[test]
fn agent_line_is_left_by_escape_blank_enter_and_backspace() {
    for leave in [NamedKey::Escape, NamedKey::Enter, NamedKey::Backspace] {
        let mut s = fresh_prompt();
        key(&mut s, &char_key(">"));
        let e = key(&mut s, &named(leave));
        assert_eq!(e.echo, b"\x1b[5G\x1b[K");
        assert!(e.spawn.is_none() && e.redraw);
        assert!(matches!(s.input_mode, InputMode::Normal));
        assert!(s.shell_input_empty);
        let e = key(&mut s, &char_key(">"));
        assert!(e.write.is_empty());
        assert!(matches!(s.input_mode, InputMode::AgentInput { .. }));
    }
    // White space alone is no prompt for the agent.
    let mut s = fresh_prompt();
    key(&mut s, &char_key(">"));
    key(&mut s, &char_key(" \u{3000}\t"));
    let e = key(&mut s, &named(NamedKey::Enter));
    assert!(e.spawn.is_none());
    assert!(matches!(s.input_mode, InputMode::Normal));
}

#[test]
fn releases_and_dead_keys_leave_the_agent_line() {
    let mut s = fresh_prompt();
    key(&mut s, &char_key(">"));
    let mut up = named(NamedKey::Escape);
    up.pressed = false;
    let e = key(&mut s, &up);
    assert!(e.echo.is_empty() && !e.redraw);
    let e = key(&mut s, &KeyInput { pressed: true, key: Key::Unknown, text: None });
    assert!(e.echo.is_empty() && !e.redraw);
    assert!(matches!(s.input_mode, InputMode::AgentInput { .. }));
}

#[test]
fn marker_goes_to_the_shell_where_its_line_is_not_empty() {
    let mut s = fresh_prompt();
    let e = key(&mut s, &char_key("a"));
    assert_eq!(e.write, b"a");
    assert!(!s.shell_input_empty);
    let e = key(&mut s, &char_key(">"));
    assert_eq!(e.write, b">");
    assert!(matches!(s.input_mode, InputMode::Normal));
    s.agent_not_started();
    assert!(!s.shell_input_empty);
}

#[test]
fn ime_commits_by_mode() {
    let mut s = fresh_prompt();
    s.scroll_offset = 2;
    let e = s.handle_ime_commit("");
    assert!(e.write.is_empty());
    assert_eq!(s.scroll_offset, 2);
    let e = s.handle_ime_commit("한");
    assert_eq!(e.write, "한".as_bytes());
    assert!(e.redraw && !s.shell_input_empty);
    assert_eq!(s.scroll_offset, 0);
    s.input_mode = InputMode::AgentRunning;
    let e = s.handle_ime_commit("한");
    assert!(e.write.is_empty() && e.echo.is_empty());
}

#[test]
fn pasting_normalizes_and_brackets() {
    assert_eq!(normalize_newlines(b"a\r\nb\nc\rd\r\r\n"), b"a\rb\rc\rd\r\r");
    let p = prepare_paste("x\ny", true);
    assert_eq!(p.typed, b"x\ry");
    assert_eq!(p.payload, b"\x1b[200~x\ry\x1b[201~");
    let mut s = fresh_prompt();
    s.scroll_offset = 1;
    s.selection = Some(Selection::new(GridPoint::new(0, 0)));
    let e = s.handle_paste("", true);
    assert!(e.write.is_empty() && s.selection.is_some());
    let e = s.handle_paste("ls\n", false);
    assert_eq!(e.write, b"ls\r");
    assert!(e.redraw && !s.shell_input_empty && s.selection.is_none());
    assert_eq!(s.scroll_offset, 0);
}

#[test]
fn paste_cannot_leave_its_brackets() {
    for nasty in ["\x1b[20\x1b[201~1~rm", "\x1b[201~\x1b[201~", "\x1b[\x1b[2\x1b[201~01~201~x"] {
        let payload = prepare_paste(nasty, true).payload;
        let s = String::from_utf8(payload).unwrap();
        assert_eq!(s.matches("\x1b[201~").count(), 1);
        assert!(s.ends_with("\x1b[201~"));
    }
    assert_eq!(prepare_paste("\x1b[20\x1b[201~1~rm", true).payload, b"\x1b[200~rm\x1b[201~");
}

#[test]
fn wheel_is_clamped() {
    let mut s = SavedSessionState::default();
    assert!(s.handle_wheel(3, 10));
    assert_eq!(s.scroll_offset, 3);
    assert!(s.handle_wheel(100, 10));
    assert_eq!(s.scroll_offset, 10);
    assert!(!s.handle_wheel(1, 10));
    assert!(s.handle_wheel(-4, 10));
    assert_eq!(s.scroll_offset, 6);
    assert!(s.handle_wheel(-i32::MAX, 10));
    assert_eq!(s.scroll_offset, 0);
    assert!(!s.handle_wheel(0, 10));
}

fn three_tabs() -> TabSet {
    let mut t = TabSet::new();
    let first = t.take_id();
    t.open_first(first);
    for _ in 0..2 {
        let id = t.take_id();
        t.new_tab(id);
    }
    t
}

#[test]
fn switching_tabs_and_back_restores_the_state() {
    let mut t = three_tabs();
    assert_eq!((t.len(), t.active()), (3, 2));
    t.live_mut().scroll_offset = 7;
    t.live_mut().input_mode = InputMode::AgentInput { buffer: "hi".to_string(), start_col: 2 };
    t.live_mut().selection = Some(Selection::new(GridPoint::new(1, 2)));
    t.set_selecting(true);
    assert!(t.switch_tab(0));
    assert!(!t.selecting());
    assert_eq!(t.live().scroll_offset, 0);
    assert!(matches!(t.live().input_mode, InputMode::Normal));
    assert!(t.switch_tab(1));
    assert!(t.switch_tab(2));
    assert_eq!(t.live().scroll_offset, 7);
    assert_eq!(t.live().selection, Some(Selection::new(GridPoint::new(1, 2))));
    match &t.live().input_mode {
        InputMode::AgentInput { buffer, start_col } => {
            assert_eq!((buffer.as_str(), *start_col), ("hi", 2));
        }
        _ => panic!("the agent's line is gone"),
    }
    assert!(!t.switch_tab(2));
    assert!(!t.switch_tab(9));
}

#[test]
fn first_prompt_counts_as_empty_and_is_kept() {
    let mut t = TabSet::new();
    assert!(t.live().shell_input_empty);
    let id = t.take_id();
    t.open_first(id);
    assert!(t.live().shell_input_empty);
    let id = t.take_id();
    t.new_tab(id);
    assert!(!t.live().shell_input_empty);
    t.switch_tab(0);
    assert!(t.live().shell_input_empty);
}

#[test]
fn closing_tabs_keeps_the_last_one() {
    let mut t = three_tabs();
    assert_eq!(t.close_tab(), Some(2));
    assert_eq!((t.len(), t.active()), (2, 1));
    assert_eq!(t.close_tab_at(0), Some(0));
    assert_eq!((t.len(), t.active()), (1, 0));
    assert_eq!(t.id_at(0), Some(1));
    assert_eq!(t.close_tab(), None);
    assert_eq!(t.close_tab_at(0), None);
    assert_eq!(t.len(), 1);
}

#[test]
fn tabs_are_found_by_id() {
    let mut t = three_tabs();
    assert_eq!(t.session_index_by_id(1), Some(1));
    assert_eq!(t.session_index_by_id(9), None);
    assert_eq!(t.id_at(3), None);
    t.live_mut().input_mode = InputMode::AgentRunning;
    assert_eq!(t.agent_finished(0), Some((0, false)));
    assert!(matches!(t.live().input_mode, InputMode::AgentRunning));
    assert_eq!(t.agent_finished(2), Some((2, true)));
    assert!(matches!(t.live().input_mode, InputMode::Normal));
    assert!(t.live().shell_input_empty);
    assert_eq!(t.agent_finished(42), None);
}

#[test]
fn presses_go_to_the_tab_bar_first() {
    assert_eq!(press(Some(TabHit::Close(1)), true, true), Press::CloseTab(1));
    assert_eq!(press(Some(TabHit::Body(2)), false, false), Press::SwitchTab(2));
    assert_eq!(press(None, true, true), Press::OpenLink);
    assert_eq!(press(None, false, true), Press::Select);
    assert_eq!(press(None, true, false), Press::Select);
}

#[test]
fn control_and_the_space_key_is_nul() {
    let space =
        KeyInput { pressed: true, key: Key::Named(NamedKey::Space), text: Some(" ".to_string()) };
    assert_eq!(bytes(&space, ctrl()), Some(vec![0x00]));
    assert_eq!(bytes(&space, none()), Some(b" ".to_vec()));
    assert_eq!(bytes(&space, alt()), Some(b" ".to_vec()));
    assert_eq!(bytes(&space, cmd()), None);
    let released = KeyInput { pressed: false, ..space };
    assert_eq!(bytes(&released, ctrl()), None);
    assert_eq!(bytes(&char_key(" "), ctrl()), Some(vec![0x00]));
}
