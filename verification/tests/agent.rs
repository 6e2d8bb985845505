//! The agent's output, and other text that is read.

use purrtty::agent::{
    finished_marker, format_event, not_started_message, read_line, started_session, Json, Member,
};
use purrtty::lsof::find_cwd;
use purrtty::text::{blank_text, chars_of, parse_i32, push_decimal, same_text, white_space};

fn text(s: &str) -> Json {
    Json::Text(s.to_string())
}

fn object(members: Vec<(&str, Json)>) -> Json {
    Json::Object(
        members.into_iter().map(|(k, value)| Member { key: k.to_string(), value }).collect(),
    )
}

fn stream(event: Json) -> Json {
    object(vec![("type", text("stream_event")), ("event", event)])
}

#[test]
fn text_deltas_are_shown_as_they_are() {
    let delta = object(vec![("type", text("text_delta")), ("text", text("héllo"))]);
    let json = stream(object(vec![("delta", delta)]));
    assert_eq!(format_event(&json).as_deref(), Some("héllo"));
    let empty = stream(object(vec![("delta", object(vec![("type", text("text_delta"))]))]));
    assert_eq!(format_event(&empty), None);
}

#[test]
fn tool_calls_are_announced() {
    let block = object(vec![("type", text("tool_use")), ("name", text("Bash"))]);
    let json =
        stream(object(vec![("type", text("content_block_start")), ("content_block", block)]));
    assert_eq!(format_event(&json).as_deref(), Some("\r\n\x1b[1;33m⚡ Bash\x1b[0m "));
    let block = object(vec![("type", text("tool_use"))]);
    let json =
        stream(object(vec![("type", text("content_block_start")), ("content_block", block)]));
    assert_eq!(format_event(&json).as_deref(), Some("\r\n\x1b[1;33m⚡ tool\x1b[0m "));
    let block = object(vec![("type", text("text"))]);
    let json =
        stream(object(vec![("type", text("content_block_start")), ("content_block", block)]));
    assert_eq!(format_event(&json), None);
}

#[test]
fn tool_input_is_dimmed_and_blocks_end_lines() {
    let delta = object(vec![("type", text("input_json_delta")), ("partial_json", text("{\"a\""))]);
    let json = stream(object(vec![("delta", delta)]));
    assert_eq!(format_event(&json).as_deref(), Some("\x1b[2m{\"a\"\x1b[0m"));
    let json = stream(object(vec![("type", text("content_block_stop"))]));
    assert_eq!(format_event(&json).as_deref(), Some("\r\n"));
    let json = object(vec![("type", text("result"))]);
    assert_eq!(format_event(&json).as_deref(), Some("\r\n"));
}

#[test]
fn other_events_are_not_shown() {
    assert_eq!(format_event(&object(vec![("type", text("system"))])), None);
    assert_eq!(format_event(&object(vec![("type", text("stream_event"))])), None);
    assert_eq!(format_event(&object(vec![("type", Json::Other)])), None);
    assert_eq!(format_event(&object(vec![])), None);
    assert_eq!(format_event(&text("stream_event")), None);
    assert_eq!(format_event(&Json::Other), None);
}

#[test]
fn lines_of_output_are_parsed() {
    let line = r#"{"type":"stream_event","event":{"delta":{"text":"hi\n","type":"text_delta"}}}"#;
    assert_eq!(read_line(line).text.as_deref(), Some("hi\n"));
    let line = r#"{"event":{"type":"content_block_stop","index":3},"type":"stream_event"}"#;
    assert_eq!(read_line(line).text.as_deref(), Some("\r\n"));
    assert_eq!(read_line(r#"{"type":"result","ok":[true,null,1.5]}"#).text.as_deref(), Some("\r\n"));
    assert_eq!(read_line(r#"{"type":["result"]}"#).text, None);
    assert_eq!(read_line("not json").text, None);
    assert_eq!(read_line("").text, None);
    assert_eq!(read_line("{\"type\":\"result\"").text, None);
}

#[test]
fn started_sessions_are_reported() {
    let data = || object(vec![("session_id", text("s-1"))]);
    let json =
        object(vec![("type", text("system")), ("subtype", text("init")), ("data", data())]);
    assert_eq!(started_session(&json).as_deref(), Some("s-1"));
    assert_eq!(format_event(&json), None);
    let json =
        object(vec![("type", text("system")), ("subtype", text("other")), ("data", data())]);
    assert_eq!(started_session(&json), None);
    let json = object(vec![("type", text("result")), ("subtype", text("init")), ("data", data())]);
    assert_eq!(started_session(&json), None);
    let json = object(vec![("type", text("system")), ("subtype", text("init"))]);
    assert_eq!(started_session(&json), None);
    let line = r#"{"type":"system","subtype":"init","data":{"session_id":"s-2"}}"#;
    assert_eq!(read_line(line).session.as_deref(), Some("s-2"));
    assert_eq!(read_line(line).text, None);
    assert_eq!(read_line("{").session, None);
}

#[test]
fn markers_of_an_agent() {
    assert_eq!(finished_marker(0), "\r\n\x1b[1;32m✓ agent done\x1b[0m\r\n");
    assert_eq!(finished_marker(1), "\r\n\x1b[1;31m✗ agent failed\x1b[0m\r\n");
    assert_eq!(
        not_started_message("tool", "no such file"),
        "\x1b[1;31m✗ failed to spawn tool: no such file\x1b[0m\r\n"
    );
}

#[test]
fn working_directory_from_lsof() {
    let out = "p123\nfcwd\nn/Users/me/src\n";
    assert_eq!(&out[find_cwd(out).unwrap()], "/Users/me/src");
    let out = "p1\r\nn/a b\r\nn/second";
    assert_eq!(&out[find_cwd(out).unwrap()], "/a b");
    let out = "n/x\r";
    assert_eq!(&out[find_cwd(out).unwrap()], "/x\r");
    let out = "p1\nn\n";
    assert_eq!(&out[find_cwd(out).unwrap()], "");
    assert_eq!(find_cwd("p1\nfcwd\n"), None);
    assert_eq!(find_cwd(""), None);
}

#[test]
fn white_space_is_what_unicode_says() {
    for n in 0..=0x10ffff_u32 {
        if let Some(c) = char::from_u32(n) {
            assert_eq!(white_space(c), c.is_whitespace());
        }
    }
    assert!(blank_text(" \u{85}\n"));
    assert!(blank_text(""));
    assert!(!blank_text(" a "));
}

#[test]
fn numbers_are_read_and_written() {
    for n in [0_usize, 9, 10, 99, 100, 12345, usize::MAX] {
        let mut out = vec![b'#'];
        push_decimal(&mut out, n);
        assert_eq!(String::from_utf8(out).unwrap(), format!("#{n}"));
    }
    for s in ["0", "-1", "+7", "2147483647", "-2147483648", "2147483648", "-2147483649", "", "-",
        "+", "1x", "x1", "--1", "007", "99999999999999999999"]
    {
        assert_eq!(parse_i32(s.as_bytes()), s.parse::<i32>().ok());
    }
    assert_eq!(chars_of("a한"), vec!['a', '한']);
    assert!(same_text("é", "é") && !same_text("e", "é"));
}
