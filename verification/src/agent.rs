//! The agent's output: streaming JSON events, shown as text in the terminal.

use vstd::prelude::*;

use crate::text;

verus! {

/// A JSON value, as far as events are read: strings, objects, and anything else.
#[derive(Debug)]
pub enum Json {
    Text(String),
    Object(Vec<Member>),
    Other,
}

/// A member of a JSON object.
#[derive(Debug)]
pub struct Member {
    pub key: String,
    pub value: Json,
}

/// The model of a JSON value.
pub enum JsonModel {
    Text(Seq<char>),
    Object(Seq<(Seq<char>, JsonModel)>),
    Other,
}

impl Json {
    /// The value without its representation.
    pub open spec fn model(self) -> JsonModel
        decreases self,
    {
        match self {
            Json::Text(s) => JsonModel::Text(s@),
            Json::Object(members) => JsonModel::Object(
                Seq::new(
                    members@.len(),
                    |i: int|
                        if 0 <= i < members@.len() {
                            (members@[i].key@, members@[i].value.model())
                        } else {
                            arbitrary()
                        },
                ),
            ),
            Json::Other => JsonModel::Other,
        }
    }
}

/// The value of a member, where the list holds one of that name.
pub open spec fn member(members: Seq<(Seq<char>, JsonModel)>, key: Seq<char>) -> Option<JsonModel>
    decreases members.len(),
{
    if members.len() == 0 {
        None
    } else if members[0].0 == key {
        Some(members[0].1)
    } else {
        member(members.skip(1), key)
    }
}

impl JsonModel {
    /// The value of a member of an object.
    pub open spec fn get(self, key: Seq<char>) -> Option<JsonModel> {
        match self {
            JsonModel::Object(members) => member(members, key),
            _ => None,
        }
    }
}

/// The value of a member of what is an object, where there is one.
pub open spec fn member_of(value: Option<JsonModel>, key: Seq<char>) -> Option<JsonModel> {
    match value {
        Some(v) => v.get(key),
        None => None,
    }
}

/// The text that a value is, where it is one.
pub open spec fn text_of(value: Option<JsonModel>) -> Option<Seq<char>> {
    match value {
        Some(JsonModel::Text(s)) => Some(s),
        _ => None,
    }
}

/// What is shown of a streamed event: text as it comes, the start and the input
/// of a tool call, and a line end where a content block stops.
pub open spec fn stream_text(event: JsonModel) -> Option<Seq<char>> {
    let delta = event.get("delta"@);
    let block = event.get("content_block"@);
    if text_of(member_of(delta, "type"@)) == Some("text_delta"@) {
        text_of(member_of(delta, "text"@))
    } else if text_of(event.get("type"@)) == Some("content_block_start"@) && text_of(
        member_of(block, "type"@),
    ) == Some("tool_use"@) {
        let name = match text_of(member_of(block, "name"@)) {
            Some(name) => name,
            None => "tool"@,
        };
        Some("\r\n\x1b[1;33m⚡ "@ + name + "\x1b[0m "@)
    } else if text_of(member_of(delta, "type"@)) == Some("input_json_delta"@) && text_of(
        member_of(delta, "partial_json"@),
    ) is Some {
        Some("\x1b[2m"@ + text_of(member_of(delta, "partial_json"@))->0 + "\x1b[0m"@)
    } else if text_of(event.get("type"@)) == Some("content_block_stop"@) {
        Some("\r\n"@)
    } else {
        None
    }
}

/// What is shown of an event, where anything is.
pub open spec fn event_text(json: JsonModel) -> Option<Seq<char>> {
    let kind = text_of(json.get("type"@));
    if kind == Some("stream_event"@) {
        match json.get("event"@) {
            Some(event) => stream_text(event),
            None => None,
        }
    } else if kind == Some("result"@) {
        Some("\r\n"@)
    } else {
        None
    }
}

/// The session that an event says has started, where it does.
pub open spec fn event_session(json: JsonModel) -> Option<Seq<char>> {
    if text_of(json.get("type"@)) == Some("system"@) && text_of(json.get("subtype"@)) == Some(
        "init"@,
    ) {
        text_of(member_of(json.get("data"@), "session_id"@))
    } else {
        None
    }
}

impl Json {
    /// The value of a member, where this is an object that has it.
    pub fn get(&self, key: &str) -> (r: Option<&Json>)
        ensures
            match r {
                Some(v) => self.model().get(key@) == Some(v.model()),
                None => self.model().get(key@) is None,
            },
    {
        match self {
            Json::Object(members) => {
                let ghost model = self.model()->Object_0;
                assert(model.skip(0) =~= model);
                for i in 0..members.len()
                    invariant
                        self.model() == JsonModel::Object(model),
                        model.len() == members@.len(),
                        forall|k: int|
                            0 <= k < model.len() ==> #[trigger] model[k] == (
                                members@[k].key@,
                                members@[k].value.model(),
                            ),
                        member(model.skip(i as int), key@) == member(model, key@),
                {
                    assert(model.skip(i as int)[0] == model[i as int]);
                    if text::same_text(members[i].key.as_str(), key) {
                        return Some(&members[i].value);
                    }
                    assert(model.skip(i as int).skip(1) =~= model.skip(i + 1));
                }
                None
            },
            _ => None,
        }
    }

    /// The text, where this is one.
    pub fn as_str(&self) -> (r: Option<&str>)
        ensures
            match r {
                Some(s) => self.model() == JsonModel::Text(s@),
                None => !(self.model() is Text),
            },
    {
        match self {
            Json::Text(s) => Some(s.as_str()),
            _ => None,
        }
    }
}

/// The model of a value that may be missing.
pub open spec fn model_of(value: Option<&Json>) -> Option<JsonModel> {
    match value {
        Some(v) => Some(v.model()),
        None => None,
    }
}

fn member_in<'a>(value: Option<&'a Json>, key: &str) -> (r: Option<&'a Json>)
    ensures
        model_of(r) == member_of(model_of(value), key@),
{
    match value {
        Some(v) => v.get(key),
        None => None,
    }
}

fn text_in(value: Option<&Json>) -> (r: Option<&str>)
    ensures
        match r {
            Some(s) => text_of(model_of(value)) == Some(s@),
            None => text_of(model_of(value)) is None,
        },
{
    match value {
        Some(v) => v.as_str(),
        None => None,
    }
}

fn is_text(value: Option<&Json>, s: &str) -> (r: bool)
    ensures
        r == (text_of(model_of(value)) == Some(s@)),
{
    match text_in(value) {
        Some(t) => text::same_text(t, s),
        None => false,
    }
}

fn in_between(before: &str, middle: &str, after: &str) -> (r: String)
    ensures
        r@ == before@ + middle@ + after@,
{
    let mut r = before.to_owned();
    r.append(middle);
    r.append(after);
    r
}

fn delta_is_input_json(event: &Json) -> (r: bool)
    ensures
        r == (text_of(member_of(event.model().get("delta"@), "type"@)) == Some(
            "input_json_delta"@,
        )),
{
    is_text(member_in(event.get("delta"), "type"), "input_json_delta")
}

fn format_stream_event(event: &Json) -> (r: Option<String>)
    ensures
        match r {
            Some(s) => stream_text(event.model()) == Some(s@),
            None => stream_text(event.model()) is None,
        },
{
    let delta = event.get("delta");
    if is_text(member_in(delta, "type"), "text_delta") {
        return match text_in(member_in(delta, "text")) {
            Some(t) => Some(t.to_owned()),
            None => None,
        };
    }
    let kind = event.get("type");
    let block = event.get("content_block");
    if is_text(kind, "content_block_start") && is_text(member_in(block, "type"), "tool_use") {
        let name = match text_in(member_in(block, "name")) {
            Some(name) => name,
            None => "tool",
        };
        return Some(in_between("\r\n\x1b[1;33m⚡ ", name, "\x1b[0m "));
    }
    if delta_is_input_json(event) {
        if let Some(partial) = text_in(member_in(delta, "partial_json")) {
            return Some(in_between("\x1b[2m", partial, "\x1b[0m"));
        }
    }
    if is_text(kind, "content_block_stop") {
        return Some("\r\n".to_owned());
    }
    None
}

/// Turns an event into text for the terminal. `None` for events that are not
/// shown.
pub fn format_event(json: &Json) -> (r: Option<String>)
    ensures
        match r {
            Some(s) => event_text(json.model()) == Some(s@),
            None => event_text(json.model()) is None,
        },
{
    let kind = json.get("type");
    if is_text(kind, "stream_event") {
        match json.get("event") {
            Some(event) => format_stream_event(event),
            None => None,
        }
    } else if is_text(kind, "result") {
        Some("\r\n".to_owned())
    } else {
        None
    }
}

/// The session that an event says has started.
pub fn started_session(json: &Json) -> (r: Option<String>)
    ensures
        match r {
            Some(s) => event_session(json.model()) == Some(s@),
            None => event_session(json.model()) is None,
        },
{
    if !is_text(json.get("type"), "system") || !is_text(json.get("subtype"), "init") {
        return None;
    }
    match text_in(member_in(json.get("data"), "session_id")) {
        Some(id) => Some(id.to_owned()),
        None => None,
    }
}

/// `serde_json::Value`, a parsed document.
#[verifier::external_type_specification]
#[verifier::external_body]
pub struct ExValue(serde_json::Value);

/// What a parsed document holds.
pub uninterp spec fn contents(value: serde_json::Value) -> JsonModel;

/// What a text holds as JSON; `None` where it is not JSON.
pub uninterp spec fn parsed_json(line: Seq<char>) -> Option<JsonModel>;

/// `serde_json::from_str`, with the error dropped.
///
/// Claimed: whether a text is JSON, and what it holds, is a function of the
/// text.
#[verifier::external_body]
fn parse_json(line: &str) -> (r: Option<serde_json::Value>)
    ensures
        match r {
            Some(value) => parsed_json(line@) == Some(contents(value)),
            None => parsed_json(line@) is None,
        },
{
    serde_json::from_str(line).ok()
}

/// A document opened by one level.
enum Opened {
    Text(String),
    Object(Vec<(String, serde_json::Value)>),
    Other,
}

impl Opened {
    spec fn model(self) -> JsonModel {
        match self {
            Opened::Text(s) => JsonModel::Text(s@),
            Opened::Object(members) => JsonModel::Object(
                Seq::new(members@.len(), |i: int| (members@[i].0@, contents(members@[i].1))),
            ),
            Opened::Other => JsonModel::Other,
        }
    }
}

/// The variants of `serde_json::Value` told apart: the text of a string and the
/// members of an object are moved over, and every other value counts as other.
///
/// Claimed: the result holds what the document holds.
#[verifier::external_body]
fn opened(value: serde_json::Value) -> (r: Opened)
    ensures
        r.model() == contents(value),
{
    match value {
        serde_json::Value::String(s) => Opened::Text(s),
        serde_json::Value::Object(members) => Opened::Object(members.into_iter().collect()),
        serde_json::Value::Null => Opened::Other,
        serde_json::Value::Bool(_) => Opened::Other,
        serde_json::Value::Number(_) => Opened::Other,
        serde_json::Value::Array(_) => Opened::Other,
    }
}

/// Takes a document apart, level by level.
fn take_apart(value: serde_json::Value) -> (r: Json)
    ensures
        r.model() == contents(value),
    decreases contents(value),
{
    match opened(value) {
        Opened::Text(s) => Json::Text(s),
        Opened::Object(members) => {
            let ghost all = contents(value)->Object_0;
            let mut rest = members;
            let mut back: Vec<Member> = Vec::new();
            while rest.len() > 0
                invariant
                    contents(value) == JsonModel::Object(all),
                    rest@.len() + back@.len() == all.len(),
                    forall|i: int|
                        0 <= i < rest@.len() ==> #[trigger] all[i] == (
                            rest@[i].0@,
                            contents(rest@[i].1),
                        ),
                    forall|i: int|
                        0 <= i < back@.len() ==> all[all.len() - 1 - i] == (
                            (#[trigger] back@[i]).key@,
                            back@[i].value.model(),
                        ),
                decreases rest@.len(),
            {
                let ghost last = rest@.len() - 1;
                assert(all[last] == (rest@[last].0@, contents(rest@[last].1)));
                if let Some((key, inner)) = rest.pop() {
                    proof {
                        assert(decreases_to!(contents(value) => contents(value)->Object_0));
                        assert(decreases_to!(all => all[last]));
                        assert(decreases_to!(all[last] => all[last].1));
                    }
                    back.push(Member { key, value: take_apart(inner) });
                }
            }
            let mut found: Vec<Member> = Vec::new();
            while back.len() > 0
                invariant
                    back@.len() + found@.len() == all.len(),
                    forall|i: int|
                        0 <= i < back@.len() ==> all[all.len() - 1 - i] == (
                            (#[trigger] back@[i]).key@,
                            back@[i].value.model(),
                        ),
                    forall|i: int|
                        0 <= i < found@.len() ==> #[trigger] all[i] == (
                            found@[i].key@,
                            found@[i].value.model(),
                        ),
                decreases back@.len(),
            {
                let ghost last = back@.len() - 1;
                assert(back@[last] == back@.last());
                if let Some(member) = back.pop() {
                    found.push(member);
                }
            }
            let json = Json::Object(found);
            assert(json.model()->Object_0 =~= all);
            json
        },
        Opened::Other => Json::Other,
    }
}

/// What one line of the agent's output comes to.
#[derive(Debug)]
pub struct Output {
    /// The text to show in the terminal.
    pub text: Option<String>,
    /// The session that has started.
    pub session: Option<String>,
}

/// Reads one line of the agent's output. Nothing comes of lines that are not
/// JSON, and no text of events that are not shown.
pub fn read_line(line: &str) -> (r: Output)
    ensures
        match r.text {
            Some(s) => parsed_json(line@) is Some && event_text(parsed_json(line@)->0) == Some(s@),
            None => parsed_json(line@) is None || event_text(parsed_json(line@)->0) is None,
        },
        match r.session {
            Some(s) => parsed_json(line@) is Some && event_session(parsed_json(line@)->0) == Some(
                s@,
            ),
            None => parsed_json(line@) is None || event_session(parsed_json(line@)->0) is None,
        },
{
    match parse_json(line) {
        Some(value) => {
            let json = take_apart(value);
            Output { text: format_event(&json), session: started_session(&json) }
        },
        None => Output { text: None, session: None },
    }
}

/// What is shown when an agent has finished.
pub fn finished_marker(exit_code: i32) -> (r: &'static str)
    ensures
        r@ == if exit_code == 0 {
            "\r\n\x1b[1;32m✓ agent done\x1b[0m\r\n"@
        } else {
            "\r\n\x1b[1;31m✗ agent failed\x1b[0m\r\n"@
        },
{
    if exit_code == 0 {
        "\r\n\x1b[1;32m✓ agent done\x1b[0m\r\n"
    } else {
        "\r\n\x1b[1;31m✗ agent failed\x1b[0m\r\n"
    }
}

/// What is shown when an agent could not be started.
pub fn not_started_message(program: &str, reason: &str) -> (r: String)
    ensures
        r@ == "\x1b[1;31m✗ failed to spawn "@ + program@ + ": "@ + reason@ + "\x1b[0m\r\n"@,
{
    let mut r = in_between("\x1b[1;31m✗ failed to spawn ", program, ": ");
    r.append(reason);
    r.append("\x1b[0m\r\n");
    r
}

/// Text that streams in is shown as it is.
pub proof fn streamed_text_is_shown(json: JsonModel, event: JsonModel, delta: JsonModel)
    requires
        text_of(json.get("type"@)) == Some("stream_event"@),
        json.get("event"@) == Some(event),
        event.get("delta"@) == Some(delta),
        text_of(delta.get("type"@)) == Some("text_delta"@),
    ensures
        event_text(json) == text_of(delta.get("text"@)),
{
}

/// The start of a tool call is shown as a line of its own with the tool's name, or with
/// `tool` where it has none; its input is shown dimmed, as it is.
pub proof fn tool_calls_are_shown(
    json: JsonModel,
    event: JsonModel,
    block: JsonModel,
    delta: JsonModel,
    name: Seq<char>,
)
    requires
        text_of(json.get("type"@)) == Some("stream_event"@),
        json.get("event"@) == Some(event),
    ensures
        event.get("delta"@) is None && text_of(event.get("type"@)) == Some("content_block_start"@)
            && event.get("content_block"@) == Some(block) && text_of(block.get("type"@)) == Some(
            "tool_use"@,
        ) && name == (match text_of(block.get("name"@)) {
            Some(n) => n,
            None => "tool"@,
        }) ==> event_text(json) == Some(
            seq!['\r', '\n'] + "\x1b[1;33m⚡ "@ + name + "\x1b[0m "@,
        ),
        event.get("delta"@) == Some(delta) && event.get("content_block"@) is None && text_of(
            delta.get("type"@),
        ) == Some("input_json_delta"@) && text_of(delta.get("partial_json"@)) == Some(name)
            ==> event_text(json) == Some("\x1b[2m"@ + name + "\x1b[0m"@),
{
    reveal_strlit("\r\n\x1b[1;33m⚡ ");
    reveal_strlit("\x1b[1;33m⚡ ");
    reveal_strlit("text_delta");
    reveal_strlit("input_json_delta");
    assert("text_delta"@.len() != "input_json_delta"@.len());
    assert("\r\n\x1b[1;33m⚡ "@ =~= seq!['\r', '\n'] + "\x1b[1;33m⚡ "@);
}

/// The end of a content block and the result end the line; other events show nothing.
pub proof fn other_events_end_lines_or_show_nothing(json: JsonModel)
    ensures
        text_of(json.get("type"@)) == Some("result"@) ==> event_text(json) == Some(
            seq!['\r', '\n'],
        ),
        text_of(json.get("type"@)) != Some("result"@) && text_of(json.get("type"@)) != Some(
            "stream_event"@,
        ) ==> event_text(json) is None,
        json.get("event"@) is None && text_of(json.get("type"@)) != Some("result"@) ==> event_text(
            json,
        ) is None,
{
    reveal_strlit("\r\n");
    reveal_strlit("result");
    reveal_strlit("stream_event");
    assert("\r\n"@ =~= seq!['\r', '\n']);
    assert("result"@.len() != "stream_event"@.len());
}

/// A member is found by its name, the first of that name where there are several, and
/// only in an object.
pub proof fn members_are_found_by_name(
    before: Seq<(Seq<char>, JsonModel)>,
    key: Seq<char>,
    value: JsonModel,
    behind: Seq<(Seq<char>, JsonModel)>,
)
    requires
        forall|i: int| 0 <= i < before.len() ==> (#[trigger] before[i]).0 != key,
    ensures
        JsonModel::Object(before + seq![(key, value)] + behind).get(key) == Some(value),
        JsonModel::Object(before).get(key) is None,
        JsonModel::Other.get(key) is None,
        JsonModel::Text(key).get(key) is None,
    decreases before.len(),
{
    let all = before + seq![(key, value)] + behind;
    if before.len() == 0 {
        assert(all[0] == (key, value));
    } else {
        let rest = before.skip(1);
        assert(before[0].0 != key);
        assert forall|i: int| 0 <= i < rest.len() implies (#[trigger] rest[i]).0 != key by {
            assert(rest[i] == before[i + 1]);
        }
        members_are_found_by_name(rest, key, value, behind);
        assert(all.skip(1) =~= rest + seq![(key, value)] + behind);
        assert(all[0] == before[0]);
    }
}

/// The session that has started is the one that the data of an `init` event names; no
/// other event starts one.
pub proof fn sessions_start_with_init(json: JsonModel, data: JsonModel)
    ensures
        text_of(json.get("type"@)) == Some("system"@) && text_of(json.get("subtype"@)) == Some(
            "init"@,
        ) && json.get("data"@) == Some(data) ==> event_session(json) == text_of(
            data.get("session_id"@),
        ),
        json.get("data"@) is None ==> event_session(json) is None,
        text_of(json.get("type"@)) != Some("system"@) ==> event_session(json) is None,
        text_of(json.get("subtype"@)) != Some("init"@) ==> event_session(json) is None,
{
}

} // verus!
