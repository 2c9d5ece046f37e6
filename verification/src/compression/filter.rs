//! Messages, and which of them compression looks at.

use vstd::prelude::*;
use crate::json::{
    array, array_member, json_views, member, member_in, object2, object3, str_json, text_member,
    Json, JsonV,
};
use crate::text::{begins, starts_with};

verus! {

/// A tool call inside an assistant message.
pub struct ToolCallMessage {
    pub id: String,
    pub name: String,
    pub arguments: String,
}

/// A message of a conversation.
#[allow(inconsistent_fields)]
pub enum ChatMessage {
    System { content: String },
    User { content: String },
    Assistant { content: Option<String>, tool_calls: Option<Vec<ToolCallMessage>> },
    Tool { tool_call_id: String, content: String },
    Custom { role: String, data: Json },
}

/// Prefix injected in front of every summary produced by the compressor.
///
/// Later compression passes tell old summaries by it.
pub const SUMMARY_PREFIX: &'static str = "Another language model started to solve this problem and produced a summary of its thinking process. You also have access to the state of the tools that were used by that language model. Use this to build on the work that has already been done and avoid duplicating work. Here is the summary produced by the other language model, use the information in this summary to assist with your own analysis:";

/// A user message whose content starts with [`SUMMARY_PREFIX`].
pub open spec fn is_summary(m: ChatMessage) -> bool {
    m matches ChatMessage::User { content } && begins(content@, SUMMARY_PREFIX@)
}

/// Whether `msg` is a summary that an earlier compression pass injected.
pub fn is_summary_message(msg: &ChatMessage) -> (r: bool)
    ensures
        r == is_summary(*msg),
{
    match msg {
        ChatMessage::User { content } => starts_with(content.as_str(), SUMMARY_PREFIX),
        _ => false,
    }
}

/// The number of leading system messages.
pub open spec fn leading_systems(m: Seq<ChatMessage>) -> nat
    decreases m.len(),
{
    if m.len() > 0 && m[0] is System {
        1 + leading_systems(m.drop_first())
    } else {
        0
    }
}

/// Splits a message list into its leading system messages and the rest, given
/// as the number of the former.
pub fn split_system_prompt(messages: &Vec<ChatMessage>) -> (r: usize)
    ensures
        r == leading_systems(messages@),
        r <= messages@.len(),
{
    let mut end: usize = 0;
    assert(messages@.skip(0) == messages@);
    while end < messages.len()
        invariant_except_break
            end + leading_systems(messages@.skip(end as int)) == leading_systems(messages@),
        invariant
            end <= messages@.len(),
        ensures
            end == leading_systems(messages@),
        decreases messages@.len() - end,
    {
        assert(messages@.skip(end as int)[0] == messages@[end as int]);
        assert(messages@.skip(end as int).drop_first() == messages@.skip(end + 1));
        let is_system = match &messages[end] {
            ChatMessage::System { content: _ } => true,
            _ => false,
        };
        if is_system {
            end += 1;
        } else {
            break;
        }
    }
    end
}

/// The split is where the leading system messages end: all before it are
/// system messages, and the first after it, if any, is not.
pub proof fn law_split_system_prompt(m: Seq<ChatMessage>)
    ensures
        leading_systems(m) <= m.len(),
        forall|i: int| 0 <= i < leading_systems(m) ==> m[i] is System,
        leading_systems(m) < m.len() ==> m[leading_systems(m) as int] !is System,
        m.take(leading_systems(m) as int) + m.skip(leading_systems(m) as int) == m,
    decreases m.len(),
{
    if m.len() > 0 && m[0] is System {
        let d = m.drop_first();
        law_split_system_prompt(d);
        assert forall|i: int| 0 <= i < leading_systems(m) implies m[i] is System by {
            if i > 0 {
                assert(d[i - 1] is System);
            }
        }
        if leading_systems(m) < m.len() {
            assert(m[leading_systems(m) as int] == d[leading_systems(d) as int]);
        }
    }
}

// ---------------------------------------------------------------------------
// Logging form
// ---------------------------------------------------------------------------

/// A tool call as JSON.
pub open spec fn tool_call_json(t: ToolCallMessage) -> JsonV {
    JsonV::Object(
        seq![
            ("id"@, JsonV::Str(t.id@)),
            ("name"@, JsonV::Str(t.name@)),
            ("arguments"@, JsonV::Str(t.arguments@)),
        ],
    )
}

/// A message as JSON: its role and what it says.
pub open spec fn message_json(m: ChatMessage) -> JsonV {
    match m {
        ChatMessage::System { content } => JsonV::Object(
            seq![("role"@, JsonV::Str("system"@)), ("content"@, JsonV::Str(content@))],
        ),
        ChatMessage::User { content } => JsonV::Object(
            seq![("role"@, JsonV::Str("user"@)), ("content"@, JsonV::Str(content@))],
        ),
        ChatMessage::Assistant { content, tool_calls } => {
            let text = match content {
                Some(s) => JsonV::Str(s@),
                None => JsonV::Null,
            };
            match tool_calls {
                None => JsonV::Object(
                    seq![("role"@, JsonV::Str("assistant"@)), ("content"@, text)],
                ),
                Some(t) => JsonV::Object(
                    seq![
                        ("role"@, JsonV::Str("assistant"@)),
                        ("content"@, text),
                        (
                            "tool_calls"@,
                            JsonV::Array(Seq::new(t@.len(), |i: int| tool_call_json(t@[i]))),
                        ),
                    ],
                ),
            }
        },
        ChatMessage::Tool { tool_call_id, content } => JsonV::Object(
            seq![
                ("role"@, JsonV::Str("tool"@)),
                ("tool_call_id"@, JsonV::Str(tool_call_id@)),
                ("content"@, JsonV::Str(content@)),
            ],
        ),
        ChatMessage::Custom { role, data } => JsonV::Object(
            seq![("role"@, JsonV::Str(role@)), ("data"@, data@)],
        ),
    }
}

fn tool_calls_array(calls: &Vec<ToolCallMessage>) -> (r: Json)
    ensures
        r@ == JsonV::Array(Seq::new(calls@.len(), |i: int| tool_call_json(calls@[i]))),
{
    let mut out: Vec<Json> = Vec::new();
    let ghost all = Seq::new(calls@.len(), |i: int| tool_call_json(calls@[i]));
    let mut i: usize = 0;
    while i < calls.len()
        invariant
            i <= calls@.len(),
            all == Seq::new(calls@.len(), |i: int| tool_call_json(calls@[i])),
            json_views(out@) == all.take(i as int),
        decreases calls@.len() - i,
    {
        let ghost before = json_views(out@);
        let j = object3(
            "id",
            str_json(calls[i].id.as_str()),
            "name",
            str_json(calls[i].name.as_str()),
            "arguments",
            str_json(calls[i].arguments.as_str()),
        );
        out.push(j);
        i += 1;
        assert(json_views(out@) == before.push(j@));
        assert(all.take(i as int) == all.take(i - 1).push(all[i - 1]));
    }
    assert(all.take(calls@.len() as int) == all);
    array(out)
}

/// A message as JSON, for the log.
pub fn format_message(msg: &ChatMessage) -> (r: Json)
    ensures
        r@ == message_json(*msg),
{
    match msg {
        ChatMessage::System { content } => object2(
            "role",
            str_json("system"),
            "content",
            str_json(content.as_str()),
        ),
        ChatMessage::User { content } => object2(
            "role",
            str_json("user"),
            "content",
            str_json(content.as_str()),
        ),
        ChatMessage::Assistant { content, tool_calls } => {
            let text = match content {
                Some(s) => str_json(s.as_str()),
                None => Json::Null,
            };
            match tool_calls {
                None => object2("role", str_json("assistant"), "content", text),
                Some(t) => object3(
                    "role",
                    str_json("assistant"),
                    "content",
                    text,
                    "tool_calls",
                    tool_calls_array(t),
                ),
            }
        },
        ChatMessage::Tool { tool_call_id, content } => object3(
            "role",
            str_json("tool"),
            "tool_call_id",
            str_json(tool_call_id.as_str()),
            "content",
            str_json(content.as_str()),
        ),
        ChatMessage::Custom { role, data } => object2(
            "role",
            str_json(role.as_str()),
            "data",
            data.copy(),
        ),
    }
}

/// A message is an old summary exactly when it is a user message that starts
/// with the prefix of summaries, whatever follows it.
pub proof fn law_summaries_are_told_by_their_prefix(m: ChatMessage, rest: Seq<char>)
    ensures
        m !is User ==> !is_summary(m),
        m matches ChatMessage::User { content } ==> {
            &&& content@ == SUMMARY_PREFIX@ + rest ==> is_summary(m)
            &&& is_summary(m) ==> content@ == SUMMARY_PREFIX@ + content@.skip(
                SUMMARY_PREFIX@.len() as int,
            )
        },
{
    if let ChatMessage::User { content } = m {
        let n = SUMMARY_PREFIX@.len() as int;
        if content@ == SUMMARY_PREFIX@ + rest {
            assert(content@.take(n) =~= SUMMARY_PREFIX@);
        }
        if is_summary(m) {
            assert(content@ =~= content@.take(n) + content@.skip(n));
        }
    }
}

/// A logged message tells its role and, where it has a text, the whole of it; a
/// tool result tells which call it answers, and every tool call is there, in
/// order, with its name.
pub proof fn law_logged_messages_keep_their_content(m: ChatMessage)
    ensures
        match m {
            ChatMessage::System { content } => {
                &&& text_member(message_json(m), "role"@) == Some("system"@)
                &&& text_member(message_json(m), "content"@) == Some(content@)
            },
            ChatMessage::User { content } => {
                &&& text_member(message_json(m), "role"@) == Some("user"@)
                &&& text_member(message_json(m), "content"@) == Some(content@)
            },
            ChatMessage::Assistant { content, tool_calls } => {
                &&& text_member(message_json(m), "role"@) == Some("assistant"@)
                &&& content matches Some(s) ==> text_member(message_json(m), "content"@) == Some(
                    s@,
                )
                &&& content is None ==> member(message_json(m), "content"@) == Some(JsonV::Null)
                &&& tool_calls is None ==> member(message_json(m), "tool_calls"@) is None
                &&& tool_calls matches Some(t) ==> {
                    let a = array_member(message_json(m), "tool_calls"@);
                    &&& a is Some
                    &&& a->0.len() == t@.len()
                    &&& forall|i: int|
                        0 <= i < t@.len() ==> text_member(#[trigger] a->0[i], "name"@) == Some(
                            t@[i].name@,
                        ) && text_member(a->0[i], "id"@) == Some(t@[i].id@) && text_member(
                            a->0[i],
                            "arguments"@,
                        ) == Some(t@[i].arguments@)
                }
            },
            ChatMessage::Tool { tool_call_id, content } => {
                &&& text_member(message_json(m), "role"@) == Some("tool"@)
                &&& text_member(message_json(m), "tool_call_id"@) == Some(tool_call_id@)
                &&& text_member(message_json(m), "content"@) == Some(content@)
            },
            ChatMessage::Custom { role, data } => {
                &&& text_member(message_json(m), "role"@) == Some(role@)
                &&& member(message_json(m), "data"@) == Some(data@)
            },
        },
{
    reveal_strlit("role");
    reveal_strlit("content");
    reveal_strlit("tool_calls");
    reveal_strlit("tool_call_id");
    reveal_strlit("data");
    reveal_strlit("id");
    reveal_strlit("name");
    reveal_strlit("arguments");
    assert("role"@.len() == 4);
    assert("content"@.len() == 7);
    assert("tool_calls"@.len() == 10);
    assert("tool_call_id"@.len() == 12);
    assert("data"@.len() == 4 && "data"@[0] == 'd' && "role"@[0] == 'r');
    assert("id"@.len() == 2);
    assert("name"@.len() == 4);
    assert("arguments"@.len() == 9);
    reveal_with_fuel(member_in, 5);
    if let ChatMessage::Assistant { content, tool_calls } = m {
        if let Some(t) = tool_calls {
            let a = array_member(message_json(m), "tool_calls"@)->0;
            assert forall|i: int| 0 <= i < t@.len() implies text_member(
                #[trigger] a[i],
                "name"@,
            ) == Some(t@[i].name@) && text_member(a[i], "id"@) == Some(t@[i].id@) && text_member(
                a[i],
                "arguments"@,
            ) == Some(t@[i].arguments@) by {
                assert(a[i] == tool_call_json(t@[i]));
            }
        }
    }
}

} // verus!
