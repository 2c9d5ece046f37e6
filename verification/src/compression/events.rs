//! Typed compression lifecycle events and their wire form.
//!
//! Lifecycle: `Preparing → Started → Progress (0..N) → Completed | Failed`

use vstd::prelude::*;
use crate::compression::middleware::{int_json, int_to_json};
use crate::json::{
    lemma_array_view, lemma_object_view, member, member_in, member_views, no_members, object,
    opt_json, str_json, string_of_json, with_member, Json, JsonV,
};
use crate::text::same_text;

verus! {

/// Compression trigger type.
#[derive(Clone, Copy, Debug, PartialEq, Eq, Structural)]
pub enum CompressionTrigger {
    /// Automatic compression when the token threshold is reached.
    Auto,
    /// Manual compression via the /compact command.
    Manual,
    /// Inline compaction within the agent loop (after tool execution).
    InlineCompaction,
}

/// Context compression lifecycle events.
#[derive(Debug, PartialEq)]
pub enum CompressionEvent {
    /// About to start.
    Preparing {
        session_id: u64,
        tokens_before: usize,
        msg_count: usize,
        trigger: CompressionTrigger,
    },
    /// The summary is about to be requested.
    Started {
        session_id: u64,
        tokens_before: usize,
        msg_count: usize,
        trigger: CompressionTrigger,
    },
    /// Characters received from the summarizing model so far.
    Progress { session_id: u64, chars: usize },
    /// The messages have been replaced.
    Completed {
        session_id: u64,
        tokens_before: usize,
        tokens_after: usize,
        /// Positive where tokens were saved.
        reduction_pct: i32,
        msg_count_before: usize,
        msg_count_after: usize,
        trigger: CompressionTrigger,
    },
    /// The messages have been left as they were.
    Failed { session_id: u64, error: String, trigger: CompressionTrigger },
}

/// The mathematical value of a [`CompressionEvent`].
pub enum EventView {
    Preparing {
        session_id: u64,
        tokens_before: usize,
        msg_count: usize,
        trigger: CompressionTrigger,
    },
    Started {
        session_id: u64,
        tokens_before: usize,
        msg_count: usize,
        trigger: CompressionTrigger,
    },
    Progress { session_id: u64, chars: usize },
    Completed {
        session_id: u64,
        tokens_before: usize,
        tokens_after: usize,
        reduction_pct: i32,
        msg_count_before: usize,
        msg_count_after: usize,
        trigger: CompressionTrigger,
    },
    Failed { session_id: u64, error: Seq<char>, trigger: CompressionTrigger },
}

impl View for CompressionEvent {
    type V = EventView;

    open spec fn view(&self) -> EventView {
        match *self {
            CompressionEvent::Preparing { session_id, tokens_before, msg_count, trigger } =>
                EventView::Preparing { session_id, tokens_before, msg_count, trigger },
            CompressionEvent::Started { session_id, tokens_before, msg_count, trigger } =>
                EventView::Started { session_id, tokens_before, msg_count, trigger },
            CompressionEvent::Progress { session_id, chars } => EventView::Progress {
                session_id,
                chars,
            },
            CompressionEvent::Completed {
                session_id,
                tokens_before,
                tokens_after,
                reduction_pct,
                msg_count_before,
                msg_count_after,
                trigger,
            } => EventView::Completed {
                session_id,
                tokens_before,
                tokens_after,
                reduction_pct,
                msg_count_before,
                msg_count_after,
                trigger,
            },
            CompressionEvent::Failed { session_id, error, trigger } => EventView::Failed {
                session_id,
                error: error@,
                trigger,
            },
        }
    }
}

/// An event of an application, as it travels among the runtime's events.
#[derive(Debug)]
pub enum UserEvent {
    Progress { text: String },
    Structured { event_type: String, data: Json },
    ToolPartialResult { tool_call_id: String, content: String, is_partial: bool },
}

// ---------------------------------------------------------------------------
// Writing
// ---------------------------------------------------------------------------

/// A trigger's name on the wire.
pub open spec fn trigger_name(t: CompressionTrigger) -> Seq<char> {
    match t {
        CompressionTrigger::Auto => "auto"@,
        CompressionTrigger::Manual => "manual"@,
        CompressionTrigger::InlineCompaction => "inlineCompaction"@,
    }
}

pub open spec fn trigger_json(t: CompressionTrigger) -> JsonV {
    JsonV::Str(trigger_name(t))
}

/// An event on the wire: an object with the event's phase and its fields.
pub open spec fn event_json(e: EventView) -> JsonV {
    match e {
        EventView::Preparing { session_id, tokens_before, msg_count, trigger } => JsonV::Object(
            seq![
                ("phase"@, JsonV::Str("preparing"@)),
                ("session_id"@, JsonV::UInt(session_id)),
                ("tokens_before"@, JsonV::UInt(tokens_before as u64)),
                ("msg_count"@, JsonV::UInt(msg_count as u64)),
                ("trigger"@, trigger_json(trigger)),
            ],
        ),
        EventView::Started { session_id, tokens_before, msg_count, trigger } => JsonV::Object(
            seq![
                ("phase"@, JsonV::Str("started"@)),
                ("session_id"@, JsonV::UInt(session_id)),
                ("tokens_before"@, JsonV::UInt(tokens_before as u64)),
                ("msg_count"@, JsonV::UInt(msg_count as u64)),
                ("trigger"@, trigger_json(trigger)),
            ],
        ),
        EventView::Progress { session_id, chars } => JsonV::Object(
            seq![
                ("phase"@, JsonV::Str("progress"@)),
                ("session_id"@, JsonV::UInt(session_id)),
                ("chars"@, JsonV::UInt(chars as u64)),
            ],
        ),
        EventView::Completed {
            session_id,
            tokens_before,
            tokens_after,
            reduction_pct,
            msg_count_before,
            msg_count_after,
            trigger,
        } => JsonV::Object(
            seq![
                ("phase"@, JsonV::Str("completed"@)),
                ("session_id"@, JsonV::UInt(session_id)),
                ("tokens_before"@, JsonV::UInt(tokens_before as u64)),
                ("tokens_after"@, JsonV::UInt(tokens_after as u64)),
                ("reduction_pct"@, int_json(reduction_pct as int)),
                ("msg_count_before"@, JsonV::UInt(msg_count_before as u64)),
                ("msg_count_after"@, JsonV::UInt(msg_count_after as u64)),
                ("trigger"@, trigger_json(trigger)),
            ],
        ),
        EventView::Failed { session_id, error, trigger } => JsonV::Object(
            seq![
                ("phase"@, JsonV::Str("failed"@)),
                ("session_id"@, JsonV::UInt(session_id)),
                ("error"@, JsonV::Str(error)),
                ("trigger"@, trigger_json(trigger)),
            ],
        ),
    }
}

fn trigger_to_json(t: CompressionTrigger) -> (r: Json)
    ensures
        r@ == trigger_json(t),
{
    match t {
        CompressionTrigger::Auto => str_json("auto"),
        CompressionTrigger::Manual => str_json("manual"),
        CompressionTrigger::InlineCompaction => str_json("inlineCompaction"),
    }
}

fn opening(phase: &str, session_id: u64) -> (r: Vec<(String, Json)>)
    ensures
        member_views(r@) == seq![
            ("phase"@, JsonV::Str(phase@)),
            ("session_id"@, JsonV::UInt(session_id)),
        ],
{
    let m = with_member(no_members(), "phase", str_json(phase));
    let m = with_member(m, "session_id", Json::UInt(session_id));
    assert(member_views(m@) =~= seq![
        ("phase"@, JsonV::Str(phase@)),
        ("session_id"@, JsonV::UInt(session_id)),
    ]);
    m
}

// ---------------------------------------------------------------------------
// Reading
// ---------------------------------------------------------------------------

/// A field of an event on the wire.  An event may also be written as an array
/// of its phase and its fields in order: `index` is the field's place there.
pub open spec fn wire_field(v: JsonV, name: Seq<char>, index: int) -> Option<JsonV> {
    match v {
        JsonV::Array(a) => if 0 <= index < a.len() {
            Some(a[index])
        } else {
            None
        },
        _ => member(v, name),
    }
}

/// An array must hold its phase and the `n` fields and nothing else.
pub open spec fn wire_arity(v: JsonV, n: int) -> bool {
    match v {
        JsonV::Array(a) => a.len() == n + 1,
        _ => true,
    }
}

pub open spec fn wire_text(o: Option<JsonV>) -> Option<Seq<char>> {
    match o {
        Some(v) => string_of_json(v),
        None => None,
    }
}

pub open spec fn wire_u64(o: Option<JsonV>) -> Option<u64> {
    match o {
        Some(JsonV::UInt(n)) => Some(n),
        _ => None,
    }
}

pub open spec fn wire_usize(o: Option<JsonV>) -> Option<usize> {
    match o {
        Some(JsonV::UInt(n)) => if n <= usize::MAX {
            Some(n as usize)
        } else {
            None
        },
        _ => None,
    }
}

pub open spec fn wire_i32(o: Option<JsonV>) -> Option<i32> {
    match o {
        Some(JsonV::UInt(n)) => if n <= i32::MAX {
            Some(n as i32)
        } else {
            None
        },
        Some(JsonV::NegInt(n)) => if i32::MIN <= n <= i32::MAX {
            Some(n as i32)
        } else {
            None
        },
        _ => None,
    }
}

/// The trigger with a given name.
pub open spec fn trigger_named(name: Seq<char>) -> Option<CompressionTrigger> {
    if name == "auto"@ {
        Some(CompressionTrigger::Auto)
    } else if name == "manual"@ {
        Some(CompressionTrigger::Manual)
    } else if name == "inlineCompaction"@ {
        Some(CompressionTrigger::InlineCompaction)
    } else {
        None
    }
}

/// A trigger on the wire: its name, or an object with its name as the one key
/// and nothing behind it.
pub open spec fn wire_trigger(o: Option<JsonV>) -> Option<CompressionTrigger> {
    match o {
        Some(JsonV::Str(s)) => trigger_named(s),
        Some(JsonV::Object(m)) => if m.len() == 1 && (m[0].1 is Null || m[0].1 == JsonV::Object(
            Seq::empty(),
        )) {
            trigger_named(m[0].0)
        } else {
            None
        },
        _ => None,
    }
}

/// The event that a value on the wire stands for.
pub open spec fn event_of(v: JsonV) -> Option<EventView> {
    let sid = wire_u64(wire_field(v, "session_id"@, 1));
    match wire_text(wire_field(v, "phase"@, 0)) {
        None => None,
        Some(p) => if p == "preparing"@ || p == "started"@ {
            let before = wire_usize(wire_field(v, "tokens_before"@, 2));
            let count = wire_usize(wire_field(v, "msg_count"@, 3));
            let trigger = wire_trigger(wire_field(v, "trigger"@, 4));
            if wire_arity(v, 4) && sid is Some && before is Some && count is Some && trigger
                is Some {
                Some(
                    if p == "preparing"@ {
                        EventView::Preparing {
                            session_id: sid->0,
                            tokens_before: before->0,
                            msg_count: count->0,
                            trigger: trigger->0,
                        }
                    } else {
                        EventView::Started {
                            session_id: sid->0,
                            tokens_before: before->0,
                            msg_count: count->0,
                            trigger: trigger->0,
                        }
                    },
                )
            } else {
                None
            }
        } else if p == "progress"@ {
            let chars = wire_usize(wire_field(v, "chars"@, 2));
            if wire_arity(v, 2) && sid is Some && chars is Some {
                Some(EventView::Progress { session_id: sid->0, chars: chars->0 })
            } else {
                None
            }
        } else if p == "completed"@ {
            let before = wire_usize(wire_field(v, "tokens_before"@, 2));
            let after = wire_usize(wire_field(v, "tokens_after"@, 3));
            let pct = wire_i32(wire_field(v, "reduction_pct"@, 4));
            let count_before = wire_usize(wire_field(v, "msg_count_before"@, 5));
            let count_after = wire_usize(wire_field(v, "msg_count_after"@, 6));
            let trigger = wire_trigger(wire_field(v, "trigger"@, 7));
            if wire_arity(v, 7) && sid is Some && before is Some && after is Some && pct is Some
                && count_before is Some && count_after is Some && trigger is Some {
                Some(
                    EventView::Completed {
                        session_id: sid->0,
                        tokens_before: before->0,
                        tokens_after: after->0,
                        reduction_pct: pct->0,
                        msg_count_before: count_before->0,
                        msg_count_after: count_after->0,
                        trigger: trigger->0,
                    },
                )
            } else {
                None
            }
        } else if p == "failed"@ {
            let error = wire_text(wire_field(v, "error"@, 2));
            let trigger = wire_trigger(wire_field(v, "trigger"@, 3));
            if wire_arity(v, 3) && sid is Some && error is Some && trigger is Some {
                Some(
                    EventView::Failed { session_id: sid->0, error: error->0, trigger: trigger->0 },
                )
            } else {
                None
            }
        } else {
            None
        },
    }
}

fn read_field<'a>(v: &'a Json, name: &str, index: usize) -> (r: Option<&'a Json>)
    ensures
        opt_json(r) == wire_field(v@, name@, index as int),
{
    match v {
        Json::Array(a) => {
            proof {
                lemma_array_view(*a);
            }
            if index < a.len() {
                Some(&a[index])
            } else {
                None
            }
        },
        _ => v.get(name),
    }
}

fn read_arity(v: &Json, n: usize) -> (r: bool)
    ensures
        r == wire_arity(v@, n as int),
{
    match v {
        Json::Array(a) => {
            proof {
                lemma_array_view(*a);
            }
            a.len() > 0 && a.len() - 1 == n
        },
        _ => true,
    }
}

fn read_u64(o: Option<&Json>) -> (r: Option<u64>)
    ensures
        r == wire_u64(opt_json(o)),
{
    match o {
        Some(Json::UInt(n)) => Some(*n),
        _ => None,
    }
}

fn read_usize(o: Option<&Json>) -> (r: Option<usize>)
    ensures
        r == wire_usize(opt_json(o)),
{
    match o {
        Some(Json::UInt(n)) => if *n <= usize::MAX as u64 {
            Some(*n as usize)
        } else {
            None
        },
        _ => None,
    }
}

fn read_i32(o: Option<&Json>) -> (r: Option<i32>)
    ensures
        r == wire_i32(opt_json(o)),
{
    match o {
        Some(Json::UInt(n)) => if *n <= i32::MAX as u64 {
            Some(*n as i32)
        } else {
            None
        },
        Some(Json::NegInt(n)) => if i32::MIN as i64 <= *n && *n <= i32::MAX as i64 {
            Some(*n as i32)
        } else {
            None
        },
        _ => None,
    }
}

fn read_text<'a>(o: Option<&'a Json>) -> (r: Option<&'a str>)
    ensures
        match r {
            Some(s) => wire_text(opt_json(o)) == Some(s@),
            None => wire_text(opt_json(o)) is None,
        },
{
    match o {
        Some(j) => j.as_str(),
        None => None,
    }
}

fn find_trigger(name: &str) -> (r: Option<CompressionTrigger>)
    ensures
        r == trigger_named(name@),
{
    if same_text(name, "auto") {
        Some(CompressionTrigger::Auto)
    } else if same_text(name, "manual") {
        Some(CompressionTrigger::Manual)
    } else if same_text(name, "inlineCompaction") {
        Some(CompressionTrigger::InlineCompaction)
    } else {
        None
    }
}

fn read_trigger(o: Option<&Json>) -> (r: Option<CompressionTrigger>)
    ensures
        r == wire_trigger(opt_json(o)),
{
    match o {
        Some(Json::Str(s)) => find_trigger(s.as_str()),
        Some(Json::Object(m)) => {
            proof {
                lemma_object_view(*m);
                assert(member_views(m@).len() == m@.len());
            }
            if m.len() != 1 {
                return None;
            }
            let bare = match &m[0].1 {
                Json::Null => true,
                Json::Object(inner) => {
                    proof {
                        lemma_object_view(*inner);
                        assert(member_views(inner@).len() == inner@.len());
                        if inner@.len() == 0 {
                            assert(member_views(inner@) =~= Seq::empty());
                        }
                    }
                    inner.len() == 0
                },
                _ => false,
            };
            if bare {
                find_trigger(m[0].0.as_str())
            } else {
                None
            }
        },
        _ => None,
    }
}

/// The type under which compression events travel.
pub const EVENT_TYPE: &'static str = "compression";

impl CompressionEvent {
    /// This event on the wire.
    pub fn to_json(&self) -> (r: Json)
        ensures
            r@ == event_json(self@),
    {
        let ghost want = event_json(self@)->Object_0;
        let m = match self {
            CompressionEvent::Preparing { session_id, tokens_before, msg_count, trigger } => {
                let m = opening("preparing", *session_id);
                let m = with_member(m, "tokens_before", Json::UInt(*tokens_before as u64));
                let m = with_member(m, "msg_count", Json::UInt(*msg_count as u64));
                let m = with_member(m, "trigger", trigger_to_json(*trigger));
                assert(member_views(m@) =~= want);
                m
            },
            CompressionEvent::Started { session_id, tokens_before, msg_count, trigger } => {
                let m = opening("started", *session_id);
                let m = with_member(m, "tokens_before", Json::UInt(*tokens_before as u64));
                let m = with_member(m, "msg_count", Json::UInt(*msg_count as u64));
                let m = with_member(m, "trigger", trigger_to_json(*trigger));
                assert(member_views(m@) =~= want);
                m
            },
            CompressionEvent::Progress { session_id, chars } => {
                let m = opening("progress", *session_id);
                let m = with_member(m, "chars", Json::UInt(*chars as u64));
                assert(member_views(m@) =~= want);
                m
            },
            CompressionEvent::Completed {
                session_id,
                tokens_before,
                tokens_after,
                reduction_pct,
                msg_count_before,
                msg_count_after,
                trigger,
            } => {
                let m = opening("completed", *session_id);
                let m = with_member(m, "tokens_before", Json::UInt(*tokens_before as u64));
                let m = with_member(m, "tokens_after", Json::UInt(*tokens_after as u64));
                let m = with_member(m, "reduction_pct", int_to_json(*reduction_pct));
                let m = with_member(m, "msg_count_before", Json::UInt(*msg_count_before as u64));
                let m = with_member(m, "msg_count_after", Json::UInt(*msg_count_after as u64));
                let m = with_member(m, "trigger", trigger_to_json(*trigger));
                assert(member_views(m@) =~= want);
                m
            },
            CompressionEvent::Failed { session_id, error, trigger } => {
                let m = opening("failed", *session_id);
                let m = with_member(m, "error", str_json(error.as_str()));
                let m = with_member(m, "trigger", trigger_to_json(*trigger));
                assert(member_views(m@) =~= want);
                m
            },
        };
        object(m)
    }

    /// The event that `v` stands for, if it stands for one.
    pub fn from_json(v: &Json) -> (r: Option<CompressionEvent>)
        ensures
            match r {
                Some(e) => event_of(v@) == Some(e@),
                None => event_of(v@) is None,
            },
    {
        let phase = match read_text(read_field(v, "phase", 0)) {
            Some(p) => p,
            None => {
                return None;
            },
        };
        let sid = read_u64(read_field(v, "session_id", 1));
        if same_text(phase, "preparing") || same_text(phase, "started") {
            let before = read_usize(read_field(v, "tokens_before", 2));
            let count = read_usize(read_field(v, "msg_count", 3));
            let trigger = read_trigger(read_field(v, "trigger", 4));
            if !read_arity(v, 4) {
                return None;
            }
            match (sid, before, count, trigger) {
                (Some(session_id), Some(tokens_before), Some(msg_count), Some(trigger)) => {
                    if same_text(phase, "preparing") {
                        Some(
                            CompressionEvent::Preparing {
                                session_id,
                                tokens_before,
                                msg_count,
                                trigger,
                            },
                        )
                    } else {
                        Some(
                            CompressionEvent::Started {
                                session_id,
                                tokens_before,
                                msg_count,
                                trigger,
                            },
                        )
                    }
                },
                _ => None,
            }
        } else if same_text(phase, "progress") {
            let chars = read_usize(read_field(v, "chars", 2));
            if !read_arity(v, 2) {
                return None;
            }
            match (sid, chars) {
                (Some(session_id), Some(chars)) => Some(
                    CompressionEvent::Progress { session_id, chars },
                ),
                _ => None,
            }
        } else if same_text(phase, "completed") {
            let before = read_usize(read_field(v, "tokens_before", 2));
            let after = read_usize(read_field(v, "tokens_after", 3));
            let pct = read_i32(read_field(v, "reduction_pct", 4));
            let count_before = read_usize(read_field(v, "msg_count_before", 5));
            let count_after = read_usize(read_field(v, "msg_count_after", 6));
            let trigger = read_trigger(read_field(v, "trigger", 7));
            if !read_arity(v, 7) {
                return None;
            }
            match (sid, before, after, pct, count_before, count_after, trigger) {
                (
                    Some(session_id),
                    Some(tokens_before),
                    Some(tokens_after),
                    Some(reduction_pct),
                    Some(msg_count_before),
                    Some(msg_count_after),
                    Some(trigger),
                ) => Some(
                    CompressionEvent::Completed {
                        session_id,
                        tokens_before,
                        tokens_after,
                        reduction_pct,
                        msg_count_before,
                        msg_count_after,
                        trigger,
                    },
                ),
                _ => None,
            }
        } else if same_text(phase, "failed") {
            let error = read_text(read_field(v, "error", 2));
            let trigger = read_trigger(read_field(v, "trigger", 3));
            if !read_arity(v, 3) {
                return None;
            }
            match (sid, error, trigger) {
                (Some(session_id), Some(error), Some(trigger)) => Some(
                    CompressionEvent::Failed { session_id, error: error.to_owned(), trigger },
                ),
                _ => None,
            }
        } else {
            None
        }
    }

    /// This event, wrapped for transport.
    pub fn into_user_event(self) -> (r: UserEvent)
        ensures
            r matches UserEvent::Structured { event_type, data } && event_type@ == EVENT_TYPE@
                && data@ == event_json(self@),
    {
        UserEvent::Structured { event_type: EVENT_TYPE.to_owned(), data: self.to_json() }
    }

    /// The compression event inside `event`, if it is one and is well formed.
    pub fn from_user_event(event: &UserEvent) -> (r: Option<CompressionEvent>)
        ensures
            ({
                let want = match *event {
                    UserEvent::Structured { event_type, data } => if event_type@ == EVENT_TYPE@ {
                        event_of(data@)
                    } else {
                        None
                    },
                    _ => None,
                };
                match r {
                    Some(e) => want == Some(e@),
                    None => want is None,
                }
            }),
    {
        match event {
            UserEvent::Structured { event_type, data } => {
                if same_text(event_type.as_str(), EVENT_TYPE) {
                    CompressionEvent::from_json(data)
                } else {
                    None
                }
            },
            _ => None,
        }
    }
}

/// Looking a name up in a list that starts with another name.
proof fn lemma_next_member(m: Seq<(Seq<char>, JsonV)>, i: int, key: Seq<char>)
    requires
        0 <= i < m.len(),
    ensures
        m[i].0 == key ==> member_in(m.skip(i), key) == Some(m[i].1),
        m[i].0 != key ==> member_in(m.skip(i), key) == member_in(m.skip(i + 1), key),
{
    assert(m.skip(i)[0] == m[i]);
    assert(m.skip(i).drop_first() == m.skip(i + 1));
}

/// The member at place `n` is found by its name when no member before it has
/// that name.
proof fn lemma_member_at(m: Seq<(Seq<char>, JsonV)>, n: int, i: int)
    requires
        0 <= i <= n < m.len(),
        forall|j: int| i <= j < n ==> (#[trigger] m[j]).0 != m[n].0,
    ensures
        member_in(m.skip(i), m[n].0) == Some(m[n].1),
    decreases n - i,
{
    lemma_next_member(m, i, m[n].0);
    if i < n {
        assert(m[i].0 != m[n].0);
        lemma_member_at(m, n, i + 1);
    }
}

proof fn lemma_member_of(m: Seq<(Seq<char>, JsonV)>, n: int)
    requires
        0 <= n < m.len(),
        forall|j: int| 0 <= j < n ==> (#[trigger] m[j]).0 != m[n].0,
    ensures
        member(JsonV::Object(m), m[n].0) == Some(m[n].1),
{
    lemma_member_at(m, n, 0);
    assert(m.skip(0) == m);
}

/// The names used on the wire are told apart.
proof fn lemma_names()
    ensures
        "phase"@.len() == 5,
        "session_id"@.len() == 10,
        "tokens_before"@.len() == 13,
        "tokens_after"@.len() == 12,
        "reduction_pct"@.len() == 13,
        "reduction_pct"@[0] == 'r',
        "tokens_before"@[0] == 't',
        "msg_count"@.len() == 9,
        "msg_count_before"@.len() == 16,
        "msg_count_after"@.len() == 15,
        "trigger"@.len() == 7,
        "chars"@.len() == 5,
        "chars"@[0] == 'c',
        "phase"@[0] == 'p',
        "error"@.len() == 5,
        "error"@[0] == 'e',
        "preparing"@.len() == 9,
        "started"@.len() == 7,
        "progress"@.len() == 8,
        "completed"@.len() == 9,
        "completed"@[0] == 'c',
        "preparing"@[0] == 'p',
        "failed"@.len() == 6,
        "auto"@.len() == 4,
        "manual"@.len() == 6,
        "inlineCompaction"@.len() == 16,
{
    reveal_strlit("phase");
    reveal_strlit("session_id");
    reveal_strlit("tokens_before");
    reveal_strlit("tokens_after");
    reveal_strlit("reduction_pct");
    reveal_strlit("msg_count");
    reveal_strlit("msg_count_before");
    reveal_strlit("msg_count_after");
    reveal_strlit("trigger");
    reveal_strlit("chars");
    reveal_strlit("error");
    reveal_strlit("preparing");
    reveal_strlit("started");
    reveal_strlit("progress");
    reveal_strlit("completed");
    reveal_strlit("failed");
    reveal_strlit("auto");
    reveal_strlit("manual");
    reveal_strlit("inlineCompaction");
}

/// Reading what was written gives back the event: nothing is lost on the wire.
pub proof fn law_event_round_trip(e: EventView)
    ensures
        event_of(event_json(e)) == Some(e),
{
    lemma_names();
    let m = event_json(e)->Object_0;
    assert(trigger_named("auto"@) == Some(CompressionTrigger::Auto));
    assert(trigger_named("manual"@) == Some(CompressionTrigger::Manual));
    assert(trigger_named("inlineCompaction"@) == Some(CompressionTrigger::InlineCompaction));
    lemma_member_of(m, 0);
    lemma_member_of(m, 1);
    lemma_member_of(m, 2);
    match e {
        EventView::Preparing { session_id, tokens_before, msg_count, trigger } => {
            lemma_member_of(m, 3);
            lemma_member_of(m, 4);
        },
        EventView::Started { session_id, tokens_before, msg_count, trigger } => {
            lemma_member_of(m, 3);
            lemma_member_of(m, 4);
        },
        EventView::Progress { session_id, chars } => {},
        EventView::Completed {
            session_id,
            tokens_before,
            tokens_after,
            reduction_pct,
            msg_count_before,
            msg_count_after,
            trigger,
        } => {
            lemma_member_of(m, 3);
            lemma_member_of(m, 4);
            lemma_member_of(m, 5);
            lemma_member_of(m, 6);
            lemma_member_of(m, 7);
        },
        EventView::Failed { session_id, error, trigger } => {
            lemma_member_of(m, 3);
        },
    }
}

/// Every event on the wire is an object with a phase that is a string.
pub proof fn law_phase_always_present(e: EventView)
    ensures
        member(event_json(e), "phase"@) matches Some(p) && p is Str,
{
    lemma_member_of(event_json(e)->Object_0, 0);
}

/// An object is read by its members alone, whatever else it holds and in
/// whatever order: with the members of an event it is that event.
pub proof fn law_events_are_read_by_their_members(
    v: JsonV,
    sid: u64,
    n: usize,
    k: usize,
    error: Seq<char>,
    trigger: CompressionTrigger,
)
    requires
        v is Object,
        member(v, "session_id"@) == Some(JsonV::UInt(sid)),
        trigger == CompressionTrigger::Auto ==> member(v, "trigger"@) == Some(
            JsonV::Str("auto"@),
        ),
        trigger == CompressionTrigger::Manual ==> member(v, "trigger"@) == Some(
            JsonV::Str("manual"@),
        ),
        trigger == CompressionTrigger::InlineCompaction ==> member(v, "trigger"@) == Some(
            JsonV::Str("inlineCompaction"@),
        ),
    ensures
        member(v, "phase"@) == Some(JsonV::Str("progress"@)) && member(v, "chars"@) == Some(
            JsonV::UInt(n as u64),
        ) ==> event_of(v) == Some(EventView::Progress { session_id: sid, chars: n }),
        member(v, "phase"@) == Some(JsonV::Str("failed"@)) && member(v, "error"@) == Some(
            JsonV::Str(error),
        ) ==> event_of(v) == Some(EventView::Failed { session_id: sid, error, trigger }),
        member(v, "phase"@) == Some(JsonV::Str("preparing"@)) && member(v, "tokens_before"@)
            == Some(JsonV::UInt(n as u64)) && member(v, "msg_count"@) == Some(
            JsonV::UInt(k as u64),
        ) ==> event_of(v) == Some(
            EventView::Preparing { session_id: sid, tokens_before: n, msg_count: k, trigger },
        ),
        member(v, "phase"@) == Some(JsonV::Str("started"@)) && member(v, "tokens_before"@) == Some(
            JsonV::UInt(n as u64),
        ) && member(v, "msg_count"@) == Some(JsonV::UInt(k as u64)) ==> event_of(v) == Some(
            EventView::Started { session_id: sid, tokens_before: n, msg_count: k, trigger },
        ),
{
    lemma_names();
}

/// A finished compression is read by its members too, and an object without a
/// session or without a phase that is known is no event.
pub proof fn law_completed_events_are_read(
    v: JsonV,
    sid: u64,
    before: usize,
    after: usize,
    pct: i32,
    count_before: usize,
    count_after: usize,
)
    requires
        v is Object,
    ensures
        member(v, "phase"@) == Some(JsonV::Str("completed"@)) && member(v, "session_id"@) == Some(
            JsonV::UInt(sid),
        ) && member(v, "tokens_before"@) == Some(JsonV::UInt(before as u64)) && member(
            v,
            "tokens_after"@,
        ) == Some(JsonV::UInt(after as u64)) && member(v, "reduction_pct"@) == Some(
            (if pct >= 0 {
                JsonV::UInt(pct as u64)
            } else {
                JsonV::NegInt(pct as i64)
            }),
        ) && member(v, "msg_count_before"@) == Some(JsonV::UInt(count_before as u64)) && member(
            v,
            "msg_count_after"@,
        ) == Some(JsonV::UInt(count_after as u64)) && member(v, "trigger"@) == Some(
            JsonV::Str("auto"@),
        ) ==> event_of(v) == Some(
            EventView::Completed {
                session_id: sid,
                tokens_before: before,
                tokens_after: after,
                reduction_pct: pct,
                msg_count_before: count_before,
                msg_count_after: count_after,
                trigger: CompressionTrigger::Auto,
            },
        ),
        member(v, "session_id"@) is None ==> event_of(v) is None,
        member(v, "phase"@) is None ==> event_of(v) is None,
        forall|p: Seq<char>|
            member(v, "phase"@) == Some(JsonV::Str(p)) && p != "preparing"@ && p != "started"@ && p
                != "progress"@ && p != "completed"@ && p != "failed"@ ==> event_of(v) is None,
{
    lemma_names();
}

/// An event may also come as an array of its phase and its fields in order, and
/// a trigger as an object with its name alone; with a field more or less an
/// array is no event.
pub proof fn law_events_are_read_from_arrays(
    sid: u64,
    n: usize,
    k: usize,
    error: Seq<char>,
    extra: JsonV,
)
    ensures
        ({
            let auto = JsonV::Object(seq![("auto"@, JsonV::Null)]);
            let progress = seq![JsonV::Str("progress"@), JsonV::UInt(sid), JsonV::UInt(n as u64)];
            let failed = seq![
                JsonV::Str("failed"@),
                JsonV::UInt(sid),
                JsonV::Str(error),
                JsonV::Str("manual"@),
            ];
            let started = seq![
                JsonV::Str("started"@),
                JsonV::UInt(sid),
                JsonV::UInt(n as u64),
                JsonV::UInt(k as u64),
                auto,
            ];
            &&& event_of(JsonV::Array(progress)) == Some(
                EventView::Progress { session_id: sid, chars: n },
            )
            &&& event_of(JsonV::Array(progress.push(extra))) is None
            &&& event_of(JsonV::Array(progress.drop_last())) is None
            &&& event_of(JsonV::Array(failed)) == Some(
                EventView::Failed { session_id: sid, error, trigger: CompressionTrigger::Manual },
            )
            &&& event_of(JsonV::Array(failed.push(extra))) is None
            &&& event_of(JsonV::Array(failed.drop_last())) is None
            &&& event_of(JsonV::Array(started)) == Some(
                EventView::Started {
                    session_id: sid,
                    tokens_before: n,
                    msg_count: k,
                    trigger: CompressionTrigger::Auto,
                },
            )
            &&& event_of(JsonV::Array(started.push(extra))) is None
            &&& event_of(JsonV::Array(started.drop_last())) is None
        }),
{
    reveal_strlit("progress");
    reveal_strlit("failed");
    reveal_strlit("started");
    reveal_strlit("preparing");
    reveal_strlit("completed");
    reveal_strlit("auto");
    reveal_strlit("manual");
    assert("progress"@[0] == 'p' && "progress"@[2] == 'o');
    assert("preparing"@[0] == 'p' && "preparing"@[2] == 'e');
    assert("failed"@[0] == 'f');
    assert("started"@[0] == 's');
    assert("completed"@[0] == 'c');
    assert("auto"@[0] == 'a');
    assert("manual"@[0] == 'm');
}

/// An event stands for its kind and its fields, and a trigger travels under its
/// own name.
pub proof fn law_events_stand_for_themselves(
    e: CompressionEvent,
    sid: u64,
    n: usize,
    k: usize,
    error: String,
    t: CompressionTrigger,
)
    ensures
        (CompressionEvent::Preparing {
            session_id: sid,
            tokens_before: n,
            msg_count: k,
            trigger: t,
        })@ == (EventView::Preparing {
            session_id: sid,
            tokens_before: n,
            msg_count: k,
            trigger: t,
        }),
        (CompressionEvent::Started {
            session_id: sid,
            tokens_before: n,
            msg_count: k,
            trigger: t,
        })@ == (EventView::Started {
            session_id: sid,
            tokens_before: n,
            msg_count: k,
            trigger: t,
        }),
        (CompressionEvent::Progress { session_id: sid, chars: n })@ == (EventView::Progress {
            session_id: sid,
            chars: n,
        }),
        (CompressionEvent::Failed { session_id: sid, error, trigger: t })@ == (
        EventView::Failed { session_id: sid, error: error@, trigger: t }),
        e matches CompressionEvent::Completed {
            session_id,
            tokens_before,
            tokens_after,
            reduction_pct,
            msg_count_before,
            msg_count_after,
            trigger,
        } ==> e@ == (EventView::Completed {
            session_id,
            tokens_before,
            tokens_after,
            reduction_pct,
            msg_count_before,
            msg_count_after,
            trigger,
        }),
        trigger_name(CompressionTrigger::Auto) == "auto"@,
        trigger_name(CompressionTrigger::Manual) == "manual"@,
        trigger_name(CompressionTrigger::InlineCompaction) == "inlineCompaction"@,
{
}

} // verus!
