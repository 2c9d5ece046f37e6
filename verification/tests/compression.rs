use std::time::Duration;

use agent_works::compression::compactor::{ContextCompactor, SummaryCaches};
use agent_works::compression::config::CompressionConfig;
use agent_works::compression::events::{CompressionEvent, CompressionTrigger, UserEvent};
use agent_works::compression::filter::{
    format_message, is_summary_message, split_system_prompt, ChatMessage, ToolCallMessage,
    SUMMARY_PREFIX,
};
use agent_works::compression::middleware::{
    completed_event, compression_log, log_filename, CompressionMiddleware, Gate, PreLlmStep,
};
use agent_works::compression::policy::{
    confirmation_question, AutoCompressionPolicy, CompressionPolicy, RateLimitPolicy,
    UserConfirmationPolicy,
};
use agent_works::json::Json;

fn system(s: &str) -> ChatMessage {
    ChatMessage::System { content: s.to_string() }
}

fn user(s: &str) -> ChatMessage {
    ChatMessage::User { content: s.to_string() }
}

fn assistant(s: &str) -> ChatMessage {
    ChatMessage::Assistant { content: Some(s.to_string()), tool_calls: None }
}

fn tool(id: &str, s: &str) -> ChatMessage {
    ChatMessage::Tool { tool_call_id: id.to_string(), content: s.to_string() }
}

fn string(s: &str) -> Json {
    Json::Str(s.to_string())
}

fn object(members: Vec<(&str, Json)>) -> Json {
    Json::Object(members.into_iter().map(|(k, v)| (k.to_string(), v)).collect())
}

// ── Config ──

#[test]
fn test_default_values() {
    let cfg = CompressionConfig::default();
    assert!(cfg.enabled);
    assert_eq!(cfg.trigger_tokens, 30_000);
    assert_eq!(cfg.keep_recent_messages, 40);
    assert_eq!(cfg.max_summary_chars, 10 * 1024);
    assert_eq!(cfg.max_transcript_chars, 20 * 1024);
}

#[test]
fn test_builder_chaining() {
    let cfg = CompressionConfig::builder()
        .with_enabled(false)
        .with_trigger_tokens(50_000)
        .with_keep_recent_messages(20)
        .with_max_summary_chars(8_000)
        .with_max_transcript_chars(16_000);

    assert!(!cfg.enabled);
    assert_eq!(cfg.trigger_tokens, 50_000);
    assert_eq!(cfg.keep_recent_messages, 20);
    assert_eq!(cfg.max_summary_chars, 8_000);
    assert_eq!(cfg.max_transcript_chars, 16_000);
}

// ── Filter ──

#[test]
fn test_summary_message_detected() {
    let msg = user(&format!("{SUMMARY_PREFIX}\nThe user asked for X."));
    assert!(is_summary_message(&msg));
}

#[test]
fn test_normal_user_message_not_detected() {
    assert!(!is_summary_message(&user("hello, can you help me?")));
}

#[test]
fn test_assistant_message_not_detected() {
    assert!(!is_summary_message(&assistant("sure, I can help.")));
}

#[test]
fn test_system_message_not_detected() {
    assert!(!is_summary_message(&system("You are a helpful assistant.")));
}

#[test]
fn test_tool_message_not_detected() {
    assert!(!is_summary_message(&tool("call_1", "result data")));
}

#[test]
fn test_partial_prefix_not_detected() {
    // Only a substring of the prefix — must NOT match.
    assert!(!is_summary_message(&user("Another language model started")));
}

/// The lengths of the two parts of a split message list.
fn split_lengths(msgs: Vec<ChatMessage>) -> (usize, usize) {
    let end = split_system_prompt(&msgs);
    let (sys, body) = msgs.split_at(end);
    (sys.len(), body.len())
}

#[test]
fn test_split_single_system() {
    assert_eq!(split_lengths(vec![system("sys"), user("hi"), assistant("hello")]), (1, 2));
}

#[test]
fn test_split_multiple_consecutive_systems() {
    let msgs = vec![system("sys1"), system("sys2"), system("sys3"), user("hi")];
    assert_eq!(split_lengths(msgs), (3, 1));
}

#[test]
fn test_split_no_system() {
    assert_eq!(split_lengths(vec![user("hi"), assistant("hello")]), (0, 2));
}

#[test]
fn test_split_all_system() {
    assert_eq!(split_lengths(vec![system("s1"), system("s2")]), (2, 0));
}

#[test]
fn test_split_empty() {
    assert_eq!(split_lengths(vec![]), (0, 0));
}

#[test]
fn test_split_non_contiguous_system_not_merged() {
    // A system message after a non-system one must NOT be included.
    let msgs = vec![system("sys"), user("hi"), system("late sys")];
    assert_eq!(split_lengths(msgs), (1, 2), "only the leading contiguous system block");
}

#[test]
fn messages_are_logged_with_their_role() {
    assert_eq!(
        format_message(&system("s")),
        object(vec![("role", string("system")), ("content", string("s"))])
    );
    let call = ToolCallMessage {
        id: "1".to_string(),
        name: "echo".to_string(),
        arguments: "{}".to_string(),
    };
    let msg = ChatMessage::Assistant { content: None, tool_calls: Some(vec![call]) };
    assert_eq!(
        format_message(&msg),
        object(vec![
            ("role", string("assistant")),
            ("content", Json::Null),
            (
                "tool_calls",
                Json::Array(vec![object(vec![
                    ("id", string("1")),
                    ("name", string("echo")),
                    ("arguments", string("{}")),
                ])])
            ),
        ])
    );
    assert_eq!(
        format_message(&tool("c", "out")),
        object(vec![
            ("role", string("tool")),
            ("tool_call_id", string("c")),
            ("content", string("out")),
        ])
    );
    let custom = ChatMessage::Custom { role: "artifact".to_string(), data: Json::UInt(7) };
    assert_eq!(
        format_message(&custom),
        object(vec![("role", string("artifact")), ("data", Json::UInt(7))])
    );
}

// ── Events ──

/// Writes an event as JSON text and reads it back.
fn round_trip(event: &CompressionEvent) -> CompressionEvent {
    let text = event.to_json().to_text();
    CompressionEvent::from_json(&Json::parse(&text).unwrap()).unwrap()
}

#[test]
fn test_preparing_roundtrip() {
    let event = CompressionEvent::Preparing {
        session_id: 42,
        tokens_before: 4200,
        msg_count: 8,
        trigger: CompressionTrigger::Auto,
    };
    assert_eq!(event, round_trip(&event));
}

#[test]
fn test_started_roundtrip() {
    let event = CompressionEvent::Started {
        session_id: 42,
        tokens_before: 4200,
        msg_count: 8,
        trigger: CompressionTrigger::Manual,
    };
    assert_eq!(event, round_trip(&event));
}

#[test]
fn test_progress_roundtrip() {
    let event = CompressionEvent::Progress { session_id: 42, chars: 755 };
    assert_eq!(event, round_trip(&event));
}

#[test]
fn test_completed_roundtrip() {
    let event = CompressionEvent::Completed {
        session_id: 42,
        tokens_before: 4200,
        tokens_after: 3800,
        reduction_pct: 10,
        msg_count_before: 20,
        msg_count_after: 8,
        trigger: CompressionTrigger::Auto,
    };
    assert_eq!(event, round_trip(&event));
}

#[test]
fn test_failed_roundtrip() {
    let event = CompressionEvent::Failed {
        session_id: 42,
        error: "LLM timeout".to_string(),
        trigger: CompressionTrigger::Manual,
    };
    assert_eq!(event, round_trip(&event));
}

#[test]
fn negative_reduction_round_trips() {
    let event = completed_event(1, 100, 150, -50, 3, 4);
    assert_eq!(event.to_json().get("reduction_pct"), Some(&Json::NegInt(-50)));
    assert_eq!(event, round_trip(&event));
}

#[test]
fn test_json_uses_snake_case() {
    let event = CompressionEvent::Completed {
        session_id: 1,
        tokens_before: 100,
        tokens_after: 50,
        reduction_pct: 50,
        msg_count_before: 10,
        msg_count_after: 5,
        trigger: CompressionTrigger::Auto,
    };
    let json = event.to_json();
    // phase tag
    assert_eq!(json.get_str("phase"), Some("completed"));
    // snake_case keys
    assert!(json.get("tokens_before").is_some(), "expected snake_case");
    assert!(json.get("tokensAfter").is_none(), "camelCase must not appear");
    assert!(json.get("msg_count_before").is_some());
    assert!(json.get("msg_count_after").is_some());
    assert!(json.get("reduction_pct").is_some());
    assert!(json.get("session_id").is_some());
}

#[test]
fn test_trigger_json_values() {
    for (trigger, name) in [
        (CompressionTrigger::Auto, "auto"),
        (CompressionTrigger::Manual, "manual"),
        (CompressionTrigger::InlineCompaction, "inlineCompaction"),
    ] {
        let event = CompressionEvent::Failed { session_id: 1, error: String::new(), trigger };
        assert_eq!(event.to_json().get_str("trigger"), Some(name));
    }
}

#[test]
fn test_into_user_event_and_back() {
    let event = CompressionEvent::Preparing {
        session_id: 42,
        tokens_before: 4200,
        msg_count: 8,
        trigger: CompressionTrigger::Auto,
    };
    let expected = round_trip(&event);
    let user_event = event.into_user_event();

    // Verify the wrapper.
    match &user_event {
        UserEvent::Structured { event_type, .. } => assert_eq!(event_type, "compression"),
        other => panic!("expected Structured, got {:?}", other),
    }

    // Round-trip back.
    let recovered = CompressionEvent::from_user_event(&user_event).unwrap();
    assert_eq!(expected, recovered);
}

#[test]
fn test_from_user_event_ignores_non_compression() {
    let other = UserEvent::Structured { event_type: "other".to_string(), data: object(vec![]) };
    assert!(CompressionEvent::from_user_event(&other).is_none());
    let other = UserEvent::Progress { text: "compression".to_string() };
    assert!(CompressionEvent::from_user_event(&other).is_none());
}

#[test]
fn test_from_user_event_returns_none_on_malformed_data() {
    let bad = UserEvent::Structured {
        event_type: "compression".to_string(),
        data: object(vec![("phase", string("unknown_phase"))]),
    };
    assert!(CompressionEvent::from_user_event(&bad).is_none());
}

#[test]
fn test_deserialize_progress_from_json() {
    let json = object(vec![
        ("phase", string("progress")),
        ("session_id", Json::UInt(1)),
        ("chars", Json::UInt(42)),
    ]);
    assert_eq!(
        CompressionEvent::from_json(&json),
        Some(CompressionEvent::Progress { session_id: 1, chars: 42 })
    );
}

#[test]
fn test_deserialize_start_from_json() {
    let json = object(vec![
        ("phase", string("start")),
        ("tokens_before", Json::UInt(4200)),
        ("msg_count", Json::UInt(8)),
    ]);
    // "start" != "started", so this should fail.
    assert!(CompressionEvent::from_json(&json).is_none(), "\"start\" should not match \"started\"");
}

#[test]
fn events_may_be_written_as_arrays() {
    let progress = vec![string("progress"), Json::UInt(1), Json::UInt(42)];
    assert_eq!(
        CompressionEvent::from_json(&Json::Array(progress)),
        Some(CompressionEvent::Progress { session_id: 1, chars: 42 })
    );
    let too_long = vec![string("progress"), Json::UInt(1), Json::UInt(42), Json::Null];
    assert!(CompressionEvent::from_json(&Json::Array(too_long)).is_none());
    let failed = vec![
        string("failed"),
        Json::UInt(1),
        string("e"),
        object(vec![("manual", Json::Null)]),
    ];
    assert_eq!(
        CompressionEvent::from_json(&Json::Array(failed)),
        Some(CompressionEvent::Failed {
            session_id: 1,
            error: "e".to_string(),
            trigger: CompressionTrigger::Manual,
        })
    );
}

#[test]
fn events_with_wrong_fields_are_refused() {
    for (name, value) in [
        ("chars", Json::NegInt(-1)),
        ("chars", string("42")),
        ("chars", Json::Real("4.5".to_string())),
        ("other", Json::UInt(42)),
    ] {
        let json = object(vec![
            ("phase", string("progress")),
            ("session_id", Json::UInt(1)),
            (name, value),
        ]);
        assert!(CompressionEvent::from_json(&json).is_none());
    }
}

// ── Policies ──

#[test]
fn test_auto_policy_always_returns_true() {
    let mut policy = AutoCompressionPolicy;
    assert!(policy.should_compress(0, 0, 0));
    assert!(policy.should_compress(999_999, 1000, 0));
}

const SEC: u128 = 1_000_000_000;

#[test]
fn test_rate_limit_policy_allows_first_call() {
    let mut policy = RateLimitPolicy::new(Duration::from_secs(60));
    assert!(policy.should_compress(4000, 10, 0));
}

#[test]
fn test_rate_limit_policy_blocks_second_call_within_interval() {
    let mut policy = RateLimitPolicy::new(Duration::from_secs(60));
    assert!(policy.should_compress(4000, 10, 5 * SEC));
    assert!(!policy.should_compress(4000, 10, 5 * SEC));
}

#[test]
fn test_rate_limit_policy_allows_after_interval() {
    let mut policy = RateLimitPolicy::new(Duration::from_nanos(20));
    assert!(policy.should_compress(4000, 10, 100));
    assert!(policy.should_compress(4000, 10, 300));
}

#[test]
fn test_rate_limit_policy_tracks_last_compression_time() {
    let mut policy = RateLimitPolicy::new(Duration::from_nanos(20));
    assert!(policy.should_compress(1000, 5, 100));
    // Within the interval — blocked.
    assert!(!policy.should_compress(2000, 10, 119));
    // After the interval — allowed again.
    assert!(policy.should_compress(3000, 15, 120));
    // Within the new interval — blocked again.
    assert!(!policy.should_compress(4000, 20, 139));
}

#[test]
fn test_user_confirmation_accepts_y() {
    let mut policy = UserConfirmationPolicy::new("y\n".to_string());
    assert!(policy.should_compress(4000, 10, 0));
}

#[test]
fn test_user_confirmation_accepts_uppercase_y() {
    let mut policy = UserConfirmationPolicy::new("Y\n".to_string());
    assert!(policy.should_compress(4000, 10, 0));
}

#[test]
fn test_user_confirmation_rejects_n() {
    let mut policy = UserConfirmationPolicy::new("n\n".to_string());
    assert!(!policy.should_compress(4000, 10, 0));
}

#[test]
fn test_user_confirmation_rejects_empty() {
    let mut policy = UserConfirmationPolicy::new("\n".to_string());
    assert!(!policy.should_compress(4000, 10, 0));
}

#[test]
fn user_confirmation_reads_one_line_at_a_time() {
    let mut policy = UserConfirmationPolicy::new("n\n  Y \nyes".to_string());
    assert!(!policy.should_compress(1, 1, 0));
    assert!(policy.should_compress(1, 1, 0));
    assert!(!policy.should_compress(1, 1, 0));
    assert_eq!(policy.reader, "");
    assert_eq!(
        confirmation_question(4000, 10),
        "\n⏳ Compression needed (~4000 tokens, 10 messages). Proceed? (y/n): "
    );
}

/// Only `y` and `Y` are a `y` in lower case.
#[test]
fn no_other_character_is_a_lower_case_y() {
    for n in 0..=0x10ffffu32 {
        if let Some(c) = char::from_u32(n) {
            assert_eq!(c.to_lowercase().to_string() == "y", c == 'y' || c == 'Y');
        }
    }
}

// ── Middleware ──

fn middleware(trigger: usize, keep: usize) -> CompressionMiddleware<AutoCompressionPolicy> {
    CompressionMiddleware::new(
        CompressionConfig::builder().with_trigger_tokens(trigger).with_keep_recent_messages(keep),
        &mut SummaryCaches::new(),
    )
}

fn make_messages(count: usize) -> Vec<ChatMessage> {
    let mut msgs = vec![system("You are a test agent.")];
    for i in 0..count {
        msgs.push(user(&format!("question {i}")));
        msgs.push(assistant(&format!(
            "answer {i} with some extra content to make the old block large enough"
        )));
    }
    msgs
}

fn conversation(n: usize) -> Vec<ChatMessage> {
    let mut v = vec![system("sys")];
    for i in 0..n {
        v.push(user(&format!("message {i}")));
    }
    v
}

#[test]
fn short_conversations_pass() {
    let mut mw = middleware(0, 2);
    let msgs = conversation(2);
    assert!(matches!(mw.on_pre_llm(&msgs, &vec![9, 9, 9], 0), PreLlmStep::Pass));
    assert_eq!(mw.last_compressed_msg_count, 0);
}

#[test]
fn the_threshold_must_be_exceeded() {
    let mut mw = middleware(30, 2);
    let msgs = conversation(3);
    assert!(matches!(mw.on_pre_llm(&msgs, &vec![99, 10, 10, 10], 0), PreLlmStep::Pass));
    match mw.on_pre_llm(&msgs, &vec![99, 10, 10, 11], 0) {
        PreLlmStep::Compact { tokens_before, msg_count, keep } => {
            assert_eq!(tokens_before, 31);
            assert_eq!(msg_count, 4);
            assert_eq!(keep, vec![0, 1, 2, 3]);
        }
        PreLlmStep::Pass => panic!("expected to compact"),
    }
}

#[test]
fn old_summaries_neither_count_nor_stay() {
    let mut mw = middleware(10, 1);
    let mut msgs = conversation(3);
    msgs.insert(1, user(&format!("{SUMMARY_PREFIX} old")));
    match mw.on_pre_llm(&msgs, &vec![0, 1000, 4, 4, 4], 0) {
        PreLlmStep::Compact { tokens_before, keep, .. } => {
            assert_eq!(tokens_before, 12);
            assert_eq!(keep, vec![0, 2, 3, 4]);
        }
        PreLlmStep::Pass => panic!("expected to compact"),
    }
}

#[test]
fn too_few_left_after_filtering_sets_the_checkpoint() {
    let mut mw = middleware(0, 1);
    let msgs = vec![system("s"), user(SUMMARY_PREFIX), user("new")];
    assert!(matches!(mw.on_pre_llm(&msgs, &vec![1, 1, 1], 0), PreLlmStep::Pass));
    assert_eq!(mw.last_compressed_msg_count, 3);
}

#[test]
fn a_compressed_list_does_not_trigger_again() {
    let mut mw = middleware(5, 1);
    let mut msgs = conversation(3);
    let mut tokens = vec![0, 10, 10, 10];
    assert!(matches!(mw.on_pre_llm(&msgs, &tokens, 0), PreLlmStep::Compact { .. }));
    mw.on_compacted(msgs.len());
    assert!(matches!(mw.gate(&msgs, &tokens), Gate::Pass));
    // A small new message is not enough; a large one is.
    msgs.push(user("a"));
    tokens.push(5);
    assert!(matches!(mw.gate(&msgs, &tokens), Gate::Pass));
    msgs.push(user("b"));
    tokens.push(1);
    match mw.gate(&msgs, &tokens) {
        Gate::Ask { tokens_before, msg_count } => assert_eq!((tokens_before, msg_count), (6, 6)),
        Gate::Pass => panic!("expected to ask"),
    }
}

#[test]
fn the_policy_can_refuse() {
    let config =
        CompressionConfig::builder().with_trigger_tokens(0).with_keep_recent_messages(0);
    let policy = UserConfirmationPolicy::new("n\ny\n".to_string());
    let mut mw = CompressionMiddleware::with_policy(config, &mut SummaryCaches::new(), policy);
    let msgs = conversation(2);
    let tokens = vec![1, 1, 1];
    assert!(matches!(mw.on_pre_llm(&msgs, &tokens, 0), PreLlmStep::Pass));
    assert_eq!(mw.last_compressed_msg_count, 0);
    assert!(matches!(mw.on_pre_llm(&msgs, &tokens, 0), PreLlmStep::Compact { .. }));
}

#[test]
fn test_middleware_noop_when_disabled() {
    let config = CompressionConfig::default().with_enabled(false);
    let mut mw = CompressionMiddleware::new(config, &mut SummaryCaches::new());
    let msgs = conversation(20);
    let tokens = vec![1_000_000; msgs.len()];
    assert!(matches!(mw.on_pre_llm(&msgs, &tokens, 0), PreLlmStep::Pass));
    // Above the threshold too.
    let msgs = conversation(100);
    let tokens = vec![1_000_000; msgs.len()];
    assert!(matches!(mw.gate(&msgs, &tokens), Gate::Ask { .. }));
    assert!(matches!(mw.on_pre_llm(&msgs, &tokens, 0), PreLlmStep::Pass));
    assert_eq!(mw.last_compressed_msg_count, msgs.len());
    assert!(matches!(mw.gate(&msgs, &tokens), Gate::Pass));
}

#[test]
fn test_policy_deny_skips_compression() {
    let config =
        CompressionConfig::default().with_trigger_tokens(1).with_keep_recent_messages(4);
    let policy = UserConfirmationPolicy::new("n\n".to_string());
    let mut mw = CompressionMiddleware::with_policy(config, &mut SummaryCaches::new(), policy);
    let msgs = make_messages(20);
    let tokens = vec![10; msgs.len()];
    // Messages should be unchanged — policy denied.
    assert!(matches!(mw.on_pre_llm(&msgs, &tokens, 0), PreLlmStep::Pass));
    // The policy was asked once.
    assert_eq!(mw.policy.reader, "");
}

#[test]
fn test_policy_not_called_when_below_threshold() {
    let config = CompressionConfig::default().with_trigger_tokens(999_999);
    let policy = UserConfirmationPolicy::new("y\n".to_string());
    let mut mw = CompressionMiddleware::with_policy(config, &mut SummaryCaches::new(), policy);
    let msgs = make_messages(5);
    let tokens = vec![10; msgs.len()];
    assert!(matches!(mw.on_pre_llm(&msgs, &tokens, 0), PreLlmStep::Pass));
    // Policy should NOT have been called — below threshold.
    assert_eq!(mw.policy.reader, "y\n");
}

#[test]
fn test_no_retrigger_after_compression() {
    let mut mw = middleware(1, 4);
    let msgs = make_messages(20);
    let tokens = vec![10; msgs.len()];
    // First call — should compress (20 messages > trigger_tokens=1).
    let msg_count = match mw.on_pre_llm(&msgs, &tokens, 0) {
        PreLlmStep::Compact { msg_count, .. } => msg_count,
        PreLlmStep::Pass => panic!("should have compressed"),
    };
    mw.on_compacted(msg_count);
    // Second call with compressed messages: the count before the compression
    // is skipped, so nothing is left to count.
    let compressed = vec![
        system("You are a test agent."),
        user(&format!("{SUMMARY_PREFIX}short")),
        user("question 18"),
        assistant("answer 18"),
        user("question 19"),
        assistant("answer 19"),
        user("question 20"),
    ];
    let tokens = vec![10; compressed.len()];
    assert!(matches!(mw.on_pre_llm(&compressed, &tokens, 0), PreLlmStep::Pass));
}

#[test]
fn tokens_after_counts_the_old_part() {
    let mw = middleware(0, 2);
    let msgs = conversation(4);
    assert_eq!(mw.tokens_after(&msgs, &vec![100, 1, 2, 4, 8]), 3);
    assert_eq!(mw.tokens_after(&conversation(1), &vec![100, 1]), 0);
}

#[test]
fn the_compactor_is_shared() {
    let config = CompressionConfig::builder().with_trigger_tokens(7);
    let mut caches = SummaryCaches::new();
    let mw = CompressionMiddleware::from_compactor(ContextCompactor::new(config, &mut caches));
    assert_eq!(mw.config().trigger_tokens, 7);
    assert_eq!(mw.compactor().config().trigger_tokens, 7);
    assert_eq!(*mw.clone_compactor().config(), config);
}

#[test]
fn test_from_compactor_and_accessor() {
    let config = CompressionConfig::default().with_trigger_tokens(42);
    let compactor = ContextCompactor::new(config, &mut SummaryCaches::new());
    let mw = CompressionMiddleware::from_compactor(compactor);

    assert_eq!(mw.config().trigger_tokens, 42);
}

/// Clearing through one handle empties the cache for both, and for no other
/// compactor.
#[test]
fn cloned_handles_share_their_cache() {
    let mut caches = SummaryCaches::new();
    let other = ContextCompactor::new(CompressionConfig::default(), &mut caches);
    let mw = CompressionMiddleware::new(CompressionConfig::default(), &mut caches);
    let h = mw.clone_compactor();
    other.keep_summary(&mut caches, 7, "theirs".to_string());
    for through_handle in [true, false] {
        mw.compactor().keep_summary(&mut caches, 7, "first".to_string());
        h.keep_summary(&mut caches, 7, "second".to_string());
        h.keep_summary(&mut caches, 8, "third".to_string());
        assert_eq!(mw.compactor().cached_summary(&caches, 7).as_deref(), Some("second"));
        assert_eq!(h.cached_summary(&caches, 8).as_deref(), Some("third"));
        if through_handle {
            h.clear_cache(&mut caches);
        } else {
            mw.compactor().clear_cache(&mut caches);
        }
        assert!(mw.compactor().cached_summary(&caches, 7).is_none());
        assert!(h.cached_summary(&caches, 8).is_none());
        assert_eq!(other.cached_summary(&caches, 7).as_deref(), Some("theirs"));
    }
}

#[test]
fn the_log_records_a_compression() {
    assert_eq!(log_filename(7, 1700000000), "session_7_1700000000.json");
    let before = vec![user("a"), user("b")];
    let after = vec![user("s")];
    let log = compression_log(7, 1700000000, &before, &after, 20, 25, -25);
    assert_eq!(log.get("session_id"), Some(&Json::UInt(7)));
    assert_eq!(log.get("timestamp"), Some(&Json::UInt(1700000000)));
    let evaluation = log.get("evaluation").unwrap();
    assert_eq!(evaluation.get("tokens_before"), Some(&Json::UInt(20)));
    assert_eq!(evaluation.get("reduction_pct"), Some(&Json::NegInt(-25)));
    assert_eq!(evaluation.get("msg_count_before"), Some(&Json::UInt(2)));
    assert_eq!(evaluation.get("msg_count_after"), Some(&Json::UInt(1)));
    assert_eq!(log.get_array("before").unwrap().len(), 2);
    assert_eq!(log.get_array("after").unwrap()[0], format_message(&user("s")));
}
