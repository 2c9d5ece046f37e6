use agent_works::guard::config::{DefaultGuardConfig, ReasoningOnlyAction};
use agent_works::guard::default::{DefaultGuard, TurnStep};
use agent_works::guard::judge::{
    build_user_context, call_completion_judge, settle_judge, JudgeReply, JudgeResult, JudgeStep,
};
use agent_works::guard::types::{GuardCtx, GuardDecision};

fn make_ctx(
    reasoning_only_strikes: usize,
    empty_response_strikes: usize,
    run_has_tool_calls: bool,
    is_reasoning_only: bool,
    is_empty_response: bool,
    is_text_only: bool,
) -> GuardCtx {
    GuardCtx {
        user_input: "test".to_string(),
        model_response: "response".to_string(),
        reasoning_only_strikes,
        empty_response_strikes,
        run_has_tool_calls,
        last_tool_calls_invalid: false,
        all_user_inputs: vec!["test".to_string()],
        is_reasoning_only,
        is_empty_response,
        is_text_only,
        thinking_disabled: false,
        original_thinking_enabled: true,
    }
}

/// A context with custom input and response text (for length-sensitive tests).
fn make_ctx_with_text(
    user_input: &str,
    model_response: &str,
    run_has_tool_calls: bool,
    is_text_only: bool,
) -> GuardCtx {
    GuardCtx {
        user_input: user_input.to_string(),
        model_response: model_response.to_string(),
        reasoning_only_strikes: 0,
        empty_response_strikes: 0,
        run_has_tool_calls,
        last_tool_calls_invalid: false,
        all_user_inputs: vec![user_input.to_string()],
        is_reasoning_only: false,
        is_empty_response: false,
        is_text_only,
        thinking_disabled: false,
        original_thinking_enabled: true,
    }
}

fn verdict(done: bool, reason: &str) -> JudgeReply {
    JudgeReply::Verdict(JudgeResult { done, reason: reason.to_string() })
}

/// The decision of a guard that does not ask the judge.
fn decided(guard: &DefaultGuard, ctx: &GuardCtx) -> GuardDecision {
    match guard.on_turn(ctx) {
        TurnStep::Decided(d) => d,
        TurnStep::AskJudge(q) => panic!("asked the judge: {:?}", q),
    }
}

#[test]
fn test_reasoning_only_below_threshold() {
    let guard = DefaultGuard::new(DefaultGuardConfig::default());
    let ctx = make_ctx(1, 0, false, true, false, false);

    let decision = decided(&guard, &ctx);
    assert!(matches!(
        decision,
        GuardDecision::Continue { nudge: Some(_) }
    ));
}

#[test]
fn test_reasoning_only_at_threshold() {
    let guard = DefaultGuard::new(DefaultGuardConfig::default());
    let ctx = make_ctx(3, 0, false, true, false, false);

    let decision = decided(&guard, &ctx);
    assert!(matches!(decision, GuardDecision::Fail { .. }));
}

#[test]
fn test_reasoning_only_with_tools_below_threshold() {
    let guard = DefaultGuard::new(DefaultGuardConfig::default());
    let mut ctx = make_ctx(1, 0, false, true, false, false);
    ctx.run_has_tool_calls = true;

    let decision = decided(&guard, &ctx);
    assert!(
        matches!(decision, GuardDecision::Continue { nudge: Some(_) }),
        "reasoning_only with tools, below threshold → Continue, got: {:?}",
        decision
    );
}

#[test]
fn test_reasoning_only_with_tools_at_threshold() {
    let guard = DefaultGuard::new(DefaultGuardConfig::default());
    let mut ctx = make_ctx(3, 0, false, true, false, false);
    ctx.run_has_tool_calls = true;

    let decision = decided(&guard, &ctx);
    assert!(
        matches!(decision, GuardDecision::Fail { .. }),
        "reasoning_only with tools, at threshold → Fail, got: {:?}",
        decision
    );
}

#[test]
fn test_empty_response_below_threshold() {
    let guard = DefaultGuard::new(DefaultGuardConfig::default());
    let ctx = make_ctx(0, 1, false, false, true, false);

    let decision = decided(&guard, &ctx);
    assert!(matches!(
        decision,
        GuardDecision::Continue { nudge: Some(_) }
    ));
}

#[test]
fn test_empty_response_at_threshold() {
    let guard = DefaultGuard::new(DefaultGuardConfig::default());
    let ctx = make_ctx(0, 3, false, false, true, false);

    let decision = decided(&guard, &ctx);
    assert!(matches!(decision, GuardDecision::Fail { .. }));
}

#[test]
fn test_empty_response_with_tool_calls() {
    let guard = DefaultGuard::new(DefaultGuardConfig::default());
    let ctx = make_ctx(0, 1, true, false, true, false);

    let decision = decided(&guard, &ctx);
    assert!(
        matches!(decision, GuardDecision::Continue { nudge: Some(_) }),
        "empty response with tools → Continue (nudge), got: {:?}",
        decision
    );
}

#[test]
fn test_text_only_without_tool_calls() {
    let guard = DefaultGuard::new(DefaultGuardConfig::default());
    let ctx = make_ctx(0, 0, false, false, false, true);

    let decision = decided(&guard, &ctx);
    assert!(matches!(decision, GuardDecision::Complete));
}

#[test]
fn test_text_only_with_tool_calls_no_llm_client() {
    let config = DefaultGuardConfig {
        use_llm_judge: true,
        ..DefaultGuardConfig::default()
    };
    let guard = DefaultGuard::new(config);
    let ctx = make_ctx(0, 0, true, false, false, true);

    // No LLM client, judge_fail_open=false (default), should force continue
    let decision = decided(&guard, &ctx);
    assert!(matches!(
        decision,
        GuardDecision::Continue { nudge: Some(_) }
    ));
}

#[test]
fn test_text_only_with_tool_calls_no_llm_client_fail_open() {
    let config = DefaultGuardConfig {
        use_llm_judge: true,
        judge_fail_open: true,
        ..DefaultGuardConfig::default()
    };
    let guard = DefaultGuard::new(config);
    let ctx = make_ctx(0, 0, true, false, false, true);

    // No LLM client, judge_fail_open=true, should trust model (Complete)
    let decision = decided(&guard, &ctx);
    assert!(matches!(decision, GuardDecision::Complete));
}

#[test]
fn test_text_only_with_tool_calls_judge_disabled() {
    let config = DefaultGuardConfig {
        use_llm_judge: false,
        ..DefaultGuardConfig::default()
    };
    let guard = DefaultGuard::new(config);
    let ctx = make_ctx(0, 0, true, false, false, true);

    // LLM judge disabled, should Complete
    let decision = decided(&guard, &ctx);
    assert!(matches!(decision, GuardDecision::Complete));
}

#[test]
fn test_text_only_no_tools_judge_enabled_no_client() {
    let config = DefaultGuardConfig {
        use_llm_judge: true,
        ..DefaultGuardConfig::default()
    };
    let guard = DefaultGuard::new(config);
    let long_output = "x".repeat(300);
    let ctx = make_ctx_with_text("query", &long_output, false, true);

    let decision = decided(&guard, &ctx);
    assert!(
        matches!(decision, GuardDecision::Complete),
        "no tools + judge enabled + no client → Complete (skips judge), got: {:?}",
        decision
    );
}

#[test]
fn test_custom_config() {
    let config = DefaultGuardConfig {
        reasoning_only_max_strikes: 5,
        empty_response_max_strikes: 2,
        ..DefaultGuardConfig::default()
    };
    let guard = DefaultGuard::new(config);

    // reasoning-only: 4 < 5, should continue
    let ctx = make_ctx(4, 0, false, true, false, false);
    let decision = decided(&guard, &ctx);
    assert!(matches!(
        decision,
        GuardDecision::Continue { nudge: Some(_) }
    ));

    // empty response: 2 >= 2, should fail
    let ctx = make_ctx(0, 2, false, false, true, false);
    let decision = decided(&guard, &ctx);
    assert!(matches!(decision, GuardDecision::Fail { .. }));
}

#[test]
fn test_text_only_judge_says_done() {
    let reply = verdict(true, "task is complete");
    let guard = DefaultGuard::with_llm_client(DefaultGuardConfig::default());
    let ctx = make_ctx_with_text("what is 2+2?", "The answer is 4.", true, true);

    let decision = guard.on_turn_with_reply(&ctx, reply);
    assert!(
        matches!(decision, GuardDecision::Complete),
        "judge says done → Complete, got: {:?}",
        decision
    );
}

#[test]
fn test_text_only_judge_says_not_done() {
    let reply = verdict(false, "only answered part of the question");
    let guard = DefaultGuard::with_llm_client(DefaultGuardConfig::default());
    let ctx = make_ctx_with_text(
        "list all files and explain each",
        "Here are the files:",
        true,
        true,
    );

    let decision = guard.on_turn_with_reply(&ctx, reply);
    match &decision {
        GuardDecision::Continue { nudge } => {
            let msg = nudge.as_ref().unwrap();
            assert!(
                msg.contains("incomplete"),
                "nudge should mention incomplete: {}",
                msg
            );
            assert!(
                msg.contains("only answered part"),
                "nudge should include judge reason: {}",
                msg
            );
        }
        other => panic!("expected Continue, got: {:?}", other),
    }
}

#[test]
fn test_text_only_judge_reason_propagated_to_nudge() {
    let reply = verdict(false, "missing file list and explanation");
    let guard = DefaultGuard::with_llm_client(DefaultGuardConfig::default());
    let ctx = make_ctx_with_text("list files and explain", "here are the files:", true, true);

    let decision = guard.on_turn_with_reply(&ctx, reply);
    match &decision {
        GuardDecision::Continue { nudge } => {
            let msg = nudge.as_ref().unwrap();
            assert!(
                msg.contains("missing file list and explanation"),
                "nudge should include judge reason: {}",
                msg
            );
        }
        other => panic!("expected Continue, got: {:?}", other),
    }
}

#[test]
fn test_text_only_short_response_detected_no_tools() {
    let long_input = "a".repeat(200);
    let short_output = "done";
    let guard = DefaultGuard::new(DefaultGuardConfig::default());
    let ctx = make_ctx_with_text(&long_input, short_output, false, true);

    let decision = decided(&guard, &ctx);
    match &decision {
        GuardDecision::Continue { nudge } => {
            let msg = nudge.as_ref().unwrap();
            assert!(msg.contains("incomplete"), "short response nudge: {}", msg);
        }
        other => panic!("expected Continue for short response, got: {:?}", other),
    }
}

#[test]
fn test_text_only_short_response_with_judge_done() {
    let long_input = "a".repeat(200);
    let short_output = "42";
    let reply = verdict(true, "answer is correct");
    let guard = DefaultGuard::with_llm_client(DefaultGuardConfig::default());
    let ctx = make_ctx_with_text(&long_input, short_output, true, true);

    let decision = guard.on_turn_with_reply(&ctx, reply);
    assert!(
        matches!(decision, GuardDecision::Complete),
        "short response + judge done → Complete, got: {:?}",
        decision
    );
}

#[test]
fn test_text_only_skip_threshold() {
    let long_output = "x".repeat(300);
    let reply = verdict(false, "would be incomplete but skipped");
    let guard = DefaultGuard::with_llm_client(DefaultGuardConfig::default());
    let ctx = make_ctx_with_text("query", &long_output, true, true);

    let decision = guard.on_turn_with_reply(&ctx, reply);
    assert!(
        matches!(decision, GuardDecision::Complete),
        "response >= skip_threshold → Complete without calling judge, got: {:?}",
        decision
    );
}

#[test]
fn test_text_only_skip_judge_when_input_too_large() {
    let long_input = "a".repeat(10_001);
    let reply = verdict(false, "would be incomplete but skipped");
    let guard = DefaultGuard::with_llm_client(DefaultGuardConfig::default());
    let ctx = make_ctx_with_text(&long_input, "short answer", true, true);

    let decision = guard.on_turn_with_reply(&ctx, reply);
    assert!(
        matches!(decision, GuardDecision::Complete),
        "input > 10k → skip judge → Complete, got: {:?}",
        decision
    );
}

#[test]
fn test_text_only_judge_timeout_fail_open() {
    let reply = JudgeReply::TimedOut;
    let config = DefaultGuardConfig {
        judge_fail_open: true,
        judge_timeout_secs: 1,
        ..DefaultGuardConfig::default()
    };
    let guard = DefaultGuard::with_llm_client(config);
    let ctx = make_ctx_with_text("query", "short answer", true, true);

    let decision = guard.on_turn_with_reply(&ctx, reply);
    assert!(
        matches!(decision, GuardDecision::Complete),
        "timeout + fail_open → Complete (trust model), got: {:?}",
        decision
    );
}

#[test]
fn test_text_only_judge_timeout_fail_closed() {
    let reply = JudgeReply::TimedOut;
    let config = DefaultGuardConfig {
        judge_fail_open: false,
        judge_timeout_secs: 1,
        ..DefaultGuardConfig::default()
    };
    let guard = DefaultGuard::with_llm_client(config);
    let ctx = make_ctx_with_text("query", "short answer", true, true);

    let decision = guard.on_turn_with_reply(&ctx, reply);
    match &decision {
        GuardDecision::Continue { nudge } => {
            let msg = nudge.as_ref().unwrap();
            assert!(
                msg.contains("Cannot verify"),
                "fail_closed timeout → Continue with verify message: {}",
                msg
            );
        }
        other => panic!(
            "expected Continue for timeout + fail_closed, got: {:?}",
            other
        ),
    }
}

#[test]
fn test_text_only_judge_error_fail_closed() {
    let reply = JudgeReply::CallFailed("mock error".to_string());
    let config = DefaultGuardConfig {
        judge_fail_open: false,
        ..DefaultGuardConfig::default()
    };
    let guard = DefaultGuard::with_llm_client(config);
    let ctx = make_ctx_with_text("query", "short", true, true);

    let decision = guard.on_turn_with_reply(&ctx, reply);
    match &decision {
        GuardDecision::Continue { nudge } => {
            let msg = nudge.as_ref().unwrap();
            assert!(
                msg.contains("Cannot verify"),
                "fail_closed error → Continue with verify message: {}",
                msg
            );
        }
        other => panic!(
            "expected Continue for judge error + fail_closed, got: {:?}",
            other
        ),
    }
}

#[test]
fn test_text_only_judge_error_fail_open() {
    let reply = JudgeReply::CallFailed("mock error".to_string());
    let config = DefaultGuardConfig {
        judge_fail_open: true,
        ..DefaultGuardConfig::default()
    };
    let guard = DefaultGuard::with_llm_client(config);
    let ctx = make_ctx_with_text("query", "short", true, true);

    let decision = guard.on_turn_with_reply(&ctx, reply);
    assert!(
        matches!(decision, GuardDecision::Complete),
        "fail_open + judge error → Complete (trust model), got: {:?}",
        decision
    );
}

#[test]
fn test_text_only_short_response_judge_timeout_fail_closed() {
    let reply = JudgeReply::TimedOut;
    let config = DefaultGuardConfig {
        judge_fail_open: false,
        judge_timeout_secs: 1,
        ..DefaultGuardConfig::default()
    };
    let guard = DefaultGuard::with_llm_client(config);
    let long_input = "a".repeat(200);
    let ctx = make_ctx_with_text(&long_input, "42", true, true);

    let decision = guard.on_turn_with_reply(&ctx, reply);
    match &decision {
        GuardDecision::Continue { nudge } => {
            let msg = nudge.as_ref().unwrap();
            assert!(
                msg.contains("Cannot verify"),
                "short + timeout + fail_closed → Continue: {}",
                msg
            );
        }
        other => panic!(
            "expected Continue for short response + timeout + fail_closed, got: {:?}",
            other
        ),
    }
}

#[test]
fn test_text_only_short_response_judge_error_fail_closed() {
    let reply = JudgeReply::CallFailed("mock error".to_string());
    let config = DefaultGuardConfig {
        judge_fail_open: false,
        ..DefaultGuardConfig::default()
    };
    let guard = DefaultGuard::with_llm_client(config);
    let long_input = "a".repeat(200);
    let ctx = make_ctx_with_text(&long_input, "42", true, true);

    let decision = guard.on_turn_with_reply(&ctx, reply);
    match &decision {
        GuardDecision::Continue { nudge } => {
            let msg = nudge.as_ref().unwrap();
            assert!(
                msg.contains("Cannot verify"),
                "short + error + fail_closed → Continue: {}",
                msg
            );
        }
        other => panic!(
            "expected Continue for short response + judge error + fail_closed, got: {:?}",
            other
        ),
    }
}

#[test]
fn test_text_only_short_response_judge_error_fail_open() {
    let reply = JudgeReply::CallFailed("mock error".to_string());
    let config = DefaultGuardConfig {
        judge_fail_open: true,
        ..DefaultGuardConfig::default()
    };
    let guard = DefaultGuard::with_llm_client(config);
    let long_input = "a".repeat(200);
    let ctx = make_ctx_with_text(&long_input, "42", true, true);

    let decision = guard.on_turn_with_reply(&ctx, reply);
    assert!(
        matches!(decision, GuardDecision::Complete),
        "short + error + fail_open → Complete, got: {:?}",
        decision
    );
}

#[test]
fn test_text_only_judge_with_multiple_user_messages() {
    let reply = verdict(false, "agent has not finished the task yet");
    let guard = DefaultGuard::with_llm_client(DefaultGuardConfig::default());

    let mut ctx = make_ctx_with_text("继续", "I'll continue working on it.", true, true);
    ctx.all_user_inputs = vec![
        "帮我分析一下这个 bug 的根因".to_string(),
        "好的，那你帮我修复一下".to_string(),
        "继续".to_string(),
    ];

    let decision = guard.on_turn_with_reply(&ctx, reply);
    match &decision {
        GuardDecision::Continue { nudge } => {
            let msg = nudge.as_ref().unwrap();
            assert!(
                msg.contains("incomplete"),
                "judge should see history and say incomplete: {}",
                msg
            );
        }
        other => panic!("expected Continue (judge says not done), got: {:?}", other),
    }
}

#[test]
fn test_text_only_judge_respects_recent_user_count() {
    let reply = verdict(true, "task complete");
    let config = DefaultGuardConfig {
        recent_user_count: 2,
        ..DefaultGuardConfig::default()
    };
    let guard = DefaultGuard::with_llm_client(config);

    let mut ctx = make_ctx_with_text("继续", "done", true, true);
    ctx.all_user_inputs = vec![
        "msg1".to_string(),
        "msg2".to_string(),
        "msg3".to_string(),
        "msg4".to_string(),
        "继续".to_string(),
    ];

    let decision = guard.on_turn_with_reply(&ctx, reply);
    assert!(
        matches!(decision, GuardDecision::Complete),
        "judge says done → Complete, got: {:?}",
        decision
    );
}

#[test]
fn test_no_scene_flags_returns_complete() {
    let guard = DefaultGuard::new(DefaultGuardConfig::default());
    let ctx = make_ctx(0, 0, false, false, false, false);

    let decision = decided(&guard, &ctx);
    assert!(
        matches!(decision, GuardDecision::Complete),
        "no scene flags → Complete, got: {:?}",
        decision
    );
}

#[test]
fn test_reasoning_only_strikes_zero() {
    let guard = DefaultGuard::new(DefaultGuardConfig::default());
    let ctx = make_ctx(0, 0, false, true, false, false);

    let decision = decided(&guard, &ctx);
    match &decision {
        GuardDecision::Continue { nudge } => {
            let msg = nudge.as_ref().unwrap();
            assert!(
                msg.contains("reasoning") || msg.contains("tool call"),
                "nudge should mention the issue: {}",
                msg
            );
        }
        other => panic!("strikes=0 → Continue, got: {:?}", other),
    }
}

#[test]
fn test_empty_response_strikes_zero() {
    let guard = DefaultGuard::new(DefaultGuardConfig::default());
    let ctx = make_ctx(0, 0, false, false, true, false);

    let decision = decided(&guard, &ctx);
    match &decision {
        GuardDecision::Continue { nudge } => {
            let msg = nudge.as_ref().unwrap();
            assert!(
                msg.contains("empty") || msg.contains("response"),
                "nudge should mention empty response: {}",
                msg
            );
        }
        other => panic!("strikes=0 → Continue, got: {:?}", other),
    }
}

#[test]
fn test_reasoning_only_just_below_threshold() {
    let guard = DefaultGuard::new(DefaultGuardConfig::default());
    // default threshold = 3, so 2 should Continue
    let ctx = make_ctx(2, 0, false, true, false, false);

    let decision = decided(&guard, &ctx);
    assert!(
        matches!(decision, GuardDecision::Continue { nudge: Some(_) }),
        "strikes=2, threshold=3 → Continue, got: {:?}",
        decision
    );
}

#[test]
fn test_empty_response_just_below_threshold() {
    let guard = DefaultGuard::new(DefaultGuardConfig::default());
    let ctx = make_ctx(0, 2, false, false, true, false);

    let decision = decided(&guard, &ctx);
    assert!(
        matches!(decision, GuardDecision::Continue { nudge: Some(_) }),
        "strikes=2, threshold=3 → Continue, got: {:?}",
        decision
    );
}

#[test]
fn test_reasoning_only_nudge_content() {
    let guard = DefaultGuard::new(DefaultGuardConfig::default());
    let ctx = make_ctx(1, 0, false, true, false, false);

    let decision = decided(&guard, &ctx);
    match &decision {
        GuardDecision::Continue { nudge } => {
            let msg = nudge.as_ref().unwrap();
            assert_eq!(msg, &DefaultGuardConfig::default().reasoning_only_nudge);
        }
        other => panic!("expected Continue, got: {:?}", other),
    }
}

#[test]
fn test_empty_response_nudge_content() {
    let guard = DefaultGuard::new(DefaultGuardConfig::default());
    let ctx = make_ctx(0, 1, false, false, true, false);

    let decision = decided(&guard, &ctx);
    match &decision {
        GuardDecision::Continue { nudge } => {
            let msg = nudge.as_ref().unwrap();
            assert_eq!(msg, &DefaultGuardConfig::default().empty_response_nudge);
        }
        other => panic!("expected Continue, got: {:?}", other),
    }
}

#[test]
fn test_short_response_nudge_content() {
    let long_input = "a".repeat(200);
    let short_output = "ok";
    let config = DefaultGuardConfig {
        use_llm_judge: false, // disable judge to get nudge path
        ..DefaultGuardConfig::default()
    };
    let guard = DefaultGuard::new(config);
    let ctx = make_ctx_with_text(&long_input, short_output, false, true);

    let decision = decided(&guard, &ctx);
    match &decision {
        GuardDecision::Continue { nudge } => {
            let msg = nudge.as_ref().unwrap();
            assert_eq!(msg, &DefaultGuardConfig::default().short_response_nudge);
        }
        other => panic!("expected Continue for short response, got: {:?}", other),
    }
}

#[test]
fn test_fail_error_message_reasoning_only() {
    let guard = DefaultGuard::new(DefaultGuardConfig::default());
    let ctx = make_ctx(3, 0, false, true, false, false);

    let decision = decided(&guard, &ctx);
    match &decision {
        GuardDecision::Fail { error } => {
            assert!(
                error.contains("reasoning"),
                "fail error should mention reasoning: {}",
                error
            );
        }
        other => panic!("expected Fail, got: {:?}", other),
    }
}

#[test]
fn test_fail_error_message_empty_response() {
    let guard = DefaultGuard::new(DefaultGuardConfig::default());
    let ctx = make_ctx(0, 3, false, false, true, false);

    let decision = decided(&guard, &ctx);
    match &decision {
        GuardDecision::Fail { error } => {
            assert!(
                error.contains("empty"),
                "fail error should mention empty: {}",
                error
            );
        }
        other => panic!("expected Fail, got: {:?}", other),
    }
}

#[test]
fn test_default_guard_config_values() {
    let config = DefaultGuardConfig::default();
    assert_eq!(config.reasoning_only_max_strikes, 3);
    assert_eq!(config.empty_response_max_strikes, 3);
    assert!(config.use_llm_judge);
    assert_eq!(config.judge_timeout_secs, 10);
    assert_eq!(config.judge_skip_threshold, 256);
    assert!(!config.judge_fail_open);
    assert!(config.detect_short_response);
    assert_eq!(config.short_response_min_input, 128);
    assert_eq!(config.short_response_max_output, 64);
    assert_eq!(config.recent_user_count, 5);
}

#[test]
fn test_text_only_with_tools_judge_disabled_returns_complete() {
    let config = DefaultGuardConfig {
        use_llm_judge: false,
        ..DefaultGuardConfig::default()
    };
    let guard = DefaultGuard::new(config);
    let ctx = make_ctx(0, 0, true, false, false, true);

    let decision = decided(&guard, &ctx);
    assert!(
        matches!(decision, GuardDecision::Complete),
        "tools + judge disabled → Complete, got: {:?}",
        decision
    );
}

#[test]
fn test_text_only_short_response_without_tools_nudge() {
    let long_input = "a".repeat(200);
    let short_output = "done";
    let guard = DefaultGuard::new(DefaultGuardConfig::default());
    let ctx = make_ctx_with_text(&long_input, short_output, false, true);

    let decision = decided(&guard, &ctx);
    match &decision {
        GuardDecision::Continue { nudge } => {
            let msg = nudge.as_ref().unwrap();
            // Without tools, uses short_response_nudge
            assert!(
                msg.contains("incomplete"),
                "should use short_response_nudge: {}",
                msg
            );
        }
        other => panic!(
            "expected Continue for short response without tools, got: {:?}",
            other
        ),
    }
}

#[test]
fn test_text_only_input_shorter_than_output_not_short() {
    let short_input = "hi";
    let long_output = "a".repeat(200);
    let guard = DefaultGuard::new(DefaultGuardConfig::default());
    let ctx = make_ctx_with_text(short_input, &long_output, false, true);

    let decision = decided(&guard, &ctx);
    // input_len (2) < output_len (200), and input_len (2) < min_input (128)
    // → not short response → no tools → Complete
    assert!(
        matches!(decision, GuardDecision::Complete),
        "short input + long output + no tools → Complete, got: {:?}",
        decision
    );
}

#[test]
fn test_text_only_short_response_exact_min_input() {
    // Exactly at min_input (128) — uses strict `>`, so 128 > 128 is false → NOT short
    let input = "a".repeat(128);
    let output = "x"; // < max_output (64), and input_len > output_len
    let guard = DefaultGuard::new(DefaultGuardConfig::default());
    let ctx = make_ctx_with_text(&input, output, false, true);

    let decision = decided(&guard, &ctx);
    // input_len=128 is NOT > min_input=128 (strict), so NOT short response
    // no tools → Complete
    assert!(
        matches!(decision, GuardDecision::Complete),
        "exact min_input (128 > 128 is false) → not short → Complete, got: {:?}",
        decision
    );
}

#[test]
fn test_text_only_short_response_just_above_min_input() {
    // One char above min_input — should trigger short response
    let input = "a".repeat(129);
    let output = "x";
    let guard = DefaultGuard::new(DefaultGuardConfig::default());
    let ctx = make_ctx_with_text(&input, output, false, true);

    let decision = decided(&guard, &ctx);
    // input_len=129 > min_input=128, output=1 < max_output=64, 129 > 1
    // → short response → no tools → nudge
    match &decision {
        GuardDecision::Continue { nudge } => {
            assert!(nudge.is_some(), "just above min_input → short → nudge");
        }
        other => panic!(
            "expected Continue for just above boundary, got: {:?}",
            other
        ),
    }
}

#[test]
fn test_text_only_not_short_response_just_below_min_input() {
    // One char below min_input — should NOT trigger short response
    let input = "a".repeat(127);
    let output = "x";
    let guard = DefaultGuard::new(DefaultGuardConfig::default());
    let ctx = make_ctx_with_text(&input, output, false, true);

    let decision = decided(&guard, &ctx);
    // input_len=127 < min_input=128 → not short response → no tools → Complete
    assert!(
        matches!(decision, GuardDecision::Complete),
        "below min_input → not short → Complete, got: {:?}",
        decision
    );
}

#[test]
fn test_text_only_short_response_output_at_max() {
    let input = "a".repeat(200);
    let output = "a".repeat(64); // exactly at max_output
    let guard = DefaultGuard::new(DefaultGuardConfig::default());
    let ctx = make_ctx_with_text(&input, &output, false, true);

    let decision = decided(&guard, &ctx);
    // output_len=64 is NOT < max_output=64, so NOT short response
    // no tools → Complete
    assert!(
        matches!(decision, GuardDecision::Complete),
        "output at max_output → not short → Complete, got: {:?}",
        decision
    );
}

#[test]
fn test_custom_nudge_messages() {
    let config = DefaultGuardConfig {
        reasoning_only_nudge: "custom reasoning nudge".to_string(),
        empty_response_nudge: "custom empty nudge".to_string(),
        ..DefaultGuardConfig::default()
    };
    let guard = DefaultGuard::new(config);

    // reasoning_only
    let ctx = make_ctx(1, 0, false, true, false, false);
    let decision = decided(&guard, &ctx);
    match &decision {
        GuardDecision::Continue { nudge } => {
            assert_eq!(nudge.as_deref(), Some("custom reasoning nudge"));
        }
        other => panic!("expected Continue, got: {:?}", other),
    }

    // empty_response
    let ctx = make_ctx(0, 1, false, false, true, false);
    let decision = decided(&guard, &ctx);
    match &decision {
        GuardDecision::Continue { nudge } => {
            assert_eq!(nudge.as_deref(), Some("custom empty nudge"));
        }
        other => panic!("expected Continue, got: {:?}", other),
    }
}

#[test]
fn test_guard_decision_continue_with_nudge() {
    let d = GuardDecision::Continue {
        nudge: Some("test nudge".to_string()),
    };
    match &d {
        GuardDecision::Continue { nudge } => {
            assert_eq!(nudge.as_deref(), Some("test nudge"));
        }
        _ => panic!("expected Continue"),
    }
}

#[test]
fn test_guard_decision_continue_without_nudge() {
    let d = GuardDecision::Continue { nudge: None };
    match &d {
        GuardDecision::Continue { nudge } => {
            assert!(nudge.is_none());
        }
        _ => panic!("expected Continue"),
    }
}

#[test]
fn test_guard_decision_complete() {
    let d = GuardDecision::Complete;
    assert!(matches!(d, GuardDecision::Complete));
}

#[test]
fn test_guard_decision_fail() {
    let d = GuardDecision::Fail {
        error: "something went wrong".to_string(),
    };
    match &d {
        GuardDecision::Fail { error } => {
            assert_eq!(error, "something went wrong");
        }
        _ => panic!("expected Fail"),
    }
}

#[test]
fn test_reasoning_only_takes_priority_over_empty() {
    let guard = DefaultGuard::new(DefaultGuardConfig::default());
    // Both reasoning_only and empty_response flags set
    let ctx = make_ctx(1, 1, false, true, true, false);

    let decision = decided(&guard, &ctx);
    // on_turn checks is_reasoning_only first → should handle as reasoning_only
    match &decision {
        GuardDecision::Continue { nudge } => {
            let msg = nudge.as_ref().unwrap();
            assert_eq!(msg, &DefaultGuardConfig::default().reasoning_only_nudge);
        }
        other => panic!(
            "reasoning_only takes priority, expected Continue, got: {:?}",
            other
        ),
    }
}

#[test]
fn test_reasoning_only_takes_priority_over_text_only() {
    let guard = DefaultGuard::new(DefaultGuardConfig::default());
    let ctx = make_ctx(1, 0, false, true, false, true);

    let decision = decided(&guard, &ctx);
    match &decision {
        GuardDecision::Continue { nudge } => {
            let msg = nudge.as_ref().unwrap();
            assert_eq!(msg, &DefaultGuardConfig::default().reasoning_only_nudge);
        }
        other => panic!(
            "reasoning_only takes priority, expected Continue, got: {:?}",
            other
        ),
    }
}

#[test]
fn test_text_only_non_short_with_tools_judge_not_done() {
    // Response that's not short (> max_output=64) but < skip_threshold=256
    let medium_output = "a".repeat(100);
    let reply = verdict(false, "missing details");
    let guard = DefaultGuard::with_llm_client(DefaultGuardConfig::default());
    let ctx = make_ctx_with_text("query", &medium_output, true, true);

    let decision = guard.on_turn_with_reply(&ctx, reply);
    match &decision {
        GuardDecision::Continue { nudge } => {
            let msg = nudge.as_ref().unwrap();
            assert!(
                msg.contains("incomplete") && msg.contains("missing details"),
                "non-short + judge not done → Continue with reason: {}",
                msg
            );
        }
        other => panic!("expected Continue, got: {:?}", other),
    }
}

#[test]
fn test_text_only_non_short_with_tools_judge_done() {
    let medium_output = "a".repeat(100);
    let reply = verdict(true, "task complete");
    let guard = DefaultGuard::with_llm_client(DefaultGuardConfig::default());
    let ctx = make_ctx_with_text("query", &medium_output, true, true);

    let decision = guard.on_turn_with_reply(&ctx, reply);
    assert!(
        matches!(decision, GuardDecision::Complete),
        "non-short + judge done → Complete, got: {:?}",
        decision
    );
}

#[test]
fn test_short_response_skip_judge_when_input_too_large() {
    let long_input = "a".repeat(10_001);
    let short_output = "42";
    let reply = verdict(false, "would be skipped");
    let guard = DefaultGuard::with_llm_client(DefaultGuardConfig::default());
    let ctx = make_ctx_with_text(&long_input, short_output, true, true);

    let decision = guard.on_turn_with_reply(&ctx, reply);
    assert!(
        matches!(decision, GuardDecision::Complete),
        "short response + input > 10k → skip judge → Complete, got: {:?}",
        decision
    );
}

#[test]
fn test_disable_thinking_strategy_below_threshold() {
    let config = DefaultGuardConfig {
        reasoning_only_action: ReasoningOnlyAction::DisableThinking,
        reasoning_only_max_strikes: 3,
        ..DefaultGuardConfig::default()
    };
    let guard = DefaultGuard::new(config);

    // Below threshold → Continue with nudge
    let ctx = make_ctx(2, 0, false, true, false, false);
    let decision = decided(&guard, &ctx);
    assert!(
        matches!(decision, GuardDecision::Continue { .. }),
        "below threshold → Continue, got: {:?}",
        decision
    );
}

#[test]
fn test_disable_thinking_strategy_at_threshold() {
    let config = DefaultGuardConfig {
        reasoning_only_action: ReasoningOnlyAction::DisableThinking,
        reasoning_only_max_strikes: 3,
        ..DefaultGuardConfig::default()
    };
    let guard = DefaultGuard::new(config);

    // At threshold → DisableThinking
    let ctx = make_ctx(3, 0, false, true, false, false);
    let decision = decided(&guard, &ctx);
    assert!(
        matches!(decision, GuardDecision::DisableThinking { .. }),
        "at threshold → DisableThinking, got: {:?}",
        decision
    );
}

#[test]
fn test_disable_thinking_strategy_already_disabled() {
    let config = DefaultGuardConfig {
        reasoning_only_action: ReasoningOnlyAction::DisableThinking,
        reasoning_only_max_strikes: 3,
        ..DefaultGuardConfig::default()
    };
    let guard = DefaultGuard::new(config);

    // Thinking already disabled but still reasoning-only → Fail
    let mut ctx = make_ctx(3, 0, false, true, false, false);
    ctx.thinking_disabled = true;
    let decision = decided(&guard, &ctx);
    assert!(
        matches!(decision, GuardDecision::Fail { .. }),
        "thinking disabled + reasoning-only → Fail, got: {:?}",
        decision
    );
}

#[test]
fn test_on_tool_call_restores_thinking() {
    let config = DefaultGuardConfig {
        reasoning_only_action: ReasoningOnlyAction::DisableThinking,
        ..DefaultGuardConfig::default()
    };
    let guard = DefaultGuard::new(config);

    // Thinking disabled + original enabled + tool call → RestoreThinking
    let mut ctx = make_ctx(0, 0, true, false, false, false);
    ctx.thinking_disabled = true;
    ctx.original_thinking_enabled = true;
    let decision = guard.on_tool_call(&ctx);
    assert!(
        matches!(decision, GuardDecision::RestoreThinking),
        "thinking disabled + tool call → RestoreThinking, got: {:?}",
        decision
    );
}

#[test]
fn test_on_tool_call_no_restore_when_original_disabled() {
    let config = DefaultGuardConfig {
        reasoning_only_action: ReasoningOnlyAction::DisableThinking,
        ..DefaultGuardConfig::default()
    };
    let guard = DefaultGuard::new(config);

    // Thinking disabled + original disabled + tool call → Complete
    let mut ctx = make_ctx(0, 0, true, false, false, false);
    ctx.thinking_disabled = true;
    ctx.original_thinking_enabled = false;
    let decision = guard.on_tool_call(&ctx);
    assert!(
        matches!(decision, GuardDecision::Complete),
        "original disabled + tool call → Complete, got: {:?}",
        decision
    );
}

#[test]
fn test_on_tool_call_no_restore_when_thinking_enabled() {
    let config = DefaultGuardConfig {
        reasoning_only_action: ReasoningOnlyAction::DisableThinking,
        ..DefaultGuardConfig::default()
    };
    let guard = DefaultGuard::new(config);

    // Thinking enabled + tool call → Complete
    let mut ctx = make_ctx(0, 0, true, false, false, false);
    ctx.thinking_disabled = false;
    ctx.original_thinking_enabled = true;
    let decision = guard.on_tool_call(&ctx);
    assert!(
        matches!(decision, GuardDecision::Complete),
        "thinking enabled + tool call → Complete, got: {:?}",
        decision
    );
}

#[test]
fn test_fail_strategy_at_threshold() {
    let config = DefaultGuardConfig {
        reasoning_only_action: ReasoningOnlyAction::Fail,
        reasoning_only_max_strikes: 3,
        ..DefaultGuardConfig::default()
    };
    let guard = DefaultGuard::new(config);

    // At threshold → Fail
    let ctx = make_ctx(3, 0, false, true, false, false);
    let decision = decided(&guard, &ctx);
    assert!(
        matches!(decision, GuardDecision::Fail { .. }),
        "at threshold → Fail, got: {:?}",
        decision
    );
}

#[test]
fn test_empty_response_with_disable_thinking_strategy() {
    let config = DefaultGuardConfig {
        reasoning_only_action: ReasoningOnlyAction::DisableThinking,
        empty_response_max_strikes: 3,
        ..DefaultGuardConfig::default()
    };
    let guard = DefaultGuard::new(config);

    // Empty response at threshold → Fail (even with DisableThinking strategy)
    let ctx = make_ctx(0, 3, false, false, true, false);
    let decision = decided(&guard, &ctx);
    assert!(
        matches!(decision, GuardDecision::Fail { .. }),
        "empty response at threshold → Fail, got: {:?}",
        decision
    );
}

// ── Judge failures ──

#[test]
fn test_judge_malformed_json_fail_closed() {
    let guard = DefaultGuard::with_llm_client(DefaultGuardConfig::default());
    let ctx = make_ctx_with_text("query", "short", true, true);
    let reply = JudgeReply::ParseFailed("expected value at line 1 column 1".to_string());
    match guard.on_turn_with_reply(&ctx, reply) {
        GuardDecision::Continue { nudge } => {
            assert!(nudge.unwrap().contains("Cannot verify"));
        }
        other => panic!("expected Continue, got: {:?}", other),
    }
}

#[test]
fn test_judge_malformed_json_fail_open() {
    let config = DefaultGuardConfig { judge_fail_open: true, ..DefaultGuardConfig::default() };
    let guard = DefaultGuard::with_llm_client(config);
    let ctx = make_ctx_with_text("query", "short", true, true);
    let reply = JudgeReply::ParseFailed("expected value at line 1 column 1".to_string());
    assert!(matches!(guard.on_turn_with_reply(&ctx, reply), GuardDecision::Complete));
}

// ── The judge itself ──

fn ask(has_client: bool, fail_open: bool, inputs: &[&str], recent: usize) -> JudgeStep {
    let all: Vec<String> = inputs.iter().map(|s| s.to_string()).collect();
    call_completion_judge(has_client, "input", "response", &all, fail_open, 10, recent)
}

#[test]
fn test_judge_no_client_fail_open() {
    match ask(false, true, &["input"], 5) {
        JudgeStep::Settled(Ok(j)) => {
            assert!(j.done);
            assert_eq!(j.reason, "no LLM client available for judge");
        }
        _ => panic!("expected a settled answer"),
    }
}

#[test]
fn test_judge_no_client_fail_closed() {
    match ask(false, false, &["input"], 5) {
        JudgeStep::Settled(Err(e)) => assert_eq!(e, "no LLM client available for judge"),
        _ => panic!("expected an error"),
    }
}

#[test]
fn test_judge_with_valid_response() {
    let j = settle_judge(verdict(true, "all tasks complete"), false, 10).unwrap();
    assert!(j.done);
    assert_eq!(j.reason, "all tasks complete");
}

#[test]
fn test_judge_empty_user_inputs() {
    assert_eq!(build_user_context("single input", &vec![], 5), "single input");
    assert!(!settle_judge(verdict(false, "not enough context"), false, 10).unwrap().done);
}

#[test]
fn test_judge_single_user_input() {
    match ask(true, false, &["only message"], 5) {
        JudgeStep::Ask(q) => {
            assert_eq!(q.user_prompt, "【User Messages】\ninput\n\n【Agent Response】\nresponse");
            assert!(q.system_prompt.contains("task completion judge"));
            assert!(q.json_object);
            assert_eq!(q.timeout_secs, 10);
        }
        _ => panic!("expected a question"),
    }
}

#[test]
fn test_judge_recent_user_count_truncation() {
    match ask(true, false, &["msg1", "msg2", "msg3", "msg4", "msg5"], 2) {
        JudgeStep::Ask(q) => assert_eq!(
            q.user_prompt,
            "【User Messages】\n4. msg4\n5. msg5\n\n【Agent Response】\nresponse"
        ),
        _ => panic!("expected a question"),
    }
}

#[test]
fn test_judge_timeout_fail_open() {
    let j = settle_judge(JudgeReply::TimedOut, true, 1).unwrap();
    assert!(j.done);
    assert_eq!(j.reason, "judge failed (judge timeout after 1s), trusting model");
}

#[test]
fn test_judge_timeout_fail_closed() {
    assert_eq!(settle_judge(JudgeReply::TimedOut, false, 1).unwrap_err(), "judge timeout after 1s");
}

#[test]
fn test_judge_error_fail_open() {
    let j = settle_judge(JudgeReply::CallFailed("down".to_string()), true, 10).unwrap();
    assert!(j.done);
    assert!(j.reason.contains("trusting model"));
}

#[test]
fn test_judge_error_fail_closed() {
    let e = settle_judge(JudgeReply::CallFailed("down".to_string()), false, 10).unwrap_err();
    assert_eq!(e, "LLM judge call failed: down");
    let e = settle_judge(JudgeReply::ParseFailed("bad".to_string()), false, 10).unwrap_err();
    assert_eq!(e, "Failed to parse judge response: bad");
}

#[test]
fn rejected_tool_calls_are_reissued() {
    let guard = DefaultGuard::with_llm_client(DefaultGuardConfig::default());
    let mut ctx = make_ctx_with_text("query", "all done!", true, true);
    ctx.last_tool_calls_invalid = true;
    match guard.on_turn_with_reply(&ctx, verdict(true, "fine")) {
        GuardDecision::Continue { nudge } => assert!(nudge.unwrap().contains("NOT executed")),
        other => panic!("expected Continue, got: {:?}", other),
    }
}

#[test]
fn disabled_thinking_still_reasoning_fails_with_its_own_error() {
    let config = DefaultGuardConfig {
        reasoning_only_action: ReasoningOnlyAction::DisableThinking,
        ..DefaultGuardConfig::default()
    };
    let guard = DefaultGuard::new(config);
    let mut ctx = make_ctx(3, 0, false, true, false, false);
    ctx.thinking_disabled = true;
    match decided(&guard, &ctx) {
        GuardDecision::Fail { error } => {
            assert_eq!(error, "model produced only reasoning even after thinking was disabled");
        }
        other => panic!("expected Fail, got: {:?}", other),
    }
}
