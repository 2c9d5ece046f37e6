use std::time::Duration;

use agent_works::focus::call::{Context, Focus, FocusError, FocusInput, FocusOutput, FocusReply};
use agent_works::focus::progress::{
    report_excerpt, ProgressSummarizer, ProgressSummary, MAX_REPORT_CHARS,
};

#[test]
fn context_single_field() {
    let ctx = Context::new().add("command", "df -h");
    assert_eq!(ctx.to_prompt(), "【command】\ndf -h");
}

#[test]
fn context_multiple_fields() {
    let ctx = Context::new()
        .add("command", "apt install nginx")
        .add("elapsed", "30s")
        .add("screen", "Reading package lists...");
    let expected = "【command】\napt install nginx\n\n【elapsed】\n30s\n\n【screen】\nReading package lists...";
    assert_eq!(ctx.to_prompt(), expected);
}

#[test]
fn context_empty() {
    let ctx = Context::new();
    assert_eq!(ctx.to_prompt(), "");
    assert_eq!(Context::default().to_prompt(), "");
}

#[test]
fn str_input() {
    let input: &str = "hello";
    assert_eq!(input.to_prompt(), "hello");
}

#[test]
fn string_input() {
    let input = String::from("hello");
    assert_eq!(input.to_prompt(), "hello");
}

#[test]
fn focus_error_display() {
    let err = FocusError::Timeout(Duration::from_secs(5));
    assert_eq!(err.to_text(), "Focus timeout after 5s");

    let err = FocusError::Llm("network error".to_string());
    assert_eq!(err.to_text(), "Focus LLM error: network error");

    let err = FocusError::Parse {
        error: "unexpected token".to_string(),
        raw: "not json".to_string(),
    };
    assert_eq!(err.to_text(), "Focus parse error: unexpected token");
}

#[test]
fn ask_binds_the_system_prompt() {
    let focus = Focus::new("You are a classifier.".to_string());
    let q = focus.ask(&"classify this");
    assert_eq!(q.system_prompt, "You are a classifier.");
    assert_eq!(q.user_prompt, "classify this");
    assert!(q.json_object);
}

#[test]
fn focus_ask_times_out() {
    let focus = Focus::new("system".to_string());
    assert_eq!(focus.ask(&"input").user_prompt, "input");
    let reply: FocusReply<u32> = FocusReply::TimedOut;
    let result = focus.settle(reply, Duration::from_millis(1));
    assert!(matches!(result, Err(FocusError::Timeout(d)) if d == Duration::from_millis(1)));
}

#[test]
fn answers_are_settled() {
    let focus = Focus::new("system".to_string());
    let limit = Duration::from_millis(1500);
    let reply = FocusReply::Answered { raw: "{}".to_string(), parsed: Ok(7u32) };
    let out = focus.settle(reply, limit).unwrap();
    assert_eq!(out.result, 7);
    assert_eq!(out.raw_response, "{}");

    let reply: FocusReply<u32> =
        FocusReply::Answered { raw: "nope".to_string(), parsed: Err("bad".to_string()) };
    match focus.settle(reply, limit) {
        Err(FocusError::Parse { error, raw }) => {
            assert_eq!(error, "bad");
            assert_eq!(raw, "nope");
        }
        _ => panic!("expected a parse error"),
    }
    let reply: FocusReply<u32> = FocusReply::Failed("api key invalid".to_string());
    assert!(matches!(focus.settle(reply, limit), Err(FocusError::Llm(_))));
    let reply: FocusReply<u32> = FocusReply::TimedOut;
    assert_eq!(focus.settle(reply, limit).unwrap_err().to_text(), "Focus timeout after 1.5s");
}

fn summary(text: &str) -> FocusOutput<ProgressSummary> {
    FocusOutput {
        result: ProgressSummary { summary: text.to_string() },
        raw_response: String::new(),
    }
}

#[test]
fn summarize_returns_sentence_on_success() {
    let s = ProgressSummarizer::new();
    assert_eq!(
        s.conclude(Ok(summary(" 已完成 4 个模块的依赖分析\n"))).as_deref(),
        Some("已完成 4 个模块的依赖分析")
    );
}

#[test]
fn summarize_feed_includes_task_and_report() {
    let s = ProgressSummarizer::new();
    let q = s.summarize("analyze-pi", "ok", Some("分析 pi 工程"), Some("结论是模块 A 最重"));
    assert_eq!(
        q.user_prompt,
        "【sub-agent】\nanalyze-pi\n\n【task】\n分析 pi 工程\n\n【status】\nok\n\n【result】\n结论是模块 A 最重"
    );
    assert!(q.system_prompt.starts_with("You are the progress announcer"));
    let q = s.summarize("a", "error", None, None);
    assert!(q.user_prompt.contains("(task unknown)"));
    assert!(q.user_prompt.contains("(no report text)"));
}

#[test]
fn summarize_report_keeps_tail_when_truncated() {
    let long_report = format!("{}结论在这里", "x".repeat(2000));
    let cut = report_excerpt(&long_report);
    assert!(cut.ends_with("结论在这里"), "tail must be kept");
    assert!(cut.starts_with("…(前文截断)x"));
    assert_eq!(cut.chars().count(), MAX_REPORT_CHARS + 7);
}

#[test]
fn summarize_failures_degrade_to_none() {
    let s = ProgressSummarizer::new();
    assert!(s.conclude(Err(FocusError::Llm("api down".to_string()))).is_none());
    assert!(s.conclude(Ok(summary("   "))).is_none());
}
