use agent_works::cli::printer::CliEventPrinter;
use agent_works::cli::repl::{CliRepl, ReplAction};
use agent_works::events::{PlanItem, PlanStepStatus, RuntimeEvent};

fn text(s: &str) -> RuntimeEvent {
    RuntimeEvent::TextDelta { text: s.to_string() }
}

#[test]
fn test_text_delta() {
    let mut cep = CliEventPrinter::with_writer(String::new());
    cep.handle(&text("hello"), None);
    cep.handle(&text(" world"), None);
    assert_eq!(cep.write, "Assistant > hello world");
}

#[test]
fn test_thought_delta() {
    let mut cep = CliEventPrinter::with_writer(String::new());
    cep.handle(&RuntimeEvent::ThoughtDelta { text: "thought delta".to_string() }, None);
    assert_eq!(cep.write, "\x1b[90mthought delta\x1b[0m");
}

#[test]
fn test_tool_call_started() {
    let mut cep = CliEventPrinter::with_writer(String::new());
    let event = RuntimeEvent::ToolCallStarted {
        tool_name: "tool_started".to_string(),
        args_json: "tool_args".to_string(),
    };
    cep.handle(&event, None);
    assert_eq!(cep.write, "[Tool Start] tool_started tool_args\n");
}

#[test]
fn test_tool_call_finished() {
    let mut cep = CliEventPrinter::with_writer(String::new());
    let event = RuntimeEvent::ToolCallFinished {
        tool_name: "tool_name".to_string(),
        summary: "tool call finished\nthis is a test\n".to_string(),
    };
    cep.handle(&event, None);
    let output = cep.write;
    assert!(
        output.starts_with("[Tool Done] tool_name")
            && output.lines().any(|line| line == "  tool call finished")
            && output.lines().any(|line| line == "  this is a test")
    );
}

#[test]
fn test_plan_updated() {
    let mut cep = CliEventPrinter::with_writer(String::new());
    let item = |step: &str, status| PlanItem { step: step.to_string(), status };
    let event = RuntimeEvent::PlanUpdated {
        objective: "object".to_string(),
        plan: vec![
            item("step_a", PlanStepStatus::Completed),
            item("step_b", PlanStepStatus::InProgress),
            item("step_c", PlanStepStatus::Pending),
        ],
    };
    cep.handle(&event, None);
    let output = cep.write;
    assert!(
        output.starts_with("[Plan] object")
            && output.lines().any(|line| line == "  ✅ 1. step_a")
            && output.lines().any(|line| line == "  🔄 2. step_b")
            && output.lines().any(|line| line == "  ⏳ 3. step_c")
    );
}

#[test]
fn test_finish() {
    let mut cep = CliEventPrinter::with_writer(String::new());
    cep.assistant_prefix_printed = true;
    cep.finish();
    assert!(!cep.assistant_prefix_printed);
    assert_eq!(cep.write, "\n");
    cep.finish();
    assert_eq!(cep.write, "\n");
}

#[test]
fn test_custom_handlers() {
    let mut cep = CliEventPrinter::with_writer(String::new());
    let handler = |event: &RuntimeEvent| match event {
        RuntimeEvent::TextDelta { text } => Some(format!("Custom handler {}", text)),
        _ => None,
    };
    let event = text("mock string");
    cep.handle(&event, handler(&event));
    assert_eq!(cep.write, "Custom handler mock string");
}

#[test]
fn test_new_and_default() {
    let default = CliEventPrinter::default();
    assert!(!default.assistant_prefix_printed);
    assert!(default.write.is_empty());

    let new = CliEventPrinter::new();
    assert!(!new.assistant_prefix_printed);
}

#[test]
fn test_custom_handler_none_falls_through() {
    let mut cep = CliEventPrinter::with_writer(String::new());
    cep.handle(&text("falls through"), None);
    assert_eq!(cep.write, "Assistant > falls through");
}

#[test]
fn test_awaiting_approval_and_run_finished() {
    let mut cep = CliEventPrinter::with_writer(String::new());
    cep.assistant_prefix_printed = true;
    cep.handle(&RuntimeEvent::AwaitingApproval, None);
    assert!(!cep.assistant_prefix_printed);

    // RunFinished with no prefix printed is a no-op.
    cep.handle(&RuntimeEvent::RunFinished, None);
    assert_eq!(cep.write, "\n");
}

#[test]
fn open_lines_are_closed_first() {
    let mut cep = CliEventPrinter::new();
    cep.handle(&text("hi"), None);
    cep.handle(&RuntimeEvent::Checkpoint, None);
    cep.handle(
        &RuntimeEvent::ToolCallStarted { tool_name: "t".to_string(), args_json: "{}".to_string() },
        None,
    );
    cep.handle(&text("again"), None);
    cep.handle(&RuntimeEvent::RunFinished, Some("custom".to_string()));
    assert_eq!(
        cep.write,
        "Assistant > hi\n[Tool Start] t {}\nAssistant > again\ncustom"
    );
}

// ── REPL ──

fn repl() -> CliRepl {
    let mut r = CliRepl::new();
    r.register_shell_command("ls");
    r.register_shell_command("ls");
    r.register_shell_command("exit");
    r
}

#[test]
fn lines_are_told_apart() {
    let r = repl();
    assert_eq!(r.shell_commands, vec!["ls".to_string(), "exit".to_string()]);
    assert!(matches!(r.interpret("  \n"), ReplAction::Skip));
    assert!(matches!(r.interpret(".exit\n"), ReplAction::Exit));
    assert!(matches!(r.interpret(" .quit "), ReplAction::Exit));
    assert!(matches!(r.interpret(".reset"), ReplAction::Reset));
    assert!(matches!(r.interpret(".help"), ReplAction::Help));
    match r.interpret(" check disk .exit \n") {
        ReplAction::Turn(s) => assert_eq!(s, "check disk .exit"),
        _ => panic!("expected a turn"),
    }
    match r.interpret(".ls -l /tmp") {
        ReplAction::Custom { prefix, command } => {
            assert_eq!((prefix.as_str(), command.as_str()), ("ls", "ls -l /tmp"));
        }
        _ => panic!("expected a custom command"),
    }
    match r.interpret(".lsof") {
        ReplAction::Print(s) => assert_eq!(s, ">>> Unknown command: .lsof"),
        _ => panic!("expected a message"),
    }
    match r.interpret(".exit now") {
        ReplAction::Custom { prefix, .. } => assert_eq!(prefix, "exit"),
        _ => panic!("expected a custom command"),
    }
}

#[test]
fn custom_commands_can_be_declined() {
    let r = repl();
    assert!(matches!(r.after_custom("ls", true), ReplAction::Skip));
    match r.after_custom("ls x", false) {
        ReplAction::Print(s) => assert_eq!(s, ">>> Unknown command: .ls x"),
        _ => panic!("expected a message"),
    }
}

#[test]
fn sessions_are_kept() {
    let mut r = CliRepl::new();
    assert!(r.session_id.is_none());
    r.use_session(4);
    assert_eq!(r.session_id, Some(4));
}
