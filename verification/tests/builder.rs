use agent_works::builder::{
    build_memory_system_prompt, build_multi_agent_system_prompt, setup_multi_agent, AgentBuilder,
    SkillInfo,
};
use agent_works::error::AgentError;
use agent_works::events::RuntimeEvent;
use agent_works::handle::{sent, AgentCommand, AgentHandle, SendError, Worker};

// ── build_multi_agent_system_prompt ──

#[test]
fn test_system_prompt_contains_tool_names() {
    let prompt = build_multi_agent_system_prompt();
    assert!(prompt.contains("spawn_agent"));
    assert!(prompt.contains("send_message"));
    assert!(prompt.contains("followup_task"));
    assert!(prompt.contains("wait_agent"));
    assert!(prompt.contains("list_agents"));
    assert!(prompt.contains("close_agent"));
}

#[test]
fn test_system_prompt_contains_guidance() {
    let prompt = build_multi_agent_system_prompt();
    assert!(prompt.contains("When to Spawn"));
    assert!(prompt.contains("When NOT to Spawn"));
    assert!(prompt.contains("Communication Pattern"));
}

#[test]
fn test_build_memory_system_prompt_non_empty() {
    let prompt = build_memory_system_prompt();
    assert!(!prompt.is_empty());
    assert!(prompt.contains("Memory"));
    assert!(prompt.contains("MEMORY.md"));
    assert!(prompt.contains("read_file"));
    assert!(prompt.contains("write_file"));
}

// ── multi-agent ──

#[test]
fn test_builder_disabled_multi_agent_skips_factory() {
    let plan = AgentBuilder::new().with_multi_agent_tool_factory().build("").unwrap();
    // Not enabled — nothing is set up.
    assert!(!plan.multi_agent && !plan.multi_agent_tools);
    assert!(plan.system_prompt.is_none());
    assert!(!plan.tool_names.contains(&"spawn_agent".to_string()));
}

#[test]
fn test_without_multi_agent_clears_config_and_factory() {
    let b = AgentBuilder::new()
        .with_multi_agent(true)
        .with_multi_agent_tool_factory()
        .without_multi_agent();
    assert!(!b.has_multi_agent_tool_factory);
    assert!(!b.build("").unwrap().multi_agent);
}

#[test]
fn enabled_multi_agent_adds_its_prompt() {
    let plan = AgentBuilder::new()
        .system_prompt("Base.".to_string())
        .with_multi_agent(true)
        .build_inner();
    assert!(plan.multi_agent && plan.noop_guard && !plan.multi_agent_tools);
    let b = AgentBuilder::new().with_multi_agent(true).with_multi_agent_tool_factory();
    assert!(b.build("").unwrap().multi_agent_tools);
    assert_eq!(
        plan.system_prompt.unwrap(),
        format!("Base.\n\n---\n\n{}", build_multi_agent_system_prompt())
    );
    let plan = AgentBuilder::new().with_multi_agent(true).guard().build_inner();
    assert!(!plan.noop_guard);
    assert_eq!(plan.system_prompt.unwrap(), build_multi_agent_system_prompt());
    assert!(!AgentBuilder::new().with_multi_agent(false).build("").unwrap().multi_agent);
}

#[test]
fn taken_names_are_not_registered_again() {
    let names = |v: &[&str]| v.iter().map(|s| s.to_string()).collect::<Vec<_>>();
    assert_eq!(
        setup_multi_agent(&names(&["a", "wait_agent"]), &names(&["spawn_agent", "wait_agent", "x"])),
        vec![0, 2]
    );
}

// ── apply_if ──

#[test]
fn test_apply_if_some_applies_transformation() {
    let builder = AgentBuilder::new()
        .apply_if(Some("custom prompt"), |b, prompt| b.system_prompt(prompt.to_string()));
    assert!(builder.system_prompt.unwrap().contains("custom prompt"));
}

#[test]
fn test_apply_if_none_passes_through() {
    let builder = AgentBuilder::new().apply_if(None as Option<&str>, |_b, _prompt| {
        panic!("should not be called when value is None");
    });
    assert!(builder.system_prompt.is_none());
}

// ── skills ──

fn skill(name: &str, tools: &[&str]) -> SkillInfo {
    SkillInfo {
        name: name.to_string(),
        tools: tools.iter().map(|s| s.to_string()).collect(),
    }
}

#[test]
fn skills_bring_tools_and_prompt() {
    let b = AgentBuilder::new()
        .system_prompt("Base.".to_string())
        .register_tool("echo")
        .register_tool("echo")
        .register_skills(vec![skill("s1", &["t1", "t2"])])
        .register_skill(skill("s2", &["t3"]))
        .with_skill_detail_tool_factory()
        .with_multi_agent(true);
    let plan = b.build("Skills.").unwrap();
    assert_eq!(plan.tool_names, vec!["echo", "t1", "t2", "t3"]);
    assert!(plan.detail_tool && !plan.list_tool);
    assert_eq!(
        plan.system_prompt.unwrap(),
        format!("Base.\n\n---\n\nSkills.\n\n---\n\n{}", build_multi_agent_system_prompt())
    );
    let plan = b.disable_skill_prompt_injection().without_multi_agent().build("Skills.").unwrap();
    assert_eq!(plan.system_prompt.as_deref(), Some("Base."));
}

#[test]
fn tool_names_must_not_clash() {
    let clash = |b: AgentBuilder| match b.build("") {
        Err(e) => e,
        Ok(_) => panic!("expected a conflict"),
    };
    assert_eq!(
        clash(AgentBuilder::new().register_tool("a").register_skill(skill("s", &["b", "a"]))),
        AgentError::Internal("Tool name conflict: `a` (Skill `s`)".to_string())
    );
    assert_eq!(
        clash(
            AgentBuilder::new()
                .register_skill(skill("s", &["x"]))
                .register_skill(skill("u", &["x"]))
        ),
        AgentError::Internal("Tool name conflict: `x` (Skill `u`)".to_string())
    );
}

#[test]
fn test_register_skill_tool_name_conflict() {
    let result = AgentBuilder::new()
        .register_tool("skill_provided_tool")
        .register_skill(skill("tool_skill", &["skill_provided_tool"]))
        .build("");
    let err = result.err().unwrap();
    assert!(err.to_text().contains("Tool name conflict"));
}

#[test]
fn test_skill_detail_tool_factory_registers_tool() {
    let builder = AgentBuilder::new()
        .register_skill(skill("test_skill", &[]))
        .with_skill_detail_tool_factory();
    assert_eq!(builder.skill_detail_tool_name, "get_skill_detail");
    assert!(builder.build("").unwrap().detail_tool);
}

#[test]
fn test_list_skills_tool_factory_registers_tool() {
    let plan = AgentBuilder::new()
        .register_skill(skill("test_skill", &[]))
        .with_list_skills_tool_factory()
        .build("")
        .unwrap();
    assert!(plan.list_tool);
}

#[test]
fn test_disable_skill_prompt_injection_builds() {
    let plan = AgentBuilder::new()
        .register_skill(skill("tool_skill", &["skill_provided_tool"]))
        .disable_skill_prompt_injection()
        .build("Skills.")
        .unwrap();
    // Tool still registered; prompt injection skipped.
    assert!(plan.tool_names.contains(&"skill_provided_tool".to_string()));
    assert!(plan.system_prompt.is_none());
}

#[test]
fn factories_need_skills() {
    let plan = AgentBuilder::new()
        .with_skill_detail_tool_factory()
        .with_list_skills_tool_factory()
        .skill_detail_tool_name("detail".to_string())
        .build("Skills.")
        .unwrap();
    assert!(!plan.detail_tool && !plan.list_tool && plan.system_prompt.is_none());
    assert_eq!(AgentBuilder::new().skill_detail_tool_name, "get_skill_detail");
}

// ── handle ──

#[test]
fn inputs_go_to_their_session() {
    let run = |id: u64| AgentCommand::RunTurn { session_id: id, input: "hi".to_string() };
    let h = AgentHandle::new();
    assert!(h.needs_session());
    assert_eq!(h.send_input("hi", 7), run(7));
    let h = AgentHandle::with_session(3);
    assert!(!h.needs_session());
    assert_eq!(h.send_input("hi", 7), run(3));
    assert_eq!(h.send_input_with_session("hi", 9), run(9));
}

/// Inputs are run one at a time in the order sent, and each run that has not
/// told so itself is closed.
#[test]
fn inputs_are_run_in_order() {
    let h = AgentHandle::with_session(3);
    let mut w = Worker::new();
    assert!(w.start().is_none());
    for input in ["a", "b", "c"] {
        w.accept(h.send_input(input, 0));
    }
    let run = |input: &str| AgentCommand::RunTurn { session_id: 3, input: input.to_string() };
    assert_eq!(w.start(), Some(run("a")));
    // One run at a time.
    assert_eq!(w.start(), None);
    assert!(w.finish(&Ok(())).is_none());
    assert_eq!(w.start(), Some(run("b")));
    w.accept(h.send_input("d", 0));
    let event = w.finish(&Err(AgentError::Llm("x".to_string()))).unwrap();
    assert_eq!(event.session_id, 3);
    assert!(matches!(event.event, RuntimeEvent::RunFinished));
    // A run is over once.
    assert!(w.finish(&Err(AgentError::Llm("x".to_string()))).is_none());
    assert_eq!(w.start(), Some(run("c")));
    assert!(w.finish(&Err(AgentError::Cancelled)).is_none());
    assert_eq!(w.start(), Some(run("d")));
}

#[test]
fn callers_are_not_left_waiting() {
    assert!(AgentHandle::closing_event(5, &Ok(())).is_none());
    assert!(AgentHandle::closing_event(5, &Err(AgentError::Cancelled)).is_none());
    let failed = Err(AgentError::Llm("x".to_string()));
    let event = AgentHandle::closing_event(5, &failed).unwrap();
    assert_eq!(event.session_id, 5);
    assert!(matches!(event.event, RuntimeEvent::RunFinished));
    assert_eq!(sent(true), Ok(()));
    assert_eq!(sent(false), Err(SendError::ChannelClosed));
}

#[test]
fn errors_have_their_sentences() {
    let s = || "x".to_string();
    assert_eq!(AgentError::Llm(s()).to_text(), "LLM call failed: x");
    assert_eq!(AgentError::Json(s()).to_text(), "JSON parse error: x");
    assert_eq!(AgentError::ResourceUnavailable(s()).to_text(), "Resource unavailable: x");
    assert_eq!(AgentError::Cancelled.to_text(), "Operation cancelled");
    assert_eq!(AgentError::Internal(s()).to_text(), "Internal error: x");
    assert_eq!(AgentError::Other(s()).to_text(), "x");
}
