//! Building an agent: what is registered and what the system prompt says.

use vstd::prelude::*;
use crate::error::{AgentError, ErrorView};
use crate::text::{clone_opt, clone_texts, joined, opt_text, same_text, texts};

verus! {

/// Guidance on sub-agents for the main agent.
pub const MULTI_AGENT_PROMPT: &'static str = r#"## Multi-Agent Capabilities

You have the ability to spawn sub-agents to execute tasks concurrently. Use these tools to delegate work:

- `spawn_agent`: Create a new sub-agent with a specific role. The agent runs independently.
- `send_message`: Send a message to a sub-agent without triggering execution.
- `followup_task`: Assign a task to a sub-agent and trigger its execution. Returns immediately.
- `wait_agent`: Wait for a sub-agent's result. Blocks until the agent completes or timeout.
- `list_agents`: List all active sub-agents and their status.
- `close_agent`: Close a sub-agent and release its resources.

### When to Spawn

- Tasks that can run independently and in parallel (e.g., "research X and Y simultaneously")
- Long-running tasks where you want to check intermediate results
- Decomposing complex tasks into sub-tasks for focused execution

### When NOT to Spawn

- Simple lookups or single-tool calls (just use the tool directly)
- Sequential dependencies where the next step requires the previous result
- Tasks that need your full context or reasoning

### Communication Pattern

1. `spawn_agent` → create the sub-agent
2. `followup_task` → assign work (can call multiple times)
3. `wait_agent` → collect results
4. `close_agent` → clean up when done"#;

/// Guidance on the file-based memory.
pub const MEMORY_PROMPT: &'static str = r#"## Memory

You have a persistent file-based memory at `.phi/memory/`. Use `read_file` and `write_file` to manage it — there are no dedicated memory tools.

### How Memory Works

- `MEMORY.md` is the index — it lists all memories with one-line descriptions. Read it first when you need to recall something.
- Each memory is a separate `.md` file with YAML frontmatter:
  ```yaml
  ---
  name: <short-kebab-case-slug>
  description: <one-line summary — used to decide relevance during recall>
  metadata:
    node_type: memory
    type: user | feedback | project | reference
  ---

  <the fact or instruction>
  ```
- The `description` field is the key for recall — write it so you can tell at a glance whether this memory is relevant to the current task.
- Link related memories with `[[memory-name]]` in the body.
- `user` type = who the user is (role, expertise, preferences).
- `feedback` type = guidance the user has given on how you should work.
- `project` type = ongoing work, goals, or constraints.
- `reference` type = pointers to external resources (URLs, dashboards, tickets).

### When to Use Memory

- The user explicitly asks you to remember something ("remember this", "save that")
- You learn something important about the user's preferences or workflow
- After completing a significant task, save context that would help in future sessions
- The user gives you feedback on how to work — save it as `feedback` type

### When NOT to Use Memory

- For transient information that won't be useful beyond this session
- For facts already recorded in the codebase (code structure, git history, config files)
- For items that only matter to the current conversation

### Pro Tips

- When creating your first memory of a new type, you can read template files for format reference (check `.phi/templates/memory/` if available).
- Keep the MEMORY.md index concise — it's loaded into context every session.
- Before writing a new memory, check if an existing file already covers it — update instead of duplicating.

### Workflow

**To recall:** read `MEMORY.md` → find relevant entries by description → read the specific `.md` files you need.
**To remember:** create a new `.md` file with proper frontmatter → update `MEMORY.md` with a new entry.
**To update:** edit the existing `.md` file (don't create a duplicate).
**To forget:** delete the `.md` file → remove its entry from `MEMORY.md`."#;

/// The multi-agent system prompt guidance for the main agent.
pub fn build_multi_agent_system_prompt() -> (r: String)
    ensures
        r@ == MULTI_AGENT_PROMPT@,
{
    MULTI_AGENT_PROMPT.to_owned()
}

/// The memory system prompt guidance.
///
/// Memory is stored as Markdown files, which the model reads and writes with
/// the general-purpose file tools.
pub fn build_memory_system_prompt() -> (r: String)
    ensures
        r@ == MEMORY_PROMPT@,
{
    MEMORY_PROMPT.to_owned()
}

/// The name of the tool that tells the details of a skill.
pub const DETAIL_TOOL_NAME: &'static str = "get_skill_detail";

/// A skill: its name and the names of the tools it brings.
pub struct SkillInfo {
    pub name: String,
    pub tools: Vec<String>,
}

/// The mathematical value of a [`SkillInfo`].
pub struct SkillView {
    pub name: Seq<char>,
    pub tools: Seq<Seq<char>>,
}

impl View for SkillInfo {
    type V = SkillView;

    open spec fn view(&self) -> SkillView {
        SkillView { name: self.name@, tools: texts(self.tools@) }
    }
}

pub open spec fn skill_views(s: Seq<SkillInfo>) -> Seq<SkillView> {
    Seq::new(s.len(), |i: int| s[i]@)
}

/// What an agent is built from.
pub struct AgentBuilder {
    pub system_prompt: Option<String>,
    /// The names of the registered tools, each once.
    pub tool_names: Vec<String>,
    pub skills: Vec<SkillInfo>,
    pub skill_detail_tool_name: String,
    /// Whether there is a way to make the tool that tells a skill's details.
    pub has_skill_detail_tool_factory: bool,
    /// Whether there is a way to make the tool that lists the skills.
    pub has_list_skills_tool_factory: bool,
    pub disable_skill_prompt_injection: bool,
    /// Whether sub-agents are enabled, where that is configured.
    pub multi_agent_enabled: Option<bool>,
    /// Whether there is a way to make the sub-agent tools.
    pub has_multi_agent_tool_factory: bool,
    /// Whether a guard was set.
    pub has_guard: bool,
}

/// What to build.
pub struct BuildPlan {
    /// Put the guard in that does not intervene: none was set.
    pub noop_guard: bool,
    pub system_prompt: Option<String>,
    /// Register the tools of the skills.
    pub tool_names: Vec<String>,
    /// Register the tool that tells a skill's details.
    pub detail_tool: bool,
    /// Register the tool that lists the skills.
    pub list_tool: bool,
    /// Set sub-agents up.
    pub multi_agent: bool,
    /// Register the sub-agent tools whose names are not taken.
    pub multi_agent_tools: bool,
}

/// What stands between two parts of a system prompt.
pub const PROMPT_SEPARATOR: &'static str = "\n\n---\n\n";

/// A system prompt with one more part.
pub open spec fn with_part(prompt: Option<Seq<char>>, part: Seq<char>) -> Seq<char> {
    match prompt {
        Some(p) => p + PROMPT_SEPARATOR@ + part,
        None => part,
    }
}

/// What is said of a tool whose name is taken.
pub open spec fn conflict_text(tool: Seq<char>, skill: Seq<char>) -> Seq<char> {
    "Tool name conflict: `"@ + tool + "` (Skill `"@ + skill + "`)"@
}

/// The tool names once a skill's tools are among them, or what is said of the
/// first whose name is taken.
pub open spec fn claim(
    names: Seq<Seq<char>>,
    skill: Seq<char>,
    tools: Seq<Seq<char>>,
) -> Result<Seq<Seq<char>>, Seq<char>>
    decreases tools.len(),
{
    if tools.len() == 0 {
        Ok(names)
    } else if names.contains(tools[0]) {
        Err(conflict_text(tools[0], skill))
    } else {
        claim(names.push(tools[0]), skill, tools.drop_first())
    }
}

/// The tool names once all skills' tools are among them.
pub open spec fn claim_all(names: Seq<Seq<char>>, skills: Seq<SkillView>) -> Result<
    Seq<Seq<char>>,
    Seq<char>,
>
    decreases skills.len(),
{
    if skills.len() == 0 {
        Ok(names)
    } else {
        match claim(names, skills[0].name, skills[0].tools) {
            Ok(n) => claim_all(n, skills.drop_first()),
            Err(e) => Err(e),
        }
    }
}

/// The system prompt with what the skills add to it.
pub open spec fn skill_stage(b: AgentBuilder, skill_prompt: Seq<char>) -> Option<Seq<char>> {
    if b.skills@.len() > 0 && !b.disable_skill_prompt_injection && skill_prompt.len() > 0 {
        Some(with_part(opt_text(b.system_prompt), skill_prompt))
    } else {
        opt_text(b.system_prompt)
    }
}

/// Whether sub-agents are enabled.
pub open spec fn multi_agent_on(b: AgentBuilder) -> bool {
    b.multi_agent_enabled == Some(true)
}

/// The system prompt with what sub-agents add to it.
pub open spec fn multi_agent_stage(b: AgentBuilder, prompt: Option<Seq<char>>) -> Option<
    Seq<char>,
> {
    if multi_agent_on(b) {
        Some(with_part(prompt, MULTI_AGENT_PROMPT@))
    } else {
        prompt
    }
}

fn add_part(prompt: Option<String>, part: &str) -> (r: String)
    ensures
        r@ == with_part(opt_text(prompt), part@),
{
    match prompt {
        Some(p) => {
            let mut s = p;
            s.append(PROMPT_SEPARATOR);
            s.append(part);
            s
        },
        None => part.to_owned(),
    }
}

fn has_name(names: &Vec<String>, name: &str) -> (r: bool)
    ensures
        r == texts(names@).contains(name@),
{
    let mut i: usize = 0;
    while i < names.len()
        invariant
            i <= names@.len(),
            forall|j: int| 0 <= j < i ==> texts(names@)[j] != name@,
        decreases names@.len() - i,
    {
        if same_text(names[i].as_str(), name) {
            assert(texts(names@)[i as int] == name@);
            return true;
        }
        i += 1;
    }
    false
}

fn claim_tools(names: &Vec<String>, skill: &SkillInfo) -> (r: Result<Vec<String>, AgentError>)
    ensures
        match claim(texts(names@), skill@.name, skill@.tools) {
            Ok(n) => r matches Ok(v) && texts(v@) == n,
            Err(e) => r matches Err(x) && x@ == ErrorView::Internal(e),
        },
{
    let mut held = clone_texts(names);
    let ghost tools = skill@.tools;
    let ghost start = texts(names@);
    let mut i: usize = 0;
    assert(tools.skip(0) == tools);
    while i < skill.tools.len()
        invariant
            i <= skill.tools@.len(),
            tools == texts(skill.tools@),
            tools == skill@.tools,
            start == texts(names@),
            claim(start, skill@.name, tools) == claim(
                texts(held@),
                skill@.name,
                tools.skip(i as int),
            ),
        decreases skill.tools@.len() - i,
    {
        let ghost before = texts(held@);
        assert(tools.skip(i as int)[0] == tools[i as int]);
        assert(tools.skip(i as int).drop_first() == tools.skip(i + 1));
        if has_name(&held, skill.tools[i].as_str()) {
            let mut m = "Tool name conflict: `".to_owned();
            m.append(skill.tools[i].as_str());
            m.append("` (Skill `");
            m.append(skill.name.as_str());
            m.append("`)");
            return Err(AgentError::Internal(m));
        }
        held.push(skill.tools[i].clone());
        assert(texts(held@) == before.push(tools[i as int]));
        i += 1;
    }
    Ok(held)
}

impl AgentBuilder {
    pub fn new() -> (r: Self)
        ensures
            r.system_prompt is None,
            texts(r.tool_names@) == Seq::<Seq<char>>::empty(),
            r.skills@.len() == 0,
            r.skill_detail_tool_name@ == DETAIL_TOOL_NAME@,
            !r.has_skill_detail_tool_factory,
            !r.has_list_skills_tool_factory,
            !r.disable_skill_prompt_injection,
            r.multi_agent_enabled is None,
            !r.has_multi_agent_tool_factory,
            !r.has_guard,
    {
        let r = AgentBuilder {
            system_prompt: None,
            tool_names: Vec::new(),
            skills: Vec::new(),
            skill_detail_tool_name: DETAIL_TOOL_NAME.to_owned(),
            has_skill_detail_tool_factory: false,
            has_list_skills_tool_factory: false,
            disable_skill_prompt_injection: false,
            multi_agent_enabled: None,
            has_multi_agent_tool_factory: false,
            has_guard: false,
        };
        assert(texts(r.tool_names@) == Seq::<Seq<char>>::empty());
        r
    }

    pub fn system_prompt(self, prompt: String) -> (r: Self)
        ensures
            r == (AgentBuilder { system_prompt: Some(prompt), ..self }),
    {
        AgentBuilder { system_prompt: Some(prompt), ..self }
    }

    /// Registers a tool by its name; a name that is there already stays once.
    pub fn register_tool(self, name: &str) -> (r: Self)
        ensures
            texts(r.tool_names@) == if texts(self.tool_names@).contains(name@) {
                texts(self.tool_names@)
            } else {
                texts(self.tool_names@).push(name@)
            },
            r == (AgentBuilder { tool_names: r.tool_names, ..self }),
    {
        let mut names = self.tool_names;
        let ghost before = texts(names@);
        if !has_name(&names, name) {
            names.push(name.to_owned());
            assert(texts(names@) == before.push(name@));
        }
        AgentBuilder { tool_names: names, ..self }
    }

    /// Enables or disables sub-agents.
    pub fn with_multi_agent(self, enabled: bool) -> (r: Self)
        ensures
            r == (AgentBuilder { multi_agent_enabled: Some(enabled), ..self }),
    {
        AgentBuilder { multi_agent_enabled: Some(enabled), ..self }
    }

    /// Takes everything about sub-agents back.
    pub fn without_multi_agent(self) -> (r: Self)
        ensures
            r == (AgentBuilder {
                multi_agent_enabled: None,
                has_multi_agent_tool_factory: false,
                ..self
            }),
    {
        AgentBuilder { multi_agent_enabled: None, has_multi_agent_tool_factory: false, ..self }
    }

    pub fn with_multi_agent_tool_factory(self) -> (r: Self)
        ensures
            r == (AgentBuilder { has_multi_agent_tool_factory: true, ..self }),
    {
        AgentBuilder { has_multi_agent_tool_factory: true, ..self }
    }

    pub fn with_skill_detail_tool_factory(self) -> (r: Self)
        ensures
            r == (AgentBuilder { has_skill_detail_tool_factory: true, ..self }),
    {
        AgentBuilder { has_skill_detail_tool_factory: true, ..self }
    }

    pub fn with_list_skills_tool_factory(self) -> (r: Self)
        ensures
            r == (AgentBuilder { has_list_skills_tool_factory: true, ..self }),
    {
        AgentBuilder { has_list_skills_tool_factory: true, ..self }
    }

    /// A guard was set.
    pub fn guard(self) -> (r: Self)
        ensures
            r == (AgentBuilder { has_guard: true, ..self }),
    {
        AgentBuilder { has_guard: true, ..self }
    }

    pub fn disable_skill_prompt_injection(self) -> (r: Self)
        ensures
            r == (AgentBuilder { disable_skill_prompt_injection: true, ..self }),
    {
        AgentBuilder { disable_skill_prompt_injection: true, ..self }
    }

    pub fn skill_detail_tool_name(self, name: String) -> (r: Self)
        ensures
            r == (AgentBuilder { skill_detail_tool_name: name, ..self }),
    {
        AgentBuilder { skill_detail_tool_name: name, ..self }
    }

    /// Registers a skill behind the others.
    pub fn register_skill(self, skill: SkillInfo) -> (r: Self)
        ensures
            r.skills@ == self.skills@.push(skill),
            r == (AgentBuilder { skills: r.skills, ..self }),
    {
        let mut skills = self.skills;
        skills.push(skill);
        AgentBuilder { skills, ..self }
    }

    /// Registers several skills behind the others, in order.
    pub fn register_skills(self, more: Vec<SkillInfo>) -> (r: Self)
        ensures
            r.skills@ == self.skills@ + more@,
            r == (AgentBuilder { skills: r.skills, ..self }),
    {
        let mut skills = self.skills;
        let mut more = more;
        skills.append(&mut more);
        AgentBuilder { skills, ..self }
    }

    /// Applies a transformation when `value` is there.
    pub fn apply_if<T, F: FnOnce(Self, T) -> Self>(self, value: Option<T>, f: F) -> (r: Self)
        requires
            value matches Some(v) ==> call_requires(f, (self, v)),
        ensures
            match value {
                Some(v) => call_ensures(f, (self, v), r),
                None => r == self,
            },
    {
        match value {
            Some(v) => f(self, v),
            None => self,
        }
    }

    /// The tool names once all skills' tools are among them; an error for the
    /// first tool whose name is taken.
    pub fn claim_skill_tools(&self) -> (r: Result<Vec<String>, AgentError>)
        ensures
            match claim_all(texts(self.tool_names@), skill_views(self.skills@)) {
                Ok(n) => r matches Ok(v) && texts(v@) == n,
                Err(e) => r matches Err(x) && x@ == ErrorView::Internal(e),
            },
    {
        let mut names = clone_texts(&self.tool_names);
        let ghost start = texts(names@);
        let ghost skills = skill_views(self.skills@);
        assert(skills.skip(0) == skills);
        let mut i: usize = 0;
        while i < self.skills.len()
            invariant
                i <= self.skills@.len(),
                skills == skill_views(self.skills@),
                start == texts(self.tool_names@),
                claim_all(start, skills) == claim_all(texts(names@), skills.skip(i as int)),
            decreases self.skills@.len() - i,
        {
            assert(skills.skip(i as int)[0] == skills[i as int]);
            assert(skills.skip(i as int).drop_first() == skills.skip(i + 1));
            match claim_tools(&names, &self.skills[i]) {
                Ok(n) => {
                    names = n;
                },
                Err(e) => {
                    return Err(e);
                },
            }
            i += 1;
        }
        Ok(names)
    }

    fn with_sub_agents(&self, prompt: Option<String>) -> (r: Option<String>)
        ensures
            opt_text(r) == multi_agent_stage(*self, opt_text(prompt)),
    {
        match self.multi_agent_enabled {
            Some(true) => Some(add_part(prompt, MULTI_AGENT_PROMPT)),
            _ => prompt,
        }
    }

    /// What to build without skills.
    pub fn build_inner(&self) -> (r: BuildPlan)
        ensures
            r.noop_guard == !self.has_guard,
            opt_text(r.system_prompt) == multi_agent_stage(*self, opt_text(self.system_prompt)),
            texts(r.tool_names@) == texts(self.tool_names@),
            !r.detail_tool,
            !r.list_tool,
            r.multi_agent == multi_agent_on(*self),
            r.multi_agent_tools == (multi_agent_on(*self) && self.has_multi_agent_tool_factory),
    {
        BuildPlan {
            noop_guard: !self.has_guard,
            system_prompt: self.with_sub_agents(clone_opt(&self.system_prompt)),
            tool_names: clone_texts(&self.tool_names),
            detail_tool: false,
            list_tool: false,
            multi_agent: self.multi_agent_enabled == Some(true),
            multi_agent_tools: self.multi_agent_enabled == Some(true)
                && self.has_multi_agent_tool_factory,
        }
    }

    /// What to build, where `skill_prompt` is what the prompter says of the
    /// skills.
    pub fn build_with_skills(&self, skill_prompt: &str) -> (r: Result<BuildPlan, AgentError>)
        ensures
            match claim_all(texts(self.tool_names@), skill_views(self.skills@)) {
                Err(e) => r matches Err(x) && x@ == ErrorView::Internal(e),
                Ok(names) => {
                    &&& r matches Ok(p)
                    &&& p.noop_guard == !self.has_guard
                    &&& texts(p.tool_names@) == names
                    &&& opt_text(p.system_prompt) == multi_agent_stage(
                        *self,
                        skill_stage(*self, skill_prompt@),
                    )
                    &&& p.detail_tool == (self.skills@.len() > 0
                        && self.has_skill_detail_tool_factory)
                    &&& p.list_tool == (self.skills@.len() > 0
                        && self.has_list_skills_tool_factory)
                    &&& p.multi_agent == multi_agent_on(*self)
                    &&& p.multi_agent_tools == (multi_agent_on(*self)
                        && self.has_multi_agent_tool_factory)
                },
            },
    {
        let names = match self.claim_skill_tools() {
            Ok(n) => n,
            Err(e) => {
                return Err(e);
            },
        };
        let any = self.skills.len() > 0;
        let mut prompt = clone_opt(&self.system_prompt);
        if any && !self.disable_skill_prompt_injection && !skill_prompt.is_empty() {
            prompt = Some(add_part(prompt, skill_prompt));
        }
        Ok(
            BuildPlan {
                noop_guard: !self.has_guard,
                system_prompt: self.with_sub_agents(prompt),
                tool_names: names,
                detail_tool: any && self.has_skill_detail_tool_factory,
                list_tool: any && self.has_list_skills_tool_factory,
                multi_agent: self.multi_agent_enabled == Some(true),
                multi_agent_tools: self.multi_agent_enabled == Some(true)
                    && self.has_multi_agent_tool_factory,
            },
        )
    }

    /// What to build, where `skill_prompt` is what the prompter says of the
    /// skills.
    pub fn build(&self, skill_prompt: &str) -> (r: Result<BuildPlan, AgentError>)
        ensures
            match claim_all(texts(self.tool_names@), skill_views(self.skills@)) {
                Err(e) => r matches Err(x) && x@ == ErrorView::Internal(e),
                Ok(names) => {
                    &&& r matches Ok(p)
                    &&& p.noop_guard == !self.has_guard
                    &&& texts(p.tool_names@) == names
                    &&& opt_text(p.system_prompt) == multi_agent_stage(
                        *self,
                        skill_stage(*self, skill_prompt@),
                    )
                    &&& p.detail_tool == (self.skills@.len() > 0
                        && self.has_skill_detail_tool_factory)
                    &&& p.list_tool == (self.skills@.len() > 0
                        && self.has_list_skills_tool_factory)
                    &&& p.multi_agent == multi_agent_on(*self)
                    &&& p.multi_agent_tools == (multi_agent_on(*self)
                        && self.has_multi_agent_tool_factory)
                },
            },
    {
        self.build_with_skills(skill_prompt)
    }
}

/// The positions below `n` of the candidates whose names are not taken.
pub open spec fn untaken(existing: Seq<Seq<char>>, candidates: Seq<Seq<char>>, n: int) -> Seq<usize>
    decreases n,
{
    if n <= 0 || n > candidates.len() {
        Seq::empty()
    } else if existing.contains(candidates[n - 1]) {
        untaken(existing, candidates, n - 1)
    } else {
        untaken(existing, candidates, n - 1).push((n - 1) as usize)
    }
}

/// Which of the sub-agent tools to register, as their positions: those whose
/// names are not taken by tools registered before.
pub fn setup_multi_agent(existing_tool_names: &Vec<String>, candidates: &Vec<String>) -> (r: Vec<
    usize,
>)
    ensures
        r@ == untaken(
            texts(existing_tool_names@),
            texts(candidates@),
            candidates@.len() as int,
        ),
{
    let mut out: Vec<usize> = Vec::new();
    let ghost all = texts(candidates@);
    let mut i: usize = 0;
    while i < candidates.len()
        invariant
            i <= candidates@.len(),
            all == texts(candidates@),
            out@ == untaken(texts(existing_tool_names@), all, i as int),
        decreases candidates@.len() - i,
    {
        if !has_name(existing_tool_names, candidates[i].as_str()) {
            out.push(i);
        }
        i += 1;
    }
    out
}

// ---------------------------------------------------------------------------
// Laws
// ---------------------------------------------------------------------------

proof fn lemma_claim_distinct(names: Seq<Seq<char>>, skill: Seq<char>, tools: Seq<Seq<char>>)
    requires
        names.no_duplicates(),
    ensures
        claim(names, skill, tools) matches Ok(n) ==> n.no_duplicates() && n == names + tools,
    decreases tools.len(),
{
    if tools.len() == 0 {
        assert(names + tools =~= names);
    } else if !names.contains(tools[0]) {
        lemma_claim_distinct(names.push(tools[0]), skill, tools.drop_first());
        assert(names.push(tools[0]) + tools.drop_first() =~= names + tools);
    }
}

/// The tools that all skills bring, in order.
pub open spec fn all_tools(skills: Seq<SkillView>) -> Seq<Seq<char>>
    decreases skills.len(),
{
    if skills.len() == 0 {
        Seq::empty()
    } else {
        skills[0].tools + all_tools(skills.drop_first())
    }
}

/// An agent is built only if no two tools share a name, and then it has every
/// tool of every skill, in order, behind its own.
pub proof fn law_built_tools_are_distinct(names: Seq<Seq<char>>, skills: Seq<SkillView>)
    requires
        names.no_duplicates(),
    ensures
        claim_all(names, skills) matches Ok(n) ==> n.no_duplicates() && n == names + all_tools(
            skills,
        ),
    decreases skills.len(),
{
    if skills.len() == 0 {
        assert(names + all_tools(skills) =~= names);
    } else {
        lemma_claim_distinct(names, skills[0].name, skills[0].tools);
        match claim(names, skills[0].name, skills[0].tools) {
            Ok(n) => {
                law_built_tools_are_distinct(n, skills.drop_first());
                assert(n + all_tools(skills.drop_first()) =~= names + all_tools(skills));
            },
            Err(e) => {},
        }
    }
}

proof fn lemma_claim_succeeds(names: Seq<Seq<char>>, skill: Seq<char>, tools: Seq<Seq<char>>)
    requires
        (names + tools).no_duplicates(),
    ensures
        claim(names, skill, tools) == Ok::<Seq<Seq<char>>, Seq<char>>(names + tools),
    decreases tools.len(),
{
    let all = names + tools;
    if tools.len() == 0 {
        assert(all =~= names);
    } else {
        assert(!names.contains(tools[0])) by {
            if names.contains(tools[0]) {
                let i = names.index_of(tools[0]);
                assert(all[i] == all[names.len() as int]);
            }
        }
        assert(names.push(tools[0]) + tools.drop_first() =~= all);
        lemma_claim_succeeds(names.push(tools[0]), skill, tools.drop_first());
    }
}

/// Where no two tools share a name, there is no conflict.
pub proof fn law_distinct_tools_are_built(names: Seq<Seq<char>>, skills: Seq<SkillView>)
    requires
        (names + all_tools(skills)).no_duplicates(),
    ensures
        claim_all(names, skills) == Ok::<Seq<Seq<char>>, Seq<char>>(names + all_tools(skills)),
    decreases skills.len(),
{
    let all = names + all_tools(skills);
    if skills.len() == 0 {
        assert(all =~= names);
    } else {
        let t = skills[0].tools;
        let rest = skills.drop_first();
        assert((names + t) + all_tools(rest) =~= all);
        assert((names + t).no_duplicates()) by {
            assert forall|i: int, j: int|
                0 <= i < (names + t).len() && 0 <= j < (names + t).len() && i != j implies (names
                + t)[i] != (names + t)[j] by {
                assert(all[i] == (names + t)[i]);
                assert(all[j] == (names + t)[j]);
            }
        }
        lemma_claim_succeeds(names, skills[0].name, t);
        law_distinct_tools_are_built(names + t, rest);
    }
}

/// The parts of the system prompt stand in the order given, skills, sub-agents,
/// and none of them changes another.
pub proof fn law_prompt_parts_in_order(b: AgentBuilder, skill_prompt: Seq<char>)
    requires
        b.system_prompt is Some,
        b.skills@.len() > 0,
        !b.disable_skill_prompt_injection,
        skill_prompt.len() > 0,
        multi_agent_on(b),
    ensures
        multi_agent_stage(b, skill_stage(b, skill_prompt)) == Some(
            b.system_prompt->0@ + PROMPT_SEPARATOR@ + skill_prompt + PROMPT_SEPARATOR@
                + MULTI_AGENT_PROMPT@,
        ),
{
}

/// The parts that a system prompt is put together from, in order: the prompt
/// given, what is said of the skills, where there are any and it is not
/// switched off, and the guidance on sub-agents, where they are enabled.
pub open spec fn prompt_parts(b: AgentBuilder, skill_prompt: Seq<char>) -> Seq<Seq<char>> {
    let given = match b.system_prompt {
        Some(p) => seq![p@],
        None => Seq::empty(),
    };
    let skills = if b.skills@.len() == 0 || b.disable_skill_prompt_injection
        || skill_prompt.len() == 0 {
        Seq::empty()
    } else {
        seq![skill_prompt]
    };
    let sub_agents = match b.multi_agent_enabled {
        Some(true) => seq![MULTI_AGENT_PROMPT@],
        _ => Seq::empty(),
    };
    given + skills + sub_agents
}

/// The system prompt that is built holds every part there is, as it is, in
/// order and with the separator between them, and no other; without a part
/// there is none.  No part depends on another being there.
pub proof fn law_system_prompt_is_its_parts(b: AgentBuilder, skill_prompt: Seq<char>)
    ensures
        ({
            let built = multi_agent_stage(b, skill_stage(b, skill_prompt));
            let parts = prompt_parts(b, skill_prompt);
            &&& built is None <==> parts.len() == 0
            &&& built matches Some(p) ==> p == joined(parts, "\n\n---\n\n"@)
        }),
        multi_agent_stage(b, opt_text(b.system_prompt)) is None <==> b.system_prompt is None
            && b.multi_agent_enabled != Some(true),
{
    reveal_with_fuel(joined, 4);
    let parts = prompt_parts(b, skill_prompt);
    if parts.len() == 2 {
        assert(parts.drop_last() =~= seq![parts[0]]);
    }
    if parts.len() == 3 {
        assert(parts.drop_last() =~= seq![parts[0], parts[1]]);
        assert(parts.drop_last().drop_last() =~= seq![parts[0]]);
    }
    let given = match b.system_prompt {
        Some(p) => seq![p@],
        None => Seq::<Seq<char>>::empty(),
    };
    assert(given + Seq::<Seq<char>>::empty() + Seq::<Seq<char>>::empty() =~= given);
}

/// With sub-agents off, the skills are in the prompt whenever there are any,
/// behind the prompt given if there is one.
pub proof fn law_skills_are_in_the_prompt(b: AgentBuilder, skill_prompt: Seq<char>)
    requires
        b.multi_agent_enabled != Some(true),
        b.skills@.len() > 0,
        !b.disable_skill_prompt_injection,
        skill_prompt.len() > 0,
    ensures
        multi_agent_stage(b, skill_stage(b, skill_prompt)) == Some(
            match b.system_prompt {
                Some(p) => p@ + "\n\n---\n\n"@ + skill_prompt,
                None => skill_prompt,
            },
        ),
{
}

/// The first tool whose name is taken, by a tool of the agent or of the skill
/// itself, is named in the error, with its skill.
pub proof fn law_the_first_clash_is_named(
    names: Seq<Seq<char>>,
    skill: Seq<char>,
    before: Seq<Seq<char>>,
    tool: Seq<char>,
    after: Seq<Seq<char>>,
)
    requires
        (names + before).no_duplicates(),
        (names + before).contains(tool),
    ensures
        claim(names, skill, before + seq![tool] + after) == Err::<Seq<Seq<char>>, Seq<char>>(
            "Tool name conflict: `"@ + tool + "` (Skill `"@ + skill + "`)"@,
        ),
    decreases before.len(),
{
    let tools = before + seq![tool] + after;
    if before.len() == 0 {
        assert(names + before =~= names);
        assert(tools[0] == tool);
    } else {
        let all = names + before;
        let t = before[0];
        let rest = before.drop_first();
        assert(tools[0] == t);
        assert(!names.contains(t)) by {
            if names.contains(t) {
                let i = names.index_of(t);
                assert(all[i] == all[names.len() as int]);
            }
        }
        assert(names.push(t) + rest =~= all);
        assert(tools.drop_first() =~= rest + seq![tool] + after);
        law_the_first_clash_is_named(names.push(t), skill, rest, tool, after);
    }
}

/// A sub-agent tool is registered exactly when its name is not taken, and the
/// tools are registered in their order.
pub proof fn law_untaken_tools_are_registered(
    existing: Seq<Seq<char>>,
    candidates: Seq<Seq<char>>,
    n: int,
    i: int,
)
    requires
        0 <= i < n <= candidates.len(),
        candidates.len() <= usize::MAX,
    ensures
        untaken(existing, candidates, n).contains(i as usize) <==> !existing.contains(
            candidates[i],
        ),
        forall|a: int| 0 <= a < untaken(existing, candidates, n).len() ==> #[trigger] untaken(
            existing,
            candidates,
            n,
        )[a] < n,
        forall|a: int, b: int|
            0 <= a < b < untaken(existing, candidates, n).len() ==> untaken(
                existing,
                candidates,
                n,
            )[a] < untaken(existing, candidates, n)[b],
    decreases n,
{
    let u = untaken(existing, candidates, n);
    let p = untaken(existing, candidates, n - 1);
    lemma_untaken_below(existing, candidates, n);
    lemma_untaken_below(existing, candidates, n - 1);
    if i < n - 1 {
        law_untaken_tools_are_registered(existing, candidates, n - 1, i);
        if p.contains(i as usize) {
            let j = p.index_of(i as usize);
            assert(u[j] == i as usize);
        }
        if u.contains(i as usize) {
            let j = u.index_of(i as usize);
            if j < p.len() {
                assert(p[j] == i as usize);
            }
        }
    } else {
        if !existing.contains(candidates[i]) {
            assert(u[u.len() - 1] == i as usize);
        }
    }
}

proof fn lemma_untaken_below(existing: Seq<Seq<char>>, candidates: Seq<Seq<char>>, n: int)
    requires
        0 <= n <= candidates.len(),
        candidates.len() <= usize::MAX,
    ensures
        forall|a: int| 0 <= a < untaken(existing, candidates, n).len() ==> #[trigger] untaken(
            existing,
            candidates,
            n,
        )[a] < n,
        forall|a: int, b: int|
            0 <= a < b < untaken(existing, candidates, n).len() ==> untaken(
                existing,
                candidates,
                n,
            )[a] < untaken(existing, candidates, n)[b],
    decreases n,
{
    if n > 0 {
        lemma_untaken_below(existing, candidates, n - 1);
        let u = untaken(existing, candidates, n);
        let p = untaken(existing, candidates, n - 1);
        assert forall|a: int| 0 <= a < u.len() implies #[trigger] u[a] < n by {
            if a < p.len() {
                assert(u[a] == p[a]);
            }
        }
        assert forall|a: int, b: int| 0 <= a < b < u.len() implies u[a] < u[b] by {
            assert(u[a] == p[a]);
            if b < p.len() {
                assert(u[b] == p[b]);
            }
        }
    }
}

/// A tool whose name is taken by a tool of the agent or of an earlier skill is
/// named in the error, with its own skill, whatever skills follow.
pub proof fn law_a_clash_between_skills_is_named(
    names: Seq<Seq<char>>,
    before: Seq<SkillView>,
    skill: SkillView,
    after: Seq<SkillView>,
    taken: Seq<char>,
)
    requires
        (names + all_tools(before)).no_duplicates(),
        skill.tools.len() > 0,
        skill.tools[0] == taken,
        (names + all_tools(before)).contains(taken),
    ensures
        claim_all(names, before + seq![skill] + after) == Err::<Seq<Seq<char>>, Seq<char>>(
            "Tool name conflict: `"@ + taken + "` (Skill `"@ + skill.name + "`)"@,
        ),
    decreases before.len(),
{
    let all = before + seq![skill] + after;
    if before.len() == 0 {
        assert(all_tools(before) =~= Seq::empty());
        assert(names + all_tools(before) =~= names);
        assert(all[0] == skill);
    } else {
        let rest = before.drop_first();
        let first = before[0];
        assert(all[0] == first);
        assert(all.drop_first() =~= rest + seq![skill] + after);
        let more = names + first.tools;
        assert(names + all_tools(before) =~= more + all_tools(rest));
        assert(all_tools(seq![first]) =~= first.tools) by {
            assert(seq![first].drop_first() =~= Seq::empty());
            assert(all_tools(Seq::<SkillView>::empty()) =~= Seq::empty());
        }
        assert(more.no_duplicates()) by {
            let whole = names + all_tools(before);
            assert forall|i: int, j: int| 0 <= i < more.len() && 0 <= j < more.len() && i
                != j implies more[i] != more[j] by {
                assert(whole[i] == more[i]);
                assert(whole[j] == more[j]);
            }
        }
        law_distinct_tools_are_built(names, seq![first]);
        let none = seq![first].drop_first();
        assert(none =~= Seq::empty());
        assert(claim_all(names, seq![first]) == match claim(names, first.name, first.tools) {
            Ok(n) => claim_all(n, none),
            Err(e) => Err(e),
        });
        assert(forall|n: Seq<Seq<char>>| #[trigger]
            claim_all(n, none) == Ok::<Seq<Seq<char>>, Seq<char>>(n));
        assert(claim(names, first.name, first.tools) == Ok::<Seq<Seq<char>>, Seq<char>>(more));
        law_a_clash_between_skills_is_named(more, rest, skill, after, taken);
    }
}

/// Skills stand for their names and their tools, in order.
pub proof fn law_skills_stand_for_their_fields(s: Seq<SkillInfo>, i: int)
    requires
        0 <= i < s.len(),
    ensures
        skill_views(s).len() == s.len(),
        skill_views(s)[i].name == s[i].name@,
        skill_views(s)[i].tools == texts(s[i].tools@),
{
}

} // verus!
