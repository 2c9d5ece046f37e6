//! Where memories live, and what writing, reading, deleting and listing them
//! does.
//!
//! The store works out what to do; the steps it returns are carried out in
//! order.

use vstd::prelude::*;
use crate::error::{AgentError, ErrorView};
use crate::memory::calendar::{is_iso8601, lemma_iso8601_one_line, now_iso8601};
use crate::memory::frontmatter::{
    doc_of, file_text, frontmatter_yaml, opt_str, plain_end, render_memory_file, split_of, DocView,
    FrontmatterView, MemoryDoc,
};
use crate::memory::index::{
    has_row, index_added, index_after, index_line_desc, index_removed, index_row, index_text,
    last_writes, law_added_row_is_there, law_index_follows_writes, law_other_memories_keep_their_rows,
    law_removed_row_is_gone, names_differ, names_hold, row, row_desc, rows_of, valid_names,
};
use crate::memory::names::{
    invalid_name_text, invalid_type_text, join_path, joined_path, law_files_tell_names_apart,
    law_slug_is_a_component, law_valid_names_stay_inside, memory_file, name_char, project_slug, slug_of, valid_name, valid_type, validate_memory_name,
    validate_memory_type, DEFAULT_INDEX_FILENAME,
};
use crate::memory::order::{in_order, law_sorting, order_of, sorted_positions};
use crate::text::{
    begins, chars_of, clone_opt, contains_char, decimal, decimal_text, ends_in, join, joined,
    only, opt_text, same_text, string_of, texts, without_leading,
};

verus! {

// ---------------------------------------------------------------------------
// Configuration
// ---------------------------------------------------------------------------

/// Memory configuration: where memories live and how they are pitched in the
/// system prompt.
#[derive(Debug)]
pub struct MemoryConfig {
    /// Memory root directory, e.g. `~/<tool>/projects/<slug>/memory/`.
    pub memory_root: String,
    /// Index file name (default `"MEMORY.md"`).
    pub index_filename: String,
    /// System prompt template. Placeholders substituted at build time:
    /// `{memory_root}`, `{shared_tool}`, `{index_content}`,
    /// `{tools_description}`.
    pub prompt_template: String,
}

/// Default prompt template for a directory shared with another tool, whose
/// name goes in the place of `{shared_tool}`.
pub const CLAUDE_COMPATIBLE_TEMPLATE: &'static str = r#"## Memory

You have a persistent memory directory at `{memory_root}`. Memories survive across sessions and are shared with {shared_tool} (same directory, same format — what you write here, {shared_tool} reads, and vice versa).

### Current memory index

The snapshot below was taken at startup and may be stale — call `memory_list` to refresh whenever unsure.

{index_content}

### Tools

{tools_description}

### How to remember

- `memory_write` stores one memory as `<name>.md` and syncs the index automatically. `name` must match `^[a-z0-9][a-z0-9-]*$`; writing to an existing `name` overwrites it in place (update instead of duplicating; prefer overwriting rolling `project` memories like status notes over creating new ones).
- The `description` is the recall key — one line (no newlines) that lets you tell at a glance whether the memory matters for the current task.
- Types: `user` (who the user is: role, preferences, working style), `feedback` (rules and corrections the user gave you), `project` (ongoing work, decisions, status), `reference` (pointers to external resources).
- Link related memories with `[[memory-name]]` in the body.

### When to use memory

- The user explicitly asks to remember something ("remember this", "save that").
- You learn a durable preference, correction, or project fact worth carrying into future sessions.

### When NOT to use memory

- Transient details that only matter within this session.
- Facts already recorded in the codebase (code structure, git history, config files).

### How to recall

Scan the index above by `description` and call `memory_read(name)` only for the relevant entries. Recall is selective by design — do not read everything."#;

/// The memory directory of a workspace under a home directory, in a tool's
/// own directory there.
pub open spec fn claude_root(
    home: Option<Seq<char>>,
    tool_dir: Seq<char>,
    workspace: Seq<char>,
) -> Seq<char> {
    let h = match home {
        Some(s) => s,
        None => "."@,
    };
    joined_path(
        joined_path(joined_path(joined_path(h, tool_dir), "projects"@), slug_of(workspace)),
        "memory"@,
    )
}

/// `dirs::home_dir`: the user's home directory as the environment and the
/// system have it, so nothing is promised of it.  One whose path is not valid
/// Unicode counts as none.
#[verifier::external_body]
fn home_dir() -> Option<String> {
    dirs::home_dir().and_then(|p| p.into_os_string().into_string().ok())
}

impl MemoryConfig {
    /// Configuration for `workspace` under the user's home directory, shared
    /// with the tool that keeps its files in `tool_dir` there.
    ///
    /// Storage: `~/<tool_dir>/projects/<slug>/memory/` with the slug computed
    /// from the workspace path.
    pub fn claude_compatible(workspace: &str, tool_dir: &str) -> (r: Self)
        ensures
            exists|home: Option<Seq<char>>| r.memory_root@ == #[trigger] claude_root(
                home,
                tool_dir@,
                workspace@,
            ),
            r.index_filename@ == DEFAULT_INDEX_FILENAME@,
            r.prompt_template@ == CLAUDE_COMPATIBLE_TEMPLATE@,
    {
        MemoryConfig::claude_compatible_in(home_dir(), workspace, tool_dir)
    }

    /// Configuration for `workspace` under the home directory `home`; without
    /// one, under the current directory.
    pub fn claude_compatible_in(home: Option<String>, workspace: &str, tool_dir: &str) -> (r: Self)
        ensures
            r.memory_root@ == claude_root(opt_text(home), tool_dir@, workspace@),
            r.index_filename@ == DEFAULT_INDEX_FILENAME@,
            r.prompt_template@ == CLAUDE_COMPATIBLE_TEMPLATE@,
    {
        let h = match home {
            Some(s) => s,
            None => ".".to_owned(),
        };
        let a = join_path(h.as_str(), tool_dir);
        let b = join_path(a.as_str(), "projects");
        let c = join_path(b.as_str(), project_slug(workspace).as_str());
        let d = join_path(c.as_str(), "memory");
        MemoryConfig::custom(d, CLAUDE_COMPATIBLE_TEMPLATE.to_owned())
    }

    /// Custom configuration: the caller computes `memory_root` and supplies
    /// the prompt template.
    pub fn custom(memory_root: String, prompt_template: String) -> (r: Self)
        ensures
            r.memory_root == memory_root,
            r.prompt_template == prompt_template,
            r.index_filename@ == DEFAULT_INDEX_FILENAME@,
    {
        MemoryConfig {
            memory_root,
            index_filename: DEFAULT_INDEX_FILENAME.to_owned(),
            prompt_template,
        }
    }
}

// ---------------------------------------------------------------------------
// Files
// ---------------------------------------------------------------------------

/// A file found in the memory directory.
pub struct ScannedFile {
    /// The file's own name, without its directory.
    pub file_name: String,
    /// The document in it, where it holds one.
    pub doc: Option<MemoryDoc>,
}

/// The last position of `c` below `n`.
pub open spec fn last_char(s: Seq<char>, c: char, n: int) -> Option<int>
    decreases n,
{
    if n <= 0 || n > s.len() {
        None
    } else if s[n - 1] == c {
        Some(n - 1)
    } else {
        last_char(s, c, n - 1)
    }
}

/// A file name without its extension.  A dot at the very start begins no
/// extension.
pub open spec fn stem(name: Seq<char>) -> Seq<char> {
    match last_char(name, '.', name.len() as int) {
        Some(k) => if k > 0 {
            name.take(k)
        } else {
            name
        },
        None => name,
    }
}

/// The extension of a file name.
pub open spec fn extension(name: Seq<char>) -> Option<Seq<char>> {
    match last_char(name, '.', name.len() as int) {
        Some(k) => if k > 0 {
            Some(name.skip(k + 1))
        } else {
            None
        },
        None => None,
    }
}

proof fn lemma_last_char(s: Seq<char>, c: char, n: int)
    ensures
        last_char(s, c, n) matches Some(k) ==> 0 <= k < n <= s.len() && s[k] == c,
    decreases n,
{
    if 0 < n <= s.len() && s[n - 1] != c {
        lemma_last_char(s, c, n - 1);
    }
}

fn find_last(v: &Vec<char>, c: char) -> (r: Option<usize>)
    ensures
        match r {
            Some(k) => last_char(v@, c, v@.len() as int) == Some(k as int) && k < v@.len(),
            None => last_char(v@, c, v@.len() as int) is None,
        },
{
    let mut n: usize = v.len();
    while n > 0
        invariant
            n <= v@.len(),
            last_char(v@, c, v@.len() as int) == last_char(v@, c, n as int),
        decreases n,
    {
        if v[n - 1] == c {
            return Some(n - 1);
        }
        n -= 1;
    }
    None
}

/// Whether a file may hold a memory: Markdown, and not the index.
pub open spec fn is_candidate(f: ScannedFile, index_filename: Seq<char>) -> bool {
    extension(f.file_name@) == Some("md"@) && f.file_name@ != index_filename
}

fn candidate(f: &ScannedFile, index_filename: &str) -> (r: bool)
    ensures
        r == is_candidate(*f, index_filename@),
{
    let v = chars_of(f.file_name.as_str());
    match find_last(&v, '.') {
        Some(k) => {
            if k == 0 {
                return false;
            }
            let total: usize = v.len();
            let ext = string_of(&v, k + 1, total);
            assert(ext@ == f.file_name@.skip(k + 1));
            same_text(ext.as_str(), "md") && !same_text(f.file_name.as_str(), index_filename)
        },
        None => false,
    }
}

fn stem_text(name: &str) -> (r: String)
    ensures
        r@ == stem(name@),
{
    let v = chars_of(name);
    match find_last(&v, '.') {
        Some(k) => {
            if k == 0 {
                return name.to_owned();
            }
            let r = string_of(&v, 0, k);
            assert(r@ == name@.take(k as int));
            r
        },
        None => name.to_owned(),
    }
}

/// The name of the sibling file that new content goes to before it takes the
/// place of `file_name`: dot first, so that it is never taken for a memory.
pub fn tmp_file_name(file_name: Option<String>, unique: u64) -> (r: String)
    ensures
        r@ == "."@ + (match opt_text(file_name) {
            Some(s) => s,
            None => "memory-index"@,
        }) + "."@ + decimal(unique as nat) + ".tmp"@,
{
    let base = match file_name {
        Some(s) => s,
        None => "memory-index".to_owned(),
    };
    let mut r = ".".to_owned();
    r.append(base.as_str());
    r.append(".");
    r.append(decimal_text(unique).as_str());
    r.append(".tmp");
    r
}

// ---------------------------------------------------------------------------
// Rebuilding the index
// ---------------------------------------------------------------------------

/// Whether a file gets a row when the index is rebuilt: it holds a document
/// that carries the file's own name, so that the row's link leads to it.
pub open spec fn gets_row(f: ScannedFile, index_filename: Seq<char>) -> bool {
    &&& is_candidate(f, index_filename)
    &&& f.doc matches Some(d)
    &&& stem(f.file_name@) == d.name@
}

/// The row of a document: its name is its title, since titles live only in the
/// index.
pub open spec fn rebuilt_row(d: MemoryDoc) -> Seq<char> {
    row(d.name@, d.name@, row_desc(d.description@))
}

/// The rows of the first `n` files.
pub open spec fn rebuilt_rows(
    files: Seq<ScannedFile>,
    index_filename: Seq<char>,
    n: int,
) -> Seq<Seq<char>>
    decreases n,
{
    if n <= 0 || n > files.len() {
        Seq::empty()
    } else if gets_row(files[n - 1], index_filename) {
        rebuilt_rows(files, index_filename, n - 1).push(rebuilt_row(files[n - 1].doc->0))
    } else {
        rebuilt_rows(files, index_filename, n - 1)
    }
}

/// The rebuilt index: the rows in order, each ended.
pub open spec fn rebuilt_index(files: Seq<ScannedFile>, index_filename: Seq<char>) -> Seq<char> {
    let rows = rebuilt_rows(files, index_filename, files.len() as int);
    if rows.len() == 0 {
        Seq::empty()
    } else {
        joined(in_order(rows, rows), "\n"@) + "\n"@
    }
}

/// Rebuilds the index from the files of the memory directory.
///
/// Titles written by hand are lost; the memories themselves are untouched.
pub fn rebuild_index(files: &Vec<ScannedFile>, index_filename: &str) -> (r: String)
    ensures
        r@ == rebuilt_index(files@, index_filename@),
{
    let mut rows: Vec<String> = Vec::new();
    let mut i: usize = 0;
    assert(texts(rows@) == rebuilt_rows(files@, index_filename@, 0));
    while i < files.len()
        invariant
            i <= files@.len(),
            texts(rows@) == rebuilt_rows(files@, index_filename@, i as int),
        decreases files@.len() - i,
    {
        let ghost before = texts(rows@);
        let f = &files[i];
        if candidate(f, index_filename) {
            if let Some(d) = &f.doc {
                if same_text(stem_text(f.file_name.as_str()).as_str(), d.name.as_str()) {
                    let desc = index_line_desc(d.description.as_str());
                    let line = index_row(d.name.as_str(), d.name.as_str(), desc.as_str());
                    rows.push(line);
                    assert(texts(rows@) == before.push(line@));
                }
            }
        }
        i += 1;
    }
    let ghost all = texts(rows@);
    if rows.len() == 0 {
        return String::new();
    }
    let order = sorted_positions(&rows);
    let mut sorted: Vec<String> = Vec::new();
    let mut k: usize = 0;
    while k < order.len()
        invariant
            k <= order@.len(),
            all == texts(rows@),
            order@ == order_of(all, all.len() as int),
            forall|i: int| 0 <= i < order@.len() ==> #[trigger] order@[i] < rows@.len(),
            texts(sorted@) == in_order(all, all).take(k as int),
        decreases order@.len() - k,
    {
        let ghost before = texts(sorted@);
        let line = rows[order[k]].clone();
        sorted.push(line);
        k += 1;
        assert(texts(sorted@) == before.push(line@));
        assert(in_order(all, all).take(k as int) == in_order(all, all).take(k - 1).push(
            in_order(all, all)[k - 1],
        ));
    }
    assert(in_order(all, all).take(in_order(all, all).len() as int) == in_order(all, all));
    let mut r = join(&sorted, "\n");
    r.append("\n");
    r
}

/// A rebuilt row never dangles: the file its link leads to is there.
pub proof fn law_rebuilt_rows_resolve(f: ScannedFile, index_filename: Seq<char>)
    requires
        gets_row(f, index_filename),
    ensures
        f.file_name@ == (f.doc->0).name@ + ".md"@,
{
    let s = f.file_name@;
    reveal_strlit("md");
    reveal_strlit(".md");
    lemma_last_char(s, '.', s.len() as int);
    match last_char(s, '.', s.len() as int) {
        Some(k) => {
            assert(s.skip(k + 1) == "md"@);
            assert(s =~= s.take(k) + seq![s[k]] + s.skip(k + 1));
            assert(seq!['.'] + "md"@ =~= ".md"@);
            assert(s =~= s.take(k) + ".md"@);
        },
        None => {},
    }
}

// ---------------------------------------------------------------------------
// The store
// ---------------------------------------------------------------------------

/// One memory directory.
pub struct MemoryStore {
    memory_root: String,
    index_filename: String,
}

/// A row in the memory listing.
#[derive(Debug, PartialEq)]
pub struct MemoryListEntry {
    pub name: String,
    pub description: String,
    pub memory_type: Option<String>,
    pub modified: Option<String>,
}

/// The mathematical value of a [`MemoryListEntry`].
pub struct EntryView {
    pub name: Seq<char>,
    pub description: Seq<char>,
    pub memory_type: Option<Seq<char>>,
    pub modified: Option<Seq<char>>,
}

impl View for MemoryListEntry {
    type V = EntryView;

    open spec fn view(&self) -> EntryView {
        EntryView {
            name: self.name@,
            description: self.description@,
            memory_type: opt_text(self.memory_type),
            modified: opt_text(self.modified),
        }
    }
}

/// One thing to do to the memory directory.
#[derive(Debug, PartialEq)]
pub enum StoreStep {
    /// Create the directory where it is missing.
    EnsureDir { path: String },
    /// Write a memory's file, all at once.
    WriteFile { path: String, content: String },
    /// Add or update a memory's row in the index.
    AddRow { name: String, description: String },
    /// Remove a memory's row from the index.
    RemoveRow { name: String },
    /// Remove a memory's file.
    RemoveFile { path: String },
}

/// The mathematical value of a [`StoreStep`].
#[allow(inconsistent_fields)]
pub enum StepView {
    EnsureDir { path: Seq<char> },
    WriteFile { path: Seq<char>, content: Seq<char> },
    AddRow { name: Seq<char>, description: Seq<char> },
    RemoveRow { name: Seq<char> },
    RemoveFile { path: Seq<char> },
}

impl View for StoreStep {
    type V = StepView;

    open spec fn view(&self) -> StepView {
        match *self {
            StoreStep::EnsureDir { path } => StepView::EnsureDir { path: path@ },
            StoreStep::WriteFile { path, content } => StepView::WriteFile {
                path: path@,
                content: content@,
            },
            StoreStep::AddRow { name, description } => StepView::AddRow {
                name: name@,
                description: description@,
            },
            StoreStep::RemoveRow { name } => StepView::RemoveRow { name: name@ },
            StoreStep::RemoveFile { path } => StepView::RemoveFile { path: path@ },
        }
    }
}

pub open spec fn step_views(steps: Seq<StoreStep>) -> Seq<StepView> {
    Seq::new(steps.len(), |i: int| steps[i]@)
}

pub const MULTILINE_DESCRIPTION: &'static str = "invalid memory description: must be a single line (no newlines)";

/// Why a write is refused, if it is: its name, its type and its description
/// are looked at in that order.
pub open spec fn write_refusal(
    name: Seq<char>,
    description: Seq<char>,
    memory_type: Seq<char>,
) -> Option<Seq<char>> {
    if !valid_name(name) {
        Some(invalid_name_text(name))
    } else if !valid_type(memory_type) {
        Some(invalid_type_text(memory_type))
    } else if description.contains('\n') {
        Some(MULTILINE_DESCRIPTION@)
    } else {
        None
    }
}

/// The steps of a write: the file first, the row second, so that a row never
/// stands without its file.
pub open spec fn write_steps(
    root: Seq<char>,
    name: Seq<char>,
    description: Seq<char>,
    content: Seq<char>,
) -> Seq<StepView> {
    seq![
        StepView::EnsureDir { path: root },
        StepView::WriteFile { path: memory_file(root, name), content },
        StepView::AddRow { name, description },
    ]
}

/// What a write comes to at the moment `now`.
pub open spec fn write_outcome(
    root: Seq<char>,
    name: Seq<char>,
    description: Seq<char>,
    memory_type: Seq<char>,
    body: Seq<char>,
    origin: Option<Seq<char>>,
    now: Seq<char>,
) -> Result<Seq<StepView>, Seq<char>> {
    match write_refusal(name, description, memory_type) {
        Some(e) => Err(e),
        None => match frontmatter_yaml(name, description, memory_type, origin, Some(now)) {
            Ok(yaml) => Ok(write_steps(root, name, description, file_text(yaml, body))),
            Err(e) => Err("failed to serialize memory frontmatter: "@ + e),
        },
    }
}

/// What is said of a memory that is not there.
pub open spec fn not_found_text(root: Seq<char>, name: Seq<char>) -> Seq<char> {
    "memory `"@ + name + "` not found (looked at "@ + memory_file(root, name) + ")"@
}

pub open spec fn steps_follow(
    r: Result<Vec<StoreStep>, AgentError>,
    want: Result<Seq<StepView>, Seq<char>>,
) -> bool {
    match want {
        Ok(steps) => r matches Ok(v) && step_views(v@) == steps,
        Err(e) => r matches Err(x) && x@ == ErrorView::Internal(e),
    }
}

/// Whether the file that a write makes, if it makes one, splits into the
/// frontmatter `yaml` and the body it was given.
pub open spec fn reads_back(
    r: Result<Vec<StoreStep>, AgentError>,
    yaml: Result<Seq<char>, Seq<char>>,
    body: Seq<char>,
) -> bool {
    r matches Ok(v) ==> {
        &&& step_views(v@)[1] matches StepView::WriteFile { path, content }
        &&& yaml matches Ok(y)
        &&& split_of(content) == Some((y, without_leading(body, only('\n'))))
    }
}

/// What the listing says of a document.
pub open spec fn entry_of(d: MemoryDoc) -> EntryView {
    EntryView {
        name: d.name@,
        description: d.description@,
        memory_type: match d.metadata {
            Some(m) => Some(m.memory_type@),
            None => None,
        },
        modified: match d.metadata {
            Some(m) => opt_text(m.modified),
            None => None,
        },
    }
}

/// The entries of the first `n` files: those that hold a document.
pub open spec fn entries_of(
    files: Seq<ScannedFile>,
    index_filename: Seq<char>,
    n: int,
) -> Seq<EntryView>
    decreases n,
{
    if n <= 0 || n > files.len() {
        Seq::empty()
    } else if is_candidate(files[n - 1], index_filename) && files[n - 1].doc is Some {
        entries_of(files, index_filename, n - 1).push(entry_of(files[n - 1].doc->0))
    } else {
        entries_of(files, index_filename, n - 1)
    }
}

pub open spec fn entry_names(e: Seq<EntryView>) -> Seq<Seq<char>> {
    Seq::new(e.len(), |i: int| e[i].name)
}

pub open spec fn entry_views(e: Seq<MemoryListEntry>) -> Seq<EntryView> {
    Seq::new(e.len(), |i: int| e[i]@)
}

impl MemoryStore {
    /// The memory directory.
    pub closed spec fn root(&self) -> Seq<char> {
        self.memory_root@
    }

    /// The name of the index file.
    pub closed spec fn index_name(&self) -> Seq<char> {
        self.index_filename@
    }

    pub fn new(memory_root: String, index_filename: String) -> (r: Self)
        ensures
            r.root() == memory_root@,
            r.index_name() == index_filename@,
    {
        MemoryStore { memory_root, index_filename }
    }

    pub fn memory_root(&self) -> (r: &str)
        ensures
            r@ == self.root(),
    {
        self.memory_root.as_str()
    }

    pub fn index_filename(&self) -> (r: &str)
        ensures
            r@ == self.index_name(),
    {
        self.index_filename.as_str()
    }

    pub fn index_path(&self) -> (r: String)
        ensures
            r@ == joined_path(self.root(), self.index_name()),
    {
        join_path(self.memory_root.as_str(), self.index_filename.as_str())
    }

    /// The file of the memory `name`.
    pub fn memory_path(&self, name: &str) -> (r: String)
        ensures
            r@ == memory_file(self.root(), name@),
    {
        let mut file = name.to_owned();
        file.append(".md");
        join_path(self.memory_root.as_str(), file.as_str())
    }

    /// Creates or overwrites the memory `name` and its row in the index, as
    /// modified now.
    pub fn write_memory(
        &self,
        name: &str,
        description: &str,
        memory_type: &str,
        body: &str,
        origin_session_id: Option<&str>,
    ) -> (r: Result<Vec<StoreStep>, AgentError>)
        ensures
            exists|now: Seq<char>, secs: i64, millis: u32|
                #![trigger is_iso8601(now, secs as int, millis as int)]
                {
                    &&& millis < 1000
                    &&& is_iso8601(now, secs as int, millis as int)
                    &&& steps_follow(
                        r,
                        write_outcome(
                            self.root(),
                            name@,
                            description@,
                            memory_type@,
                            body@,
                            opt_str(origin_session_id),
                            now,
                        ),
                    )
                    &&& reads_back(
                        r,
                        frontmatter_yaml(
                            name@,
                            description@,
                            memory_type@,
                            opt_str(origin_session_id),
                            Some(now),
                        ),
                        body@,
                    )
                },
    {
        let now = now_iso8601();
        proof {
            lemma_iso8601_one_line(now@);
        }
        self.write_memory_at(
            name,
            description,
            memory_type,
            body,
            origin_session_id,
            now.as_str(),
        )
    }

    /// Creates or overwrites the memory `name` and its row in the index, as
    /// modified at `now`.
    pub fn write_memory_at(
        &self,
        name: &str,
        description: &str,
        memory_type: &str,
        body: &str,
        origin_session_id: Option<&str>,
        now: &str,
    ) -> (r: Result<Vec<StoreStep>, AgentError>)
        ensures
            steps_follow(
                r,
                write_outcome(
                    self.root(),
                    name@,
                    description@,
                    memory_type@,
                    body@,
                    opt_str(origin_session_id),
                    now@,
                ),
            ),
            plain_end(now@) ==> reads_back(
                r,
                frontmatter_yaml(
                    name@,
                    description@,
                    memory_type@,
                    opt_str(origin_session_id),
                    Some(now@),
                ),
                body@,
            ),
    {
        if let Err(e) = validate_memory_name(name) {
            return Err(e);
        }
        if let Err(e) = validate_memory_type(memory_type) {
            return Err(e);
        }
        if contains_char(description, '\n') {
            return Err(AgentError::Internal(MULTILINE_DESCRIPTION.to_owned()));
        }
        let content = match render_memory_file(
            name,
            description,
            memory_type,
            origin_session_id,
            Some(now),
            body,
        ) {
            Ok(s) => s,
            Err(e) => {
                return Err(e);
            },
        };
        let mut steps: Vec<StoreStep> = Vec::new();
        steps.push(StoreStep::EnsureDir { path: self.memory_root.clone() });
        steps.push(StoreStep::WriteFile { path: self.memory_path(name), content });
        steps.push(
            StoreStep::AddRow { name: name.to_owned(), description: description.to_owned() },
        );
        assert(step_views(steps@) =~= write_steps(self.root(), name@, description@, content@));
        Ok(steps)
    }

    fn not_found(&self, name: &str) -> (r: AgentError)
        ensures
            r@ == ErrorView::Internal(not_found_text(self.root(), name@)),
    {
        let mut m = "memory `".to_owned();
        m.append(name);
        m.append("` not found (looked at ");
        m.append(self.memory_path(name).as_str());
        m.append(")");
        AgentError::Internal(m)
    }

    /// What reading the memory `name` gives, where `content` is what its file
    /// holds, if it could be read: the raw content.
    pub fn read_memory(&self, name: &str, content: Option<String>) -> (r: Result<String, AgentError>)
        ensures
            match r {
                Ok(s) => valid_name(name@) && content == Some(s),
                Err(e) => if !valid_name(name@) {
                    e@ == ErrorView::Internal(invalid_name_text(name@))
                } else {
                    content is None && e@ == ErrorView::Internal(
                        not_found_text(self.root(), name@),
                    )
                },
            },
    {
        if let Err(e) = validate_memory_name(name) {
            return Err(e);
        }
        match content {
            Some(s) => Ok(s),
            None => Err(self.not_found(name)),
        }
    }

    /// Deletes the memory `name`, where `exists` says whether its file is
    /// there: its row first, the file second, so that a row never stands
    /// without its file.
    pub fn delete_memory(&self, name: &str, exists: bool) -> (r: Result<Vec<StoreStep>, AgentError>)
        ensures
            steps_follow(
                r,
                if !valid_name(name@) {
                    Err(invalid_name_text(name@))
                } else if !exists {
                    Err(not_found_text(self.root(), name@))
                } else {
                    Ok(delete_steps(self.root(), name@))
                },
            ),
    {
        if let Err(e) = validate_memory_name(name) {
            return Err(e);
        }
        if !exists {
            return Err(self.not_found(name));
        }
        let mut steps: Vec<StoreStep> = Vec::new();
        steps.push(StoreStep::RemoveRow { name: name.to_owned() });
        steps.push(StoreStep::RemoveFile { path: self.memory_path(name) });
        assert(step_views(steps@) =~= delete_steps(self.root(), name@));
        Ok(steps)
    }

    /// Lists the memories among the files of the directory, sorted by name.
    /// Files that hold no document are skipped.
    pub fn list_memories(&self, files: &Vec<ScannedFile>) -> (r: Vec<MemoryListEntry>)
        ensures
            ({
                let all = entries_of(files@, self.index_name(), files@.len() as int);
                entry_views(r@) == in_order(all, entry_names(all))
            }),
    {
        let mut found: Vec<MemoryListEntry> = Vec::new();
        let mut names: Vec<String> = Vec::new();
        let mut i: usize = 0;
        assert(entry_views(found@) == entries_of(files@, self.index_name(), 0));
        assert(texts(names@) == entry_names(entry_views(found@)));
        while i < files.len()
            invariant
                i <= files@.len(),
                entry_views(found@) == entries_of(files@, self.index_name(), i as int),
                texts(names@) == entry_names(entry_views(found@)),
            decreases files@.len() - i,
        {
            let ghost before = entry_views(found@);
            let ghost before_names = texts(names@);
            let f = &files[i];
            if candidate(f, self.index_filename.as_str()) {
                if let Some(d) = &f.doc {
                    let entry = list_entry(d);
                    names.push(d.name.clone());
                    found.push(entry);
                    assert(entry_views(found@) == before.push(entry@));
                    assert(texts(names@) == before_names.push(d.name@));
                    assert(texts(names@) == entry_names(entry_views(found@)));
                }
            }
            i += 1;
        }
        let ghost all = entry_views(found@);
        let ghost keys = texts(names@);
        let order = sorted_positions(&names);
        let mut out: Vec<MemoryListEntry> = Vec::new();
        let mut k: usize = 0;
        while k < order.len()
            invariant
                k <= order@.len(),
                all == entry_views(found@),
                keys == texts(names@),
                keys == entry_names(all),
                names@.len() == found@.len(),
                order@ == order_of(keys, keys.len() as int),
                forall|i: int| 0 <= i < order@.len() ==> #[trigger] order@[i] < found@.len(),
                entry_views(out@) == in_order(all, keys).take(k as int),
            decreases order@.len() - k,
        {
            let ghost before = entry_views(out@);
            let e = copy_entry(&found[order[k]]);
            out.push(e);
            k += 1;
            assert(entry_views(out@) == before.push(e@));
            assert(in_order(all, keys).take(k as int) == in_order(all, keys).take(k - 1).push(
                in_order(all, keys)[k - 1],
            ));
        }
        assert(in_order(all, keys).take(in_order(all, keys).len() as int) == in_order(all, keys));
        out
    }
}

fn list_entry(d: &MemoryDoc) -> (r: MemoryListEntry)
    ensures
        r@ == entry_of(*d),
{
    let (memory_type, modified) = match &d.metadata {
        Some(m) => (Some(m.memory_type.clone()), clone_opt(&m.modified)),
        None => (None, None),
    };
    MemoryListEntry {
        name: d.name.clone(),
        description: d.description.clone(),
        memory_type,
        modified,
    }
}

fn copy_entry(e: &MemoryListEntry) -> (r: MemoryListEntry)
    ensures
        r@ == e@,
{
    MemoryListEntry {
        name: e.name.clone(),
        description: e.description.clone(),
        memory_type: clone_opt(&e.memory_type),
        modified: clone_opt(&e.modified),
    }
}

/// The steps of a deletion.
pub open spec fn delete_steps(root: Seq<char>, name: Seq<char>) -> Seq<StepView> {
    seq![StepView::RemoveRow { name }, StepView::RemoveFile { path: memory_file(root, name) }]
}

// ---------------------------------------------------------------------------
// Laws
// ---------------------------------------------------------------------------

/// What is on disk: the memory files there are, with their content, by path,
/// and the text of the index.
pub struct Disk {
    pub files: Map<Seq<char>, Seq<char>>,
    pub index: Seq<char>,
}

/// A disk with nothing on it.
pub open spec fn empty_disk() -> Disk {
    Disk { files: Map::empty(), index: Seq::empty() }
}

/// The disk after one step.
pub open spec fn after_step(disk: Disk, step: StepView) -> Disk {
    match step {
        StepView::EnsureDir { path } => disk,
        StepView::WriteFile { path, content } => Disk {
            files: disk.files.insert(path, content),
            ..disk
        },
        StepView::AddRow { name, description } => Disk {
            index: index_added(disk.index, name, description),
            ..disk
        },
        StepView::RemoveRow { name } => Disk { index: index_removed(disk.index, name), ..disk },
        StepView::RemoveFile { path } => Disk { files: disk.files.remove(path), ..disk },
    }
}

/// The disk after the first `n` steps.
pub open spec fn after_steps(disk: Disk, steps: Seq<StepView>, n: int) -> Disk
    decreases n,
{
    if n <= 0 || n > steps.len() {
        disk
    } else {
        after_step(after_steps(disk, steps, n - 1), steps[n - 1])
    }
}

/// Whether the index has a row for `name`.
pub open spec fn indexed(disk: Disk, name: Seq<char>) -> bool {
    has_row(rows_of(disk.index), name)
}

/// Every memory that has a row has its file.
pub open spec fn no_dangling_row(root: Seq<char>, disk: Disk) -> bool {
    forall|n: Seq<char>|
        valid_name(n) && #[trigger] indexed(disk, n) ==> disk.files.contains_key(
            memory_file(root, n),
        )
}

/// A write that stops after any of its steps leaves no row without its file.
pub proof fn law_write_never_dangles(
    root: Seq<char>,
    disk: Disk,
    name: Seq<char>,
    description: Seq<char>,
    content: Seq<char>,
    n: int,
)
    requires
        no_dangling_row(root, disk),
        valid_name(name),
        0 <= n <= 3,
    ensures
        no_dangling_row(root, after_steps(disk, write_steps(root, name, description, content), n)),
{
    let s = write_steps(root, name, description, content);
    reveal_with_fuel(after_steps, 4);
    assert(s.len() == 3);
    let d = after_steps(disk, s, n);
    assert forall|m: Seq<char>| valid_name(m) && #[trigger] indexed(d, m) implies d.files.contains_key(
        memory_file(root, m),
    ) by {
        if m != name {
            law_other_memories_keep_their_rows(disk.index, name, description, m);
            assert(indexed(disk, m));
        } else if n < 3 {
            assert(indexed(disk, m));
        }
    }
}

/// A deletion that stops after any of its steps leaves no row without its
/// file.
pub proof fn law_delete_never_dangles(root: Seq<char>, disk: Disk, name: Seq<char>, n: int)
    requires
        no_dangling_row(root, disk),
        valid_name(name),
        0 <= n <= 2,
    ensures
        no_dangling_row(root, after_steps(disk, delete_steps(root, name), n)),
{
    let s = delete_steps(root, name);
    reveal_with_fuel(after_steps, 3);
    assert(s.len() == 2);
    let d = after_steps(disk, s, n);
    assert forall|m: Seq<char>| valid_name(m) && #[trigger] indexed(d, m) implies d.files.contains_key(
        memory_file(root, m),
    ) by {
        if m != name {
            law_other_memories_keep_their_rows(disk.index, name, seq![], m);
            assert(indexed(disk, m));
            if memory_file(root, m) == memory_file(root, name) {
                law_files_tell_names_apart(root, m, name);
            }
        } else {
            law_removed_row_is_gone(disk.index, name);
            assert(n == 0);
            assert(indexed(disk, m));
        }
    }
}

/// The names and descriptions that the first `n` steps add rows for.
pub open spec fn rows_added(steps: Seq<StepView>, n: int) -> Seq<(Seq<char>, Seq<char>)>
    decreases n,
{
    if n <= 0 || n > steps.len() {
        Seq::empty()
    } else {
        match steps[n - 1] {
            StepView::AddRow { name, description } => rows_added(steps, n - 1).push(
                (name, description),
            ),
            _ => rows_added(steps, n - 1),
        }
    }
}

/// Whether the steps are those of writes, in any order in which the writes'
/// own steps may come to lie between each other: every row is added after its
/// memory's file was written.
pub open spec fn steps_of_writes(root: Seq<char>, steps: Seq<StepView>) -> bool {
    forall|i: int|
        0 <= i < steps.len() ==> match #[trigger] steps[i] {
            StepView::EnsureDir { path } => true,
            StepView::WriteFile { path, content } => true,
            StepView::AddRow { name, description } => valid_name(name) && exists|j: int|
                0 <= j < i && #[trigger] writes_file(steps[j], memory_file(root, name)),
            _ => false,
        }
}

/// Whether a step writes the file at `path`.
pub open spec fn writes_file(step: StepView, path: Seq<char>) -> bool {
    step matches StepView::WriteFile { path: p, content } && p == path
}

/// After any number of writes to an empty store, however their steps lie
/// between each other, the index is the rows of what the writes came to, one
/// for each name written and none for any other; every name written has its
/// file, and every file holds what one write of it put there, whole.
pub proof fn law_writes_keep_the_store_complete(root: Seq<char>, steps: Seq<StepView>)
    requires
        steps_of_writes(root, steps),
    ensures
        ({
            let disk = after_steps(empty_disk(), steps, steps.len() as int);
            let writes = rows_added(steps, steps.len() as int);
            &&& disk.index == index_text(last_writes(writes))
            &&& names_differ(last_writes(writes))
            &&& forall|name: Seq<char>| #[trigger]
                names_hold(last_writes(writes), name) <==> names_hold(writes, name)
            &&& forall|name: Seq<char>| #[trigger]
                indexed(disk, name) <==> names_hold(writes, name)
            &&& forall|name: Seq<char>| #[trigger]
                names_hold(writes, name) ==> disk.files.contains_key(memory_file(root, name))
            &&& forall|path: Seq<char>| #[trigger]
                disk.files.contains_key(path) ==> steps.contains(
                    StepView::WriteFile { path, content: disk.files[path] },
                )
        }),
{
    let n = steps.len() as int;
    let writes = rows_added(steps, n);
    let disk = after_steps(empty_disk(), steps, n);
    lemma_writes(root, steps, n);
    law_index_follows_writes(writes);
    assert forall|path: Seq<char>| #[trigger] disk.files.contains_key(path) implies steps.contains(
        StepView::WriteFile { path, content: disk.files[path] },
    ) by {
        let j = choose|j: int|
            0 <= j < n && #[trigger] steps[j] == (StepView::WriteFile {
                path,
                content: disk.files[path],
            });
        assert(steps[j] == (StepView::WriteFile { path, content: disk.files[path] }));
    }
}

proof fn lemma_writes(root: Seq<char>, steps: Seq<StepView>, n: int)
    requires
        steps_of_writes(root, steps),
        0 <= n <= steps.len(),
    ensures
        ({
            let disk = after_steps(empty_disk(), steps, n);
            let writes = rows_added(steps, n);
            &&& disk.index == index_after(writes)
            &&& valid_names(writes)
            &&& forall|name: Seq<char>| #[trigger]
                names_hold(writes, name) ==> disk.files.contains_key(memory_file(root, name))
            &&& forall|path: Seq<char>| #[trigger]
                disk.files.contains_key(path) ==> exists|j: int|
                    0 <= j < n && #[trigger] steps[j] == (StepView::WriteFile {
                        path,
                        content: disk.files[path],
                    })
            &&& forall|j: int, path: Seq<char>|
                0 <= j < n && #[trigger] writes_file(steps[j], path) ==> disk.files.contains_key(
                    path,
                )
        }),
    decreases n,
{
    let disk = after_steps(empty_disk(), steps, n);
    let writes = rows_added(steps, n);
    if n > 0 {
        lemma_writes(root, steps, n - 1);
        let d = after_steps(empty_disk(), steps, n - 1);
        let w = rows_added(steps, n - 1);
        let step = steps[n - 1];
        match step {
            StepView::AddRow { name, description } => {
                assert(writes.drop_last() =~= w);
                let j = choose|j: int|
                    0 <= j < n - 1 && #[trigger] writes_file(steps[j], memory_file(root, name));
                assert(d.files.contains_key(memory_file(root, name)));
                assert forall|i: int| 0 <= i < writes.len() implies valid_name(
                    (#[trigger] writes[i]).0,
                ) by {
                    if i < w.len() {
                        assert(writes[i] == w[i]);
                    }
                }
                assert forall|m: Seq<char>| #[trigger] names_hold(writes, m) implies disk.files.contains_key(
                    memory_file(root, m),
                ) by {
                    let i = choose|i: int| 0 <= i < writes.len() && (#[trigger] writes[i]).0 == m;
                    if i < w.len() {
                        assert(w[i].0 == m);
                        assert(names_hold(w, m));
                    }
                }
            },
            _ => {
                assert forall|m: Seq<char>| #[trigger] names_hold(writes, m) implies disk.files.contains_key(
                    memory_file(root, m),
                ) by {
                    assert(names_hold(w, m));
                }
            },
        }
        assert forall|path: Seq<char>| #[trigger] disk.files.contains_key(path) implies exists|j: int|
            0 <= j < n && #[trigger] steps[j] == (StepView::WriteFile {
                path,
                content: disk.files[path],
            }) by {
            if writes_file(step, path) {
                assert(steps[n - 1] == (StepView::WriteFile { path, content: disk.files[path] }));
            } else {
                assert(d.files.contains_key(path));
                assert(d.files[path] == disk.files[path]);
                let j = choose|j: int|
                    0 <= j < n - 1 && #[trigger] steps[j] == (StepView::WriteFile {
                        path,
                        content: d.files[path],
                    });
                assert(steps[j] == (StepView::WriteFile { path, content: disk.files[path] }));
            }
        }
        assert forall|j: int, path: Seq<char>|
            0 <= j < n && #[trigger] writes_file(steps[j], path) implies disk.files.contains_key(
            path,
        ) by {
            if j < n - 1 {
                assert(d.files.contains_key(path));
            }
        }
    }
}

/// Nothing is written for a refused request: it has no steps.
pub proof fn law_refused_write_does_nothing(
    root: Seq<char>,
    name: Seq<char>,
    description: Seq<char>,
    memory_type: Seq<char>,
    body: Seq<char>,
    origin: Option<Seq<char>>,
    now: Seq<char>,
)
    requires
        !valid_name(name) || !valid_type(memory_type) || description.contains('\n'),
    ensures
        write_outcome(root, name, description, memory_type, body, origin, now) is Err,
{
}

/// The listing is sorted by name, and it lists every entry once.
pub proof fn law_listing_is_sorted(all: Seq<EntryView>)
    requires
        all.len() <= usize::MAX,
    ensures
        in_order(all, entry_names(all)).len() == all.len(),
        forall|i: int, j: int|
            0 <= i < j < all.len() ==> !crate::memory::order::before(
                (#[trigger] in_order(all, entry_names(all))[j]).name,
                (#[trigger] in_order(all, entry_names(all))[i]).name,
            ),
{
    let keys = entry_names(all);
    law_sorting(keys, keys.len() as int);
    let o = order_of(keys, keys.len() as int);
    let r = in_order(all, keys);
    assert forall|i: int, j: int| 0 <= i < j < all.len() implies !crate::memory::order::before(
        (#[trigger] r[j]).name,
        (#[trigger] r[i]).name,
    ) by {
        assert(o[i] < keys.len());
        assert(o[j] < keys.len());
        assert(keys[o[i] as int] == r[i].name);
        assert(keys[o[j] as int] == r[j].name);
    }
}

/// The listing has every memory: an entry for each file that holds a document,
/// and none besides.  Where every such file is named for its document and no
/// two files share a name, no two entries share one.
pub proof fn law_listing_has_every_memory(files: Seq<ScannedFile>, index_filename: Seq<char>)
    requires
        files.len() <= usize::MAX,
    ensures
        ({
            let all = entries_of(files, index_filename, files.len() as int);
            let listing = in_order(all, entry_names(all));
            &&& forall|i: int|
                0 <= i < files.len() && is_listed(#[trigger] files[i], index_filename)
                    ==> listing.contains(entry_of(files[i].doc->0))
            &&& forall|k: int|
                0 <= k < listing.len() ==> comes_from(
                    files,
                    index_filename,
                    files.len() as int,
                    #[trigger] listing[k],
                )
            &&& named_apart(files, index_filename) ==> forall|i: int, j: int|
                0 <= i < j < listing.len() ==> (#[trigger] listing[i]).name != (
                #[trigger] listing[j]).name
        }),
{
    let n = files.len() as int;
    let all = entries_of(files, index_filename, n);
    let keys = entry_names(all);
    let listing = in_order(all, keys);
    lemma_entries_of(files, index_filename, n);
    law_sorting(keys, keys.len() as int);
    let o = order_of(keys, keys.len() as int);
    assert forall|i: int|
        0 <= i < files.len() && is_listed(#[trigger] files[i], index_filename) implies listing.contains(
        entry_of(files[i].doc->0),
    ) by {
        let p = all.index_of(entry_of(files[i].doc->0));
        assert(o.contains(p as usize));
        let k = o.index_of(p as usize);
        assert(listing[k] == all[p]);
    }
    assert forall|k: int| 0 <= k < listing.len() implies comes_from(
        files,
        index_filename,
        n,
        #[trigger] listing[k],
    ) by {
        assert(o[k] < keys.len());
        assert(listing[k] == all[o[k] as int]);
    }
    if named_apart(files, index_filename) {
        assert forall|i: int, j: int| 0 <= i < j < listing.len() implies (#[trigger] listing[i]).name
            != (#[trigger] listing[j]).name by {
            assert(o[i] < keys.len());
            assert(o[j] < keys.len());
            assert(o[i] != o[j]);
            if o[i] < o[j] {
                assert(all[o[i] as int].name != all[o[j] as int].name);
            } else {
                assert(all[o[j] as int].name != all[o[i] as int].name);
            }
        }
    }
}

/// Whether a file gets an entry in the listing.
pub open spec fn is_listed(f: ScannedFile, index_filename: Seq<char>) -> bool {
    is_candidate(f, index_filename) && f.doc is Some
}

/// Whether an entry is that of one of the first `n` files.
pub open spec fn comes_from(
    files: Seq<ScannedFile>,
    index_filename: Seq<char>,
    n: int,
    e: EntryView,
) -> bool {
    exists|i: int|
        0 <= i < n && is_listed(#[trigger] files[i], index_filename) && e == entry_of(
            files[i].doc->0,
        )
}

/// Whether the files that are listed are named for their documents, and no two
/// of them alike.
pub open spec fn named_apart(files: Seq<ScannedFile>, index_filename: Seq<char>) -> bool {
    &&& forall|i: int|
        0 <= i < files.len() && is_listed(#[trigger] files[i], index_filename) ==> gets_row(
            files[i],
            index_filename,
        )
    &&& forall|i: int, j: int|
        0 <= i < j < files.len() && is_listed(#[trigger] files[i], index_filename) && is_listed(
            #[trigger] files[j],
            index_filename,
        ) ==> files[i].file_name@ != files[j].file_name@
}

proof fn lemma_entries_of(files: Seq<ScannedFile>, index_filename: Seq<char>, n: int)
    requires
        0 <= n <= files.len(),
    ensures
        ({
            let all = entries_of(files, index_filename, n);
            &&& all.len() <= n
            &&& forall|i: int|
                0 <= i < n && is_listed(#[trigger] files[i], index_filename) ==> all.contains(
                    entry_of(files[i].doc->0),
                )
            &&& forall|k: int|
                0 <= k < all.len() ==> comes_from(files, index_filename, n, #[trigger] all[k])
            &&& named_apart(files, index_filename) ==> forall|i: int, j: int|
                0 <= i < j < all.len() ==> (#[trigger] all[i]).name != (#[trigger] all[j]).name
        }),
    decreases n,
{
    if n > 0 {
        lemma_entries_of(files, index_filename, n - 1);
        let all = entries_of(files, index_filename, n);
        let b = entries_of(files, index_filename, n - 1);
        let f = files[n - 1];
        assert forall|i: int|
            0 <= i < n && is_listed(#[trigger] files[i], index_filename) implies all.contains(
            entry_of(files[i].doc->0),
        ) by {
            if i < n - 1 {
                let k = b.index_of(entry_of(files[i].doc->0));
                assert(all[k] == b[k]);
            } else {
                assert(all[all.len() - 1] == entry_of(f.doc->0));
            }
        }
        assert forall|k: int| 0 <= k < all.len() implies comes_from(
            files,
            index_filename,
            n,
            #[trigger] all[k],
        ) by {
            if k < b.len() {
                assert(all[k] == b[k]);
                assert(comes_from(files, index_filename, n - 1, b[k]));
            } else {
                assert(is_listed(files[n - 1], index_filename));
            }
        }
        if named_apart(files, index_filename) {
            assert forall|i: int, j: int| 0 <= i < j < all.len() implies (#[trigger] all[i]).name
                != (#[trigger] all[j]).name by {
                assert(all[i] == b[i]);
                if j < b.len() {
                    assert(all[j] == b[j]);
                    assert(b[i].name != b[j].name);
                } else {
                    assert(comes_from(files, index_filename, n - 1, b[i]));
                    let k = choose|k: int|
                        0 <= k < n - 1 && is_listed(#[trigger] files[k], index_filename) && b[i]
                            == entry_of(files[k].doc->0);
                    assert(is_listed(files[n - 1], index_filename));
                    law_rebuilt_rows_resolve(files[k], index_filename);
                    law_rebuilt_rows_resolve(f, index_filename);
                    assert(files[k].file_name@ != files[n - 1].file_name@);
                }
            }
        }
    }
}

/// What reading a file's content comes to, where `read` is what the YAML reader
/// makes of a frontmatter.
pub open spec fn doc_read(
    content: Seq<char>,
    read: spec_fn(Seq<char>) -> Option<FrontmatterView>,
) -> Option<DocView> {
    match split_of(content) {
        Some((yaml, body)) => doc_of(content, read(yaml)),
        None => None,
    }
}

/// What the listing says of a document that was read.
pub open spec fn entry_of_doc(d: DocView) -> EntryView {
    EntryView {
        name: d.name,
        description: d.description,
        memory_type: match d.metadata {
            Some(m) => Some(m.memory_type),
            None => None,
        },
        modified: match d.metadata {
            Some(m) => m.modified,
            None => None,
        },
    }
}

/// Whether `path` is the file of a memory of which a row is added, and `content`
/// reads as a document of its name.
pub open spec fn is_memory_file(
    root: Seq<char>,
    steps: Seq<StepView>,
    read: spec_fn(Seq<char>) -> Option<FrontmatterView>,
    path: Seq<char>,
    content: Seq<char>,
    name: Seq<char>,
) -> bool {
    &&& valid_name(name)
    &&& path == memory_file(root, name)
    &&& names_hold(rows_added(steps, steps.len() as int), name)
    &&& doc_read(content, read) matches Some(d) && d.name == name
}

/// Whether every file that the steps write is that of a memory whose row they
/// add, and reads as a document of its name: as [`render_memory_file`] says,
/// it does where the YAML reader gives the fields back and the description is
/// not empty.
pub open spec fn writes_are_whole(
    root: Seq<char>,
    steps: Seq<StepView>,
    read: spec_fn(Seq<char>) -> Option<FrontmatterView>,
) -> bool {
    forall|path: Seq<char>, content: Seq<char>| #[trigger]
        steps.contains(StepView::WriteFile { path, content }) ==> exists|name: Seq<char>| #[trigger]
            is_memory_file(root, steps, read, path, content, name)
}

/// Whether `files` is what is found in the memory directory: every file that is
/// there, once, and the document that its content reads as; the index may be
/// among them.
pub open spec fn is_scan(
    root: Seq<char>,
    index_filename: Seq<char>,
    disk: Disk,
    read: spec_fn(Seq<char>) -> Option<FrontmatterView>,
    files: Seq<ScannedFile>,
) -> bool {
    &&& forall|i: int|
        0 <= i < files.len() && (#[trigger] files[i]).file_name@ != index_filename ==> {
            let path = joined_path(root, files[i].file_name@);
            &&& !begins(files[i].file_name@, "/"@)
            &&& disk.files.contains_key(path)
            &&& match doc_read(disk.files[path], read) {
                Some(d) => files[i].doc matches Some(x) && x@ == d,
                None => files[i].doc is None,
            }
        }
    &&& forall|name: Seq<char>|
        valid_name(name) && #[trigger] disk.files.contains_key(memory_file(root, name))
            ==> exists|i: int|
            0 <= i < files.len() && (#[trigger] files[i]).file_name@ == name + ".md"@
    &&& forall|i: int, j: int|
        0 <= i < j < files.len() ==> (#[trigger] files[i]).file_name@ != (
        #[trigger] files[j]).file_name@
}

/// Whether an entry is that of the file of its name, as one write left it.
pub open spec fn entry_is_a_write(
    root: Seq<char>,
    steps: Seq<StepView>,
    read: spec_fn(Seq<char>) -> Option<FrontmatterView>,
    e: EntryView,
) -> bool {
    exists|content: Seq<char>| #[trigger]
        steps.contains(StepView::WriteFile { path: memory_file(root, e.name), content })
            && doc_read(content, read) is Some && e == entry_of_doc(doc_read(content, read)->0)
}

/// Whether `name` is that of one of the entries.
pub open spec fn entries_hold(entries: Seq<EntryView>, name: Seq<char>) -> bool {
    exists|k: int| 0 <= k < entries.len() && (#[trigger] entries[k]).name == name
}

proof fn lemma_md_file(name: Seq<char>)
    requires
        valid_name(name),
    ensures
        stem(name + ".md"@) == name,
        extension(name + ".md"@) == Some("md"@),
        !begins(name + ".md"@, "/"@),
{
    reveal_strlit(".md");
    reveal_strlit("md");
    reveal_strlit("/");
    let f = name + ".md"@;
    let n = f.len() as int;
    reveal_with_fuel(last_char, 4);
    assert(f[n - 1] == 'd');
    assert(f[n - 2] == 'm');
    assert(f[n - 3] == '.');
    assert(last_char(f, '.', n) == Some(n - 3));
    assert(f.take(n - 3) =~= name);
    assert(f.skip(n - 2) =~= "md"@);
    assert(name_char(name[0]));
    if begins(f, "/"@) {
        assert(f.take(1)[0] == '/');
    }
}

/// Two names that do not start at the root lie at different paths.
proof fn lemma_join_apart(root: Seq<char>, a: Seq<char>, b: Seq<char>)
    requires
        !begins(a, "/"@),
        !begins(b, "/"@),
        joined_path(root, a) == joined_path(root, b),
    ensures
        a == b,
{
    reveal_strlit("/");
    assert(a.len() > 0 && a[0] == '/' ==> a.take(1) =~= "/"@);
    assert(b.len() > 0 && b[0] == '/' ==> b.take(1) =~= "/"@);
    let head = if root.len() == 0 || ends_in(root, '/') {
        root
    } else {
        root + "/"@
    };
    let p = joined_path(root, a);
    assert(p =~= head + a);
    assert(p =~= head + b);
    assert(a =~= p.skip(head.len() as int));
    assert(b =~= p.skip(head.len() as int));
}

/// After any number of writes to an empty store, however their steps lie
/// between each other, the listing has one entry for each name written and no
/// other, and each entry is what one write of its name put there, whole.
pub proof fn law_written_memories_are_listed(
    root: Seq<char>,
    index_filename: Seq<char>,
    steps: Seq<StepView>,
    read: spec_fn(Seq<char>) -> Option<FrontmatterView>,
    files: Seq<ScannedFile>,
)
    requires
        steps_of_writes(root, steps),
        writes_are_whole(root, steps, read),
        is_scan(
            root,
            index_filename,
            after_steps(empty_disk(), steps, steps.len() as int),
            read,
            files,
        ),
        files.len() <= usize::MAX,
        forall|name: Seq<char>| valid_name(name) ==> #[trigger] (name + ".md"@) != index_filename,
    ensures
        ({
            let all = entries_of(files, index_filename, files.len() as int);
            let listing = in_order(all, entry_names(all));
            let writes = rows_added(steps, steps.len() as int);
            &&& forall|name: Seq<char>| #[trigger]
                entries_hold(listing, name) <==> names_hold(writes, name)
            &&& forall|i: int, j: int|
                0 <= i < j < listing.len() ==> (#[trigger] listing[i]).name != (
                #[trigger] listing[j]).name
            &&& forall|k: int|
                0 <= k < listing.len() ==> entry_is_a_write(
                    root,
                    steps,
                    read,
                    #[trigger] listing[k],
                )
        }),
{
    let n = steps.len() as int;
    let disk = after_steps(empty_disk(), steps, n);
    let writes = rows_added(steps, n);
    let all = entries_of(files, index_filename, files.len() as int);
    let listing = in_order(all, entry_names(all));
    law_writes_keep_the_store_complete(root, steps);
    lemma_writes(root, steps, n);
    assert forall|i: int| 0 <= i < files.len() && is_listed(#[trigger] files[i], index_filename) implies gets_row(
        files[i],
        index_filename,
    ) && names_hold(writes, (files[i].doc->0).name@) && entry_is_a_write(
        root,
        steps,
        read,
        entry_of(files[i].doc->0),
    ) by {
        lemma_listed_file(root, index_filename, steps, read, files, i);
    }
    assert(named_apart(files, index_filename));
    law_listing_has_every_memory(files, index_filename);
    assert forall|k: int| 0 <= k < listing.len() implies entry_is_a_write(
        root,
        steps,
        read,
        #[trigger] listing[k],
    ) && names_hold(writes, listing[k].name) by {
        assert(comes_from(files, index_filename, files.len() as int, listing[k]));
        let i = choose|i: int|
            0 <= i < files.len() && is_listed(#[trigger] files[i], index_filename) && listing[k]
                == entry_of(files[i].doc->0);
        assert(gets_row(files[i], index_filename));
    }
    assert forall|name: Seq<char>| #[trigger] entries_hold(listing, name) <==> names_hold(
        writes,
        name,
    ) by {
        if entries_hold(listing, name) {
            let k = choose|k: int| 0 <= k < listing.len() && (#[trigger] listing[k]).name == name;
            assert(entry_is_a_write(root, steps, read, listing[k]));
        }
        if names_hold(writes, name) {
            let w = choose|w: int| 0 <= w < writes.len() && (#[trigger] writes[w]).0 == name;
            assert(valid_name(writes[w].0));
            assert(disk.files.contains_key(memory_file(root, name)));
            let i = choose|i: int|
                0 <= i < files.len() && (#[trigger] files[i]).file_name@ == name + ".md"@;
            assert(name + ".md"@ != index_filename);
            lemma_md_file(name);
            let path = memory_file(root, name);
            let content = disk.files[path];
            assert(steps.contains(StepView::WriteFile { path, content }));
            let m = choose|m: Seq<char>| #[trigger]
                is_memory_file(root, steps, read, path, content, m);
            law_files_tell_names_apart(root, m, name);
            assert(is_listed(files[i], index_filename));
            let e = entry_of(files[i].doc->0);
            assert(e.name == name);
            assert(listing.contains(e));
            let k = listing.index_of(e);
            assert(listing[k].name == name);
        }
    }
}

/// A file that is listed is that of a memory that was written.
proof fn lemma_listed_file(
    root: Seq<char>,
    index_filename: Seq<char>,
    steps: Seq<StepView>,
    read: spec_fn(Seq<char>) -> Option<FrontmatterView>,
    files: Seq<ScannedFile>,
    i: int,
)
    requires
        steps_of_writes(root, steps),
        writes_are_whole(root, steps, read),
        is_scan(
            root,
            index_filename,
            after_steps(empty_disk(), steps, steps.len() as int),
            read,
            files,
        ),
        0 <= i < files.len(),
        is_listed(files[i], index_filename),
    ensures
        gets_row(files[i], index_filename),
        names_hold(rows_added(steps, steps.len() as int), (files[i].doc->0).name@),
        entry_is_a_write(root, steps, read, entry_of(files[i].doc->0)),
{
    let disk = after_steps(empty_disk(), steps, steps.len() as int);
    law_writes_keep_the_store_complete(root, steps);
    let f = files[i];
    let path = joined_path(root, f.file_name@);
    assert(disk.files.contains_key(path));
    let content = disk.files[path];
    assert(steps.contains(StepView::WriteFile { path, content }));
    let m = choose|m: Seq<char>| #[trigger] is_memory_file(root, steps, read, path, content, m);
    lemma_md_file(m);
    lemma_join_apart(root, f.file_name@, m + ".md"@);
    let d = doc_read(content, read)->0;
    assert((f.doc->0)@ == d);
    let e = entry_of(f.doc->0);
    assert(e == entry_of_doc(d));
    assert(e.name == m);
    assert(steps.contains(StepView::WriteFile { path: memory_file(root, e.name), content }));
}

/// The directory of a workspace lies under the home directory: in the tool's
/// own directory, among its projects, under the workspace's slug.
pub proof fn law_memories_lie_under_the_home(
    home: Seq<char>,
    tool_dir: Seq<char>,
    workspace: Seq<char>,
)
    requires
        home.len() > 0 && home.last() != '/',
        tool_dir.len() > 0 && tool_dir[0] != '/' && tool_dir.last() != '/',
        slug_of(workspace).len() > 0,
    ensures
        claude_root(Some(home), tool_dir, workspace) == home + "/"@ + tool_dir + "/projects/"@
            + slug_of(workspace) + "/memory"@,
        claude_root(None, tool_dir, workspace) == claude_root(Some("."@), tool_dir, workspace),
{
    reveal_strlit("/");
    reveal_strlit("projects");
    reveal_strlit("memory");
    reveal_strlit("/projects/");
    reveal_strlit("/memory");
    let slug = slug_of(workspace);
    law_slug_is_a_component(workspace);
    assert(slug.contains(slug[0]) && slug.contains(slug.last()));
    let a = home + "/"@ + tool_dir;
    assert(a.last() == tool_dir.last());
    let b = a + "/"@ + "projects"@;
    assert(b.last() == "projects"@.last());
    let c = b + "/"@ + slug;
    assert(c.last() == slug.last());
    assert("/projects/"@ =~= "/"@ + "projects"@ + "/"@);
    assert("/memory"@ =~= "/"@ + "memory"@);
    assert(claude_root(Some(home), tool_dir, workspace) =~= c + "/"@ + "memory"@);
}

/// The last dot of a file name parts its stem from its extension; a name
/// without a dot, or with none but one at its start, has no extension.
pub proof fn law_the_last_dot_parts_the_name(a: Seq<char>, b: Seq<char>)
    requires
        !b.contains('.'),
    ensures
        a.len() > 0 ==> stem(a + seq!['.'] + b) == a && extension(a + seq!['.'] + b) == Some(b),
        stem(b) == b && extension(b) is None,
        stem(seq!['.'] + b) == seq!['.'] + b && extension(seq!['.'] + b) is None,
{
    let s = a + seq!['.'] + b;
    let k = a.len() as int;
    assert forall|i: int| k < i < s.len() implies s[i] != '.' by {
        assert(s[i] == b[i - k - 1]);
        assert(b.contains(b[i - k - 1]));
    }
    lemma_last_char_is(s, '.', k, s.len() as int);
    assert(s.take(k) =~= a);
    assert(s.skip(k + 1) =~= b);
    let t = seq!['.'] + b;
    assert forall|i: int| 0 < i < t.len() implies t[i] != '.' by {
        assert(t[i] == b[i - 1]);
        assert(b.contains(b[i - 1]));
    }
    lemma_last_char_is(t, '.', 0, t.len() as int);
    lemma_last_char(b, '.', b.len() as int);
    if let Some(j) = last_char(b, '.', b.len() as int) {
        assert(b.contains(b[j]));
    }
}

proof fn lemma_last_char_is(s: Seq<char>, c: char, k: int, n: int)
    requires
        0 <= k < n <= s.len(),
        s[k] == c,
        forall|i: int| k < i < n ==> s[i] != c,
    ensures
        last_char(s, c, n) == Some(k),
    decreases n,
{
    if k < n - 1 {
        assert(s[n - 1] != c);
        lemma_last_char_is(s, c, k, n - 1);
    }
}

/// A Markdown file may hold a memory unless it is the index, whatever its name;
/// no other file may.
pub proof fn law_markdown_files_are_candidates(f: ScannedFile, index_filename: Seq<char>)
    ensures
        forall|a: Seq<char>|
            a.len() > 0 && f.file_name@ == #[trigger] (a + ".md"@) ==> (is_candidate(
                f,
                index_filename,
            ) <==> f.file_name@ != index_filename),
        is_candidate(f, index_filename) ==> exists|a: Seq<char>|
            a.len() > 0 && f.file_name@ == #[trigger] (a + ".md"@),
{
    reveal_strlit(".md");
    reveal_strlit("md");
    assert(!"md"@.contains('.'));
    assert forall|a: Seq<char>| a.len() > 0 && f.file_name@ == #[trigger] (a + ".md"@) implies (
    is_candidate(f, index_filename) <==> f.file_name@ != index_filename) by {
        law_the_last_dot_parts_the_name(a, "md"@);
        assert(a + ".md"@ =~= a + seq!['.'] + "md"@);
    }
    if is_candidate(f, index_filename) {
        let s = f.file_name@;
        lemma_last_char(s, '.', s.len() as int);
        let k = last_char(s, '.', s.len() as int)->0;
        assert(s =~= s.take(k) + ".md"@) by {
            assert(s.skip(k + 1) == "md"@);
            assert(s =~= s.take(k) + seq![s[k]] + s.skip(k + 1));
            assert(seq!['.'] + "md"@ =~= ".md"@);
        }
    }
}

/// A write with a valid name, a valid type and a description of one line is
/// made: the directory, then the file with frontmatter and body under the
/// memory's name, then the row.
pub proof fn law_valid_writes_are_made(
    root: Seq<char>,
    name: Seq<char>,
    description: Seq<char>,
    memory_type: Seq<char>,
    body: Seq<char>,
    origin: Option<Seq<char>>,
    now: Seq<char>,
    yaml: Seq<char>,
)
    requires
        valid_name(name),
        valid_type(memory_type),
        !description.contains('\n'),
        frontmatter_yaml(name, description, memory_type, origin, Some(now)) == Ok::<
            Seq<char>,
            Seq<char>,
        >(yaml),
        body.len() > 0 ==> body[0] != '\n',
        root.len() > 0 && root.last() != '/',
    ensures
        write_outcome(root, name, description, memory_type, body, origin, now) == Ok::<
            Seq<StepView>,
            Seq<char>,
        >(
            seq![
                StepView::EnsureDir { path: root },
                StepView::WriteFile {
                    path: root + "/"@ + name + ".md"@,
                    content: "---\n"@ + yaml + "---\n\n"@ + body,
                },
                StepView::AddRow { name, description },
            ],
        ),
{
    assert(without_leading(body, only('\n')) == body);
    law_valid_names_stay_inside(root, name);
    assert(memory_file(root, name) =~= root + "/"@ + name + ".md"@);
}

/// A refused write says the first thing that is wrong with it: its name, its
/// type, or its description.
pub proof fn law_refused_writes_say_why(
    root: Seq<char>,
    name: Seq<char>,
    description: Seq<char>,
    memory_type: Seq<char>,
    body: Seq<char>,
    origin: Option<Seq<char>>,
    now: Seq<char>,
)
    ensures
        ({
            let r = write_outcome(root, name, description, memory_type, body, origin, now);
            &&& !valid_name(name) ==> r == Err::<Seq<StepView>, Seq<char>>(
                "invalid memory name `"@ + name
                    + "`: must match ^[a-z0-9][a-z0-9-]*$ (kebab-case slug, no slashes/dots/underscores)"@,
            )
            &&& valid_name(name) && !valid_type(memory_type) ==> r == Err::<
                Seq<StepView>,
                Seq<char>,
            >(
                "invalid memory type `"@ + memory_type
                    + "`: must be one of user | feedback | project | reference"@,
            )
            &&& valid_name(name) && valid_type(memory_type) && description.contains('\n') ==> r
                == Err::<Seq<StepView>, Seq<char>>(
                "invalid memory description: must be a single line (no newlines)"@,
            )
        }),
{
}

/// After a write the memory's file holds what was written and its row is
/// there; every other file stays as it is.
pub proof fn law_written_memories_are_there(
    root: Seq<char>,
    disk: Disk,
    name: Seq<char>,
    description: Seq<char>,
    content: Seq<char>,
    path: Seq<char>,
)
    requires
        valid_name(name),
    ensures
        ({
            let steps = write_steps(root, name, description, content);
            let after = after_steps(disk, steps, steps.len() as int);
            &&& after.files.contains_key(memory_file(root, name))
            &&& after.files[memory_file(root, name)] == content
            &&& indexed(after, name)
            &&& path != memory_file(root, name) ==> (after.files.contains_key(path)
                <==> disk.files.contains_key(path)) && (disk.files.contains_key(path)
                ==> after.files[path] == disk.files[path])
        }),
{
    let steps = write_steps(root, name, description, content);
    reveal_with_fuel(after_steps, 4);
    assert(after_steps(disk, steps, 3).index == index_added(disk.index, name, description));
    law_added_row_is_there(disk.index, name, description);
}

/// After a deletion the memory's file and its row are gone; every other file
/// stays as it is.
pub proof fn law_deleted_memories_are_gone(
    root: Seq<char>,
    disk: Disk,
    name: Seq<char>,
    path: Seq<char>,
)
    ensures
        ({
            let steps = delete_steps(root, name);
            let after = after_steps(disk, steps, steps.len() as int);
            &&& !after.files.contains_key(memory_file(root, name))
            &&& !indexed(after, name)
            &&& path != memory_file(root, name) ==> (after.files.contains_key(path)
                <==> disk.files.contains_key(path)) && (disk.files.contains_key(path)
                ==> after.files[path] == disk.files[path])
        }),
{
    let steps = delete_steps(root, name);
    let file = memory_file(root, name);
    let one = after_steps(disk, steps, 1);
    let two = after_steps(disk, steps, 2);
    assert(steps.len() == 2);
    assert(after_steps(disk, steps, 0) == disk);
    assert(one == after_step(disk, StepView::RemoveRow { name }));
    assert(two == after_step(one, StepView::RemoveFile { path: file }));
    law_removed_row_is_gone(disk.index, name);
    assert(two.index == index_removed(disk.index, name));
    assert(!indexed(two, name));
    assert(two.files == disk.files.remove(file));
}

proof fn lemma_rebuilt_below(
    files: Seq<ScannedFile>,
    f: ScannedFile,
    index_filename: Seq<char>,
    n: int,
)
    requires
        n <= files.len(),
    ensures
        rebuilt_rows(files.push(f), index_filename, n) == rebuilt_rows(files, index_filename, n),
        entries_of(files.push(f), index_filename, n) == entries_of(files, index_filename, n),
    decreases n,
{
    if n > 0 {
        lemma_rebuilt_below(files, f, index_filename, n - 1);
    }
}

/// A file whose document carries the file's own name adds a row that links it,
/// under that name, to the rebuilt index, and an entry with the document's
/// fields to the listing; a file without a document adds neither.
pub proof fn law_each_document_has_its_row(
    files: Seq<ScannedFile>,
    f: ScannedFile,
    index_filename: Seq<char>,
)
    ensures
        ({
            let n = files.len() as int;
            let rows = rebuilt_rows(files, index_filename, n);
            let entries = entries_of(files, index_filename, n);
            let more_rows = rebuilt_rows(files.push(f), index_filename, n + 1);
            let more_entries = entries_of(files.push(f), index_filename, n + 1);
            &&& f.doc matches Some(d) ==> d.name@.len() > 0 && f.file_name@ == d.name@ + ".md"@
                && f.file_name@ != index_filename ==> {
                &&& more_rows == rows.push(
                    "- ["@ + d.name@ + "]("@ + d.name@ + ".md) — "@ + row_desc(d.description@),
                )
                &&& more_entries.len() == entries.len() + 1
                &&& more_entries.drop_last() == entries
                &&& more_entries.last().name == d.name@
                &&& more_entries.last().description == d.description@
                &&& d.metadata matches Some(m) ==> more_entries.last().memory_type == Some(
                    m.memory_type@,
                ) && more_entries.last().modified == opt_text(m.modified)
                &&& d.metadata is None ==> more_entries.last().memory_type is None
                    && more_entries.last().modified is None
            }
            &&& f.doc is None || f.file_name@ == index_filename ==> more_rows == rows
                && more_entries == entries
            &&& rebuilt_rows(files, index_filename, 0).len() == 0
            &&& entries_of(files, index_filename, 0).len() == 0
        }),
{
    let n = files.len() as int;
    lemma_rebuilt_below(files, f, index_filename, n);
    reveal_strlit(".md");
    reveal_strlit("md");
    if let Some(d) = f.doc {
        if d.name@.len() > 0 && f.file_name@ == d.name@ + ".md"@ && f.file_name@
            != index_filename {
            assert(!"md"@.contains('.'));
            law_the_last_dot_parts_the_name(d.name@, "md"@);
            assert(d.name@ + ".md"@ =~= d.name@ + seq!['.'] + "md"@);
            assert(gets_row(f, index_filename));
            assert(entries_of(files.push(f), index_filename, n + 1).drop_last() =~= entries_of(
                files,
                index_filename,
                n,
            ));
        }
    }
}

/// The rebuilt index is the rows of the documents in order, each ended by a
/// line feed, and empty where there are none.
pub proof fn law_the_rebuilt_index_is_sorted(files: Seq<ScannedFile>, index_filename: Seq<char>)
    requires
        files.len() <= usize::MAX,
    ensures
        ({
            let rows = rebuilt_rows(files, index_filename, files.len() as int);
            let text = rebuilt_index(files, index_filename);
            &&& rows.len() == 0 ==> text.len() == 0
            &&& rows.len() > 0 ==> exists|sorted: Seq<Seq<char>>|
                #![trigger joined(sorted, "\n"@)]
                {
                    &&& text == joined(sorted, "\n"@) + "\n"@
                    &&& sorted.len() == rows.len()
                    &&& forall|i: int, j: int|
                        0 <= i < j < sorted.len() ==> !crate::memory::order::before(
                            #[trigger] sorted[j],
                            #[trigger] sorted[i],
                        )
                    &&& forall|i: int|
                        0 <= i < rows.len() ==> sorted.contains(#[trigger] rows[i])
                }
        }),
{
    let rows = rebuilt_rows(files, index_filename, files.len() as int);
    lemma_rebuilt_len(files, index_filename, files.len() as int);
    if rows.len() > 0 {
        let o = order_of(rows, rows.len() as int);
        let sorted = in_order(rows, rows);
        law_sorting(rows, rows.len() as int);
        assert forall|i: int| 0 <= i < rows.len() implies sorted.contains(#[trigger] rows[i]) by {
            assert(o.contains(i as usize));
            let k = choose|k: int| 0 <= k < o.len() && o[k] == i as usize;
            assert(sorted[k] == rows[i]);
        }
        assert forall|i: int, j: int| 0 <= i < j < sorted.len() implies
            !crate::memory::order::before(#[trigger] sorted[j], #[trigger] sorted[i]) by {
            assert(!crate::memory::order::before(rows[o[j] as int], rows[o[i] as int]));
        }
        assert(rebuilt_index(files, index_filename) == joined(sorted, "\n"@) + "\n"@);
    }
}

proof fn lemma_rebuilt_len(files: Seq<ScannedFile>, index_filename: Seq<char>, n: int)
    requires
        0 <= n <= files.len(),
    ensures
        rebuilt_rows(files, index_filename, n).len() <= n,
    decreases n,
{
    if n > 0 {
        lemma_rebuilt_len(files, index_filename, n - 1);
    }
}

/// The steps given are those of the outcome, one for one and in order, each
/// with its paths and texts; where the outcome is a refusal, so is the result,
/// with the same words.
pub proof fn law_steps_are_those_of_the_outcome(
    r: Result<Vec<StoreStep>, AgentError>,
    steps: Seq<StepView>,
    refusal: Seq<char>,
    i: int,
)
    ensures
        steps_follow(r, Ok(steps)) ==> {
            &&& r matches Ok(v)
            &&& v@.len() == steps.len()
            &&& 0 <= i < steps.len() ==> match steps[i] {
                StepView::EnsureDir { path } => v@[i] matches StoreStep::EnsureDir { path: p }
                    && p@ == path,
                StepView::WriteFile { path, content } => v@[i] matches StoreStep::WriteFile {
                    path: p,
                    content: c,
                } && p@ == path && c@ == content,
                StepView::AddRow { name, description } => v@[i] matches StoreStep::AddRow {
                    name: n,
                    description: d,
                } && n@ == name && d@ == description,
                StepView::RemoveRow { name } => v@[i] matches StoreStep::RemoveRow { name: n }
                    && n@ == name,
                StepView::RemoveFile { path } => v@[i] matches StoreStep::RemoveFile { path: p }
                    && p@ == path,
            }
        },
        steps_follow(r, Err(refusal)) ==> (r matches Err(e) && e@ == ErrorView::Internal(refusal)),
{
    if steps_follow(r, Ok(steps)) {
        let v = r->Ok_0;
        assert(step_views(v@).len() == v@.len());
        if 0 <= i < steps.len() {
            assert(step_views(v@)[i] == v@[i]@);
        }
    }
}

/// An entry of the listing stands for its name, its description and, where they
/// are there, its type and its moment.
pub proof fn law_entries_stand_for_their_fields(e: Seq<MemoryListEntry>, i: int)
    requires
        0 <= i < e.len(),
    ensures
        entry_views(e).len() == e.len(),
        entry_views(e)[i].name == e[i].name@,
        entry_views(e)[i].description == e[i].description@,
        e[i].memory_type matches Some(t) ==> entry_views(e)[i].memory_type == Some(t@),
        e[i].memory_type is None ==> entry_views(e)[i].memory_type is None,
        e[i].modified matches Some(t) ==> entry_views(e)[i].modified == Some(t@),
        e[i].modified is None ==> entry_views(e)[i].modified is None,
{
}

} // verus!
