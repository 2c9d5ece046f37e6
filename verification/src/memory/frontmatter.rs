//! Memory files: YAML frontmatter between two `---` lines, then a Markdown
//! body.

use vstd::prelude::*;
use serde_yaml::{Mapping, Value};
use crate::error::{internal2, AgentError, ErrorView};
use crate::memory::names::MEMORY_NODE_TYPE;
use crate::text::{
    begins, char_at, chars_of, ends_in, find_char, lemma_char_at, lemma_char_at_is,
    lemma_without_leading_is, lemma_without_trailing_is, one_line, only, opt_text, same_text, string_of,
    trim_start_char, without_leading, without_trailing,
};

verus! {

/// The `metadata:` block of the frontmatter.
#[derive(Debug, PartialEq)]
pub struct MemoryFrontmatterMetadata {
    pub node_type: String,
    pub memory_type: String,
    pub origin_session_id: Option<String>,
    pub modified: Option<String>,
}

/// YAML frontmatter of a memory file.
#[derive(Debug, PartialEq)]
pub struct MemoryFrontmatter {
    pub name: String,
    pub description: String,
    pub metadata: Option<MemoryFrontmatterMetadata>,
}

/// A parsed memory file: frontmatter fields plus the free-form Markdown body.
#[derive(Debug, PartialEq)]
pub struct MemoryDoc {
    pub name: String,
    pub description: String,
    pub metadata: Option<MemoryFrontmatterMetadata>,
    pub body: String,
}

/// The mathematical value of a [`MemoryFrontmatterMetadata`].
pub struct MetadataView {
    pub node_type: Seq<char>,
    pub memory_type: Seq<char>,
    pub origin_session_id: Option<Seq<char>>,
    pub modified: Option<Seq<char>>,
}

impl View for MemoryFrontmatterMetadata {
    type V = MetadataView;

    open spec fn view(&self) -> MetadataView {
        MetadataView {
            node_type: self.node_type@,
            memory_type: self.memory_type@,
            origin_session_id: opt_text(self.origin_session_id),
            modified: opt_text(self.modified),
        }
    }
}

/// The mathematical value of a [`MemoryFrontmatter`].
pub struct FrontmatterView {
    pub name: Seq<char>,
    pub description: Seq<char>,
    pub metadata: Option<MetadataView>,
}

pub open spec fn metadata_view(m: Option<MemoryFrontmatterMetadata>) -> Option<MetadataView> {
    match m {
        Some(x) => Some(x@),
        None => None,
    }
}

impl View for MemoryFrontmatter {
    type V = FrontmatterView;

    open spec fn view(&self) -> FrontmatterView {
        FrontmatterView {
            name: self.name@,
            description: self.description@,
            metadata: metadata_view(self.metadata),
        }
    }
}

/// The mathematical value of a [`MemoryDoc`].
pub struct DocView {
    pub name: Seq<char>,
    pub description: Seq<char>,
    pub metadata: Option<MetadataView>,
    pub body: Seq<char>,
}

impl View for MemoryDoc {
    type V = DocView;

    open spec fn view(&self) -> DocView {
        DocView {
            name: self.name@,
            description: self.description@,
            metadata: metadata_view(self.metadata),
            body: self.body@,
        }
    }
}

// ---------------------------------------------------------------------------
// Splitting
// ---------------------------------------------------------------------------

/// The characters that end a line.
pub open spec fn line_end() -> spec_fn(char) -> bool {
    |c: char| c == '\n' || c == '\r'
}

/// Where the line that starts at `from` ends, its line feed included.
pub open spec fn next_line(s: Seq<char>, from: int) -> int {
    match char_at(s.skip(from), '\n') {
        Some(k) => from + k + 1,
        None => s.len() as int,
    }
}

/// The first line from `from` on that is `---` and nothing but its ending.
pub open spec fn closing_line(s: Seq<char>, from: int) -> Option<int>
    decreases s.len() - from,
{
    if from < 0 || from >= s.len() {
        None
    } else {
        let end = next_line(s, from);
        if without_trailing(s.subrange(from, end), line_end()) == "---"@ {
            Some(from)
        } else if from < end <= s.len() {
            closing_line(s, end)
        } else {
            None
        }
    }
}

/// `s` without one line break at its start.
pub open spec fn past_break(s: Seq<char>) -> Seq<char> {
    if begins(s, "\r\n"@) {
        s.skip(2)
    } else if begins(s, "\n"@) {
        s.skip(1)
    } else {
        s
    }
}

/// The frontmatter and the body of a memory file: the text between the opening
/// `---` line and the first `---` line after it, and what follows that without
/// leading blank lines.
pub open spec fn split_of(raw: Seq<char>) -> Option<(Seq<char>, Seq<char>)> {
    if !begins(raw, "---\n"@) {
        None
    } else {
        let rest = raw.skip(4);
        match closing_line(rest, 0) {
            None => None,
            Some(k) => Some(
                (rest.take(k), without_leading(past_break(rest.skip(k + 3)), only('\n'))),
            ),
        }
    }
}

proof fn lemma_next_line(s: Seq<char>, from: int)
    requires
        0 <= from < s.len(),
    ensures
        from < next_line(s, from) <= s.len(),
{
    lemma_char_at(s.skip(from), '\n');
}

/// A closing line holds at least its three dashes.
proof fn lemma_closing_line(s: Seq<char>, from: int)
    requires
        0 <= from,
    ensures
        closing_line(s, from) matches Some(k) ==> from <= k && k + 3 <= s.len() && s.subrange(
            k,
            k + 3,
        ) == "---"@,
    decreases s.len() - from,
{
    if from < s.len() {
        lemma_next_line(s, from);
        let end = next_line(s, from);
        let line = s.subrange(from, end);
        if without_trailing(line, line_end()) == "---"@ {
            crate::text::lemma_without_trailing(line, line_end());
            reveal_strlit("---");
            assert("---"@.len() == 3);
            assert(line.take(3) == "---"@);
            assert(s.subrange(from, from + 3) == line.take(3));
        } else {
            lemma_closing_line(s, end);
        }
    }
}

fn is_closing(v: &Vec<char>, from: usize, end: usize) -> (r: bool)
    requires
        from <= end <= v@.len(),
    ensures
        r == (without_trailing(v@.subrange(from as int, end as int), line_end()) == "---"@),
{
    let ghost line = v@.subrange(from as int, end as int);
    let mut n: usize = end;
    while n > from && (v[n - 1] == '\n' || v[n - 1] == '\r')
        invariant
            from <= n <= end <= v@.len(),
            line == v@.subrange(from as int, end as int),
            forall|i: int| n - from <= i < line.len() ==> line_end()(#[trigger] line[i]),
        decreases n,
    {
        n -= 1;
    }
    proof {
        lemma_without_trailing_is(line, line_end(), n - from);
        assert(line.take(n - from) == v@.subrange(from as int, n as int));
    }
    let s = string_of(v, from, n);
    same_text(s.as_str(), "---")
}

/// Splits `---\n<yaml>\n---\n<body>` into `(yaml, body)`.
///
/// `None` when there is no complete frontmatter block.
pub fn split_frontmatter(raw: &str) -> (r: Option<(String, String)>)
    ensures
        match r {
            Some((yaml, body)) => split_of(raw@) == Some((yaml@, body@)),
            None => split_of(raw@) is None,
        },
{
    if !crate::text::starts_with(raw, "---\n") {
        return None;
    }
    let all = chars_of(raw);
    proof {
        reveal_strlit("---\n");
        assert("---\n"@.len() == 4);
    }
    let total: usize = all.len();
    let rest_text = string_of(&all, 4, total);
    let v = chars_of(rest_text.as_str());
    let ghost rest = raw@.skip(4);
    assert(v@ == rest);
    let n: usize = v.len();
    let mut from: usize = 0;
    while from < n
        invariant
            v@ == rest,
            n == v@.len(),
            from <= n,
            rest == raw@.skip(4),
            begins(raw@, "---\n"@),
            closing_line(rest, 0) == closing_line(rest, from as int),
        decreases n - from,
    {
        proof {
            lemma_next_line(rest, from as int);
        }
        let end: usize = match find_char(&v, from, '\n') {
            Some(k) => k + 1,
            None => n,
        };
        assert(end == next_line(rest, from as int));
        if is_closing(&v, from, end) {
            proof {
                lemma_closing_line(rest, from as int);
            }
            let yaml = string_of(&v, 0, from);
            assert(yaml@ == rest.take(from as int));
            let after = string_of(&v, from + 3, n);
            assert(after@ == rest.skip(from + 3));
            let a = chars_of(after.as_str());
            let m: usize = a.len();
            let skip: usize = if m >= 2 && a[0] == '\r' && a[1] == '\n' {
                2
            } else if m >= 1 && a[0] == '\n' {
                1
            } else {
                0
            };
            let past = string_of(&a, skip, m);
            proof {
                reveal_strlit("\r\n");
                reveal_strlit("\n");
                assert("\r\n"@.len() == 2);
                assert("\n"@.len() == 1);
                if skip == 2 {
                    assert(after@.take(2) == "\r\n"@);
                } else {
                    if m >= 2 && begins(after@, "\r\n"@) {
                        assert(after@.take(2)[0] == '\r');
                        assert(after@.take(2)[1] == '\n');
                        assert(false);
                    }
                    if skip == 1 {
                        assert(after@.take(1) == "\n"@);
                    } else if begins(after@, "\n"@) {
                        assert(after@.take(1)[0] == '\n');
                        assert(false);
                    }
                }
                assert(past@ == past_break(after@));
            }
            let body = trim_start_char(past.as_str(), '\n');
            return Some((yaml, body));
        }
        from = end;
    }
    None
}

// ---------------------------------------------------------------------------
// Parsing
// ---------------------------------------------------------------------------

/// The document in a memory file, where `parsed` is what the YAML reader makes
/// of its frontmatter: nothing without a frontmatter block, with one that
/// cannot be read, or with an empty name or description.
pub open spec fn doc_of(raw: Seq<char>, parsed: Option<FrontmatterView>) -> Option<DocView> {
    match (split_of(raw), parsed) {
        (Some((yaml, body)), Some(fm)) => if fm.name.len() > 0 && fm.description.len() > 0 {
            Some(
                DocView {
                    name: fm.name,
                    description: fm.description,
                    metadata: fm.metadata,
                    body,
                },
            )
        } else {
            None
        },
        _ => None,
    }
}

/// Reads the document in a memory file, where `parsed` is what the YAML reader
/// makes of its frontmatter.
pub fn parse_memory_str(raw: &str, parsed: Option<MemoryFrontmatter>) -> (r: Option<MemoryDoc>)
    ensures
        match doc_of(
            raw@,
            match parsed {
                Some(fm) => Some(fm@),
                None => None,
            },
        ) {
            Some(d) => r matches Some(x) && x@ == d,
            None => r is None,
        },
{
    let body = match split_frontmatter(raw) {
        Some((_, body)) => body,
        None => {
            return None;
        },
    };
    let fm = match parsed {
        Some(fm) => fm,
        None => {
            return None;
        },
    };
    if fm.name.as_str().is_empty() || fm.description.as_str().is_empty() {
        return None;
    }
    Some(
        MemoryDoc {
            name: fm.name,
            description: fm.description,
            metadata: fm.metadata,
            body,
        },
    )
}

/// The error for a file that holds no document.
pub fn malformed_file(path: &str) -> (r: AgentError)
    ensures
        r@ == ErrorView::Internal(path@ + ": missing or malformed frontmatter"@),
{
    internal2(path, ": missing or malformed frontmatter")
}

// ---------------------------------------------------------------------------
// Rendering
// ---------------------------------------------------------------------------

/// Names and texts, in order.
pub open spec fn pairs(v: Seq<(String, String)>) -> Seq<(Seq<char>, Seq<char>)> {
    Seq::new(v.len(), |i: int| (v[i].0@, v[i].1@))
}

/// Whether `s` has no line feed, or does not end in a separator of lines or
/// paragraphs.
pub open spec fn plain_end(s: Seq<char>) -> bool {
    one_line(s) || !(ends_in(s, '\u{2028}') || ends_in(s, '\u{2029}'))
}

/// Whether no name has a line feed.
pub open spec fn one_line_names(p: Seq<(Seq<char>, Seq<char>)>) -> bool {
    forall|i: int| 0 <= i < p.len() ==> one_line((#[trigger] p[i]).0)
}

/// Whether no name stands twice.
pub open spec fn names_apart(p: Seq<(Seq<char>, Seq<char>)>) -> bool {
    forall|i: int, j: int| 0 <= i < j < p.len() ==> (#[trigger] p[i]).0 != (#[trigger] p[j]).0
}

/// The YAML text, or the error, that `serde_yaml` gives for a mapping of `top`
/// followed by `key`, whose value is the mapping `nested`.
pub uninterp spec fn yaml_form(
    top: Seq<(Seq<char>, Seq<char>)>,
    key: Seq<char>,
    nested: Seq<(Seq<char>, Seq<char>)>,
) -> Result<Seq<char>, Seq<char>>;

/// `serde_yaml::to_string` of a mapping with the string members `top` and, under
/// `key`, a mapping with the string members `nested`.  What the text looks
/// like is `serde_yaml`'s own affair and is named, not spelled out.
///
/// A text without a line feed is written on one line behind its name.  One
/// with line feeds is quoted on one line, or written as a block whose lines are
/// indented, empty, or begin with a separator.  So where no name has a line
/// feed, no line is `---`.  The last line is ended, save where the last text is
/// a block that ends in a separator; names that stand twice are left out there,
/// since they change which text is the last.
#[verifier::external_body]
fn yaml_text(top: &Vec<(String, String)>, key: &str, nested: &Vec<(String, String)>) -> (r: Result<
    String,
    String,
>)
    ensures
        match r {
            Ok(s) => {
                &&& yaml_form(pairs(top@), key@, pairs(nested@)) == Ok::<Seq<char>, Seq<char>>(s@)
                &&& one_line_names(pairs(top@).push((key@, seq![]))) && one_line_names(
                    pairs(nested@),
                ) ==> closing_line(s@, 0) is None && (names_apart(
                    pairs(top@).push((key@, seq![])),
                ) && names_apart(pairs(nested@)) && (nested@.len() > 0 ==> plain_end(
                    pairs(nested@).last().1,
                )) ==> ends_in(s@, '\n'))
            },
            Err(e) => yaml_form(pairs(top@), key@, pairs(nested@)) == Err::<Seq<char>, Seq<char>>(
                e@,
            ),
        },
{
    let pair = |p: &(String, String)| (Value::from(p.0.as_str()), Value::from(p.1.as_str()));
    let inner: Mapping = nested.iter().map(pair).collect();
    let mut outer: Mapping = top.iter().map(pair).collect();
    outer.insert(Value::from(key), Value::Mapping(inner));
    serde_yaml::to_string(&outer).map_err(|e| e.to_string())
}

/// The members of the metadata block: an absent one is left out.
pub open spec fn metadata_pairs(
    memory_type: Seq<char>,
    origin: Option<Seq<char>>,
    modified: Option<Seq<char>>,
) -> Seq<(Seq<char>, Seq<char>)> {
    let a = seq![("node_type"@, MEMORY_NODE_TYPE@), ("type"@, memory_type)];
    let b = match origin {
        Some(s) => a.push(("originSessionId"@, s)),
        None => a,
    };
    match modified {
        Some(s) => b.push(("modified"@, s)),
        None => b,
    }
}

/// The YAML text of a memory's frontmatter.
pub open spec fn frontmatter_yaml(
    name: Seq<char>,
    description: Seq<char>,
    memory_type: Seq<char>,
    origin: Option<Seq<char>>,
    modified: Option<Seq<char>>,
) -> Result<Seq<char>, Seq<char>> {
    yaml_form(
        seq![("name"@, name), ("description"@, description)],
        "metadata"@,
        metadata_pairs(memory_type, origin, modified),
    )
}

/// The last field of the frontmatter.
pub open spec fn last_field(
    memory_type: Seq<char>,
    origin: Option<Seq<char>>,
    modified: Option<Seq<char>>,
) -> Seq<char> {
    match (modified, origin) {
        (Some(s), _) => s,
        (None, Some(s)) => s,
        (None, None) => memory_type,
    }
}

/// A memory file made of its frontmatter and its body.
pub open spec fn file_text(yaml: Seq<char>, body: Seq<char>) -> Seq<char> {
    "---\n"@ + yaml + "---\n\n"@ + without_leading(body, only('\n'))
}

/// Puts a memory file together.
pub fn assemble_file(yaml: &str, body: &str) -> (r: String)
    ensures
        r@ == file_text(yaml@, body@),
{
    let mut r = "---\n".to_owned();
    r.append(yaml);
    r.append("---\n\n");
    r.append(trim_start_char(body, '\n').as_str());
    r
}

/// The text of an optional string slice.
pub open spec fn opt_str(o: Option<&str>) -> Option<Seq<char>> {
    match o {
        Some(s) => Some(s@),
        None => None,
    }
}

fn pair_up(mut v: Vec<(String, String)>, key: &str, value: &str) -> (r: Vec<(String, String)>)
    ensures
        pairs(r@) == pairs(v@).push((key@, value@)),
{
    let ghost before = v@;
    v.push((key.to_owned(), value.to_owned()));
    assert(pairs(v@) == pairs(before).push((key@, value@)));
    v
}

fn no_pairs() -> (r: Vec<(String, String)>)
    ensures
        pairs(r@) == Seq::<(Seq<char>, Seq<char>)>::empty(),
{
    let v: Vec<(String, String)> = Vec::new();
    assert(pairs(v@) =~= Seq::empty());
    v
}

/// The names of the frontmatter's members are on one line each and differ.
proof fn lemma_member_names(
    name: Seq<char>,
    description: Seq<char>,
    memory_type: Seq<char>,
    origin: Option<Seq<char>>,
    modified: Option<Seq<char>>,
)
    ensures
        ({
            let top = seq![("name"@, name), ("description"@, description)];
            let nested = metadata_pairs(memory_type, origin, modified);
            &&& one_line_names(top.push(("metadata"@, seq![])))
            &&& names_apart(top.push(("metadata"@, seq![])))
            &&& one_line_names(nested)
            &&& names_apart(nested)
            &&& nested.len() > 0
            &&& nested.last().1 == last_field(memory_type, origin, modified)
        }),
{
    reveal_strlit("name");
    reveal_strlit("description");
    reveal_strlit("metadata");
    reveal_strlit("node_type");
    reveal_strlit("type");
    reveal_strlit("originSessionId");
    reveal_strlit("modified");
    assert("description"@[0] == 'd');
    assert("metadata"@[0] == 'm' && "metadata"@[1] == 'e');
    assert("node_type"@[0] == 'n');
    assert("type"@[0] == 't');
    assert("originSessionId"@[0] == 'o');
    assert("modified"@[0] == 'm' && "modified"@[1] == 'o');
    assert("name"@[0] == 'n' && "name"@[1] == 'a');
}

/// Renders a full memory file for writing.
///
/// `origin_session_id` and `modified` are left out when absent.  Unless
/// the last field has a line feed and ends in a separator of lines or
/// paragraphs, [`split_frontmatter`] gives back what was put together: the
/// frontmatter, and the body without leading blank lines.  So
/// the document is read back whole where the YAML reader gives the fields.
pub fn render_memory_file(
    name: &str,
    description: &str,
    memory_type: &str,
    origin_session_id: Option<&str>,
    modified: Option<&str>,
    body: &str,
) -> (r: Result<String, AgentError>)
    ensures
        match frontmatter_yaml(
            name@,
            description@,
            memory_type@,
            opt_str(origin_session_id),
            opt_str(modified),
        ) {
            Ok(yaml) => {
                &&& r matches Ok(s)
                &&& s@ == file_text(yaml, body@)
                &&& plain_end(
                    last_field(memory_type@, opt_str(origin_session_id), opt_str(modified)),
                ) ==> split_of(s@) == Some((yaml, without_leading(body@, only('\n')))) && (
                name@.len() > 0 && description@.len() > 0 ==> doc_of(
                    s@,
                    Some(
                        rendered_fields(
                            name@,
                            description@,
                            memory_type@,
                            opt_str(origin_session_id),
                            opt_str(modified),
                        ),
                    ),
                ) == Some(
                    DocView {
                        name: name@,
                        description: description@,
                        metadata: rendered_fields(
                            name@,
                            description@,
                            memory_type@,
                            opt_str(origin_session_id),
                            opt_str(modified),
                        ).metadata,
                        body: without_leading(body@, only('\n')),
                    },
                ))
            },
            Err(e) => r matches Err(x) && x@ == ErrorView::Internal(
                "failed to serialize memory frontmatter: "@ + e,
            ),
        },
{
    let top = pair_up(pair_up(no_pairs(), "name", name), "description", description);
    assert(pairs(top@) =~= seq![("name"@, name@), ("description"@, description@)]);
    let mut nested = pair_up(pair_up(no_pairs(), "node_type", MEMORY_NODE_TYPE), "type", memory_type);
    assert(pairs(nested@) =~= seq![("node_type"@, MEMORY_NODE_TYPE@), ("type"@, memory_type@)]);
    if let Some(s) = origin_session_id {
        nested = pair_up(nested, "originSessionId", s);
    }
    if let Some(s) = modified {
        nested = pair_up(nested, "modified", s);
    }
    match yaml_text(&top, "metadata", &nested) {
        Ok(yaml) => {
            proof {
                if plain_end(
                    last_field(memory_type@, opt_str(origin_session_id), opt_str(modified)),
                ) {
                    lemma_member_names(
                        name@,
                        description@,
                        memory_type@,
                        opt_str(origin_session_id),
                        opt_str(modified),
                    );
                    law_split_undoes_assemble(yaml@, body@);
                }
            }
            Ok(assemble_file(yaml.as_str(), body))
        },
        Err(e) => Err(internal2("failed to serialize memory frontmatter: ", e.as_str())),
    }
}

// ---------------------------------------------------------------------------
// Laws
// ---------------------------------------------------------------------------

/// Lines of a text that has no closing line stay so when more lines follow.
proof fn lemma_closing_after(yaml: Seq<char>, tail: Seq<char>, from: int)
    requires
        yaml.len() == 0 || ends_in(yaml, '\n'),
        0 <= from <= yaml.len(),
        closing_line(yaml, from) is None,
        tail.len() > 0,
    ensures
        closing_line(yaml + tail, from) == closing_line(yaml + tail, yaml.len() as int),
    decreases yaml.len() - from,
{
    if from < yaml.len() {
        let all = yaml + tail;
        lemma_char_at(yaml.skip(from), '\n');
        assert(yaml.skip(from).last() == '\n');
        assert(yaml.skip(from).contains('\n'));
        match char_at(yaml.skip(from), '\n') {
            Some(k) => {
                assert(all.skip(from)[k] == '\n');
                assert forall|i: int| 0 <= i < k implies all.skip(from)[i] != '\n' by {
                    assert(yaml.skip(from)[i] != '\n');
                }
                lemma_char_at_is(all.skip(from), '\n', k);
                let end = from + k + 1;
                assert(all.subrange(from, end) == yaml.subrange(from, end));
                lemma_closing_after(yaml, tail, end);
            },
            None => {},
        }
    }
}

/// What was rendered is read back: a file made of a frontmatter text and a
/// body splits into that text and the body without its leading blank lines.
/// The text ends its last line and holds no `---` line, as a YAML mapping
/// does.
pub proof fn law_split_undoes_assemble(yaml: Seq<char>, body: Seq<char>)
    requires
        yaml.len() == 0 || ends_in(yaml, '\n'),
        closing_line(yaml, 0) is None,
    ensures
        split_of(file_text(yaml, body)) == Some((yaml, without_leading(body, only('\n')))),
{
    reveal_strlit("---\n");
    reveal_strlit("---\n\n");
    reveal_strlit("---");
    reveal_strlit("\r\n");
    reveal_strlit("\n");
    let b = without_leading(body, only('\n'));
    let raw = file_text(yaml, body);
    let tail = "---\n\n"@ + b;
    assert(raw.take(4) =~= "---\n"@);
    let rest = raw.skip(4);
    assert(rest =~= yaml + tail);
    lemma_closing_after(yaml, tail, 0);
    let k = yaml.len() as int;
    let here = rest.skip(k);
    assert(here =~= tail);
    lemma_char_at_is(here, '\n', 3);
    assert(next_line(rest, k) == k + 4);
    let line = rest.subrange(k, k + 4);
    assert(line =~= "---\n"@);
    assert forall|i: int| 3 <= i < line.len() implies line_end()(#[trigger] line[i]) by {
        assert(line[3] == '\n');
    }
    assert(!line_end()(line[2]));
    lemma_without_trailing_is(line, line_end(), 3);
    assert(line.take(3) =~= "---"@);
    assert(closing_line(rest, 0) == Some(k));
    assert(rest.take(k) =~= yaml);
    let after = rest.skip(k + 3);
    assert(after =~= "\n\n"@ + b) by {
        reveal_strlit("\n\n");
    }
    assert(after[0] == '\n');
    assert(!begins(after, "\r\n"@)) by {
        if begins(after, "\r\n"@) {
            assert(after.take(2)[0] == '\r');
        }
    }
    assert(after.take(1) =~= "\n"@);
    let past = after.skip(1);
    assert(past =~= seq!['\n'] + b) by {
        reveal_strlit("\n\n");
    }
    crate::text::lemma_without_leading(body, only('\n'));
    assert forall|i: int| 0 <= i < 1 implies only('\n')(#[trigger] past[i]) by {}
    lemma_without_leading_is(past, only('\n'), 1);
    assert(past.skip(1) =~= b);
}

/// The fields that a frontmatter is made of.
pub open spec fn rendered_fields(
    name: Seq<char>,
    description: Seq<char>,
    memory_type: Seq<char>,
    origin: Option<Seq<char>>,
    modified: Option<Seq<char>>,
) -> FrontmatterView {
    FrontmatterView {
        name,
        description,
        metadata: Some(
            MetadataView {
                node_type: MEMORY_NODE_TYPE@,
                memory_type,
                origin_session_id: origin,
                modified,
            },
        ),
    }
}

/// A rendered memory file that splits, as [`render_memory_file`] says it does,
/// is read back: where the YAML reader gives the fields that the frontmatter
/// was made of, the document is those fields and the body without its leading
/// blank lines.
pub proof fn law_rendered_file_is_read_back(
    name: Seq<char>,
    description: Seq<char>,
    memory_type: Seq<char>,
    origin: Option<Seq<char>>,
    modified: Option<Seq<char>>,
    yaml: Seq<char>,
    body: Seq<char>,
)
    requires
        name.len() > 0,
        description.len() > 0,
        split_of(file_text(yaml, body)) == Some((yaml, without_leading(body, only('\n')))),
    ensures
        ({
            let fm = rendered_fields(name, description, memory_type, origin, modified);
            doc_of(file_text(yaml, body), Some(fm)) == Some(
                DocView {
                    name,
                    description,
                    metadata: fm.metadata,
                    body: without_leading(body, only('\n')),
                },
            )
        }),
{
}

/// Blank lines at the start of a body are not kept, and nothing else is lost:
/// rendering a body that was read back changes nothing.
pub proof fn law_body_is_stable(yaml: Seq<char>, body: Seq<char>)
    ensures
        file_text(yaml, without_leading(body, only('\n'))) == file_text(yaml, body),
{
    let b = without_leading(body, only('\n'));
    crate::text::lemma_without_leading(body, only('\n'));
    lemma_without_leading_is(b, only('\n'), 0);
    assert(b.skip(0) == b);
}

/// A frontmatter block ends at its closing line however that line is ended,
/// and the body follows without blank lines at its start.
pub proof fn law_closing_lines_end_the_block(yaml: Seq<char>, body: Seq<char>)
    requires
        yaml.len() == 0 || ends_in(yaml, '\n'),
        closing_line(yaml, 0) is None,
        body.len() > 0 ==> body[0] != '\n',
    ensures
        split_of("---\n"@ + yaml + "---\n"@ + body) == Some((yaml, body)),
        split_of("---\n"@ + yaml + "---\r\n"@ + body) == Some((yaml, body)),
        split_of("---\n"@ + yaml + "---"@) == Some((yaml, Seq::<char>::empty())),
{
    reveal_strlit("---\n");
    reveal_strlit("---\r\n");
    reveal_strlit("---");
    reveal_strlit("\r\n");
    reveal_strlit("\n");
    assert(("---\n"@ + body).take(3) =~= "---"@);
    assert(("---\r\n"@ + body).take(3) =~= "---"@);
    assert("---"@.take(3) =~= "---"@);
    lemma_split_at(yaml, "---\n"@ + body, 4);
    lemma_split_at(yaml, "---\r\n"@ + body, 5);
    lemma_split_at(yaml, "---"@, 3);
    let none = Seq::<char>::empty();
    lemma_without_leading_is(body, only('\n'), 0);
    assert(body.skip(0) =~= body);
    lemma_without_leading_is(none, only('\n'), 0);
    assert(none.skip(0) =~= none);
    let lf = ("---\n"@ + body).skip(3);
    assert(lf =~= seq!['\n'] + body);
    assert(!begins(lf, "\r\n"@)) by {
        if begins(lf, "\r\n"@) {
            assert(lf.take(2)[0] == '\r');
        }
    }
    assert(lf.take(1) =~= "\n"@);
    assert(lf.skip(1) =~= body);
    let crlf = ("---\r\n"@ + body).skip(3);
    assert(crlf.take(2) =~= "\r\n"@);
    assert(crlf.skip(2) =~= body);
    assert("---"@.skip(3) =~= none);
    assert("---\n"@ + yaml + "---\n"@ + body =~= "---\n"@ + yaml + ("---\n"@ + body));
    assert("---\n"@ + yaml + "---\r\n"@ + body =~= "---\n"@ + yaml + ("---\r\n"@ + body));
}

/// A block of `yaml` ends at a line of three dashes, which is the first `end`
/// characters of `tail`.
proof fn lemma_split_at(yaml: Seq<char>, tail: Seq<char>, end: int)
    requires
        yaml.len() == 0 || ends_in(yaml, '\n'),
        closing_line(yaml, 0) is None,
        3 <= end <= tail.len(),
        tail.take(3) == "---"@,
        forall|i: int| 3 <= i < end ==> #[trigger] tail[i] == '\n' || tail[i] == '\r',
        forall|i: int| 0 <= i < end - 1 ==> #[trigger] tail[i] != '\n',
        tail[end - 1] == '\n' || (end == 3 && tail.len() == 3),
    ensures
        split_of("---\n"@ + yaml + tail) == Some(
            (yaml, without_leading(past_break(tail.skip(3)), only('\n'))),
        ),
{
    reveal_strlit("---\n");
    reveal_strlit("---");
    let raw = "---\n"@ + yaml + tail;
    assert(raw.take(4) =~= "---\n"@);
    let rest = raw.skip(4);
    assert(rest =~= yaml + tail);
    lemma_closing_after(yaml, tail, 0);
    let k = yaml.len() as int;
    let here = rest.skip(k);
    assert(here =~= tail);
    assert(tail.take(3)[2] == tail[2]);
    if tail[end - 1] == '\n' {
        lemma_char_at_is(here, '\n', end - 1);
    } else {
        lemma_char_at(here, '\n');
        if let Some(j) = char_at(here, '\n') {
            assert(tail.take(3)[j] == tail[j]);
        }
    }
    assert(next_line(rest, k) == k + end);
    let line = rest.subrange(k, k + end);
    assert(line =~= tail.take(end));
    assert forall|i: int| 3 <= i < line.len() implies line_end()(#[trigger] line[i]) by {
        assert(line[i] == tail[i]);
    }
    assert(line[2] == '-');
    lemma_without_trailing_is(line, line_end(), 3);
    assert(line.take(3) =~= "---"@);
    assert(closing_line(rest, 0) == Some(k));
    assert(rest.take(k) =~= yaml);
    assert(rest.skip(k + 3) =~= tail.skip(3));
}

/// The closing line is a line of its own: it starts a line, holds three dashes
/// and ends there.
pub proof fn law_closing_lines_hold_dashes_alone(s: Seq<char>, from: int)
    requires
        0 <= from,
        from == 0 || (from <= s.len() && s[from - 1] == '\n'),
    ensures
        closing_line(s, from) matches Some(k) ==> {
            &&& from <= k
            &&& k + 3 <= s.len()
            &&& k == 0 || s[k - 1] == '\n'
            &&& s.subrange(k, k + 3) == "---"@
            &&& k + 3 == s.len() || s[k + 3] == '\n' || s[k + 3] == '\r'
        },
    decreases s.len() - from,
{
    reveal_strlit("---");
    if from < s.len() {
        lemma_next_line(s, from);
        let end = next_line(s, from);
        let line = s.subrange(from, end);
        crate::text::lemma_without_trailing(line, line_end());
        let t = without_trailing(line, line_end());
        if t == "---"@ {
            assert(s.subrange(from, from + 3) =~= line.take(3));
            if from + 3 < end {
                assert(line_end()(line[3]));
            } else if end < s.len() {
                lemma_char_at(s.skip(from), '\n');
                assert(s.skip(from)[end - from - 1] == s[end - 1]);
                assert(line[2] == s[end - 1]);
                assert(line.take(3)[2] == line[2]);
            }
        } else {
            lemma_char_at(s.skip(from), '\n');
            if end < s.len() || s[end - 1] == '\n' {
                assert(s[end - 1] == '\n') by {
                    if let Some(j) = char_at(s.skip(from), '\n') {
                        assert(s.skip(from)[j] == s[end - 1]);
                    }
                }
                law_closing_lines_hold_dashes_alone(s, end);
            } else {
                assert(closing_line(s, end) is None);
            }
        }
    }
}

/// A file holds a document exactly when it has a frontmatter block that can be
/// read and names and describes the memory; the document is what was read, and
/// the body.
pub proof fn law_documents_have_name_and_description(raw: Seq<char>, fm: FrontmatterView)
    ensures
        doc_of(raw, None) is None,
        !begins(raw, "---\n"@) ==> split_of(raw) is None && doc_of(raw, Some(fm)) is None,
        split_of(raw) is None ==> doc_of(raw, Some(fm)) is None,
        fm.name.len() == 0 || fm.description.len() == 0 ==> doc_of(raw, Some(fm)) is None,
        fm.name.len() > 0 && fm.description.len() > 0 ==> (split_of(raw) matches Some(
            (yaml, body),
        ) ==> {
            &&& doc_of(raw, Some(fm)) matches Some(d)
            &&& d.name == fm.name
            &&& d.description == fm.description
            &&& d.metadata == fm.metadata
            &&& d.body == body
        }),
{
}

/// A memory's metadata are its kind and its type, then the session and the
/// moment where they are given, and nothing else.
pub proof fn law_metadata_hold_what_is_given(
    memory_type: Seq<char>,
    origin: Seq<char>,
    modified: Seq<char>,
)
    ensures
        metadata_pairs(memory_type, None, None) == seq![
            ("node_type"@, "memory"@),
            ("type"@, memory_type),
        ],
        metadata_pairs(memory_type, Some(origin), None) == seq![
            ("node_type"@, "memory"@),
            ("type"@, memory_type),
            ("originSessionId"@, origin),
        ],
        metadata_pairs(memory_type, None, Some(modified)) == seq![
            ("node_type"@, "memory"@),
            ("type"@, memory_type),
            ("modified"@, modified),
        ],
        metadata_pairs(memory_type, Some(origin), Some(modified)) == seq![
            ("node_type"@, "memory"@),
            ("type"@, memory_type),
            ("originSessionId"@, origin),
            ("modified"@, modified),
        ],
        forall|o: Option<Seq<char>>, m: Option<Seq<char>>| #[trigger]
            last_field(memory_type, o, m) == metadata_pairs(memory_type, o, m).last().1,
{
    assert(metadata_pairs(memory_type, None, None) =~= seq![
        ("node_type"@, "memory"@),
        ("type"@, memory_type),
    ]);
}

/// A document stands for its fields, and so do a frontmatter and its metadata.
pub proof fn law_documents_stand_for_their_fields(
    d: MemoryDoc,
    fm: MemoryFrontmatter,
    m: MemoryFrontmatterMetadata,
)
    ensures
        d@.name == d.name@ && d@.description == d.description@ && d@.body == d.body@,
        d.metadata is None ==> d@.metadata is None,
        d.metadata matches Some(x) ==> d@.metadata == Some(x@),
        fm@.name == fm.name@ && fm@.description == fm.description@,
        fm.metadata is None ==> fm@.metadata is None,
        fm.metadata matches Some(x) ==> fm@.metadata == Some(x@),
        m@.node_type == m.node_type@ && m@.memory_type == m.memory_type@,
        m.origin_session_id is None ==> m@.origin_session_id is None,
        m.origin_session_id matches Some(s) ==> m@.origin_session_id == Some(s@),
        m.modified is None ==> m@.modified is None,
        m.modified matches Some(s) ==> m@.modified == Some(s@),
{
}

} // verus!
