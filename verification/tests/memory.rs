use std::collections::BTreeMap;

use agent_works::error::AgentError;
use agent_works::memory::calendar::{civil_from_days, format_iso8601, iso8601_after, now_iso8601};
use agent_works::memory::frontmatter::{
    malformed_file, parse_memory_str, render_memory_file, split_frontmatter, MemoryDoc,
    MemoryFrontmatter, MemoryFrontmatterMetadata,
};
use agent_works::memory::index::{index_add, index_line_desc, index_remove, row_belongs};
use agent_works::memory::names::{
    is_valid_memory_name, join_path, project_slug, validate_memory_name, validate_memory_type,
    MEMORY_TYPES,
};
use agent_works::memory::store::{
    rebuild_index, tmp_file_name, MemoryConfig, MemoryStore, ScannedFile, StoreStep,
    CLAUDE_COMPATIBLE_TEMPLATE,
};

// ── project_slug ──

#[test]
fn slug_encodes_absolute_path() {
    assert_eq!(project_slug("/Users/xxx/project"), "-Users-xxx-project");
}

#[test]
fn slug_matches_claude_code_example() {
    assert_eq!(
        project_slug("/Users/kangzengchen/source/buka/buka-works/phimint"),
        "-Users-kangzengchen-source-buka-buka-works-phimint"
    );
}

#[test]
fn slug_strips_trailing_slash() {
    assert_eq!(project_slug("/a/b/"), "-a-b");
}

#[test]
fn slug_is_empty_for_root() {
    assert_eq!(project_slug("/"), "");
}

#[test]
fn slug_replaces_all_non_alphanumeric() {
    // Dots, underscores, spaces all become `-`
    assert_eq!(project_slug("/Users/alice/my.project_v2"), "-Users-alice-my-project-v2");
}

#[test]
fn slug_is_cut() {
    let slug = project_slug(&format!("/{}中", "A".repeat(300)));
    assert_eq!(slug.len(), 200);
    assert!(slug.starts_with("-AAA"));
    assert_eq!(project_slug("/中文/é"), "-----");
}

// ── name validation ──

#[test]
fn name_validation_accepts_kebab_case() {
    // `^[a-z0-9][a-z0-9-]*$` permits a trailing dash.
    for ok in ["a", "9", "valid-name", "a1-b2-c3", "9lives", "mem0ry", "trailing-"] {
        assert!(is_valid_memory_name(ok), "`{ok}` should be valid");
    }
}

#[test]
fn name_validation_rejects_path_escape_and_bad_shapes() {
    for bad in [
        "../../etc/passwd",
        "..",
        ".",
        "-leading-dash",
        "Upper",
        "has space",
        "has_underscore",
        "has.dot",
        "",
        "a/b",
        "中文",
        "a\nb",
    ] {
        assert!(!is_valid_memory_name(bad), "`{bad}` should be invalid");
    }
}

#[test]
fn validate_memory_name_error_mentions_rule() {
    let err = validate_memory_name("../escape").unwrap_err().to_text();
    assert!(err.contains("^[a-z0-9][a-z0-9-]*$"), "{err}");
    assert_eq!(
        err,
        "Internal error: invalid memory name `../escape`: must match ^[a-z0-9][a-z0-9-]*$ (kebab-case slug, no slashes/dots/underscores)"
    );
}

#[test]
fn memory_type_validation() {
    for t in MEMORY_TYPES {
        validate_memory_type(t).unwrap();
    }
    assert!(validate_memory_type("secret").is_err());
    assert!(validate_memory_type("").is_err());
    assert_eq!(
        validate_memory_type("x").unwrap_err(),
        AgentError::Internal(
            "invalid memory type `x`: must be one of user | feedback | project | reference"
                .to_string()
        )
    );
}

// ── frontmatter ──

fn text(v: &serde_yaml::Value, key: &str) -> Option<String> {
    v.get(key).and_then(|x| x.as_str()).map(str::to_string)
}

/// Reads frontmatter that holds strings.
fn read_yaml(yaml: &str) -> Option<MemoryFrontmatter> {
    let v: serde_yaml::Value = serde_yaml::from_str(yaml).ok()?;
    let metadata = match v.get("metadata") {
        Some(m) => Some(MemoryFrontmatterMetadata {
            node_type: text(m, "node_type")?,
            memory_type: text(m, "type")?,
            origin_session_id: text(m, "originSessionId"),
            modified: text(m, "modified"),
        }),
        None => None,
    };
    Some(MemoryFrontmatter {
        name: text(&v, "name")?,
        description: text(&v, "description")?,
        metadata,
    })
}

fn parse(raw: &str) -> Option<MemoryDoc> {
    let parsed = split_frontmatter(raw).and_then(|(yaml, _)| read_yaml(&yaml));
    parse_memory_str(raw, parsed)
}

#[test]
fn frontmatter_round_trip_preserves_fields() {
    let file = render_memory_file(
        "cargo-commit-discipline",
        "绝不主动 commit；commit 永不带 Cargo 文件",
        "feedback",
        Some("8ee16870-4dc8-4dd1-9d13-4fc7a9980f79"),
        Some("2026-09-04T11:33:28.939Z"),
        "**规则：**\n\n0. 绝不主动 commit\n",
    )
    .unwrap();

    let doc = parse(&file).unwrap();
    assert_eq!(doc.name, "cargo-commit-discipline");
    assert_eq!(doc.description, "绝不主动 commit；commit 永不带 Cargo 文件");
    let md = doc.metadata.unwrap();
    assert_eq!(md.node_type, "memory");
    assert_eq!(md.memory_type, "feedback");
    assert_eq!(md.origin_session_id.as_deref(), Some("8ee16870-4dc8-4dd1-9d13-4fc7a9980f79"));
    assert_eq!(md.modified.as_deref(), Some("2026-09-04T11:33:28.939Z"));
    assert_eq!(doc.body, "**规则：**\n\n0. 绝不主动 commit\n");
}

#[test]
fn rendered_files_have_the_expected_text() {
    let file =
        render_memory_file("t", "d", "user", Some("s"), Some("now"), "\n\nbody\n").unwrap();
    assert_eq!(
        file,
        "---\nname: t\ndescription: d\nmetadata:\n  node_type: memory\n  type: user\n  originSessionId: s\n  modified: now\n---\n\nbody\n"
    );
}

#[test]
fn frontmatter_omits_optional_fields_when_none() {
    let file = render_memory_file("t", "d", "project", None, None, "b").unwrap();
    assert!(!file.contains("originSessionId"));
    assert!(!file.contains("modified"));
    // Required fields still present.
    assert!(file.contains("node_type: memory"));
    assert!(file.contains("type: project"));
}

#[test]
fn frontmatter_escapes_special_yaml_characters() {
    let tricky = "has: colon, \"quotes\", #hash and 中文";
    let file = render_memory_file("t", tricky, "user", None, None, "b").unwrap();
    let doc = parse(&file).unwrap();
    assert_eq!(doc.description, tricky);
}

/// No line of a rendered frontmatter is taken for its end.
#[test]
fn descriptions_of_dashes_round_trip() {
    for desc in ["---", "--- x", "- a", "|", ">-", "a: b: c", "'", "x #y", "~", "null", "123"] {
        let file = render_memory_file("t", desc, "user", None, None, "---\nb").unwrap();
        let doc = parse(&file).unwrap();
        assert_eq!(doc.description, desc);
        assert_eq!(doc.body, "---\nb");
    }
}

/// Whatever the fields hold, short of a line feed, the file splits into its
/// frontmatter and its body.
#[test]
fn rendered_files_split() {
    let long = "word ".repeat(500);
    let fields = [
        "",
        "---",
        "--- ",
        "a\r---\r",
        "x\u{2028}---\u{2028}y",
        "\u{2029}",
        "a \u{2028}b",
        "\u{85}---",
        "\u{feff}",
        " lead",
        "trail ",
        "\t",
        "\0",
        "!tag",
        "&a",
        "*a",
        "? k",
        "- x",
        "...",
        "{}",
        "[1]",
        "'\"'",
        "true",
        "0x10",
        "1.0",
        &long,
    ];
    for field in fields {
        let file =
            render_memory_file(field, field, field, Some(field), Some(field), "\n---\nb").unwrap();
        let (yaml, body) = split_frontmatter(&file).unwrap();
        assert_eq!(body, "---\nb", "{field:?}");
        assert!(yaml.ends_with('\n') && yaml.lines().count() == 7, "{yaml:?}");
        assert_eq!(file, format!("---\n{yaml}---\n\n{body}"));
    }
}

/// Fields with line feeds are quoted or written as indented blocks.
#[test]
fn rendered_files_split_with_line_feeds() {
    for field in [
        "a\n---\nb",
        "---\n---",
        "\n",
        "a\n",
        "a\n\n",
        "\n---",
        " a\n b",
        "a \nb",
        "a\n ",
        "a\r\n---\r\nb",
        "\u{85}\n---",
        "x\n\tb",
    ] {
        let file =
            render_memory_file("n", "d", field, Some(field), Some(field), "\n---\nb").unwrap();
        let (yaml, body) = split_frontmatter(&file).unwrap();
        assert_eq!(body, "---\nb", "{field:?}");
        assert_eq!(file, format!("---\n{yaml}---\n\n{body}"));
        // Only the last field must not end in a separator behind a line feed.
        let odd = format!("{field}\n\u{2028}");
        for odd in [odd.as_str(), "a\n\u{2028}---", "\u{2028}\n---\n\u{2028}", "a\n\u{2029}\n---"] {
            let file =
                render_memory_file(odd, odd, odd, Some(odd), Some(field), "\n---\nb").unwrap();
            let (yaml, body) = split_frontmatter(&file).unwrap();
            assert_eq!(body, "---\nb", "{odd:?}");
            assert!(yaml.ends_with('\n'));
        }
        let md = parse(&file).unwrap().metadata.unwrap();
        assert_eq!(md.memory_type, field);
        assert_eq!(md.origin_session_id.as_deref(), Some(field));
        assert_eq!(md.modified.as_deref(), Some(field));
    }
}

#[test]
fn parse_rejects_missing_frontmatter() {
    assert!(parse("just some text\n").is_none());
    assert!(parse("---\nname: x\n").is_none()); // no closing ---
    assert_eq!(
        malformed_file("/m/x.md").to_text(),
        "Internal error: /m/x.md: missing or malformed frontmatter"
    );
}

#[test]
fn parse_rejects_empty_name_or_description() {
    let bad = "---\nname: \"\"\ndescription: d\n---\n\nbody\n";
    assert!(parse(bad).is_none());
    let bad = "---\nname: x\ndescription: \"\"\n---\n\nbody\n";
    assert!(parse(bad).is_none());
}

#[test]
fn parse_tolerates_missing_metadata_block() {
    let raw = "---\nname: legacy\ndescription: no metadata\n---\n\nbody\n";
    let doc = parse(raw).unwrap();
    assert_eq!(doc.name, "legacy");
    assert!(doc.metadata.is_none());
}

fn split(raw: &str) -> Option<(String, String)> {
    split_frontmatter(raw)
}

#[test]
fn splitting_follows_the_lines() {
    let pair = |a: &str, b: &str| Some((a.to_string(), b.to_string()));
    assert_eq!(split("---\na\n---\n\n\nb\n"), pair("a\n", "b\n"));
    assert_eq!(split("---\na\r\n---\r\nb"), pair("a\r\n", "b"));
    assert_eq!(split("---\n---"), pair("", ""));
    assert_eq!(split("---\n ---\n----\n---\nx"), pair(" ---\n----\n", "x"));
    assert_eq!(split("---\r\na\n---\n"), None);
    assert_eq!(split(""), None);
}

// ── timestamps ──

#[test]
fn civil_from_days_known_values() {
    assert_eq!(civil_from_days(0), (1970, 1, 1));
    assert_eq!(civil_from_days(11_017), (2000, 3, 1));
    assert_eq!(civil_from_days(19_723), (2024, 1, 1));
}

#[test]
fn civil_from_days_around_leap_days() {
    assert_eq!(civil_from_days(-1), (1969, 12, 31));
    assert_eq!(civil_from_days(11_016), (2000, 2, 29));
    assert_eq!(civil_from_days(19_782), (2024, 2, 29));
    assert_eq!(civil_from_days(47_540), (2100, 2, 28));
    assert_eq!(civil_from_days(47_541), (2100, 3, 1));
    assert_eq!(civil_from_days(-719_468), (0, 3, 1));
}

#[test]
fn iso8601_known_values() {
    assert_eq!(format_iso8601(0, 0), "1970-01-01T00:00:00.000Z");
    assert_eq!(format_iso8601(951_782_399, 7), "2000-02-28T23:59:59.007Z");
    assert_eq!(format_iso8601(-1, 999), "1969-12-31T23:59:59.999Z");
    assert_eq!(format_iso8601(253_402_300_800, 0), "10000-01-01T00:00:00.000Z");
    assert_eq!(format_iso8601(-62_198_755_200, 0), "-001-01-01T00:00:00.000Z");
}

#[test]
fn iso8601_of_a_duration() {
    let d = std::time::Duration::new(951_782_399, 7_999_999);
    assert_eq!(iso8601_after(d), "2000-02-28T23:59:59.007Z");
}

#[test]
fn now_iso8601_has_canonical_shape() {
    let ts = now_iso8601();
    // 2026-09-13T08:15:30.123Z
    assert_eq!(ts.len(), 24, "{ts}");
    assert!(ts.ends_with('Z'));
    let bytes = ts.as_bytes();
    for (i, expected) in [
        b'd', b'd', b'd', b'd', b'-', b'd', b'd', b'-', b'd', b'd', b'T', b'd', b'd', b':',
        b'd', b'd', b':', b'd', b'd', b'.', b'd', b'd', b'd', b'Z',
    ]
    .iter()
    .enumerate()
    {
        let actual = bytes[i];
        match expected {
            b'd' => assert!(actual.is_ascii_digit(), "{ts}"),
            b'-' | b'T' | b':' | b'.' | b'Z' => assert_eq!(actual, *expected, "{ts}"),
            _ => unreachable!(),
        }
    }
    let year: i32 = ts[..4].parse().unwrap();
    assert!((2024..=2100).contains(&year), "{ts}");
}

// ── index_add ──

#[test]
fn index_add_creates_index_on_first_write() {
    assert_eq!(
        index_add("", "alpha", "first memory"),
        "- [first memory](alpha.md) — first memory\n"
    );
}

#[test]
fn index_add_appends_without_touching_other_rows() {
    // Rows with human titles (Chinese link text).
    let index = index_add(
        "- [提交纪律](cargo-commit-discipline.md) — 绝不主动 commit\n- [工作原则](working-principles.md) — 高内聚低耦合\n",
        "new-entry",
        "brand new",
    );
    assert_eq!(
        index,
        "- [提交纪律](cargo-commit-discipline.md) — 绝不主动 commit\n\
         - [工作原则](working-principles.md) — 高内聚低耦合\n\
         - [brand new](new-entry.md) — brand new\n"
    );
}

#[test]
fn index_add_updates_existing_row_only() {
    let index = index_add(
        "- [旧标题](target.md) — 旧描述\n- [工作原则](working-principles.md) — 高内聚低耦合\n",
        "target",
        "new description",
    );
    assert_eq!(
        index,
        "- [new description](target.md) — new description\n\
         - [工作原则](working-principles.md) — 高内聚低耦合\n"
    );
}

#[test]
fn index_add_is_name_scoped_not_prefix_scoped() {
    // `test.md` must not match the row for `test-long.md`.
    let index = index_add("- [Long](test-long.md) — long desc\n", "test", "short desc");
    assert_eq!(
        index,
        "- [Long](test-long.md) — long desc\n- [short desc](test.md) — short desc\n"
    );
}

#[test]
fn index_add_sanitizes_newlines_in_description() {
    let index = index_add("", "multi", "line one\nline two");
    assert_eq!(index.lines().count(), 1, "{index}");
    assert!(index.contains("line one line two"), "{index}");
    assert_eq!(index_line_desc(" a\r\nb\n"), "a  b");
}

/// A row is its own link's, not that of a link in its text.
#[test]
fn rows_of_other_memories_stay_verbatim() {
    let row = "- [O](other.md) — see [t](target.md)\n";
    assert_eq!(index_add(row, "target", "d"), format!("{row}- [d](target.md) — d\n"));
    assert_eq!(index_remove(row, "target"), row);
    assert_eq!(index_remove(row, "other"), "");
    let both = format!("{row}* [T](target.md) — old\n");
    assert_eq!(index_add(&both, "target", "d"), format!("{row}- [d](target.md) — d\n"));
    // Carriage returns, blanks at the end of rows and blank rows are kept.
    let odd = "- [A](a.md) — a\r\n\n- [B](b.md) — b  \r\n";
    assert_eq!(index_add(odd, "c", "x"), format!("{odd}- [x](c.md) — x\n"));
    assert_eq!(index_add(odd, "a", "x"), "- [x](a.md) — x\n\n- [B](b.md) — b  \r\n");
    assert_eq!(index_remove(odd, "a"), "\n- [B](b.md) — b  \r\n");
    assert_eq!(index_remove(odd, "c"), odd);
    assert_eq!(index_add("- [A](a.md) — a  ", "b", "x"), "- [A](a.md) — a  \n- [x](b.md) — x\n");
}

/// A description may hold links: the row written for it is its memory's still.
#[test]
fn descriptions_with_links_stay_with_their_memory() {
    let mut index = String::new();
    for desc in ["see [t](target.md)", "](target.md)", "a](b", "[x](y.md) — [x](y.md)"] {
        index = index_add(&index, "other", desc);
        assert_eq!(index, format!("- [{desc}](other.md) — {desc}\n"));
        assert!(row_belongs(index.trim_end(), "other"));
        assert!(!row_belongs(index.trim_end(), "target"));
    }
    let two = index_add(&index, "target", "d");
    assert_eq!(two, format!("{index}- [d](target.md) — d\n"));
    assert_eq!(index_remove(&two, "target"), index);
    assert!(!row_belongs("no link", "target") && !row_belongs("", "target"));
}

/// However often and in whatever order names are written, each has one row.
#[test]
fn each_name_has_one_row() {
    let mut index = String::new();
    for i in 0..40 {
        index = index_add(&index, &format!("m{}", i * 7 % 5), &format!("d{i} ](m0.md)"));
    }
    assert_eq!(index.lines().count(), 5);
    for n in 0..5 {
        let name = format!("m{n}");
        assert_eq!(index.lines().filter(|l| row_belongs(l, &name)).count(), 1);
    }
}

#[test]
fn adding_twice_is_adding_once() {
    for start in ["", "x\n\n", "- [A](a.md) — a", "- [A](a.md) — a\r\n- [B](b.md) — b"] {
        let once = index_add(start, "a", "new");
        assert_eq!(index_add(&once, "a", "new"), once);
    }
}

// ── index_remove ──

#[test]
fn index_remove_deletes_only_target_row() {
    let index = index_remove("- [A](a.md) — a\n- [B](b.md) — b\n- [C](c.md) — c\n", "b");
    assert_eq!(index, "- [A](a.md) — a\n- [C](c.md) — c\n");
}

#[test]
fn index_remove_last_row_leaves_empty_index() {
    assert_eq!(index_remove("- [A](a.md) — a\n", "a"), "");
}

#[test]
fn index_remove_missing_name_is_noop() {
    assert_eq!(index_remove("- [A](a.md) — a\n", "ghost"), "- [A](a.md) — a\n");
}

#[test]
fn index_ops_tolerate_missing_index_file() {
    assert_eq!(index_remove(&index_add("", "a", "a desc"), "a"), "");
}

#[test]
fn removing_undoes_adding() {
    let start = "- [A](a.md) — a\n\n- [B](b.md) — b\n";
    assert_eq!(index_remove(&index_add(start, "c", "new"), "c"), start);
}

// ── rebuild_index ──

fn scanned(name: &str, raw: &str) -> ScannedFile {
    ScannedFile { file_name: name.to_string(), doc: parse(raw) }
}

#[test]
fn rebuild_index_recovers_from_memory_files() {
    let files = vec![
        scanned(
            "beta.md",
            "---\nname: beta\ndescription: second\nmetadata:\n  node_type: memory\n  type: project\n---\n\nbody\n",
        ),
        scanned(
            "alpha.md",
            "---\nname: alpha\ndescription: first\nmetadata:\n  node_type: memory\n  type: user\n---\n\nbody\n",
        ),
        // Corrupt file must be skipped, not fatal.
        scanned("broken.md", "not frontmatter at all\n"),
        // Index file itself must be excluded.
        scanned("MEMORY.md", "---\nname: MEMORY\ndescription: d\n---\n"),
        scanned("note.txt", "---\nname: note\ndescription: d\n---\n"),
    ];
    assert_eq!(
        rebuild_index(&files, "MEMORY.md"),
        "- [alpha](alpha.md) — first\n- [beta](beta.md) — second\n"
    );
}

#[test]
fn rebuild_index_skips_filename_name_mismatch() {
    let files = vec![scanned(
        "mismatch.md",
        "---\nname: other-name\ndescription: d\n---\n\nbody\n",
    )];
    let index = rebuild_index(&files, "MEMORY.md");
    assert_eq!(index, "", "mismatched file must not produce a dangling link: {index}");
}

#[test]
fn rows_are_sorted_by_code_point() {
    let names = ["b", "a-b", "ab", "a", "0"];
    let files: Vec<ScannedFile> = names
        .iter()
        .map(|n| scanned(&format!("{n}.md"), &format!("---\nname: \"{n}\"\ndescription: d\n---\n")))
        .collect();
    let index = rebuild_index(&files, "MEMORY.md");
    let mut expected: Vec<String> = names.iter().map(|n| format!("- [{n}]({n}.md) — d")).collect();
    expected.sort();
    assert_eq!(index, expected.join("\n") + "\n");
}

// ── MemoryStore ──

/// A memory directory held in a map from path to content.
struct Disk {
    files: BTreeMap<String, String>,
}

impl Disk {
    fn new() -> Disk {
        Disk { files: BTreeMap::new() }
    }

    fn index(&self, store: &MemoryStore) -> String {
        self.files.get(&store.index_path()).cloned().unwrap_or_default()
    }

    fn run(&mut self, store: &MemoryStore, steps: Vec<StoreStep>) {
        for step in steps {
            match step {
                StoreStep::EnsureDir { path } => assert_eq!(path, store.memory_root()),
                StoreStep::WriteFile { path, content } => {
                    self.files.insert(path, content);
                }
                StoreStep::AddRow { name, description } => {
                    let index = index_add(&self.index(store), &name, &description);
                    self.files.insert(store.index_path(), index);
                }
                StoreStep::RemoveRow { name } => {
                    let index = index_remove(&self.index(store), &name);
                    self.files.insert(store.index_path(), index);
                }
                StoreStep::RemoveFile { path } => {
                    self.files.remove(&path).unwrap();
                }
            }
        }
    }

    fn write(&mut self, store: &MemoryStore, name: &str, desc: &str, kind: &str, body: &str) {
        let steps = store.write_memory(name, desc, kind, body, None).unwrap();
        self.run(store, steps);
    }

    fn scan(&self, store: &MemoryStore) -> Vec<ScannedFile> {
        let prefix = format!("{}/", store.memory_root());
        self.files.iter().map(|(path, raw)| scanned(&path[prefix.len()..], raw)).collect()
    }
}

fn store() -> MemoryStore {
    MemoryStore::new("/m/memory".to_string(), "MEMORY.md".to_string())
}

#[test]
fn store_first_write_creates_dir_file_and_index() {
    let store = store();
    let mut disk = Disk::new();
    let steps =
        store.write_memory("my-note", "a note", "project", "the body", Some("sess-1")).unwrap();
    assert_eq!(steps.len(), 3);
    assert_eq!(steps[0], StoreStep::EnsureDir { path: "/m/memory".to_string() });
    disk.run(&store, steps);
    let raw = &disk.files["/m/memory/my-note.md"];
    assert!(raw.contains("name: my-note"));
    assert!(raw.contains("originSessionId: sess-1"));
    assert!(raw.contains("modified: "));
    assert!(raw.ends_with("the body"));
    let index = disk.index(&store);
    assert!(index.contains("- [a note](my-note.md) — a note"), "{index}");
}

#[test]
fn store_same_name_update_writes_single_file_with_second_content() {
    let store = store();
    let mut disk = Disk::new();
    disk.write(&store, "dup", "first desc", "project", "first body");
    disk.write(&store, "dup", "second desc", "feedback", "second body");
    assert_eq!(
        disk.files.keys().cloned().collect::<Vec<_>>(),
        vec!["/m/memory/MEMORY.md".to_string(), "/m/memory/dup.md".to_string()]
    );
    let raw = &disk.files["/m/memory/dup.md"];
    assert!(raw.contains("second body"));
    assert!(!raw.contains("first body"));
    let index = disk.index(&store);
    assert_eq!(index.matches("(dup.md)").count(), 1, "{index}");
    assert!(index.contains("second desc"), "{index}");
}

#[test]
fn store_read_returns_raw_file_content() {
    let store = store();
    let mut disk = Disk::new();
    disk.write(&store, "note", "d", "user", "remember this");
    let raw =
        store.read_memory("note", disk.files.get(&store.memory_path("note")).cloned()).unwrap();
    assert!(raw.starts_with("---\n"));
    assert!(raw.contains("remember this"));
}

#[test]
fn store_read_missing_is_error() {
    let err = store().read_memory("ghost", None).unwrap_err().to_text();
    assert!(err.contains("not found"), "{err}");
    assert_eq!(
        err,
        "Internal error: memory `ghost` not found (looked at /m/memory/ghost.md)"
    );
    assert!(store().read_memory("../x", Some("secret".to_string())).is_err());
}

#[test]
fn store_delete_removes_file_and_index_row() {
    let store = store();
    let mut disk = Disk::new();
    disk.write(&store, "gone", "d1", "user", "b1");
    disk.write(&store, "kept", "d2", "user", "b2");

    let steps = store.delete_memory("gone", true).unwrap();
    assert_eq!(
        steps,
        vec![
            StoreStep::RemoveRow { name: "gone".to_string() },
            StoreStep::RemoveFile { path: "/m/memory/gone.md".to_string() },
        ]
    );
    disk.run(&store, steps);
    assert!(!disk.files.contains_key("/m/memory/gone.md"));
    assert!(disk.files.contains_key("/m/memory/kept.md"));
    let index = disk.index(&store);
    assert!(!index.contains("(gone.md)"), "{index}");
    assert!(index.contains("(kept.md)"), "{index}");
}

#[test]
fn store_delete_missing_is_error() {
    let err = store().delete_memory("ghost", false).unwrap_err().to_text();
    assert!(err.contains("not found"), "{err}");
}

#[test]
fn store_write_rejects_invalid_name_and_type() {
    let store = store();
    assert!(store.write_memory("../x", "d", "user", "b", None).is_err());
    assert!(store.write_memory("ok-name", "d", "wrong-type", "b", None).is_err());
    assert!(store.write_memory("ok-name", "multi\nline", "user", "b", None).is_err());
    assert_eq!(
        store.write_memory("ok-name", "multi\nline", "user", "b", None).unwrap_err(),
        AgentError::Internal(
            "invalid memory description: must be a single line (no newlines)".to_string()
        )
    );
}

#[test]
fn store_list_skips_corrupt_and_sorts() {
    let store = store();
    let mut disk = Disk::new();
    disk.write(&store, "zeta", "last", "project", "b");
    disk.write(&store, "alpha", "first", "user", "b");
    disk.files
        .insert("/m/memory/corrupt.md".to_string(), "garbage without frontmatter".to_string());

    let entries = store.list_memories(&disk.scan(&store));
    let names: Vec<_> = entries.iter().map(|e| e.name.as_str()).collect();
    assert_eq!(names, vec!["alpha", "zeta"]);
    assert_eq!(entries[0].memory_type.as_deref(), Some("user"));
    assert!(entries[0].modified.as_deref().unwrap().ends_with('Z'));
}

#[test]
fn store_list_missing_dir_is_empty() {
    assert!(store().list_memories(&vec![]).is_empty());
}

#[test]
fn writing_at_a_given_time() {
    let steps = store()
        .write_memory_at("n", "d", "user", "b", None, "2026-09-13T08:15:30.123Z")
        .unwrap();
    match &steps[1] {
        StoreStep::WriteFile { path, content } => {
            assert_eq!(path, "/m/memory/n.md");
            assert!(content.contains("modified: 2026-09-13T08:15:30.123Z"), "{content}");
        }
        other => panic!("expected WriteFile, got {:?}", other),
    }
}

#[test]
fn the_root_follows_home_and_workspace() {
    let c = MemoryConfig::claude_compatible_in(Some("/home/u".to_string()), "/w/my.app/", ".tool");
    assert_eq!(c.memory_root, "/home/u/.tool/projects/-w-my-app/memory");
    assert_eq!(c.index_filename, "MEMORY.md");
    assert_eq!(c.prompt_template, CLAUDE_COMPATIBLE_TEMPLATE);
    let c = MemoryConfig::claude_compatible_in(None, "/w", ".tool");
    assert_eq!(c.memory_root, "./.tool/projects/-w/memory");
    // The user's own home is used where there is one.
    let c = MemoryConfig::claude_compatible("/w", ".tool");
    assert!(c.memory_root.ends_with(".tool/projects/-w/memory"), "{}", c.memory_root);
    let c = MemoryConfig::custom("/r".to_string(), "t".to_string());
    assert_eq!((c.memory_root.as_str(), c.prompt_template.as_str()), ("/r", "t"));
}

/// Joining agrees with the standard library's paths.
#[test]
fn paths_join_as_usual() {
    for base in ["", "/", "a", "a/", "/x/y"] {
        for part in ["", "b", "/b", "b/c", "../d", "."] {
            let expected = std::path::Path::new(base).join(part);
            assert_eq!(join_path(base, part), expected.to_string_lossy());
        }
    }
}

#[test]
fn temporary_names_are_hidden() {
    assert_eq!(tmp_file_name(Some("a.md".to_string()), 7), ".a.md.7.tmp");
    assert_eq!(tmp_file_name(None, 0), ".memory-index.0.tmp");
}
