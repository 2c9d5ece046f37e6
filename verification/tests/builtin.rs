use agent_works::builtin::file_exists::FileExistsTool;
use agent_works::builtin::list_directory::{ListDirectoryTool, ListOutcome};
use agent_works::builtin::path_util::{full_path, lies_inside, validate_path, PathFacts};
use agent_works::builtin::read_file::ReadFileTool;
use agent_works::builtin::search_replace::{
    replace_once, EditStep, ReplaceStep, SearchReplaceTool,
};
use agent_works::builtin::write_file::{WriteFileTool, WriteOutcome};
use agent_works::json::Json;

fn json(s: &str) -> Json {
    Json::parse(s).unwrap()
}

fn path_json() -> Json {
    Json::Str("path".to_string())
}

#[test]
fn file_exists_test_name_and_schema() {
    let tool = FileExistsTool { workspace: "/tmp".to_string() };
    assert_eq!(tool.name(), "file_exists");
    assert!(tool.description().contains("exists"));
    let schema = tool.schema();
    assert_eq!(schema.get_str("type"), Some("object"));
    assert!(schema.get_array("required").unwrap().contains(&path_json()));
}

#[test]
fn list_directory_test_name_and_schema() {
    let tool = ListDirectoryTool { workspace: "/tmp".to_string() };
    assert_eq!(tool.name(), "list_directory");
    assert!(tool.description().contains("directory"));
    assert_eq!(tool.schema().get_str("type"), Some("object"));
    assert!(tool.schema().get_array("required").unwrap().is_empty());
}

#[test]
fn read_file_test_name_and_schema() {
    let tool = ReadFileTool { workspace: "/tmp".to_string() };
    assert_eq!(tool.name(), "read_file");
    assert!(tool.description().contains("Read"));
    assert!(tool.schema().get_array("required").unwrap().contains(&path_json()));
}

#[test]
fn editing_tools_name_and_schema() {
    let tool = WriteFileTool { workspace: "/tmp".to_string() };
    assert_eq!(tool.name(), "write_file");
    assert_eq!(tool.schema().get_array("required").unwrap().len(), 2);
    let tool = SearchReplaceTool { workspace: "/tmp".to_string() };
    assert_eq!(tool.name(), "search_replace");
    let schema = tool.schema();
    let properties = schema.get("properties").unwrap();
    assert_eq!(
        properties.get("new_str").unwrap().get_str("description"),
        Some("Text to replace with")
    );
    assert_eq!(schema.get_array("required").unwrap().len(), 3);
}

#[test]
fn arguments_must_be_strings() {
    let read = ReadFileTool { workspace: "/w".to_string() };
    assert_eq!(read.call(&json(r#"{"path": "a"}"#)).unwrap(), "a");
    for bad in ["{}", r#"{"path": 1}"#, "null"] {
        assert_eq!(
            read.call(&json(bad)).unwrap_err().to_text(),
            "Internal error: missing 'path' argument"
        );
    }
    let exists = FileExistsTool { workspace: "/w".to_string() };
    assert!(exists.call(&json("{}")).is_err());
    let list = ListDirectoryTool { workspace: "/w".to_string() };
    assert_eq!(list.call(&json("{}")), ".");
    assert_eq!(list.call(&json(r#"{"path": "d"}"#)), "d");
    let write = WriteFileTool { workspace: "/w".to_string() };
    let q = write.call(&json(r#"{"path": "p", "content": "c"}"#)).unwrap();
    assert_eq!((q.path.as_str(), q.content.as_str()), ("p", "c"));
    match write.call(&json(r#"{"path": "p"}"#)) {
        Err(e) => assert_eq!(e.to_text(), "Internal error: missing 'content' argument"),
        Ok(_) => panic!("expected an error"),
    }
}

#[test]
fn answers_name_the_path() {
    let read = ReadFileTool { workspace: "/w".to_string() };
    assert_eq!(read.answer("/w/a", Ok("text".to_string())).unwrap(), "text");
    assert_eq!(
        read.answer("/w/a", Err("gone".to_string())).unwrap_err().to_text(),
        "Internal error: failed to read /w/a: gone"
    );
    let exists = FileExistsTool { workspace: "/w".to_string() };
    assert_eq!(exists.answer("a", true), "a exists");
    assert_eq!(exists.answer("a", false), "a does not exist");
    let list = ListDirectoryTool { workspace: "/w".to_string() };
    let names = vec!["x".to_string(), "y".to_string()];
    assert_eq!(list.answer("d", "/w/d", ListOutcome::Listed(names)).unwrap(), "x\ny");
    assert_eq!(
        list.answer("d", "/w/d", ListOutcome::Listed(vec![])).unwrap(),
        "Directory d is empty"
    );
    let error = "e".to_string();
    assert_eq!(
        list.answer("d", "/w/d", ListOutcome::NotOpened { error }).unwrap_err().to_text(),
        "Internal error: failed to read dir /w/d: e"
    );
    let error = "e".to_string();
    assert_eq!(
        list.answer("d", "/w/d", ListOutcome::EntryFailed { error }).unwrap_err().to_text(),
        "Internal error: failed to read entry: e"
    );
    let write = WriteFileTool { workspace: "/w".to_string() };
    assert_eq!(
        write.answer("a", "/w/a", WriteOutcome::Written).unwrap(),
        "Successfully wrote to a"
    );
    let outcome =
        WriteOutcome::NoDirectory { directory: "/w/d".to_string(), error: "e".to_string() };
    assert_eq!(
        write.answer("a", "/w/a", outcome).unwrap_err().to_text(),
        "Internal error: failed to create directory /w/d: e"
    );
    let outcome = WriteOutcome::NotWritten { error: "e".to_string() };
    assert_eq!(
        write.answer("a", "/w/a", outcome).unwrap_err().to_text(),
        "Internal error: failed to write /w/a: e"
    );
}

#[test]
fn replacing_touches_the_first_occurrence() {
    for (s, old, new) in [
        ("aXbXc", "X", "--"),
        ("abc", "x", "y"),
        ("abc", "", "y"),
        ("", "", "y"),
        ("中中", "中", ""),
        ("aaa", "aa", "b"),
    ] {
        assert_eq!(replace_once(s, old, new), s.replacen(old, new, 1));
    }
}

#[test]
fn search_replace_goes_step_by_step() {
    let tool = SearchReplaceTool { workspace: "/w".to_string() };
    match tool.call(&json(r#"{"path": "f", "old_str": "a", "new_str": "a"}"#)) {
        Ok(ReplaceStep::Settled(s)) => {
            assert_eq!(s, "No changes needed in f (old_str == new_str)");
        }
        _ => panic!("expected a settled call"),
    }
    match tool.call(&json(r#"{"path": "f", "old_str": "a", "new_str": "b"}"#)) {
        Ok(ReplaceStep::Edit { path, old_str, new_str }) => {
            assert_eq!(path + &old_str + &new_str, "fab");
        }
        _ => panic!("expected an edit"),
    }
    for (args, missing) in [
        ("{}", "path"),
        (r#"{"path": "f"}"#, "old_str"),
        (r#"{"path": "f", "old_str": "a"}"#, "new_str"),
    ] {
        match tool.call(&json(args)) {
            Err(e) => {
                assert_eq!(e.to_text(), format!("Internal error: missing '{missing}' argument"));
            }
            Ok(_) => panic!("expected an error"),
        }
    }
    match tool.edit("f", "/w/f", Ok("xay".to_string()), "a", "b") {
        Ok(EditStep::Write(s)) => assert_eq!(s, "xby"),
        _ => panic!("expected a write"),
    }
    match tool.edit("f", "/w/f", Ok("xyz".to_string()), "a", "b") {
        Ok(EditStep::Settled(s)) => assert_eq!(s, "Text not found in f"),
        _ => panic!("expected nothing to be found"),
    }
    assert!(tool.edit("f", "/w/f", Err("e".to_string()), "a", "b").is_err());
    assert_eq!(tool.answer("f", "/w/f", None).unwrap(), "Successfully replaced text in f");
    assert_eq!(
        tool.answer("f", "/w/f", Some("e".to_string())).unwrap_err().to_text(),
        "Internal error: failed to write /w/f: e"
    );
}

// ── Paths ──

/// What the file system says of a new file in the workspace's own directory.
fn facts(parent: &str, name: &str) -> PathFacts {
    PathFacts {
        exists: false,
        dangling: None,
        resolved: Err("unused".to_string()),
        file_name: Some(name.to_string()),
        parent: parent.to_string(),
        resolved_parent: Ok(parent.to_string()),
        resolved_workspace: Ok("/w".to_string()),
    }
}

#[test]
fn test_valid_path() {
    let result = validate_path("/w", "hello.txt", &facts("/w", "hello.txt"));
    assert_eq!(result.unwrap(), "/w/hello.txt", "simple path should be valid");
}

#[test]
fn test_traversal_rejected() {
    let result = validate_path("/w", "../../etc/passwd", &facts("/etc", "passwd"));
    assert_eq!(
        result.unwrap_err().to_text(),
        "Internal error: path '../../etc/passwd' resolves outside workspace (resolved to /etc/passwd)"
    );
}

#[test]
fn test_null_byte_rejected() {
    let result = validate_path("/w", "hello\0world", &facts("/w", "x"));
    assert_eq!(result.unwrap_err().to_text(), "Internal error: path contains null byte");
}

#[test]
fn test_empty_path_rejected() {
    let result = validate_path("/w", "", &facts("/w", "x"));
    assert_eq!(result.unwrap_err().to_text(), "Internal error: path must not be empty");
    assert!(full_path("/w", "").is_err());
    assert_eq!(full_path("/w", "a/b").unwrap(), "/w/a/b");
}

/// What is written through a link to nothing goes where the link leads.
#[test]
fn dangling_links_must_lead_inside() {
    let mut f = facts("/w", "link");
    f.dangling = Some(Ok("/etc/new".to_string()));
    assert_eq!(
        validate_path("/w", "link", &f).unwrap_err().to_text(),
        "Internal error: path 'link' resolves outside workspace (resolved to /etc/new)"
    );
    f.dangling = Some(Err("too many links".to_string()));
    assert_eq!(
        validate_path("/w", "link", &f).unwrap_err().to_text(),
        "Internal error: failed to resolve path /w/link: too many links"
    );
    f.dangling = Some(Ok("/w/sub/new".to_string()));
    assert_eq!(validate_path("/w", "link", &f).unwrap(), "/w/link");
    // A link to something is judged by where it leads.
    f.dangling = None;
    f.exists = true;
    f.resolved = Ok("/etc/passwd".to_string());
    assert!(validate_path("/w", "link", &f).is_err());
    f.resolved = Ok("/w/real".to_string());
    assert_eq!(validate_path("/w", "link", &f).unwrap(), "/w/real");
}

/// A path that was let through is let through again.
#[test]
fn validated_paths_stay_valid() {
    let p = validate_path("/w", "d/../hello.txt", &facts("/w", "hello.txt")).unwrap();
    assert_eq!(p, "/w/hello.txt");
    assert_eq!(validate_path("/w", &p, &facts("/w", "hello.txt")).unwrap(), p);
}

#[test]
fn unresolved_paths_are_errors() {
    let text = |f: &PathFacts| validate_path("/w", "a", f).unwrap_err().to_text();
    let mut f = facts("/w", "a");
    f.resolved_workspace = Err("e1".to_string());
    assert_eq!(text(&f), "Internal error: failed to resolve workspace /w: e1");
    f.resolved_parent = Err("e2".to_string());
    assert_eq!(text(&f), "Internal error: failed to resolve parent directory /w: e2");
    f.file_name = None;
    assert_eq!(text(&f), "Internal error: invalid path: /w/a");
    f.exists = true;
    assert_eq!(text(&f), "Internal error: failed to resolve path /w/a: unused");
    f.resolved = Ok("/w/real".to_string());
    f.resolved_workspace = Ok("/w".to_string());
    assert_eq!(validate_path("/w", "a", &f).unwrap(), "/w/real");
}

/// Lying inside is decided as the standard library's paths do.
#[test]
fn inside_is_by_components() {
    let samples = [
        "/", "/w", "/w/", "/w/a", "/wa", "/w/./a", "/w//a/b", "w", "w/a", "./w", "", ".", "/w/../x",
    ];
    for base in samples {
        for path in samples {
            assert_eq!(
                lies_inside(base, path),
                std::path::Path::new(path).starts_with(base),
                "{base:?} {path:?}"
            );
        }
    }
}
