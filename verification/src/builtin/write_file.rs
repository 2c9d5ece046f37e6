//! `write_file`: writes a file.

use vstd::prelude::*;
use crate::builtin::schema::{
    failed, failed_text, law_schemas_tell_the_parameters, missing_text, object_schema, param, param_schema, schema_of,
    text_arg,
};
use crate::error::{AgentError, ErrorView};
use crate::json::{
    json_views, member, member_in, member_views, no_members, str_json, text_member, with_member,
    Json, JsonV,
};

verus! {

/// Writes content to a file.
pub struct WriteFileTool {
    pub workspace: String,
}

/// What a call asks to write.
pub struct WriteRequest {
    pub path: String,
    pub content: String,
}

/// What became of a write.
pub enum WriteOutcome {
    Written,
    /// The directory could not be created.
    NoDirectory { directory: String, error: String },
    /// The file could not be written.
    NotWritten { error: String },
}

pub open spec fn write_file_schema() -> JsonV {
    object_schema(
        seq![
            ("path"@, param_schema("Path to the file to write"@)),
            ("content"@, param_schema("Content to write to the file"@)),
        ],
        seq![JsonV::Str("path"@), JsonV::Str("content"@)],
    )
}

impl WriteFileTool {
    pub fn name(&self) -> (r: &'static str)
        ensures
            r@ == "write_file"@,
    {
        "write_file"
    }

    pub fn description(&self) -> (r: &'static str)
        ensures
            r@ == "Write content to a file"@,
    {
        "Write content to a file"
    }

    pub fn schema(&self) -> (r: Json)
        ensures
            r@ == write_file_schema(),
    {
        let p = with_member(no_members(), "path", param("Path to the file to write"));
        let p = with_member(p, "content", param("Content to write to the file"));
        let ghost want = seq![
            ("path"@, param_schema("Path to the file to write"@)),
            ("content"@, param_schema("Content to write to the file"@)),
        ];
        assert(member_views(p@) =~= want);
        let mut req: Vec<Json> = Vec::new();
        req.push(str_json("path"));
        req.push(str_json("content"));
        assert(json_views(req@) =~= seq![JsonV::Str("path"@), JsonV::Str("content"@)]);
        schema_of(p, req)
    }

    /// What a call asks to write; the path is looked at first.
    pub fn call(&self, args: &Json) -> (r: Result<WriteRequest, AgentError>)
        ensures
            match (text_member(args@, "path"@), text_member(args@, "content"@)) {
                (Some(p), Some(c)) => r matches Ok(q) && q.path@ == p && q.content@ == c,
                (None, _) => r matches Err(e) && e@ == ErrorView::Internal(missing_text("path"@)),
                (Some(_), None) => r matches Err(e) && e@ == ErrorView::Internal(
                    missing_text("content"@),
                ),
            },
    {
        let path = match text_arg(args, "path") {
            Ok(s) => s,
            Err(e) => {
                return Err(e);
            },
        };
        match text_arg(args, "content") {
            Ok(c) => Ok(WriteRequest { path: path.to_owned(), content: c.to_owned() }),
            Err(e) => Err(e),
        }
    }

    /// The answer, where `outcome` is what became of the write of the file at
    /// `full_path`, which the call named `path`.
    pub fn answer(&self, path: &str, full_path: &str, outcome: WriteOutcome) -> (r: Result<
        String,
        AgentError,
    >)
        ensures
            match outcome {
                WriteOutcome::Written => r matches Ok(s) && s@ == "Successfully wrote to "@ + path@,
                WriteOutcome::NoDirectory { directory, error } => r matches Err(x) && x@
                    == ErrorView::Internal(
                    failed_text("failed to create directory "@, directory@, error@),
                ),
                WriteOutcome::NotWritten { error } => r matches Err(x) && x@
                    == ErrorView::Internal(failed_text("failed to write "@, full_path@, error@)),
            },
    {
        match outcome {
            WriteOutcome::Written => {
                let mut m = "Successfully wrote to ".to_owned();
                m.append(path);
                Ok(m)
            },
            WriteOutcome::NoDirectory { directory, error } => Err(
                failed("failed to create directory ", directory.as_str(), error.as_str()),
            ),
            WriteOutcome::NotWritten { error } => Err(
                failed("failed to write ", full_path, error.as_str()),
            ),
        }
    }
}

/// The tool takes a path and the content to write, both strings, and requires
/// both.
pub proof fn law_the_schema_names_the_arguments()
    ensures
        ({
            let v = write_file_schema();
            &&& member(v, "type"@) == Some(JsonV::Str("object"@))
            &&& member(v, "required"@) == Some(JsonV::Array(seq![JsonV::Str("path"@), JsonV::Str("content"@)]))
            &&& member(v, "properties"@) matches Some(p)
            &&& member(p, "path"@) matches Some(path)
            &&& member(path, "type"@) == Some(JsonV::Str("string"@))
            &&& member(p, "content"@) matches Some(content)
            &&& member(content, "type"@) == Some(JsonV::Str("string"@))
        }),
{
    let m = write_file_schema()->Object_0[1].1->Object_0;
    reveal_strlit("path");
    reveal_strlit("content");
    assert("path"@[0] == 'p');
    assert("content"@[0] == 'c');
    law_schemas_tell_the_parameters(m, seq![JsonV::Str("path"@), JsonV::Str("content"@)], m[0].1->Object_0[1].1->Str_0);
    law_schemas_tell_the_parameters(m, seq![JsonV::Str("path"@), JsonV::Str("content"@)], m[1].1->Object_0[1].1->Str_0);
    reveal_with_fuel(member_in, 4);
    assert(m.drop_first()[0] == m[1]);
}

} // verus!
