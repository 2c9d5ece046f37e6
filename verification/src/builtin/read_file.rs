//! `read_file`: reads a file.

use vstd::prelude::*;
use crate::builtin::schema::{
    failed, failed_text, law_schemas_tell_the_parameters, missing_text, object_schema, param, param_schema, schema_of,
    text_arg,
};
use crate::error::{AgentError, ErrorView};
use crate::json::{
    json_views, member, no_members, str_json, text_member, with_member, Json, JsonV,
};

verus! {

/// Reads the contents of a file.
pub struct ReadFileTool {
    pub workspace: String,
}

pub open spec fn read_file_schema() -> JsonV {
    object_schema(
        seq![("path"@, param_schema("Path to the file to read"@))],
        seq![JsonV::Str("path"@)],
    )
}

impl ReadFileTool {
    pub fn name(&self) -> (r: &'static str)
        ensures
            r@ == "read_file"@,
    {
        "read_file"
    }

    pub fn description(&self) -> (r: &'static str)
        ensures
            r@ == "Read the contents of a file"@,
    {
        "Read the contents of a file"
    }

    pub fn schema(&self) -> (r: Json)
        ensures
            r@ == read_file_schema(),
    {
        let p = with_member(no_members(), "path", param("Path to the file to read"));
        let mut req: Vec<Json> = Vec::new();
        req.push(str_json("path"));
        assert(json_views(req@) =~= seq![JsonV::Str("path"@)]);
        schema_of(p, req)
    }

    /// The path that a call asks to read.
    pub fn call(&self, args: &Json) -> (r: Result<String, AgentError>)
        ensures
            match text_member(args@, "path"@) {
                Some(s) => r matches Ok(p) && p@ == s,
                None => r matches Err(e) && e@ == ErrorView::Internal(missing_text("path"@)),
            },
    {
        match text_arg(args, "path") {
            Ok(s) => Ok(s.to_owned()),
            Err(e) => Err(e),
        }
    }

    /// The answer, where `content` is what reading the file at `full_path`
    /// came to.
    pub fn answer(&self, full_path: &str, content: Result<String, String>) -> (r: Result<
        String,
        AgentError,
    >)
        ensures
            match content {
                Ok(s) => r == Ok::<String, AgentError>(s),
                Err(e) => r matches Err(x) && x@ == ErrorView::Internal(
                    failed_text("failed to read "@, full_path@, e@),
                ),
            },
    {
        match content {
            Ok(s) => Ok(s),
            Err(e) => Err(failed("failed to read ", full_path, e.as_str())),
        }
    }
}

/// The tool takes the path to read, a string, and requires it.
pub proof fn law_the_schema_names_the_arguments()
    ensures
        ({
            let v = read_file_schema();
            &&& member(v, "type"@) == Some(JsonV::Str("object"@))
            &&& member(v, "required"@) == Some(JsonV::Array(seq![JsonV::Str("path"@)]))
            &&& member(v, "properties"@) matches Some(p)
            &&& member(p, "path"@) matches Some(path)
            &&& member(path, "type"@) == Some(JsonV::Str("string"@))
        }),
{
    let m = read_file_schema()->Object_0[1].1->Object_0;
    law_schemas_tell_the_parameters(m, seq![JsonV::Str("path"@)], m[0].1->Object_0[1].1->Str_0);
}

} // verus!
