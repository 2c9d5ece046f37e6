//! `file_exists`: says whether there is a file.

use vstd::prelude::*;
use crate::builtin::schema::{
    law_schemas_tell_the_parameters, missing_text, object_schema, param, param_schema, schema_of,
    text_arg,
};
use crate::error::{AgentError, ErrorView};
use crate::json::{
    json_views, member, no_members, str_json, text_member, with_member, Json, JsonV,
};

verus! {

/// Says whether a file exists.
pub struct FileExistsTool {
    pub workspace: String,
}

pub open spec fn file_exists_schema() -> JsonV {
    object_schema(
        seq![("path"@, param_schema("Path to the file or directory to check"@))],
        seq![JsonV::Str("path"@)],
    )
}

impl FileExistsTool {
    pub fn name(&self) -> (r: &'static str)
        ensures
            r@ == "file_exists"@,
    {
        "file_exists"
    }

    pub fn description(&self) -> (r: &'static str)
        ensures
            r@ == "Check if a file exists"@,
    {
        "Check if a file exists"
    }

    pub fn schema(&self) -> (r: Json)
        ensures
            r@ == file_exists_schema(),
    {
        let p = with_member(
            no_members(),
            "path",
            param("Path to the file or directory to check"),
        );
        let mut req: Vec<Json> = Vec::new();
        req.push(str_json("path"));
        assert(json_views(req@) =~= seq![JsonV::Str("path"@)]);
        schema_of(p, req)
    }

    /// The path that a call asks about.
    pub fn call(&self, args: &Json) -> (r: Result<String, AgentError>)
        ensures
            match text_member(args@, "path"@) {
                Some(s) => r matches Ok(p) && p@ == s,
                None => r matches Err(e) && e@ == ErrorView::Internal(missing_text("path"@)),
            },
    {
        match text_arg(args, "path") {
            Ok(s) => Ok(s.to_owned()),
            Err(e) => Err(e),
        }
    }

    /// The answer, where `exists` says whether the file that the call named
    /// `path` is there.
    pub fn answer(&self, path: &str, exists: bool) -> (r: String)
        ensures
            r@ == path@ + (if exists {
                " exists"@
            } else {
                " does not exist"@
            }),
    {
        let mut m = path.to_owned();
        m.append(
            if exists {
                " exists"
            } else {
                " does not exist"
            },
        );
        m
    }
}

/// The tool takes the path to look at, a string, and requires it.
pub proof fn law_the_schema_names_the_arguments()
    ensures
        ({
            let v = file_exists_schema();
            &&& member(v, "type"@) == Some(JsonV::Str("object"@))
            &&& member(v, "required"@) == Some(JsonV::Array(seq![JsonV::Str("path"@)]))
            &&& member(v, "properties"@) matches Some(p)
            &&& member(p, "path"@) matches Some(path)
            &&& member(path, "type"@) == Some(JsonV::Str("string"@))
        }),
{
    let m = file_exists_schema()->Object_0[1].1->Object_0;
    law_schemas_tell_the_parameters(m, seq![JsonV::Str("path"@)], m[0].1->Object_0[1].1->Str_0);
}

} // verus!
