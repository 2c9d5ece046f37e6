//! `list_directory`: lists a directory.

use vstd::prelude::*;
use crate::builtin::schema::{
    failed, failed_text, law_schemas_tell_the_parameters, object_schema, param, param_schema,
    schema_of,
};
use crate::error::{internal2, AgentError, ErrorView};
use crate::json::{json_views, member, no_members, text_member, with_member, Json, JsonV};
use crate::text::{join, joined, texts};

verus! {

/// Lists the contents of a directory.
pub struct ListDirectoryTool {
    pub workspace: String,
}

/// What became of a listing.
pub enum ListOutcome {
    /// The names of the entries.
    Listed(Vec<String>),
    /// The directory could not be opened.
    NotOpened { error: String },
    /// An entry could not be read.
    EntryFailed { error: String },
}

pub open spec fn list_directory_schema() -> JsonV {
    object_schema(
        seq![("path"@, param_schema("Path to the directory to list"@))],
        Seq::empty(),
    )
}

/// The directory that a call asks for; the workspace itself without one.
pub open spec fn listed_path(args: JsonV) -> Seq<char> {
    match text_member(args, "path"@) {
        Some(s) => s,
        None => "."@,
    }
}

impl ListDirectoryTool {
    pub fn name(&self) -> (r: &'static str)
        ensures
            r@ == "list_directory"@,
    {
        "list_directory"
    }

    pub fn description(&self) -> (r: &'static str)
        ensures
            r@ == "List the contents of a directory"@,
    {
        "List the contents of a directory"
    }

    pub fn schema(&self) -> (r: Json)
        ensures
            r@ == list_directory_schema(),
    {
        let p = with_member(no_members(), "path", param("Path to the directory to list"));
        let req: Vec<Json> = Vec::new();
        assert(json_views(req@) =~= Seq::empty());
        schema_of(p, req)
    }

    /// The directory that a call asks for.
    pub fn call(&self, args: &Json) -> (r: String)
        ensures
            r@ == listed_path(args@),
    {
        match args.get_str("path") {
            Some(s) => s.to_owned(),
            None => ".".to_owned(),
        }
    }

    /// The answer, where `outcome` is what became of listing the directory at
    /// `full_path`, which the call named `path`.
    pub fn answer(&self, path: &str, full_path: &str, outcome: ListOutcome) -> (r: Result<
        String,
        AgentError,
    >)
        ensures
            match outcome {
                ListOutcome::Listed(names) => r matches Ok(s) && s@ == if names@.len() == 0 {
                    "Directory "@ + path@ + " is empty"@
                } else {
                    joined(texts(names@), "\n"@)
                },
                ListOutcome::NotOpened { error } => r matches Err(x) && x@ == ErrorView::Internal(
                    failed_text("failed to read dir "@, full_path@, error@),
                ),
                ListOutcome::EntryFailed { error } => r matches Err(x) && x@
                    == ErrorView::Internal("failed to read entry: "@ + error@),
            },
    {
        match outcome {
            ListOutcome::Listed(names) => {
                if names.len() == 0 {
                    let mut m = "Directory ".to_owned();
                    m.append(path);
                    m.append(" is empty");
                    Ok(m)
                } else {
                    Ok(join(&names, "\n"))
                }
            },
            ListOutcome::NotOpened { error } => Err(
                failed("failed to read dir ", full_path, error.as_str()),
            ),
            ListOutcome::EntryFailed { error } => Err(
                internal2("failed to read entry: ", error.as_str()),
            ),
        }
    }
}

/// The directory named is listed, and the workspace itself where none is named
/// by a string.
pub proof fn law_the_named_directory_is_listed(args: JsonV)
    ensures
        forall|s: Seq<char>|
            member(args, "path"@) == Some(JsonV::Str(s)) ==> #[trigger] listed_path(args) == s,
        !(member(args, "path"@) matches Some(v) && v is Str) ==> listed_path(args) == "."@,
{
}

/// The tool takes the path to list, a string, and does not require it.
pub proof fn law_the_schema_names_the_arguments()
    ensures
        ({
            let v = list_directory_schema();
            &&& member(v, "type"@) == Some(JsonV::Str("object"@))
            &&& member(v, "required"@) == Some(JsonV::Array(Seq::<JsonV>::empty()))
            &&& member(v, "properties"@) matches Some(p)
            &&& member(p, "path"@) matches Some(path)
            &&& member(path, "type"@) == Some(JsonV::Str("string"@))
        }),
{
    let m = list_directory_schema()->Object_0[1].1->Object_0;
    law_schemas_tell_the_parameters(m, Seq::<JsonV>::empty(), m[0].1->Object_0[1].1->Str_0);
}

} // verus!
