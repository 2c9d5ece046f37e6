//! Parameter schemas and arguments of the tools.

use vstd::prelude::*;
use crate::error::{AgentError, ErrorView};
use crate::json::{
    array, json_views, member, member_in, member_views, object2, object3, str_json, text_member, Json, JsonV,
};

verus! {

/// The schema of a string parameter.
pub open spec fn param_schema(description: Seq<char>) -> JsonV {
    JsonV::Object(
        seq![("type"@, JsonV::Str("string"@)), ("description"@, JsonV::Str(description))],
    )
}

/// The schema of an object with the given parameters.
pub open spec fn object_schema(
    properties: Seq<(Seq<char>, JsonV)>,
    required: Seq<JsonV>,
) -> JsonV {
    JsonV::Object(
        seq![
            ("type"@, JsonV::Str("object"@)),
            ("properties"@, JsonV::Object(properties)),
            ("required"@, JsonV::Array(required)),
        ],
    )
}

/// The schema of a string parameter.
pub fn param(description: &str) -> (r: Json)
    ensures
        r@ == param_schema(description@),
{
    object2("type", str_json("string"), "description", str_json(description))
}

/// The schema of an object with the given parameters.
pub fn schema_of(properties: Vec<(String, Json)>, required: Vec<Json>) -> (r: Json)
    ensures
        r@ == object_schema(member_views(properties@), json_views(required@)),
{
    object3(
        "type",
        str_json("object"),
        "properties",
        crate::json::object(properties),
        "required",
        array(required),
    )
}

/// What is said of an argument that is not there, or not a string.
pub open spec fn missing_text(name: Seq<char>) -> Seq<char> {
    "missing '"@ + name + "' argument"@
}

/// A string argument.
pub fn text_arg<'a>(args: &'a Json, name: &str) -> (r: Result<&'a str, AgentError>)
    ensures
        match text_member(args@, name@) {
            Some(s) => r matches Ok(x) && x@ == s,
            None => r matches Err(e) && e@ == ErrorView::Internal(missing_text(name@)),
        },
{
    match args.get_str(name) {
        Some(s) => Ok(s),
        None => {
            let mut m = "missing '".to_owned();
            m.append(name);
            m.append("' argument");
            Err(AgentError::Internal(m))
        },
    }
}

/// What is said when an operation on a path fails: what was tried, the path
/// and the system's own words.
pub open spec fn failed_text(what: Seq<char>, path: Seq<char>, error: Seq<char>) -> Seq<char> {
    what + path + ": "@ + error
}

/// The error for an operation on a path that failed.
pub fn failed(what: &str, path: &str, error: &str) -> (r: AgentError)
    ensures
        r@ == ErrorView::Internal(failed_text(what@, path@, error@)),
{
    let mut m = what.to_owned();
    m.append(path);
    m.append(": ");
    m.append(error);
    AgentError::Internal(m)
}

/// A schema tells its kind, its parameters and which of them are required; that
/// of a parameter tells that it is a string and what it is for.
pub proof fn law_schemas_tell_the_parameters(
    properties: Seq<(Seq<char>, JsonV)>,
    required: Seq<JsonV>,
    description: Seq<char>,
)
    ensures
        ({
            let v = object_schema(properties, required);
            &&& member(v, "type"@) == Some(JsonV::Str("object"@))
            &&& member(v, "properties"@) == Some(JsonV::Object(properties))
            &&& member(v, "required"@) == Some(JsonV::Array(required))
        }),
        member(param_schema(description), "type"@) == Some(JsonV::Str("string"@)),
        member(param_schema(description), "description"@) == Some(JsonV::Str(description)),
{
    reveal_with_fuel(member_in, 4);
    reveal_strlit("type");
    reveal_strlit("properties");
    reveal_strlit("required");
    reveal_strlit("description");
    assert("type"@.len() == 4);
    assert("properties"@.len() == 10);
    assert("required"@.len() == 8);
    assert("description"@.len() == 11);
    let m = object_schema(properties, required)->Object_0;
    assert(m.drop_first()[0] == m[1]);
    assert(m.drop_first().drop_first()[0] == m[2]);
    let p = param_schema(description)->Object_0;
    assert(p.drop_first()[0] == p[1]);
}

/// What is said of a missing argument names it, and what is said of a failure
/// names what was tried, the path and the system's own words, in that order.
pub proof fn law_messages_name_their_subject(
    what: Seq<char>,
    path: Seq<char>,
    error: Seq<char>,
)
    ensures
        missing_text(what) == "missing '"@ + what + "' argument"@,
        failed_text(what, path, error).take(what.len() as int) == what,
        failed_text(what, path, error).skip(what.len() as int) == path + ": "@ + error,
{
    assert(failed_text(what, path, error).take(what.len() as int) =~= what);
    assert(failed_text(what, path, error).skip(what.len() as int) =~= path + ": "@ + error);
}

} // verus!
