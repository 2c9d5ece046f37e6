//! `search_replace`: replaces the first occurrence of a text in a file.

use vstd::prelude::*;
use crate::builtin::schema::{
    failed, failed_text, law_schemas_tell_the_parameters, missing_text, object_schema, param, param_schema, schema_of,
    text_arg,
};
use crate::error::{AgentError, ErrorView};
use crate::json::{
    json_views, member, member_in, member_views, no_members, str_json, text_member, with_member,
    Json, JsonV,
};
use crate::text::{
    chars_of, find_in, first_at, has_text, lemma_first_at, occurs_at, same_text, string_of,
};

verus! {

/// Searches and replaces text in a file.
pub struct SearchReplaceTool {
    pub workspace: String,
}

/// What a call asks for.
pub enum ReplaceStep {
    /// Nothing is to be done; this is the answer.
    Settled(String),
    /// Replace `old_str` by `new_str` in the file at `path`.
    Edit { path: String, old_str: String, new_str: String },
}

/// What the content of a file leads to.
pub enum EditStep {
    /// Nothing is to be written; this is the answer.
    Settled(String),
    /// Write this content.
    Write(String),
}

/// The text with the first occurrence of `old` replaced by `new`.
pub open spec fn replaced_once(s: Seq<char>, old: Seq<char>, new: Seq<char>) -> Seq<char> {
    match first_at(s, old, 0) {
        Some(k) => s.take(k) + new + s.skip(k + old.len()),
        None => s,
    }
}

/// The text with the first occurrence of `old` replaced by `new`.
pub fn replace_once(s: &str, old: &str, new: &str) -> (r: String)
    ensures
        r@ == replaced_once(s@, old@, new@),
{
    let v = chars_of(s);
    let p = chars_of(old);
    match find_in(&v, &p) {
        Some(k) => {
            let n: usize = v.len();
            let end: usize = k + p.len();
            let mut r = string_of(&v, 0, k);
            r.append(new);
            let tail = string_of(&v, end, n);
            r.append(tail.as_str());
            proof {
                assert(s@.take(k as int) == s@.subrange(0, k as int));
                assert(s@.skip(end as int) == s@.subrange(end as int, n as int));
            }
            r
        },
        None => s.to_owned(),
    }
}

pub open spec fn search_replace_schema() -> JsonV {
    object_schema(
        seq![
            ("path"@, param_schema("Path to the file"@)),
            (
                "old_str"@,
                param_schema("Text to search for (first occurrence will be replaced)"@),
            ),
            ("new_str"@, param_schema("Text to replace with"@)),
        ],
        seq![JsonV::Str("path"@), JsonV::Str("old_str"@), JsonV::Str("new_str"@)],
    )
}

/// What a call comes to: the first argument that is missing is named; equal
/// texts need no look at the file.
pub open spec fn call_meaning(args: JsonV) -> Result<
    (Seq<char>, Seq<char>, Seq<char>),
    Seq<char>,
> {
    match text_member(args, "path"@) {
        None => Err(missing_text("path"@)),
        Some(p) => match text_member(args, "old_str"@) {
            None => Err(missing_text("old_str"@)),
            Some(o) => match text_member(args, "new_str"@) {
                None => Err(missing_text("new_str"@)),
                Some(n) => Ok((p, o, n)),
            },
        },
    }
}

impl SearchReplaceTool {
    pub fn name(&self) -> (r: &'static str)
        ensures
            r@ == "search_replace"@,
    {
        "search_replace"
    }

    pub fn description(&self) -> (r: &'static str)
        ensures
            r@ == "Search and replace text in a file"@,
    {
        "Search and replace text in a file"
    }

    pub fn schema(&self) -> (r: Json)
        ensures
            r@ == search_replace_schema(),
    {
        let p = with_member(no_members(), "path", param("Path to the file"));
        let p = with_member(
            p,
            "old_str",
            param("Text to search for (first occurrence will be replaced)"),
        );
        let p = with_member(p, "new_str", param("Text to replace with"));
        let ghost want = seq![
            ("path"@, param_schema("Path to the file"@)),
            (
                "old_str"@,
                param_schema("Text to search for (first occurrence will be replaced)"@),
            ),
            ("new_str"@, param_schema("Text to replace with"@)),
        ];
        assert(member_views(p@) =~= want);
        let mut req: Vec<Json> = Vec::new();
        req.push(str_json("path"));
        req.push(str_json("old_str"));
        req.push(str_json("new_str"));
        assert(json_views(req@) =~= seq![
            JsonV::Str("path"@),
            JsonV::Str("old_str"@),
            JsonV::Str("new_str"@),
        ]);
        schema_of(p, req)
    }

    /// What a call asks for.
    pub fn call(&self, args: &Json) -> (r: Result<ReplaceStep, AgentError>)
        ensures
            match call_meaning(args@) {
                Err(e) => r matches Err(x) && x@ == ErrorView::Internal(e),
                Ok((p, o, n)) => if o == n {
                    r matches Ok(ReplaceStep::Settled(s)) && s@ == "No changes needed in "@ + p
                        + " (old_str == new_str)"@
                } else {
                    r matches Ok(ReplaceStep::Edit { path, old_str, new_str }) && path@ == p
                        && old_str@ == o && new_str@ == n
                },
            },
    {
        let path = match text_arg(args, "path") {
            Ok(s) => s,
            Err(e) => {
                return Err(e);
            },
        };
        let old_str = match text_arg(args, "old_str") {
            Ok(s) => s,
            Err(e) => {
                return Err(e);
            },
        };
        let new_str = match text_arg(args, "new_str") {
            Ok(s) => s,
            Err(e) => {
                return Err(e);
            },
        };
        if same_text(old_str, new_str) {
            let mut m = "No changes needed in ".to_owned();
            m.append(path);
            m.append(" (old_str == new_str)");
            return Ok(ReplaceStep::Settled(m));
        }
        Ok(
            ReplaceStep::Edit {
                path: path.to_owned(),
                old_str: old_str.to_owned(),
                new_str: new_str.to_owned(),
            },
        )
    }

    /// What the file's content leads to, where `content` is what reading the
    /// file at `full_path`, which the call named `path`, came to.
    pub fn edit(
        &self,
        path: &str,
        full_path: &str,
        content: Result<String, String>,
        old_str: &str,
        new_str: &str,
    ) -> (r: Result<EditStep, AgentError>)
        requires
            old_str@ != new_str@,
        ensures
            match content {
                Err(e) => r matches Err(x) && x@ == ErrorView::Internal(
                    failed_text("failed to read "@, full_path@, e@),
                ),
                Ok(c) => if has_text(c@, old_str@) {
                    r matches Ok(EditStep::Write(w)) && w@ == replaced_once(
                        c@,
                        old_str@,
                        new_str@,
                    )
                } else {
                    r matches Ok(EditStep::Settled(s)) && s@ == "Text not found in "@ + path@
                },
            },
    {
        let c = match content {
            Ok(c) => c,
            Err(e) => {
                return Err(failed("failed to read ", full_path, e.as_str()));
            },
        };
        let w = replace_once(c.as_str(), old_str, new_str);
        proof {
            law_replacing_changes(c@, old_str@, new_str@);
        }
        if same_text(w.as_str(), c.as_str()) {
            let mut m = "Text not found in ".to_owned();
            m.append(path);
            return Ok(EditStep::Settled(m));
        }
        Ok(EditStep::Write(w))
    }

    /// The answer, where `error` is the system's error in writing the file at
    /// `full_path`, if there was one.
    pub fn answer(&self, path: &str, full_path: &str, error: Option<String>) -> (r: Result<
        String,
        AgentError,
    >)
        ensures
            match error {
                None => r matches Ok(s) && s@ == "Successfully replaced text in "@ + path@,
                Some(e) => r matches Err(x) && x@ == ErrorView::Internal(
                    failed_text("failed to write "@, full_path@, e@),
                ),
            },
    {
        match error {
            None => {
                let mut m = "Successfully replaced text in ".to_owned();
                m.append(path);
                Ok(m)
            },
            Some(e) => Err(failed("failed to write ", full_path, e.as_str())),
        }
    }
}

/// Replacing one text by another changes a text exactly where the first stands
/// in it.
pub proof fn law_replacing_changes(s: Seq<char>, old: Seq<char>, new: Seq<char>)
    requires
        old != new,
    ensures
        replaced_once(s, old, new) == s <==> !has_text(s, old),
{
    lemma_first_at(s, old, 0);
    match first_at(s, old, 0) {
        Some(k) => {
            assert(occurs_at(s, old, k));
            let r = replaced_once(s, old, new);
            if r == s {
                assert(new.len() == old.len());
                assert(r.subrange(k, k + new.len()) =~= new);
                assert(s.subrange(k, k + old.len()) =~= old);
            }
        },
        None => {
            if has_text(s, old) {
                let i = choose|i: int| occurs_at(s, old, i);
                assert(occurs_at(s, old, i));
            }
        },
    }
}

/// Only the first occurrence is touched: what stands before it and what
/// follows it is kept.
pub proof fn law_only_first_occurrence_changes(s: Seq<char>, old: Seq<char>, new: Seq<char>)
    requires
        has_text(s, old),
    ensures
        ({
            let k = first_at(s, old, 0)->0;
            let r = replaced_once(s, old, new);
            &&& 0 <= k && k + old.len() <= s.len()
            &&& r.take(k) == s.take(k)
            &&& r.skip(k + new.len()) == s.skip(k + old.len())
            &&& forall|i: int| 0 <= i < k ==> !occurs_at(s, old, i)
        }),
{
    lemma_first_at(s, old, 0);
    let i = choose|i: int| occurs_at(s, old, i);
    assert(occurs_at(s, old, i));
    let k = first_at(s, old, 0)->0;
    let r = replaced_once(s, old, new);
    assert(r.take(k) =~= s.take(k));
    assert(r.skip(k + new.len()) =~= s.skip(k + old.len()));
}

/// The new text stands in the place of the first occurrence of the old one, and
/// everything around it is as it was.
pub proof fn law_the_new_text_takes_the_place(
    a: Seq<char>,
    old: Seq<char>,
    b: Seq<char>,
    new: Seq<char>,
)
    requires
        forall|i: int| 0 <= i < a.len() ==> !(#[trigger] (a + old + b).subrange(
            i,
            i + old.len(),
        ) == old),
    ensures
        replaced_once(a + old + b, old, new) == a + new + b,
{
    let s = a + old + b;
    let k = a.len() as int;
    assert(s.subrange(k, k + old.len()) =~= old);
    lemma_first_at(s, old, 0);
    assert(occurs_at(s, old, k));
    let j = first_at(s, old, 0)->0;
    if j < k {
        assert(s.subrange(j, j + old.len()) == old);
    }
    assert(j == k);
    assert(s.take(k) =~= a);
    assert(s.skip(k + old.len()) =~= b);
}

/// A text that is nowhere in a file leaves the file as it is.
pub proof fn law_nothing_to_replace(s: Seq<char>, old: Seq<char>, new: Seq<char>)
    requires
        forall|i: int| 0 <= i && i + old.len() <= s.len() ==> #[trigger] s.subrange(
            i,
            i + old.len(),
        ) != old,
    ensures
        replaced_once(s, old, new) == s,
        !has_text(s, old),
{
    lemma_first_at(s, old, 0);
}

/// A call is understood exactly when path, old and new text are strings, and
/// then as these three.
pub proof fn law_calls_name_path_and_texts(args: JsonV)
    ensures
        forall|p: Seq<char>, o: Seq<char>, n: Seq<char>| #[trigger]
            call_meaning(args) == Ok::<(Seq<char>, Seq<char>, Seq<char>), Seq<char>>((p, o, n))
                <==> member(args, "path"@) == Some(JsonV::Str(p)) && member(args, "old_str"@)
                == Some(JsonV::Str(o)) && member(args, "new_str"@) == Some(JsonV::Str(n)),
{
}

/// The tool takes a path, the text to search for and the text to put in its
/// place, all strings, and requires all of them.
pub proof fn law_the_schema_names_the_arguments()
    ensures
        ({
            let v = search_replace_schema();
            &&& member(v, "type"@) == Some(JsonV::Str("object"@))
            &&& member(v, "required"@) == Some(JsonV::Array(seq![JsonV::Str("path"@), JsonV::Str("old_str"@), JsonV::Str("new_str"@)]))
            &&& member(v, "properties"@) matches Some(p)
            &&& member(p, "path"@) matches Some(path)
            &&& member(path, "type"@) == Some(JsonV::Str("string"@))
            &&& member(p, "old_str"@) matches Some(old_str)
            &&& member(old_str, "type"@) == Some(JsonV::Str("string"@))
            &&& member(p, "new_str"@) matches Some(new_str)
            &&& member(new_str, "type"@) == Some(JsonV::Str("string"@))
        }),
{
    let m = search_replace_schema()->Object_0[1].1->Object_0;
    reveal_strlit("path");
    reveal_strlit("old_str");
    reveal_strlit("new_str");
    assert("path"@[0] == 'p');
    assert("old_str"@[0] == 'o');
    assert("new_str"@[0] == 'n');
    law_schemas_tell_the_parameters(m, seq![JsonV::Str("path"@), JsonV::Str("old_str"@), JsonV::Str("new_str"@)], m[0].1->Object_0[1].1->Str_0);
    law_schemas_tell_the_parameters(m, seq![JsonV::Str("path"@), JsonV::Str("old_str"@), JsonV::Str("new_str"@)], m[1].1->Object_0[1].1->Str_0);
    law_schemas_tell_the_parameters(m, seq![JsonV::Str("path"@), JsonV::Str("old_str"@), JsonV::Str("new_str"@)], m[2].1->Object_0[1].1->Str_0);
    reveal_with_fuel(member_in, 4);
    assert(m.drop_first()[0] == m[1]);
    assert(m.drop_first().drop_first()[0] == m[2]);
}

} // verus!
