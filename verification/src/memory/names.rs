//! Names: project slugs, memory names, memory types, and the paths made of
//! them.

use vstd::prelude::*;
use crate::error::{AgentError, ErrorView};
use crate::text::{chars_of, ends_in, only, same_text, trim_end_char, without_trailing};

verus! {

/// Default index file name.
pub const DEFAULT_INDEX_FILENAME: &'static str = "MEMORY.md";

/// Fixed `metadata.node_type` value for every memory file.
pub const MEMORY_NODE_TYPE: &'static str = "memory";

/// Allowed `metadata.type` values.
pub const MEMORY_TYPES: [&'static str; 4] = ["user", "feedback", "project", "reference"];

pub open spec fn is_lower(c: char) -> bool {
    'a' <= c && c <= 'z'
}

pub open spec fn is_upper(c: char) -> bool {
    'A' <= c && c <= 'Z'
}

pub open spec fn is_digit(c: char) -> bool {
    '0' <= c && c <= '9'
}

fn lower(c: char) -> (r: bool)
    ensures
        r == is_lower(c),
{
    'a' <= c && c <= 'z'
}

fn digit(c: char) -> (r: bool)
    ensures
        r == is_digit(c),
{
    '0' <= c && c <= '9'
}

// ---------------------------------------------------------------------------
// Project slug
// ---------------------------------------------------------------------------

/// The longest slug.
pub const MAX_SLUG: usize = 200;

/// A character of a slug: ASCII letters and digits stay, all else is a dash.
pub open spec fn slug_char(c: char) -> char {
    if is_lower(c) || is_upper(c) || is_digit(c) {
        c
    } else {
        '-'
    }
}

/// The slug of a path: trailing slashes dropped, every character encoded, cut
/// at the longest slug.
pub open spec fn slug_of(path: Seq<char>) -> Seq<char> {
    let t = without_trailing(path, only('/'));
    Seq::new(
        if t.len() <= MAX_SLUG {
            t.len()
        } else {
            MAX_SLUG as nat
        },
        |i: int| slug_char(t[i]),
    )
}

/// Encodes a workspace path into a project slug.
///
/// `/Users/xxx/my.project` becomes `-Users-xxx-my-project`.
pub fn project_slug(cwd: &str) -> (r: String)
    ensures
        r@ == slug_of(cwd@),
{
    let trimmed = trim_end_char(cwd, '/');
    let v = chars_of(trimmed.as_str());
    let end: usize = if v.len() <= MAX_SLUG {
        v.len()
    } else {
        MAX_SLUG
    };
    let mut r = String::new();
    let mut i: usize = 0;
    while i < end
        invariant
            v@ == without_trailing(cwd@, only('/')),
            i <= end <= v@.len(),
            end == slug_of(cwd@).len(),
            r@ == slug_of(cwd@).take(i as int),
        decreases end - i,
    {
        let c = v[i];
        r.push(
            if lower(c) || ('A' <= c && c <= 'Z') || digit(c) {
                c
            } else {
                '-'
            },
        );
        i += 1;
        assert(slug_of(cwd@).take(i as int) == slug_of(cwd@).take(i - 1).push(
            slug_char(v@[i - 1]),
        ));
    }
    assert(slug_of(cwd@).take(end as int) == slug_of(cwd@));
    r
}

/// A slug holds only ASCII letters, digits and dashes, and at most 200 of
/// them: it is a single path component.
pub proof fn law_slug_is_a_component(path: Seq<char>)
    ensures
        slug_of(path).len() <= 200,
        forall|i: int|
            0 <= i < slug_of(path).len() ==> {
                let c = #[trigger] slug_of(path)[i];
                is_lower(c) || is_upper(c) || is_digit(c) || c == '-'
            },
        !slug_of(path).contains('/'),
        !slug_of(path).contains('.'),
{
}

/// Slashes at the end of a path make no difference to its slug.
pub proof fn law_slug_ignores_trailing_slashes(path: Seq<char>)
    ensures
        slug_of(path.push('/')) == slug_of(path),
{
    assert(path.push('/').drop_last() == path);
}

// ---------------------------------------------------------------------------
// Memory names
// ---------------------------------------------------------------------------

pub open spec fn name_char(c: char) -> bool {
    is_lower(c) || is_digit(c) || c == '-'
}

/// A valid memory name: `^[a-z0-9][a-z0-9-]*$`.
pub open spec fn valid_name(name: Seq<char>) -> bool {
    &&& name.len() > 0
    &&& is_lower(name[0]) || is_digit(name[0])
    &&& forall|i: int| 0 <= i < name.len() ==> name_char(#[trigger] name[i])
}

/// Checks a memory name against `^[a-z0-9][a-z0-9-]*$`.
///
/// The name becomes part of a file path, so anything outside this set is
/// rejected before any path is built.
pub fn is_valid_memory_name(name: &str) -> (r: bool)
    ensures
        r == valid_name(name@),
{
    let v = chars_of(name);
    if v.len() == 0 || !(lower(v[0]) || digit(v[0])) {
        return false;
    }
    let mut i: usize = 0;
    while i < v.len()
        invariant
            v@ == name@,
            i <= v@.len(),
            forall|j: int| 0 <= j < i ==> name_char(#[trigger] name@[j]),
        decreases v@.len() - i,
    {
        let c = v[i];
        if !(lower(c) || digit(c) || c == '-') {
            assert(!name_char(name@[i as int]));
            return false;
        }
        i += 1;
    }
    true
}

/// What is said of an invalid name.
pub open spec fn invalid_name_text(name: Seq<char>) -> Seq<char> {
    "invalid memory name `"@ + name
        + "`: must match ^[a-z0-9][a-z0-9-]*$ (kebab-case slug, no slashes/dots/underscores)"@
}

/// Validates a memory name, with a descriptive error.
pub fn validate_memory_name(name: &str) -> (r: Result<(), AgentError>)
    ensures
        r is Ok <==> valid_name(name@),
        r matches Err(e) ==> e@ == ErrorView::Internal(invalid_name_text(name@)),
{
    if is_valid_memory_name(name) {
        Ok(())
    } else {
        let mut m = "invalid memory name `".to_owned();
        m.append(name);
        m.append(
            "`: must match ^[a-z0-9][a-z0-9-]*$ (kebab-case slug, no slashes/dots/underscores)",
        );
        Err(AgentError::Internal(m))
    }
}

/// One of the four memory types.
pub open spec fn valid_type(t: Seq<char>) -> bool {
    t == "user"@ || t == "feedback"@ || t == "project"@ || t == "reference"@
}

/// What is said of an invalid type.
pub open spec fn invalid_type_text(t: Seq<char>) -> Seq<char> {
    "invalid memory type `"@ + t + "`: must be one of user | feedback | project | reference"@
}

/// Validates a memory type against the four allowed values.
pub fn validate_memory_type(memory_type: &str) -> (r: Result<(), AgentError>)
    ensures
        r is Ok <==> valid_type(memory_type@),
        r matches Err(e) ==> e@ == ErrorView::Internal(invalid_type_text(memory_type@)),
{
    if same_text(memory_type, "user") || same_text(memory_type, "feedback") || same_text(
        memory_type,
        "project",
    ) || same_text(memory_type, "reference") {
        Ok(())
    } else {
        let mut m = "invalid memory type `".to_owned();
        m.append(memory_type);
        m.append("`: must be one of user | feedback | project | reference");
        Err(AgentError::Internal(m))
    }
}

// ---------------------------------------------------------------------------
// Paths
// ---------------------------------------------------------------------------

/// `part` seen from `base`: an absolute `part` stands for itself.
pub open spec fn joined_path(base: Seq<char>, part: Seq<char>) -> Seq<char> {
    if part.len() > 0 && part[0] == '/' {
        part
    } else if base.len() == 0 || ends_in(base, '/') {
        base + part
    } else {
        base + "/"@ + part
    }
}

/// Joins two paths.
pub fn join_path(base: &str, part: &str) -> (r: String)
    ensures
        r@ == joined_path(base@, part@),
{
    let p = chars_of(part);
    if p.len() > 0 && p[0] == '/' {
        return part.to_owned();
    }
    let b = chars_of(base);
    let mut r = base.to_owned();
    if b.len() > 0 && b[b.len() - 1] != '/' {
        r.append("/");
    }
    r.append(part);
    r
}

/// The file of a memory.
pub open spec fn memory_file(root: Seq<char>, name: Seq<char>) -> Seq<char> {
    joined_path(root, name + ".md"@)
}

/// A valid name cannot leave the memory directory: it holds no slash and no
/// dot, and its file is the directory, one separator, the name and `.md`.
pub proof fn law_valid_names_stay_inside(root: Seq<char>, name: Seq<char>)
    requires
        valid_name(name),
    ensures
        !name.contains('/'),
        !name.contains('.'),
        memory_file(root, name) == root + (if root.len() == 0 || ends_in(root, '/') {
            Seq::empty()
        } else {
            "/"@
        }) + name + ".md"@,
{
    assert(name_char(name[0]));
    assert((name + ".md"@)[0] == name[0]);
    assert(!name.contains('/')) by {
        assert forall|i: int| 0 <= i < name.len() implies name[i] != '/' by {
            assert(name_char(name[i]));
        }
    }
    assert(!name.contains('.')) by {
        assert forall|i: int| 0 <= i < name.len() implies name[i] != '.' by {
            assert(name_char(name[i]));
        }
    }
    assert(memory_file(root, name) =~= root + (if root.len() == 0 || ends_in(root, '/') {
        Seq::empty()
    } else {
        "/"@
    }) + name + ".md"@);
}

/// Two memories never share a file.
pub proof fn law_files_tell_names_apart(root: Seq<char>, a: Seq<char>, b: Seq<char>)
    requires
        valid_name(a),
        valid_name(b),
        memory_file(root, a) == memory_file(root, b),
    ensures
        a == b,
{
    law_valid_names_stay_inside(root, a);
    law_valid_names_stay_inside(root, b);
    let head = root + (if root.len() == 0 || ends_in(root, '/') {
        Seq::empty()
    } else {
        "/"@
    });
    let f = memory_file(root, a);
    assert(f == head + a + ".md"@);
    assert(f == head + b + ".md"@);
    assert(a.len() == b.len());
    assert(a =~= f.subrange(head.len() as int, (head.len() + a.len()) as int));
    assert(b =~= f.subrange(head.len() as int, (head.len() + b.len()) as int));
}

/// A name is valid exactly when it starts with a small letter or a digit and
/// holds nothing but small letters, digits and dashes.
pub proof fn law_valid_names(name: Seq<char>)
    ensures
        valid_name(name) <==> {
            &&& name.len() > 0
            &&& 'a' <= name[0] <= 'z' || '0' <= name[0] <= '9'
            &&& forall|i: int|
                0 <= i < name.len() ==> 'a' <= #[trigger] name[i] <= 'z' || '0' <= name[i] <= '9'
                    || name[i] == '-'
        },
{
    if valid_name(name) {
        assert forall|i: int| 0 <= i < name.len() implies 'a' <= #[trigger] name[i] <= 'z' || '0'
            <= name[i] <= '9' || name[i] == '-' by {
            assert(name_char(name[i]));
        }
    }
}

/// The four types are valid, and nothing else is.
pub proof fn law_valid_types(t: Seq<char>)
    ensures
        valid_type(t) <==> t == "user"@ || t == "feedback"@ || t == "project"@ || t == "reference"@,
{
}

/// A slug keeps letters and digits in their places and puts a dash for every
/// other character; only what is beyond its longest length is lost.
pub proof fn law_slugs_keep_letters_and_digits(path: Seq<char>, i: int)
    requires
        !ends_in(path, '/'),
        0 <= i < path.len(),
        i < 200,
    ensures
        slug_of(path).len() == (if path.len() < 200 {
            path.len()
        } else {
            200
        }),
        ({
            let c = path[i];
            slug_of(path)[i] == if ('a' <= c <= 'z') || ('A' <= c <= 'Z') || ('0' <= c <= '9') {
                c
            } else {
                '-'
            }
        }),
{
    assert(without_trailing(path, only('/')) == path);
}

/// An absolute path stands for itself, and any other is put behind the base
/// with one separator.
pub proof fn law_joined_paths(base: Seq<char>, part: Seq<char>)
    ensures
        part.len() > 0 && part[0] == '/' ==> joined_path(base, part) == part,
        !(part.len() > 0 && part[0] == '/') && base.len() > 0 && base.last() != '/' ==> joined_path(
            base,
            part,
        ) == base + seq!['/'] + part,
        !(part.len() > 0 && part[0] == '/') && (base.len() == 0 || base.last() == '/')
            ==> joined_path(base, part) == base + part,
{
    reveal_strlit("/");
    assert("/"@ =~= seq!['/']);
}

} // verus!
