//! Confining user-supplied paths to the workspace.

use vstd::prelude::*;
use crate::builtin::schema::{failed, failed_text};
use crate::error::{AgentError, ErrorView};
use crate::memory::names::{join_path, joined_path};
use crate::text::{
    char_at, chars_of, contains_char, ends_in, find_char, joined, lemma_char_at, lemma_char_at_is,
    lemma_joined_front, lemma_joined_push, same_text, string_of, texts,
};

verus! {

// ---------------------------------------------------------------------------
// Components
// ---------------------------------------------------------------------------

/// The components of `s` from position `from` on: the pieces between slashes,
/// without empty pieces and, past the start, without single dots.
pub open spec fn components_from(s: Seq<char>, from: int) -> Seq<Seq<char>>
    decreases s.len() - from,
{
    if from < 0 || from > s.len() {
        Seq::empty()
    } else {
        let end = piece_end(s, from);
        let piece = s.subrange(from, end);
        let rest = if from <= end < s.len() {
            components_from(s, end + 1)
        } else {
            Seq::empty()
        };
        if piece.len() == 0 || (piece == "."@ && from > 0) {
            rest
        } else {
            seq![piece] + rest
        }
    }
}

/// Where the piece that starts at `from` ends.
pub open spec fn piece_end(s: Seq<char>, from: int) -> int {
    match char_at(s.skip(from), '/') {
        Some(k) => from + k,
        None => s.len() as int,
    }
}

/// The components of a path.
pub open spec fn components(s: Seq<char>) -> Seq<Seq<char>> {
    components_from(s, 0)
}

/// Whether a path starts at the root.
pub open spec fn is_absolute(s: Seq<char>) -> bool {
    s.len() > 0 && s[0] == '/'
}

/// Whether `path` is `base` or lies under it, component by component; the root
/// is a component of its own.
pub open spec fn is_inside(base: Seq<char>, path: Seq<char>) -> bool {
    let b = components(base);
    let p = components(path);
    ||| !is_absolute(base) && b.len() == 0
    ||| {
        &&& is_absolute(base) == is_absolute(path)
        &&& b.len() <= p.len()
        &&& p.take(b.len() as int) == b
    }
}

proof fn lemma_piece_end(s: Seq<char>, from: int)
    requires
        0 <= from <= s.len(),
    ensures
        from <= piece_end(s, from) <= s.len(),
{
    crate::text::lemma_char_at(s.skip(from), '/');
}

fn components_of(path: &str) -> (r: Vec<String>)
    ensures
        texts(r@) == components(path@),
{
    let v = chars_of(path);
    let mut out: Vec<String> = Vec::new();
    let mut from: usize = 0;
    let n: usize = v.len();
    assert(texts(out@) + components_from(path@, 0) =~= components(path@));
    loop
        invariant
            v@ == path@,
            n == v@.len(),
            from <= n,
            texts(out@) + components_from(path@, from as int) == components(path@),
        decreases n - from,
    {
        let ghost before = texts(out@);
        proof {
            lemma_piece_end(path@, from as int);
        }
        let end: usize = match find_char(&v, from, '/') {
            Some(k) => k,
            None => n,
        };
        assert(end == piece_end(path@, from as int));
        let piece = string_of(&v, from, end);
        let ghost rest = if end < path@.len() {
            components_from(path@, end + 1)
        } else {
            Seq::empty()
        };
        if !piece.as_str().is_empty() && !(same_text(piece.as_str(), ".") && from > 0) {
            out.push(piece);
            assert(texts(out@) == before.push(piece@));
            assert(before + (seq![piece@] + rest) =~= before.push(piece@) + rest);
        }
        assert(texts(out@) + rest == components(path@));
        if end == n {
            assert(texts(out@) + Seq::<Seq<char>>::empty() =~= texts(out@));
            return out;
        }
        from = end + 1;
    }
}

/// Whether `path` is `base` or lies under it.
pub fn lies_inside(base: &str, path: &str) -> (r: bool)
    ensures
        r == is_inside(base@, path@),
{
    let x = chars_of(base);
    let y = chars_of(path);
    let base_absolute = x.len() > 0 && x[0] == '/';
    let path_absolute = y.len() > 0 && y[0] == '/';
    let b = components_of(base);
    let p = components_of(path);
    let ghost bt = texts(b@);
    let ghost pt = texts(p@);
    if !base_absolute && b.len() == 0 {
        return true;
    }
    if base_absolute != path_absolute || b.len() > p.len() {
        return false;
    }
    let mut i: usize = 0;
    while i < b.len()
        invariant
            i <= b@.len() <= p@.len(),
            bt == texts(b@),
            pt == texts(p@),
            bt == components(base@),
            pt == components(path@),
            forall|k: int| 0 <= k < i ==> pt[k] == bt[k],
        decreases b@.len() - i,
    {
        if !same_text(b[i].as_str(), p[i].as_str()) {
            assert(pt.take(bt.len() as int)[i as int] != bt[i as int]);
            return false;
        }
        i += 1;
    }
    assert(pt.take(bt.len() as int) =~= bt);
    true
}

// ---------------------------------------------------------------------------
// Validation
// ---------------------------------------------------------------------------

/// What the file system says of a path: a resolved path is free of `.`, `..`
/// and links.
pub struct PathFacts {
    /// Whether there is anything at the full path, links followed.
    pub exists: bool,
    /// Where there is a link at the full path that leads to nothing: the path
    /// it leads to, resolved as far as it is there, or the system's error.
    pub dangling: Option<Result<String, String>>,
    /// The full path, resolved, or the system's error.
    pub resolved: Result<String, String>,
    /// The last component of the full path, where it has one.
    pub file_name: Option<String>,
    /// The directory of the full path, as written.
    pub parent: String,
    /// That directory, resolved, or the system's error.
    pub resolved_parent: Result<String, String>,
    /// The workspace, resolved, or the system's error.
    pub resolved_workspace: Result<String, String>,
}

/// Why a path is refused before the file system is asked, if it is.
pub open spec fn early_refusal(user_path: Seq<char>) -> Option<Seq<char>> {
    if user_path.len() == 0 {
        Some("path must not be empty"@)
    } else if user_path.contains('\0') {
        Some("path contains null byte"@)
    } else {
        None
    }
}

/// The path that a user's path resolves to: what is there; or, for something
/// new, the resolved directory and the name in it.
pub open spec fn resolution(full: Seq<char>, f: PathFacts) -> Result<Seq<char>, Seq<char>> {
    if f.exists {
        match f.resolved {
            Ok(p) => Ok(p@),
            Err(e) => Err(failed_text("failed to resolve path "@, full, e@)),
        }
    } else {
        match f.file_name {
            None => Err("invalid path: "@ + full),
            Some(name) => match f.resolved_parent {
                Err(e) => Err(
                    failed_text("failed to resolve parent directory "@, f.parent@, e@),
                ),
                Ok(p) => Ok(joined_path(p@, name@)),
            },
        }
    }
}

/// What is said of a path that leads out of the workspace.
pub open spec fn outside_text(user_path: Seq<char>, resolved: Seq<char>) -> Seq<char> {
    "path '"@ + user_path + "' resolves outside workspace (resolved to "@ + resolved + ")"@
}

/// What a user's path comes to: the resolved path, where that lies inside the
/// resolved workspace.
pub open spec fn validated(
    workspace: Seq<char>,
    user_path: Seq<char>,
    f: PathFacts,
) -> Result<Seq<char>, Seq<char>> {
    match early_refusal(user_path) {
        Some(e) => Err(e),
        None => match resolution(joined_path(workspace, user_path), f) {
            Err(e) => Err(e),
            Ok(p) => match f.resolved_workspace {
                Err(e) => Err(failed_text("failed to resolve workspace "@, workspace, e@)),
                Ok(w) => if !is_inside(w@, p) {
                    Err(outside_text(user_path, p))
                } else {
                    match link_refusal(w@, joined_path(workspace, user_path), user_path, f) {
                        Some(e) => Err(e),
                        None => Ok(p),
                    }
                },
            },
        },
    }
}

/// Why a link that leads to nothing is refused, if it is: what is written
/// through it goes where it leads, so that must lie inside the workspace too.
pub open spec fn link_refusal(
    resolved_workspace: Seq<char>,
    full: Seq<char>,
    user_path: Seq<char>,
    f: PathFacts,
) -> Option<Seq<char>> {
    match f.dangling {
        None => None,
        Some(Err(e)) => if f.exists {
            None
        } else {
            Some(failed_text("failed to resolve path "@, full, e@))
        },
        Some(Ok(t)) => if f.exists || is_inside(resolved_workspace, t@) {
            None
        } else {
            Some(outside_text(user_path, t@))
        },
    }
}

pub open spec fn text_follows(r: Result<String, AgentError>, want: Result<Seq<char>, Seq<char>>) -> bool {
    match want {
        Ok(p) => r matches Ok(s) && s@ == p,
        Err(e) => r matches Err(x) && x@ == ErrorView::Internal(e),
    }
}

/// Refuses a path that needs no look at the file system; otherwise gives the
/// full path to look at.
pub fn full_path(workspace: &str, user_path: &str) -> (r: Result<String, AgentError>)
    ensures
        text_follows(
            r,
            match early_refusal(user_path@) {
                Some(e) => Err(e),
                None => Ok(joined_path(workspace@, user_path@)),
            },
        ),
{
    if user_path.is_empty() {
        return Err(AgentError::Internal("path must not be empty".to_owned()));
    }
    if contains_char(user_path, '\0') {
        return Err(AgentError::Internal("path contains null byte".to_owned()));
    }
    Ok(join_path(workspace, user_path))
}

fn resolve(full: &str, f: &PathFacts) -> (r: Result<String, AgentError>)
    ensures
        text_follows(r, resolution(full@, *f)),
{
    if f.exists {
        match &f.resolved {
            Ok(p) => Ok(p.clone()),
            Err(e) => Err(failed("failed to resolve path ", full, e.as_str())),
        }
    } else {
        match &f.file_name {
            None => Err(crate::error::internal2("invalid path: ", full)),
            Some(name) => match &f.resolved_parent {
                Err(e) => Err(
                    failed("failed to resolve parent directory ", f.parent.as_str(), e.as_str()),
                ),
                Ok(p) => Ok(join_path(p.as_str(), name.as_str())),
            },
        }
    }
}

/// Validates a user-supplied path against the workspace root: it must not
/// lead out of the workspace.
pub fn validate_path(workspace: &str, user_path: &str, f: &PathFacts) -> (r: Result<
    String,
    AgentError,
>)
    ensures
        text_follows(r, validated(workspace@, user_path@, *f)),
{
    let full = match full_path(workspace, user_path) {
        Ok(p) => p,
        Err(e) => {
            return Err(e);
        },
    };
    let canonical = match resolve(full.as_str(), f) {
        Ok(p) => p,
        Err(e) => {
            return Err(e);
        },
    };
    match &f.resolved_workspace {
        Err(e) => Err(failed("failed to resolve workspace ", workspace, e.as_str())),
        Ok(w) => {
            if !lies_inside(w.as_str(), canonical.as_str()) {
                return Err(outside(user_path, canonical.as_str()));
            }
            if f.exists {
                return Ok(canonical);
            }
            match &f.dangling {
                None => Ok(canonical),
                Some(Err(e)) => Err(failed("failed to resolve path ", full.as_str(), e.as_str())),
                Some(Ok(t)) => {
                    if lies_inside(w.as_str(), t.as_str()) {
                        Ok(canonical)
                    } else {
                        Err(outside(user_path, t.as_str()))
                    }
                },
            }
        },
    }
}

fn outside(user_path: &str, resolved: &str) -> (r: AgentError)
    ensures
        r@ == ErrorView::Internal(outside_text(user_path@, resolved@)),
{
    let mut m = "path '".to_owned();
    m.append(user_path);
    m.append("' resolves outside workspace (resolved to ");
    m.append(resolved);
    m.append(")");
    AgentError::Internal(m)
}

/// A path that is let through lies inside the resolved workspace.
pub proof fn law_validated_paths_stay_inside(
    workspace: Seq<char>,
    user_path: Seq<char>,
    f: PathFacts,
)
    ensures
        validated(workspace, user_path, f) matches Ok(p) ==> f.resolved_workspace matches Ok(w)
            && is_inside(w@, p),
{
}

/// Nothing empty and nothing with a null character is let through.
pub proof fn law_bad_paths_are_refused(workspace: Seq<char>, user_path: Seq<char>, f: PathFacts)
    requires
        user_path.len() == 0 || user_path.contains('\0'),
    ensures
        validated(workspace, user_path, f) is Err,
{
}

/// A link that leads to nothing is let through only where it leads inside the
/// workspace.
pub proof fn law_links_lead_inside(workspace: Seq<char>, user_path: Seq<char>, f: PathFacts)
    requires
        !f.exists,
        f.dangling is Some,
        validated(workspace, user_path, f) is Ok,
    ensures
        f.dangling->0 matches Ok(t) && f.resolved_workspace matches Ok(w) && is_inside(w@, t@),
{
}

/// Whether a text can be a component of a resolved path: it is not empty, not
/// a dot or two, and holds neither a slash nor a null character.
pub open spec fn is_component(c: Seq<char>) -> bool {
    &&& c.len() > 0
    &&& c != "."@
    &&& c != ".."@
    &&& !c.contains('/')
    &&& !c.contains('\0')
}

/// Whether a path is canonical: the root, or a slash before each of its
/// components, without `.` and `..`.
pub open spec fn is_canonical(p: Seq<char>) -> bool {
    exists|cs: Seq<Seq<char>>| #[trigger] canonical_from(p, cs)
}

/// Whether `p` is the canonical path with the components `cs`.
pub open spec fn canonical_from(p: Seq<char>, cs: Seq<Seq<char>>) -> bool {
    &&& p == "/"@ + joined(cs, "/"@)
    &&& forall|i: int| 0 <= i < cs.len() ==> is_component(#[trigger] cs[i])
}

/// Whether the facts are as a file system gives them: what is resolved is
/// canonical, and a path's last component is a component.
pub open spec fn facts_agree(f: PathFacts) -> bool {
    &&& f.resolved matches Ok(p) ==> is_canonical(p@)
    &&& f.resolved_parent matches Ok(p) ==> is_canonical(p@)
    &&& f.resolved_workspace matches Ok(p) ==> is_canonical(p@)
    &&& f.file_name matches Some(n) ==> is_component(n@)
}

proof fn lemma_canonical_text(p: Seq<char>, cs: Seq<Seq<char>>)
    requires
        canonical_from(p, cs),
    ensures
        p.len() > 0,
        p[0] == '/',
        !p.contains('\0'),
        ends_in(p, '/') <==> cs.len() == 0,
        cs.len() == 0 ==> p == "/"@,
    decreases cs.len(),
{
    reveal_strlit("/");
    if cs.len() == 0 {
        assert(p =~= "/"@);
    } else {
        let b = cs.drop_last();
        let c = cs.last();
        let q = "/"@ + joined(b, "/"@);
        assert(is_component(cs[cs.len() - 1]));
        assert forall|i: int| 0 <= i < b.len() implies is_component(#[trigger] b[i]) by {
            assert(b[i] == cs[i]);
        }
        lemma_canonical_text(q, b);
        lemma_joined_push(b, c, "/"@);
        assert(b.push(c) =~= cs);
        if b.len() == 0 {
            assert(p =~= q + c);
        } else {
            assert(p =~= q + "/"@ + c);
        }
        assert(p.last() == c.last());
        assert(c.contains(c[c.len() - 1]));
        assert forall|i: int| 0 <= i < p.len() implies p[i] != '\0' by {
            if i < q.len() {
                assert(q.contains(q[i]));
            } else {
                let k = i - (p.len() - c.len());
                if k >= 0 {
                    assert(c.contains(c[k]));
                }
            }
        }
    }
}

/// A component joined to a canonical path gives a canonical path.
proof fn lemma_join_component(p: Seq<char>, name: Seq<char>)
    requires
        is_canonical(p),
        is_component(name),
    ensures
        is_canonical(joined_path(p, name)),
{
    reveal_strlit("/");
    let cs = choose|cs: Seq<Seq<char>>| #[trigger] canonical_from(p, cs);
    lemma_canonical_text(p, cs);
    let all = cs.push(name);
    lemma_joined_push(cs, name, "/"@);
    assert(name.contains(name[0]));
    let r = joined_path(p, name);
    if cs.len() == 0 {
        assert(r =~= "/"@ + joined(all, "/"@));
    } else {
        assert(r =~= "/"@ + (joined(cs, "/"@) + "/"@ + name));
    }
    assert forall|i: int| 0 <= i < all.len() implies is_component(#[trigger] all[i]) by {
        if i < cs.len() {
            assert(all[i] == cs[i]);
        }
    }
    assert(canonical_from(r, all));
}

/// A path that is let through is canonical, so absolute and without `.` and
/// `..`, and lies inside the resolved workspace.
pub proof fn law_validated_paths_are_canonical(
    workspace: Seq<char>,
    user_path: Seq<char>,
    f: PathFacts,
)
    requires
        facts_agree(f),
    ensures
        validated(workspace, user_path, f) matches Ok(p) ==> {
            &&& is_canonical(p)
            &&& is_absolute(p)
            &&& f.resolved_workspace matches Ok(w) && is_inside(w@, p)
        },
{
    if let Ok(p) = validated(workspace, user_path, f) {
        if !f.exists {
            lemma_join_component((f.resolved_parent->Ok_0)@, (f.file_name->0)@);
        }
        let cs = choose|cs: Seq<Seq<char>>| #[trigger] canonical_from(p, cs);
        lemma_canonical_text(p, cs);
    }
}

/// Whether the facts `g` of a canonical path `p` are as a file system gives
/// them where there is no link to nothing: what is there resolves to itself,
/// and for something new the directory that `p` names does.
pub open spec fn facts_of_canonical(p: Seq<char>, g: PathFacts) -> bool {
    &&& g.dangling is None
    &&& g.exists ==> (g.resolved matches Ok(q) && q@ == p)
    &&& !g.exists ==> {
        &&& g.file_name matches Some(n) && g.resolved_parent matches Ok(q) && joined_path(q@, n@)
            == p
    }
}

/// A path that was let through is let through again, unchanged, under the same
/// workspace.
pub proof fn law_validated_paths_stay_valid(
    workspace: Seq<char>,
    user_path: Seq<char>,
    f: PathFacts,
    p: Seq<char>,
    g: PathFacts,
)
    requires
        facts_agree(f),
        validated(workspace, user_path, f) == Ok::<Seq<char>, Seq<char>>(p),
        facts_of_canonical(p, g),
        g.resolved_workspace == f.resolved_workspace,
    ensures
        validated(workspace, p, g) == Ok::<Seq<char>, Seq<char>>(p),
{
    law_validated_paths_are_canonical(workspace, user_path, f);
    let cs = choose|cs: Seq<Seq<char>>| #[trigger] canonical_from(p, cs);
    lemma_canonical_text(p, cs);
}

/// The components of a canonical path from a place behind a slash on.
proof fn lemma_components_from(s: Seq<char>, from: int, cs: Seq<Seq<char>>)
    requires
        0 < from <= s.len(),
        cs.len() > 0,
        s.skip(from) == joined(cs, "/"@),
        forall|i: int| 0 <= i < cs.len() ==> is_component(#[trigger] cs[i]),
    ensures
        components_from(s, from) == cs,
    decreases cs.len(),
{
    reveal_strlit("/");
    let t = s.skip(from);
    let c = cs[0];
    let n = c.len() as int;
    assert(is_component(c));
    assert forall|i: int| 0 <= i < n implies c[i] != '/' by {
        assert(c.contains(c[i]));
    }
    if cs.len() == 1 {
        assert(t == c);
        lemma_char_at(t, '/');
        assert(s.subrange(from, s.len() as int) =~= c);
        assert(seq![c] + Seq::<Seq<char>>::empty() =~= cs);
    } else {
        let rest = cs.drop_first();
        lemma_joined_front(cs, "/"@);
        assert(t[n] == '/');
        assert forall|i: int| 0 <= i < n implies t[i] != '/' by {
            assert(t[i] == c[i]);
        }
        lemma_char_at_is(t, '/', n);
        assert(s.subrange(from, from + n) =~= c) by {
            assert(t.take(n) =~= c);
            assert(s.subrange(from, from + n) =~= t.take(n));
        }
        assert(s.skip(from + n + 1) =~= t.skip(n + 1));
        assert(t.skip(n + 1) =~= joined(rest, "/"@));
        assert forall|i: int| 0 <= i < rest.len() implies is_component(#[trigger] rest[i]) by {
            assert(rest[i] == cs[i + 1]);
        }
        assert(t.len() == s.len() - from);
        lemma_components_from(s, from + n + 1, rest);
        assert(seq![c] + rest =~= cs);
    }
}

/// The components of a canonical path are those it is made of, all of them and
/// in order.
pub proof fn law_canonical_components(p: Seq<char>, cs: Seq<Seq<char>>)
    requires
        canonical_from(p, cs),
    ensures
        components(p) == cs,
        is_absolute(p),
{
    reveal_strlit("/");
    lemma_canonical_text(p, cs);
    lemma_char_at_is(p.skip(0), '/', 0);
    assert(p.skip(0) =~= p);
    assert(piece_end(p, 0) == 0);
    assert(p.subrange(0, 0).len() == 0);
    if cs.len() > 0 {
        assert(p.skip(1) =~= joined(cs, "/"@));
        lemma_components_from(p, 1, cs);
        assert(p.len() > 1) by {
            lemma_canonical_text(p, cs);
            if p.len() == 1 {
                assert(p.last() == '/');
            }
        }
    } else {
        assert(p.len() == 1);
        lemma_char_at(p.skip(1), '/');
        assert(piece_end(p, 1) == 1);
        assert(components_from(p, 1) =~= Seq::empty());
        assert(cs =~= Seq::empty());
    }
}

/// A canonical path lies inside another exactly when that one's components are
/// its first ones, at whatever depth it lies below it; everything lies inside
/// the root, and a path inside itself.
pub proof fn law_inside_is_by_components(
    base: Seq<char>,
    bs: Seq<Seq<char>>,
    path: Seq<char>,
    ps: Seq<Seq<char>>,
)
    requires
        canonical_from(base, bs),
        canonical_from(path, ps),
    ensures
        is_inside(base, path) <==> bs.len() <= ps.len() && forall|i: int|
            0 <= i < bs.len() ==> #[trigger] bs[i] == ps[i],
        bs.len() == 0 ==> is_inside(base, path),
        is_inside(base, base),
{
    law_canonical_components(base, bs);
    law_canonical_components(path, ps);
    if bs.len() <= ps.len() && (forall|i: int| 0 <= i < bs.len() ==> #[trigger] bs[i] == ps[i]) {
        assert(ps.take(bs.len() as int) =~= bs);
    }
    if is_inside(base, path) {
        assert forall|i: int| 0 <= i < bs.len() implies #[trigger] bs[i] == ps[i] by {
            assert(ps.take(bs.len() as int)[i] == ps[i]);
        }
    }
    assert(bs.take(bs.len() as int) =~= bs);
    assert(ps.take(0) =~= Seq::<Seq<char>>::empty());
}

/// What exists is let through as what it resolves to, whenever that lies inside
/// the resolved workspace, at any depth: a path that is neither empty nor holds
/// a null character is refused for no other reason.
pub proof fn law_paths_inside_are_let_through(
    workspace: Seq<char>,
    user_path: Seq<char>,
    f: PathFacts,
    w: String,
    p: String,
)
    requires
        user_path.len() > 0,
        !user_path.contains('\0'),
        f.exists,
        f.resolved == Ok::<String, String>(p),
        f.resolved_workspace == Ok::<String, String>(w),
    ensures
        is_inside(w@, p@) ==> validated(workspace, user_path, f) == Ok::<Seq<char>, Seq<char>>(p@),
        !is_inside(w@, p@) ==> validated(workspace, user_path, f) is Err,
{
}

/// What is new is let through as its name in its resolved directory, whenever
/// that lies inside the resolved workspace and no link stands in its place.
pub proof fn law_new_paths_inside_are_let_through(
    workspace: Seq<char>,
    user_path: Seq<char>,
    f: PathFacts,
    w: String,
    parent: String,
    name: String,
)
    requires
        user_path.len() > 0,
        !user_path.contains('\0'),
        !f.exists,
        f.dangling is None,
        f.file_name == Some(name),
        f.resolved_parent == Ok::<String, String>(parent),
        f.resolved_workspace == Ok::<String, String>(w),
    ensures
        is_inside(w@, joined_path(parent@, name@)) ==> validated(workspace, user_path, f) == Ok::<
            Seq<char>,
            Seq<char>,
        >(joined_path(parent@, name@)),
        !is_inside(w@, joined_path(parent@, name@)) ==> validated(workspace, user_path, f) is Err,
{
}

/// A path anywhere below the workspace is let through: whatever components
/// follow those of the workspace, the file with them is.
pub proof fn law_any_depth_is_let_through(
    workspace: Seq<char>,
    user_path: Seq<char>,
    f: PathFacts,
    w: String,
    ws: Seq<Seq<char>>,
    p: String,
    below: Seq<Seq<char>>,
)
    requires
        user_path.len() > 0,
        !user_path.contains('\0'),
        f.exists,
        f.resolved == Ok::<String, String>(p),
        f.resolved_workspace == Ok::<String, String>(w),
        canonical_from(w@, ws),
        canonical_from(p@, ws + below),
    ensures
        validated(workspace, user_path, f) == Ok::<Seq<char>, Seq<char>>(p@),
{
    law_inside_is_by_components(w@, ws, p@, ws + below);
    assert forall|i: int| 0 <= i < ws.len() implies #[trigger] ws[i] == (ws + below)[i] by {}
}

/// A link to nothing that leads inside the workspace is let through, as the
/// place where it stands.
pub proof fn law_links_inside_are_let_through(
    workspace: Seq<char>,
    user_path: Seq<char>,
    f: PathFacts,
    w: String,
    parent: String,
    name: String,
    target: String,
)
    requires
        user_path.len() > 0,
        !user_path.contains('\0'),
        !f.exists,
        f.dangling == Some(Ok::<String, String>(target)),
        f.file_name == Some(name),
        f.resolved_parent == Ok::<String, String>(parent),
        f.resolved_workspace == Ok::<String, String>(w),
        is_inside(w@, joined_path(parent@, name@)),
    ensures
        is_inside(w@, target@) ==> validated(workspace, user_path, f) == Ok::<
            Seq<char>,
            Seq<char>,
        >(joined_path(parent@, name@)),
        !is_inside(w@, target@) ==> validated(workspace, user_path, f) == Err::<
            Seq<char>,
            Seq<char>,
        >(
            "path '"@ + user_path + "' resolves outside workspace (resolved to "@ + target@
                + ")"@,
        ),
{
}

/// A refusal says what is wrong: the path itself, what the system says of it,
/// or where it leads.
pub proof fn law_refusals_say_why(
    workspace: Seq<char>,
    user_path: Seq<char>,
    f: PathFacts,
    w: String,
    p: String,
    error: String,
)
    ensures
        user_path.len() == 0 ==> validated(workspace, user_path, f) == Err::<
            Seq<char>,
            Seq<char>,
        >("path must not be empty"@),
        user_path.len() > 0 && user_path.contains('\0') ==> validated(workspace, user_path, f)
            == Err::<Seq<char>, Seq<char>>("path contains null byte"@),
        user_path.len() > 0 && !user_path.contains('\0') ==> {
            let full = joined_path(workspace, user_path);
            &&& f.exists && f.resolved == Err::<String, String>(error) ==> validated(
                workspace,
                user_path,
                f,
            ) == Err::<Seq<char>, Seq<char>>(
                "failed to resolve path "@ + full + ": "@ + error@,
            )
            &&& !f.exists && f.file_name is None ==> validated(workspace, user_path, f) == Err::<
                Seq<char>,
                Seq<char>,
            >("invalid path: "@ + full)
            &&& !f.exists && f.file_name is Some && f.resolved_parent == Err::<String, String>(
                error,
            ) ==> validated(workspace, user_path, f) == Err::<Seq<char>, Seq<char>>(
                "failed to resolve parent directory "@ + f.parent@ + ": "@ + error@,
            )
            &&& f.exists && f.resolved == Ok::<String, String>(p) && f.resolved_workspace
                == Err::<String, String>(error) ==> validated(workspace, user_path, f) == Err::<
                Seq<char>,
                Seq<char>,
            >("failed to resolve workspace "@ + workspace + ": "@ + error@)
            &&& f.exists && f.resolved == Ok::<String, String>(p) && f.resolved_workspace
                == Ok::<String, String>(w) && !is_inside(w@, p@) ==> validated(
                workspace,
                user_path,
                f,
            ) == Err::<Seq<char>, Seq<char>>(
                "path '"@ + user_path + "' resolves outside workspace (resolved to "@ + p@ + ")"@,
            )
        },
{
}

/// The result of looking at a path is what the path comes to: the same text, or
/// a refusal with the same words.
pub proof fn law_results_are_what_the_path_comes_to(
    r: Result<String, AgentError>,
    text: Seq<char>,
)
    ensures
        text_follows(r, Ok(text)) <==> (r matches Ok(s) && s@ == text),
        text_follows(r, Err(text)) <==> (r matches Err(e) && e@ == ErrorView::Internal(text)),
{
}

} // verus!
