//! The index file: one row per memory, `- [Title](name.md) — description`.
//!
//! The title of a row lives only in the index, so adding and removing touch
//! the rows of one memory and leave every other row as it is, byte for byte.
//! The rows are the pieces of the file between line feeds.

use vstd::prelude::*;
use crate::memory::names::{is_valid_memory_name, name_char, valid_name};
use crate::text::{
    all_space, begins, chars_of, find_in, first_at, is_space, join, joined, law_trimming,
    lemma_first_at, lemma_joined_append, lemma_joined_push, lemma_pieces, lemma_pieces_append,
    lemma_pieces_of_joined, lemma_without_leading, lemma_without_trailing,
    lemma_without_trailing_is, occurs_at, one_line, only, pieces, same_text, space, split_pieces, starts_with, string_of, texts, trim, trim_end_char,
    trimmed, without_leading, without_trailing,
};

verus! {

// ---------------------------------------------------------------------------
// Rows
// ---------------------------------------------------------------------------

/// A text with every line break replaced by a space.
pub open spec fn on_one_line(s: Seq<char>) -> Seq<char> {
    Seq::new(
        s.len(),
        |i: int|
            if s[i] == '\n' || s[i] == '\r' {
                ' '
            } else {
                s[i]
            },
    )
}

/// A description as it stands in a row.
pub open spec fn row_desc(desc: Seq<char>) -> Seq<char> {
    trimmed(on_one_line(desc))
}

/// A row of the index.
pub open spec fn row(title: Seq<char>, name: Seq<char>, desc: Seq<char>) -> Seq<char> {
    "- ["@ + title + "]("@ + name + ".md) — "@ + desc
}

/// The row written for a memory: its description is its title too.
pub open spec fn new_row(name: Seq<char>, desc: Seq<char>) -> Seq<char> {
    row(row_desc(desc), name, row_desc(desc))
}

/// Makes a description fit for a row.
pub fn index_line_desc(desc: &str) -> (r: String)
    ensures
        r@ == row_desc(desc@),
{
    let v = chars_of(desc);
    let mut s = String::new();
    let mut i: usize = 0;
    while i < v.len()
        invariant
            v@ == desc@,
            i <= v@.len(),
            s@ == on_one_line(desc@).take(i as int),
        decreases v@.len() - i,
    {
        let c = v[i];
        s.push(
            if c == '\n' || c == '\r' {
                ' '
            } else {
                c
            },
        );
        i += 1;
        assert(on_one_line(desc@).take(i as int) == on_one_line(desc@).take(i - 1).push(
            on_one_line(desc@)[i - 1],
        ));
    }
    assert(on_one_line(desc@).take(desc@.len() as int) == on_one_line(desc@));
    trim(s.as_str())
}

/// Builds a row of the index.
pub fn index_row(title: &str, name: &str, desc: &str) -> (r: String)
    ensures
        r@ == row(title@, name@, desc@),
{
    let mut r = "- [".to_owned();
    r.append(title);
    r.append("](");
    r.append(name);
    r.append(".md) — ");
    r.append(desc);
    r
}

// ---------------------------------------------------------------------------
// Whose row it is
// ---------------------------------------------------------------------------

/// Whether the first link of a row leads to the file of `name`.
pub open spec fn links_first(line: Seq<char>, name: Seq<char>) -> bool {
    match first_at(line, "]("@, 0) {
        Some(k) => begins(line.skip(k + 2), name + ".md)"@),
        None => false,
    }
}

/// Whether a row is one that is written for `name`: a description serves as
/// its title too, whatever links that description holds.
pub open spec fn written_for(line: Seq<char>, name: Seq<char>) -> bool {
    valid_name(name) && exists|d: Seq<char>| line == #[trigger] row(d, name, d)
}

/// Whether a row belongs to `name`: it is written for `name`, or, where its
/// title is a text of its own, its first link leads to the file of `name`.
pub open spec fn belongs(line: Seq<char>, name: Seq<char>) -> bool {
    written_for(line, name) || (links_first(line, name) && !(exists|m: Seq<char>|
        #[trigger] written_for(line, m)))
}

/// What stands where in a row that is written for a name.
proof fn lemma_row_parts(d: Seq<char>, name: Seq<char>)
    ensures
        ({
            let r = row(d, name, d);
            let k = d.len() as int;
            &&& r.len() == 2 * k + 12 + name.len()
            &&& r.subrange(3, 3 + k) == d
            &&& r.subrange(5 + k, 5 + k + name.len()) == name
            &&& r[3 + k] == ']'
            &&& r[4 + k] == '('
        }),
{
    reveal_strlit("- [");
    reveal_strlit("](");
    reveal_strlit(".md) — ");
    let r = row(d, name, d);
    let k = d.len() as int;
    assert(r.subrange(3, 3 + k) =~= d);
    assert(r.subrange(5 + k, 5 + k + name.len()) =~= name);
}

/// A row is written for one name at most: the link between the two copies of
/// the description stands in the middle, and one link does not hold another.
proof fn lemma_written_for_one(line: Seq<char>, a: Seq<char>, b: Seq<char>)
    requires
        written_for(line, a),
        written_for(line, b),
    ensures
        a == b,
{
    let d = choose|d: Seq<char>| line == #[trigger] row(d, a, d);
    let e = choose|e: Seq<char>| line == #[trigger] row(e, b, e);
    lemma_row_parts(d, a);
    lemma_row_parts(e, b);
    lemma_link_holds_no_link(line, d, a, e, b);
    lemma_link_holds_no_link(line, e, b, d, a);
}

proof fn lemma_link_holds_no_link(
    line: Seq<char>,
    d: Seq<char>,
    a: Seq<char>,
    e: Seq<char>,
    b: Seq<char>,
)
    requires
        line == row(d, a, d),
        line == row(e, b, e),
        valid_name(a),
        valid_name(b),
    ensures
        e.len() <= d.len(),
{
    lemma_row_parts(d, a);
    lemma_row_parts(e, b);
    let k = d.len() as int;
    let j = e.len() - k;
    assert(line[3 + k + j] == ']');
    if j == 1 {
        assert(line[4 + k] == '(');
    } else if j > 1 {
        let n = line.subrange(5 + k, 5 + k + a.len());
        assert(n[j - 2] == line[3 + k + j]);
        assert(name_char(a[j - 2]));
    }
}

/// The name a row is written for, if there is one.
fn written_owner(line: &str) -> (r: Option<String>)
    ensures
        match r {
            Some(m) => written_for(line@, m@),
            None => forall|m: Seq<char>| !written_for(line@, m),
        },
{
    let v = chars_of(line);
    let n: usize = v.len();
    let mut k: usize = 0;
    while k < n && n - k >= 13 && n - k - 13 >= k
        invariant
            v@ == line@,
            n == v@.len(),
            k <= n,
            forall|d: Seq<char>, m: Seq<char>|
                valid_name(m) && line@ == #[trigger] row(d, m, d) ==> d.len() >= k,
        decreases n - k,
    {
        let d = string_of(&v, 3, k + 3);
        let m = string_of(&v, k + 5, n - k - 7);
        if is_valid_memory_name(m.as_str()) && same_text(
            index_row(d.as_str(), m.as_str(), d.as_str()).as_str(),
            line,
        ) {
            assert(line@ == row(d@, m@, d@));
            return Some(m);
        }
        assert forall|e: Seq<char>, x: Seq<char>|
            valid_name(x) && line@ == #[trigger] row(e, x, e) implies e.len() >= k + 1 by {
            lemma_row_parts(e, x);
            if e.len() == k {
                assert(e == d@);
                assert(x == m@);
            }
        }
        k += 1;
    }
    assert forall|m: Seq<char>| !written_for(line@, m) by {
        if written_for(line@, m) {
            let d = choose|d: Seq<char>| line@ == #[trigger] row(d, m, d);
            lemma_row_parts(d, m);
        }
    }
    None
}

/// Whether a row belongs to `name`.
pub fn row_belongs(line: &str, name: &str) -> (r: bool)
    ensures
        r == belongs(line@, name@),
{
    if let Some(m) = written_owner(line) {
        let same = same_text(m.as_str(), name);
        proof {
            if written_for(line@, name@) {
                lemma_written_for_one(line@, m@, name@);
            }
        }
        return same;
    }
    let v = chars_of(line);
    let n: usize = v.len();
    let p = chars_of("](");
    proof {
        reveal_strlit("](");
    }
    match find_in(&v, &p) {
        Some(k) => {
            let rest = string_of(&v, k + 2, n);
            assert(rest@ == line@.skip(k + 2));
            let mut target = name.to_owned();
            target.append(".md)");
            starts_with(rest.as_str(), target.as_str())
        },
        None => false,
    }
}

// ---------------------------------------------------------------------------
// Adding
// ---------------------------------------------------------------------------

/// The rows of an index.
pub open spec fn rows_of(content: Seq<char>) -> Seq<Seq<char>> {
    pieces(content)
}

/// Whether any of the rows belongs to `name`.
pub open spec fn has_row(rows: Seq<Seq<char>>, name: Seq<char>) -> bool {
    exists|i: int| 0 <= i < rows.len() && belongs(#[trigger] rows[i], name)
}

/// The rows with those of `name` replaced by `new`.
pub open spec fn replaced(rows: Seq<Seq<char>>, name: Seq<char>, new: Seq<char>) -> Seq<Seq<char>> {
    Seq::new(
        rows.len(),
        |i: int|
            if belongs(rows[i], name) {
                new
            } else {
                rows[i]
            },
    )
}

/// An index without line feeds at its end.
pub open spec fn unended(content: Seq<char>) -> Seq<char> {
    without_trailing(content, only('\n'))
}

/// The index after a memory has been added or updated: its row is replaced
/// where it has one, and otherwise follows the other rows.
pub open spec fn index_added(content: Seq<char>, name: Seq<char>, desc: Seq<char>) -> Seq<char> {
    if has_row(rows_of(content), name) {
        joined(replaced(rows_of(content), name, new_row(name, desc)), "\n"@)
    } else if unended(content).len() > 0 {
        unended(content) + "\n"@ + (new_row(name, desc) + "\n"@)
    } else {
        new_row(name, desc) + "\n"@
    }
}

/// Adds, or updates, the row for `name` in the index `content`.
///
/// Rows of other memories, their titles included, stay as they are.
pub fn index_add(content: &str, name: &str, desc: &str) -> (r: String)
    ensures
        r@ == index_added(content@, name@, desc@),
{
    let d = index_line_desc(desc);
    let new = index_row(d.as_str(), name, d.as_str());
    let rows = split_pieces(content);
    let ghost all = texts(rows@);
    let ghost want = replaced(all, name@, new@);
    let mut out: Vec<String> = Vec::new();
    let mut found = false;
    let mut i: usize = 0;
    while i < rows.len()
        invariant
            i <= rows@.len(),
            all == texts(rows@),
            want == replaced(all, name@, new@),
            texts(out@) == want.take(i as int),
            found <==> exists|k: int| 0 <= k < i && belongs(#[trigger] all[k], name@),
        decreases rows@.len() - i,
    {
        let ghost before = texts(out@);
        let own = row_belongs(rows[i].as_str(), name);
        assert(own == belongs(all[i as int], name@));
        let line = if own {
            found = true;
            new.clone()
        } else {
            rows[i].clone()
        };
        out.push(line);
        i += 1;
        assert(texts(out@) == before.push(line@));
        assert(want.take(i as int) == want.take(i - 1).push(want[i - 1]));
    }
    assert(want.take(all.len() as int) == want);
    if found {
        return join(&out, "\n");
    }
    let t = trim_end_char(content, '\n');
    let mut r = String::new();
    if !t.as_str().is_empty() {
        r.append(t.as_str());
        r.append("\n");
    }
    r.append(new.as_str());
    r.append("\n");
    assert(r@ =~= index_added(content@, name@, desc@));
    r
}

// ---------------------------------------------------------------------------
// Removing
// ---------------------------------------------------------------------------

/// The rows that do not belong to `name`, in order.
pub open spec fn others(rows: Seq<Seq<char>>, name: Seq<char>) -> Seq<Seq<char>>
    decreases rows.len(),
{
    if rows.len() == 0 {
        Seq::empty()
    } else if belongs(rows.last(), name) {
        others(rows.drop_last(), name)
    } else {
        others(rows.drop_last(), name).push(rows.last())
    }
}

/// The index after a memory has been removed.
pub open spec fn index_removed(content: Seq<char>, name: Seq<char>) -> Seq<char> {
    joined(others(rows_of(content), name), "\n"@)
}

/// Removes the row for `name` from the index `content`.  Other rows stay as
/// they are.
pub fn index_remove(content: &str, name: &str) -> (r: String)
    ensures
        r@ == index_removed(content@, name@),
{
    let rows = split_pieces(content);
    let ghost all = texts(rows@);
    let mut out: Vec<String> = Vec::new();
    let mut i: usize = 0;
    assert(texts(out@) == others(all.take(0), name@));
    while i < rows.len()
        invariant
            i <= rows@.len(),
            all == texts(rows@),
            texts(out@) == others(all.take(i as int), name@),
        decreases rows@.len() - i,
    {
        let ghost before = texts(out@);
        assert(all.take(i + 1).drop_last() == all.take(i as int));
        if !row_belongs(rows[i].as_str(), name) {
            out.push(rows[i].clone());
            assert(texts(out@) == before.push(all[i as int]));
        }
        i += 1;
    }
    assert(all.take(all.len() as int) == all);
    join(&out, "\n")
}

// ---------------------------------------------------------------------------
// Lemmas
// ---------------------------------------------------------------------------

proof fn lemma_row_desc(desc: Seq<char>)
    ensures
        !row_desc(desc).contains('\n'),
        !row_desc(desc).contains('\r'),
{
    let o = on_one_line(desc);
    let a = without_leading(o, space());
    lemma_without_leading(o, space());
    lemma_without_trailing(a, space());
    let t = row_desc(desc);
    assert forall|i: int| 0 <= i < t.len() implies t[i] != '\n' && t[i] != '\r' by {
        assert(t[i] == a[i]);
        let k = o.len() - a.len();
        assert(a[i] == o[i + k]);
    }
}

/// The row written for a valid name is one line, is not empty, and belongs to
/// that name and to no other.
proof fn lemma_new_row(name: Seq<char>, desc: Seq<char>)
    requires
        valid_name(name),
    ensures
        one_line(new_row(name, desc)),
        new_row(name, desc).len() > 0,
        forall|m: Seq<char>| #[trigger] belongs(new_row(name, desc), m) <==> m == name,
{
    reveal_strlit("- [");
    reveal_strlit("](");
    reveal_strlit(".md) — ");
    lemma_row_desc(desc);
    let d = row_desc(desc);
    let r = new_row(name, desc);
    assert(written_for(r, name));
    assert forall|m: Seq<char>| #[trigger] belongs(r, m) implies m == name by {
        lemma_written_for_one(r, m, name);
    }
    let a = 3 + d.len();
    assert forall|i: int| 0 <= i < r.len() implies #[trigger] r[i] != '\n' by {
        if i < 3 {
        } else if i < a {
            assert(r[i] == d[i - 3]);
            assert(d.contains(d[i - 3]));
        } else if i < a + 2 {
        } else if i < a + 2 + name.len() {
            assert(r[i] == name[i - a - 2]);
            assert(name_char(name[i - a - 2]));
        } else if i < a + 9 + name.len() {
            assert(r[i] == ".md) — "@[i - a - 2 - name.len()]);
        } else {
            let j = i - (a + 9 + name.len());
            assert(r[i] == d[j]);
            assert(d.contains(d[j]));
        }
    }
}

/// An empty row belongs to nobody.
proof fn lemma_empty_row(name: Seq<char>)
    ensures
        !belongs(Seq::<char>::empty(), name),
{
    let e = Seq::<char>::empty();
    reveal_strlit("](");
    assert(!written_for(e, name)) by {
        if written_for(e, name) {
            let d = choose|d: Seq<char>| e == #[trigger] row(d, name, d);
            lemma_row_parts(d, name);
        }
    }
}

proof fn lemma_replaced_one_line(rows: Seq<Seq<char>>, name: Seq<char>, new: Seq<char>)
    requires
        one_line(new),
        forall|i: int| 0 <= i < rows.len() ==> one_line(#[trigger] rows[i]),
    ensures
        forall|i: int|
            0 <= i < rows.len() ==> one_line(#[trigger] replaced(rows, name, new)[i]),
{
    let r = replaced(rows, name, new);
    assert forall|i: int| 0 <= i < rows.len() implies one_line(#[trigger] r[i]) by {
        assert(one_line(rows[i]));
    }
}

/// The rows of an index are those before its last line feeds, and empty ones.
proof fn lemma_unended(content: Seq<char>)
    ensures
        ({
            let p = pieces(unended(content));
            let q = pieces(content);
            &&& p.len() <= q.len()
            &&& q.take(p.len() as int) == p
            &&& forall|i: int| p.len() <= i < q.len() ==> (#[trigger] q[i]).len() == 0
        }),
    decreases content.len(),
{
    reveal_strlit("\n");
    let p = pieces(unended(content));
    let q = pieces(content);
    if content.len() > 0 && content.last() == '\n' {
        let c = content.drop_last();
        lemma_unended(c);
        let e = Seq::<char>::empty();
        lemma_pieces_append(c, e);
        assert(c + "\n"@ + e =~= content);
        assert(pieces(e) =~= seq![e]);
        let b = pieces(c);
        assert(q =~= b.push(e));
        assert(q.take(p.len() as int) =~= b.take(p.len() as int));
        assert forall|i: int| p.len() <= i < q.len() implies (#[trigger] q[i]).len() == 0 by {
            if i < b.len() {
                assert(q[i] == b[i]);
            }
        }
    } else {
        assert(q.take(q.len() as int) == q);
    }
}

/// `others` keeps exactly the rows that do not belong to the name.
proof fn lemma_others(rows: Seq<Seq<char>>, name: Seq<char>)
    ensures
        forall|i: int|
            0 <= i < others(rows, name).len() ==> !belongs(#[trigger] others(rows, name)[i], name)
                && rows.contains(others(rows, name)[i]),
        !has_row(rows, name) ==> others(rows, name) == rows,
    decreases rows.len(),
{
    if rows.len() > 0 {
        let b = rows.drop_last();
        let o = others(rows, name);
        let p = others(b, name);
        lemma_others(b, name);
        assert forall|i: int| 0 <= i < o.len() implies !belongs(#[trigger] o[i], name)
            && rows.contains(o[i]) by {
            if i < p.len() {
                assert(o[i] == p[i]);
                assert(b.contains(p[i]));
                let j = b.index_of(p[i]);
                assert(rows[j] == p[i]);
            } else {
                assert(rows[rows.len() - 1] == o[i]);
            }
        }
        if !has_row(rows, name) {
            assert(!belongs(rows[rows.len() - 1], name));
            assert(!has_row(b, name)) by {
                if has_row(b, name) {
                    let j = choose|j: int| 0 <= j < b.len() && belongs(#[trigger] b[j], name);
                    assert(belongs(rows[j], name));
                }
            }
            assert(o =~= rows);
        }
    } else {
        assert(others(rows, name) =~= rows);
    }
}

proof fn lemma_others_append(a: Seq<Seq<char>>, b: Seq<Seq<char>>, name: Seq<char>)
    ensures
        others(a + b, name) == others(a, name) + others(b, name),
    decreases b.len(),
{
    if b.len() == 0 {
        assert(a + b =~= a);
        assert(others(a, name) + others(b, name) =~= others(a, name));
    } else {
        assert((a + b).drop_last() =~= a + b.drop_last());
        lemma_others_append(a, b.drop_last(), name);
        assert(others(a + b, name) =~= others(a, name) + others(b, name));
    }
}

// ---------------------------------------------------------------------------
// Laws
// ---------------------------------------------------------------------------

/// A row belongs to one memory at most, and the row written for a memory
/// belongs to that memory, whatever its description holds.
pub proof fn law_rows_have_one_owner(
    line: Seq<char>,
    a: Seq<char>,
    b: Seq<char>,
    desc: Seq<char>,
)
    requires
        valid_name(a),
        valid_name(b),
    ensures
        belongs(line, a) && belongs(line, b) ==> a == b,
        belongs(new_row(a, desc), b) <==> a == b,
{
    lemma_new_row(a, desc);
    if belongs(line, a) && belongs(line, b) {
        if written_for(line, a) || written_for(line, b) {
            lemma_written_for_one(line, a, b);
        } else {
            reveal_strlit(".md)");
            lemma_first_at(line, "]("@, 0);
            let k = first_at(line, "]("@, 0)->0;
            let rest = line.skip(k + 2);
            let x = a + ".md)"@;
            let y = b + ".md)"@;
            assert(rest.take(x.len() as int) == x);
            assert(rest.take(y.len() as int) == y);
            if a.len() < b.len() {
                assert(x[a.len() as int] == '.');
                assert(y[a.len() as int] == b[a.len() as int]);
                assert(x[a.len() as int] == rest[a.len() as int]);
                assert(y[a.len() as int] == rest[a.len() as int]);
                assert(name_char(b[a.len() as int]));
            } else if b.len() < a.len() {
                assert(y[b.len() as int] == '.');
                assert(x[b.len() as int] == a[b.len() as int]);
                assert(x[b.len() as int] == rest[b.len() as int]);
                assert(y[b.len() as int] == rest[b.len() as int]);
                assert(name_char(a[b.len() as int]));
            } else {
                assert(x == y);
                assert(a =~= x.take(a.len() as int));
                assert(b =~= y.take(b.len() as int));
            }
        }
    }
}

/// Updating touches the rows of one memory alone: every other row stays as it
/// is, in its place, and every row of the memory becomes the new row.
pub proof fn law_update_keeps_other_rows(content: Seq<char>, name: Seq<char>, desc: Seq<char>)
    requires
        valid_name(name),
        has_row(rows_of(content), name),
    ensures
        rows_of(index_added(content, name, desc)) == replaced(
            rows_of(content),
            name,
            new_row(name, desc),
        ),
{
    lemma_pieces(content);
    lemma_new_row(name, desc);
    lemma_replaced_one_line(rows_of(content), name, new_row(name, desc));
    lemma_pieces_of_joined(replaced(rows_of(content), name, new_row(name, desc)));
}

/// The rows of an index before the empty ones at its end.
pub open spec fn filled_rows(content: Seq<char>) -> Seq<Seq<char>> {
    if unended(content).len() > 0 {
        rows_of(unended(content))
    } else {
        Seq::empty()
    }
}

/// Adding a memory that has no row puts its row behind the rows there are,
/// which stay as they are; only empty rows at the end give way.
pub proof fn law_add_appends_a_row(content: Seq<char>, name: Seq<char>, desc: Seq<char>)
    requires
        valid_name(name),
        !has_row(rows_of(content), name),
    ensures
        rows_of(index_added(content, name, desc)) == filled_rows(content) + seq![
            new_row(name, desc),
            Seq::<char>::empty(),
        ],
        filled_rows(content).len() <= rows_of(content).len(),
        rows_of(content).take(filled_rows(content).len() as int) == filled_rows(content),
        forall|i: int|
            filled_rows(content).len() <= i < rows_of(content).len() ==> (#[trigger] rows_of(
                content,
            )[i]).len() == 0,
{
    let new = new_row(name, desc);
    let e = Seq::<char>::empty();
    let t = unended(content);
    lemma_new_row(name, desc);
    lemma_unended(content);
    lemma_pieces_of_joined(seq![new, e]);
    assert(joined(seq![new, e], "\n"@) =~= new + "\n"@) by {
        lemma_joined_push(seq![new], e, "\n"@);
        assert(seq![new].push(e) =~= seq![new, e]);
    }
    let q = rows_of(content);
    if t.len() > 0 {
        lemma_pieces_append(t, new + "\n"@);
    } else {
        assert(Seq::<Seq<char>>::empty() + seq![new, e] =~= seq![new, e]);
        assert(pieces(t) =~= seq![t]);
        assert(q.take(0) =~= filled_rows(content));
        assert forall|i: int| 0 <= i < q.len() implies (#[trigger] q[i]).len() == 0 by {
            if i == 0 {
                assert(q.take(1)[0] == t);
            }
        }
    }
}

/// After adding, the memory's row is there.
pub proof fn law_added_row_is_there(content: Seq<char>, name: Seq<char>, desc: Seq<char>)
    requires
        valid_name(name),
    ensures
        rows_of(index_added(content, name, desc)).contains(new_row(name, desc)),
        has_row(rows_of(index_added(content, name, desc)), name),
{
    let new = new_row(name, desc);
    let out = rows_of(index_added(content, name, desc));
    let rows = rows_of(content);
    lemma_new_row(name, desc);
    if has_row(rows, name) {
        law_update_keeps_other_rows(content, name, desc);
        let i = choose|i: int| 0 <= i < rows.len() && belongs(#[trigger] rows[i], name);
        assert(out[i] == new);
    } else {
        law_add_appends_a_row(content, name, desc);
        let i = filled_rows(content).len() as int;
        assert(out[i] == new);
    }
    let k = choose|k: int| 0 <= k < out.len() && out[k] == new;
    assert(belongs(out[k], name));
}

/// Removing touches the rows of one memory alone: what is left are the other
/// rows, in order, as they were.
pub proof fn law_remove_keeps_other_rows(content: Seq<char>, name: Seq<char>)
    ensures
        others(rows_of(content), name).len() > 0 ==> rows_of(index_removed(content, name))
            == others(rows_of(content), name),
        others(rows_of(content), name).len() == 0 ==> index_removed(content, name).len() == 0,
{
    let rows = rows_of(content);
    let o = others(rows, name);
    lemma_pieces(content);
    lemma_others(rows, name);
    if o.len() > 0 {
        assert forall|i: int| 0 <= i < o.len() implies one_line(#[trigger] o[i]) by {
            let j = rows.index_of(o[i]);
            assert(one_line(rows[j]));
        }
        lemma_pieces_of_joined(o);
    }
}

/// After removing, no row belongs to the memory.
pub proof fn law_removed_row_is_gone(content: Seq<char>, name: Seq<char>)
    ensures
        !has_row(rows_of(index_removed(content, name)), name),
{
    let out = rows_of(index_removed(content, name));
    law_remove_keeps_other_rows(content, name);
    lemma_others(rows_of(content), name);
    lemma_empty_row(name);
    if others(rows_of(content), name).len() == 0 {
        let r = index_removed(content, name);
        assert(r =~= Seq::<char>::empty());
        assert(out =~= seq![Seq::<char>::empty()]);
    }
    assert forall|i: int| 0 <= i < out.len() implies !belongs(#[trigger] out[i], name) by {}
}

/// Removing a memory that has no row changes nothing.
pub proof fn law_remove_missing_is_noop(content: Seq<char>, name: Seq<char>)
    requires
        !has_row(rows_of(content), name),
    ensures
        index_removed(content, name) == content,
{
    lemma_pieces(content);
    lemma_others(rows_of(content), name);
}

/// Removing a memory that was just added gives the index back, where that was
/// empty or ended its last row with one line feed.
pub proof fn law_remove_undoes_add(content: Seq<char>, name: Seq<char>, desc: Seq<char>)
    requires
        valid_name(name),
        !has_row(rows_of(content), name),
        content.len() == 0 || (unended(content).len() > 0 && content == unended(content) + "\n"@),
    ensures
        index_removed(index_added(content, name, desc), name) == content,
{
    let new = new_row(name, desc);
    let e = Seq::<char>::empty();
    let f = filled_rows(content);
    let rows = rows_of(content);
    let out = index_added(content, name, desc);
    law_add_appends_a_row(content, name, desc);
    lemma_new_row(name, desc);
    lemma_empty_row(name);
    lemma_others_append(f, seq![new, e], name);
    assert(others(seq![new, e], name) =~= seq![e]) by {
        reveal_with_fuel(others, 3);
        assert(belongs(new, name));
        assert(seq![new, e].drop_last() =~= seq![new]);
        assert(seq![new].drop_last() =~= Seq::<Seq<char>>::empty());
        assert(others(seq![new], name) =~= Seq::<Seq<char>>::empty());
    }
    assert(!has_row(f, name)) by {
        if has_row(f, name) {
            let i = choose|i: int| 0 <= i < f.len() && belongs(#[trigger] f[i], name);
            assert(rows.take(f.len() as int)[i] == rows[i]);
            assert(belongs(rows[i], name));
        }
    }
    lemma_others(f, name);
    assert(others(rows_of(out), name) == f + seq![e]);
    if content.len() == 0 {
        assert(unended(content).len() == 0);
        assert(f + seq![e] =~= seq![e]);
        assert(content =~= e);
    } else {
        lemma_pieces(unended(content));
        lemma_joined_append(f, seq![e], "\n"@);
        assert(unended(content) + "\n"@ + e =~= content);
    }
}

/// Adding the same memory twice is adding it once.
pub proof fn law_add_is_idempotent(content: Seq<char>, name: Seq<char>, desc: Seq<char>)
    requires
        valid_name(name),
    ensures
        index_added(index_added(content, name, desc), name, desc) == index_added(
            content,
            name,
            desc,
        ),
{
    let new = new_row(name, desc);
    let e = Seq::<char>::empty();
    let out = index_added(content, name, desc);
    let rows = rows_of(content);
    let q = rows_of(out);
    law_added_row_is_there(content, name, desc);
    lemma_new_row(name, desc);
    lemma_pieces(out);
    if has_row(rows, name) {
        law_update_keeps_other_rows(content, name, desc);
    } else {
        law_add_appends_a_row(content, name, desc);
        lemma_empty_row(name);
        let f = filled_rows(content);
        assert forall|i: int| 0 <= i < q.len() && belongs(#[trigger] q[i], name) implies q[i]
            == new by {
            if i < f.len() {
                assert(q[i] == f[i]);
                assert(rows.take(f.len() as int)[i] == rows[i]);
                assert(!belongs(rows[i], name));
            }
        }
    }
    assert(replaced(q, name, new) =~= q);
}

/// Adding and removing one memory leaves the others with or without a row as
/// they were.
pub proof fn law_other_memories_keep_their_rows(
    content: Seq<char>,
    name: Seq<char>,
    desc: Seq<char>,
    other: Seq<char>,
)
    requires
        valid_name(name),
        valid_name(other),
        name != other,
    ensures
        has_row(rows_of(index_added(content, name, desc)), other) <==> has_row(
            rows_of(content),
            other,
        ),
        has_row(rows_of(index_removed(content, name)), other) <==> has_row(
            rows_of(content),
            other,
        ),
{
    let rows = rows_of(content);
    let added = rows_of(index_added(content, name, desc));
    let new = new_row(name, desc);
    lemma_new_row(name, desc);
    lemma_empty_row(other);
    assert forall|i: int| 0 <= i < rows.len() && belongs(#[trigger] rows[i], other) implies !belongs(
        rows[i],
        name,
    ) by {
        law_rows_have_one_owner(rows[i], name, other, desc);
    }
    if has_row(rows, name) {
        law_update_keeps_other_rows(content, name, desc);
        assert forall|i: int| 0 <= i < rows.len() implies belongs(#[trigger] rows[i], other)
            == belongs(added[i], other) by {
            assert(belongs(new, other) <==> other == name);
        }
        if has_row(rows, other) {
            let i = choose|i: int| 0 <= i < rows.len() && belongs(#[trigger] rows[i], other);
            assert(belongs(added[i], other));
        }
        if has_row(added, other) {
            let i = choose|i: int| 0 <= i < added.len() && belongs(#[trigger] added[i], other);
            assert(belongs(rows[i], other));
        }
    } else {
        law_add_appends_a_row(content, name, desc);
        let f = filled_rows(content);
        assert forall|i: int| 0 <= i < f.len() implies #[trigger] f[i] == rows[i] && added[i]
            == rows[i] by {
            assert(rows.take(f.len() as int)[i] == rows[i]);
        }
        if has_row(rows, other) {
            let i = choose|i: int| 0 <= i < rows.len() && belongs(#[trigger] rows[i], other);
            if i >= f.len() {
                assert(rows[i] =~= Seq::<char>::empty());
            }
            assert(f[i] == rows[i]);
            assert(belongs(added[i], other));
        }
        if has_row(added, other) {
            let i = choose|i: int| 0 <= i < added.len() && belongs(#[trigger] added[i], other);
            assert(belongs(new, other) <==> other == name);
            assert(i < f.len());
            assert(f[i] == rows[i]);
            assert(belongs(rows[i], other));
        }
    }
    law_remove_keeps_other_rows(content, name);
    lemma_others(rows, name);
    let o = others(rows, name);
    let removed = rows_of(index_removed(content, name));
    if o.len() == 0 {
        assert(index_removed(content, name) =~= Seq::<char>::empty());
        assert(removed =~= seq![Seq::<char>::empty()]);
    }
    if has_row(removed, other) {
        let i = choose|i: int| 0 <= i < removed.len() && belongs(#[trigger] removed[i], other);
        assert(o.len() > 0);
        let j = rows.index_of(o[i]);
        assert(belongs(rows[j], other));
    }
    if has_row(rows, other) {
        let i = choose|i: int| 0 <= i < rows.len() && belongs(#[trigger] rows[i], other);
        lemma_others_keeps(rows, name, i);
        let j = o.index_of(rows[i]);
        assert(belongs(removed[j], other));
    }
}

proof fn lemma_others_keeps(rows: Seq<Seq<char>>, name: Seq<char>, i: int)
    requires
        0 <= i < rows.len(),
        !belongs(rows[i], name),
    ensures
        others(rows, name).contains(rows[i]),
    decreases rows.len(),
{
    let o = others(rows, name);
    if i < rows.len() - 1 {
        let b = rows.drop_last();
        lemma_others_keeps(b, name, i);
        let j = others(b, name).index_of(b[i]);
        assert(o[j] == rows[i]);
    } else {
        assert(o[o.len() - 1] == rows[i]);
    }
}

// ---------------------------------------------------------------------------
// Many writes
// ---------------------------------------------------------------------------

/// The index that the writes, as names and descriptions, leave behind one after
/// the other, where there was none before.
pub open spec fn index_after(writes: Seq<(Seq<char>, Seq<char>)>) -> Seq<char>
    decreases writes.len(),
{
    if writes.len() == 0 {
        Seq::empty()
    } else {
        index_added(index_after(writes.drop_last()), writes.last().0, writes.last().1)
    }
}

/// Where among the entries `name` stands.
pub open spec fn entry_of_name(
    entries: Seq<(Seq<char>, Seq<char>)>,
    name: Seq<char>,
) -> Option<int>
    decreases entries.len(),
{
    if entries.len() == 0 {
        None
    } else if entries.last().0 == name {
        Some(entries.len() - 1)
    } else {
        entry_of_name(entries.drop_last(), name)
    }
}

/// What the writes come to: every name once, in the order of its first write,
/// with the description of its last.
pub open spec fn last_writes(writes: Seq<(Seq<char>, Seq<char>)>) -> Seq<(Seq<char>, Seq<char>)>
    decreases writes.len(),
{
    if writes.len() == 0 {
        Seq::empty()
    } else {
        let e = last_writes(writes.drop_last());
        match entry_of_name(e, writes.last().0) {
            Some(i) => e.update(i, writes.last()),
            None => e.push(writes.last()),
        }
    }
}

/// The rows of entries.
pub open spec fn entry_rows(entries: Seq<(Seq<char>, Seq<char>)>) -> Seq<Seq<char>> {
    Seq::new(entries.len(), |i: int| new_row(entries[i].0, entries[i].1))
}

/// The index that holds the rows of entries and nothing else.
pub open spec fn index_text(entries: Seq<(Seq<char>, Seq<char>)>) -> Seq<char> {
    if entries.len() == 0 {
        Seq::empty()
    } else {
        joined(entry_rows(entries), "\n"@) + "\n"@
    }
}

/// Whether every name is valid.
pub open spec fn valid_names(entries: Seq<(Seq<char>, Seq<char>)>) -> bool {
    forall|i: int| 0 <= i < entries.len() ==> valid_name((#[trigger] entries[i]).0)
}

/// Whether no name stands twice.
pub open spec fn names_differ(entries: Seq<(Seq<char>, Seq<char>)>) -> bool {
    forall|i: int, j: int|
        0 <= i < j < entries.len() ==> (#[trigger] entries[i]).0 != (#[trigger] entries[j]).0
}

/// Whether `name` is among the names.
pub open spec fn names_hold(entries: Seq<(Seq<char>, Seq<char>)>, name: Seq<char>) -> bool {
    exists|i: int| 0 <= i < entries.len() && (#[trigger] entries[i]).0 == name
}

proof fn lemma_entry_of_name(entries: Seq<(Seq<char>, Seq<char>)>, name: Seq<char>)
    ensures
        match entry_of_name(entries, name) {
            Some(i) => 0 <= i < entries.len() && entries[i].0 == name,
            None => !names_hold(entries, name),
        },
    decreases entries.len(),
{
    if entries.len() > 0 && entries.last().0 != name {
        let b = entries.drop_last();
        lemma_entry_of_name(b, name);
        if entry_of_name(b, name) is None && names_hold(entries, name) {
            let i = choose|i: int| 0 <= i < entries.len() && (#[trigger] entries[i]).0 == name;
            assert(b[i].0 == name);
        }
    }
}

/// The rows of an index made of entries: one for each, and the empty one
/// behind the last line feed.
proof fn lemma_index_text(entries: Seq<(Seq<char>, Seq<char>)>)
    requires
        valid_names(entries),
    ensures
        rows_of(index_text(entries)) == entry_rows(entries).push(Seq::<char>::empty()),
        forall|name: Seq<char>| #[trigger]
            has_row(rows_of(index_text(entries)), name) <==> names_hold(entries, name),
        unended(index_text(entries)) == joined(entry_rows(entries), "\n"@),
        entries.len() > 0 ==> joined(entry_rows(entries), "\n"@).len() > 0,
{
    reveal_strlit("\n");
    let e = Seq::<char>::empty();
    let r = entry_rows(entries);
    let all = r.push(e);
    let content = index_text(entries);
    assert forall|i: int| 0 <= i < r.len() implies one_line(#[trigger] r[i]) && r[i].len() > 0 by {
        assert(valid_name(entries[i].0));
        lemma_new_row(entries[i].0, entries[i].1);
    }
    assert forall|i: int| 0 <= i < all.len() implies one_line(#[trigger] all[i]) by {
        if i < r.len() {
            assert(all[i] == r[i]);
        }
    }
    lemma_pieces_of_joined(all);
    lemma_joined_push(r, e, "\n"@);
    let j = joined(r, "\n"@);
    if entries.len() > 0 {
        assert(j + "\n"@ + e =~= content);
        // The last row ends the joined rows, and it ends in no line feed.
        let n = r.len() - 1;
        let last = r[n];
        assert(j.len() > 0 && j.last() == last.last()) by {
            assert(r.drop_last().push(last) =~= r);
            lemma_joined_push(r.drop_last(), last, "\n"@);
        }
        assert(last[last.len() - 1] != '\n');
        assert(content.take(j.len() as int) =~= j);
        assert forall|i: int| j.len() <= i < content.len() implies only('\n')(
            #[trigger] content[i],
        ) by {}
        lemma_without_trailing_is(content, only('\n'), j.len() as int);
    } else {
        assert(content =~= e);
        assert(joined(all, "\n"@) =~= e);
        assert(j =~= e);
    }
    assert forall|name: Seq<char>| #[trigger] has_row(rows_of(content), name) <==> names_hold(
        entries,
        name,
    ) by {
        lemma_empty_row(name);
        if has_row(all, name) {
            let i = choose|i: int| 0 <= i < all.len() && belongs(#[trigger] all[i], name);
            if i < r.len() {
                assert(valid_name(entries[i].0));
                lemma_new_row(entries[i].0, entries[i].1);
                assert(belongs(new_row(entries[i].0, entries[i].1), name));
                assert(entries[i].0 == name);
            }
        }
        if names_hold(entries, name) {
            let i = choose|i: int| 0 <= i < entries.len() && (#[trigger] entries[i]).0 == name;
            assert(valid_name(entries[i].0));
            lemma_new_row(entries[i].0, entries[i].1);
            assert(belongs(all[i], name));
        }
    }
}

/// One more write to an index made of entries.
proof fn lemma_one_more_write(
    entries: Seq<(Seq<char>, Seq<char>)>,
    name: Seq<char>,
    desc: Seq<char>,
)
    requires
        valid_names(entries),
        names_differ(entries),
        valid_name(name),
    ensures
        index_added(index_text(entries), name, desc) == index_text(
            match entry_of_name(entries, name) {
                Some(i) => entries.update(i, (name, desc)),
                None => entries.push((name, desc)),
            },
        ),
{
    let e = Seq::<char>::empty();
    let new = new_row(name, desc);
    let r = entry_rows(entries);
    lemma_index_text(entries);
    lemma_entry_of_name(entries, name);
    lemma_new_row(name, desc);
    match entry_of_name(entries, name) {
        Some(k) => {
            let after = entries.update(k, (name, desc));
            assert(names_hold(entries, name));
            let want = entry_rows(after).push(e);
            let got = replaced(r.push(e), name, new);
            lemma_empty_row(name);
            assert forall|i: int| 0 <= i < got.len() implies got[i] == want[i] by {
                if i < r.len() {
                    assert(valid_name(entries[i].0));
                    lemma_new_row(entries[i].0, entries[i].1);
                    assert(belongs(new_row(entries[i].0, entries[i].1), name) <==> name
                        == entries[i].0);
                    if i != k {
                        assert(entries[i].0 != entries[k].0);
                    }
                }
            }
            assert(got =~= want);
            lemma_joined_push(entry_rows(after), e, "\n"@);
            let j = joined(entry_rows(after), "\n"@);
            assert(j + "\n"@ + e =~= j + "\n"@);
        },
        None => {
            let after = entries.push((name, desc));
            assert(entry_rows(after) =~= r.push(new));
            lemma_joined_push(r, new, "\n"@);
            let j = joined(r, "\n"@);
            if entries.len() > 0 {
                assert(j + "\n"@ + (new + "\n"@) =~= (j + "\n"@ + new) + "\n"@);
            }
        },
    }
}

/// After any sequence of writes to an index that was empty, the index is the
/// rows of what the writes came to: every name written has one row, no other
/// name has any, and no row is lost or doubled.  Writes from several threads
/// are such a sequence, in the order in which they held the index.
pub proof fn law_index_follows_writes(writes: Seq<(Seq<char>, Seq<char>)>)
    requires
        valid_names(writes),
    ensures
        index_after(writes) == index_text(last_writes(writes)),
        rows_of(index_after(writes)) == entry_rows(last_writes(writes)).push(Seq::<char>::empty()),
        valid_names(last_writes(writes)),
        names_differ(last_writes(writes)),
        forall|name: Seq<char>| #[trigger]
            names_hold(last_writes(writes), name) <==> names_hold(writes, name),
        forall|name: Seq<char>| #[trigger]
            has_row(rows_of(index_after(writes)), name) <==> names_hold(writes, name),
    decreases writes.len(),
{
    let l = last_writes(writes);
    if writes.len() > 0 {
        let b = writes.drop_last();
        let w = writes.last();
        let e = last_writes(b);
        assert(valid_names(b)) by {
            assert forall|i: int| 0 <= i < b.len() implies valid_name((#[trigger] b[i]).0) by {
                assert(b[i] == writes[i]);
            }
        }
        assert(valid_name(writes[writes.len() - 1].0));
        law_index_follows_writes(b);
        lemma_one_more_write(e, w.0, w.1);
        lemma_entry_of_name(e, w.0);
        assert(names_differ(l)) by {
            assert forall|i: int, j: int| 0 <= i < j < l.len() implies (#[trigger] l[i]).0 != (
            #[trigger] l[j]).0 by {
                match entry_of_name(e, w.0) {
                    Some(k) => {
                        assert(e[i].0 != e[j].0);
                    },
                    None => {
                        if j < e.len() {
                            assert(e[i].0 != e[j].0);
                        } else {
                            assert(l[i] == e[i]);
                            assert(names_hold(e, e[i].0));
                        }
                    },
                }
            }
        }
        assert(valid_names(l)) by {
            assert forall|i: int| 0 <= i < l.len() implies valid_name((#[trigger] l[i]).0) by {
                if i < e.len() {
                    assert(valid_name(e[i].0));
                }
            }
        }
        assert forall|name: Seq<char>| #[trigger] names_hold(l, name) <==> names_hold(
            writes,
            name,
        ) by {
            lemma_names_hold_after(e, w, name);
            assert(b.push(w) =~= writes);
            lemma_names_hold_push(b, w, name);
            assert(names_hold(e, name) <==> names_hold(b, name));
        }
    } else {
        assert(l =~= writes);
    }
    lemma_index_text(l);
    assert forall|name: Seq<char>| #[trigger] has_row(rows_of(index_after(writes)), name)
        <==> names_hold(writes, name) by {
        assert(has_row(rows_of(index_text(l)), name) <==> names_hold(l, name));
        assert(names_hold(l, name) <==> names_hold(writes, name));
    }
}

proof fn lemma_names_hold_push(
    entries: Seq<(Seq<char>, Seq<char>)>,
    w: (Seq<char>, Seq<char>),
    name: Seq<char>,
)
    ensures
        names_hold(entries.push(w), name) <==> names_hold(entries, name) || w.0 == name,
{
    let l = entries.push(w);
    if names_hold(entries, name) {
        let i = choose|i: int| 0 <= i < entries.len() && (#[trigger] entries[i]).0 == name;
        assert(l[i].0 == name);
    }
    if w.0 == name {
        assert(l[entries.len() as int].0 == name);
    }
    if names_hold(l, name) {
        let i = choose|i: int| 0 <= i < l.len() && (#[trigger] l[i]).0 == name;
        if i < entries.len() {
            assert(entries[i].0 == name);
        }
    }
}

proof fn lemma_names_hold_after(
    e: Seq<(Seq<char>, Seq<char>)>,
    w: (Seq<char>, Seq<char>),
    name: Seq<char>,
)
    ensures
        names_hold(
            match entry_of_name(e, w.0) {
                Some(i) => e.update(i, w),
                None => e.push(w),
            },
            name,
        ) <==> names_hold(e, name) || w.0 == name,
{
    lemma_entry_of_name(e, w.0);
    match entry_of_name(e, w.0) {
        Some(k) => {
            let l = e.update(k, w);
            if names_hold(e, name) {
                let i = choose|i: int| 0 <= i < e.len() && (#[trigger] e[i]).0 == name;
                assert(l[i].0 == name);
            }
            if w.0 == name {
                assert(l[k].0 == name);
            }
            if names_hold(l, name) {
                let i = choose|i: int| 0 <= i < l.len() && (#[trigger] l[i]).0 == name;
                if i != k {
                    assert(e[i].0 == name);
                }
            }
        },
        None => {
            lemma_names_hold_push(e, w, name);
        },
    }
}

/// A description stands in a row without the white space around it and with a
/// space for every line break: one that has neither stands there as it is.
pub proof fn law_descriptions_stand_on_one_line(
    a: Seq<char>,
    core: Seq<char>,
    b: Seq<char>,
    desc: Seq<char>,
)
    requires
        all_space(a),
        all_space(b),
        core.len() > 0 ==> !is_space(core[0]) && !is_space(core.last()),
        forall|i: int| 0 <= i < core.len() ==> #[trigger] core[i] != '\n' && core[i] != '\r',
    ensures
        row_desc(a + core + b) == core,
        !row_desc(desc).contains('\n'),
        !row_desc(desc).contains('\r'),
        on_one_line(desc).len() == desc.len(),
        forall|i: int|
            0 <= i < desc.len() ==> #[trigger] on_one_line(desc)[i] == (if desc[i] == '\n' || desc[i]
                == '\r' {
                ' '
            } else {
                desc[i]
            }),
{
    lemma_row_desc(desc);
    let x = on_one_line(a);
    let y = on_one_line(b);
    assert forall|i: int| 0 <= i < x.len() implies is_space(#[trigger] x[i]) by {
        assert(is_space(a[i]));
    }
    assert forall|i: int| 0 <= i < y.len() implies is_space(#[trigger] y[i]) by {
        assert(is_space(b[i]));
    }
    assert(on_one_line(a + core + b) =~= x + core + y);
    law_trimming(x, core, y);
}

/// The row written for a memory links its description to its file and says the
/// description once more.
pub proof fn law_rows_link_the_file(name: Seq<char>, desc: Seq<char>)
    requires
        desc.len() > 0 ==> !is_space(desc[0]) && !is_space(desc.last()),
        forall|i: int| 0 <= i < desc.len() ==> #[trigger] desc[i] != '\n' && desc[i] != '\r',
    ensures
        new_row(name, desc) == "- ["@ + desc + "]("@ + name + ".md) — "@ + desc,
{
    let e = Seq::<char>::empty();
    law_descriptions_stand_on_one_line(e, desc, e, desc);
    assert(e + desc + e =~= desc);
}

/// A row with a title of its own belongs to the memory that its link leads to,
/// where neither its title nor its description holds a link.
pub proof fn law_titled_rows_belong_to_their_link(
    title: Seq<char>,
    name: Seq<char>,
    desc: Seq<char>,
    other: Seq<char>,
)
    requires
        valid_name(name),
        valid_name(other),
        forall|i: int| 0 <= i < title.len() - 1 ==> !(#[trigger] title[i] == ']' && title[i + 1]
            == '('),
        forall|i: int| 0 <= i < desc.len() - 1 ==> !(#[trigger] desc[i] == ']' && desc[i + 1]
            == '('),
    ensures
        belongs("- ["@ + title + "]("@ + name + ".md) — "@ + desc, other) <==> name == other,
{
    reveal_strlit("- [");
    reveal_strlit("](");
    reveal_strlit(".md) — ");
    reveal_strlit(".md)");
    let line = "- ["@ + title + "]("@ + name + ".md) — "@ + desc;
    let k = 3 + title.len() as int;
    let n = name.len() as int;
    assert forall|i: int| 0 <= i < line.len() - 1 && i != k implies !(#[trigger] line[i] == ']'
        && line[i + 1] == '(') by {
        if i < 3 {
            assert(line[i] == "- ["@[i]);
        } else if i < k {
            assert(line[i] == title[i - 3]);
            if i + 1 < k {
                assert(line[i + 1] == title[i - 3 + 1]);
            } else {
                assert(line[i + 1] == ']');
            }
        } else if i == k + 1 {
            assert(line[i] == '(');
        } else if i < k + 2 + n {
            assert(line[i] == name[i - k - 2]);
            assert(name_char(name[i - k - 2]));
        } else if i < k + 2 + n + 7 {
            assert(line[i] == ".md) — "@[i - k - 2 - n]);
        } else {
            assert(line[i] == desc[i - k - 2 - n - 7]);
            assert(line[i + 1] == desc[i - k - 2 - n - 7 + 1]);
        }
    }
    assert(line[k] == ']' && line[k + 1] == '(');
    lemma_first_at(line, "]("@, 0);
    assert(line.subrange(k, k + 2) =~= "]("@);
    assert(occurs_at(line, "]("@, k));
    let j = first_at(line, "]("@, 0)->0;
    assert(j == k) by {
        assert(line.subrange(j, j + 2) == "]("@);
        assert(line.subrange(j, j + 2)[0] == line[j]);
        assert(line.subrange(j, j + 2)[1] == line[j + 1]);
    }
    let x = name + ".md)"@;
    assert(line.skip(k + 2).take(x.len() as int) =~= x);
    assert(links_first(line, name));
    if !written_for(line, name) {
        assert forall|m: Seq<char>| !(#[trigger] written_for(line, m)) by {
            if written_for(line, m) {
                let d = choose|d: Seq<char>| line == #[trigger] row(d, m, d);
                lemma_row_parts(d, m);
                let p = 3 + d.len() as int;
                assert(line[p] == ']' && line[p + 1] == '(');
                assert(p == k);
                assert(line.subrange(3, k) =~= title);
                assert(d == title);
                let rest = line.skip(k + 2);
                assert(rest =~= name + ".md) — "@ + desc);
                assert(line =~= row(title, m, title));
                assert(rest =~= m + ".md) — "@ + title);
                assert(m.len() == name.len()) by {
                    if m.len() < name.len() {
                        assert(rest[m.len() as int] == '.');
                        assert(rest[m.len() as int] == name[m.len() as int]);
                        assert(name_char(name[m.len() as int]));
                    } else if name.len() < m.len() {
                        assert(rest[name.len() as int] == '.');
                        assert(rest[name.len() as int] == m[name.len() as int]);
                        assert(name_char(m[name.len() as int]));
                    }
                }
                assert(m =~= rest.take(n));
                assert(name =~= rest.take(n));
                assert(written_for(line, name));
            }
        }
    }
    assert(belongs(line, name));
    law_rows_have_one_owner(line, name, other, desc);
}

/// Removing looks at each row by itself: a row of the memory goes, any other
/// stays, and the rows keep their order.
pub proof fn law_each_row_goes_or_stays(
    a: Seq<Seq<char>>,
    line: Seq<char>,
    b: Seq<Seq<char>>,
    name: Seq<char>,
)
    ensures
        others(a + seq![line] + b, name) == others(a, name) + (if belongs(line, name) {
            Seq::empty()
        } else {
            seq![line]
        }) + others(b, name),
        others(Seq::empty(), name).len() == 0,
{
    lemma_others_append(a + seq![line], b, name);
    lemma_others_append(a, seq![line], name);
    let one = seq![line];
    assert(one.drop_last() =~= Seq::empty());
    assert(others(one.drop_last(), name) =~= Seq::empty());
    assert(others(one, name) =~= if belongs(line, name) {
        Seq::empty()
    } else {
        seq![line]
    });
}

} // verus!
