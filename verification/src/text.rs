//! Text as a sequence of characters: the string operations the rest of the
//! crate builds on, each with an exact contract over `Seq<char>`.

use vstd::prelude::*;

verus! {

/// `String::push` of std appends one character to the end of the string.
pub assume_specification[ String::push ](s: &mut String, c: char)
    ensures
        final(s)@ == old(s)@.push(c),
;

/// The text that `Debug` of `str` prints.
pub uninterp spec fn debug_form(s: Seq<char>) -> Seq<char>;

/// `Debug` of `str`: the text in double quotes with its special characters
/// escaped.  The escapes are std's; they are named here, not spelled out.
#[verifier::external_body]
pub(crate) fn debug_text(s: &str) -> (r: String)
    ensures
        r@ == debug_form(s@),
{
    format!("{:?}", s)
}

// ---------------------------------------------------------------------------
// Conversions
// ---------------------------------------------------------------------------

/// The characters of `s`, in order.
pub fn chars_of(s: &str) -> (r: Vec<char>)
    ensures
        r@ == s@,
{
    let mut r: Vec<char> = Vec::new();
    for c in it: s.chars()
        invariant
            it.seq() == s@,
            r@ == s@.take(it.index()),
    {
        assert(s@.take(it.index() + 1) == s@.take(it.index()).push(s@[it.index()]));
        r.push(c);
    }
    assert(s@.take(s@.len() as int) == s@);
    r
}

/// The string whose characters are `v[from..to]`.
pub fn string_of(v: &Vec<char>, from: usize, to: usize) -> (r: String)
    requires
        from <= to <= v@.len(),
    ensures
        r@ == v@.subrange(from as int, to as int),
{
    let mut r = String::new();
    let mut i: usize = from;
    while i < to
        invariant
            from <= i <= to <= v@.len(),
            r@ == v@.subrange(from as int, i as int),
        decreases to - i,
    {
        r.push(v[i]);
        i += 1;
        assert(v@.subrange(from as int, i as int) == v@.subrange(from as int, i - 1).push(
            v@[i - 1],
        ));
    }
    r
}

/// The texts of a sequence of strings.
pub open spec fn texts(v: Seq<String>) -> Seq<Seq<char>> {
    Seq::new(v.len(), |i: int| v[i]@)
}

/// The text of an optional string.
pub open spec fn opt_text(o: Option<String>) -> Option<Seq<char>> {
    match o {
        Some(s) => Some(s@),
        None => None,
    }
}

/// A copy of an optional string.
pub fn clone_opt(o: &Option<String>) -> (r: Option<String>)
    ensures
        r == *o,
{
    match o {
        Some(s) => Some(s.clone()),
        None => None,
    }
}

/// A copy of a list of strings.
pub fn clone_texts(v: &Vec<String>) -> (r: Vec<String>)
    ensures
        r@ == v@,
{
    let mut r: Vec<String> = Vec::new();
    let mut i: usize = 0;
    while i < v.len()
        invariant
            i <= v@.len(),
            r@ == v@.take(i as int),
        decreases v@.len() - i,
    {
        r.push(v[i].clone());
        i += 1;
        assert(v@.take(i as int) == v@.take(i - 1).push(v@[i - 1]));
    }
    assert(v@.take(v@.len() as int) == v@);
    r
}

/// Whether two strings hold the same characters.
pub fn same_text(a: &str, b: &str) -> (r: bool)
    ensures
        r == (a@ == b@),
{
    let x = chars_of(a);
    let y = chars_of(b);
    if x.len() != y.len() {
        return false;
    }
    assert(a@.subrange(0, a@.len() as int) == a@);
    occurs_here(&x, &y, 0)
}

// ---------------------------------------------------------------------------
// Joining
// ---------------------------------------------------------------------------

/// The parts in order, with `sep` between neighbours.
pub open spec fn joined(parts: Seq<Seq<char>>, sep: Seq<char>) -> Seq<char>
    decreases parts.len(),
{
    if parts.len() == 0 {
        Seq::empty()
    } else if parts.len() == 1 {
        parts[0]
    } else {
        joined(parts.drop_last(), sep) + sep + parts.last()
    }
}

/// Joins `parts` with `sep`.
pub fn join(parts: &Vec<String>, sep: &str) -> (r: String)
    ensures
        r@ == joined(texts(parts@), sep@),
{
    let mut r = String::new();
    let mut i: usize = 0;
    while i < parts.len()
        invariant
            i <= parts@.len(),
            r@ == joined(texts(parts@).take(i as int), sep@),
        decreases parts@.len() - i,
    {
        let ghost before = texts(parts@).take(i as int);
        let ghost after = texts(parts@).take(i + 1);
        assert(after.drop_last() == before);
        if i > 0 {
            r.append(sep);
        } else {
            assert(before.len() == 0);
            assert(Seq::<char>::empty() + parts@[0]@ == parts@[0]@);
        }
        r.append(parts[i].as_str());
        i += 1;
    }
    assert(texts(parts@).take(parts@.len() as int) == texts(parts@));
    r
}

/// Joining a list extended by one part.
pub proof fn lemma_joined_push(parts: Seq<Seq<char>>, last: Seq<char>, sep: Seq<char>)
    ensures
        joined(parts.push(last), sep) == if parts.len() == 0 {
            last
        } else {
            joined(parts, sep) + sep + last
        },
{
    assert(parts.push(last).drop_last() == parts);
}

// ---------------------------------------------------------------------------
// Searching
// ---------------------------------------------------------------------------

/// Whether `pat` stands in `s` at position `i`.
pub open spec fn occurs_at(s: Seq<char>, pat: Seq<char>, i: int) -> bool {
    0 <= i && i + pat.len() <= s.len() && s.subrange(i, i + pat.len()) == pat
}

/// Whether `pat` stands anywhere in `s`.
pub open spec fn has_text(s: Seq<char>, pat: Seq<char>) -> bool {
    exists|i: int| occurs_at(s, pat, i)
}

/// The first position at which `pat` stands in `s`, looking from `from` on.
pub open spec fn first_at(s: Seq<char>, pat: Seq<char>, from: int) -> Option<int>
    decreases s.len() + 1 - from,
{
    if from < 0 || from + pat.len() > s.len() {
        None
    } else if occurs_at(s, pat, from) {
        Some(from)
    } else {
        first_at(s, pat, from + 1)
    }
}

/// `first_at` finds an occurrence exactly when there is one, and the first.
pub proof fn lemma_first_at(s: Seq<char>, pat: Seq<char>, from: int)
    requires
        0 <= from,
    ensures
        match first_at(s, pat, from) {
            Some(k) => from <= k && occurs_at(s, pat, k) && (forall|i: int|
                from <= i < k ==> !occurs_at(s, pat, i)),
            None => forall|i: int| from <= i ==> !occurs_at(s, pat, i),
        },
    decreases s.len() + 1 - from,
{
    if from + pat.len() <= s.len() && !occurs_at(s, pat, from) {
        lemma_first_at(s, pat, from + 1);
    }
}

fn occurs_here(s: &Vec<char>, pat: &Vec<char>, at: usize) -> (r: bool)
    requires
        at + pat@.len() <= s@.len(),
    ensures
        r == occurs_at(s@, pat@, at as int),
{
    let total: usize = s.len();
    let mut k: usize = 0;
    while k < pat.len()
        invariant
            k <= pat@.len(),
            at + pat@.len() <= s@.len(),
            total == s@.len(),
            forall|j: int| 0 <= j < k ==> s@[at + j] == pat@[j],
        decreases pat@.len() - k,
    {
        if s[at + k] != pat[k] {
            assert(s@.subrange(at as int, at + pat@.len())[k as int] != pat@[k as int]);
            return false;
        }
        k += 1;
    }
    assert(s@.subrange(at as int, at + pat@.len()) == pat@);
    true
}

/// The first position of `pat` in `s`, in characters.
pub fn find_in(s: &Vec<char>, pat: &Vec<char>) -> (r: Option<usize>)
    ensures
        match r {
            Some(k) => first_at(s@, pat@, 0) == Some(k as int) && occurs_at(s@, pat@, k as int),
            None => first_at(s@, pat@, 0) is None,
        },
{
    if pat.len() > s.len() {
        return None;
    }
    let last: usize = s.len() - pat.len();
    let mut i: usize = 0;
    while i <= last
        invariant
            last == s@.len() - pat@.len(),
            i <= last + 1,
            first_at(s@, pat@, 0) == first_at(s@, pat@, i as int),
        decreases last + 1 - i,
    {
        if occurs_here(s, pat, i) {
            return Some(i);
        }
        if i == last {
            assert(first_at(s@, pat@, last + 1) is None);
            return None;
        }
        i += 1;
    }
    None
}

/// Whether `s` begins with `prefix`.
pub open spec fn begins(s: Seq<char>, prefix: Seq<char>) -> bool {
    prefix.len() <= s.len() && s.take(prefix.len() as int) == prefix
}

/// Whether `s` begins with `prefix`.
pub fn starts_with(s: &str, prefix: &str) -> (r: bool)
    ensures
        r == begins(s@, prefix@),
{
    let x = chars_of(s);
    let p = chars_of(prefix);
    assert(s@.take(prefix@.len() as int) == s@.subrange(0, prefix@.len() as int) || prefix@.len()
        > s@.len());
    p.len() <= x.len() && occurs_here(&x, &p, 0)
}

/// Whether `s` ends with the character `c`.
pub open spec fn ends_in(s: Seq<char>, c: char) -> bool {
    s.len() > 0 && s.last() == c
}

/// The position of the first `c` in `s`.
pub open spec fn char_at(s: Seq<char>, c: char) -> Option<int>
    decreases s.len(),
{
    if s.len() == 0 {
        None
    } else if s[0] == c {
        Some(0)
    } else {
        match char_at(s.drop_first(), c) {
            Some(k) => Some(k + 1),
            None => None,
        }
    }
}

/// `char_at` finds the first occurrence, if there is one.
pub proof fn lemma_char_at(s: Seq<char>, c: char)
    ensures
        match char_at(s, c) {
            Some(k) => 0 <= k < s.len() && s[k] == c && (forall|i: int| 0 <= i < k ==> s[i] != c),
            None => !s.contains(c),
        },
    decreases s.len(),
{
    if s.len() > 0 && s[0] != c {
        let t = s.drop_first();
        lemma_char_at(t, c);
        match char_at(t, c) {
            Some(k) => {
                assert forall|i: int| 0 <= i < k + 1 implies s[i] != c by {
                    if i > 0 {
                        assert(t[i - 1] == s[i]);
                    }
                }
            },
            None => {
                assert forall|i: int| 0 <= i < s.len() implies s[i] != c by {
                    if i > 0 {
                        assert(t[i - 1] == s[i]);
                    }
                }
            },
        }
    }
}

/// The first position of a character is the only one with none before it.
pub proof fn lemma_char_at_is(s: Seq<char>, c: char, k: int)
    requires
        0 <= k < s.len(),
        s[k] == c,
        forall|i: int| 0 <= i < k ==> s[i] != c,
    ensures
        char_at(s, c) == Some(k),
{
    lemma_char_at(s, c);
    assert(s.contains(s[k]));
    match char_at(s, c) {
        Some(j) => {
            if j < k {
                assert(s[j] != c);
            } else if k < j {
                assert(s[k] != c);
            }
        },
        None => {},
    }
}

/// The position of the first `c` in `v[from..]`.
pub fn find_char(v: &Vec<char>, from: usize, c: char) -> (r: Option<usize>)
    requires
        from <= v@.len(),
    ensures
        match r {
            Some(k) => from <= k < v@.len() && char_at(v@.skip(from as int), c) == Some(k - from),
            None => char_at(v@.skip(from as int), c) is None,
        },
{
    let mut i: usize = from;
    let ghost t = v@.skip(from as int);
    while i < v.len()
        invariant
            from <= i <= v@.len(),
            t == v@.skip(from as int),
            forall|j: int| 0 <= j < i - from ==> t[j] != c,
        decreases v@.len() - i,
    {
        if v[i] == c {
            proof {
                lemma_char_at_is(t, c, i - from);
            }
            return Some(i);
        }
        i += 1;
    }
    proof {
        lemma_char_at(t, c);
    }
    None
}

// ---------------------------------------------------------------------------
// Trimming
// ---------------------------------------------------------------------------

/// The characters with Unicode's White_Space property.
pub open spec fn is_space(c: char) -> bool {
    let n = c as u32;
    ||| 0x9 <= n <= 0xd
    ||| n == 0x20
    ||| n == 0x85
    ||| n == 0xa0
    ||| n == 0x1680
    ||| 0x2000 <= n <= 0x200a
    ||| n == 0x2028
    ||| n == 0x2029
    ||| n == 0x202f
    ||| n == 0x205f
    ||| n == 0x3000
}

/// Whether `c` has Unicode's White_Space property.
pub fn is_whitespace(c: char) -> (r: bool)
    ensures
        r == is_space(c),
{
    let n: u32 = c as u32;
    (0x9 <= n && n <= 0xd) || n == 0x20 || n == 0x85 || n == 0xa0 || n == 0x1680 || (0x2000 <= n
        && n <= 0x200a) || n == 0x2028 || n == 0x2029 || n == 0x202f || n == 0x205f || n == 0x3000
}

/// `s` without the longest prefix of characters in `class`.
pub open spec fn without_leading(s: Seq<char>, class: spec_fn(char) -> bool) -> Seq<char>
    decreases s.len(),
{
    if s.len() > 0 && class(s[0]) {
        without_leading(s.drop_first(), class)
    } else {
        s
    }
}

/// `s` without the longest suffix of characters in `class`.
pub open spec fn without_trailing(s: Seq<char>, class: spec_fn(char) -> bool) -> Seq<char>
    decreases s.len(),
{
    if s.len() > 0 && class(s.last()) {
        without_trailing(s.drop_last(), class)
    } else {
        s
    }
}

/// The class of white-space characters.
pub open spec fn space() -> spec_fn(char) -> bool {
    |c: char| is_space(c)
}

/// The class that holds `k` alone.
pub open spec fn only(k: char) -> spec_fn(char) -> bool {
    |c: char| c == k
}

/// `s` without white space at either end.
pub open spec fn trimmed(s: Seq<char>) -> Seq<char> {
    without_trailing(without_leading(s, space()), space())
}

/// What `without_trailing` keeps is a prefix; what it drops is in the class.
pub proof fn lemma_without_trailing(s: Seq<char>, class: spec_fn(char) -> bool)
    ensures
        ({
            let t = without_trailing(s, class);
            &&& t.len() <= s.len()
            &&& t == s.take(t.len() as int)
            &&& (t.len() > 0 ==> !class(t.last()))
            &&& forall|i: int| t.len() <= i < s.len() ==> class(#[trigger] s[i])
        }),
    decreases s.len(),
{
    if s.len() > 0 && class(s.last()) {
        lemma_without_trailing(s.drop_last(), class);
        let t = without_trailing(s, class);
        assert(s.drop_last().take(t.len() as int) == s.take(t.len() as int));
        assert forall|i: int| t.len() <= i < s.len() implies class(#[trigger] s[i]) by {
            if i < s.len() - 1 {
                assert(class(s.drop_last()[i]));
            }
        }
    } else {
        assert(s.take(s.len() as int) == s);
    }
}

/// What `without_leading` keeps is a suffix; what it drops is in the class.
pub proof fn lemma_without_leading(s: Seq<char>, class: spec_fn(char) -> bool)
    ensures
        ({
            let t = without_leading(s, class);
            let k = s.len() - t.len();
            &&& t.len() <= s.len()
            &&& t == s.skip(k)
            &&& (t.len() > 0 ==> !class(t[0]))
            &&& forall|i: int| 0 <= i < k ==> class(#[trigger] s[i])
        }),
    decreases s.len(),
{
    if s.len() > 0 && class(s[0]) {
        let d = s.drop_first();
        lemma_without_leading(d, class);
        let t = without_leading(s, class);
        let k = s.len() - t.len();
        assert(d.skip(k - 1) == s.skip(k));
        assert forall|i: int| 0 <= i < k implies class(#[trigger] s[i]) by {
            if i > 0 {
                assert(class(d[i - 1]));
            }
        }
    } else {
        assert(s.skip(0) == s);
    }
}

/// The prefix that ends at the last character outside the class is what
/// `without_trailing` keeps.
pub proof fn lemma_without_trailing_is(s: Seq<char>, class: spec_fn(char) -> bool, n: int)
    requires
        0 <= n <= s.len(),
        n > 0 ==> !class(s[n - 1]),
        forall|i: int| n <= i < s.len() ==> class(#[trigger] s[i]),
    ensures
        without_trailing(s, class) == s.take(n),
    decreases s.len(),
{
    if n < s.len() {
        assert(class(s[s.len() - 1]));
        lemma_without_trailing_is(s.drop_last(), class, n);
        assert(s.drop_last().take(n) == s.take(n));
    } else {
        assert(s.take(n) == s);
    }
}

/// The suffix that starts at the first character outside the class is what
/// `without_leading` keeps.
pub proof fn lemma_without_leading_is(s: Seq<char>, class: spec_fn(char) -> bool, n: int)
    requires
        0 <= n <= s.len(),
        n < s.len() ==> !class(s[n]),
        forall|i: int| 0 <= i < n ==> class(#[trigger] s[i]),
    ensures
        without_leading(s, class) == s.skip(n),
    decreases s.len(),
{
    if n > 0 {
        assert(class(s[0]));
        let d = s.drop_first();
        assert forall|i: int| 0 <= i < n - 1 implies class(#[trigger] d[i]) by {
            assert(class(s[i + 1]));
        }
        lemma_without_leading_is(d, class, n - 1);
        assert(d.skip(n - 1) == s.skip(n));
    } else {
        assert(s.skip(0) == s);
    }
}

fn trim_end(s: &str) -> (r: String)
    ensures
        r@ == without_trailing(s@, space()),
{
    let v = chars_of(s);
    let mut n: usize = v.len();
    while n > 0 && is_whitespace(v[n - 1])
        invariant
            v@ == s@,
            n <= v@.len(),
            forall|i: int| n <= i < s@.len() ==> space()(#[trigger] s@[i]),
        decreases n,
    {
        n -= 1;
    }
    proof {
        lemma_without_trailing_is(s@, space(), n as int);
        assert(s@.take(n as int) == s@.subrange(0, n as int));
    }
    string_of(&v, 0, n)
}

/// `s` without white space at either end.
pub fn trim(s: &str) -> (r: String)
    ensures
        r@ == trimmed(s@),
{
    let v = chars_of(s);
    let mut n: usize = 0;
    while n < v.len() && is_whitespace(v[n])
        invariant
            v@ == s@,
            n <= v@.len(),
            forall|i: int| 0 <= i < n ==> space()(#[trigger] s@[i]),
        decreases v@.len() - n,
    {
        n += 1;
    }
    proof {
        lemma_without_leading_is(s@, space(), n as int);
        assert(s@.skip(n as int) == s@.subrange(n as int, s@.len() as int));
    }
    let rest = string_of(&v, n, v.len());
    trim_end(rest.as_str())
}

/// `s` without leading `c`s.
pub fn trim_start_char(s: &str, c: char) -> (r: String)
    ensures
        r@ == without_leading(s@, only(c)),
{
    let v = chars_of(s);
    let mut n: usize = 0;
    while n < v.len() && v[n] == c
        invariant
            v@ == s@,
            n <= v@.len(),
            forall|i: int| 0 <= i < n ==> only(c)(#[trigger] s@[i]),
        decreases v@.len() - n,
    {
        n += 1;
    }
    proof {
        lemma_without_leading_is(s@, only(c), n as int);
        assert(s@.skip(n as int) == s@.subrange(n as int, s@.len() as int));
    }
    string_of(&v, n, v.len())
}

/// `s` without trailing `c`s.
pub fn trim_end_char(s: &str, c: char) -> (r: String)
    ensures
        r@ == without_trailing(s@, only(c)),
{
    let v = chars_of(s);
    let mut n: usize = v.len();
    while n > 0 && v[n - 1] == c
        invariant
            v@ == s@,
            n <= v@.len(),
            forall|i: int| n <= i < s@.len() ==> only(c)(#[trigger] s@[i]),
        decreases n,
    {
        n -= 1;
    }
    proof {
        lemma_without_trailing_is(s@, only(c), n as int);
        assert(s@.take(n as int) == s@.subrange(0, n as int));
    }
    string_of(&v, 0, n)
}

// ---------------------------------------------------------------------------
// Lines
// ---------------------------------------------------------------------------

/// A line without the carriage return that stood before its line feed.
pub open spec fn without_cr(line: Seq<char>) -> Seq<char> {
    if ends_in(line, '\r') {
        line.drop_last()
    } else {
        line
    }
}

/// The lines of `s`: its pieces between line feeds, a carriage return before a
/// line feed belonging to the line's end, and no line after a final line feed.
pub open spec fn lines_of(s: Seq<char>) -> Seq<Seq<char>>
    decreases s.len(),
{
    if s.len() == 0 {
        Seq::empty()
    } else {
        match char_at(s, '\n') {
            Some(k) => if 0 <= k < s.len() {
                seq![without_cr(s.take(k))] + lines_of(s.skip(k + 1))
            } else {
                seq![s]
            },
            None => seq![s],
        }
    }
}

/// The lines of `s`.
pub fn lines(s: &str) -> (r: Vec<String>)
    ensures
        texts(r@) == lines_of(s@),
{
    let v = chars_of(s);
    let mut out: Vec<String> = Vec::new();
    let mut i: usize = 0;
    assert(s@.skip(0) == s@);
    assert(texts(out@) + lines_of(s@) == lines_of(s@));
    while i < v.len()
        invariant
            v@ == s@,
            i <= v@.len(),
            texts(out@) + lines_of(s@.skip(i as int)) == lines_of(s@),
        decreases v@.len() - i,
    {
        let ghost rest = s@.skip(i as int);
        let ghost done = texts(out@);
        match find_char(&v, i, '\n') {
            Some(k) => {
                let mut e: usize = k;
                if e > i && v[e - 1] == '\r' {
                    e -= 1;
                }
                let line = string_of(&v, i, e);
                assert(rest.take(k - i) == s@.subrange(i as int, k as int));
                assert(line@ == without_cr(rest.take(k - i)));
                assert(rest.skip(k - i + 1) == s@.skip(k + 1));
                out.push(line);
                assert(texts(out@) == done.push(line@));
                assert(done + (seq![line@] + lines_of(s@.skip(k + 1))) == done.push(line@)
                    + lines_of(s@.skip(k + 1)));
                i = k + 1;
            },
            None => {
                let line = string_of(&v, i, v.len());
                assert(line@ == rest);
                out.push(line);
                assert(texts(out@) == done.push(rest));
                assert(done + seq![rest] == done.push(rest));
                assert(lines_of(rest) == seq![rest]);
                return out;
            },
        }
    }
    assert(s@.skip(i as int).len() == 0);
    assert(texts(out@) + Seq::<Seq<char>>::empty() == texts(out@));
    out
}

/// The pieces of `s` between its line feeds; joined by line feeds they are `s`
/// again.
pub open spec fn pieces(s: Seq<char>) -> Seq<Seq<char>>
    decreases s.len(),
{
    match char_at(s, '\n') {
        Some(k) => if 0 <= k < s.len() {
            seq![s.take(k)] + pieces(s.skip(k + 1))
        } else {
            seq![s]
        },
        None => seq![s],
    }
}

/// The pieces of `s` between its line feeds.
pub fn split_pieces(s: &str) -> (r: Vec<String>)
    ensures
        texts(r@) == pieces(s@),
{
    let v = chars_of(s);
    let mut out: Vec<String> = Vec::new();
    let mut i: usize = 0;
    assert(s@.skip(0) == s@);
    assert(texts(out@) + pieces(s@) == pieces(s@));
    let total: usize = v.len();
    loop
        invariant
            v@ == s@,
            total == v@.len(),
            i <= v@.len(),
            texts(out@) + pieces(s@.skip(i as int)) == pieces(s@),
        decreases v@.len() - i,
    {
        let ghost rest = s@.skip(i as int);
        let ghost done = texts(out@);
        match find_char(&v, i, '\n') {
            Some(k) => {
                let piece = string_of(&v, i, k);
                assert(rest.take(k - i) == piece@);
                assert(rest.skip(k - i + 1) == s@.skip(k + 1));
                out.push(piece);
                assert(texts(out@) == done.push(piece@));
                assert(done + (seq![piece@] + pieces(s@.skip(k + 1))) == done.push(piece@)
                    + pieces(s@.skip(k + 1)));
                i = k + 1;
            },
            None => {
                let piece = string_of(&v, i, v.len());
                assert(piece@ == rest);
                out.push(piece);
                assert(texts(out@) == done.push(rest));
                assert(done + seq![rest] == done.push(rest));
                return out;
            },
        }
    }
}

/// Joining puts the first part in front.
pub proof fn lemma_joined_front(parts: Seq<Seq<char>>, sep: Seq<char>)
    requires
        parts.len() >= 2,
    ensures
        joined(parts, sep) == parts[0] + sep + joined(parts.drop_first(), sep),
    decreases parts.len(),
{
    let t = parts.drop_first();
    if parts.len() == 2 {
        assert(joined(parts.drop_last(), sep) == parts[0]);
        assert(joined(t, sep) == parts[1]);
    } else {
        lemma_joined_front(parts.drop_last(), sep);
        assert(parts.drop_last().drop_first() == t.drop_last());
        assert(joined(t, sep) == joined(t.drop_last(), sep) + sep + t.last());
        assert((parts[0] + sep + joined(t.drop_last(), sep)) + sep + t.last() =~= parts[0] + sep + (
        joined(t.drop_last(), sep) + sep + t.last()));
    }
}

/// Joining two lists of parts joins what each of them joins to.
pub proof fn lemma_joined_append(a: Seq<Seq<char>>, b: Seq<Seq<char>>, sep: Seq<char>)
    requires
        a.len() > 0,
        b.len() > 0,
    ensures
        joined(a + b, sep) == joined(a, sep) + sep + joined(b, sep),
    decreases b.len(),
{
    let c = a + b;
    assert(c.last() == b.last());
    if b.len() == 1 {
        assert(c.drop_last() == a);
    } else {
        assert(c.drop_last() == a + b.drop_last());
        lemma_joined_append(a, b.drop_last(), sep);
        assert((joined(a, sep) + sep + joined(b.drop_last(), sep)) + sep + b.last() =~= joined(
            a,
            sep,
        ) + sep + (joined(b.drop_last(), sep) + sep + b.last()));
    }
}

/// The pieces of a text hold no line feed and join to the text again.
pub proof fn lemma_pieces(s: Seq<char>)
    ensures
        pieces(s).len() > 0,
        forall|i: int| 0 <= i < pieces(s).len() ==> one_line(#[trigger] pieces(s)[i]),
        joined(pieces(s), "\n"@) == s,
    decreases s.len(),
{
    reveal_strlit("\n");
    lemma_char_at(s, '\n');
    let p = pieces(s);
    match char_at(s, '\n') {
        Some(k) => {
            let rest = s.skip(k + 1);
            lemma_pieces(rest);
            lemma_joined_front(p, "\n"@);
            assert(p.drop_first() == pieces(rest));
            assert(p[0] == s.take(k));
            assert(s.take(k) + "\n"@ + rest =~= s);
            assert forall|i: int| 0 <= i < p.len() implies one_line(#[trigger] p[i]) by {
                if i > 0 {
                    assert(p[i] == pieces(rest)[i - 1]);
                }
            }
        },
        None => {
            assert forall|i: int| 0 <= i < s.len() implies #[trigger] s[i] != '\n' by {
                assert(s.contains(s[i]));
            }
        },
    }
}

/// Parts without a line feed are the pieces of what they join to.
pub proof fn lemma_pieces_of_joined(parts: Seq<Seq<char>>)
    requires
        parts.len() > 0,
        forall|i: int| 0 <= i < parts.len() ==> one_line(#[trigger] parts[i]),
    ensures
        pieces(joined(parts, "\n"@)) == parts,
    decreases parts.len(),
{
    reveal_strlit("\n");
    let s = joined(parts, "\n"@);
    let a = parts[0];
    assert(one_line(a));
    if parts.len() == 1 {
        assert(s == a);
        lemma_char_at(s, '\n');
        assert(pieces(s) =~= parts);
    } else {
        let t = parts.drop_first();
        assert forall|i: int| 0 <= i < t.len() implies one_line(#[trigger] t[i]) by {
            assert(t[i] == parts[i + 1]);
        }
        lemma_pieces_of_joined(t);
        lemma_joined_front(parts, "\n"@);
        let k = a.len() as int;
        assert(s[k] == '\n');
        assert forall|i: int| 0 <= i < k implies s[i] != '\n' by {
            assert(s[i] == a[i]);
        }
        lemma_char_at_is(s, '\n', k);
        assert(s.take(k) =~= a);
        assert(s.skip(k + 1) =~= joined(t, "\n"@));
        assert(seq![a] + t =~= parts);
    }
}

/// The pieces of two texts with a line feed between them are the pieces of
/// both.
pub proof fn lemma_pieces_append(a: Seq<char>, b: Seq<char>)
    ensures
        pieces(a + "\n"@ + b) == pieces(a) + pieces(b),
{
    let p = pieces(a);
    let q = pieces(b);
    lemma_pieces(a);
    lemma_pieces(b);
    lemma_joined_append(p, q, "\n"@);
    let all = p + q;
    assert forall|i: int| 0 <= i < all.len() implies one_line(#[trigger] all[i]) by {
        if i < p.len() {
            assert(all[i] == p[i]);
        } else {
            assert(all[i] == q[i - p.len()]);
        }
    }
    lemma_pieces_of_joined(all);
}

/// Whether `c` occurs in `s`.
pub fn contains_char(s: &str, c: char) -> (r: bool)
    ensures
        r == s@.contains(c),
{
    let v = chars_of(s);
    proof {
        lemma_char_at(s@, c);
        assert(s@.skip(0) == s@);
    }
    match find_char(&v, 0, c) {
        Some(_) => true,
        None => false,
    }
}

// ---------------------------------------------------------------------------
// Numbers
// ---------------------------------------------------------------------------

/// Whether `s` has no line feed.
pub open spec fn one_line(s: Seq<char>) -> bool {
    forall|i: int| 0 <= i < s.len() ==> #[trigger] s[i] != '\n'
}

/// The decimal digit `d` as a character.
pub open spec fn digit_char(d: int) -> char {
    (('0' as u32) + d) as char
}

/// The decimal notation of `n`, without leading zeros.
pub open spec fn decimal(n: nat) -> Seq<char>
    decreases n,
{
    if n < 10 {
        seq![digit_char(n as int)]
    } else {
        decimal(n / 10).push(digit_char((n % 10) as int))
    }
}

/// `n` zeros.
pub open spec fn zeros(n: nat) -> Seq<char> {
    Seq::new(n, |i: int| '0')
}

/// The decimal notation of `n`, with leading zeros up to `width` digits.
pub open spec fn zero_padded(n: nat, width: nat) -> Seq<char> {
    let s = decimal(n);
    if s.len() < width {
        zeros((width - s.len()) as nat) + s
    } else {
        s
    }
}

fn digit(d: u64) -> (r: char)
    requires
        d < 10,
    ensures
        r == digit_char(d as int),
{
    let b: u8 = 48 + (d as u8);
    b as char
}

/// The decimal notation of `n`.
pub fn decimal_text(n: u64) -> (r: String)
    ensures
        r@ == decimal(n as nat),
    decreases n,
{
    if n < 10 {
        let mut r = String::new();
        r.push(digit(n));
        assert(r@ == seq![digit_char(n as int)]);
        r
    } else {
        let mut r = decimal_text(n / 10);
        r.push(digit(n % 10));
        r
    }
}

/// The decimal notation of `n`, with leading zeros up to `width` digits.
pub fn zero_padded_text(n: u64, width: usize) -> (r: String)
    ensures
        r@ == zero_padded(n as nat, width as nat),
{
    let digits = decimal_text(n);
    let have: usize = digits.as_str().unicode_len();
    if have >= width {
        return digits;
    }
    let mut r = String::new();
    let mut i: usize = 0;
    while i < width - have
        invariant
            have < width,
            i <= width - have,
            r@ == zeros(i as nat),
        decreases width - have - i,
    {
        r.push('0');
        i += 1;
        assert(zeros(i as nat) == zeros((i - 1) as nat).push('0'));
    }
    r.append(digits.as_str());
    r
}

// ---------------------------------------------------------------------------
// Laws
// ---------------------------------------------------------------------------

/// Whether every character of `s` is white space.
pub open spec fn all_space(s: Seq<char>) -> bool {
    forall|i: int| 0 <= i < s.len() ==> is_space(#[trigger] s[i])
}

/// Trimming takes white space off both ends and nothing else: a text that
/// begins and ends in other characters is what is left of it with white space
/// around it.
pub proof fn law_trimming(a: Seq<char>, core: Seq<char>, b: Seq<char>)
    requires
        all_space(a),
        all_space(b),
        core.len() > 0 ==> !is_space(core[0]) && !is_space(core.last()),
    ensures
        trimmed(a + core + b) == core,
{
    let s = a + core + b;
    if core.len() > 0 {
        assert forall|i: int| 0 <= i < a.len() implies space()(#[trigger] s[i]) by {
            assert(s[i] == a[i]);
        }
        assert(s[a.len() as int] == core[0]);
        lemma_without_leading_is(s, space(), a.len() as int);
        let t = s.skip(a.len() as int);
        assert(t =~= core + b);
        assert forall|i: int| core.len() <= i < t.len() implies space()(#[trigger] t[i]) by {
            assert(t[i] == b[i - core.len()]);
        }
        assert(t[core.len() - 1] == core.last());
        lemma_without_trailing_is(t, space(), core.len() as int);
        assert(t.take(core.len() as int) =~= core);
    } else {
        assert forall|i: int| 0 <= i < s.len() implies space()(#[trigger] s[i]) by {
            if i < a.len() {
                assert(s[i] == a[i]);
            } else {
                assert(s[i] == b[i - a.len()]);
            }
        }
        lemma_without_leading_is(s, space(), s.len() as int);
        assert(s.skip(s.len() as int) =~= core);
        assert(without_trailing(core, space()) =~= core);
    }
}

/// Joining keeps every part as it is, in order: no part joins to nothing, one
/// part to itself, and two lists of parts to what each joins to with the
/// separator between them.
pub proof fn law_joining(a: Seq<Seq<char>>, b: Seq<Seq<char>>, part: Seq<char>, sep: Seq<char>)
    ensures
        joined(Seq::<Seq<char>>::empty(), sep).len() == 0,
        joined(seq![part], sep) == part,
        a.len() > 0 && b.len() > 0 ==> joined(a + b, sep) == joined(a, sep) + sep + joined(b, sep),
{
    if a.len() > 0 && b.len() > 0 {
        lemma_joined_append(a, b, sep);
    }
}

/// The number that decimal digits denote.
pub open spec fn denoted(digits: Seq<char>) -> int
    decreases digits.len(),
{
    if digits.len() == 0 {
        0
    } else {
        10 * denoted(digits.drop_last()) + (digits.last() as u32 - '0' as u32)
    }
}

/// The decimal notation of a number is made of digits, denotes the number and
/// has no leading zero, save that of zero itself.
pub proof fn law_decimal_denotes(n: nat)
    ensures
        denoted(decimal(n)) == n,
        decimal(n).len() > 0,
        forall|i: int| 0 <= i < decimal(n).len() ==> '0' <= #[trigger] decimal(n)[i] <= '9',
        n > 0 ==> decimal(n)[0] != '0',
    decreases n,
{
    let d = decimal(n);
    if n < 10 {
        assert(d.drop_last() =~= Seq::empty());
        assert(denoted(d.drop_last()) == 0);
    } else {
        law_decimal_denotes(n / 10);
        assert(d.drop_last() =~= decimal(n / 10));
        assert(d[0] == decimal(n / 10)[0]);
        assert forall|i: int| 0 <= i < d.len() implies '0' <= #[trigger] d[i] <= '9' by {
            if i < d.len() - 1 {
                assert(d[i] == decimal(n / 10)[i]);
            }
        }
    }
}

/// Padding puts zeros in front and nothing else: the number is the same, and
/// there are at least `width` digits, no more than the number has itself or
/// `width`.
pub proof fn law_zero_padding(n: nat, width: nat)
    ensures
        zero_padded(n, width).len() >= width,
        zero_padded(n, width).len() == width || zero_padded(n, width) == decimal(n),
        ({
            let z = zero_padded(n, width).len() - decimal(n).len();
            &&& z >= 0
            &&& zero_padded(n, width).skip(z) == decimal(n)
            &&& forall|i: int| 0 <= i < z ==> #[trigger] zero_padded(n, width)[i] == '0'
        }),
{
    let p = zero_padded(n, width);
    let z = p.len() - decimal(n).len();
    assert(p.skip(z) =~= decimal(n));
}

/// The lines of a text are what its line feeds end, each without a carriage
/// return before its line feed: a first line that holds no line feed is itself,
/// and what follows it has the lines it has.
pub proof fn law_lines(first: Seq<char>, rest: Seq<char>)
    requires
        one_line(first),
    ensures
        lines_of(Seq::<char>::empty()).len() == 0,
        first.len() > 0 ==> lines_of(first) == seq![first],
        !ends_in(first, '\r') ==> lines_of(first + "\n"@ + rest) == seq![first] + lines_of(rest),
        lines_of(first + "\r\n"@ + rest) == seq![first] + lines_of(rest),
{
    reveal_strlit("\n");
    reveal_strlit("\r\n");
    lemma_char_at(first, '\n');
    let n = first.len() as int;
    let s = first + "\n"@ + rest;
    assert(s[n] == '\n');
    assert forall|i: int| 0 <= i < n implies s[i] != '\n' by {
        assert(s[i] == first[i]);
    }
    lemma_char_at_is(s, '\n', n);
    assert(s.take(n) =~= first);
    assert(s.skip(n + 1) =~= rest);
    let t = first + "\r\n"@ + rest;
    assert(t[n] == '\r');
    assert(t[n + 1] == '\n');
    assert forall|i: int| 0 <= i < n + 1 implies t[i] != '\n' by {
        if i < n {
            assert(t[i] == first[i]);
        }
    }
    lemma_char_at_is(t, '\n', n + 1);
    assert(t.take(n + 1).drop_last() =~= first);
    assert(t.take(n + 1).take(n) =~= first);
    assert(t.skip(n + 2) =~= rest);
    assert(lines_of(t) == seq![without_cr(t.take(n + 1))] + lines_of(rest));
}

/// White space is the characters that Unicode calls so, and no other: among
/// them the blank, the tab, the line breaks and the wide blanks.
pub proof fn law_white_space(c: char)
    ensures
        is_space(c) <==> c == ' ' || ('\t' <= c <= '\r') || c == '\u{85}' || c == '\u{a0}' || c
            == '\u{1680}' || ('\u{2000}' <= c <= '\u{200a}') || c == '\u{2028}' || c == '\u{2029}'
            || c == '\u{202f}' || c == '\u{205f}' || c == '\u{3000}',
{
}

/// A text begins with its prefixes alone, ends in its last character alone, and
/// holds what stands between two parts of it and nothing else.
pub proof fn law_parts_are_found(a: Seq<char>, part: Seq<char>, b: Seq<char>, s: Seq<char>, c: char)
    ensures
        begins(part + b, part),
        begins(s, part) ==> s == part + s.skip(part.len() as int),
        ends_in(a.push(c), c),
        ends_in(s, c) ==> s == s.drop_last().push(c),
        has_text(a + part + b, part),
        has_text(s, part) ==> exists|x: Seq<char>, y: Seq<char>| s == #[trigger] (x + part + y),
{
    assert((part + b).take(part.len() as int) =~= part);
    if begins(s, part) {
        assert(s =~= s.take(part.len() as int) + s.skip(part.len() as int));
    }
    assert((a + part + b).subrange(a.len() as int, (a.len() + part.len()) as int) =~= part);
    assert(occurs_at(a + part + b, part, a.len() as int));
    if has_text(s, part) {
        let i = choose|i: int| occurs_at(s, part, i);
        let x = s.take(i);
        let y = s.skip(i + part.len());
        assert(s =~= x + s.subrange(i, i + part.len()) + y);
        assert(s == x + part + y);
    }
}

/// What is taken off the front or the rear of a text is in the class, and what
/// is left neither begins nor ends in it.
pub proof fn law_ends_are_taken_off(
    off: Seq<char>,
    rest: Seq<char>,
    class: spec_fn(char) -> bool,
)
    requires
        forall|i: int| 0 <= i < off.len() ==> class(#[trigger] off[i]),
    ensures
        rest.len() == 0 || !class(rest[0]) ==> without_leading(off + rest, class) == rest,
        rest.len() == 0 || !class(rest.last()) ==> without_trailing(rest + off, class) == rest,
{
    if rest.len() == 0 || !class(rest[0]) {
        let s = off + rest;
        let n = off.len() as int;
        assert forall|i: int| 0 <= i < n implies class(#[trigger] s[i]) by {
            assert(s[i] == off[i]);
        }
        lemma_without_leading_is(s, class, n);
        assert(s.skip(n) =~= rest);
    }
    if rest.len() == 0 || !class(rest.last()) {
        let s = rest + off;
        let n = rest.len() as int;
        assert forall|i: int| n <= i < s.len() implies class(#[trigger] s[i]) by {
            assert(s[i] == off[i - n]);
        }
        lemma_without_trailing_is(s, class, n);
        assert(s.take(n) =~= rest);
    }
}

/// A list of strings stands for their texts, in order, and an optional string
/// for its text where it is there.
pub proof fn law_strings_stand_for_their_texts(v: Seq<String>, o: Option<String>, i: int)
    ensures
        texts(v).len() == v.len(),
        0 <= i < v.len() ==> texts(v)[i] == v[i]@,
        o is None <==> opt_text(o) is None,
        o matches Some(s) ==> opt_text(o) == Some(s@),
{
}

} // verus!
