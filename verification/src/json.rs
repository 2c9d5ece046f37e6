//! JSON values.

use vstd::prelude::*;
use serde_json::Value;
use crate::text::same_text;

verus! {

/// A JSON value.
#[derive(Debug, PartialEq)]
pub enum Json {
    Null,
    Bool(bool),
    /// A whole number that is not negative.
    UInt(u64),
    /// A negative whole number.
    NegInt(i64),
    /// Any other number, as its text.
    Real(String),
    Str(String),
    Array(Vec<Json>),
    /// The members in order.
    Object(Vec<(String, Json)>),
}

/// The mathematical value of a [`Json`].
pub enum JsonV {
    Null,
    Bool(bool),
    UInt(u64),
    NegInt(i64),
    Real(Seq<char>),
    Str(Seq<char>),
    Array(Seq<JsonV>),
    Object(Seq<(Seq<char>, JsonV)>),
}

/// The value of `j`.
pub open spec fn json_value(j: Json) -> JsonV
    decreases j,
{
    match j {
        Json::Null => JsonV::Null,
        Json::Bool(b) => JsonV::Bool(b),
        Json::UInt(n) => JsonV::UInt(n),
        Json::NegInt(n) => JsonV::NegInt(n),
        Json::Real(s) => JsonV::Real(s@),
        Json::Str(s) => JsonV::Str(s@),
        Json::Array(a) => JsonV::Array(
            Seq::new(
                a@.len(),
                |i: int|
                    if 0 <= i < a@.len() {
                        json_value(a@[i])
                    } else {
                        JsonV::Null
                    },
            ),
        ),
        Json::Object(m) => JsonV::Object(
            Seq::new(
                m@.len(),
                |i: int|
                    if 0 <= i < m@.len() {
                        (m@[i].0@, json_value(m@[i].1))
                    } else {
                        (Seq::empty(), JsonV::Null)
                    },
            ),
        ),
    }
}

impl View for Json {
    type V = JsonV;

    open spec fn view(&self) -> JsonV {
        json_value(*self)
    }
}

/// The values of a list of JSON values.
pub open spec fn json_views(a: Seq<Json>) -> Seq<JsonV> {
    Seq::new(a.len(), |i: int| a[i]@)
}

/// The members of a list of named JSON values.
pub open spec fn member_views(m: Seq<(String, Json)>) -> Seq<(Seq<char>, JsonV)> {
    Seq::new(m.len(), |i: int| (m[i].0@, m[i].1@))
}

/// The value of an optional reference to a JSON value.
pub open spec fn opt_json(o: Option<&Json>) -> Option<JsonV> {
    match o {
        Some(j) => Some(j@),
        None => None,
    }
}

/// The value of an optional JSON value.
pub open spec fn opt_json_owned(o: Option<Json>) -> Option<JsonV> {
    match o {
        Some(j) => Some(j@),
        None => None,
    }
}

/// An array's value is the list of its elements' values.
pub proof fn lemma_array_view(a: Vec<Json>)
    ensures
        Json::Array(a)@ == JsonV::Array(json_views(a@)),
{
    assert(Json::Array(a)@->Array_0 =~= json_views(a@));
}

/// An object's value is the list of its members' names and values.
pub proof fn lemma_object_view(m: Vec<(String, Json)>)
    ensures
        Json::Object(m)@ == JsonV::Object(member_views(m@)),
{
    assert(Json::Object(m)@->Object_0 =~= member_views(m@));
}

/// The first member called `key` in a list of members.
pub open spec fn member_in(m: Seq<(Seq<char>, JsonV)>, key: Seq<char>) -> Option<JsonV>
    decreases m.len(),
{
    if m.len() == 0 {
        None
    } else if m[0].0 == key {
        Some(m[0].1)
    } else {
        member_in(m.drop_first(), key)
    }
}

/// The member `key` of an object; nothing for any other value.
pub open spec fn member(v: JsonV, key: Seq<char>) -> Option<JsonV> {
    match v {
        JsonV::Object(m) => member_in(m, key),
        _ => None,
    }
}

/// The text of a JSON string; nothing for any other value.
pub open spec fn string_of_json(v: JsonV) -> Option<Seq<char>> {
    match v {
        JsonV::Str(s) => Some(s),
        _ => None,
    }
}

/// The text of the member `key`, where it is a string.
pub open spec fn text_member(v: JsonV, key: Seq<char>) -> Option<Seq<char>> {
    match member(v, key) {
        Some(x) => string_of_json(x),
        None => None,
    }
}

/// The elements of the member `key`, where it is an array.
pub open spec fn array_member(v: JsonV, key: Seq<char>) -> Option<Seq<JsonV>> {
    match member(v, key) {
        Some(JsonV::Array(a)) => Some(a),
        _ => None,
    }
}

impl Json {
    /// The value of member `key`, where this is an object that has one.
    pub fn get(&self, key: &str) -> (r: Option<&Json>)
        ensures
            opt_json(r) == member(self@, key@),
    {
        match self {
            Json::Object(m) => {
                proof {
                    lemma_object_view(*m);
                }
                let ghost all = member_views(m@);
                assert(all.skip(0) == all);
                let mut i: usize = 0;
                while i < m.len()
                    invariant
                        i <= m@.len(),
                        all == member_views(m@),
                        self@ == JsonV::Object(all),
                        member_in(all, key@) == member_in(all.skip(i as int), key@),
                    decreases m@.len() - i,
                {
                    let ghost rest = all.skip(i as int);
                    assert(rest[0] == all[i as int]);
                    assert(rest.drop_first() == all.skip(i + 1));
                    if same_text(m[i].0.as_str(), key) {
                        return Some(&m[i].1);
                    }
                    i += 1;
                }
                None
            },
            _ => None,
        }
    }

    /// The text of this value, where it is a string.
    pub fn as_str(&self) -> (r: Option<&str>)
        ensures
            match r {
                Some(s) => string_of_json(self@) == Some(s@),
                None => string_of_json(self@) is None,
            },
    {
        match self {
            Json::Str(s) => Some(s.as_str()),
            _ => None,
        }
    }

    /// The elements of this value, where it is an array.
    pub fn as_array(&self) -> (r: Option<&Vec<Json>>)
        ensures
            match r {
                Some(a) => self@ == JsonV::Array(json_views(a@)),
                None => self@ !is Array,
            },
    {
        match self {
            Json::Array(a) => {
                proof {
                    lemma_array_view(*a);
                }
                Some(a)
            },
            _ => None,
        }
    }

    /// The text of the member `key`, where it is a string.
    pub fn get_str(&self, key: &str) -> (r: Option<&str>)
        ensures
            match r {
                Some(s) => text_member(self@, key@) == Some(s@),
                None => text_member(self@, key@) is None,
            },
    {
        match self.get(key) {
            Some(j) => j.as_str(),
            None => None,
        }
    }

    /// The elements of the member `key`, where it is an array.
    pub fn get_array(&self, key: &str) -> (r: Option<&Vec<Json>>)
        ensures
            match r {
                Some(a) => array_member(self@, key@) == Some(json_views(a@)),
                None => array_member(self@, key@) is None,
            },
    {
        match self.get(key) {
            Some(j) => j.as_array(),
            None => None,
        }
    }

    /// A copy with the same value.
    pub fn copy(&self) -> (r: Json)
        ensures
            r@ == self@,
        decreases *self,
    {
        match self {
            Json::Null => Json::Null,
            Json::Bool(b) => Json::Bool(*b),
            Json::UInt(n) => Json::UInt(*n),
            Json::NegInt(n) => Json::NegInt(*n),
            Json::Real(s) => Json::Real(s.clone()),
            Json::Str(s) => Json::Str(s.clone()),
            Json::Array(a) => {
                let mut out: Vec<Json> = Vec::new();
                let mut i: usize = 0;
                while i < a.len()
                    invariant
                        i <= a@.len(),
                        *self is Array,
                        self->Array_0 == *a,
                        json_views(out@) == json_views(a@).take(i as int),
                    decreases a@.len() - i,
                {
                    let ghost before = json_views(out@);
                    assert(decreases_to!(*self => self->Array_0));
                    assert(decreases_to!(*a => a@[i as int]));
                    out.push(a[i].copy());
                    i += 1;
                    assert(json_views(out@) == before.push(a@[i - 1]@));
                    assert(json_views(a@).take(i as int) == json_views(a@).take(i - 1).push(
                        a@[i - 1]@,
                    ));
                }
                assert(json_views(a@).take(a@.len() as int) == json_views(a@));
                proof {
                    lemma_array_view(*a);
                    lemma_array_view(out);
                }
                Json::Array(out)
            },
            Json::Object(m) => {
                let mut out: Vec<(String, Json)> = Vec::new();
                let mut i: usize = 0;
                while i < m.len()
                    invariant
                        i <= m@.len(),
                        *self is Object,
                        self->Object_0 == *m,
                        member_views(out@) == member_views(m@).take(i as int),
                    decreases m@.len() - i,
                {
                    let ghost before = member_views(out@);
                    assert(decreases_to!(*self => self->Object_0));
                    assert(decreases_to!(*m => m@[i as int]));
                    assert(decreases_to!(m@[i as int] => m@[i as int].1));
                    out.push((m[i].0.clone(), m[i].1.copy()));
                    i += 1;
                    assert(member_views(out@) == before.push((m@[i - 1].0@, m@[i - 1].1@)));
                    assert(member_views(m@).take(i as int) == member_views(m@).take(i - 1).push(
                        (m@[i - 1].0@, m@[i - 1].1@),
                    ));
                }
                assert(member_views(m@).take(m@.len() as int) == member_views(m@));
                proof {
                    lemma_object_view(*m);
                    lemma_object_view(out);
                }
                Json::Object(out)
            },
        }
    }
}

/// A JSON string.
pub fn str_json(s: &str) -> (r: Json)
    ensures
        r@ == JsonV::Str(s@),
{
    Json::Str(s.to_owned())
}

/// An object builder: the members so far and one more.
pub fn with_member(mut m: Vec<(String, Json)>, key: &str, value: Json) -> (r: Vec<(String, Json)>)
    ensures
        member_views(r@) == member_views(m@).push((key@, value@)),
{
    let ghost before = m@;
    m.push((key.to_owned(), value));
    assert(member_views(m@) == member_views(before).push((key@, value@)));
    m
}

/// An object with the given members.
pub fn object(m: Vec<(String, Json)>) -> (r: Json)
    ensures
        r@ == JsonV::Object(member_views(m@)),
{
    proof {
        lemma_object_view(m);
    }
    Json::Object(m)
}

/// An array with the given elements.
pub fn array(a: Vec<Json>) -> (r: Json)
    ensures
        r@ == JsonV::Array(json_views(a@)),
{
    proof {
        lemma_array_view(a);
    }
    Json::Array(a)
}

/// No members yet.
pub fn no_members() -> (r: Vec<(String, Json)>)
    ensures
        member_views(r@) == Seq::<(Seq<char>, JsonV)>::empty(),
{
    let m: Vec<(String, Json)> = Vec::new();
    assert(member_views(m@) =~= Seq::empty());
    m
}

/// An object with one member.
pub fn object1(k1: &str, v1: Json) -> (r: Json)
    ensures
        r@ == JsonV::Object(seq![(k1@, v1@)]),
{
    object(with_member(no_members(), k1, v1))
}

/// An object with two members.
pub fn object2(k1: &str, v1: Json, k2: &str, v2: Json) -> (r: Json)
    ensures
        r@ == JsonV::Object(seq![(k1@, v1@), (k2@, v2@)]),
{
    let r = object(with_member(with_member(no_members(), k1, v1), k2, v2));
    assert(r@->Object_0 =~= seq![(k1@, v1@), (k2@, v2@)]);
    r
}

/// An object with three members.
pub fn object3(k1: &str, v1: Json, k2: &str, v2: Json, k3: &str, v3: Json) -> (r: Json)
    ensures
        r@ == JsonV::Object(seq![(k1@, v1@), (k2@, v2@), (k3@, v3@)]),
{
    let r = object(with_member(with_member(with_member(no_members(), k1, v1), k2, v2), k3, v3));
    assert(r@->Object_0 =~= seq![(k1@, v1@), (k2@, v2@), (k3@, v3@)]);
    r
}

/// An array with one element.
pub fn array1(v: Json) -> (r: Json)
    ensures
        r@ == JsonV::Array(seq![v@]),
{
    let mut a: Vec<Json> = Vec::new();
    a.push(v);
    assert(json_views(a@) =~= seq![v@]);
    array(a)
}

/// An object with no members.
pub fn empty_object() -> (r: Json)
    ensures
        r@ == JsonV::Object(Seq::empty()),
{
    object(no_members())
}

/// A member is found by its name, wherever it stands and whatever the other
/// members are: the first of that name counts, and there is none where no
/// member has the name.
pub proof fn law_members_are_found_by_name(
    before: Seq<(Seq<char>, JsonV)>,
    key: Seq<char>,
    value: JsonV,
    after: Seq<(Seq<char>, JsonV)>,
)
    requires
        forall|i: int| 0 <= i < before.len() ==> (#[trigger] before[i]).0 != key,
    ensures
        member(JsonV::Object(before + seq![(key, value)] + after), key) == Some(value),
        member(JsonV::Object(before), key) is None,
    decreases before.len(),
{
    let m = before + seq![(key, value)] + after;
    if before.len() > 0 {
        let b = before.drop_first();
        assert forall|i: int| 0 <= i < b.len() implies (#[trigger] b[i]).0 != key by {
            assert(b[i] == before[i + 1]);
        }
        law_members_are_found_by_name(b, key, value, after);
        assert(m.drop_first() =~= b + seq![(key, value)] + after);
        assert(m[0] == before[0]);
    } else {
        assert(m[0] == (key, value));
    }
}

/// What has no members has no member of any name; the text and the elements of
/// a member are those of the string and the array it is.
pub proof fn law_members_have_their_kind(v: JsonV, key: Seq<char>)
    ensures
        v !is Object ==> member(v, key) is None,
        forall|s: Seq<char>| #[trigger]
            text_member(v, key) == Some(s) <==> member(v, key) == Some(JsonV::Str(s)),
        forall|a: Seq<JsonV>| #[trigger]
            array_member(v, key) == Some(a) <==> member(v, key) == Some(JsonV::Array(a)),
{
}

/// A value stands for itself: a text for its characters, a number and a truth
/// value for themselves, a list for its elements and an object for its members,
/// in order.
pub proof fn law_values_stand_for_themselves(
    text: String,
    n: u64,
    k: i64,
    b: bool,
    a: Vec<Json>,
    m: Vec<(String, Json)>,
    i: int,
)
    ensures
        Json::Null@ == JsonV::Null,
        Json::Bool(b)@ == JsonV::Bool(b),
        Json::UInt(n)@ == JsonV::UInt(n),
        Json::NegInt(k)@ == JsonV::NegInt(k),
        Json::Real(text)@ == JsonV::Real(text@),
        Json::Str(text)@ == JsonV::Str(text@),
        Json::Array(a)@ matches JsonV::Array(x) && x.len() == a@.len() && (0 <= i < a@.len()
            ==> x[i] == a@[i]@),
        Json::Object(m)@ matches JsonV::Object(x) && x.len() == m@.len() && (0 <= i < m@.len()
            ==> x[i] == (m@[i].0@, m@[i].1@)),
{
    lemma_array_view(a);
    lemma_object_view(m);
}

// ---------------------------------------------------------------------------
// Text form
// ---------------------------------------------------------------------------

/// `serde_json::Value`, carried through without looking inside.
#[verifier::external_type_specification]
#[verifier::external_body]
pub struct ExValue(Value);

/// The tree that a `serde_json::Value` holds.
pub uninterp spec fn value_tree(v: Value) -> JsonV;

/// What a `serde_json::Value` holds once a tree is put into it: of members of
/// one name the last, in the order of `serde_json`'s map.
pub uninterp spec fn stored_tree(v: JsonV) -> JsonV;

/// The text `serde_json` prints for the tree a value holds.
pub uninterp spec fn tree_text(v: JsonV) -> Seq<char>;

/// The text `serde_json` prints, laid out over lines, for the tree a value
/// holds, or the message of its error.
pub uninterp spec fn pretty_tree_text(v: JsonV) -> Result<Seq<char>, Seq<char>>;

/// The tree that `serde_json::from_str` reads from a text, or the message of
/// its error.
pub uninterp spec fn parsed_tree(s: Seq<char>) -> Result<JsonV, Seq<char>>;

/// Takes a `serde_json::Value` apart: each variant becomes the variant of the
/// same kind, and a number is told apart by `Number::as_u64` and `as_i64`.
#[verifier::external_body]
fn from_value(v: &Value) -> (r: Json)
    ensures
        r@ == value_tree(*v),
{
    match v {
        Value::Null => Json::Null,
        Value::Bool(b) => Json::Bool(*b),
        Value::Number(n) => match (n.as_u64(), n.as_i64()) {
            (Some(u), _) => Json::UInt(u),
            (None, Some(i)) => Json::NegInt(i),
            (None, None) => Json::Real(n.to_string()),
        },
        Value::String(s) => Json::Str(s.clone()),
        Value::Array(a) => Json::Array(a.iter().map(from_value).collect()),
        Value::Object(m) => Json::Object(m.iter().map(|(k, x)| (k.clone(), from_value(x))).collect()),
    }
}

/// Makes a `serde_json::Value`: each variant becomes the variant of the same
/// kind.
#[verifier::external_body]
fn to_value(j: &Json) -> (r: Value)
    ensures
        value_tree(r) == stored_tree(j@),
{
    match j {
        Json::Null => Value::Null,
        Json::Bool(b) => Value::Bool(*b),
        Json::UInt(u) => Value::from(*u),
        Json::NegInt(i) => Value::from(*i),
        Json::Real(s) => serde_json::from_str(s).unwrap_or(Value::Null),
        Json::Str(s) => Value::String(s.clone()),
        Json::Array(a) => Value::Array(a.iter().map(to_value).collect()),
        Json::Object(m) => Value::Object(m.iter().map(|(k, x)| (k.clone(), to_value(x))).collect()),
    }
}

/// `Display` of `serde_json::Value`: its compact JSON text.
#[verifier::external_body]
fn print_value(v: &Value) -> (r: String)
    ensures
        r@ == tree_text(value_tree(*v)),
{
    v.to_string()
}

/// `serde_json::to_string_pretty` of a `Value`, an error by its message.
#[verifier::external_body]
fn pretty_value(v: &Value) -> (r: Result<String, String>)
    ensures
        match r {
            Ok(s) => pretty_tree_text(value_tree(*v)) == Ok::<Seq<char>, Seq<char>>(s@),
            Err(e) => pretty_tree_text(value_tree(*v)) == Err::<Seq<char>, Seq<char>>(e@),
        },
{
    serde_json::to_string_pretty(v).map_err(|e| e.to_string())
}

/// `serde_json::from_str` into a `Value`, an error by its message.
#[verifier::external_body]
fn parse_value(s: &str) -> (r: Result<Value, String>)
    ensures
        match r {
            Ok(v) => parsed_tree(s@) == Ok::<JsonV, Seq<char>>(value_tree(v)),
            Err(e) => parsed_tree(s@) == Err::<JsonV, Seq<char>>(e@),
        },
{
    serde_json::from_str(s).map_err(|e| e.to_string())
}

/// The compact JSON text of a value.
pub open spec fn json_text(v: JsonV) -> Seq<char> {
    tree_text(stored_tree(v))
}

/// The JSON text of a value, laid out over lines.
pub open spec fn json_pretty_text(v: JsonV) -> Result<Seq<char>, Seq<char>> {
    pretty_tree_text(stored_tree(v))
}

/// The value that a JSON text denotes, or the message of the error in it.
pub open spec fn json_parsed(s: Seq<char>) -> Result<JsonV, Seq<char>> {
    parsed_tree(s)
}

impl Json {
    /// The compact JSON text of this value.
    pub fn to_text(&self) -> (r: String)
        ensures
            r@ == json_text(self@),
    {
        print_value(&to_value(self))
    }

    /// The JSON text of this value, laid out over lines.
    pub fn to_pretty_text(&self) -> (r: Result<String, String>)
        ensures
            match r {
                Ok(s) => json_pretty_text(self@) == Ok::<Seq<char>, Seq<char>>(s@),
                Err(e) => json_pretty_text(self@) == Err::<Seq<char>, Seq<char>>(e@),
            },
    {
        pretty_value(&to_value(self))
    }

    /// Reads a JSON text.
    pub fn parse(s: &str) -> (r: Result<Json, String>)
        ensures
            match r {
                Ok(j) => json_parsed(s@) == Ok::<JsonV, Seq<char>>(j@),
                Err(e) => json_parsed(s@) == Err::<JsonV, Seq<char>>(e@),
            },
    {
        match parse_value(s) {
            Ok(v) => Ok(from_value(&v)),
            Err(e) => Err(e),
        }
    }
}

} // verus!
