//! A focused model call.

use vstd::prelude::*;
use core::time::Duration;
use crate::text::{join, joined, texts};

verus! {

// ---------------------------------------------------------------------------
// Input
// ---------------------------------------------------------------------------

/// Input for a Focus call: a simple string or a structured context.
pub trait FocusInput {
    /// The text this input stands for.
    spec fn prompt(&self) -> Seq<char>;

    /// Formats the input into the user prompt text sent to the model.
    fn to_prompt(&self) -> (r: String)
        ensures
            r@ == self.prompt(),
    ;
}

impl FocusInput for str {
    open spec fn prompt(&self) -> Seq<char> {
        self@
    }

    fn to_prompt(&self) -> (r: String) {
        self.to_owned()
    }
}

impl FocusInput for String {
    open spec fn prompt(&self) -> Seq<char> {
        self@
    }

    fn to_prompt(&self) -> (r: String) {
        self.clone()
    }
}

impl FocusInput for &str {
    open spec fn prompt(&self) -> Seq<char> {
        (*self)@
    }

    fn to_prompt(&self) -> (r: String) {
        let s: &str = *self;
        s.to_owned()
    }
}

/// Structured context for multi-field input.
///
/// Fields are formatted as `【key】\nvalue`, where the key acts as a label.
pub struct Context {
    entries: Vec<(String, String)>,
}

/// A field as it is sent.
pub open spec fn field_text(key: Seq<char>, value: Seq<char>) -> Seq<char> {
    "【"@ + key + "】\n"@ + value
}

/// All fields as they are sent.
pub open spec fn field_texts(fields: Seq<(Seq<char>, Seq<char>)>) -> Seq<Seq<char>> {
    Seq::new(fields.len(), |i: int| field_text(fields[i].0, fields[i].1))
}

impl Context {
    /// The fields, in the order they were added.
    pub closed spec fn fields(&self) -> Seq<(Seq<char>, Seq<char>)> {
        Seq::new(self.entries@.len(), |i: int| (self.entries@[i].0@, self.entries@[i].1@))
    }

    pub fn new() -> (r: Self)
        ensures
            r.fields() == Seq::<(Seq<char>, Seq<char>)>::empty(),
    {
        let r = Context { entries: Vec::new() };
        assert(r.fields() =~= Seq::empty());
        r
    }

    /// Adds a field. The key is used as a label.
    pub fn add(self, key: &str, value: &str) -> (r: Self)
        ensures
            r.fields() == self.fields().push((key@, value@)),
    {
        let mut entries = self.entries;
        entries.push((key.to_owned(), value.to_owned()));
        let r = Context { entries };
        assert(r.fields() =~= self.fields().push((key@, value@)));
        r
    }
}

impl Default for Context {
    fn default() -> (r: Self)
        ensures
            r.fields() == Seq::<(Seq<char>, Seq<char>)>::empty(),
    {
        Context::new()
    }
}

impl FocusInput for Context {
    open spec fn prompt(&self) -> Seq<char> {
        joined(field_texts(self.fields()), "\n\n"@)
    }

    fn to_prompt(&self) -> (r: String) {
        let ghost want = field_texts(self.fields());
        let mut parts: Vec<String> = Vec::new();
        let mut i: usize = 0;
        while i < self.entries.len()
            invariant
                i <= self.entries@.len(),
                want == field_texts(self.fields()),
                texts(parts@) == want.take(i as int),
            decreases self.entries@.len() - i,
        {
            let ghost before = texts(parts@);
            let mut p = "【".to_owned();
            p.append(self.entries[i].0.as_str());
            p.append("】\n");
            p.append(self.entries[i].1.as_str());
            parts.push(p);
            i += 1;
            assert(texts(parts@) == before.push(p@));
            assert(want.take(i as int) == want.take(i - 1).push(want[i - 1]));
        }
        assert(want.take(want.len() as int) == want);
        join(&parts, "\n\n")
    }
}

// ---------------------------------------------------------------------------
// Output
// ---------------------------------------------------------------------------

/// Output of a Focus call: the structured result and the raw response.
#[derive(Debug)]
pub struct FocusOutput<T> {
    /// Deserialized structured result.
    pub result: T,
    /// Raw response text (JSON string), for logging and debugging.
    pub raw_response: String,
}

/// Error type for Focus calls.
#[derive(Debug)]
pub enum FocusError {
    /// The model call timed out.
    Timeout(Duration),
    /// The model call failed (network error, API error, etc.).
    Llm(String),
    /// The response could not be parsed into the expected JSON type.
    Parse { error: String, raw: String },
}

/// The text that `Debug` of `Duration` prints.
pub uninterp spec fn duration_form(d: Duration) -> Seq<char>;

/// `Debug` of `core::time::Duration`, e.g. `5s`.  The form is std's; it is
/// named here, not spelled out.
#[verifier::external_body]
fn duration_text(d: &Duration) -> (r: String)
    ensures
        r@ == duration_form(*d),
{
    format!("{:?}", d)
}

impl FocusError {
    /// The sentence this error is reported with.
    pub open spec fn message(&self) -> Seq<char> {
        match *self {
            FocusError::Timeout(d) => "Focus timeout after "@ + duration_form(d),
            FocusError::Llm(e) => "Focus LLM error: "@ + e@,
            FocusError::Parse { error, raw } => "Focus parse error: "@ + error@,
        }
    }

    /// The sentence this error is reported with.
    pub fn to_text(&self) -> (r: String)
        ensures
            r@ == self.message(),
    {
        match self {
            FocusError::Timeout(d) => {
                let mut m = "Focus timeout after ".to_owned();
                m.append(duration_text(d).as_str());
                m
            },
            FocusError::Llm(e) => {
                let mut m = "Focus LLM error: ".to_owned();
                m.append(e.as_str());
                m
            },
            FocusError::Parse { error, raw: _ } => {
                let mut m = "Focus parse error: ".to_owned();
                m.append(error.as_str());
                m
            },
        }
    }
}

// ---------------------------------------------------------------------------
// Focus
// ---------------------------------------------------------------------------

/// A focused model call: bound to a system prompt and dedicated to one
/// specific judgment question.
pub struct Focus {
    pub system_prompt: String,
}

/// What the model is asked.
pub struct FocusRequest {
    pub system_prompt: String,
    pub user_prompt: String,
    /// Whether the answer has to be a JSON object.
    pub json_object: bool,
}

/// What came of the model call.
pub enum FocusReply<T> {
    /// The model answered `raw`; `parsed` is what the JSON reader made of it,
    /// or its error.
    Answered { raw: String, parsed: Result<T, String> },
    /// The model call failed with this error.
    Failed(String),
    /// No answer in time.
    TimedOut,
}

impl Focus {
    pub fn new(system_prompt: String) -> (r: Self)
        ensures
            r.system_prompt == system_prompt,
    {
        Focus { system_prompt }
    }

    /// What to ask the model about `input`: the system prompt bound at
    /// creation and the input of this call, answered by a JSON object.
    pub fn ask<I: FocusInput>(&self, input: &I) -> (r: FocusRequest)
        ensures
            r.system_prompt@ == self.system_prompt@,
            r.user_prompt@ == input.prompt(),
            r.json_object,
    {
        FocusRequest {
            system_prompt: self.system_prompt.clone(),
            user_prompt: input.to_prompt(),
            json_object: true,
        }
    }

    /// Turns what came of the call into its output: the parsed answer beside
    /// the raw one, or the error.
    pub fn settle<T>(&self, reply: FocusReply<T>, timeout: Duration) -> (r: Result<
        FocusOutput<T>,
        FocusError,
    >)
        ensures
            match reply {
                FocusReply::Answered { raw, parsed: Ok(t) } => {
                    &&& r matches Ok(o)
                    &&& o.result == t
                    &&& o.raw_response == raw
                },
                FocusReply::Answered { raw, parsed: Err(e) } => {
                    &&& r matches Err(FocusError::Parse { error, raw: kept })
                    &&& error == e
                    &&& kept == raw
                },
                FocusReply::Failed(e) => r matches Err(FocusError::Llm(x)) && x == e,
                FocusReply::TimedOut => r matches Err(FocusError::Timeout(d)) && d == timeout,
            },
    {
        match reply {
            FocusReply::Answered { raw, parsed } => match parsed {
                Ok(result) => Ok(FocusOutput { result, raw_response: raw }),
                Err(error) => Err(FocusError::Parse { error, raw }),
            },
            FocusReply::Failed(e) => Err(FocusError::Llm(e)),
            FocusReply::TimedOut => Err(FocusError::Timeout(timeout)),
        }
    }
}

/// Fields are sent in the order they were added, and adding one leaves the
/// text of the others as it is.
pub proof fn law_context_grows_at_the_end(
    fields: Seq<(Seq<char>, Seq<char>)>,
    key: Seq<char>,
    value: Seq<char>,
)
    ensures
        joined(field_texts(fields.push((key, value))), "\n\n"@) == if fields.len() == 0 {
            field_text(key, value)
        } else {
            joined(field_texts(fields), "\n\n"@) + "\n\n"@ + field_text(key, value)
        },
{
    crate::text::lemma_joined_push(field_texts(fields), field_text(key, value), "\n\n"@);
    assert(field_texts(fields.push((key, value))) =~= field_texts(fields).push(
        field_text(key, value),
    ));
}

/// A field is sent as its label in brackets and its value on the next line, and
/// an error is reported with what went wrong.
pub proof fn law_fields_are_labelled(key: Seq<char>, value: Seq<char>, error: String, raw: String)
    ensures
        joined(field_texts(seq![(key, value)]), "\n\n"@) == "【"@ + key + "】\n"@ + value,
        (FocusError::Llm(error)).message() == "Focus LLM error: "@ + error@,
        (FocusError::Parse { error, raw }).message() == "Focus parse error: "@ + error@,
{
}

} // verus!
