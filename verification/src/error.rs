//! Errors.

use vstd::prelude::*;

verus! {

/// What can go wrong in an agent.
#[derive(Debug, PartialEq)]
pub enum AgentError {
    /// A failed model call.
    Llm(String),
    /// A text that is not the JSON it should be.
    Json(String),
    /// Something needed is not to be had.
    ResourceUnavailable(String),
    /// The run was cancelled.
    Cancelled,
    /// An error of the library itself.
    Internal(String),
    /// An error of another kind, by the sentence it is reported with.
    Other(String),
}

/// The mathematical value of an [`AgentError`].
pub enum ErrorView {
    Llm(Seq<char>),
    Json(Seq<char>),
    ResourceUnavailable(Seq<char>),
    Cancelled,
    Internal(Seq<char>),
    Other(Seq<char>),
}

impl View for AgentError {
    type V = ErrorView;

    open spec fn view(&self) -> ErrorView {
        match *self {
            AgentError::Llm(s) => ErrorView::Llm(s@),
            AgentError::Json(s) => ErrorView::Json(s@),
            AgentError::ResourceUnavailable(s) => ErrorView::ResourceUnavailable(s@),
            AgentError::Cancelled => ErrorView::Cancelled,
            AgentError::Internal(s) => ErrorView::Internal(s@),
            AgentError::Other(s) => ErrorView::Other(s@),
        }
    }
}

/// The sentence an error is reported with.
pub open spec fn error_text(e: ErrorView) -> Seq<char> {
    match e {
        ErrorView::Llm(s) => "LLM call failed: "@ + s,
        ErrorView::Json(s) => "JSON parse error: "@ + s,
        ErrorView::ResourceUnavailable(s) => "Resource unavailable: "@ + s,
        ErrorView::Cancelled => "Operation cancelled"@,
        ErrorView::Internal(s) => "Internal error: "@ + s,
        ErrorView::Other(s) => s,
    }
}

impl AgentError {
    /// The sentence this error is reported with.
    pub fn to_text(&self) -> (r: String)
        ensures
            r@ == error_text(self@),
    {
        match self {
            AgentError::Llm(s) => {
                let mut m = "LLM call failed: ".to_owned();
                m.append(s.as_str());
                m
            },
            AgentError::Json(s) => {
                let mut m = "JSON parse error: ".to_owned();
                m.append(s.as_str());
                m
            },
            AgentError::ResourceUnavailable(s) => {
                let mut m = "Resource unavailable: ".to_owned();
                m.append(s.as_str());
                m
            },
            AgentError::Cancelled => "Operation cancelled".to_owned(),
            AgentError::Internal(s) => {
                let mut m = "Internal error: ".to_owned();
                m.append(s.as_str());
                m
            },
            AgentError::Other(s) => s.clone(),
        }
    }
}

/// A copy of an error.
pub fn copy_error(e: &AgentError) -> (r: AgentError)
    ensures
        r == *e,
{
    match e {
        AgentError::Llm(s) => AgentError::Llm(s.clone()),
        AgentError::Json(s) => AgentError::Json(s.clone()),
        AgentError::ResourceUnavailable(s) => AgentError::ResourceUnavailable(s.clone()),
        AgentError::Cancelled => AgentError::Cancelled,
        AgentError::Internal(s) => AgentError::Internal(s.clone()),
        AgentError::Other(s) => AgentError::Other(s.clone()),
    }
}

/// An internal error made of a fixed part and a variable one.
pub fn internal2(fixed: &str, rest: &str) -> (r: AgentError)
    ensures
        r@ == ErrorView::Internal(fixed@ + rest@),
{
    let mut m = fixed.to_owned();
    m.append(rest);
    AgentError::Internal(m)
}

/// The sentence of an error names its kind and ends in its message, whatever
/// that is; an error of another kind is reported as it is.
pub proof fn law_errors_tell_their_message(message: Seq<char>)
    ensures
        error_text(ErrorView::Llm(message)) == "LLM call failed: "@ + message,
        error_text(ErrorView::Json(message)) == "JSON parse error: "@ + message,
        error_text(ErrorView::ResourceUnavailable(message)) == "Resource unavailable: "@
            + message,
        error_text(ErrorView::Internal(message)) == "Internal error: "@ + message,
        error_text(ErrorView::Other(message)) == message,
        error_text(ErrorView::Cancelled) == "Operation cancelled"@,
{
}

/// An error stands for its kind and its message.
pub proof fn law_errors_stand_for_themselves(e: AgentError, text: String)
    ensures
        (AgentError::Llm(text))@ == ErrorView::Llm(text@),
        (AgentError::Json(text))@ == ErrorView::Json(text@),
        (AgentError::ResourceUnavailable(text))@ == ErrorView::ResourceUnavailable(text@),
        (AgentError::Internal(text))@ == ErrorView::Internal(text@),
        (AgentError::Other(text))@ == ErrorView::Other(text@),
        e@ is Cancelled <==> e is Cancelled,
{
}

} // verus!
