//! Errors of the adapter, their HTTP status codes and messages.
use crate::text::joined;
use vstd::prelude::*;
use vstd::std_specs::convert::FromSpecImpl;

verus! {

/// What can go wrong in the core that talks to the provider.
#[derive(Debug, Clone)]
pub enum CoreError {
    /// No account is free.
    Overloaded,
    /// The proof of work could not be computed; says why.
    ProofOfWorkFailed(String),
    /// The provider refused.
    ProviderError(String),
    /// The response stream broke.
    Stream(String),
}

/// What can go wrong in the adapter.
#[derive(Debug, Clone)]
pub enum OpenAIAdapterError {
    /// The request is malformed.
    BadRequest(String),
    /// No account of the core is free.
    Overloaded,
    /// The provider failed (network, business error).
    ProviderError(String),
    /// The adapter failed (serialization, stream conversion).
    Internal(String),
    /// Tool calls could not be parsed; holds the text of their block.
    ToolCallRepairNeeded(String),
}

/// An adapter error, as the contracts speak of it.
#[verifier::ext_equal]
pub enum ErrorView {
    BadRequest(Seq<char>),
    Overloaded,
    ProviderError(Seq<char>),
    Internal(Seq<char>),
    ToolCallRepairNeeded(Seq<char>),
}

impl View for OpenAIAdapterError {
    type V = ErrorView;

    open spec fn view(&self) -> ErrorView {
        match self {
            OpenAIAdapterError::BadRequest(t) => ErrorView::BadRequest(t@),
            OpenAIAdapterError::Overloaded => ErrorView::Overloaded,
            OpenAIAdapterError::ProviderError(t) => ErrorView::ProviderError(t@),
            OpenAIAdapterError::Internal(t) => ErrorView::Internal(t@),
            OpenAIAdapterError::ToolCallRepairNeeded(t) => ErrorView::ToolCallRepairNeeded(t@),
        }
    }
}

/// The HTTP status code of an error.
pub open spec fn code_of(e: ErrorView) -> u16 {
    match e {
        ErrorView::BadRequest(_) => 400,
        ErrorView::Overloaded => 429,
        ErrorView::ProviderError(_) => 502,
        ErrorView::Internal(_) => 500,
        ErrorView::ToolCallRepairNeeded(_) => 500,
    }
}

/// The message of an error.
pub open spec fn message_of(e: ErrorView) -> Seq<char> {
    match e {
        ErrorView::BadRequest(t) => "bad request: "@ + t,
        ErrorView::Overloaded => "service overloaded"@,
        ErrorView::ProviderError(t) => "provider error: "@ + t,
        ErrorView::Internal(t) => "internal error: "@ + t,
        ErrorView::ToolCallRepairNeeded(t) => "tool_calls repair needed: "@ + t,
    }
}

impl OpenAIAdapterError {
    /// The HTTP status code that answers the error.
    pub fn status_code(&self) -> (r: u16)
        ensures
            r == code_of(self@),
    {
        match self {
            OpenAIAdapterError::BadRequest(_) => 400,
            OpenAIAdapterError::Overloaded => 429,
            OpenAIAdapterError::ProviderError(_) => 502,
            OpenAIAdapterError::Internal(_) => 500,
            OpenAIAdapterError::ToolCallRepairNeeded(_) => 500,
        }
    }

    /// The message of the error.
    pub fn message(&self) -> (r: String)
        ensures
            r@ == message_of(self@),
    {
        match self {
            OpenAIAdapterError::BadRequest(t) => joined("bad request: ", t.as_str()),
            OpenAIAdapterError::Overloaded => "service overloaded".to_owned(),
            OpenAIAdapterError::ProviderError(t) => joined("provider error: ", t.as_str()),
            OpenAIAdapterError::Internal(t) => joined("internal error: ", t.as_str()),
            OpenAIAdapterError::ToolCallRepairNeeded(t) => joined(
                "tool_calls repair needed: ",
                t.as_str(),
            ),
        }
    }
}

/// What a core error becomes.
pub open spec fn from_core(e: CoreError) -> ErrorView {
    match e {
        CoreError::Overloaded => ErrorView::Overloaded,
        CoreError::ProofOfWorkFailed(t) => ErrorView::Internal("proof of work failed: "@ + t@),
        CoreError::ProviderError(t) => ErrorView::ProviderError(t@),
        CoreError::Stream(t) => ErrorView::Internal(t@),
    }
}

impl FromSpecImpl<CoreError> for OpenAIAdapterError {
    open spec fn obeys_from_spec() -> bool {
        false
    }

    open spec fn from_spec(e: CoreError) -> Self {
        arbitrary()
    }
}

impl From<CoreError> for OpenAIAdapterError {
    fn from(e: CoreError) -> (r: Self)
        ensures
            r@ == from_core(e),
    {
        match e {
            CoreError::Overloaded => OpenAIAdapterError::Overloaded,
            CoreError::ProofOfWorkFailed(t) => OpenAIAdapterError::Internal(
                joined("proof of work failed: ", t.as_str()),
            ),
            CoreError::ProviderError(t) => OpenAIAdapterError::ProviderError(t),
            CoreError::Stream(t) => OpenAIAdapterError::Internal(t),
        }
    }
}

#[verifier::external_type_specification]
#[verifier::external_body]
pub struct ExJsonError(serde_json::Error);

/// `to_string` on a `serde_json::Error`, that is the text it displays as. Nothing is said of the
/// text: the error can hold one of an I/O operation, whose text is the system's or another's.
#[verifier::external_body]
fn describe(e: &serde_json::Error) -> (r: String)
{
    e.to_string()
}

/// What a serialization that failed with the message `text` becomes.
pub open spec fn serialization_error(text: Seq<char>) -> ErrorView {
    ErrorView::Internal("json serialization failed: "@ + text)
}

/// What a request body that could not be read, with the message `text`, becomes.
pub open spec fn body_error(text: Seq<char>) -> ErrorView {
    ErrorView::BadRequest("bad request: "@ + text)
}

impl OpenAIAdapterError {
    /// The error for a serialization that failed with the message `text`.
    pub fn serialization_failed(text: &str) -> (r: Self)
        ensures
            r@ == serialization_error(text@),
    {
        OpenAIAdapterError::Internal(joined("json serialization failed: ", text))
    }

    /// The error for a request body that could not be read, with the message `text`.
    pub fn bad_body(text: &str) -> (r: Self)
        ensures
            r@ == body_error(text@),
    {
        OpenAIAdapterError::BadRequest(joined("bad request: ", text))
    }

    /// The error for a request body that could not be read: it bears the text that the JSON error
    /// displays as.
    pub fn unreadable_body(e: serde_json::Error) -> (r: Self)
        ensures
            exists|text: Seq<char>| r@ == #[trigger] body_error(text),
    {
        OpenAIAdapterError::bad_body(describe(&e).as_str())
    }
}

impl FromSpecImpl<serde_json::Error> for OpenAIAdapterError {
    open spec fn obeys_from_spec() -> bool {
        false
    }

    open spec fn from_spec(e: serde_json::Error) -> Self {
        arbitrary()
    }
}

impl From<serde_json::Error> for OpenAIAdapterError {
    /// The error bears the text that the JSON error displays as.
    fn from(e: serde_json::Error) -> (r: Self)
        ensures
            exists|text: Seq<char>| r@ == #[trigger] serialization_error(text),
    {
        OpenAIAdapterError::serialization_failed(describe(&e).as_str())
    }
}

} // verus!
