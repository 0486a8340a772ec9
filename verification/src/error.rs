//! Crate-wide error type.

use vstd::prelude::*;
use vstd::string::*;

verus! {

/// All recoverable failure modes exposed by this crate.
#[derive(Debug)]
pub enum RagdError {
    /// An I/O operation failed (reading a file, binding a socket, etc.).
    Io(String),
    /// The daemon's configuration was invalid or incomplete.
    Config(String),
    /// A call to the storage layer failed.
    Storage(String),
    /// A call to the configured embedding or chat endpoint failed.
    ModelEndpoint(String),
    /// A named resource was not found.
    ResourceNotFound(String),
    /// A resource with the requested name already exists.
    ResourceAlreadyExists(String),
}

/// What a [`RagdError`] holds.
pub enum ErrorView {
    Io(Seq<char>),
    Config(Seq<char>),
    Storage(Seq<char>),
    ModelEndpoint(Seq<char>),
    ResourceNotFound(Seq<char>),
    ResourceAlreadyExists(Seq<char>),
}

impl View for RagdError {
    type V = ErrorView;

    open spec fn view(&self) -> ErrorView {
        match self {
            RagdError::Io(text) => ErrorView::Io(text@),
            RagdError::Config(text) => ErrorView::Config(text@),
            RagdError::Storage(text) => ErrorView::Storage(text@),
            RagdError::ModelEndpoint(text) => ErrorView::ModelEndpoint(text@),
            RagdError::ResourceNotFound(text) => ErrorView::ResourceNotFound(text@),
            RagdError::ResourceAlreadyExists(text) => ErrorView::ResourceAlreadyExists(text@),
        }
    }
}

impl ErrorView {
    /// The text that describes the error to a reader.
    pub open spec fn message(self) -> Seq<char> {
        match self {
            ErrorView::Io(text) => "io error: "@ + text,
            ErrorView::Config(text) => "invalid configuration: "@ + text,
            ErrorView::Storage(text) => "storage error: "@ + text,
            ErrorView::ModelEndpoint(text) => "model endpoint error: "@ + text,
            ErrorView::ResourceNotFound(text) => "resource not found: "@ + text,
            ErrorView::ResourceAlreadyExists(text) => "resource already exists: "@ + text,
        }
    }

    /// The HTTP status that reports the error.
    pub open spec fn http_status(self) -> u16 {
        match self {
            ErrorView::ResourceNotFound(_) => 404,
            ErrorView::ResourceAlreadyExists(_) => 409,
            ErrorView::Config(_) => 400,
            ErrorView::Io(_) | ErrorView::Storage(_) | ErrorView::ModelEndpoint(_) => 500,
        }
    }
}

impl RagdError {
    /// The text that describes the error to a reader.
    pub fn message(&self) -> (r: String)
        ensures
            r@ == self@.message(),
    {
        match self {
            RagdError::Io(text) => "io error: ".to_owned().concat(text.as_str()),
            RagdError::Config(text) => "invalid configuration: ".to_owned().concat(text.as_str()),
            RagdError::Storage(text) => "storage error: ".to_owned().concat(text.as_str()),
            RagdError::ModelEndpoint(text) => "model endpoint error: ".to_owned().concat(
                text.as_str(),
            ),
            RagdError::ResourceNotFound(text) => "resource not found: ".to_owned().concat(
                text.as_str(),
            ),
            RagdError::ResourceAlreadyExists(text) => "resource already exists: ".to_owned().concat(
                text.as_str(),
            ),
        }
    }

    /// The HTTP status that reports the error.
    pub fn http_status(&self) -> (r: u16)
        ensures
            r == self@.http_status(),
    {
        match self {
            RagdError::ResourceNotFound(_) => 404,
            RagdError::ResourceAlreadyExists(_) => 409,
            RagdError::Config(_) => 400,
            RagdError::Io(_) | RagdError::Storage(_) | RagdError::ModelEndpoint(_) => 500,
        }
    }
}

} // verus!
