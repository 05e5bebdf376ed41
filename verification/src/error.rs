//! Errors of the library.

use crate::text;
use vstd::prelude::*;

verus! {

/// What is wrong with a manifest, or with getting one.
#[derive(Debug)]
pub enum ProtocolError {
    NotFound { id: String, hint: Option<String> },
    LoadError { path: String, reason: String, hint: Option<String> },
    ValidationError(String),
    YamlError(String),
    Internal(String),
}

/// What a protocol error says.
pub enum ProtocolErrorView {
    NotFound { id: Seq<char>, hint: Option<Seq<char>> },
    LoadError { path: Seq<char>, reason: Seq<char>, hint: Option<Seq<char>> },
    ValidationError(Seq<char>),
    YamlError(Seq<char>),
    Internal(Seq<char>),
}

impl View for ProtocolError {
    type V = ProtocolErrorView;

    open spec fn view(&self) -> ProtocolErrorView {
        match self {
            ProtocolError::NotFound { id, hint } => ProtocolErrorView::NotFound {
                id: id@,
                hint: text::opt_text(*hint),
            },
            ProtocolError::LoadError { path, reason, hint } => ProtocolErrorView::LoadError {
                path: path@,
                reason: reason@,
                hint: text::opt_text(*hint),
            },
            ProtocolError::ValidationError(m) => ProtocolErrorView::ValidationError(m@),
            ProtocolError::YamlError(m) => ProtocolErrorView::YamlError(m@),
            ProtocolError::Internal(m) => ProtocolErrorView::Internal(m@),
        }
    }
}

/// What went wrong on the way to a provider.
#[derive(Debug)]
pub enum TransportError {
    /// The request itself failed.
    Http(String),
    /// Anything else.
    Other(String),
}

/// What a transport error says.
pub enum TransportErrorView {
    Http(Seq<char>),
    Other(Seq<char>),
}

impl View for TransportError {
    type V = TransportErrorView;

    open spec fn view(&self) -> TransportErrorView {
        match self {
            TransportError::Http(m) => TransportErrorView::Http(m@),
            TransportError::Other(m) => TransportErrorView::Other(m@),
        }
    }
}

impl TransportError {
    /// The text of the error.
    pub fn message(&self) -> (r: String)
        ensures
            r@ == (match self@ {
                TransportErrorView::Http(m) => "HTTP error: "@ + m,
                TransportErrorView::Other(m) => "Transport error: "@ + m,
            }),
    {
        match self {
            TransportError::Http(m) => text::cat("HTTP error: ", m.as_str()),
            TransportError::Other(m) => text::cat("Transport error: ", m.as_str()),
        }
    }
}

/// An error of a client.
#[derive(Debug)]
pub enum Error {
    Protocol(ProtocolError),
    Transport(TransportError),
    /// The client cannot be set up, or is used in a way it was not set up for.
    Configuration(String),
    /// A request did not get through; `source` names the client.
    Network { message: String, source: Option<String> },
    /// The provider answered with an error, or not as it should.
    Api(String),
    /// A response is no JSON.
    Json(String),
}

/// What an error says.
pub enum ErrorView {
    Protocol(ProtocolErrorView),
    Transport(TransportErrorView),
    Configuration(Seq<char>),
    Network { message: Seq<char>, source: Option<Seq<char>> },
    Api(Seq<char>),
    Json(Seq<char>),
}

impl View for Error {
    type V = ErrorView;

    open spec fn view(&self) -> ErrorView {
        match self {
            Error::Protocol(e) => ErrorView::Protocol(e@),
            Error::Transport(e) => ErrorView::Transport(e@),
            Error::Configuration(m) => ErrorView::Configuration(m@),
            Error::Network { message, source } => ErrorView::Network {
                message: message@,
                source: text::opt_text(*source),
            },
            Error::Api(m) => ErrorView::Api(m@),
            Error::Json(m) => ErrorView::Json(m@),
        }
    }
}

/// The result says what `want` says: a value with the given view, or the error.
pub open spec fn agrees<T: View>(r: Result<T, Error>, want: Result<T::V, ErrorView>) -> bool {
    match (r, want) {
        (Ok(v), Ok(w)) => v@ == w,
        (Err(e), Err(f)) => e@ == f,
        _ => false,
    }
}

/// The text of a protocol error.
pub open spec fn protocol_text(e: ProtocolErrorView) -> Seq<char> {
    match e {
        ProtocolErrorView::NotFound { id, hint: _ } => "Protocol not found: "@ + id,
        ProtocolErrorView::LoadError { path, reason, hint: _ } => "Failed to load protocol from "@
            + path + ": "@ + reason,
        ProtocolErrorView::ValidationError(m) => "Protocol validation error: "@ + m,
        ProtocolErrorView::YamlError(m) => "YAML parsing error: "@ + m,
        ProtocolErrorView::Internal(m) => "Internal protocol error: "@ + m,
    }
}

/// The text of an error.
pub open spec fn error_text(e: ErrorView) -> Seq<char> {
    match e {
        ErrorView::Protocol(p) => protocol_text(p),
        ErrorView::Transport(TransportErrorView::Http(m)) => "HTTP error: "@ + m,
        ErrorView::Transport(TransportErrorView::Other(m)) => "Transport error: "@ + m,
        ErrorView::Configuration(m) => "Configuration error: "@ + m,
        ErrorView::Network { message, source: _ } => "Network error: "@ + message,
        ErrorView::Api(m) => "API error: "@ + m,
        ErrorView::Json(m) => "JSON error: "@ + m,
    }
}

impl ProtocolError {
    /// The text of the error.
    pub fn message(&self) -> (r: String)
        ensures
            r@ == protocol_text(self@),
    {
        match self {
            ProtocolError::NotFound { id, hint: _ } => text::cat(
                "Protocol not found: ",
                id.as_str(),
            ),
            ProtocolError::LoadError { path, reason, hint: _ } => {
                let mut s = text::cat("Failed to load protocol from ", path.as_str());
                s.append(": ");
                s.append(reason.as_str());
                s
            },
            ProtocolError::ValidationError(m) => text::cat(
                "Protocol validation error: ",
                m.as_str(),
            ),
            ProtocolError::YamlError(m) => text::cat("YAML parsing error: ", m.as_str()),
            ProtocolError::Internal(m) => text::cat("Internal protocol error: ", m.as_str()),
        }
    }
}

impl Error {
    /// The text of the error.
    pub fn message(&self) -> (r: String)
        ensures
            r@ == error_text(self@),
    {
        match self {
            Error::Protocol(e) => e.message(),
            Error::Transport(e) => e.message(),
            Error::Configuration(m) => text::cat("Configuration error: ", m.as_str()),
            Error::Network { message, source: _ } => text::cat("Network error: ", message.as_str()),
            Error::Api(m) => text::cat("API error: ", m.as_str()),
            Error::Json(m) => text::cat("JSON error: ", m.as_str()),
        }
    }
}

impl Error {
    /// A configuration error.
    pub fn configuration(message: &str) -> (r: Self)
        ensures
            r@ == ErrorView::Configuration(message@),
    {
        Error::Configuration(message.to_string())
    }

    /// A validation error of a manifest or request.
    pub fn validation(message: &str) -> (r: Self)
        ensures
            r@ == ErrorView::Protocol(ProtocolErrorView::ValidationError(message@)),
    {
        Error::Protocol(ProtocolError::ValidationError(message.to_string()))
    }
}

/// The text of an error ends with what it is about.
pub proof fn error_texts_tell_what_happened(m: Seq<char>, id: Seq<char>, source: Option<Seq<char>>)
    ensures
        error_text(ErrorView::Configuration(m)) == "Configuration error: "@ + m,
        error_text(ErrorView::Network { message: m, source }) == "Network error: "@ + m,
        error_text(ErrorView::Api(m)) == "API error: "@ + m,
        error_text(ErrorView::Json(m)) == "JSON error: "@ + m,
        error_text(ErrorView::Transport(TransportErrorView::Http(m))) == "HTTP error: "@ + m,
        error_text(ErrorView::Transport(TransportErrorView::Other(m))) == "Transport error: "@ + m,
        error_text(ErrorView::Protocol(ProtocolErrorView::NotFound { id, hint: source }))
            == "Protocol not found: "@ + id,
        error_text(
            ErrorView::Protocol(
                ProtocolErrorView::LoadError { path: id, reason: m, hint: source },
            ),
        ) == "Failed to load protocol from "@ + id + ": "@ + m,
        error_text(ErrorView::Protocol(ProtocolErrorView::ValidationError(m)))
            == "Protocol validation error: "@ + m,
        error_text(ErrorView::Protocol(ProtocolErrorView::YamlError(m))) == "YAML parsing error: "@
            + m,
        error_text(ErrorView::Protocol(ProtocolErrorView::Internal(m)))
            == "Internal protocol error: "@ + m,
{
}

} // verus!
