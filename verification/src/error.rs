//! Errors returned by the Dactyl driver.

use vstd::prelude::*;

use crate::query::Construct;

verus! {

/// Coarse operational categories stable enough for callers to branch on.
#[derive(Debug, Clone, Copy, PartialEq, Eq, Structural)]
pub enum AdapterErrorKind {
    Busy,
    Locked,
    Timeout,
    Constraint,
    Conflict,
    VersionConflict,
    TransactionAborted,
    IdempotencyConflict,
    IdempotencyInProgress,
    Query,
    InvalidOperation,
    ReadOnly,
    Capability,
    Value,
    Storage,
    Corrupt,
    Transport,
    Protocol,
    Authentication,
    Authorization,
    RateLimited,
    Quota,
    NotFound,
    Unavailable,
    Cancellation,
    Unknown,
}

impl AdapterErrorKind {
    /// The name of a kind, as messages show it.
    pub open spec fn spec_name(self) -> Seq<char> {
        match self {
            AdapterErrorKind::Busy => "Busy"@,
            AdapterErrorKind::Locked => "Locked"@,
            AdapterErrorKind::Timeout => "Timeout"@,
            AdapterErrorKind::Constraint => "Constraint"@,
            AdapterErrorKind::Conflict => "Conflict"@,
            AdapterErrorKind::VersionConflict => "VersionConflict"@,
            AdapterErrorKind::TransactionAborted => "TransactionAborted"@,
            AdapterErrorKind::IdempotencyConflict => "IdempotencyConflict"@,
            AdapterErrorKind::IdempotencyInProgress => "IdempotencyInProgress"@,
            AdapterErrorKind::Query => "Query"@,
            AdapterErrorKind::InvalidOperation => "InvalidOperation"@,
            AdapterErrorKind::ReadOnly => "ReadOnly"@,
            AdapterErrorKind::Capability => "Capability"@,
            AdapterErrorKind::Value => "Value"@,
            AdapterErrorKind::Storage => "Storage"@,
            AdapterErrorKind::Corrupt => "Corrupt"@,
            AdapterErrorKind::Transport => "Transport"@,
            AdapterErrorKind::Protocol => "Protocol"@,
            AdapterErrorKind::Authentication => "Authentication"@,
            AdapterErrorKind::Authorization => "Authorization"@,
            AdapterErrorKind::RateLimited => "RateLimited"@,
            AdapterErrorKind::Quota => "Quota"@,
            AdapterErrorKind::NotFound => "NotFound"@,
            AdapterErrorKind::Unavailable => "Unavailable"@,
            AdapterErrorKind::Cancellation => "Cancellation"@,
            AdapterErrorKind::Unknown => "Unknown"@,
        }
    }

    /// The name of this kind, as messages show it.
    pub fn name(self) -> (r: &'static str)
        ensures
            r@ == self.spec_name(),
    {
        match self {
            AdapterErrorKind::Busy => "Busy",
            AdapterErrorKind::Locked => "Locked",
            AdapterErrorKind::Timeout => "Timeout",
            AdapterErrorKind::Constraint => "Constraint",
            AdapterErrorKind::Conflict => "Conflict",
            AdapterErrorKind::VersionConflict => "VersionConflict",
            AdapterErrorKind::TransactionAborted => "TransactionAborted",
            AdapterErrorKind::IdempotencyConflict => "IdempotencyConflict",
            AdapterErrorKind::IdempotencyInProgress => "IdempotencyInProgress",
            AdapterErrorKind::Query => "Query",
            AdapterErrorKind::InvalidOperation => "InvalidOperation",
            AdapterErrorKind::ReadOnly => "ReadOnly",
            AdapterErrorKind::Capability => "Capability",
            AdapterErrorKind::Value => "Value",
            AdapterErrorKind::Storage => "Storage",
            AdapterErrorKind::Corrupt => "Corrupt",
            AdapterErrorKind::Transport => "Transport",
            AdapterErrorKind::Protocol => "Protocol",
            AdapterErrorKind::Authentication => "Authentication",
            AdapterErrorKind::Authorization => "Authorization",
            AdapterErrorKind::RateLimited => "RateLimited",
            AdapterErrorKind::Quota => "Quota",
            AdapterErrorKind::NotFound => "NotFound",
            AdapterErrorKind::Unavailable => "Unavailable",
            AdapterErrorKind::Cancellation => "Cancellation",
            AdapterErrorKind::Unknown => "Unknown",
        }
    }
}

/// The backend-neutral public error surface.
#[derive(Debug, PartialEq, Eq)]
pub enum DactylError {
    Config(String),
    Adapter { kind: AdapterErrorKind, code: Option<String>, message: String },
    UnsupportedOperation(String),
    ColumnNotFound(String),
    Conversion(String),
    /// An inline directive names another datastore than the connection's.
    Routing(String),
    /// A query holds a construct that the dialect lacks.
    Unsupported { construct: Construct },
}

/// What a [`DactylError`] says.
#[verifier::ext_equal]
pub ghost enum ErrorView {
    Config(Seq<char>),
    Adapter { kind: AdapterErrorKind, code: Option<Seq<char>>, message: Seq<char> },
    UnsupportedOperation(Seq<char>),
    ColumnNotFound(Seq<char>),
    Conversion(Seq<char>),
    Routing(Seq<char>),
    Unsupported { construct: Construct },
}

/// The text of an optional string.
pub open spec fn text_option(s: Option<String>) -> Option<Seq<char>> {
    match s {
        Some(s) => Some(s@),
        None => None,
    }
}

/// An adapter error without a code.
pub open spec fn plain(kind: AdapterErrorKind, message: Seq<char>) -> ErrorView {
    ErrorView::Adapter { kind, code: None, message }
}

/// An adapter error with a code.
pub open spec fn coded(kind: AdapterErrorKind, code: Seq<char>, message: Seq<char>) -> ErrorView {
    ErrorView::Adapter { kind, code: Some(code), message }
}

impl ErrorView {
    /// The category of an adapter error.
    pub open spec fn kind(self) -> Option<AdapterErrorKind> {
        match self {
            ErrorView::Adapter { kind, .. } => Some(kind),
            _ => None,
        }
    }

    /// The code of an adapter error.
    pub open spec fn code(self) -> Option<Seq<char>> {
        match self {
            ErrorView::Adapter { code, .. } => code,
            _ => None,
        }
    }

    /// Whether the same call may succeed later.
    pub open spec fn retryable(self) -> bool {
        self.kind() matches Some(k) && (k is Busy || k is Locked || k is Timeout || k is Unavailable)
    }

    /// The text shown to people.
    pub open spec fn text(self) -> Seq<char> {
        match self {
            ErrorView::Config(m) => "configuration error: "@ + m,
            ErrorView::Adapter { kind, message, .. } => "adapter error ("@ + kind.spec_name()
                + "): "@ + message,
            ErrorView::UnsupportedOperation(m) => "unsupported datastore operation: "@ + m,
            ErrorView::ColumnNotFound(m) => "column not found: "@ + m,
            ErrorView::Conversion(m) => "conversion error: "@ + m,
            ErrorView::Routing(m) => "routing error: "@ + m,
            ErrorView::Unsupported { construct } => "unsupported SQL construct: "@
                + construct.spec_lexeme(),
        }
    }
}

impl DactylError {
    pub open spec fn view(self) -> ErrorView {
        match self {
            DactylError::Config(m) => ErrorView::Config(m@),
            DactylError::Adapter { kind, code, message } => ErrorView::Adapter {
                kind,
                code: text_option(code),
                message: message@,
            },
            DactylError::UnsupportedOperation(m) => ErrorView::UnsupportedOperation(m@),
            DactylError::ColumnNotFound(m) => ErrorView::ColumnNotFound(m@),
            DactylError::Conversion(m) => ErrorView::Conversion(m@),
            DactylError::Routing(m) => ErrorView::Routing(m@),
            DactylError::Unsupported { construct } => ErrorView::Unsupported { construct },
        }
    }

    /// An adapter error without a code.
    pub fn adapter(kind: AdapterErrorKind, message: &str) -> (r: Self)
        ensures
            r@ == plain(kind, message@),
    {
        DactylError::Adapter { kind, code: None, message: message.to_string() }
    }

    /// An adapter error with a stable code.
    pub fn adapter_with_code(kind: AdapterErrorKind, code: &str, message: &str) -> (r: Self)
        ensures
            r@ == coded(kind, code@, message@),
    {
        DactylError::Adapter { kind, code: Some(code.to_string()), message: message.to_string() }
    }

    /// The operational category, when the error came from an adapter.
    pub fn adapter_kind(&self) -> (r: Option<AdapterErrorKind>)
        ensures
            r == self@.kind(),
    {
        match self {
            DactylError::Adapter { kind, .. } => Some(*kind),
            _ => None,
        }
    }

    /// Stable remote/provider code, when the adapter received one.
    pub fn adapter_code(&self) -> (r: Option<&str>)
        ensures
            r is Some <==> self@.code() is Some,
            r is Some ==> r->Some_0@ == self@.code()->Some_0,
    {
        match self {
            DactylError::Adapter { code, .. } => match code {
                Some(code) => Some(code.as_str()),
                None => None,
            },
            _ => None,
        }
    }

    /// Whether the same call may succeed later.
    pub fn is_retryable(&self) -> (r: bool)
        ensures
            r == self@.retryable(),
    {
        match self.adapter_kind() {
            Some(
                AdapterErrorKind::Busy
                | AdapterErrorKind::Locked
                | AdapterErrorKind::Timeout
                | AdapterErrorKind::Unavailable,
            ) => true,
            _ => false,
        }
    }

    /// The text shown to people.
    pub fn message(&self) -> (r: String)
        ensures
            r@ == self@.text(),
    {
        match self {
            DactylError::Config(m) => "configuration error: ".to_string().concat(m.as_str()),
            DactylError::Adapter { kind, message, .. } => {
                "adapter error (".to_string().concat(kind.name()).concat("): ").concat(
                    message.as_str(),
                )
            },
            DactylError::UnsupportedOperation(m) => {
                "unsupported datastore operation: ".to_string().concat(m.as_str())
            },
            DactylError::ColumnNotFound(m) => "column not found: ".to_string().concat(m.as_str()),
            DactylError::Conversion(m) => "conversion error: ".to_string().concat(m.as_str()),
            DactylError::Routing(m) => "routing error: ".to_string().concat(m.as_str()),
            DactylError::Unsupported { construct } => {
                "unsupported SQL construct: ".to_string().concat(construct.lexeme())
            },
        }
    }
}

/// Which errors may pass by themselves: those of a database that is busy,
/// locked or unavailable, and of a call that took too long. No other does, and
/// none that an adapter did not report.
pub proof fn lemma_retryable_errors(e: ErrorView)
    ensures
        e.retryable() <==> (e is Adapter && (e->Adapter_kind == AdapterErrorKind::Busy
            || e->Adapter_kind == AdapterErrorKind::Locked || e->Adapter_kind
            == AdapterErrorKind::Timeout || e->Adapter_kind == AdapterErrorKind::Unavailable)),
        e is Adapter ==> e.kind() == Some(e->Adapter_kind) && e.code() == e->Adapter_code,
        !(e is Adapter) ==> e.kind() is None && e.code() is None,
{
}

/// What an error shows people ends with the message that it was made with, and
/// names the category of an adapter error.
pub proof fn lemma_errors_show_their_message(e: ErrorView)
    ensures
        match e {
            ErrorView::Config(m) => e.text() == "configuration error: "@ + m,
            ErrorView::Adapter { kind, message, .. } => e.text() == "adapter error ("@
                + kind.spec_name() + "): "@ + message,
            ErrorView::UnsupportedOperation(m) => e.text() == "unsupported datastore operation: "@
                + m,
            ErrorView::ColumnNotFound(m) => e.text() == "column not found: "@ + m,
            ErrorView::Conversion(m) => e.text() == "conversion error: "@ + m,
            ErrorView::Routing(m) => e.text() == "routing error: "@ + m,
            ErrorView::Unsupported { construct } => e.text() == "unsupported SQL construct: "@
                + construct.spec_lexeme(),
        },
{
}

} // verus!
