//! The failures that the credential engine distinguishes.
use vstd::prelude::*;

verus! {

/// Why an authentication step failed.
#[derive(Debug)]
pub enum AuthError {
    /// The loopback listener could not be bound within its time budget.
    ListenerBindTimeout,
    /// A callback or device-flow response lacked a field or was malformed.
    ProtocolError(String),
    /// The state returned by the provider differs from the one sent.
    CsrfMismatch,
    /// The authorization server rejected the request; the summary names
    /// its code, description and URI where given.
    ProviderError(String),
    /// The requested flow is not available for this provider.
    UnsupportedFlow,
    /// A refresh was asked of a token without a refresh secret.
    NoRefreshToken,
    /// No secret is stored under the key.
    NotFound,
    /// A transport failure.
    NetworkError(String),
    /// The secret vault failed for a reason other than a missing entry.
    StoreError(String),
}

/// The variant of an error, as a small number, and the text it carries.
pub open spec fn error_view(e: AuthError) -> (u8, Seq<char>) {
    match e {
        AuthError::ListenerBindTimeout => (0, Seq::empty()),
        AuthError::ProtocolError(s) => (1, s@),
        AuthError::CsrfMismatch => (2, Seq::empty()),
        AuthError::ProviderError(s) => (3, s@),
        AuthError::UnsupportedFlow => (4, Seq::empty()),
        AuthError::NoRefreshToken => (5, Seq::empty()),
        AuthError::NotFound => (6, Seq::empty()),
        AuthError::NetworkError(s) => (7, s@),
        AuthError::StoreError(s) => (8, s@),
    }
}

} // verus!
