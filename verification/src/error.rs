//! The error taxonomy of the library.

use vstd::prelude::*;

verus! {

/// Everything that can go wrong while connecting to the server or using an
/// established connection.
#[derive(Clone, Debug)]
pub enum EslError {
    /// A lower-level failure not otherwise classified.
    InternalError(String),
    /// The credentials were rejected during the handshake.
    AuthFailed,
    /// The server refused the connection before or instead of a challenge.
    AclRejected,
    /// I/O failure, end of stream, or use of a connection that has gone down.
    ConnectionError(String),
    /// No event was available when one was expected.
    EmptyEvent,
    /// Malformed or unexpected protocol content.
    ApiError(String),
}

impl EslError {
    /// What `message` returns, as a sequence of characters.
    pub open spec fn spec_message(&self) -> Seq<char> {
        match self {
            EslError::InternalError(d) => "unknown error: "@ + d@,
            EslError::AuthFailed => "Wrong password."@,
            EslError::AclRejected => "Acl rejected."@,
            EslError::ConnectionError(d) => "Unable to connect to destination server: "@ + d@,
            EslError::EmptyEvent => "empty event"@,
            EslError::ApiError(d) => "Api error: "@ + d@,
        }
    }

    /// A human-readable description of the error.
    pub fn message(&self) -> (r: String)
        ensures
            r@ == self.spec_message(),
    {
        match self {
            EslError::InternalError(d) => String::from_str("unknown error: ").concat(d.as_str()),
            EslError::AuthFailed => String::from_str("Wrong password."),
            EslError::AclRejected => String::from_str("Acl rejected."),
            EslError::ConnectionError(d) => {
                String::from_str("Unable to connect to destination server: ").concat(d.as_str())
            },
            EslError::EmptyEvent => String::from_str("empty event"),
            EslError::ApiError(d) => String::from_str("Api error: ").concat(d.as_str()),
        }
    }
}

impl PartialEq for EslError {
    fn eq(&self, other: &Self) -> (r: bool) {
        match (self, other) {
            (EslError::InternalError(a), EslError::InternalError(b)) => *a == *b,
            (EslError::AuthFailed, EslError::AuthFailed) => true,
            (EslError::AclRejected, EslError::AclRejected) => true,
            (EslError::ConnectionError(a), EslError::ConnectionError(b)) => *a == *b,
            (EslError::EmptyEvent, EslError::EmptyEvent) => true,
            (EslError::ApiError(a), EslError::ApiError(b)) => *a == *b,
            _ => false,
        }
    }
}

impl vstd::std_specs::cmp::PartialEqSpecImpl for EslError {
    open spec fn obeys_eq_spec() -> bool {
        true
    }

    open spec fn eq_spec(&self, other: &Self) -> bool {
        match (self, other) {
            (EslError::InternalError(a), EslError::InternalError(b)) => a@ == b@,
            (EslError::AuthFailed, EslError::AuthFailed) => true,
            (EslError::AclRejected, EslError::AclRejected) => true,
            (EslError::ConnectionError(a), EslError::ConnectionError(b)) => a@ == b@,
            (EslError::EmptyEvent, EslError::EmptyEvent) => true,
            (EslError::ApiError(a), EslError::ApiError(b)) => a@ == b@,
            _ => false,
        }
    }
}

} // verus!
