//! The authentication handshake state machine.
//!
//! The handshake starts `Pending`.  Each inbound frame is inspected before
//! general publication: a challenge asks the writer to send the password, an
//! accepting command reply resolves the handshake, a rejecting one or a
//! pre-challenge access-control rejection fails it.  A resolved state is
//! terminal: no later frame moves it.

use vstd::prelude::*;

verus! {

use crate::codec::{Frame, SpecFrame};
use crate::strutil::{spec_contains_seq, str_contains, str_eq};

/// Where the handshake stands.
#[derive(Clone, Copy, Debug, PartialEq, Eq, Structural)]
pub enum AuthState {
    /// No accepting or rejecting reply has arrived yet.
    Pending,
    /// The server accepted the credentials.
    Authenticated,
    /// The server rejected the credentials.
    FailedAuth,
    /// The server rejected the connection before or instead of a challenge.
    FailedAcl,
}

/// The `Content-Type` header of a frame, if it carries one.
pub open spec fn spec_content_type(f: SpecFrame) -> Option<Seq<char>> {
    if f.headers.contains_key("Content-Type"@) {
        Some(f.headers["Content-Type"@])
    } else {
        None
    }
}

/// The `Reply-Text` header of a frame, if it carries one.
pub open spec fn spec_reply_text(f: SpecFrame) -> Option<Seq<char>> {
    if f.headers.contains_key("Reply-Text"@) {
        Some(f.headers["Reply-Text"@])
    } else {
        None
    }
}

/// An authentication challenge: the server asks for credentials.
pub open spec fn spec_is_challenge(f: SpecFrame) -> bool {
    spec_content_type(f) == Some("auth/request"@)
}

/// A command reply frame.
pub open spec fn spec_is_command_reply(f: SpecFrame) -> bool {
    spec_content_type(f) == Some("command/reply"@)
}

/// Whether the frame's reply text contains `pat`.
pub open spec fn spec_reply_contains(f: SpecFrame, pat: Seq<char>) -> bool {
    match spec_reply_text(f) {
        Some(t) => spec_contains_seq(t, pat),
        None => false,
    }
}

/// A command reply that rejects the credentials.
pub open spec fn spec_is_rejection(f: SpecFrame) -> bool {
    spec_is_command_reply(f) && spec_reply_contains(f, "invalid"@)
}

/// A command reply that accepts the credentials.
pub open spec fn spec_is_acceptance(f: SpecFrame) -> bool {
    spec_is_command_reply(f) && spec_reply_contains(f, "+OK accepted"@)
}

/// A pre-challenge access-control rejection.
pub open spec fn spec_is_acl_rejection(f: SpecFrame) -> bool {
    spec_content_type(f) == Some("text/rude-rejection"@)
}

/// One step of the handshake against one inbound frame.  A challenge leaves
/// the state alone (the caller answers it); a rejection, acceptance or
/// access-control rejection resolves a pending handshake; a resolved state
/// never moves again.
pub open spec fn spec_auth_step(st: AuthState, f: SpecFrame) -> AuthState {
    if st is Pending && !spec_is_challenge(f) {
        if spec_is_rejection(f) {
            AuthState::FailedAuth
        } else if spec_is_acceptance(f) {
            AuthState::Authenticated
        } else if spec_is_acl_rejection(f) {
            AuthState::FailedAcl
        } else {
            st
        }
    } else {
        st
    }
}

/// A resolved handshake stays resolved, whatever arrives next.
pub proof fn lemma_auth_terminal(st: AuthState, f: SpecFrame)
    requires
        !(st is Pending),
    ensures
        spec_auth_step(st, f) == st,
{
}

/// Whether the frame is an authentication challenge.
pub fn frame_is_challenge(f: &Frame) -> (r: bool)
    ensures
        r == spec_is_challenge(f@),
{
    match f.headers.get("Content-Type") {
        Some(v) => str_eq(v.as_str(), "auth/request"),
        None => false,
    }
}

fn frame_is_command_reply(f: &Frame) -> (r: bool)
    ensures
        r == spec_is_command_reply(f@),
{
    match f.headers.get("Content-Type") {
        Some(v) => str_eq(v.as_str(), "command/reply"),
        None => false,
    }
}

fn frame_reply_contains(f: &Frame, pat: &str) -> (r: bool)
    ensures
        r == spec_reply_contains(f@, pat@),
{
    match f.headers.get("Reply-Text") {
        Some(v) => str_contains(v.as_str(), pat),
        None => false,
    }
}

fn frame_is_acl_rejection(f: &Frame) -> (r: bool)
    ensures
        r == spec_is_acl_rejection(f@),
{
    match f.headers.get("Content-Type") {
        Some(v) => str_eq(v.as_str(), "text/rude-rejection"),
        None => false,
    }
}

/// Advances the handshake by one inbound frame.
pub fn auth_step(st: AuthState, f: &Frame) -> (r: AuthState)
    ensures
        r == spec_auth_step(st, f@),
{
    if !matches!(st, AuthState::Pending) {
        return st;
    }
    if frame_is_challenge(f) {
        return st;
    }
    if frame_is_command_reply(f) && frame_reply_contains(f, "invalid") {
        AuthState::FailedAuth
    } else if frame_is_command_reply(f) && frame_reply_contains(f, "+OK accepted") {
        AuthState::Authenticated
    } else if frame_is_acl_rejection(f) {
        AuthState::FailedAcl
    } else {
        st
    }
}

} // verus!
