//! Builders for the command strings the protocol accepts.
//!
//! Every builder yields the exact bytes to write on the wire, the blank-line
//! terminator included: the writer task sends them verbatim.

use vstd::prelude::*;

verus! {

/// The credentials reply to an authentication challenge.
pub open spec fn spec_auth_command(password: Seq<char>) -> Seq<char> {
    "auth "@ + password + "\n\n"@
}

/// Builds the credentials reply to an authentication challenge.
pub fn auth_command(password: &str) -> (r: String)
    ensures
        r@ == spec_auth_command(password@),
{
    String::from_str("auth ").concat(password).concat("\n\n")
}

/// Builds the wire form of a caller-framed command: the command text with
/// the protocol terminator appended.
pub fn send_command(command: &str) -> (r: String)
    ensures
        r@ == command@ + "\n\n"@,
{
    String::from_str(command).concat("\n\n")
}

/// Builds the wire form of a foreground `api` command.
pub fn api_command(command: &str) -> (r: String)
    ensures
        r@ == "api "@ + command@ + "\n\n"@,
{
    String::from_str("api ").concat(command).concat("\n\n")
}

/// Relies on uuid::Uuid::new_v4 and its display form: a fresh random
/// version-4 identifier, written as 36 characters in the hyphenated form.
/// Nothing relates two draws: distinctness is only overwhelmingly likely.
#[verifier::external_body]
fn new_job_id() -> (r: String)
    ensures
        r@.len() == 36,
{
    uuid::Uuid::new_v4().to_string()
}

/// Builds the wire form of a background `bgapi` command and the fresh job
/// correlation identifier it carries: the identifier returned is embedded
/// verbatim in the command's `job-uuid` line, and the eventual result event
/// carries it back in its `Job-UUID` field.
pub fn bgapi_command(command: &str) -> (r: (String, String))
    ensures
        r.0@ == "bgapi "@ + command@ + "\njob-uuid:"@ + r.1@ + "\n\n"@,
        r.1@.len() == 36,
{
    let id = new_job_id();
    let wire = String::from_str("bgapi ").concat(command).concat("\njob-uuid:").concat(
        id.as_str(),
    ).concat("\n\n");
    (wire, id)
}

/// The words of `xs` joined by single spaces.
pub open spec fn spec_join_space(xs: Seq<Seq<char>>) -> Seq<char>
    decreases xs.len(),
{
    if xs.len() == 0 {
        Seq::empty()
    } else if xs.len() == 1 {
        xs.last()
    } else {
        spec_join_space(xs.drop_last()) + " "@ + xs.last()
    }
}

/// Joins the words of `xs` with single spaces.
fn join_space(xs: &[String]) -> (r: String)
    ensures
        r@ == spec_join_space(xs.deep_view()),
{
    let mut r = String::new();
    let n = xs.len();
    let mut i: usize = 0;
    proof {
        assert(xs.deep_view().len() == xs@.len());
        assert(xs.deep_view().take(0) =~= Seq::<Seq<char>>::empty());
    }
    while i < n
        invariant
            i <= n == xs@.len(),
            xs.deep_view().len() == n,
            r@ == spec_join_space(xs.deep_view().take(i as int)),
        decreases n - i,
    {
        proof {
            assert(xs.deep_view().take(i + 1).drop_last() =~= xs.deep_view().take(i as int));
            assert(xs.deep_view().take(i + 1).last() == xs.deep_view()[i as int]);
            assert(xs.deep_view()[i as int] == xs@[i as int]@);
        }
        if i > 0 {
            r = r.concat(" ");
        }
        r = r.concat(xs[i].as_str());
        i = i + 1;
    }
    proof {
        assert(xs.deep_view().take(n as int) =~= xs.deep_view());
    }
    r
}

/// Builds the command that subscribes to the named events, delivered in the
/// JSON format.
pub fn subscribe_command(events: &[String]) -> (r: String)
    ensures
        r@ == "event json "@ + spec_join_space(events.deep_view()) + "\n\n"@,
{
    String::from_str("event json ").concat(join_space(events).as_str()).concat("\n\n")
}

/// Builds the command that subscribes to every event.
pub fn subscribe_all_command() -> (r: String)
    ensures
        r@ == "event json all\n\n"@,
{
    String::from_str("event json all\n\n")
}

/// Builds the command that cancels the subscription to the named events.
pub fn unsubscribe_command(events: &[String]) -> (r: String)
    ensures
        r@ == "nixevent "@ + spec_join_space(events.deep_view()) + "\n\n"@,
{
    String::from_str("nixevent ").concat(join_space(events).as_str()).concat("\n\n")
}

/// Builds the command that cancels every subscription.
pub fn unsubscribe_all_command() -> (r: String)
    ensures
        r@ == "nixevent all\n\n"@,
{
    String::from_str("nixevent all\n\n")
}

} // verus!
