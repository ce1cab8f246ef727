//! EasyTier instances: parsing instance ids, closing an instance, the start
//! log line, and waiting for an instance's RPC service.

use vstd::prelude::*;
use crate::text::{join, join_strings, strings_view};

verus! {

/// What `uuid::Uuid::parse_str` gives for `input`: the UUID as its 128-bit
/// big-endian value, or the text of the error.
pub uninterp spec fn uuid_parse(input: Seq<char>) -> Result<u128, Seq<char>>;

/// Parses a UUID in any of the forms `uuid::Uuid::parse_str` accepts
/// (simple, hyphenated, braced, URN). The outcome, value or error text, is
/// named by `uuid_parse`.
#[verifier::external_body]
fn uuid_parse_str(input: &str) -> (r: Result<u128, String>)
    ensures
        match r {
            Ok(v) => uuid_parse(input@) == Ok::<u128, Seq<char>>(v),
            Err(e) => uuid_parse(input@) == Err::<u128, Seq<char>>(e@),
        },
{
    match uuid::Uuid::parse_str(input) {
        Ok(u) => Ok(u.as_u128()),
        Err(e) => Err(e.to_string()),
    }
}

/// The error for an instance id that is not a UUID.
pub open spec fn invalid_instance_id_error(e: Seq<char>) -> Seq<char> {
    "invalid instance_id: "@ + e
}

/// The instance id for the outcome of parsing it as a UUID: the value, or
/// the parse error marked as an invalid instance id.
pub fn instance_id_from_parse(parsed: Result<u128, String>) -> (r: Result<u128, String>)
    ensures
        match parsed {
            Ok(v) => r == Ok::<u128, String>(v),
            Err(e) => r matches Err(m) && m@ == invalid_instance_id_error(e@),
        },
{
    match parsed {
        Ok(v) => Ok(v),
        Err(e) => {
            let mut m = String::from_str("invalid instance_id: ");
            m.append(e.as_str());
            Err(m)
        },
    }
}

/// Parses an instance id.
pub fn parse_instance_id(instance_id: &str) -> (r: Result<u128, String>)
    ensures
        match uuid_parse(instance_id@) {
            Ok(v) => r == Ok::<u128, String>(v),
            Err(e) => r matches Err(m) && m@ == invalid_instance_id_error(e),
        },
{
    instance_id_from_parse(uuid_parse_str(instance_id))
}

/// The error for an instance that could not be deleted.
pub open spec fn delete_failed_error(e: Seq<char>) -> Seq<char> {
    "delete instance failed: "@ + e
}

/// Closes the instance `instance_id`: parses the id, then asks `delete` to
/// delete the instance with that id.
pub fn close_instance<F: FnOnce(u128) -> Result<(), String>>(instance_id: String, delete: F) -> (r:
    Result<(), String>)
    requires
        forall|id: u128| delete.requires((id,)),
    ensures
        match uuid_parse(instance_id@) {
            Err(e) => r matches Err(m) && m@ == invalid_instance_id_error(e),
            Ok(id) => exists|d: Result<(), String>|
                #[trigger] delete.ensures((id,), d) && match d {
                    Ok(()) => r is Ok,
                    Err(de) => r matches Err(m) && m@ == delete_failed_error(de@),
                },
        },
{
    let id = match parse_instance_id(instance_id.as_str()) {
        Ok(id) => id,
        Err(e) => return Err(e),
    };
    let d = delete(id);
    match d {
        Ok(()) => Ok(()),
        Err(de) => {
            let mut m = String::from_str("delete instance failed: ");
            m.append(de.as_str());
            Err(m)
        },
    }
}

/// What the start log line of an instance reports, as text.
pub struct InstanceStartInfo {
    pub instance_id: String,
    pub network_name: String,
    pub hostname: String,
    pub dhcp: bool,
    pub ipv4: Option<String>,
    pub listeners: Option<Vec<String>>,
    pub peers: Vec<String>,
}

/// `true` or `false`.
pub open spec fn bool_text(b: bool) -> Seq<char> {
    if b { "true"@ } else { "false"@ }
}

/// The log line written when an instance starts; an absent address or
/// listener list reads `none`.
pub open spec fn instance_start_text(i: InstanceStartInfo) -> Seq<char> {
    "instance starting. instance_id: "@ + i.instance_id@ + ", network_name: "@ + i.network_name@
        + ", hostname: "@ + i.hostname@ + ", dhcp: "@ + bool_text(i.dhcp) + ", ipv4: "@ + match i.ipv4 {
        Some(a) => a@,
        None => "none"@,
    } + ", listeners: ["@ + match i.listeners {
        Some(l) => join(strings_view(l@), ", "@),
        None => "none"@,
    } + "], peers: ["@ + join(strings_view(i.peers@), ", "@) + "]"@
}

/// Renders the start log line of an instance.
pub fn instance_start_message(i: &InstanceStartInfo) -> (s: String)
    ensures
        s@ == instance_start_text(*i),
{
    let mut s = String::from_str("instance starting. instance_id: ");
    s.append(i.instance_id.as_str());
    s.append(", network_name: ");
    s.append(i.network_name.as_str());
    s.append(", hostname: ");
    s.append(i.hostname.as_str());
    s.append(", dhcp: ");
    if i.dhcp {
        s.append("true");
    } else {
        s.append("false");
    }
    s.append(", ipv4: ");
    match &i.ipv4 {
        Some(a) => s.append(a.as_str()),
        None => s.append("none"),
    }
    s.append(", listeners: [");
    match &i.listeners {
        Some(l) => {
            let j = join_strings(l, ", ");
            s.append(j.as_str());
        },
        None => s.append("none"),
    }
    s.append("], peers: [");
    let p = join_strings(&i.peers, ", ");
    s.append(p.as_str());
    s.append("]");
    s
}

/// One step of waiting for an instance's RPC service.
pub enum RetryStep<T> {
    /// The service is there.
    Ready(T),
    /// The deadline passed: give up with the lookup's error.
    Fail(String),
    /// Wait a little and look again.
    Retry,
}

/// Decides what a lookup outcome means while waiting until a deadline.
pub fn lookup_retry_step<T>(lookup: Result<T, String>, deadline_passed: bool) -> (s: RetryStep<T>)
    ensures
        match lookup {
            Ok(v) => s == RetryStep::Ready(v),
            Err(e) => if deadline_passed {
                s matches RetryStep::Fail(f) && f@ == e@
            } else {
                s is Retry
            },
        },
{
    match lookup {
        Ok(v) => RetryStep::Ready(v),
        Err(e) => if deadline_passed {
            RetryStep::Fail(e)
        } else {
            RetryStep::Retry
        },
    }
}

} // verus!
