//! The decisions of starting a managed server: when a start may begin, what
//! the launch form must hold, and what the readiness wait's outcome does to
//! the lifecycle and to the ownership of the process.
use vstd::prelude::*;
use crate::server_logs::{exit_phase, ServerLifecyclePhase, ServerLifecycleTracker};
use crate::server_readiness::{ServerReadinessError, ServerReadinessEvidence};
use crate::text::{parse_unsigned, parse_unsigned_chars, trim, trim_chars};
use crate::strings::{chars_of, string_from_chars};

verus! {

/// What the server controls are busy with.
#[derive(Debug, Clone, Copy, PartialEq, Eq, Structural)]
pub enum ServerOperation {
    Idle,
    Starting,
    Stopping,
}

/// A start may begin only when no process is owned and nothing else runs.
pub fn may_start(process_owned: bool, operation: ServerOperation) -> (r: bool)
    ensures
        r == (!process_owned && operation == ServerOperation::Idle),
{
    !process_owned && operation == ServerOperation::Idle
}

/// The endpoint fields of the launch form, checked.
#[derive(Debug, Clone, PartialEq, Eq)]
pub struct LaunchFormValues {
    pub host: String,
    pub port: u16,
    pub api_key: Option<String>,
}

/// What the launch form yields: the host and the key trimmed (an empty key
/// is none), the port read as a `u16` from its trimmed text; a blank host,
/// a port that is no `u16`, or port `0` is refused with its message, in
/// that order.
pub open spec fn launch_form(host: Seq<char>, port: Seq<char>, api_key: Seq<char>) -> Result<
    (Seq<char>, u16, Option<Seq<char>>),
    Seq<char>,
> {
    if trim(host).len() == 0 {
        Err("Host cannot be empty."@)
    } else {
        match parse_unsigned(trim(port), 65535) {
            None => Err("Port must be an integer in 1..=65535."@),
            Some(p) => if p == 0 {
                Err("Port must be in 1..=65535."@)
            } else {
                Ok(
                    (
                        trim(host),
                        p as u16,
                        if trim(api_key).len() == 0 {
                            None
                        } else {
                            Some(trim(api_key))
                        },
                    ),
                )
            },
        }
    }
}

/// Checks the host, port and API key fields of the launch form.
pub fn validate_launch_form(host: &str, port: &str, api_key: &str) -> (r: Result<LaunchFormValues, String>)
    ensures
        match launch_form(host@, port@, api_key@) {
            Ok((h, p, k)) => r matches Ok(v) && v.host@ == h && v.port == p && match k {
                Some(key) => v.api_key matches Some(x) && x@ == key,
                None => v.api_key is None,
            },
            Err(message) => r matches Err(m) && m@ == message,
        },
{
    proof {
        reveal_strlit("Host cannot be empty.");
        reveal_strlit("Port must be an integer in 1..=65535.");
        reveal_strlit("Port must be in 1..=65535.");
    }
    let host_chars = chars_of(host);
    let h = trim_chars(host_chars.as_slice());
    if h.len() == 0 {
        return Err("Host cannot be empty.".to_owned());
    }
    let port_chars = chars_of(port);
    let pt = trim_chars(port_chars.as_slice());
    let parsed = parse_unsigned_chars(pt.as_slice(), 65535);
    let p: u16 = match parsed {
        None => {
            return Err("Port must be an integer in 1..=65535.".to_owned());
        },
        Some(v) => v as u16,
    };
    if p == 0 {
        return Err("Port must be in 1..=65535.".to_owned());
    }
    let key_chars = chars_of(api_key);
    let k = trim_chars(key_chars.as_slice());
    let key = if k.len() == 0 {
        None
    } else {
        Some(string_from_chars(k.as_slice()))
    };
    Ok(LaunchFormValues { host: string_from_chars(h.as_slice()), port: p, api_key: key })
}

/// What the end of a readiness wait does. The operation returns to idle
/// unless a stop is under way. Readiness marks the server ready; an exit
/// before readiness is recorded and the process is no longer owned; a
/// cancellation leaves the lifecycle to the stop that asked for it; any
/// other error marks the start failed with `failure_message`, the error's
/// text. The process stays owned in all but the exit case.
pub fn settle_readiness(
    lifecycle: &mut ServerLifecycleTracker,
    operation: ServerOperation,
    process_owned: bool,
    outcome: Result<ServerReadinessEvidence, ServerReadinessError>,
    failure_message: String,
) -> (r: (ServerOperation, bool))
    ensures
        r.0 == (if operation == ServerOperation::Stopping {
            ServerOperation::Stopping
        } else {
            ServerOperation::Idle
        }),
        match outcome {
            Ok(_) => {
                &&& r.1 == process_owned
                &&& final(lifecycle).snapshot.phase == ServerLifecyclePhase::Ready
                &&& final(lifecycle).snapshot.detail is None
                &&& final(lifecycle).snapshot.process == old(lifecycle).snapshot.process
                &&& final(lifecycle).snapshot.last_exit == old(lifecycle).snapshot.last_exit
            },
            Err(ServerReadinessError::ProcessExited { evidence }) => {
                &&& !r.1
                &&& final(lifecycle).snapshot.phase == exit_phase(old(lifecycle).snapshot.phase, evidence)
                &&& final(lifecycle).snapshot.last_exit == Some(evidence)
                &&& final(lifecycle).snapshot.detail == old(lifecycle).snapshot.detail
                &&& final(lifecycle).snapshot.process == (if final(lifecycle).snapshot.phase
                    == ServerLifecyclePhase::Stopped {
                    None
                } else {
                    old(lifecycle).snapshot.process
                })
            },
            Err(ServerReadinessError::Cancelled) => {
                &&& r.1 == process_owned
                &&& *final(lifecycle) == *old(lifecycle)
            },
            Err(_) => {
                &&& r.1 == process_owned
                &&& final(lifecycle).snapshot.phase == ServerLifecyclePhase::Failed
                &&& final(lifecycle).snapshot.detail == Some(failure_message)
                &&& final(lifecycle).snapshot.process == old(lifecycle).snapshot.process
                &&& final(lifecycle).snapshot.last_exit == old(lifecycle).snapshot.last_exit
            },
        },
{
    let next = if operation == ServerOperation::Stopping {
        ServerOperation::Stopping
    } else {
        ServerOperation::Idle
    };
    match outcome {
        Ok(_) => {
            lifecycle.mark_ready();
            (next, process_owned)
        },
        Err(ServerReadinessError::ProcessExited { evidence }) => {
            lifecycle.mark_exit(evidence);
            (next, false)
        },
        Err(ServerReadinessError::Cancelled) => (next, process_owned),
        Err(_) => {
            lifecycle.mark_failed(failure_message);
            (next, process_owned)
        },
    }
}

} // verus!
