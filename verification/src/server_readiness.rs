//! Server endpoint identity, readiness probing policy and the decisions that
//! classify health and inference probe responses.
use vstd::prelude::*;
use vstd::string::StringSliceAdditionalSpecFns;
use crate::server_process::ProcessExitEvidence;
use crate::strings::{chars_of, decimal, decimal_chars, push_chars, push_str, string_from_chars};

verus! {

/// Whether a TCP port on the probed host accepted a listener.
#[derive(Debug, Clone, Copy, PartialEq, Eq, Structural)]
pub enum PortAvailability {
    Available,
    InUse,
}

/// Host, port and credentials of a llama.cpp server.
#[derive(Debug, Clone, PartialEq, Eq)]
pub struct ServerEndpoint {
    pub host: String,
    pub port: u16,
    pub api_key: Option<String>,
    pub allow_non_loopback: bool,
}

/// `host:port`, with an IPv6 literal host put in brackets.
pub open spec fn authority_of(host: Seq<char>, port: u16) -> Seq<char> {
    if host.contains(':') && !(host.len() > 0 && host[0] == '[') {
        seq!['['] + host + seq![']', ':'] + decimal(port as nat)
    } else {
        host + seq![':'] + decimal(port as nat)
    }
}

impl ServerEndpoint {
    /// The IPv4 loopback endpoint on `port`, without credentials.
    pub fn loopback(port: u16) -> (r: Self)
        ensures
            r.host@ == "127.0.0.1"@,
            r.port == port,
            r.api_key is None,
            !r.allow_non_loopback,
    {
        let v = chars_of("127.0.0.1");
        ServerEndpoint {
            host: string_from_chars(v.as_slice()),
            port,
            api_key: None,
            allow_non_loopback: false,
        }
    }

    /// `host:port` for request lines and diagnostics.
    pub fn authority(&self) -> (r: String)
        ensures
            r@ == authority_of(self.host@, self.port),
    {
        let host = chars_of(self.host.as_str());
        let bracket = crate::strings::contains_char(self.host.as_str(), ':') && !(host.len() > 0
            && host[0] == '[');
        let mut out: Vec<char> = Vec::new();
        if bracket {
            out.push('[');
            push_chars(&mut out, host.as_slice());
            out.push(']');
            out.push(':');
        } else {
            push_chars(&mut out, host.as_slice());
            out.push(':');
        }
        let digits = decimal_chars(self.port as u64);
        push_chars(&mut out, digits.as_slice());
        proof {
            if bracket {
                assert(out@ == seq!['['] + self.host@ + seq![']', ':'] + decimal(self.port as nat));
            } else {
                assert(out@ == self.host@ + seq![':'] + decimal(self.port as nat));
            }
        }
        string_from_chars(out.as_slice())
    }
}


/// Largest HTTP probe response read.
pub const MAX_HTTP_RESPONSE_BYTES: u64 = 262144;

/// Longest body excerpt kept as probe evidence.
pub const MAX_BODY_EXCERPT_CHARS: usize = 8192;

#[derive(Debug, Clone, Copy, PartialEq, Eq, Structural)]
pub enum ProbePhase {
    Health,
    Inference,
}

/// One HTTP probe as observed.
#[derive(Debug, Clone, PartialEq, Eq)]
pub struct HttpProbeEvidence {
    pub method: String,
    pub path: String,
    pub status_code: u16,
    pub body_excerpt: String,
    pub observed_at_unix_ms: u64,
}

/// What the health paths showed: a healthy answer, or only paths that the
/// server does not serve.
#[derive(Debug, Clone, PartialEq, Eq)]
pub enum HealthCapabilityEvidence {
    Healthy(HttpProbeEvidence),
    UnsupportedObserved(Vec<HttpProbeEvidence>),
}

/// The minimal inference request and what a successful reply must contain.
#[derive(Debug, Clone, PartialEq, Eq)]
pub struct InferenceProbe {
    pub path: String,
    pub body: String,
    pub success_body_markers: Vec<String>,
}

impl InferenceProbe {
    /// A one-token completion on llama.cpp's native `/completion`.
    pub fn llama_cpp_native_completion() -> (r: Self)
        ensures
            r.path@ == "/completion"@,
            r.body@ == "{\"prompt\":\"Reply with OK\",\"n_predict\":1,\"temperature\":0}"@,
            r.success_body_markers@.len() == 1,
            r.success_body_markers@[0]@ == "\"content\""@,
    {
        InferenceProbe {
            path: "/completion".to_owned(),
            body: "{\"prompt\":\"Reply with OK\",\"n_predict\":1,\"temperature\":0}".to_owned(),
            success_body_markers: vec!["\"content\"".to_owned()],
        }
    }
}

/// How long to wait for readiness and how to pace the probes (milliseconds).
#[derive(Debug, Clone, PartialEq, Eq)]
pub struct ReadinessPolicy {
    pub timeout_ms: u64,
    pub request_timeout_ms: u64,
    pub initial_backoff_ms: u64,
    pub max_backoff_ms: u64,
    pub health_paths: Vec<String>,
    pub inference: InferenceProbe,
}

impl Default for ReadinessPolicy {
    /// Thirty seconds overall, two per request, backoff from 50 ms to 500 ms,
    /// `/health` then `/v1/models`, and the native completion probe.
    fn default() -> (r: Self)
        ensures
            r.timeout_ms == 30000,
            r.request_timeout_ms == 2000,
            r.initial_backoff_ms == 50,
            r.max_backoff_ms == 500,
            r.health_paths@.len() == 2,
            r.health_paths@[0]@ == "/health"@,
            r.health_paths@[1]@ == "/v1/models"@,
            r.inference.path@ == "/completion"@,
    {
        ReadinessPolicy {
            timeout_ms: 30000,
            request_timeout_ms: 2000,
            initial_backoff_ms: 50,
            max_backoff_ms: 500,
            health_paths: vec!["/health".to_owned(), "/v1/models".to_owned()],
            inference: InferenceProbe::llama_cpp_native_completion(),
        }
    }
}

/// Proof that a server answered health and inference probes.
#[derive(Debug, Clone, PartialEq, Eq)]
pub struct ServerReadinessEvidence {
    pub endpoint: String,
    pub health: HealthCapabilityEvidence,
    pub inference: HttpProbeEvidence,
    pub attempts: u32,
    pub elapsed_ms: u64,
    pub authenticated: bool,
}

#[derive(Debug, Clone, PartialEq, Eq)]
pub enum ServerReadinessError {
    PortInUse { host: String, port: u16 },
    InvalidPort,
    NonLoopbackDenied { host: String },
    HostResolution { host: String, message: String },
    PortCheck { host: String, port: u16, message: String },
    ProcessExited { evidence: ProcessExitEvidence },
    Cancelled,
    Timeout { phase: ProbePhase, elapsed_ms: u64, last_status: Option<u16> },
    AuthenticationRejected { phase: ProbePhase, status_code: u16 },
    HealthRejected { path: String, status_code: u16 },
    InferenceRejected { status_code: Option<u16>, reason: String },
    Transport { path: String, message: String },
}

/// A server may only be started on a port that nothing holds; `check` is
/// what the port check observed.
pub fn require_port_available(endpoint: &ServerEndpoint, check: Result<PortAvailability, ServerReadinessError>) -> (r: Result<(), ServerReadinessError>)
    ensures
        match check {
            Ok(PortAvailability::Available) => r is Ok,
            Ok(PortAvailability::InUse) => r matches Err(ServerReadinessError::PortInUse { host, port }) && host@ == endpoint.host@
                && port == endpoint.port,
            Err(e) => r == Err::<(), ServerReadinessError>(e),
        },
{
    match check {
        Ok(PortAvailability::Available) => Ok(()),
        Ok(PortAvailability::InUse) => Err(ServerReadinessError::PortInUse { host: endpoint.host.clone(), port: endpoint.port }),
        Err(e) => Err(e),
    }
}

/// Port zero is refused before any address is resolved.
pub fn check_endpoint_port(endpoint: &ServerEndpoint) -> (r: Result<(), ServerReadinessError>)
    ensures
        endpoint.port == 0 ==> r == Err::<(), ServerReadinessError>(ServerReadinessError::InvalidPort),
        endpoint.port != 0 ==> r is Ok,
{
    if endpoint.port == 0 {
        Err(ServerReadinessError::InvalidPort)
    } else {
        Ok(())
    }
}

/// Whether the resolved addresses may be probed: there must be one, and a
/// non-loopback one needs the endpoint's explicit opt-in.
pub fn check_resolved_addresses(endpoint: &ServerEndpoint, address_count: usize, any_non_loopback: bool) -> (r: Result<(), ServerReadinessError>)
    ensures
        address_count == 0 ==> (r matches Err(ServerReadinessError::HostResolution { host, message }) && host@ == endpoint.host@
            && message@ == "host resolved to no addresses"@),
        address_count > 0 && any_non_loopback && !endpoint.allow_non_loopback ==> (r matches Err(ServerReadinessError::NonLoopbackDenied { host })
            && host@ == endpoint.host@),
        address_count > 0 && !(any_non_loopback && !endpoint.allow_non_loopback) ==> r is Ok,
{
    if address_count == 0 {
        return Err(ServerReadinessError::HostResolution {
            host: endpoint.host.clone(),
            message: "host resolved to no addresses".to_owned(),
        });
    }
    if any_non_loopback && !endpoint.allow_non_loopback {
        return Err(ServerReadinessError::NonLoopbackDenied { host: endpoint.host.clone() });
    }
    Ok(())
}

/// The request text of one readiness probe.
pub open spec fn probe_request_text(endpoint: ServerEndpoint, method: Seq<char>, path: Seq<char>, body: Seq<char>, body_bytes: nat) -> Seq<char> {
    method + " "@ + path + " HTTP/1.1\r\nHost: "@ + authority_of(endpoint.host@, endpoint.port) + "\r\nConnection: close\r\n"@
        + "Accept: application/json\r\n"@ + crate::streaming_probe::auth_header(endpoint) + (if body.len() > 0 {
        "Content-Type: application/json\r\n"@
    } else {
        Seq::empty()
    }) + "Content-Length: "@ + decimal(body_bytes) + "\r\n\r\n"@ + body
}

pub fn build_http_request(endpoint: &ServerEndpoint, method: &str, path: &str, body: &str) -> (r: String)
    ensures
        r@ == probe_request_text(*endpoint, method@, path@, body@, body.len() as nat),
{
    let mut out: Vec<char> = Vec::new();
    push_str(&mut out, method);
    push_str(&mut out, " ");
    push_str(&mut out, path);
    push_str(&mut out, " HTTP/1.1\r\nHost: ");
    let authority = endpoint.authority();
    push_str(&mut out, authority.as_str());
    push_str(&mut out, "\r\nConnection: close\r\n");
    push_str(&mut out, "Accept: application/json\r\n");
    let ghost before_key = out@;
    crate::streaming_probe::append_auth_header(&mut out, endpoint);
    let ghost before_type = out@;
    if !body.is_empty() {
        push_str(&mut out, "Content-Type: application/json\r\n");
    }
    let ghost before_length = out@;
    push_str(&mut out, "Content-Length: ");
    let n = body.len();
    let digits = decimal_chars(n as u64);
    push_chars(&mut out, digits.as_slice());
    push_str(&mut out, "\r\n\r\n");
    push_str(&mut out, body);
    proof {
        let type_part = if body@.len() > 0 {
            "Content-Type: application/json\r\n"@
        } else {
            Seq::<char>::empty()
        };
        assert(before_length == before_type + type_part);
        assert(out@ =~= probe_request_text(*endpoint, method@, path@, body@, n as nat));
    }
    string_from_chars(out.as_slice())
}

/// How a probe reply is read: status from the first line, an excerpt of
/// the body after the blank line.
pub open spec fn probe_reply(text: Seq<char>, path: Seq<char>) -> Result<(u16, Seq<char>), (Seq<char>, Seq<char>)> {
    match crate::text::first_line(text) {
        None => Err((path, "empty HTTP response"@)),
        Some(line) => match crate::text::status_code_of(text) {
            None => Err((path, "invalid HTTP status line: "@ + line)),
            Some(code) => {
                let body = crate::text::body_after_head(text);
                Ok((code, if body.len() <= 8192 { body } else { body.subrange(0, 8192) }))
            },
        },
    }
}

/// Reads a probe reply (decoded as lossy UTF-8) into evidence.
pub fn parse_http_response(method: &str, path: &str, bytes: &[u8]) -> (r: Result<HttpProbeEvidence, ServerReadinessError>)
    ensures
        match probe_reply(crate::strings::utf8_lossy(bytes@), path@) {
            Err((p, m)) => r matches Err(ServerReadinessError::Transport { path: rp, message }) && rp@ == p && message@ == m,
            Ok((code, excerpt)) => r matches Ok(e) && e.method@ == method@ && e.path@ == path@ && e.status_code == code
                && e.body_excerpt@ == excerpt,
        },
{
    let text = crate::strings::lossy_chars(bytes);
    if text.len() == 0 {
        return Err(ServerReadinessError::Transport { path: path.to_owned(), message: "empty HTTP response".to_owned() });
    }
    match crate::text::status_code_from_text(text.as_slice()) {
        None => {
            let (end, _next) = crate::text::line_end_exec(text.as_slice(), 0);
            let line = crate::text::copy_range(text.as_slice(), 0, end);
            let mut msg: Vec<char> = Vec::new();
            push_str(&mut msg, "invalid HTTP status line: ");
            push_chars(&mut msg, line.as_slice());
            Err(ServerReadinessError::Transport { path: path.to_owned(), message: string_from_chars(msg.as_slice()) })
        },
        Some(code) => {
            let body = crate::text::body_after_head_exec(text.as_slice());
            let excerpt = if body.len() <= MAX_BODY_EXCERPT_CHARS {
                body
            } else {
                crate::text::copy_range(body.as_slice(), 0, MAX_BODY_EXCERPT_CHARS)
            };
            Ok(HttpProbeEvidence {
                method: method.to_owned(),
                path: path.to_owned(),
                status_code: code,
                body_excerpt: string_from_chars(excerpt.as_slice()),
                observed_at_unix_ms: crate::strings::now_unix_ms(),
            })
        },
    }
}

/// The outcome of one probe attempt that did not produce evidence.
#[derive(Debug, Clone, PartialEq, Eq)]
pub enum AttemptError {
    Retry(Option<u16>),
    Fatal(ServerReadinessError),
}

/// A transport failure is retried; anything else ends the wait.
pub fn attempt_error(error: ServerReadinessError) -> (r: AttemptError)
    ensures
        error is Transport ==> r == AttemptError::Retry(None),
        !(error is Transport) ==> r == AttemptError::Fatal(error),
{
    match error {
        ServerReadinessError::Transport { .. } => AttemptError::Retry(None),
        other => AttemptError::Fatal(other),
    }
}

/// What one health path's answer means.
#[derive(Debug, Clone, PartialEq, Eq)]
pub enum HealthVerdict {
    Healthy,
    Unsupported,
    Failed(AttemptError),
}

/// A 2xx health answer is healthy, 401/403 ends the wait, 404/405 means the
/// path is not served, 5xx is retried, anything else is a rejection.
pub open spec fn health_verdict_of(e: HttpProbeEvidence) -> HealthVerdict {
    let s = e.status_code;
    if 200 <= s <= 299 {
        HealthVerdict::Healthy
    } else if s == 401 || s == 403 {
        HealthVerdict::Failed(AttemptError::Fatal(ServerReadinessError::AuthenticationRejected { phase: ProbePhase::Health, status_code: s }))
    } else if s == 404 || s == 405 {
        HealthVerdict::Unsupported
    } else if 500 <= s <= 599 {
        HealthVerdict::Failed(AttemptError::Retry(Some(s)))
    } else {
        HealthVerdict::Failed(AttemptError::Fatal(ServerReadinessError::HealthRejected { path: e.path, status_code: s }))
    }
}

pub fn health_verdict(evidence: &HttpProbeEvidence) -> (r: HealthVerdict)
    ensures
        r == health_verdict_of(*evidence),
{
    let s = evidence.status_code;
    if 200 <= s && s <= 299 {
        HealthVerdict::Healthy
    } else if s == 401 || s == 403 {
        HealthVerdict::Failed(AttemptError::Fatal(ServerReadinessError::AuthenticationRejected { phase: ProbePhase::Health, status_code: s }))
    } else if s == 404 || s == 405 {
        HealthVerdict::Unsupported
    } else if 500 <= s && s <= 599 {
        HealthVerdict::Failed(AttemptError::Retry(Some(s)))
    } else {
        HealthVerdict::Failed(AttemptError::Fatal(ServerReadinessError::HealthRejected { path: evidence.path.clone(), status_code: s }))
    }
}

/// Whether every marker occurs in the text.
pub open spec fn markers_present(text: Seq<char>, markers: Seq<String>) -> bool {
    forall|k: int| 0 <= k < markers.len() ==> (#[trigger] markers[k])@.len() == 0
        || crate::text::text_match(text, markers[k]@, 0) is Some
}

fn text_has(hay: &[char], needle: &String) -> (r: bool)
    ensures
        r == (needle@.len() == 0 || crate::text::text_match(hay@, needle@, 0) is Some),
{
    let n = crate::text::chars_of_string(needle);
    if n.len() == 0 {
        return true;
    }
    crate::text::find_text(hay, n.as_slice()).is_some()
}

/// A 2xx inference answer must carry every marker; 401/403 ends the wait;
/// 5xx is retried; anything else is a rejection.
pub fn inference_outcome(probe: &InferenceProbe, evidence: HttpProbeEvidence) -> (r: Result<HttpProbeEvidence, AttemptError>)
    ensures
        200 <= evidence.status_code <= 299 && markers_present(evidence.body_excerpt@, probe.success_body_markers@) ==> r == Ok::<HttpProbeEvidence, AttemptError>(evidence),
        200 <= evidence.status_code <= 299 && !markers_present(evidence.body_excerpt@, probe.success_body_markers@) ==>
            (r matches Err(AttemptError::Fatal(ServerReadinessError::InferenceRejected { status_code, reason })) && status_code == Some(evidence.status_code)
            && reason@ == "successful HTTP response lacked required evidence markers"@),
        (evidence.status_code == 401 || evidence.status_code == 403) ==> r == Err::<HttpProbeEvidence, AttemptError>(AttemptError::Fatal(
            ServerReadinessError::AuthenticationRejected { phase: ProbePhase::Inference, status_code: evidence.status_code },
        )),
        500 <= evidence.status_code <= 599 ==> r == Err::<HttpProbeEvidence, AttemptError>(AttemptError::Retry(Some(evidence.status_code))),
        !(200 <= evidence.status_code <= 299 || evidence.status_code == 401 || evidence.status_code == 403 || 500 <= evidence.status_code <= 599) ==>
            (r matches Err(AttemptError::Fatal(ServerReadinessError::InferenceRejected { status_code, reason })) && status_code == Some(evidence.status_code)
            && reason@ == "HTTP "@ + decimal(evidence.status_code as nat) + " from "@ + evidence.path@),
{
    let s = evidence.status_code;
    if 200 <= s && s <= 299 {
        let body = crate::text::chars_of_string(&evidence.body_excerpt);
        let mut all = true;
        let mut k: usize = 0;
        while k < probe.success_body_markers.len()
            invariant
                body@ == evidence.body_excerpt@,
                k <= probe.success_body_markers@.len(),
                all == markers_present(evidence.body_excerpt@, probe.success_body_markers@.subrange(0, k as int)),
            decreases probe.success_body_markers@.len() - k,
        {
            let found = text_has(body.as_slice(), &probe.success_body_markers[k]);
            proof {
                let m = probe.success_body_markers@;
                if !found {
                    assert(m.subrange(0, k + 1)[k as int] == m[k as int]);
                }
                if all && found {
                    assert forall|j: int| 0 <= j < k + 1 implies (#[trigger] m.subrange(0, k + 1)[j])@.len() == 0
                        || crate::text::text_match(evidence.body_excerpt@, m.subrange(0, k + 1)[j]@, 0) is Some by {
                        if j < k {
                            assert(m.subrange(0, k + 1)[j] == m.subrange(0, k as int)[j]);
                        }
                    }
                }
                if !all {
                    let w = choose|j: int| 0 <= j < k && !((#[trigger] m.subrange(0, k as int)[j])@.len() == 0
                        || crate::text::text_match(evidence.body_excerpt@, m.subrange(0, k as int)[j]@, 0) is Some);
                    assert(m.subrange(0, k + 1)[w] == m.subrange(0, k as int)[w]);
                }
            }
            all = all && found;
            k = k + 1;
        }
        assert(probe.success_body_markers@.subrange(0, probe.success_body_markers@.len() as int) =~= probe.success_body_markers@);
        if all {
            Ok(evidence)
        } else {
            Err(AttemptError::Fatal(ServerReadinessError::InferenceRejected {
                status_code: Some(s),
                reason: "successful HTTP response lacked required evidence markers".to_owned(),
            }))
        }
    } else if s == 401 || s == 403 {
        Err(AttemptError::Fatal(ServerReadinessError::AuthenticationRejected { phase: ProbePhase::Inference, status_code: s }))
    } else if 500 <= s && s <= 599 {
        Err(AttemptError::Retry(Some(s)))
    } else {
        let mut out: Vec<char> = Vec::new();
        push_str(&mut out, "HTTP ");
        let d = decimal_chars(s as u64);
        push_chars(&mut out, d.as_slice());
        push_str(&mut out, " from ");
        push_str(&mut out, evidence.path.as_str());
        Err(AttemptError::Fatal(ServerReadinessError::InferenceRejected {
            status_code: Some(s),
            reason: string_from_chars(out.as_slice()),
        }))
    }
}


/// Where a walk over the health paths ends at one path's answer: `None`
/// means this path is not served and the walk goes on (the evidence is
/// kept in `unsupported`).
pub fn health_after_path(unsupported: &mut Vec<HttpProbeEvidence>, evidence: HttpProbeEvidence) -> (r: Option<Result<HealthCapabilityEvidence, AttemptError>>)
    ensures
        match health_verdict_of(evidence) {
            HealthVerdict::Healthy => r == Some(Ok::<HealthCapabilityEvidence, AttemptError>(HealthCapabilityEvidence::Healthy(evidence)))
                && final(unsupported)@ == old(unsupported)@,
            HealthVerdict::Unsupported => r is None && final(unsupported)@ == old(unsupported)@.push(evidence),
            HealthVerdict::Failed(e) => r == Some(Err::<HealthCapabilityEvidence, AttemptError>(e)) && final(unsupported)@ == old(unsupported)@,
        },
{
    match health_verdict(&evidence) {
        HealthVerdict::Healthy => Some(Ok(HealthCapabilityEvidence::Healthy(evidence))),
        HealthVerdict::Unsupported => {
            unsupported.push(evidence);
            None
        },
        HealthVerdict::Failed(e) => Some(Err(e)),
    }
}

/// The pacing and bookkeeping of a readiness wait. Invariant:
/// `1 <= backoff_ms <= max_backoff_ms`.
#[derive(Debug, Clone, PartialEq, Eq)]
pub struct ReadinessWait {
    pub attempts: u32,
    pub backoff_ms: u64,
    pub max_backoff_ms: u64,
    pub last_phase: ProbePhase,
    pub last_status: Option<u16>,
}

impl ReadinessWait {
    pub open spec fn wf(&self) -> bool {
        1 <= self.backoff_ms <= self.max_backoff_ms
    }

    /// Starts a wait: the first pause is the initial backoff (at least 1 ms),
    /// and no pause exceeds the larger of the policy's cap and that.
    pub fn new(policy: &ReadinessPolicy) -> (r: Self)
        ensures
            r.wf(),
            r.attempts == 0,
            r.backoff_ms == if policy.initial_backoff_ms < 1 { 1 } else { policy.initial_backoff_ms },
            r.max_backoff_ms == if policy.max_backoff_ms < r.backoff_ms { r.backoff_ms } else { policy.max_backoff_ms },
            r.last_phase == ProbePhase::Health,
            r.last_status is None,
    {
        let backoff = if policy.initial_backoff_ms < 1 {
            1
        } else {
            policy.initial_backoff_ms
        };
        let max_backoff = if policy.max_backoff_ms < backoff {
            backoff
        } else {
            policy.max_backoff_ms
        };
        ReadinessWait {
            attempts: 0,
            backoff_ms: backoff,
            max_backoff_ms: max_backoff,
            last_phase: ProbePhase::Health,
            last_status: None,
        }
    }

    /// The checks between attempts, in order: cancellation, then the
    /// managed process's exit.
    pub fn check_interrupts(cancelled: bool, process: Result<Option<ProcessExitEvidence>, String>) -> (r: Result<(), ServerReadinessError>)
        ensures
            cancelled ==> r == Err::<(), ServerReadinessError>(ServerReadinessError::Cancelled),
            !cancelled ==> match process {
                Ok(None) => r is Ok,
                Ok(Some(evidence)) => r == Err::<(), ServerReadinessError>(ServerReadinessError::ProcessExited { evidence }),
                Err(message) => r matches Err(ServerReadinessError::Transport { path, message: m }) && path@ == "<process-state>"@ && m == message,
            },
    {
        if cancelled {
            return Err(ServerReadinessError::Cancelled);
        }
        match process {
            Ok(None) => Ok(()),
            Ok(Some(evidence)) => Err(ServerReadinessError::ProcessExited { evidence }),
            Err(message) => Err(ServerReadinessError::Transport { path: "<process-state>".to_owned(), message }),
        }
    }

    /// The checks before an attempt: cancellation, process exit, then the
    /// deadline; an attempt that may go ahead is counted (saturating).
    pub fn begin_attempt(&mut self, cancelled: bool, process: Result<Option<ProcessExitEvidence>, String>, elapsed_ms: u64, timeout_ms: u64) -> (r: Result<(), ServerReadinessError>)
        ensures
            final(self).backoff_ms == old(self).backoff_ms,
            final(self).max_backoff_ms == old(self).max_backoff_ms,
            final(self).last_phase == old(self).last_phase,
            final(self).last_status == old(self).last_status,
            if Self::interrupted(cancelled, process) {
                &&& r matches Err(e) && Self::interrupt_error(e, cancelled, process)
                &&& final(self).attempts == old(self).attempts
            } else {
                if elapsed_ms >= timeout_ms {
                    &&& r == Err::<(), ServerReadinessError>(ServerReadinessError::Timeout {
                        phase: old(self).last_phase,
                        elapsed_ms,
                        last_status: old(self).last_status,
                    })
                    &&& final(self).attempts == old(self).attempts
                } else {
                    &&& r is Ok
                    &&& final(self).attempts == if old(self).attempts == u32::MAX { u32::MAX as int } else { old(self).attempts + 1 }
                }
            },
    {
        match Self::check_interrupts(cancelled, process) {
            Err(e) => {
                return Err(e);
            },
            Ok(()) => {},
        }
        if elapsed_ms >= timeout_ms {
            return Err(ServerReadinessError::Timeout {
                phase: self.last_phase,
                elapsed_ms,
                last_status: self.last_status,
            });
        }
        self.attempts = if self.attempts == u32::MAX {
            u32::MAX
        } else {
            self.attempts + 1
        };
        Ok(())
    }

    /// Whether the interrupt checks stop the wait.
    pub open spec fn interrupted(cancelled: bool, process: Result<Option<ProcessExitEvidence>, String>) -> bool {
        cancelled || !(process matches Ok(None))
    }

    /// The error the interrupt checks report.
    pub open spec fn interrupt_error(e: ServerReadinessError, cancelled: bool, process: Result<Option<ProcessExitEvidence>, String>) -> bool {
        if cancelled {
            e == ServerReadinessError::Cancelled
        } else {
            match process {
                Ok(None) => false,
                Ok(Some(evidence)) => e == (ServerReadinessError::ProcessExited { evidence }),
                Err(message) => e matches ServerReadinessError::Transport { path, message: m } && path@ == "<process-state>"@ && m == message,
            }
        }
    }

    /// Records that the health phase passed and inference is probed next.
    pub fn enter_inference(&mut self)
        ensures
            final(self).last_phase == ProbePhase::Inference,
            final(self).attempts == old(self).attempts,
            final(self).backoff_ms == old(self).backoff_ms,
            final(self).max_backoff_ms == old(self).max_backoff_ms,
            final(self).last_status == old(self).last_status,
    {
        self.last_phase = ProbePhase::Inference;
    }

    /// Records the status of an attempt that will be retried.
    pub fn record_retry(&mut self, status: Option<u16>)
        ensures
            final(self).last_status == status,
            final(self).attempts == old(self).attempts,
            final(self).backoff_ms == old(self).backoff_ms,
            final(self).max_backoff_ms == old(self).max_backoff_ms,
            final(self).last_phase == old(self).last_phase,
    {
        self.last_status = status;
    }

    /// The pause before the next attempt: the backoff, cut to what is left
    /// before the deadline.
    pub fn pause_ms(&self, remaining_ms: u64) -> (r: u64)
        ensures
            remaining_ms == 0 ==> r == 0,
            remaining_ms > 0 ==> r == if self.backoff_ms < remaining_ms { self.backoff_ms } else { remaining_ms },
    {
        if remaining_ms == 0 {
            0
        } else if self.backoff_ms < remaining_ms {
            self.backoff_ms
        } else {
            remaining_ms
        }
    }

    /// Doubles the backoff up to the cap.
    pub fn advance_backoff(&mut self)
        requires
            old(self).wf(),
        ensures
            final(self).wf(),
            final(self).backoff_ms == if 2 * old(self).backoff_ms < old(self).max_backoff_ms {
                2 * old(self).backoff_ms
            } else {
                old(self).max_backoff_ms as int
            },
            final(self).max_backoff_ms == old(self).max_backoff_ms,
            final(self).attempts == old(self).attempts,
            final(self).last_phase == old(self).last_phase,
            final(self).last_status == old(self).last_status,
    {
        let doubled = if self.backoff_ms > u64::MAX / 2 {
            u64::MAX
        } else {
            self.backoff_ms * 2
        };
        self.backoff_ms = if doubled < self.max_backoff_ms {
            doubled
        } else {
            self.max_backoff_ms
        };
    }
}

/// The pause between attempts never exceeds the cap, never falls below one
/// millisecond, and reaches the cap once doubling passes it.
pub proof fn law_backoff_stays_within_cap(w: ReadinessWait, next_backoff: u64)
    requires
        w.wf(),
        next_backoff == if 2 * w.backoff_ms < w.max_backoff_ms { 2 * w.backoff_ms } else { w.max_backoff_ms as int },
    ensures
        1 <= next_backoff <= w.max_backoff_ms,
        w.backoff_ms <= next_backoff,
        2 * w.backoff_ms >= w.max_backoff_ms ==> next_backoff == w.max_backoff_ms,
{
}

/// The evidence a finished wait reports.
pub fn readiness_evidence(endpoint: &ServerEndpoint, health: HealthCapabilityEvidence, inference: HttpProbeEvidence, attempts: u32, elapsed_ms: u64) -> (r: ServerReadinessEvidence)
    ensures
        r.endpoint@ == authority_of(endpoint.host@, endpoint.port),
        r.health == health,
        r.inference == inference,
        r.attempts == attempts,
        r.elapsed_ms == elapsed_ms,
        r.authenticated == endpoint.api_key is Some,
{
    ServerReadinessEvidence {
        endpoint: endpoint.authority(),
        health,
        inference,
        attempts,
        elapsed_ms,
        authenticated: endpoint.api_key.is_some(),
    }
}

} // verus!
