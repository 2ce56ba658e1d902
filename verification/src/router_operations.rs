//! Router mutations (reload, load, unload, preload, switch): the single-flight
//! operation state machine, the checks each step makes on live registries
//! and HTTP replies, and the requests it sends.
use vstd::prelude::*;
use crate::json::{JsonValue, json_document, json_flag, json_get, json_quote, json_escaped, parse_json};
use crate::router::{
    RawHttpResponse, RouterDiscoveryError, RouterModel, RouterModelPhase, RouterRegistry,
    RouterRole, excerpt, excerpt_of,
};
use crate::strings::{clock_unix_ms, decimal, decimal_chars, push_chars, push_str, string_from_chars};

verus! {

/// Largest response body read from a router control endpoint.
pub const MAX_ROUTER_OPERATION_RESPONSE_BYTES: u64 = 2097152;

/// Pause between registry polls while waiting for a model.
pub const POLL_INTERVAL_MS: u64 = 100;

#[derive(Debug, Clone, Copy, PartialEq, Eq, Structural)]
pub enum RouterOperationKind {
    ReloadRegistry,
    Load,
    Unload,
    Preload,
    Switch,
}

/// The verdict of the library's compatibility check for a model.
#[derive(Debug, Clone, Copy, PartialEq, Eq, Structural)]
pub enum CompatibilityStatus {
    Compatible,
    Incompatible,
    Unknown,
}

#[derive(Debug, Clone, PartialEq, Eq)]
pub struct RouterCompatibilityEvidence {
    pub model_id: String,
    pub status: CompatibilityStatus,
    pub reasons: Vec<String>,
}

/// What a finished operation observed.
#[derive(Debug, Clone)]
pub struct RouterOperationEvidence {
    pub kind: RouterOperationKind,
    pub source_model: Option<String>,
    pub target_model: Option<String>,
    pub started_at_unix_ms: u128,
    pub completed_at_unix_ms: u128,
    pub compatibility: Option<RouterCompatibilityEvidence>,
    pub http_statuses: Vec<u16>,
    pub registry: RouterRegistry,
    pub notes: Vec<String>,
}

/// A running operation and its latest step.
#[derive(Debug, Clone)]
pub struct RouterOperationProgress {
    pub kind: RouterOperationKind,
    pub source_model: Option<String>,
    pub target_model: Option<String>,
    pub started_at_unix_ms: u128,
    pub message: String,
    pub last_registry: Option<RouterRegistry>,
}

/// An operation that failed or was cancelled.
#[derive(Debug, Clone)]
pub struct RouterOperationFailure {
    pub kind: RouterOperationKind,
    pub source_model: Option<String>,
    pub target_model: Option<String>,
    pub started_at_unix_ms: u128,
    pub failed_at_unix_ms: u128,
    pub message: String,
    pub last_registry: Option<RouterRegistry>,
}

#[derive(Debug, Clone)]
pub enum RouterOperationState {
    Idle,
    Running(RouterOperationProgress),
    Succeeded(RouterOperationEvidence),
    Failed(RouterOperationFailure),
    Cancelled(RouterOperationFailure),
}

impl Default for RouterOperationState {
    fn default() -> (r: Self)
        ensures
            r is Idle,
    {
        RouterOperationState::Idle
    }
}

/// A cancellation flag shared between the UI and a running operation.
#[derive(Debug, Clone)]
pub struct RouterOperationCancellation {
    cancelled: std::sync::Arc<std::sync::atomic::AtomicBool>,
}

impl RouterOperationCancellation {
    /// A flag that is not set.
    pub fn new() -> Self {
        RouterOperationCancellation {
            cancelled: std::sync::Arc::new(std::sync::atomic::AtomicBool::new(false)),
        }
    }

    /// Sets the flag for every holder of a clone.
    pub fn cancel(&self) {
        self.cancelled.store(true, std::sync::atomic::Ordering::SeqCst);
    }

    /// Clears the flag.
    pub fn reset(&self) {
        self.cancelled.store(false, std::sync::atomic::Ordering::SeqCst);
    }

    /// Whether the flag is set now.
    pub fn is_cancelled(&self) -> bool {
        self.cancelled.load(std::sync::atomic::Ordering::SeqCst)
    }
}

impl Default for RouterOperationCancellation {
    fn default() -> Self {
        RouterOperationCancellation::new()
    }
}

/// Why a router operation failed.
#[derive(Debug, Clone, PartialEq, Eq)]
pub enum RouterOperationError {
    Busy { active: RouterOperationKind },
    StatePoisoned,
    Discovery(RouterDiscoveryError),
    NotRouter,
    ModelNotFound { model: String },
    ModelIdentityUnproven { model: String },
    ModelIdentityAmbiguous { model: String, candidates: Vec<String> },
    LibraryModelMissing { model: String, model_id: String },
    CompatibilityBlocked { model: String, status: CompatibilityStatus, reasons: Vec<String> },
    ModelStore { message: String },
    Transport { path: String, message: String },
    EndpointUnsupported { path: String, status_code: u16 },
    AuthenticationRejected { path: String, status_code: u16 },
    HttpFailure { path: String, status_code: u16, body_excerpt: String },
    ProtocolDrift { path: String, body_excerpt: String },
    Cancelled,
    Timeout { model: String, expected: String, last_phase: String },
    Reconciliation { message: String },
}

/// Runs router operations one at a time and records the latest outcome.
#[derive(Debug, Clone)]
pub struct RouterOperationController {
    pub state: RouterOperationState,
}

/// `state` is `Running` with these fields and no registry yet.
pub open spec fn started(state: RouterOperationState, kind: RouterOperationKind, source: Option<String>, target: Option<String>, at: u128) -> bool {
    state matches RouterOperationState::Running(p) && {
        &&& p.kind == kind
        &&& p.source_model == source
        &&& p.target_model == target
        &&& p.started_at_unix_ms == at
        &&& p.message@ == "operation started"@
        &&& p.last_registry is None
    }
}

/// `failure` records the attempt that `progress` describes.
pub open spec fn failure_of(failure: RouterOperationFailure, progress: RouterOperationProgress, message: Seq<char>) -> bool {
    &&& failure.kind == progress.kind
    &&& failure.source_model == progress.source_model
    &&& failure.target_model == progress.target_model
    &&& failure.started_at_unix_ms == progress.started_at_unix_ms
    &&& failure.message@ == message
    &&& failure.last_registry == progress.last_registry
}

/// How `finish_failure` moves a state.
pub open spec fn failed_from(before: RouterOperationState, after: RouterOperationState, cancelled: bool, message: Seq<char>) -> bool {
    match before {
        RouterOperationState::Running(p) => if cancelled {
            after matches RouterOperationState::Cancelled(f) && failure_of(f, p, message)
        } else {
            after matches RouterOperationState::Failed(f) && failure_of(f, p, message)
        },
        _ => after == before,
    }
}

/// How `progress` moves a state.
pub open spec fn progressed(before: RouterOperationState, after: RouterOperationState, message: String, registry: Option<RouterRegistry>) -> bool {
    match before {
        RouterOperationState::Running(p) => after matches RouterOperationState::Running(q) && {
            &&& q.kind == p.kind
            &&& q.source_model == p.source_model
            &&& q.target_model == p.target_model
            &&& q.started_at_unix_ms == p.started_at_unix_ms
            &&& q.message == message
            &&& q.last_registry == (if registry is Some { registry } else { p.last_registry })
        },
        _ => after == before,
    }
}

impl RouterOperationController {
    pub fn new() -> (r: Self)
        ensures
            r.state is Idle,
    {
        RouterOperationController { state: RouterOperationState::Idle }
    }

    /// The latest state.
    pub fn state(&self) -> (r: &RouterOperationState)
        ensures
            *r == self.state,
    {
        &self.state
    }

    /// Starts an operation unless one is running: a running operation is
    /// never replaced, and the caller learns which kind holds the slot.
    pub fn begin(&mut self, kind: RouterOperationKind, source_model: Option<String>, target_model: Option<String>) -> (r: Result<u128, RouterOperationError>)
        ensures
            old(self).state matches RouterOperationState::Running(p) ==> {
                &&& r == Err::<u128, RouterOperationError>(RouterOperationError::Busy { active: p.kind })
                &&& final(self).state == old(self).state
            },
            !(old(self).state is Running) ==> (r matches Ok(at) && started(final(self).state, kind, source_model, target_model, at)),
    {
        match &self.state {
            RouterOperationState::Running(p) => {
                return Err(RouterOperationError::Busy { active: p.kind });
            },
            _ => {},
        }
        let started_at = clock_unix_ms();
        self.state = RouterOperationState::Running(RouterOperationProgress {
            kind,
            source_model,
            target_model,
            started_at_unix_ms: started_at,
            message: "operation started".to_owned(),
            last_registry: None,
        });
        Ok(started_at)
    }

    /// Records a step of the running operation; other states are left alone.
    pub fn progress(&mut self, message: String, registry: Option<RouterRegistry>)
        ensures
            progressed(old(self).state, final(self).state, message, registry),
    {
        let mut state = RouterOperationState::Idle;
        std::mem::swap(&mut state, &mut self.state);
        self.state = match state {
            RouterOperationState::Running(p) => {
                let last_registry = match registry {
                    Some(r) => Some(r),
                    None => p.last_registry,
                };
                RouterOperationState::Running(RouterOperationProgress {
                    kind: p.kind,
                    source_model: p.source_model,
                    target_model: p.target_model,
                    started_at_unix_ms: p.started_at_unix_ms,
                    message,
                    last_registry,
                })
            },
            other => other,
        };
    }

    /// Records a successful outcome.
    pub fn finish_success(&mut self, evidence: RouterOperationEvidence)
        ensures
            final(self).state == RouterOperationState::Succeeded(evidence),
    {
        self.state = RouterOperationState::Succeeded(evidence);
    }

    /// Ends the running operation as failed or cancelled, keeping what it
    /// had recorded; a state that is not running is left alone.
    pub fn finish_failure(&mut self, cancelled: bool, message: String)
        ensures
            failed_from(old(self).state, final(self).state, cancelled, message@),
    {
        let mut state = RouterOperationState::Idle;
        std::mem::swap(&mut state, &mut self.state);
        self.state = match state {
            RouterOperationState::Running(p) => {
                let failure = RouterOperationFailure {
                    kind: p.kind,
                    source_model: p.source_model,
                    target_model: p.target_model,
                    started_at_unix_ms: p.started_at_unix_ms,
                    failed_at_unix_ms: clock_unix_ms(),
                    message,
                    last_registry: p.last_registry,
                };
                if cancelled {
                    RouterOperationState::Cancelled(failure)
                } else {
                    RouterOperationState::Failed(failure)
                }
            },
            other => other,
        };
    }

    /// Records how an operation ended: success is recorded with its
    /// evidence, cancellation as cancelled, anything else as failed with
    /// `failure_message` (the error's display text). The error, if any, is
    /// handed back; the evidence stays in the state.
    pub fn finish(&mut self, result: Result<RouterOperationEvidence, RouterOperationError>, failure_message: String) -> (r: Result<(), RouterOperationError>)
        ensures
            match result {
                Ok(_) => r is Ok,
                Err(e) => r == Err::<(), RouterOperationError>(e),
            },
            match result {
                Ok(evidence) => final(self).state == RouterOperationState::Succeeded(evidence),
                Err(RouterOperationError::Cancelled) => failed_from(old(self).state, final(self).state, true, "operation cancelled"@),
                Err(_) => failed_from(old(self).state, final(self).state, false, failure_message@),
            },
    {
        match result {
            Ok(evidence) => {
                self.finish_success(evidence);
                Ok(())
            },
            Err(RouterOperationError::Cancelled) => {
                self.finish_failure(true, "operation cancelled".to_owned());
                Err(RouterOperationError::Cancelled)
            },
            Err(error) => {
                self.finish_failure(false, failure_message);
                Err(error)
            },
        }
    }
}


/// Single flight: once an operation has started, every further start is
/// refused until it ends, and steps recorded in between keep its identity.
pub proof fn law_running_operation_keeps_its_identity(s0: RouterOperationState, s1: RouterOperationState, kind: RouterOperationKind, source: Option<String>, target: Option<String>, at: u128, message: String, registry: Option<RouterRegistry>)
    requires
        started(s0, kind, source, target, at),
        progressed(s0, s1, message, registry),
    ensures
        s1 matches RouterOperationState::Running(p) && p.kind == kind && p.source_model == source
            && p.target_model == target && p.started_at_unix_ms == at,
{
}

/// A failed or cancelled operation is recorded with the kind, models, start
/// time and last registry of the attempt that was running.
pub proof fn law_failure_records_the_running_attempt(s0: RouterOperationState, s1: RouterOperationState, s2: RouterOperationState, kind: RouterOperationKind, source: Option<String>, target: Option<String>, at: u128, message: String, registry: Option<RouterRegistry>, cancelled: bool, reason: Seq<char>)
    requires
        started(s0, kind, source, target, at),
        progressed(s0, s1, message, registry),
        failed_from(s1, s2, cancelled, reason),
    ensures
        cancelled ==> s2 is Cancelled,
        !cancelled ==> s2 is Failed,
        match s2 {
            RouterOperationState::Cancelled(f) => f.kind == kind && f.source_model == source && f.target_model == target
                && f.started_at_unix_ms == at && f.message@ == reason && f.last_registry == registry,
            RouterOperationState::Failed(f) => f.kind == kind && f.source_model == source && f.target_model == target
                && f.started_at_unix_ms == at && f.message@ == reason && f.last_registry == registry,
            _ => false,
        },
{
}

/// Ending a state that is not running changes nothing.
pub proof fn law_only_running_operations_end(s0: RouterOperationState, s1: RouterOperationState, cancelled: bool, reason: Seq<char>)
    requires
        !(s0 is Running),
        failed_from(s0, s1, cancelled, reason),
    ensures
        s1 == s0,
{
}


/// A phase in which the model answers requests.
pub open spec fn phase_ready(p: RouterModelPhase) -> bool {
    p is Loaded || p is Sleeping
}

/// A phase in which the model holds or is taking router resources.
pub open spec fn phase_running(p: RouterModelPhase) -> bool {
    p is Downloading || p is Loading || p is Loaded || p is Sleeping
}

pub fn is_ready(phase: &RouterModelPhase) -> (r: bool)
    ensures
        r == phase_ready(*phase),
{
    match phase {
        RouterModelPhase::Loaded | RouterModelPhase::Sleeping => true,
        _ => false,
    }
}

pub fn is_running(phase: &RouterModelPhase) -> (r: bool)
    ensures
        r == phase_running(*phase),
{
    match phase {
        RouterModelPhase::Downloading | RouterModelPhase::Loading | RouterModelPhase::Loaded
        | RouterModelPhase::Sleeping => true,
        _ => false,
    }
}

/// Operations need a router, not a single-model server.
pub fn require_router(registry: &RouterRegistry) -> (r: Result<(), RouterOperationError>)
    ensures
        r is Ok <==> registry.role == RouterRole::Router,
        r is Err ==> r == Err::<(), RouterOperationError>(RouterOperationError::NotRouter),
{
    if registry.role == RouterRole::Router {
        Ok(())
    } else {
        Err(RouterOperationError::NotRouter)
    }
}

/// Whether a model answers to `name`, by id or by a routing target.
pub open spec fn answers_to(m: RouterModel, name: Seq<char>) -> bool {
    m.id@ == name || exists|k: int| 0 <= k < m.routing_targets@.len() && #[trigger] m.routing_targets@[k]@ == name
}

/// The first model from index `i` on that answers to `name`.
pub open spec fn model_named(models: Seq<RouterModel>, name: Seq<char>, i: int) -> Option<int>
    decreases models.len() - i,
{
    if i < 0 || i >= models.len() {
        None
    } else if answers_to(models[i], name) {
        Some(i)
    } else {
        model_named(models, name, i + 1)
    }
}

fn answers(m: &RouterModel, name: &str) -> (r: bool)
    ensures
        r == answers_to(*m, name@),
{
    let owned = name.to_owned();
    if m.id == owned {
        return true;
    }
    let mut k: usize = 0;
    while k < m.routing_targets.len()
        invariant
            owned@ == name@,
            m.id@ != name@,
            k <= m.routing_targets@.len(),
            forall|j: int| 0 <= j < k ==> m.routing_targets@[j]@ != name@,
        decreases m.routing_targets@.len() - k,
    {
        if m.routing_targets[k] == owned {
            return true;
        }
        k = k + 1;
    }
    false
}

/// The live model that an operation targets.
pub fn registry_model<'a>(registry: &'a RouterRegistry, model_id: &str) -> (r: Result<&'a RouterModel, RouterOperationError>)
    ensures
        match model_named(registry.models@, model_id@, 0) {
            Some(i) => r matches Ok(m) && *m == registry.models@[i],
            None => r matches Err(RouterOperationError::ModelNotFound { model }) && model@ == model_id@,
        },
{
    let mut i: usize = 0;
    while i < registry.models.len()
        invariant
            i <= registry.models@.len(),
            model_named(registry.models@, model_id@, 0) == model_named(registry.models@, model_id@, i as int),
        decreases registry.models@.len() - i,
    {
        if answers(&registry.models[i], model_id) {
            return Ok(&registry.models[i]);
        }
        i = i + 1;
    }
    Err(RouterOperationError::ModelNotFound { model: model_id.to_owned() })
}

/// The outcome of a cancellation check that read `flag`.
pub fn cancelled_outcome(flag: bool) -> (r: Result<(), RouterOperationError>)
    ensures
        flag ==> r == Err::<(), RouterOperationError>(RouterOperationError::Cancelled),
        !flag ==> r is Ok,
{
    if flag {
        Err(RouterOperationError::Cancelled)
    } else {
        Ok(())
    }
}

/// Fails with `Cancelled` when the flag was set at the moment it was read.
pub fn cancelled(cancellation: &RouterOperationCancellation) -> (r: Result<(), RouterOperationError>)
    ensures
        r is Err ==> r == Err::<(), RouterOperationError>(RouterOperationError::Cancelled),
{
    let flag = cancellation.is_cancelled();
    cancelled_outcome(flag)
}

/// How a control endpoint's status code is judged.
pub open spec fn mutation_status_ok(status: u16) -> bool {
    200 <= status <= 299
}

/// The error a non-2xx control reply gives.
pub open spec fn mutation_error_holds(e: RouterOperationError, path: Seq<char>, status: u16, body: Seq<char>) -> bool {
    if status == 401 || status == 403 {
        e matches RouterOperationError::AuthenticationRejected { path: p, status_code } && p@ == path && status_code == status
    } else if status == 404 || status == 405 {
        e matches RouterOperationError::EndpointUnsupported { path: p, status_code } && p@ == path && status_code == status
    } else {
        e matches RouterOperationError::HttpFailure { path: p, status_code, body_excerpt } && p@ == path && status_code == status
            && body_excerpt@ == excerpt_of(body)
    }
}

/// Accepts a 2xx control reply and classifies any other status.
pub fn ensure_mutation_success(path: &str, response: &RawHttpResponse) -> (r: Result<(), RouterOperationError>)
    ensures
        mutation_status_ok(response.status_code) ==> r is Ok,
        !mutation_status_ok(response.status_code) ==> (r matches Err(e) && mutation_error_holds(e, path@, response.status_code, response.body@)),
{
    let status = response.status_code;
    if 200 <= status && status <= 299 {
        Ok(())
    } else if status == 401 || status == 403 {
        Err(RouterOperationError::AuthenticationRejected { path: path.to_owned(), status_code: status })
    } else if status == 404 || status == 405 {
        Err(RouterOperationError::EndpointUnsupported { path: path.to_owned(), status_code: status })
    } else {
        Err(RouterOperationError::HttpFailure {
            path: path.to_owned(),
            status_code: status,
            body_excerpt: excerpt(response.body.as_str()),
        })
    }
}

/// Whether a control reply body is JSON with `"success": true`.
pub open spec fn reports_success(body: Seq<char>) -> bool {
    json_document(body) matches Ok(v) && json_flag(json_get(v, "success"@)) == Some(true)
}

/// Accepts a 2xx control reply whose body reports `{"success": true}`.
pub fn ensure_success_json(path: &str, response: &RawHttpResponse) -> (r: Result<(), RouterOperationError>)
    ensures
        !mutation_status_ok(response.status_code) ==> (r matches Err(e) && mutation_error_holds(e, path@, response.status_code, response.body@)),
        mutation_status_ok(response.status_code) ==> {
            &&& reports_success(response.body@) ==> r is Ok
            &&& !reports_success(response.body@) ==> (r matches Err(RouterOperationError::ProtocolDrift { path: p, body_excerpt })
                && p@ == path@ && body_excerpt@ == excerpt_of(response.body@))
        },
{
    match ensure_mutation_success(path, response) {
        Err(e) => {
            return Err(e);
        },
        Ok(()) => {},
    }
    let drift = RouterOperationError::ProtocolDrift {
        path: path.to_owned(),
        body_excerpt: excerpt(response.body.as_str()),
    };
    match parse_json(response.body.as_str()) {
        Err(_) => Err(drift),
        Ok(v) => {
            let ok = match v.get("success") {
                Some(x) => match x.as_bool() {
                    Some(b) => b,
                    None => false,
                },
                None => false,
            };
            if ok {
                Ok(())
            } else {
                Err(drift)
            }
        },
    }
}

/// The JSON body of a load or unload request: `{"model":<name>}`.
pub open spec fn model_body(model: Seq<char>) -> Seq<char> {
    "{\"model\":"@ + seq!['"'] + json_escaped(model) + seq!['"'] + "}"@
}

/// Renders `{"model": model}` as `serde_json` does.
pub fn model_request_body(model: &str) -> (r: String)
    ensures
        r@ == model_body(model@),
{
    let mut out: Vec<char> = Vec::new();
    push_str(&mut out, "{\"model\":");
    let quoted = json_quote(model);
    push_str(&mut out, quoted.as_str());
    push_str(&mut out, "}");
    assert(out@ =~= model_body(model@));
    string_from_chars(out.as_slice())
}

/// A discovery failure inside an operation.
pub fn discovery_failed(error: RouterDiscoveryError) -> (r: RouterOperationError)
    ensures
        r == RouterOperationError::Discovery(error),
{
    RouterOperationError::Discovery(error)
}

/// A transport failure while reading a control reply.
pub fn operation_transport(error: RouterDiscoveryError) -> (r: RouterOperationError)
    ensures
        match error {
            RouterDiscoveryError::Transport { path, message } => r == RouterOperationError::Transport { path, message },
            _ => r == RouterOperationError::Discovery(error),
        },
{
    match error {
        RouterDiscoveryError::Transport { path, message } => RouterOperationError::Transport { path, message },
        other => RouterOperationError::Discovery(other),
    }
}

/// A control request may go out only to a resolved target and, without the
/// endpoint's opt-in, only to loopback addresses.
pub fn check_operation_addresses(path: &str, address_count: usize, any_non_loopback: bool, allow_non_loopback: bool) -> (r: Result<(), RouterOperationError>)
    ensures
        address_count == 0 ==> (r matches Err(RouterOperationError::Transport { path: p, message }) && p@ == path@
            && message@ == "host resolved to no addresses"@),
        address_count > 0 && any_non_loopback && !allow_non_loopback ==> (r matches Err(RouterOperationError::Transport { path: p, message })
            && p@ == path@ && message@ == "non-loopback router target requires explicit opt-in"@),
        address_count > 0 && !(any_non_loopback && !allow_non_loopback) ==> r is Ok,
{
    if address_count == 0 {
        return Err(RouterOperationError::Transport {
            path: path.to_owned(),
            message: "host resolved to no addresses".to_owned(),
        });
    }
    if any_non_loopback && !allow_non_loopback {
        return Err(RouterOperationError::Transport {
            path: path.to_owned(),
            message: "non-loopback router target requires explicit opt-in".to_owned(),
        });
    }
    Ok(())
}

/// A model of the library as router operations see it.
#[derive(Debug, Clone, PartialEq, Eq)]
pub struct LibraryModelRecord {
    pub id: String,
    pub path: String,
    pub sha256: String,
}

/// Whether a library record is the router model: the same path, the same
/// SHA-256 ignoring ASCII case, or a launch argument that names its path.
pub open spec fn record_matches(m: RouterModel, rec: LibraryModelRecord) -> bool {
    ||| (m.path matches Some(p) && p@ == rec.path@)
    ||| (m.sha256 matches Some(h) && crate::text::eq_ignore_ascii_case(h@, rec.sha256@))
    ||| exists|k: int| 0 <= k < m.status.args@.len() && (#[trigger] m.status.args@[k])@ == rec.path@
}

/// The positions, in order, of the first `n` records that match.
pub open spec fn matching_positions(m: RouterModel, recs: Seq<LibraryModelRecord>, n: int) -> Seq<int>
    decreases n,
{
    if n <= 0 {
        Seq::empty()
    } else if record_matches(m, recs[n - 1]) {
        matching_positions(m, recs, n - 1).push(n - 1)
    } else {
        matching_positions(m, recs, n - 1)
    }
}

fn has_arg(args: &Vec<String>, path: &String) -> (r: bool)
    ensures
        r == exists|k: int| 0 <= k < args@.len() && (#[trigger] args@[k])@ == path@,
{
    let mut k: usize = 0;
    while k < args.len()
        invariant
            k <= args@.len(),
            forall|j: int| 0 <= j < k ==> (#[trigger] args@[j])@ != path@,
        decreases args@.len() - k,
    {
        if args[k] == *path {
            return true;
        }
        k = k + 1;
    }
    false
}

fn record_matches_exec(m: &RouterModel, rec: &LibraryModelRecord) -> (r: bool)
    ensures
        r == record_matches(*m, *rec),
{
    let by_path = match &m.path {
        Some(p) => *p == rec.path,
        None => false,
    };
    let by_sha = match &m.sha256 {
        Some(h) => {
            let a = crate::text::chars_of_string(h);
            let b = crate::text::chars_of_string(&rec.sha256);
            crate::text::eq_ignore_ascii_case_exec(a.as_slice(), b.as_slice())
        },
        None => false,
    };
    by_path || by_sha || has_arg(&m.status.args, &rec.path)
}

/// The library record a router model is, found by exact evidence alone:
/// no match leaves the identity unproven, several are refused as ambiguous.
pub fn resolve_by_evidence(router_model: &RouterModel, records: &Vec<LibraryModelRecord>) -> (r: Result<usize, RouterOperationError>)
    ensures
        ({
            let pos = matching_positions(*router_model, records@, records@.len() as int);
            &&& pos.len() == 0 ==> (r matches Err(RouterOperationError::ModelIdentityUnproven { model }) && model@ == router_model.id@)
            &&& pos.len() == 1 ==> r == Ok::<usize, RouterOperationError>(pos[0] as usize)
            &&& pos.len() > 1 ==> (r matches Err(RouterOperationError::ModelIdentityAmbiguous { model, candidates })
                && model@ == router_model.id@ && candidates@.len() == pos.len()
                && forall|k: int| 0 <= k < pos.len() ==> (#[trigger] candidates@[k])@ == records@[pos[k]].id@)
        }),
{
    let mut found: Vec<usize> = Vec::new();
    let mut i: usize = 0;
    while i < records.len()
        invariant
            i <= records@.len(),
            found@.len() == matching_positions(*router_model, records@, i as int).len(),
            forall|k: int| 0 <= k < found@.len() ==> found@[k] as int == #[trigger] matching_positions(*router_model, records@, i as int)[k],
            forall|k: int| 0 <= k < found@.len() ==> found@[k] < i,
        decreases records@.len() - i,
    {
        if record_matches_exec(&router_model, &records[i]) {
            found.push(i);
        }
        i = i + 1;
    }
    let ghost pos = matching_positions(*router_model, records@, records@.len() as int);
    if found.len() == 0 {
        return Err(RouterOperationError::ModelIdentityUnproven { model: router_model.id.clone() });
    }
    if found.len() == 1 {
        return Ok(found[0]);
    }
    let mut candidates: Vec<String> = Vec::new();
    let mut k: usize = 0;
    while k < found.len()
        invariant
            k <= found@.len(),
            found@.len() == pos.len(),
            forall|j: int| 0 <= j < found@.len() ==> found@[j] as int == #[trigger] pos[j],
            forall|j: int| 0 <= j < found@.len() ==> found@[j] < records@.len(),
            candidates@.len() == k,
            forall|j: int| 0 <= j < k ==> (#[trigger] candidates@[j])@ == records@[pos[j]].id@,
        decreases found@.len() - k,
    {
        candidates.push(records[found[k]].id.clone());
        k = k + 1;
    }
    Err(RouterOperationError::ModelIdentityAmbiguous { model: router_model.id.clone(), candidates })
}

/// The reasons a compatibility check gives, each as `code: message`.
pub open spec fn reason_texts(reasons: Seq<(String, String)>) -> Seq<Seq<char>> {
    reasons.map_values(|p: (String, String)| p.0@ + ": "@ + p.1@)
}

/// Only a compatible model may be loaded: an incompatible or unknown verdict
/// blocks the operation with its reasons.
pub fn compatibility_gate(router_model_id: &str, model_id: String, status: CompatibilityStatus, reasons: &Vec<(String, String)>) -> (r: Result<RouterCompatibilityEvidence, RouterOperationError>)
    ensures
        status == CompatibilityStatus::Compatible ==> (r matches Ok(e) && e.model_id == model_id && e.status == status
            && e.reasons@.map_values(|s: String| s@) == reason_texts(reasons@)),
        status != CompatibilityStatus::Compatible ==> (r matches Err(RouterOperationError::CompatibilityBlocked { model, status: st, reasons: rs })
            && model@ == router_model_id@ && st == status && rs@.map_values(|s: String| s@) == reason_texts(reasons@)),
{
    let mut texts: Vec<String> = Vec::new();
    let mut i: usize = 0;
    while i < reasons.len()
        invariant
            i <= reasons@.len(),
            texts@.map_values(|s: String| s@) == reason_texts(reasons@.subrange(0, i as int)),
        decreases reasons@.len() - i,
    {
        let mut out: Vec<char> = Vec::new();
        push_str(&mut out, reasons[i].0.as_str());
        push_str(&mut out, ": ");
        push_str(&mut out, reasons[i].1.as_str());
        let t = string_from_chars(out.as_slice());
        let ghost before = texts@;
        proof {
            let f = |p: (String, String)| p.0@ + ": "@ + p.1@;
            assert(t@ == f(reasons@[i as int]));
            assert(reasons@.subrange(0, i + 1) =~= reasons@.subrange(0, i as int).push(reasons@[i as int]));
            assert(reasons@.subrange(0, i + 1).map_values(f) =~= reasons@.subrange(0, i as int).map_values(f).push(
                f(reasons@[i as int]),
            ));
        }
        texts.push(t);
        assert(texts@.map_values(|s: String| s@) =~= before.map_values(|s: String| s@).push(t@));
        i = i + 1;
    }
    assert(reasons@.subrange(0, reasons@.len() as int) =~= reasons@);
    match status {
        CompatibilityStatus::Compatible => Ok(RouterCompatibilityEvidence { model_id, status, reasons: texts }),
        _ => Err(RouterOperationError::CompatibilityBlocked { model: router_model_id.to_owned(), status, reasons: texts }),
    }
}

/// What a load-like operation does with its target: nothing when it is
/// already ready and healthy, else it sends a load request.
pub open spec fn load_needed(target: RouterModel) -> bool {
    !(phase_ready(target.status.phase) && !target.status.failed)
}

pub fn needs_load(target: &RouterModel) -> (r: bool)
    ensures
        r == load_needed(*target),
{
    !(is_ready(&target.status.phase) && !target.status.failed)
}

/// What an unload does: nothing when the target is already unloaded.
pub fn needs_unload(target: &RouterModel) -> (r: bool)
    ensures
        r == !(target.status.phase is Unloaded),
{
    match target.status.phase {
        RouterModelPhase::Unloaded => false,
        _ => true,
    }
}

/// The first model from index `i` on whose id is exactly `id`.
pub open spec fn model_with_id(models: Seq<RouterModel>, id: Seq<char>, i: int) -> Option<int>
    decreases models.len() - i,
{
    if i < 0 || i >= models.len() {
        None
    } else if models[i].id@ == id {
        Some(i)
    } else {
        model_with_id(models, id, i + 1)
    }
}

/// Whether a switch must still unload its source: the source differs from
/// the target and the registry shows it running.
pub open spec fn source_unload_needed(registry: RouterRegistry, source: Seq<char>, target: Seq<char>) -> bool {
    source != target && match model_with_id(registry.models@, source, 0) {
        Some(i) => phase_running(registry.models@[i].status.phase),
        None => false,
    }
}

pub fn needs_source_unload(registry: &RouterRegistry, source: &str, target: &str) -> (r: bool)
    ensures
        r == source_unload_needed(*registry, source@, target@),
{
    if crate::router::str_is(source, target) {
        return false;
    }
    let owned = source.to_owned();
    let mut i: usize = 0;
    while i < registry.models.len()
        invariant
            owned@ == source@,
            source@ != target@,
            i <= registry.models@.len(),
            model_with_id(registry.models@, source@, 0) == model_with_id(registry.models@, source@, i as int),
        decreases registry.models@.len() - i,
    {
        if registry.models[i].id == owned {
            return is_running(&registry.models[i].status.phase);
        }
        i = i + 1;
    }
    false
}


/// What `{:?}` writes for a phase.
pub open spec fn phase_debug(p: RouterModelPhase) -> Seq<char> {
    match p {
        RouterModelPhase::Unloaded => "Unloaded"@,
        RouterModelPhase::Downloading => "Downloading"@,
        RouterModelPhase::Loading => "Loading"@,
        RouterModelPhase::Loaded => "Loaded"@,
        RouterModelPhase::Sleeping => "Sleeping"@,
        RouterModelPhase::Unknown(s) => "Unknown("@ + crate::strings::debug_quoted(s@) + ")"@,
    }
}

/// Renders a phase as `{:?}` does.
pub fn phase_debug_text(p: &RouterModelPhase) -> (r: String)
    ensures
        r@ == phase_debug(*p),
{
    match p {
        RouterModelPhase::Unloaded => "Unloaded".to_owned(),
        RouterModelPhase::Downloading => "Downloading".to_owned(),
        RouterModelPhase::Loading => "Loading".to_owned(),
        RouterModelPhase::Loaded => "Loaded".to_owned(),
        RouterModelPhase::Sleeping => "Sleeping".to_owned(),
        RouterModelPhase::Unknown(s) => {
            let mut out: Vec<char> = Vec::new();
            push_str(&mut out, "Unknown(");
            let q = crate::strings::debug_str(s.as_str());
            push_str(&mut out, q.as_str());
            push_str(&mut out, ")");
            string_from_chars(out.as_slice())
        },
    }
}

/// What `{:?}` writes for an optional exit code.
pub open spec fn exit_code_debug(c: Option<i64>) -> Seq<char> {
    match c {
        None => "None"@,
        Some(v) => "Some("@ + crate::strings::signed_decimal(v as int) + ")"@,
    }
}

fn exit_code_debug_text(c: Option<i64>) -> (r: Vec<char>)
    ensures
        r@ == exit_code_debug(c),
{
    match c {
        None => {
            let mut out: Vec<char> = Vec::new();
            push_str(&mut out, "None");
            out
        },
        Some(v) => {
            let mut out: Vec<char> = Vec::new();
            push_str(&mut out, "Some(");
            let d = crate::strings::signed_decimal_chars(v);
            push_chars(&mut out, d.as_slice());
            push_str(&mut out, ")");
            out
        },
    }
}

/// One poll of a wait for a model: keep polling, or the phase was reached.
#[derive(Debug, Clone, Copy, PartialEq, Eq, Structural)]
pub enum WaitStep {
    Reached,
    Continue,
}

/// The progress line recorded at each poll.
pub open spec fn wait_progress(model_id: Seq<char>, phase: RouterModelPhase, expected: Seq<char>) -> Seq<char> {
    model_id + ": observed "@ + phase_debug(phase) + "; waiting for "@ + expected
}

pub fn wait_progress_message(model_id: &str, phase: &RouterModelPhase, expected: &str) -> (r: String)
    ensures
        r@ == wait_progress(model_id@, *phase, expected@),
{
    let mut out: Vec<char> = Vec::new();
    push_str(&mut out, model_id);
    push_str(&mut out, ": observed ");
    let p = phase_debug_text(phase);
    push_str(&mut out, p.as_str());
    push_str(&mut out, "; waiting for ");
    push_str(&mut out, expected);
    string_from_chars(out.as_slice())
}

/// The decision after one poll of a model, in the order the wait checks:
/// a failed model ends the wait, then reaching the phase, then the deadline.
pub fn wait_step(model_id: &str, model: &RouterModel, reached: bool, deadline_passed: bool, expected: &str) -> (r: Result<WaitStep, RouterOperationError>)
    ensures
        model.status.failed ==> (r matches Err(RouterOperationError::Reconciliation { message }) && message@
            == "router model "@ + model_id@ + " entered failed state while waiting for "@ + expected@
            + "; exit_code="@ + exit_code_debug(model.status.exit_code)),
        !model.status.failed && reached ==> r == Ok::<WaitStep, RouterOperationError>(WaitStep::Reached),
        !model.status.failed && !reached && deadline_passed ==> (r matches Err(RouterOperationError::Timeout { model: m, expected: e, last_phase })
            && m@ == model_id@ && e@ == expected@ && last_phase@ == phase_debug(model.status.phase)),
        !model.status.failed && !reached && !deadline_passed ==> r == Ok::<WaitStep, RouterOperationError>(WaitStep::Continue),
{
    if model.status.failed {
        let mut out: Vec<char> = Vec::new();
        push_str(&mut out, "router model ");
        push_str(&mut out, model_id);
        push_str(&mut out, " entered failed state while waiting for ");
        push_str(&mut out, expected);
        push_str(&mut out, "; exit_code=");
        let c = exit_code_debug_text(model.status.exit_code);
        push_chars(&mut out, c.as_slice());
        return Err(RouterOperationError::Reconciliation { message: string_from_chars(out.as_slice()) });
    }
    if reached {
        return Ok(WaitStep::Reached);
    }
    if deadline_passed {
        return Err(RouterOperationError::Timeout {
            model: model_id.to_owned(),
            expected: expected.to_owned(),
            last_phase: phase_debug_text(&model.status.phase),
        });
    }
    Ok(WaitStep::Continue)
}

/// A switch succeeds only if its target is left ready and healthy.
pub fn check_switch_target(registry: &RouterRegistry, target_model: &str) -> (r: Result<(), RouterOperationError>)
    ensures
        match model_named(registry.models@, target_model@, 0) {
            None => r matches Err(RouterOperationError::ModelNotFound { model }) && model@ == target_model@,
            Some(i) => {
                let m = registry.models@[i];
                if phase_ready(m.status.phase) && !m.status.failed {
                    r is Ok
                } else {
                    r matches Err(RouterOperationError::Reconciliation { message }) && message@
                        == "switch did not leave target "@ + target_model@ + " ready; observed "@
                        + phase_debug(m.status.phase) + ", failed="@ + (if m.status.failed { "true"@ } else { "false"@ })
                }
            },
        },
{
    let target = match registry_model(registry, target_model) {
        Ok(t) => t,
        Err(e) => {
            return Err(e);
        },
    };
    if is_ready(&target.status.phase) && !target.status.failed {
        return Ok(());
    }
    let mut out: Vec<char> = Vec::new();
    push_str(&mut out, "switch did not leave target ");
    push_str(&mut out, target_model);
    push_str(&mut out, " ready; observed ");
    let p = phase_debug_text(&target.status.phase);
    push_str(&mut out, p.as_str());
    push_str(&mut out, ", failed=");
    if target.status.failed {
        push_str(&mut out, "true");
    } else {
        push_str(&mut out, "false");
    }
    Err(RouterOperationError::Reconciliation { message: string_from_chars(out.as_slice()) })
}

/// How far a switch has come.
#[derive(Debug, Clone, Copy, PartialEq, Eq, Structural)]
pub enum SwitchStage {
    /// The target passed its compatibility check on the first registry read.
    TargetChecked,
    /// The target is ready: it already was, or its load was confirmed.
    TargetReady,
    /// The source unload was confirmed, or none was needed.
    SourceReleased,
}

/// What a switch does next.
#[derive(Debug, Clone, Copy, PartialEq, Eq, Structural)]
pub enum SwitchAction {
    /// Send a load request for the target, then wait until it is ready.
    LoadTarget,
    /// Send an unload request for the source, then wait until it is unloaded.
    UnloadSource,
    /// Check that the target is left ready and healthy, and report.
    VerifyTarget,
}

/// The order of the stages.
pub open spec fn stage_rank(s: SwitchStage) -> int {
    match s {
        SwitchStage::TargetChecked => 0,
        SwitchStage::TargetReady => 1,
        SwitchStage::SourceReleased => 2,
    }
}

/// The step a switch takes from `stage`, given the latest registry: the
/// stage it reaches once the action is done, and the action. At the first
/// stage the target must be in the registry (`None` otherwise); a target
/// that is not ready is loaded first; then a source still running is
/// unloaded; then the target is verified.
pub open spec fn switch_transition(
    stage: SwitchStage,
    registry: RouterRegistry,
    source: Seq<char>,
    target: Seq<char>,
) -> Option<(SwitchStage, SwitchAction)> {
    let after_target = if source_unload_needed(registry, source, target) {
        (SwitchStage::SourceReleased, SwitchAction::UnloadSource)
    } else {
        (SwitchStage::SourceReleased, SwitchAction::VerifyTarget)
    };
    match stage {
        SwitchStage::TargetChecked => match model_named(registry.models@, target, 0) {
            None => None,
            Some(i) => if !phase_ready(registry.models@[i].status.phase) {
                Some((SwitchStage::TargetReady, SwitchAction::LoadTarget))
            } else {
                Some(after_target)
            },
        },
        SwitchStage::TargetReady => Some(after_target),
        SwitchStage::SourceReleased => Some((SwitchStage::SourceReleased, SwitchAction::VerifyTarget)),
    }
}

/// One step of a switch from `stage`, with the registry read last (after
/// the wait that ended the previous action, if any): see
/// `switch_transition`; a target missing at the first stage is an error.
pub fn switch_step(stage: SwitchStage, registry: &RouterRegistry, source_model: &str, target_model: &str) -> (r: Result<
    (SwitchStage, SwitchAction),
    RouterOperationError,
>)
    ensures
        match switch_transition(stage, *registry, source_model@, target_model@) {
            Some(step) => r == Ok::<(SwitchStage, SwitchAction), RouterOperationError>(step),
            None => r matches Err(RouterOperationError::ModelNotFound { model }) && model@ == target_model@,
        },
{
    match stage {
        SwitchStage::TargetChecked => {
            let target = match registry_model(registry, target_model) {
                Ok(t) => t,
                Err(e) => {
                    return Err(e);
                },
            };
            if !is_ready(&target.status.phase) {
                return Ok((SwitchStage::TargetReady, SwitchAction::LoadTarget));
            }
        },
        SwitchStage::TargetReady => {},
        SwitchStage::SourceReleased => {
            return Ok((SwitchStage::SourceReleased, SwitchAction::VerifyTarget));
        },
    }
    if needs_source_unload(registry, source_model, target_model) {
        Ok((SwitchStage::SourceReleased, SwitchAction::UnloadSource))
    } else {
        Ok((SwitchStage::SourceReleased, SwitchAction::VerifyTarget))
    }
}

/// A switch never asks to unload its source before its target is ready:
/// the unload comes either after the target's load was confirmed, or at the
/// first step when the registry already shows the target ready. A load is
/// asked only at the first step, for a target that is not ready.
pub proof fn law_switch_readies_target_before_unloading_source(
    stage: SwitchStage,
    registry: RouterRegistry,
    source: Seq<char>,
    target: Seq<char>,
)
    ensures
        switch_transition(stage, registry, source, target) matches Some((_, SwitchAction::UnloadSource)) ==> {
            ||| stage == SwitchStage::TargetReady
            ||| stage == SwitchStage::TargetChecked && (model_named(registry.models@, target, 0) matches Some(i)
                && phase_ready(registry.models@[i].status.phase))
        },
        switch_transition(stage, registry, source, target) matches Some((_, SwitchAction::LoadTarget)) ==> {
            &&& stage == SwitchStage::TargetChecked
            &&& model_named(registry.models@, target, 0) matches Some(i) && !phase_ready(registry.models@[i].status.phase)
        },
        switch_transition(stage, registry, source, target) matches Some((_, SwitchAction::UnloadSource)) ==> source != target,
{
}

/// A switch moves forward: every request it asks for leads to a later
/// stage, so it sends at most one load and one unload, and from the last
/// stage it only verifies.
pub proof fn law_switch_moves_forward(
    stage: SwitchStage,
    registry: RouterRegistry,
    source: Seq<char>,
    target: Seq<char>,
)
    ensures
        switch_transition(stage, registry, source, target) matches Some((next, action)) ==> {
            &&& action != SwitchAction::VerifyTarget ==> stage_rank(next) > stage_rank(stage)
            &&& action == SwitchAction::VerifyTarget ==> next == SwitchStage::SourceReleased
        },
        stage == SwitchStage::SourceReleased ==> switch_transition(stage, registry, source, target) == Some(
            (SwitchStage::SourceReleased, SwitchAction::VerifyTarget),
        ),
{
}

/// A load-like operation skips its load request only for a model that is
/// loaded or sleeping and has not failed: a failed model always needs a
/// load, and so does a model in any other phase.
pub proof fn law_failed_or_unready_models_need_a_load(target: RouterModel)
    ensures
        target.status.failed ==> load_needed(target),
        !(target.status.phase is Loaded || target.status.phase is Sleeping) ==> load_needed(target),
        (target.status.phase is Loaded || target.status.phase is Sleeping) && !target.status.failed ==> !load_needed(
            target,
        ),
{
}

} // verus!
