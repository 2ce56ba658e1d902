//! Router model-switch benchmark: the comparison envelope that makes two runs
//! comparable, the per-leg evidence, run comparison, and the first-token
//! probe's request and reply reading.
use vstd::prelude::*;
use vstd::string::StringSliceAdditionalSpecFns;
use crate::installation::LlamaInstallation;
use crate::json::{json_escaped, json_quote};
use crate::router::{RouterModel, RouterModelPhase, RouterRegistry};
use crate::router_operations::{phase_debug, phase_debug_text, phase_ready, is_ready};
use crate::server_readiness::{ServerEndpoint, authority_of};
use crate::strings::{decimal, decimal_chars, push_chars, push_str, string_from_chars, utf8_lossy};

verus! {

/// Version of the stored run layout.
pub const SWITCH_BENCHMARK_SCHEMA_VERSION: u32 = 1;

/// Largest first-token reply read before giving up.
pub const MAX_FIRST_TOKEN_RESPONSE_BYTES: usize = 524288;

/// Whether the target had been loaded earlier in the same run.
#[derive(Debug, Clone, PartialEq, Eq, Structural)]
pub enum TargetHistoryState {
    FirstLoadInRun,
    PreviouslyLoadedInRun { prior_loads: u32 },
}

#[derive(Debug, Clone, PartialEq, Eq)]
pub struct CacheEvidence {
    pub target_history: TargetHistoryState,
    pub os_page_cache_known: bool,
    pub note: String,
}

#[derive(Debug, Clone, PartialEq, Eq)]
pub enum ActiveRequestEvictionExercise {
    UnsupportedBySelectedRuntime { reason: String },
    EvidenceAvailableNotExercised { reason: String },
}

/// Everything that must match for two runs to be compared.
#[derive(Debug, Clone, PartialEq, Eq)]
pub struct RouterSwitchBenchmarkEnvelope {
    pub schema_version: u32,
    pub installation_id: String,
    pub server_sha256: String,
    pub server_version: Option<String>,
    pub endpoint_authority: String,
    pub model_a_router_id: String,
    pub model_a_library_id: String,
    pub model_a_sha256: String,
    pub model_b_router_id: String,
    pub model_b_library_id: String,
    pub model_b_sha256: String,
    pub router_settings: Vec<String>,
}

/// Timings of one switch leg, in milliseconds.
#[derive(Debug, Clone, PartialEq, Eq)]
pub struct RouterSwitchPhaseTimings {
    /// Source unload or eviction, through its reconciliation.
    pub unload_or_evict_ms: u128,
    /// Target load, through the controller's confirmation that it is ready.
    pub load_to_ready_ms: u128,
    /// A second, independent live-registry confirmation after the load.
    pub readiness_confirmation_ms: u128,
    /// From request dispatch to the first streamed completion payload.
    pub first_token_ms: Option<u128>,
    pub notes: Vec<String>,
}

/// One switch from a source model to a target model.
#[derive(Debug, Clone, PartialEq)]
pub struct RouterSwitchLeg {
    pub source_model: String,
    pub target_model: String,
    pub cache: CacheEvidence,
    pub timings: RouterSwitchPhaseTimings,
    pub final_registry: RouterRegistry,
}

#[derive(Debug, Clone, Copy, PartialEq, Eq, Structural)]
pub enum RouterSwitchBenchmarkPhase {
    Baseline,
    UnloadOrEvict,
    Load,
    Readiness,
    FirstToken,
    Recovery,
}

#[derive(Debug, Clone, PartialEq)]
pub struct RouterSwitchRecoveryEvidence {
    pub attempted: bool,
    pub recovered: bool,
    pub model: String,
    pub message: String,
    pub registry: Option<RouterRegistry>,
}

#[derive(Debug, Clone, PartialEq, Eq)]
pub enum RouterSwitchBenchmarkOutcome {
    Succeeded,
    Failed { phase: RouterSwitchBenchmarkPhase, message: String },
}

/// One benchmark run: A to B, then B to A.
#[derive(Debug, Clone, PartialEq)]
pub struct RouterSwitchBenchmarkRun {
    pub id: String,
    pub envelope: RouterSwitchBenchmarkEnvelope,
    pub started_at_unix_ms: u128,
    pub finished_at_unix_ms: u128,
    pub legs: Vec<RouterSwitchLeg>,
    pub outcome: RouterSwitchBenchmarkOutcome,
    pub recovery: Option<RouterSwitchRecoveryEvidence>,
    pub active_request_eviction: ActiveRequestEvictionExercise,
}

impl RouterSwitchBenchmarkRun {
    pub fn succeeded(&self) -> (r: bool)
        ensures
            r == (self.outcome is Succeeded),
    {
        match self.outcome {
            RouterSwitchBenchmarkOutcome::Succeeded => true,
            _ => false,
        }
    }
}

/// What to benchmark and how long each step may take.
#[derive(Debug, Clone, PartialEq, Eq)]
pub struct RouterSwitchBenchmarkConfig {
    pub model_a: String,
    pub model_b: String,
    pub timeout_ms: u64,
    pub first_token_prompt: String,
    pub router_settings: Vec<String>,
}

impl RouterSwitchBenchmarkConfig {
    /// A two-minute timeout, the prompt "Reply with OK" and no settings.
    pub fn new(model_a: String, model_b: String) -> (r: Self)
        ensures
            r.model_a == model_a,
            r.model_b == model_b,
            r.timeout_ms == 120000,
            r.first_token_prompt@ == "Reply with OK"@,
            r.router_settings@.len() == 0,
    {
        RouterSwitchBenchmarkConfig {
            model_a,
            model_b,
            timeout_ms: 120000,
            first_token_prompt: "Reply with OK".to_owned(),
            router_settings: Vec::new(),
        }
    }
}

/// How a later run's timings differ from an earlier one's.
#[derive(Debug, Clone, PartialEq, Eq)]
pub struct RouterSwitchComparison {
    pub left_run_id: String,
    pub right_run_id: String,
    pub a_to_b_total_delta_ms: i128,
    pub b_to_a_total_delta_ms: i128,
    pub a_to_b_first_token_delta_ms: Option<i128>,
    pub b_to_a_first_token_delta_ms: Option<i128>,
}

#[derive(Debug, Clone, PartialEq, Eq)]
pub enum RouterSwitchBenchmarkError {
    ModelNotFound { model: String },
    ModelIdentityUnproven { model: String },
    LibraryModelMissing { model: String, model_id: String },
    MissingServerEvidence,
    SameModel,
    PhaseFailure { phase: RouterSwitchBenchmarkPhase, message: String },
    Discovery(String),
    FirstTokenTransport(String),
    FirstTokenHttp { status_code: u16, body_excerpt: String },
    FirstTokenMissing,
    Persistence(String),
    IncompatibleEnvelope,
    FailedSampleComparison,
}

/// Where benchmark runs are stored.
#[derive(Debug, Clone)]
pub struct RouterSwitchBenchmarkStore {
    path: String,
}

impl RouterSwitchBenchmarkStore {
    /// A store handle for the database at `path`; the schema is created by
    /// whoever opens the database.
    pub fn at(path: String) -> (r: Self)
        ensures
            r.path_view() == path@,
    {
        RouterSwitchBenchmarkStore { path }
    }

    pub closed spec fn path_view(&self) -> Seq<char> {
        self.path@
    }

    pub fn path(&self) -> (r: &str)
        ensures
            r@ == self.path_view(),
    {
        self.path.as_str()
    }
}

/// An envelope taken field by field by its characters.
pub open spec fn envelope_view(e: RouterSwitchBenchmarkEnvelope) -> (u32, Seq<Seq<char>>, Option<Seq<char>>, Seq<Seq<char>>) {
    (
        e.schema_version,
        seq![
            e.installation_id@,
            e.server_sha256@,
            e.endpoint_authority@,
            e.model_a_router_id@,
            e.model_a_library_id@,
            e.model_a_sha256@,
            e.model_b_router_id@,
            e.model_b_library_id@,
            e.model_b_sha256@,
        ],
        match e.server_version {
            Some(v) => Some(v@),
            None => None,
        },
        e.router_settings@.map_values(|s: String| s@),
    )
}

fn strings_equal(a: &Vec<String>, b: &Vec<String>) -> (r: bool)
    ensures
        r == (a@.map_values(|s: String| s@) == b@.map_values(|s: String| s@)),
{
    if a.len() != b.len() {
        proof {
            assert(a@.map_values(|s: String| s@).len() != b@.map_values(|s: String| s@).len());
        }
        return false;
    }
    let mut i: usize = 0;
    while i < a.len()
        invariant
            a@.len() == b@.len(),
            i <= a@.len(),
            forall|k: int| 0 <= k < i ==> a@[k]@ == b@[k]@,
        decreases a@.len() - i,
    {
        if a[i] != b[i] {
            proof {
                assert(a@.map_values(|s: String| s@)[i as int] != b@.map_values(|s: String| s@)[i as int]);
            }
            return false;
        }
        i = i + 1;
    }
    assert(a@.map_values(|s: String| s@) =~= b@.map_values(|s: String| s@));
    true
}

/// Whether two runs were measured under the same envelope.
pub fn same_envelope(a: &RouterSwitchBenchmarkEnvelope, b: &RouterSwitchBenchmarkEnvelope) -> (r: bool)
    ensures
        r == (envelope_view(*a) == envelope_view(*b)),
{
    let versions = match &a.server_version {
        Some(x) => match &b.server_version {
            Some(y) => {
                let same: bool = x.eq(y);
                same
            },
            None => false,
        },
        None => b.server_version.is_none(),
    };
    assert(versions == (envelope_view(*a).2 == envelope_view(*b).2));
    let r = a.schema_version == b.schema_version && a.installation_id == b.installation_id
        && a.server_sha256 == b.server_sha256 && a.endpoint_authority == b.endpoint_authority
        && a.model_a_router_id == b.model_a_router_id && a.model_a_library_id == b.model_a_library_id
        && a.model_a_sha256 == b.model_a_sha256 && a.model_b_router_id == b.model_b_router_id
        && a.model_b_library_id == b.model_b_library_id && a.model_b_sha256 == b.model_b_sha256
        && versions && strings_equal(&a.router_settings, &b.router_settings);
    proof {
        let va = envelope_view(*a);
        let vb = envelope_view(*b);
        if va == vb {
            assert(va.1[0] == vb.1[0] && va.1[1] == vb.1[1] && va.1[2] == vb.1[2]);
            assert(va.1[3] == vb.1[3] && va.1[4] == vb.1[4] && va.1[5] == vb.1[5]);
            assert(va.1[6] == vb.1[6] && va.1[7] == vb.1[7] && va.1[8] == vb.1[8]);
        }
        if r {
            assert(va.1 =~= vb.1);
        }
    }
    r
}

/// The sum of a leg's phases; a missing first token counts as zero.
pub open spec fn leg_total(t: RouterSwitchPhaseTimings) -> int {
    t.unload_or_evict_ms + t.load_to_ready_ms + t.readiness_confirmation_ms + match t.first_token_ms {
        Some(v) => v as int,
        None => 0,
    }
}

/// A leg's total time; its sum must fit in an `i128`.
pub fn leg_total_ms(leg: &RouterSwitchLeg) -> (r: u128)
    requires
        leg_total(leg.timings) <= i128::MAX,
    ensures
        r == leg_total(leg.timings),
{
    let first = match leg.timings.first_token_ms {
        Some(v) => v,
        None => 0,
    };
    leg.timings.unload_or_evict_ms + leg.timings.load_to_ready_ms + leg.timings.readiness_confirmation_ms + first
}

/// `right - left` when both were measured.
pub open spec fn delta_of(left: Option<u128>, right: Option<u128>) -> Option<int> {
    match (left, right) {
        (Some(l), Some(r)) => Some(r - l),
        _ => None,
    }
}

/// `right - left` when both were measured; each must fit in an `i128`.
pub fn timing_delta(left: Option<u128>, right: Option<u128>) -> (r: Option<i128>)
    requires
        left matches Some(l) ==> l <= i128::MAX,
        right matches Some(x) ==> x <= i128::MAX,
    ensures
        match delta_of(left, right) {
            Some(d) => r matches Some(v) && v == d,
            None => r is None,
        },
{
    match (left, right) {
        (Some(l), Some(x)) => Some(x as i128 - l as i128),
        _ => None,
    }
}

/// Whether every leg's totals fit the comparison's integer range.
pub open spec fn legs_in_range(run: RouterSwitchBenchmarkRun) -> bool {
    forall|i: int| 0 <= i < run.legs@.len() ==> {
        &&& leg_total(#[trigger] run.legs@[i].timings) <= i128::MAX
        &&& (run.legs@[i].timings.first_token_ms matches Some(v) ==> v <= i128::MAX)
    }
}

/// Compares two successful round trips measured under the same envelope.
pub fn compare_switch_runs(left: &RouterSwitchBenchmarkRun, right: &RouterSwitchBenchmarkRun) -> (r: Result<RouterSwitchComparison, RouterSwitchBenchmarkError>)
    requires
        legs_in_range(*left),
        legs_in_range(*right),
    ensures
        envelope_view(left.envelope) != envelope_view(right.envelope) ==> r == Err::<RouterSwitchComparison, RouterSwitchBenchmarkError>(RouterSwitchBenchmarkError::IncompatibleEnvelope),
        envelope_view(left.envelope) == envelope_view(right.envelope) && !(left.outcome is Succeeded && right.outcome is Succeeded && left.legs@.len() == 2 && right.legs@.len() == 2)
            ==> r == Err::<RouterSwitchComparison, RouterSwitchBenchmarkError>(RouterSwitchBenchmarkError::FailedSampleComparison),
        envelope_view(left.envelope) == envelope_view(right.envelope) && left.outcome is Succeeded && right.outcome is Succeeded && left.legs@.len() == 2 && right.legs@.len() == 2
            ==> (r matches Ok(c) && {
                &&& c.left_run_id@ == left.id@
                &&& c.right_run_id@ == right.id@
                &&& c.a_to_b_total_delta_ms == leg_total(right.legs@[0].timings) - leg_total(left.legs@[0].timings)
                &&& c.b_to_a_total_delta_ms == leg_total(right.legs@[1].timings) - leg_total(left.legs@[1].timings)
                &&& delta_of(left.legs@[0].timings.first_token_ms, right.legs@[0].timings.first_token_ms) == match c.a_to_b_first_token_delta_ms {
                    Some(v) => Some(v as int),
                    None => None::<int>,
                }
                &&& delta_of(left.legs@[1].timings.first_token_ms, right.legs@[1].timings.first_token_ms) == match c.b_to_a_first_token_delta_ms {
                    Some(v) => Some(v as int),
                    None => None::<int>,
                }
            }),
{
    if !same_envelope(&left.envelope, &right.envelope) {
        return Err(RouterSwitchBenchmarkError::IncompatibleEnvelope);
    }
    if !left.succeeded() || !right.succeeded() || left.legs.len() != 2 || right.legs.len() != 2 {
        return Err(RouterSwitchBenchmarkError::FailedSampleComparison);
    }
    assert(leg_total(left.legs@[0].timings) <= i128::MAX);
    assert(leg_total(left.legs@[1].timings) <= i128::MAX);
    assert(leg_total(right.legs@[0].timings) <= i128::MAX);
    assert(leg_total(right.legs@[1].timings) <= i128::MAX);
    let l0 = leg_total_ms(&left.legs[0]);
    let l1 = leg_total_ms(&left.legs[1]);
    let r0 = leg_total_ms(&right.legs[0]);
    let r1 = leg_total_ms(&right.legs[1]);
    Ok(RouterSwitchComparison {
        left_run_id: left.id.clone(),
        right_run_id: right.id.clone(),
        a_to_b_total_delta_ms: r0 as i128 - l0 as i128,
        b_to_a_total_delta_ms: r1 as i128 - l1 as i128,
        a_to_b_first_token_delta_ms: timing_delta(
            left.legs[0].timings.first_token_ms,
            right.legs[0].timings.first_token_ms,
        ),
        b_to_a_first_token_delta_ms: timing_delta(
            left.legs[1].timings.first_token_ms,
            right.legs[1].timings.first_token_ms,
        ),
    })
}


/// A benchmark needs two different models.
pub fn check_distinct_models(config: &RouterSwitchBenchmarkConfig) -> (r: Result<(), RouterSwitchBenchmarkError>)
    ensures
        config.model_a@ == config.model_b@ ==> r == Err::<(), RouterSwitchBenchmarkError>(RouterSwitchBenchmarkError::SameModel),
        config.model_a@ != config.model_b@ ==> r is Ok,
{
    if config.model_a == config.model_b {
        Err(RouterSwitchBenchmarkError::SameModel)
    } else {
        Ok(())
    }
}

/// A benchmark needs an installation with server evidence.
pub fn require_benchmark_server(installation: &LlamaInstallation) -> (r: Result<(), RouterSwitchBenchmarkError>)
    ensures
        installation.server is Some ==> r is Ok,
        installation.server is None ==> r == Err::<(), RouterSwitchBenchmarkError>(RouterSwitchBenchmarkError::MissingServerEvidence),
{
    match installation.server {
        Some(_) => Ok(()),
        None => Err(RouterSwitchBenchmarkError::MissingServerEvidence),
    }
}

/// The registry model whose id is exactly `id`.
pub fn benchmark_model<'a>(registry: &'a RouterRegistry, id: &String) -> (r: Result<&'a RouterModel, RouterSwitchBenchmarkError>)
    ensures
        match crate::router_operations::model_with_id(registry.models@, id@, 0) {
            Some(i) => r matches Ok(m) && *m == registry.models@[i],
            None => r matches Err(RouterSwitchBenchmarkError::ModelNotFound { model }) && model@ == id@,
        },
{
    let mut i: usize = 0;
    while i < registry.models.len()
        invariant
            i <= registry.models@.len(),
            crate::router_operations::model_with_id(registry.models@, id@, 0) == crate::router_operations::model_with_id(registry.models@, id@, i as int),
        decreases registry.models@.len() - i,
    {
        if registry.models[i].id == *id {
            return Ok(&registry.models[i]);
        }
        i = i + 1;
    }
    Err(RouterSwitchBenchmarkError::ModelNotFound { model: id.clone() })
}

/// The library model a router model is bound to; a benchmark refuses models
/// without one.
pub fn library_model_id(model: &RouterModel) -> (r: Result<String, RouterSwitchBenchmarkError>)
    ensures
        match model.library_link.model_id {
            Some(id) => r matches Ok(x) && x@ == id@,
            None => r matches Err(RouterSwitchBenchmarkError::ModelIdentityUnproven { model: m }) && m@ == model.id@,
        },
{
    match &model.library_link.model_id {
        Some(id) => Ok(id.clone()),
        None => Err(RouterSwitchBenchmarkError::ModelIdentityUnproven { model: model.id.clone() }),
    }
}

/// What the benchmark records about active-request eviction, from whether
/// the observability probe ran and whether any model showed an observed
/// active-request count.
pub fn active_request_eviction(probe: Result<bool, String>) -> (r: ActiveRequestEvictionExercise)
    ensures
        match probe {
            Ok(true) => r matches ActiveRequestEvictionExercise::EvidenceAvailableNotExercised { reason } && reason@
                == "selected runtime exposes active-request evidence; the benchmark records it but does not manufacture concurrent traffic during timing samples"@,
            Ok(false) => r matches ActiveRequestEvictionExercise::UnsupportedBySelectedRuntime { reason } && reason@
                == "selected router does not expose active-request count in its model registry; eviction-failure timing cannot be attributed safely"@,
            Err(e) => r matches ActiveRequestEvictionExercise::UnsupportedBySelectedRuntime { reason } && reason@
                == "active-request observability probe unavailable: "@ + e@,
        },
{
    match probe {
        Ok(true) => ActiveRequestEvictionExercise::EvidenceAvailableNotExercised {
            reason: "selected runtime exposes active-request evidence; the benchmark records it but does not manufacture concurrent traffic during timing samples".to_owned(),
        },
        Ok(false) => ActiveRequestEvictionExercise::UnsupportedBySelectedRuntime {
            reason: "selected router does not expose active-request count in its model registry; eviction-failure timing cannot be attributed safely".to_owned(),
        },
        Err(e) => {
            let mut out: Vec<char> = Vec::new();
            push_str(&mut out, "active-request observability probe unavailable: ");
            push_str(&mut out, e.as_str());
            ActiveRequestEvictionExercise::UnsupportedBySelectedRuntime { reason: string_from_chars(out.as_slice()) }
        },
    }
}

/// The trimmed version output, when there is any.
pub open spec fn version_of(version_output: Seq<char>) -> Option<Seq<char>> {
    if crate::text::trim(version_output).len() == 0 {
        None
    } else {
        Some(crate::text::trim(version_output))
    }
}

fn trimmed_version(version_output: &String) -> (r: Option<String>)
    ensures
        match version_of(version_output@) {
            Some(v) => r matches Some(x) && x@ == v,
            None => r is None,
        },
{
    let cs = crate::text::chars_of_string(version_output);
    let t = crate::text::trim_chars(cs.as_slice());
    if t.len() == 0 {
        None
    } else {
        Some(string_from_chars(t.as_slice()))
    }
}

/// The envelope of a run of `config` against `endpoint` with the given
/// library identities.
pub open spec fn envelope_holds(e: RouterSwitchBenchmarkEnvelope, installation: LlamaInstallation, endpoint: ServerEndpoint, config: RouterSwitchBenchmarkConfig, a_library: Seq<char>, a_sha: Seq<char>, b_library: Seq<char>, b_sha: Seq<char>) -> bool {
    &&& e.schema_version == SWITCH_BENCHMARK_SCHEMA_VERSION
    &&& e.installation_id@ == installation.id@
    &&& e.server_sha256@ == match installation.server {
        Some(s) => s.sha256@,
        None => Seq::empty(),
    }
    &&& match installation.server {
        Some(s) => match version_of(s.version_output@) {
            Some(v) => e.server_version matches Some(x) && x@ == v,
            None => e.server_version is None,
        },
        None => e.server_version is None,
    }
    &&& e.endpoint_authority@ == authority_of(endpoint.host@, endpoint.port)
    &&& e.model_a_router_id@ == config.model_a@
    &&& e.model_a_library_id@ == a_library
    &&& e.model_a_sha256@ == a_sha
    &&& e.model_b_router_id@ == config.model_b@
    &&& e.model_b_library_id@ == b_library
    &&& e.model_b_sha256@ == b_sha
    &&& e.router_settings@.map_values(|s: String| s@) == config.router_settings@.map_values(|s: String| s@)
}

fn copy_strings(v: &Vec<String>) -> (r: Vec<String>)
    ensures
        r@.map_values(|s: String| s@) == v@.map_values(|s: String| s@),
{
    let mut out: Vec<String> = Vec::new();
    let mut i: usize = 0;
    while i < v.len()
        invariant
            i <= v@.len(),
            out@.map_values(|s: String| s@) == v@.subrange(0, i as int).map_values(|s: String| s@),
        decreases v@.len() - i,
    {
        let ghost before = out@.map_values(|s: String| s@);
        let item = v[i].clone();
        assert(item@ == v@[i as int]@);
        out.push(item);
        assert(out@.map_values(|s: String| s@) =~= before.push(v@[i as int]@));
        assert(v@.subrange(0, i + 1).map_values(|s: String| s@) =~= v@.subrange(0, i as int).map_values(|s: String| s@).push(v@[i as int]@));
        i = i + 1;
    }
    assert(v@.subrange(0, v@.len() as int) =~= v@);
    out
}

/// Builds the comparison envelope; library fields are empty where the run
/// failed before identities were known.
pub fn build_envelope(installation: &LlamaInstallation, endpoint: &ServerEndpoint, config: &RouterSwitchBenchmarkConfig, a_library: String, a_sha: String, b_library: String, b_sha: String) -> (r: RouterSwitchBenchmarkEnvelope)
    ensures
        envelope_holds(r, *installation, *endpoint, *config, a_library@, a_sha@, b_library@, b_sha@),
{
    let (server_sha256, server_version) = match &installation.server {
        Some(s) => (s.sha256.clone(), trimmed_version(&s.version_output)),
        None => (String::new(), None),
    };
    RouterSwitchBenchmarkEnvelope {
        schema_version: SWITCH_BENCHMARK_SCHEMA_VERSION,
        installation_id: installation.id.clone(),
        server_sha256,
        server_version,
        endpoint_authority: endpoint.authority(),
        model_a_router_id: config.model_a.clone(),
        model_a_library_id: a_library,
        model_a_sha256: a_sha,
        model_b_router_id: config.model_b.clone(),
        model_b_library_id: b_library,
        model_b_sha256: b_sha,
        router_settings: copy_strings(&config.router_settings),
    }
}

/// The run recorded when setup fails before the envelope's identities are
/// known: no legs, no recovery, and no active-request evidence.
pub fn failed_without_envelope(id: String, installation: &LlamaInstallation, endpoint: &ServerEndpoint, config: &RouterSwitchBenchmarkConfig, started_at_unix_ms: u128, finished_at_unix_ms: u128, phase: RouterSwitchBenchmarkPhase, message: String) -> (r: RouterSwitchBenchmarkRun)
    ensures
        r.id == id,
        envelope_holds(r.envelope, *installation, *endpoint, *config, Seq::empty(), Seq::empty(), Seq::empty(), Seq::empty()),
        r.started_at_unix_ms == started_at_unix_ms,
        r.finished_at_unix_ms == finished_at_unix_ms,
        r.legs@.len() == 0,
        r.outcome == (RouterSwitchBenchmarkOutcome::Failed { phase, message }),
        r.recovery is None,
        r.active_request_eviction matches ActiveRequestEvictionExercise::UnsupportedBySelectedRuntime { reason } && reason@
            == "benchmark setup failed before active-request evidence could be evaluated"@,
{
    let envelope = build_envelope(installation, endpoint, config, String::new(), String::new(), String::new(), String::new());
    RouterSwitchBenchmarkRun {
        id,
        envelope,
        started_at_unix_ms,
        finished_at_unix_ms,
        legs: Vec::new(),
        outcome: RouterSwitchBenchmarkOutcome::Failed { phase, message },
        recovery: None,
        active_request_eviction: ActiveRequestEvictionExercise::UnsupportedBySelectedRuntime {
            reason: "benchmark setup failed before active-request evidence could be evaluated".to_owned(),
        },
    }
}

/// How many times each model was loaded during a run.
pub open spec fn loads_of(counts: Seq<(String, u32)>, model: Seq<char>) -> u32
    decreases counts.len(),
{
    if counts.len() == 0 {
        0
    } else if counts.last().0@ == model {
        counts.last().1
    } else {
        loads_of(counts.drop_last(), model)
    }
}

/// The recorded load count of `model` (zero if it was never loaded).
pub fn prior_loads(counts: &Vec<(String, u32)>, model: &str) -> (r: u32)
    ensures
        r == loads_of(counts@, model@),
{
    let owned = model.to_owned();
    let mut i: usize = counts.len();
    assert(counts@.subrange(0, counts@.len() as int) =~= counts@);
    while i > 0
        invariant
            owned@ == model@,
            i <= counts@.len(),
            loads_of(counts@, model@) == loads_of(counts@.subrange(0, i as int), model@),
        decreases i,
    {
        assert(counts@.subrange(0, i as int).drop_last() =~= counts@.subrange(0, i - 1));
        if counts[i - 1].0 == owned {
            return counts[i - 1].1;
        }
        i = i - 1;
    }
    0
}

/// Records one more load of `model`, saturating at `u32::MAX`.
pub fn record_load(counts: &mut Vec<(String, u32)>, model: &str)
    ensures
        loads_of(final(counts)@, model@) == (if loads_of(old(counts)@, model@) == u32::MAX {
            u32::MAX as int
        } else {
            loads_of(old(counts)@, model@) + 1
        }),
        forall|m: Seq<char>| m != model@ ==> loads_of(final(counts)@, m) == loads_of(old(counts)@, m),
{
    let before = prior_loads(counts, model);
    let next = if before == u32::MAX {
        before
    } else {
        before + 1
    };
    let ghost old_counts = counts@;
    counts.push((model.to_owned(), next));
    proof {
        assert(counts@.drop_last() =~= old_counts);
    }
}

/// What a leg records about its target's history in the run.
pub fn cache_evidence(prior: u32) -> (r: CacheEvidence)
    ensures
        prior == 0 ==> r.target_history == TargetHistoryState::FirstLoadInRun,
        prior > 0 ==> r.target_history == (TargetHistoryState::PreviouslyLoadedInRun { prior_loads: prior }),
        !r.os_page_cache_known,
        r.note@ == "process-level model history is observed; operating-system page-cache residency is not inferred"@,
{
    CacheEvidence {
        target_history: if prior == 0 {
            TargetHistoryState::FirstLoadInRun
        } else {
            TargetHistoryState::PreviouslyLoadedInRun { prior_loads: prior }
        },
        os_page_cache_known: false,
        note: "process-level model history is observed; operating-system page-cache residency is not inferred".to_owned(),
    }
}

/// After a leg's load, the live registry must show the target ready and
/// healthy.
pub fn leg_readiness(registry: &RouterRegistry, target: &str) -> (r: Result<(), (RouterSwitchBenchmarkPhase, String)>)
    ensures
        match crate::router_operations::model_with_id(registry.models@, target@, 0) {
            None => r matches Err((phase, m)) && phase == RouterSwitchBenchmarkPhase::Readiness && m@
                == "target "@ + target@ + " disappeared from live registry"@,
            Some(i) => {
                let t = registry.models@[i];
                if phase_ready(t.status.phase) && !t.status.failed {
                    r is Ok
                } else {
                    r matches Err((phase, m)) && phase == RouterSwitchBenchmarkPhase::Readiness && m@
                        == "target "@ + target@ + " was not ready after load: "@ + phase_debug(t.status.phase)
                        + ", failed="@ + (if t.status.failed { "true"@ } else { "false"@ })
                }
            },
        },
{
    let owned = target.to_owned();
    let model = match benchmark_model(registry, &owned) {
        Ok(m) => m,
        Err(_) => {
            let mut out: Vec<char> = Vec::new();
            push_str(&mut out, "target ");
            push_str(&mut out, target);
            push_str(&mut out, " disappeared from live registry");
            return Err((RouterSwitchBenchmarkPhase::Readiness, string_from_chars(out.as_slice())));
        },
    };
    if is_ready(&model.status.phase) && !model.status.failed {
        return Ok(());
    }
    let mut out: Vec<char> = Vec::new();
    push_str(&mut out, "target ");
    push_str(&mut out, target);
    push_str(&mut out, " was not ready after load: ");
    let p = phase_debug_text(&model.status.phase);
    push_str(&mut out, p.as_str());
    push_str(&mut out, ", failed=");
    if model.status.failed {
        push_str(&mut out, "true");
    } else {
        push_str(&mut out, "false");
    }
    Err((RouterSwitchBenchmarkPhase::Readiness, string_from_chars(out.as_slice())))
}

/// Whether reloading model A left it ready and healthy in `registry`.
pub fn recovered_in(registry: &RouterRegistry, model_a: &String) -> (r: bool)
    ensures
        r == match crate::router_operations::model_with_id(registry.models@, model_a@, 0) {
            Some(i) => phase_ready(registry.models@[i].status.phase) && !registry.models@[i].status.failed,
            None => false,
        },
{
    match benchmark_model(registry, model_a) {
        Ok(m) => is_ready(&m.status.phase) && !m.status.failed,
        Err(_) => false,
    }
}

/// The JSON body of the first-token request, keys in `serde_json` order.
pub open spec fn first_token_body(model: Seq<char>, prompt: Seq<char>) -> Seq<char> {
    "{\"model\":"@ + seq!['"'] + json_escaped(model) + seq!['"'] + ",\"n_predict\":1,\"prompt\":"@
        + seq!['"'] + json_escaped(prompt) + seq!['"'] + ",\"stream\":true,\"temperature\":0}"@
}

pub fn first_token_request_body(model: &str, prompt: &str) -> (r: String)
    ensures
        r@ == first_token_body(model@, prompt@),
{
    let mut out: Vec<char> = Vec::new();
    push_str(&mut out, "{\"model\":");
    let m = json_quote(model);
    push_str(&mut out, m.as_str());
    push_str(&mut out, ",\"n_predict\":1,\"prompt\":");
    let p = json_quote(prompt);
    push_str(&mut out, p.as_str());
    push_str(&mut out, ",\"stream\":true,\"temperature\":0}");
    assert(out@ =~= first_token_body(model@, prompt@));
    string_from_chars(out.as_slice())
}

/// The streaming completion request that measures time to first token.
pub open spec fn first_token_request_text(endpoint: ServerEndpoint, body: Seq<char>, body_bytes: nat) -> Seq<char> {
    "POST /completion HTTP/1.1\r\nHost: "@ + authority_of(endpoint.host@, endpoint.port)
        + "\r\nConnection: close\r\nAccept: text/event-stream\r\nContent-Type: application/json\r\nContent-Length: "@
        + decimal(body_bytes) + "\r\n"@ + crate::streaming_probe::auth_header(endpoint) + "\r\n"@ + body
}

pub fn first_token_request(endpoint: &ServerEndpoint, body: &str) -> (r: String)
    ensures
        r@ == first_token_request_text(*endpoint, body@, body.len() as nat),
{
    let mut out: Vec<char> = Vec::new();
    push_str(&mut out, "POST /completion HTTP/1.1\r\nHost: ");
    let authority = endpoint.authority();
    push_str(&mut out, authority.as_str());
    push_str(
        &mut out,
        "\r\nConnection: close\r\nAccept: text/event-stream\r\nContent-Type: application/json\r\nContent-Length: ",
    );
    let n = body.len();
    let digits = decimal_chars(n as u64);
    push_chars(&mut out, digits.as_slice());
    push_str(&mut out, "\r\n");
    crate::streaming_probe::append_auth_header(&mut out, endpoint);
    push_str(&mut out, "\r\n");
    push_str(&mut out, body);
    assert(out@ =~= first_token_request_text(*endpoint, body@, n as nat));
    string_from_chars(out.as_slice())
}

/// Where the first-token probe stands after the bytes read so far.
#[derive(Debug, Clone, Copy, PartialEq, Eq, Structural)]
pub enum FirstTokenProgress {
    NeedMore,
    Observed,
}

/// Whether a decoded body already carries a completion payload.
pub open spec fn has_token_payload(body: Seq<char>) -> bool {
    crate::text::text_match(body, "\"content\""@, 0) is Some || crate::text::text_match(body, "data: {"@, 0) is Some
}

/// The first `n` characters of a text.
pub open spec fn take_chars(s: Seq<char>, n: nat) -> Seq<char> {
    if s.len() <= n {
        s
    } else {
        s.subrange(0, n as int)
    }
}

fn text_contains(hay: &[char], needle: &str) -> (r: bool)
    requires
        needle@.len() > 0,
    ensures
        r == (crate::text::text_match(hay@, needle@, 0) is Some),
{
    let n = crate::strings::chars_of(needle);
    crate::text::find_text(hay, n.as_slice()).is_some()
}

fn contains_payload(body: &[char]) -> (r: bool)
    ensures
        r == has_token_payload(body@),
{
    proof {
        reveal_strlit("\"content\"");
        reveal_strlit("data: {");
    }
    text_contains(body, "\"content\"") || text_contains(body, "data: {")
}

/// Reads the first-token reply received so far: too much data is an error;
/// once the head is complete a non-2xx status is reported with an excerpt of
/// the body; a 2xx reply is done once a payload appears.
pub fn first_token_progress(bytes: &[u8]) -> (r: Result<FirstTokenProgress, RouterSwitchBenchmarkError>)
    ensures
        bytes@.len() > MAX_FIRST_TOKEN_RESPONSE_BYTES ==> (r matches Err(RouterSwitchBenchmarkError::FirstTokenTransport(m))
            && m@ == "first-token response exceeded bounded evidence limit"@),
        bytes@.len() <= MAX_FIRST_TOKEN_RESPONSE_BYTES ==> match crate::streaming_probe::first_match(bytes@, seq![13u8, 10u8, 13u8, 10u8], 0) {
            None => r == Ok::<FirstTokenProgress, RouterSwitchBenchmarkError>(FirstTokenProgress::NeedMore),
            Some(i) => {
                let head = bytes@.subrange(0, i + 4);
                let body = utf8_lossy(bytes@.subrange(i + 4, bytes@.len() as int));
                match crate::text::status_code_of(utf8_lossy(head)) {
                    None => r matches Err(RouterSwitchBenchmarkError::FirstTokenTransport(m)) && m@
                        == "invalid HTTP status line during first-token probe"@,
                    Some(code) => if !(200 <= code <= 299) {
                        r matches Err(RouterSwitchBenchmarkError::FirstTokenHttp { status_code, body_excerpt })
                            && status_code == code && body_excerpt@ == take_chars(body, 2048)
                    } else if has_token_payload(body) {
                        r == Ok::<FirstTokenProgress, RouterSwitchBenchmarkError>(FirstTokenProgress::Observed)
                    } else {
                        r == Ok::<FirstTokenProgress, RouterSwitchBenchmarkError>(FirstTokenProgress::NeedMore)
                    },
                }
            },
        },
{
    if bytes.len() > MAX_FIRST_TOKEN_RESPONSE_BYTES {
        return Err(RouterSwitchBenchmarkError::FirstTokenTransport(
            "first-token response exceeded bounded evidence limit".to_owned(),
        ));
    }
    let sep: Vec<u8> = vec![13u8, 10u8, 13u8, 10u8];
    let ss = sep.as_slice();
    assert(ss@ =~= seq![13u8, 10u8, 13u8, 10u8]);
    let n = bytes.len();
    let i = match crate::streaming_probe::find_bytes(bytes, ss) {
        None => {
            return Ok(FirstTokenProgress::NeedMore);
        },
        Some(i) => i,
    };
    let end = i + 4;
    let head = crate::streaming_probe::byte_range(bytes, 0, end);
    let head_text = crate::strings::lossy_chars(head.as_slice());
    let rest = crate::streaming_probe::byte_range(bytes, end, n);
    let body = crate::strings::lossy_chars(rest.as_slice());
    match crate::text::status_code_from_text(head_text.as_slice()) {
        None => Err(RouterSwitchBenchmarkError::FirstTokenTransport(
            "invalid HTTP status line during first-token probe".to_owned(),
        )),
        Some(code) => if !(200 <= code && code <= 299) {
            let shown = if body.len() <= 2048 {
                string_from_chars(body.as_slice())
            } else {
                let head_chars = crate::text::copy_range(body.as_slice(), 0, 2048);
                string_from_chars(head_chars.as_slice())
            };
            Err(RouterSwitchBenchmarkError::FirstTokenHttp { status_code: code, body_excerpt: shown })
        } else if contains_payload(body.as_slice()) {
            Ok(FirstTokenProgress::Observed)
        } else {
            Ok(FirstTokenProgress::NeedMore)
        },
    }
}

/// The first-token probe's target: port zero is refused before resolution;
/// afterwards there must be an address, and without the endpoint's opt-in
/// every address must be loopback. `resolved` is the address count and
/// whether any is not loopback, once resolution has run.
pub fn check_first_token_target(endpoint: &ServerEndpoint, resolved: Option<(usize, bool)>) -> (r: Result<(), RouterSwitchBenchmarkError>)
    ensures
        endpoint.port == 0 ==> (r matches Err(RouterSwitchBenchmarkError::FirstTokenTransport(m)) && m@ == "server port must be in 1..=65535"@),
        endpoint.port != 0 ==> match resolved {
            None => r is Ok,
            Some((count, any_non_loopback)) => if count == 0 {
                r matches Err(RouterSwitchBenchmarkError::FirstTokenTransport(m)) && m@ == "server host resolved to no addresses"@
            } else if any_non_loopback && !endpoint.allow_non_loopback {
                r matches Err(RouterSwitchBenchmarkError::FirstTokenTransport(m)) && m@ == "non-loopback target requires explicit opt-in"@
            } else {
                r is Ok
            },
        },
{
    if endpoint.port == 0 {
        return Err(RouterSwitchBenchmarkError::FirstTokenTransport("server port must be in 1..=65535".to_owned()));
    }
    match resolved {
        None => Ok(()),
        Some((count, any_non_loopback)) => if count == 0 {
            Err(RouterSwitchBenchmarkError::FirstTokenTransport("server host resolved to no addresses".to_owned()))
        } else if any_non_loopback && !endpoint.allow_non_loopback {
            Err(RouterSwitchBenchmarkError::FirstTokenTransport("non-loopback target requires explicit opt-in".to_owned()))
        } else {
            Ok(())
        },
    }
}

/// A router-operation failure during a benchmark phase, with its message.
pub fn phase_failure(phase: RouterSwitchBenchmarkPhase, message: String) -> (r: RouterSwitchBenchmarkError)
    ensures
        r == (RouterSwitchBenchmarkError::PhaseFailure { phase, message }),
{
    RouterSwitchBenchmarkError::PhaseFailure { phase, message }
}


/// The notes every measured leg carries about its timing phases.
pub open spec fn leg_notes() -> Seq<Seq<char>> {
    seq![
        "load_to_ready_ms is intentionally combined because the #39 controller returns only after authoritative router readiness reconciliation"@,
        "readiness_confirmation_ms is a second independent live registry confirmation after load-to-ready completed"@,
    ]
}

/// A measured leg.
pub fn switch_leg(source: &str, target: &str, cache: CacheEvidence, unload_or_evict_ms: u128, load_to_ready_ms: u128, readiness_confirmation_ms: u128, first_token_ms: u128, final_registry: RouterRegistry) -> (r: RouterSwitchLeg)
    ensures
        r.source_model@ == source@,
        r.target_model@ == target@,
        r.cache == cache,
        r.timings.unload_or_evict_ms == unload_or_evict_ms,
        r.timings.load_to_ready_ms == load_to_ready_ms,
        r.timings.readiness_confirmation_ms == readiness_confirmation_ms,
        r.timings.first_token_ms == Some(first_token_ms),
        r.timings.notes@.map_values(|s: String| s@) == leg_notes(),
        r.final_registry == final_registry,
{
    let notes = vec![
        "load_to_ready_ms is intentionally combined because the #39 controller returns only after authoritative router readiness reconciliation".to_owned(),
        "readiness_confirmation_ms is a second independent live registry confirmation after load-to-ready completed".to_owned(),
    ];
    assert(notes@.map_values(|s: String| s@) =~= leg_notes());
    RouterSwitchLeg {
        source_model: source.to_owned(),
        target_model: target.to_owned(),
        cache,
        timings: RouterSwitchPhaseTimings {
            unload_or_evict_ms,
            load_to_ready_ms,
            readiness_confirmation_ms,
            first_token_ms: Some(first_token_ms),
            notes,
        },
        final_registry,
    }
}

/// The legs a round trip runs, in order: A to B, then B to A.
pub fn round_trip_legs(config: &RouterSwitchBenchmarkConfig) -> (r: Vec<(String, String)>)
    ensures
        r@.len() == 2,
        r@[0].0@ == config.model_a@ && r@[0].1@ == config.model_b@,
        r@[1].0@ == config.model_b@ && r@[1].1@ == config.model_a@,
{
    vec![(config.model_a.clone(), config.model_b.clone()), (config.model_b.clone(), config.model_a.clone())]
}

/// The recovery evidence after a failed run: whether reloading model A
/// succeeded and left it ready.
pub fn recovery_evidence(model_a: &String, reload: Result<RouterRegistry, String>, fallback: Option<RouterRegistry>) -> (r: RouterSwitchRecoveryEvidence)
    ensures
        r.attempted,
        r.model@ == model_a@,
        match reload {
            Ok(registry) => {
                &&& r.recovered == match crate::router_operations::model_with_id(registry.models@, model_a@, 0) {
                    Some(i) => phase_ready(registry.models@[i].status.phase) && !registry.models@[i].status.failed,
                    None => false,
                }
                &&& r.message@ == "reloaded baseline model A after benchmark failure"@
                &&& r.registry == Some(registry)
            },
            Err(message) => {
                &&& !r.recovered
                &&& r.message == message
                &&& r.registry == fallback
            },
        },
{
    match reload {
        Ok(registry) => {
            let recovered = recovered_in(&registry, model_a);
            RouterSwitchRecoveryEvidence {
                attempted: true,
                recovered,
                model: model_a.clone(),
                message: "reloaded baseline model A after benchmark failure".to_owned(),
                registry: Some(registry),
            }
        },
        Err(message) => RouterSwitchRecoveryEvidence {
            attempted: true,
            recovered: false,
            model: model_a.clone(),
            message,
            registry: fallback,
        },
    }
}

/// A leg's total counts every phase, the first-token time included when it
/// was measured: between two legs, the totals differ by the sum of the
/// differences of their phases, a missing first token counting as zero. So
/// two legs that differ only in a measured first-token time by `d` have
/// totals `d` apart, and a comparison of two runs whose legs differ only so
/// reports exactly those differences as its total deltas.
pub proof fn law_leg_total_counts_every_phase(a: RouterSwitchPhaseTimings, b: RouterSwitchPhaseTimings)
    ensures
        leg_total(b) - leg_total(a) == (b.unload_or_evict_ms - a.unload_or_evict_ms) + (b.load_to_ready_ms
            - a.load_to_ready_ms) + (b.readiness_confirmation_ms - a.readiness_confirmation_ms) + (match b.first_token_ms {
            Some(v) => v as int,
            None => 0int,
        } - match a.first_token_ms {
            Some(v) => v as int,
            None => 0int,
        }),
        a.unload_or_evict_ms == b.unload_or_evict_ms && a.load_to_ready_ms == b.load_to_ready_ms
            && a.readiness_confirmation_ms == b.readiness_confirmation_ms ==> (a.first_token_ms matches Some(x)
            ==> (b.first_token_ms matches Some(y) ==> leg_total(b) - leg_total(a) == y - x)),
        leg_total(a) >= a.unload_or_evict_ms + a.load_to_ready_ms + a.readiness_confirmation_ms,
        a.first_token_ms matches Some(x) ==> leg_total(a) >= x,
{
}

} // verus!
