//! Router management decisions: whether a persisted preferred model is
//! verified by a live snapshot, which mutations a live snapshot authorizes,
//! how the endpoint fields are read, and how selections follow a refresh.
use vstd::prelude::*;
use crate::router::{RouterFeatureEvidence, RouterFeatureState, RouterModelPhase, RouterRegistry, RouterRole};
use crate::router_observability::{
    EvidenceAvailability, RouterModelObservability, RouterObservabilitySnapshot, RouterObservabilityTracker,
    RouterSnapshotFreshness, freshness_of,
};
use crate::router_operations::{answers_to, model_named, phase_debug, phase_debug_text, phase_ready};
use crate::server_readiness::ServerEndpoint;
use crate::strings::{decimal, decimal_chars, push_chars, push_str, string_from_chars};

verus! {

/// Router connection settings kept between sessions; the API key is never
/// among them.
#[derive(Debug, Clone, PartialEq, Eq)]
pub struct RouterControlPreferences {
    pub host: String,
    pub port: u16,
    pub allow_non_loopback: bool,
    pub preferred_model: Option<String>,
}

impl Default for RouterControlPreferences {
    fn default() -> (r: Self)
        ensures
            r.host@ == "127.0.0.1"@,
            r.port == 8080,
            !r.allow_non_loopback,
            r.preferred_model is None,
    {
        RouterControlPreferences { host: "127.0.0.1".to_owned(), port: 8080, allow_non_loopback: false, preferred_model: None }
    }
}

/// What a live snapshot says about the preferred model.
#[derive(Debug, Clone, PartialEq, Eq)]
pub enum PreferredModelVerification {
    NotConfigured,
    NeedsLiveReconciliation,
    Unsupported { reason: String },
    Missing { model: String },
    NotReady { model: String, phase: String },
    Verified { model: String },
}

/// The verdict on the preferred model: only a live router snapshot that
/// advertises autoload and shows the model ready and healthy verifies it.
pub open spec fn preferred_verdict_holds(r: PreferredModelVerification, prefs: RouterControlPreferences, tracker: RouterObservabilityTracker) -> bool {
    match prefs.preferred_model {
        None => r == PreferredModelVerification::NotConfigured,
        Some(p) => if freshness_of(tracker) != RouterSnapshotFreshness::Live {
            r == PreferredModelVerification::NeedsLiveReconciliation
        } else {
            let reg = tracker.current->0.registry;
            if reg.role != RouterRole::Router {
                r matches PreferredModelVerification::Unsupported { reason } && reason@ == "selected endpoint is not a router"@
            } else if !reg.static_capabilities.models_autoload {
                r matches PreferredModelVerification::Unsupported { reason } && reason@
                    == "runtime does not advertise models-autoload; startup/default behavior remains N/A rather than inferred"@
            } else {
                match model_named(reg.models@, p@, 0) {
                    None => r matches PreferredModelVerification::Missing { model } && model@ == p@,
                    Some(i) => {
                        let m = reg.models@[i];
                        if m.status.failed {
                            r matches PreferredModelVerification::NotReady { model, phase } && model@ == p@ && phase@ == "FAILED"@
                        } else if phase_ready(m.status.phase) {
                            r matches PreferredModelVerification::Verified { model } && model@ == p@
                        } else {
                            r matches PreferredModelVerification::NotReady { model, phase } && model@ == p@
                                && phase@ == phase_debug(m.status.phase)
                        }
                    },
                }
            }
        },
    }
}

/// Checks the persisted preferred model against the tracker's snapshot.
pub fn verify_preferred_model(preferences: &RouterControlPreferences, tracker: &RouterObservabilityTracker) -> (r: PreferredModelVerification)
    ensures
        preferred_verdict_holds(r, *preferences, *tracker),
{
    let preferred = match &preferences.preferred_model {
        None => {
            return PreferredModelVerification::NotConfigured;
        },
        Some(p) => p,
    };
    if !tracker.is_live() {
        return PreferredModelVerification::NeedsLiveReconciliation;
    }
    let snapshot = match &tracker.current {
        Some(s) => s,
        None => {
            return PreferredModelVerification::NeedsLiveReconciliation;
        },
    };
    if snapshot.registry.role != RouterRole::Router {
        return PreferredModelVerification::Unsupported { reason: "selected endpoint is not a router".to_owned() };
    }
    if !snapshot.registry.static_capabilities.models_autoload {
        return PreferredModelVerification::Unsupported {
            reason: "runtime does not advertise models-autoload; startup/default behavior remains N/A rather than inferred".to_owned(),
        };
    }
    let model = match crate::router_operations::registry_model(&snapshot.registry, preferred.as_str()) {
        Ok(m) => m,
        Err(_) => {
            return PreferredModelVerification::Missing { model: preferred.clone() };
        },
    };
    if model.status.failed {
        return PreferredModelVerification::NotReady { model: preferred.clone(), phase: "FAILED".to_owned() };
    }
    match model.status.phase {
        RouterModelPhase::Loaded | RouterModelPhase::Sleeping => PreferredModelVerification::Verified { model: preferred.clone() },
        _ => PreferredModelVerification::NotReady { model: preferred.clone(), phase: phase_debug_text(&model.status.phase) },
    }
}

/// A preferred model is verified only by a live snapshot: after a failed
/// refresh (or while one runs) the verdict asks for live reconciliation.
pub proof fn law_preferred_model_needs_live_snapshot(r: PreferredModelVerification, prefs: RouterControlPreferences, tracker: RouterObservabilityTracker)
    requires
        preferred_verdict_holds(r, prefs, tracker),
        prefs.preferred_model is Some,
        tracker.loading || tracker.last_error is Some || tracker.current is None,
    ensures
        r == PreferredModelVerification::NeedsLiveReconciliation,
{
}

/// A mutation the operator can ask for.
#[derive(Debug, Clone, Copy, PartialEq, Eq, Structural)]
pub enum RequestedAction {
    Reload,
    Load,
    Unload,
    Preload,
    Switch,
}

impl RequestedAction {
    pub fn label(self) -> (r: &'static str)
        ensures
            r@ == match self {
                RequestedAction::Reload => "RELOAD REGISTRY"@,
                RequestedAction::Load => "LOAD"@,
                RequestedAction::Unload => "UNLOAD"@,
                RequestedAction::Preload => "PRELOAD"@,
                RequestedAction::Switch => "SWITCH"@,
            },
    {
        match self {
            RequestedAction::Reload => "RELOAD REGISTRY",
            RequestedAction::Load => "LOAD",
            RequestedAction::Unload => "UNLOAD",
            RequestedAction::Preload => "PRELOAD",
            RequestedAction::Switch => "SWITCH",
        }
    }
}

/// The endpoint evidence that governs an action; a switch is limited by
/// unload once load is supported, by load otherwise.
pub open spec fn governing_feature(registry: RouterRegistry, action: RequestedAction) -> RouterFeatureEvidence {
    match action {
        RequestedAction::Reload => registry.endpoints.reload_models,
        RequestedAction::Load | RequestedAction::Preload => registry.endpoints.load_model,
        RequestedAction::Unload => registry.endpoints.unload_model,
        RequestedAction::Switch => if registry.endpoints.load_model.state == RouterFeatureState::Supported {
            registry.endpoints.unload_model
        } else {
            registry.endpoints.load_model
        },
    }
}

pub fn feature_for<'a>(registry: &'a RouterRegistry, action: RequestedAction) -> (r: &'a RouterFeatureEvidence)
    ensures
        *r == governing_feature(*registry, action),
{
    match action {
        RequestedAction::Reload => &registry.endpoints.reload_models,
        RequestedAction::Load | RequestedAction::Preload => &registry.endpoints.load_model,
        RequestedAction::Unload => &registry.endpoints.unload_model,
        RequestedAction::Switch => if registry.endpoints.load_model.state == RouterFeatureState::Supported {
            &registry.endpoints.unload_model
        } else {
            &registry.endpoints.load_model
        },
    }
}

/// Whether an action may run now, with the reason shown for it: nothing runs
/// while busy or without a live router snapshot, and only a supported
/// endpoint authorizes a mutation.
pub open spec fn action_support_holds(r: (bool, String), busy: bool, tracker: RouterObservabilityTracker, action: RequestedAction) -> bool {
    if busy {
        !r.0 && r.1@ == "another refresh or operation is running"@
    } else if freshness_of(tracker) != RouterSnapshotFreshness::Live {
        !r.0 && r.1@ == "requires a live reconciled router snapshot; stale state cannot authorize mutation"@
    } else if tracker.current->0.registry.role != RouterRole::Router {
        !r.0 && r.1@ == "selected endpoint is a single-model server"@
    } else {
        let f = governing_feature(tracker.current->0.registry, action);
        match f.state {
            RouterFeatureState::Supported => r.0 && r.1@ == f.reason@,
            RouterFeatureState::Unsupported => !r.0 && r.1@ == "unsupported: "@ + f.reason@,
            RouterFeatureState::Unknown => !r.0 && r.1@ == "support unknown: "@ + f.reason@,
        }
    }
}

pub fn action_support(busy: bool, tracker: &RouterObservabilityTracker, action: RequestedAction) -> (r: (bool, String))
    ensures
        action_support_holds(r, busy, *tracker, action),
{
    if busy {
        return (false, "another refresh or operation is running".to_owned());
    }
    if !tracker.is_live() {
        return (false, "requires a live reconciled router snapshot; stale state cannot authorize mutation".to_owned());
    }
    let snapshot = match &tracker.current {
        Some(s) => s,
        None => {
            return (false, "no live router snapshot".to_owned());
        },
    };
    if snapshot.registry.role != RouterRole::Router {
        return (false, "selected endpoint is a single-model server".to_owned());
    }
    let feature = feature_for(&snapshot.registry, action);
    match feature.state {
        RouterFeatureState::Supported => (true, feature.reason.clone()),
        RouterFeatureState::Unsupported => {
            let mut out: Vec<char> = Vec::new();
            push_str(&mut out, "unsupported: ");
            push_str(&mut out, feature.reason.as_str());
            (false, string_from_chars(out.as_slice()))
        },
        RouterFeatureState::Unknown => {
            let mut out: Vec<char> = Vec::new();
            push_str(&mut out, "support unknown: ");
            push_str(&mut out, feature.reason.as_str());
            (false, string_from_chars(out.as_slice()))
        },
    }
}

/// A mutation is never authorized by a snapshot that is not live.
pub proof fn law_stale_snapshot_never_authorizes(r: (bool, String), busy: bool, tracker: RouterObservabilityTracker, action: RequestedAction)
    requires
        action_support_holds(r, busy, tracker, action),
        freshness_of(tracker) != RouterSnapshotFreshness::Live,
    ensures
        !r.0,
{
}

/// The endpoint typed into the management form: host and API key are
/// trimmed, an empty key is none, and the port must read as 1..=65535.
pub open spec fn endpoint_fields_hold(r: Result<ServerEndpoint, String>, host: Seq<char>, port_text: Seq<char>, api_key: Seq<char>, allow_non_loopback: bool) -> bool {
    let h = crate::text::trim(host);
    let p = crate::text::parse_unsigned(crate::text::trim(port_text), 65535);
    let k = crate::text::trim(api_key);
    if h.len() == 0 {
        r matches Err(m) && m@ == "Host cannot be empty."@
    } else if p is None {
        r matches Err(m) && m@ == "Port must be an integer in 1..=65535."@
    } else if p == Some(0nat) {
        r matches Err(m) && m@ == "Port must be in 1..=65535."@
    } else {
        r matches Ok(e) && e.host@ == h && e.port == p->0 && e.allow_non_loopback == allow_non_loopback && if k.len() == 0 {
            e.api_key is None
        } else {
            e.api_key matches Some(x) && x@ == k
        }
    }
}

pub fn endpoint_from_fields(host: &str, port_text: &str, api_key: &str, allow_non_loopback: bool) -> (r: Result<ServerEndpoint, String>)
    ensures
        endpoint_fields_hold(r, host@, port_text@, api_key@, allow_non_loopback),
{
    let hc = crate::strings::chars_of(host);
    let h = crate::text::trim_chars(hc.as_slice());
    if h.len() == 0 {
        return Err("Host cannot be empty.".to_owned());
    }
    let pc = crate::strings::chars_of(port_text);
    let pt = crate::text::trim_chars(pc.as_slice());
    let port = match crate::text::parse_unsigned_chars(pt.as_slice(), 65535) {
        None => {
            return Err("Port must be an integer in 1..=65535.".to_owned());
        },
        Some(p) => p,
    };
    if port == 0 {
        return Err("Port must be in 1..=65535.".to_owned());
    }
    let kc = crate::strings::chars_of(api_key);
    let k = crate::text::trim_chars(kc.as_slice());
    let key = if k.len() == 0 {
        None
    } else {
        Some(string_from_chars(k.as_slice()))
    };
    Ok(ServerEndpoint { host: string_from_chars(h.as_slice()), port: port as u16, api_key: key, allow_non_loopback })
}

/// Whether a selection names a model of the snapshot.
pub open spec fn selection_valid(selected: Option<String>, models: Seq<RouterModelObservability>) -> bool {
    selected matches Some(s) && exists|i: int| 0 <= i < models.len() && #[trigger] models[i].model.id@ == s@
}

fn is_listed(selected: &Option<String>, models: &Vec<RouterModelObservability>) -> (r: bool)
    ensures
        r == selection_valid(*selected, models@),
{
    let s = match selected {
        Some(s) => s,
        None => {
            return false;
        },
    };
    let mut i: usize = 0;
    while i < models.len()
        invariant
            *selected == Some(*s),
            i <= models@.len(),
            forall|k: int| 0 <= k < i ==> models@[k].model.id@ != s@,
        decreases models@.len() - i,
    {
        if models[i].model.id == *s {
            assert(models@[i as int].model.id@ == s@);
            return true;
        }
        i = i + 1;
    }
    false
}

/// The first model that is ready and healthy.
pub open spec fn first_ready(models: Seq<RouterModelObservability>, i: int) -> Option<int>
    decreases models.len() - i,
{
    if i < 0 || i >= models.len() {
        None
    } else if phase_ready(models[i].model.status.phase) && !models[i].model.status.failed {
        Some(i)
    } else {
        first_ready(models, i + 1)
    }
}

/// Keeps selections that still name a model; otherwise the target becomes
/// the first model and the source the first ready one (or the first model).
pub fn reconcile_selection(selected_source: &mut Option<String>, selected_target: &mut Option<String>, snapshot: &RouterObservabilitySnapshot)
    ensures
        selection_valid(*old(selected_target), snapshot.models@) ==> *final(selected_target) == *old(selected_target),
        !selection_valid(*old(selected_target), snapshot.models@) ==> match *final(selected_target) {
            Some(t) => snapshot.models@.len() > 0 && t@ == snapshot.models@[0].model.id@,
            None => snapshot.models@.len() == 0,
        },
        selection_valid(*old(selected_source), snapshot.models@) ==> *final(selected_source) == *old(selected_source),
        !selection_valid(*old(selected_source), snapshot.models@) ==> match first_ready(snapshot.models@, 0) {
            Some(i) => *final(selected_source) matches Some(s) && s@ == snapshot.models@[i].model.id@,
            None => match *final(selected_source) {
                Some(s) => snapshot.models@.len() > 0 && s@ == snapshot.models@[0].model.id@,
                None => snapshot.models@.len() == 0,
            },
        },
{
    let models = &snapshot.models;
    if !is_listed(selected_target, models) {
        *selected_target = if models.len() > 0 {
            Some(models[0].model.id.clone())
        } else {
            None
        };
    }
    if !is_listed(selected_source, models) {
        let mut i: usize = 0;
        let mut found: Option<String> = None;
        while i < models.len() && found.is_none()
            invariant
                i <= models@.len(),
                found is None ==> first_ready(models@, 0) == first_ready(models@, i as int),
                found matches Some(s) ==> first_ready(models@, 0) matches Some(j) && s@ == models@[j].model.id@,
            decreases models@.len() - i,
        {
            if crate::router_operations::is_ready(&models[i].model.status.phase) && !models[i].model.status.failed {
                found = Some(models[i].model.id.clone());
            }
            i = i + 1;
        }
        *selected_source = match found {
            Some(s) => Some(s),
            None => if models.len() > 0 {
                Some(models[0].model.id.clone())
            } else {
                None
            },
        };
    }
}

/// How a preferred-model result is shown: headline, CSS class, explanation.
pub open spec fn verdict_badge_holds(r: (String, &'static str, String), v: PreferredModelVerification) -> bool {
    match v {
        PreferredModelVerification::NotConfigured => r.0@ == "NOT SET"@ && r.1@ == "rm-warn"@
            && r.2@ == "No preferred model is persisted."@,
        PreferredModelVerification::NeedsLiveReconciliation => r.0@ == "UNVERIFIED"@ && r.1@ == "rm-warn"@
            && r.2@ == "A live post-reconnect snapshot is required before any readiness claim."@,
        PreferredModelVerification::Unsupported { reason } => r.0@ == "N/A"@ && r.1@ == "rm-warn"@ && r.2@ == reason@,
        PreferredModelVerification::Missing { model } => r.0@ == "MISSING"@ && r.1@ == "rm-error"@
            && r.2@ == "Preferred model `"@ + model@ + "` is absent from the live registry."@,
        PreferredModelVerification::NotReady { model, phase } => r.0@ == "NOT READY"@ && r.1@ == "rm-error"@
            && r.2@ == "Preferred model `"@ + model@ + "` reconciled as "@ + phase@ + "."@,
        PreferredModelVerification::Verified { model } => r.0@ == "VERIFIED LIVE"@ && r.1@ == "rm-live"@
            && r.2@ == "Preferred model `"@ + model@ + "` is ready in the current live registry."@,
    }
}

pub fn verification_text(value: &PreferredModelVerification) -> (r: (String, &'static str, String))
    ensures
        verdict_badge_holds(r, *value),
{
    match value {
        PreferredModelVerification::NotConfigured => ("NOT SET".to_owned(), "rm-warn", "No preferred model is persisted.".to_owned()),
        PreferredModelVerification::NeedsLiveReconciliation => (
            "UNVERIFIED".to_owned(),
            "rm-warn",
            "A live post-reconnect snapshot is required before any readiness claim.".to_owned(),
        ),
        PreferredModelVerification::Unsupported { reason } => ("N/A".to_owned(), "rm-warn", reason.clone()),
        PreferredModelVerification::Missing { model } => {
            let mut out: Vec<char> = Vec::new();
            push_str(&mut out, "Preferred model `");
            push_str(&mut out, model.as_str());
            push_str(&mut out, "` is absent from the live registry.");
            ("MISSING".to_owned(), "rm-error", string_from_chars(out.as_slice()))
        },
        PreferredModelVerification::NotReady { model, phase } => {
            let mut out: Vec<char> = Vec::new();
            push_str(&mut out, "Preferred model `");
            push_str(&mut out, model.as_str());
            push_str(&mut out, "` reconciled as ");
            push_str(&mut out, phase.as_str());
            push_str(&mut out, ".");
            ("NOT READY".to_owned(), "rm-error", string_from_chars(out.as_slice()))
        },
        PreferredModelVerification::Verified { model } => {
            let mut out: Vec<char> = Vec::new();
            push_str(&mut out, "Preferred model `");
            push_str(&mut out, model.as_str());
            push_str(&mut out, "` is ready in the current live registry.");
            ("VERIFIED LIVE".to_owned(), "rm-live", string_from_chars(out.as_slice()))
        },
    }
}

/// How a model's phase is shown: a failure first, then the phase.
pub open spec fn phase_text_holds(r: (String, &'static str), m: RouterModelObservability) -> bool {
    if m.model.status.failed {
        r.0@ == "FAILED · "@ + phase_debug(m.model.status.phase) && r.1@ == "rm-error"@
    } else {
        match m.model.status.phase {
            RouterModelPhase::Loaded => r.0@ == "LOADED"@ && r.1@ == "rm-live"@,
            RouterModelPhase::Sleeping => r.0@ == "SLEEPING"@ && r.1@ == "rm-live"@,
            RouterModelPhase::Unloaded => r.0@ == "UNLOADED"@ && r.1@ == "rm-warn"@,
            RouterModelPhase::Loading => r.0@ == "LOADING"@ && r.1@ == "rm-warn"@,
            RouterModelPhase::Downloading => r.0@ == "DOWNLOADING"@ && r.1@ == "rm-warn"@,
            RouterModelPhase::Unknown(v) => r.0@ == "UNKNOWN · "@ + v@ && r.1@ == "rm-warn"@,
        }
    }
}

pub fn phase_text(model: &RouterModelObservability) -> (r: (String, &'static str))
    ensures
        phase_text_holds(r, *model),
{
    if model.model.status.failed {
        let mut out: Vec<char> = Vec::new();
        push_str(&mut out, "FAILED · ");
        let p = phase_debug_text(&model.model.status.phase);
        push_str(&mut out, p.as_str());
        return (string_from_chars(out.as_slice()), "rm-error");
    }
    match &model.model.status.phase {
        RouterModelPhase::Loaded => ("LOADED".to_owned(), "rm-live"),
        RouterModelPhase::Sleeping => ("SLEEPING".to_owned(), "rm-live"),
        RouterModelPhase::Unloaded => ("UNLOADED".to_owned(), "rm-warn"),
        RouterModelPhase::Loading => ("LOADING".to_owned(), "rm-warn"),
        RouterModelPhase::Downloading => ("DOWNLOADING".to_owned(), "rm-warn"),
        RouterModelPhase::Unknown(v) => {
            let mut out: Vec<char> = Vec::new();
            push_str(&mut out, "UNKNOWN · ");
            push_str(&mut out, v.as_str());
            (string_from_chars(out.as_slice()), "rm-warn")
        },
    }
}

/// Residency is shown only when observed.
pub fn residency_text(model: &RouterModelObservability) -> (r: (String, &'static str))
    ensures
        model.residency.availability == EvidenceAvailability::Observed && model.residency.value == Some(true)
            ==> r.0@ == "RESIDENT · OBSERVED"@ && r.1@ == "rm-live"@,
        model.residency.availability == EvidenceAvailability::Observed && model.residency.value == Some(false)
            ==> r.0@ == "NOT RESIDENT · OBSERVED"@ && r.1@ == "rm-warn"@,
        !(model.residency.availability == EvidenceAvailability::Observed && model.residency.value is Some)
            ==> r.0@ == "UNKNOWN / UNAVAILABLE"@ && r.1@ == "rm-warn"@,
{
    match (model.residency.availability, model.residency.value) {
        (EvidenceAvailability::Observed, Some(true)) => ("RESIDENT · OBSERVED".to_owned(), "rm-live"),
        (EvidenceAvailability::Observed, Some(false)) => ("NOT RESIDENT · OBSERVED".to_owned(), "rm-warn"),
        _ => ("UNKNOWN / UNAVAILABLE".to_owned(), "rm-warn"),
    }
}

/// Active requests are shown only when observed; a positive count is an
/// error style.
pub fn active_text(model: &RouterModelObservability) -> (r: (String, &'static str))
    ensures
        model.active_requests.availability == EvidenceAvailability::Observed && model.active_requests.value == Some(0u64)
            ==> r.0@ == "0 · OBSERVED"@ && r.1@ == "rm-live"@,
        model.active_requests.availability == EvidenceAvailability::Observed && (model.active_requests.value matches Some(n) && n > 0)
            ==> r.0@ == decimal(model.active_requests.value->0 as nat) + " · ACTIVE"@ && r.1@ == "rm-error"@,
        !(model.active_requests.availability == EvidenceAvailability::Observed && model.active_requests.value is Some)
            ==> r.0@ == "UNKNOWN / UNAVAILABLE"@ && r.1@ == "rm-warn"@,
{
    match (model.active_requests.availability, model.active_requests.value) {
        (EvidenceAvailability::Observed, Some(0)) => ("0 · OBSERVED".to_owned(), "rm-live"),
        (EvidenceAvailability::Observed, Some(n)) => {
            let mut out: Vec<char> = Vec::new();
            let d = decimal_chars(n);
            push_chars(&mut out, d.as_slice());
            push_str(&mut out, " · ACTIVE");
            (string_from_chars(out.as_slice()), "rm-error")
        },
        _ => ("UNKNOWN / UNAVAILABLE".to_owned(), "rm-warn"),
    }
}

} // verus!
