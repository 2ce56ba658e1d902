//! Alert vocabulary, the checks of the alert engine (capacities, unique rule
//! ids, rule lookup, sample ordering), and the per-instance state machine
//! that turns sustained threshold crossings into fired and resolved events.
//! Readings are carried as an opaque type `V`: comparing a reading with a
//! threshold is the caller's, and the machine sees only the outcome.
use vstd::prelude::*;
use crate::telemetry_history::{MetricSupport, SampleSource, SeriesKey, TimeSeriesState};
use crate::strings::{push_str, string_from_chars};

verus! {

#[derive(Debug, Clone, Copy, PartialEq, Eq, Structural)]
pub enum AlertSeverity {
    Info,
    Warning,
    Critical,
}

#[derive(Debug, Clone, Copy, PartialEq, Eq, Structural)]
pub enum AlertComparator {
    Above,
    Below,
}

#[derive(Debug, Clone, PartialEq, Eq)]
pub enum AlertError {
    InvalidRule(String),
    DuplicateRuleId(String),
    UnknownRule(String),
    InvalidHistoryCapacity,
    InvalidEvidenceCapacity,
    SourceMismatch,
    OutOfOrderSample { previous: u64, incoming: u64 },
}

#[derive(Debug, Clone, Copy, PartialEq, Eq, Structural)]
pub enum AlertPresentationState {
    Inactive,
    Pending,
    Active,
    Suppressed,
    Clearing,
}

#[derive(Debug, Clone, Copy, PartialEq, Eq, Structural)]
pub enum AlertEventKind {
    Fired,
    Resolved,
}

/// An engine keeps at least one history event and one evidence sample.
pub fn check_capacities(history_capacity: usize, evidence_capacity: usize) -> (r: Result<(), AlertError>)
    ensures
        history_capacity == 0 ==> r == Err::<(), AlertError>(AlertError::InvalidHistoryCapacity),
        history_capacity > 0 && evidence_capacity == 0 ==> r == Err::<(), AlertError>(AlertError::InvalidEvidenceCapacity),
        history_capacity > 0 && evidence_capacity > 0 ==> r is Ok,
{
    if history_capacity == 0 {
        return Err(AlertError::InvalidHistoryCapacity);
    }
    if evidence_capacity == 0 {
        return Err(AlertError::InvalidEvidenceCapacity);
    }
    Ok(())
}

/// The first id that repeats an earlier one, scanning from the front.
pub open spec fn first_repeat(ids: Seq<Seq<char>>, i: int) -> Option<int>
    decreases ids.len() - i,
{
    if i < 0 || i >= ids.len() {
        None
    } else if ids.subrange(0, i).contains(ids[i]) {
        Some(i)
    } else {
        first_repeat(ids, i + 1)
    }
}

/// Rule ids must be unique: the first repeated id is reported.
pub fn check_unique_rule_ids(ids: &Vec<String>) -> (r: Result<(), AlertError>)
    ensures
        match first_repeat(ids@.map_values(|s: String| s@), 0) {
            None => r is Ok,
            Some(i) => r matches Err(AlertError::DuplicateRuleId(id)) && id@ == ids@[i]@,
        },
{
    let ghost v = ids@.map_values(|s: String| s@);
    let mut i: usize = 0;
    while i < ids.len()
        invariant
            v == ids@.map_values(|s: String| s@),
            i <= ids@.len(),
            first_repeat(v, 0) == first_repeat(v, i as int),
        decreases ids@.len() - i,
    {
        let mut j: usize = 0;
        let mut seen = false;
        while j < i
            invariant
                v == ids@.map_values(|s: String| s@),
                j <= i < ids@.len(),
                seen == exists|k: int| 0 <= k < j && v[k] == v[i as int],
            decreases i - j,
        {
            assert(v[j as int] == ids@[j as int]@ && v[i as int] == ids@[i as int]@);
            if ids[j] == ids[i] {
                seen = true;
            }
            j = j + 1;
        }
        proof {
            if seen {
                let k = choose|k: int| 0 <= k < i && v[k] == v[i as int];
                assert(v.subrange(0, i as int)[k] == v[i as int]);
            } else {
                assert forall|k: int| 0 <= k < i implies v.subrange(0, i as int)[k] != v[i as int] by {
                    assert(v.subrange(0, i as int)[k] == v[k]);
                }
            }
        }
        if seen {
            return Err(AlertError::DuplicateRuleId(ids[i].clone()));
        }
        i = i + 1;
    }
    Ok(())
}

/// The position of the rule named `id`, or `UnknownRule`.
pub fn find_rule(ids: &Vec<String>, id: &str) -> (r: Result<usize, AlertError>)
    ensures
        match r {
            Ok(i) => i < ids@.len() && ids@[i as int]@ == id@ && forall|k: int| 0 <= k < i ==> ids@[k]@ != id@,
            Err(e) => e matches AlertError::UnknownRule(x) && x@ == id@ && forall|k: int| 0 <= k < ids@.len() ==> ids@[k]@ != id@,
        },
{
    let owned = id.to_owned();
    let mut i: usize = 0;
    while i < ids.len()
        invariant
            owned@ == id@,
            i <= ids@.len(),
            forall|k: int| 0 <= k < i ==> ids@[k]@ != id@,
        decreases ids@.len() - i,
    {
        if ids[i] == owned {
            return Ok(i);
        }
        i = i + 1;
    }
    Err(AlertError::UnknownRule(owned))
}

/// Samples of one alert instance must not go back in time.
pub fn check_sample_order(previous: Option<u64>, incoming: u64) -> (r: Result<(), AlertError>)
    ensures
        (previous matches Some(p) && incoming < p) ==> r == Err::<(), AlertError>(AlertError::OutOfOrderSample {
            previous: previous->0,
            incoming,
        }),
        !(previous matches Some(p) && incoming < p) ==> r is Ok,
{
    match previous {
        Some(p) => if incoming < p {
            Err(AlertError::OutOfOrderSample { previous: p, incoming })
        } else {
            Ok(())
        },
        None => Ok(()),
    }
}


/// A sample's source must be the series key's.
pub fn check_alert_source(key: &SeriesKey, source: &SampleSource) -> (r: Result<(), AlertError>)
    ensures
        r is Ok <==> crate::telemetry_history::source_matches(*source, *key),
        r is Err ==> r == Err::<(), AlertError>(AlertError::SourceMismatch),
{
    if key.metric != source.metric || key.source_provider != source.provider || key.source_api != source.api {
        Err(AlertError::SourceMismatch)
    } else {
        Ok(())
    }
}

/// Whether a rule with this metric and source watches the series `key`.
pub fn alert_rule_matches(metric: &String, source_provider: &String, source_api: &String, key: &SeriesKey) -> (r: bool)
    ensures
        r == (metric@ == key.metric@ && source_provider@ == key.source_provider@ && source_api@ == key.source_api@),
{
    *metric == key.metric && *source_provider == key.source_provider && *source_api == key.source_api
}

/// The first of a rule's text fields that is blank, by its name.
pub open spec fn first_blank(fields: Seq<(Seq<char>, Seq<char>)>, i: int) -> Option<Seq<char>>
    decreases fields.len() - i,
{
    if i < 0 || i >= fields.len() {
        None
    } else if crate::text::trim(fields[i].1).len() == 0 {
        Some(fields[i].0)
    } else {
        first_blank(fields, i + 1)
    }
}

fn blank(value: &String) -> (r: bool)
    ensures
        r == (crate::text::trim(value@).len() == 0),
{
    let v = crate::text::chars_of_string(value);
    let t = crate::text::trim_chars(v.as_slice());
    t.len() == 0
}

fn blank_field_error(name: &str) -> (r: AlertError)
    ensures
        r matches AlertError::InvalidRule(m) && m@ == "alert rule "@ + name@ + " cannot be empty"@,
{
    let mut out: Vec<char> = Vec::new();
    push_str(&mut out, "alert rule ");
    push_str(&mut out, name);
    push_str(&mut out, " cannot be empty");
    AlertError::InvalidRule(string_from_chars(out.as_slice()))
}

/// A rule's id, metric, source and reason must not be blank; the first
/// blank one, in that order, is reported.
pub fn check_rule_texts(id: &String, metric: &String, source_provider: &String, source_api: &String, reason: &String) -> (r: Result<(), AlertError>)
    ensures
        ({
            let fields = seq![
                ("id"@, id@),
                ("metric"@, metric@),
                ("source_provider"@, source_provider@),
                ("source_api"@, source_api@),
                ("reason"@, reason@),
            ];
            match first_blank(fields, 0) {
                None => r is Ok,
                Some(name) => r matches Err(AlertError::InvalidRule(m)) && m@ == "alert rule "@ + name + " cannot be empty"@,
            }
        }),
{
    let ghost fields = seq![
        ("id"@, id@),
        ("metric"@, metric@),
        ("source_provider"@, source_provider@),
        ("source_api"@, source_api@),
        ("reason"@, reason@),
    ];
    proof {
        reveal_strlit("id");
        reveal_strlit("metric");
        reveal_strlit("source_provider");
        reveal_strlit("source_api");
        reveal_strlit("reason");
        assert(first_blank(fields, 5) is None);
        assert(first_blank(fields, 4) == if crate::text::trim(reason@).len() == 0 { Some("reason"@) } else { first_blank(fields, 5) });
        assert(first_blank(fields, 3) == if crate::text::trim(source_api@).len() == 0 { Some("source_api"@) } else { first_blank(fields, 4) });
        assert(first_blank(fields, 2) == if crate::text::trim(source_provider@).len() == 0 { Some("source_provider"@) } else { first_blank(fields, 3) });
        assert(first_blank(fields, 1) == if crate::text::trim(metric@).len() == 0 { Some("metric"@) } else { first_blank(fields, 2) });
        assert(first_blank(fields, 0) == if crate::text::trim(id@).len() == 0 { Some("id"@) } else { first_blank(fields, 1) });
    }
    if blank(id) {
        return Err(blank_field_error("id"));
    }
    if blank(metric) {
        return Err(blank_field_error("metric"));
    }
    if blank(source_provider) {
        return Err(blank_field_error("source_provider"));
    }
    if blank(source_api) {
        return Err(blank_field_error("source_api"));
    }
    if blank(reason) {
        return Err(blank_field_error("reason"));
    }
    Ok(())
}

/// A rule needs a positive window and at least one live sample.
pub fn check_rule_timing(window_ms: u64, min_live_samples: usize) -> (r: Result<(), AlertError>)
    ensures
        window_ms == 0 ==> (r matches Err(AlertError::InvalidRule(m)) && m@ == "alert window_ms must be greater than zero"@),
        window_ms > 0 && min_live_samples == 0 ==> (r matches Err(AlertError::InvalidRule(m))
            && m@ == "min_live_samples must be greater than zero"@),
        window_ms > 0 && min_live_samples > 0 ==> r is Ok,
{
    if window_ms == 0 {
        return Err(AlertError::InvalidRule("alert window_ms must be greater than zero".to_owned()));
    }
    if min_live_samples == 0 {
        return Err(AlertError::InvalidRule("min_live_samples must be greater than zero".to_owned()));
    }
    Ok(())
}

/// Whether a sample may be evaluated against thresholds: a supported metric
/// in the live state (its reading must also be finite, which the caller
/// checks).
pub fn is_live_supported(state: &TimeSeriesState, support: MetricSupport) -> (r: bool)
    ensures
        r == (support == MetricSupport::Supported && *state is Live),
{
    support == MetricSupport::Supported && match state {
        TimeSeriesState::Live => true,
        _ => false,
    }
}

/// Why a sample suppresses an alert instead of being evaluated.
pub open spec fn non_live_text(state: TimeSeriesState, support: MetricSupport) -> Seq<char> {
    match state {
        TimeSeriesState::Live => if support != MetricSupport::Supported {
            "metric support state is "@ + match support {
                MetricSupport::Supported => "Supported"@,
                MetricSupport::Unavailable => "Unavailable"@,
                MetricSupport::Error => "Error"@,
            }
        } else {
            "live sample has no finite value"@
        },
        TimeSeriesState::Stale { reason, .. } => "stale telemetry: "@ + reason@,
        TimeSeriesState::Disconnected { reason } => "telemetry disconnected: "@ + reason@,
        TimeSeriesState::Paused { reason } => "telemetry paused: "@ + reason@,
        TimeSeriesState::Unavailable { reason } => "metric unavailable: "@ + reason@,
        TimeSeriesState::Error { message } => "telemetry error: "@ + message@,
        TimeSeriesState::Reset { reason } => "metric reset: "@ + reason@,
    }
}

pub fn non_live_reason(state: &TimeSeriesState, support: MetricSupport) -> (r: String)
    ensures
        r@ == non_live_text(*state, support),
{
    let mut out: Vec<char> = Vec::new();
    match state {
        TimeSeriesState::Live => {
            if support != MetricSupport::Supported {
                push_str(&mut out, "metric support state is ");
                match support {
                    MetricSupport::Supported => push_str(&mut out, "Supported"),
                    MetricSupport::Unavailable => push_str(&mut out, "Unavailable"),
                    MetricSupport::Error => push_str(&mut out, "Error"),
                }
            } else {
                push_str(&mut out, "live sample has no finite value");
            }
        },
        TimeSeriesState::Stale { reason, .. } => {
            push_str(&mut out, "stale telemetry: ");
            push_str(&mut out, reason.as_str());
        },
        TimeSeriesState::Disconnected { reason } => {
            push_str(&mut out, "telemetry disconnected: ");
            push_str(&mut out, reason.as_str());
        },
        TimeSeriesState::Paused { reason } => {
            push_str(&mut out, "telemetry paused: ");
            push_str(&mut out, reason.as_str());
        },
        TimeSeriesState::Unavailable { reason } => {
            push_str(&mut out, "metric unavailable: ");
            push_str(&mut out, reason.as_str());
        },
        TimeSeriesState::Error { message } => {
            push_str(&mut out, "telemetry error: ");
            push_str(&mut out, message.as_str());
        },
        TimeSeriesState::Reset { reason } => {
            push_str(&mut out, "metric reset: ");
            push_str(&mut out, reason.as_str());
        },
    }
    string_from_chars(out.as_slice())
}

/// Consecutive samples, each with its timestamp and reading, that satisfy a
/// rule's trigger (or clear) condition; the oldest are dropped beyond the
/// evidence capacity.
#[derive(Debug, Clone)]
pub struct PendingWindow<V> {
    pub started_at_unix_ms: u64,
    pub samples: Vec<(u64, V)>,
}

/// The integer parameters of a rule that pace its transitions.
#[derive(Debug, Clone, Copy, PartialEq, Eq, Structural)]
pub struct AlertTiming {
    pub window_ms: u64,
    pub debounce_ms: u64,
    pub min_live_samples: usize,
}

/// The state of one rule on one series.
#[derive(Debug, Clone)]
pub struct AlertInstanceState<V> {
    pub active: bool,
    pub trigger_window: Option<PendingWindow<V>>,
    pub clear_window: Option<PendingWindow<V>>,
    pub last_transition_at_unix_ms: Option<u64>,
    pub last_observed_at_unix_ms: Option<u64>,
}

/// A window by its start and samples.
pub type WindowView<V> = (u64, Seq<(u64, V)>);

/// An instance state by its values.
pub ghost struct AlertInstanceView<V> {
    pub active: bool,
    pub trigger: Option<WindowView<V>>,
    pub clear: Option<WindowView<V>>,
    pub last_transition: Option<u64>,
    pub last_observed: Option<u64>,
}

pub open spec fn window_view<V>(w: PendingWindow<V>) -> WindowView<V> {
    (w.started_at_unix_ms, w.samples@)
}

pub open spec fn opt_window_view<V>(w: Option<PendingWindow<V>>) -> Option<WindowView<V>> {
    match w {
        Some(x) => Some(window_view(x)),
        None => None,
    }
}

pub open spec fn instance_view<V>(s: AlertInstanceState<V>) -> AlertInstanceView<V> {
    AlertInstanceView {
        active: s.active,
        trigger: opt_window_view(s.trigger_window),
        clear: opt_window_view(s.clear_window),
        last_transition: s.last_transition_at_unix_ms,
        last_observed: s.last_observed_at_unix_ms,
    }
}

/// The last `cap` samples.
pub open spec fn bounded<V>(s: Seq<(u64, V)>, cap: int) -> Seq<(u64, V)> {
    if s.len() > cap {
        s.subrange(s.len() - cap, s.len() as int)
    } else {
        s
    }
}

/// A window after a sample that satisfies its condition: a new window starts
/// at the sample; an existing one takes it unless it started at the same
/// instant.
pub open spec fn extended<V>(w: Option<WindowView<V>>, t: u64, v: V, cap: int) -> WindowView<V> {
    match w {
        None => (t, seq![(t, v)]),
        Some(x) => if x.0 == t {
            x
        } else {
            (x.0, bounded(x.1.push((t, v)), cap))
        },
    }
}

/// `t - start`, or zero before the start.
pub open spec fn elapsed_since(start: u64, t: u64) -> int {
    if t >= start {
        t - start
    } else {
        0
    }
}

/// A window is sustained once it spans the rule's window and holds enough
/// live samples.
pub open spec fn sustained<V>(w: WindowView<V>, t: u64, timing: AlertTiming) -> bool {
    elapsed_since(w.0, t) >= timing.window_ms && w.1.len() >= timing.min_live_samples
}

/// Enough time has passed since the last transition.
pub open spec fn debounced(last: Option<u64>, t: u64, debounce_ms: u64) -> bool {
    match last {
        None => true,
        Some(p) => elapsed_since(p, t) >= debounce_ms,
    }
}

/// A transition's event: its kind and the window that justified it.
pub type AlertTransition<V> = Option<(AlertEventKind, WindowView<V>)>;

/// One in-order sample applied to an instance. `live` is `None` for a sample
/// that is not a live reading; otherwise the reading and whether it meets
/// the trigger and the clear condition. A non-live sample suppresses the
/// alert and drops both windows without a transition. An active alert
/// resolves once a sustained run of clearing samples has passed the
/// debounce; an inactive one fires once a sustained run of triggering
/// samples, begun after the debounce, is complete.
pub open spec fn alert_step<V>(s: AlertInstanceView<V>, timing: AlertTiming, t: u64, live: Option<(V, bool, bool)>, cap: int) -> (
    AlertInstanceView<V>,
    AlertPresentationState,
    AlertTransition<V>,
) {
    match live {
        None => (
            AlertInstanceView { active: s.active, trigger: None, clear: None, last_transition: s.last_transition, last_observed: Some(t) },
            AlertPresentationState::Suppressed,
            None,
        ),
        Some((v, trig, clr)) => if s.active {
            if clr {
                let w = extended(s.clear, t, v, cap);
                if sustained(w, t, timing) && debounced(s.last_transition, t, timing.debounce_ms) {
                    (
                        AlertInstanceView { active: false, trigger: None, clear: None, last_transition: Some(t), last_observed: Some(t) },
                        AlertPresentationState::Inactive,
                        Some((AlertEventKind::Resolved, w)),
                    )
                } else {
                    (
                        AlertInstanceView { active: true, trigger: None, clear: Some(w), last_transition: s.last_transition, last_observed: Some(t) },
                        AlertPresentationState::Clearing,
                        None,
                    )
                }
            } else {
                (
                    AlertInstanceView { active: true, trigger: None, clear: None, last_transition: s.last_transition, last_observed: Some(t) },
                    AlertPresentationState::Active,
                    None,
                )
            }
        } else if !trig || !debounced(s.last_transition, t, timing.debounce_ms) {
            (
                AlertInstanceView { active: false, trigger: None, clear: None, last_transition: s.last_transition, last_observed: Some(t) },
                AlertPresentationState::Inactive,
                None,
            )
        } else {
            let w = extended(s.trigger, t, v, cap);
            if sustained(w, t, timing) {
                (
                    AlertInstanceView { active: true, trigger: None, clear: None, last_transition: Some(t), last_observed: Some(t) },
                    AlertPresentationState::Active,
                    Some((AlertEventKind::Fired, w)),
                )
            } else {
                (
                    AlertInstanceView { active: false, trigger: Some(w), clear: None, last_transition: s.last_transition, last_observed: Some(t) },
                    AlertPresentationState::Pending,
                    None,
                )
            }
        },
    }
}

impl<V> AlertInstanceState<V> {
    /// An instance that has seen nothing.
    pub fn new() -> (r: Self)
        ensures
            !r.active,
            r.trigger_window is None,
            r.clear_window is None,
            r.last_transition_at_unix_ms is None,
            r.last_observed_at_unix_ms is None,
    {
        AlertInstanceState {
            active: false,
            trigger_window: None,
            clear_window: None,
            last_transition_at_unix_ms: None,
            last_observed_at_unix_ms: None,
        }
    }
}

fn extend_window<V>(w: Option<PendingWindow<V>>, t: u64, v: V, cap: usize) -> (r: PendingWindow<V>)
    requires
        cap > 0,
    ensures
        window_view(r) == extended(opt_window_view(w), t, v, cap as int),
{
    match w {
        None => {
            let mut samples: Vec<(u64, V)> = Vec::new();
            samples.push((t, v));
            assert(samples@ =~= seq![(t, v)]);
            PendingWindow { started_at_unix_ms: t, samples }
        },
        Some(w) => {
            if w.started_at_unix_ms == t {
                w
            } else {
                let PendingWindow { started_at_unix_ms, mut samples } = w;
                let ghost full = samples@.push((t, v));
                samples.push((t, v));
                while samples.len() > cap
                    invariant
                        cap > 0,
                        samples@.len() <= full.len(),
                        samples@.len() >= cap || samples@.len() == full.len(),
                        samples@ == full.subrange(full.len() - samples@.len(), full.len() as int),
                    decreases samples@.len(),
                {
                    let ghost before = samples@;
                    samples.remove(0);
                    assert(samples@ =~= full.subrange(full.len() - samples@.len(), full.len() as int));
                }
                assert(samples@ =~= bounded(full, cap as int));
                PendingWindow { started_at_unix_ms, samples }
            }
        },
    }
}

fn sustained_exec<V>(w: &PendingWindow<V>, t: u64, timing: AlertTiming) -> (r: bool)
    ensures
        r == sustained(window_view(*w), t, timing),
{
    let elapsed = if t >= w.started_at_unix_ms {
        t - w.started_at_unix_ms
    } else {
        0
    };
    elapsed >= timing.window_ms && w.samples.len() >= timing.min_live_samples
}

fn debounced_exec(last: Option<u64>, t: u64, debounce_ms: u64) -> (r: bool)
    ensures
        r == debounced(last, t, debounce_ms),
{
    match last {
        None => true,
        Some(p) => {
            let elapsed = if t >= p {
                t - p
            } else {
                0
            };
            elapsed >= debounce_ms
        },
    }
}

/// A transition by its values.
pub open spec fn transition_view<V>(e: Option<(AlertEventKind, PendingWindow<V>)>) -> AlertTransition<V> {
    match e {
        Some((k, w)) => Some((k, window_view(w))),
        None => None,
    }
}

/// Applies one sample to an instance: a sample older than the last one seen
/// is refused and changes nothing; any other is applied as `alert_step`
/// says. The result is the instance's presentation and, on a transition,
/// its event kind with the window that justified it.
pub fn observe_alert_sample<V>(state: &mut AlertInstanceState<V>, timing: AlertTiming, t: u64, live: Option<(V, bool, bool)>, evidence_capacity: usize) -> (r: Result<(AlertPresentationState, Option<(AlertEventKind, PendingWindow<V>)>), AlertError>)
    requires
        evidence_capacity > 0,
    ensures
        (old(state).last_observed_at_unix_ms matches Some(p) && t < p) ==> {
            &&& r == Err::<(AlertPresentationState, Option<(AlertEventKind, PendingWindow<V>)>), AlertError>(
                AlertError::OutOfOrderSample { previous: old(state).last_observed_at_unix_ms->0, incoming: t },
            )
            &&& instance_view(*final(state)) == instance_view(*old(state))
        },
        !(old(state).last_observed_at_unix_ms matches Some(p) && t < p) ==> (r matches Ok((presentation, event)) && {
            let step = alert_step(instance_view(*old(state)), timing, t, live, evidence_capacity as int);
            &&& instance_view(*final(state)) == step.0
            &&& presentation == step.1
            &&& transition_view(event) == step.2
        }),
{
    match check_sample_order(state.last_observed_at_unix_ms, t) {
        Err(e) => {
            return Err(e);
        },
        Ok(()) => {},
    }
    state.last_observed_at_unix_ms = Some(t);
    match live {
        None => {
            state.trigger_window = None;
            state.clear_window = None;
            Ok((AlertPresentationState::Suppressed, None))
        },
        Some((v, trig, clr)) => {
            if state.active {
                state.trigger_window = None;
                if clr {
                    let previous = state.clear_window.take();
                    let w = extend_window(previous, t, v, evidence_capacity);
                    if sustained_exec(&w, t, timing) && debounced_exec(state.last_transition_at_unix_ms, t, timing.debounce_ms) {
                        state.active = false;
                        state.last_transition_at_unix_ms = Some(t);
                        Ok((AlertPresentationState::Inactive, Some((AlertEventKind::Resolved, w))))
                    } else {
                        state.clear_window = Some(w);
                        Ok((AlertPresentationState::Clearing, None))
                    }
                } else {
                    state.clear_window = None;
                    Ok((AlertPresentationState::Active, None))
                }
            } else {
                state.clear_window = None;
                if !trig || !debounced_exec(state.last_transition_at_unix_ms, t, timing.debounce_ms) {
                    state.trigger_window = None;
                    return Ok((AlertPresentationState::Inactive, None));
                }
                let previous = state.trigger_window.take();
                let w = extend_window(previous, t, v, evidence_capacity);
                if sustained_exec(&w, t, timing) {
                    state.active = true;
                    state.last_transition_at_unix_ms = Some(t);
                    Ok((AlertPresentationState::Active, Some((AlertEventKind::Fired, w))))
                } else {
                    state.trigger_window = Some(w);
                    Ok((AlertPresentationState::Pending, None))
                }
            }
        },
    }
}

/// An alert fires only on a live triggering reading, after the debounce,
/// from a window that spans the rule's window and holds enough samples,
/// all of them no later than the firing sample; afterwards it is active.
pub proof fn law_alert_fires_only_when_sustained<V>(s: AlertInstanceView<V>, timing: AlertTiming, t: u64, live: Option<(V, bool, bool)>, cap: int, w: WindowView<V>)
    requires
        cap > 0,
        alert_step(s, timing, t, live, cap).2 == Some((AlertEventKind::Fired, w)),
    ensures
        live matches Some((_, trig, _)) && trig,
        !s.active,
        debounced(s.last_transition, t, timing.debounce_ms),
        elapsed_since(w.0, t) >= timing.window_ms,
        w.1.len() >= timing.min_live_samples,
        alert_step(s, timing, t, live, cap).0.active,
        alert_step(s, timing, t, live, cap).0.last_transition == Some(t),
{
}

/// A sample that is not a live reading never fires or resolves an alert and
/// leaves it as active or inactive as it was, with no pending window.
pub proof fn law_non_live_sample_never_transitions<V>(s: AlertInstanceView<V>, timing: AlertTiming, t: u64, cap: int)
    ensures
        alert_step(s, timing, t, None::<(V, bool, bool)>, cap).2 is None,
        alert_step(s, timing, t, None::<(V, bool, bool)>, cap).0.active == s.active,
        alert_step(s, timing, t, None::<(V, bool, bool)>, cap).0.trigger is None,
        alert_step(s, timing, t, None::<(V, bool, bool)>, cap).0.clear is None,
        alert_step(s, timing, t, None::<(V, bool, bool)>, cap).1 == AlertPresentationState::Suppressed,
{
}

/// Hysteresis: an active alert stays active (no event) on a reading that
/// does not meet the clear condition, whatever the trigger condition says.
pub proof fn law_active_alert_needs_clearing_to_resolve<V>(s: AlertInstanceView<V>, timing: AlertTiming, t: u64, v: V, trig: bool, cap: int)
    requires
        s.active,
    ensures
        alert_step(s, timing, t, Some((v, trig, false)), cap).0.active,
        alert_step(s, timing, t, Some((v, trig, false)), cap).2 is None,
        alert_step(s, timing, t, Some((v, trig, false)), cap).1 == AlertPresentationState::Active,
{
}

/// Two transitions of one instance are at least the debounce apart, and an
/// evidence window never holds more than the capacity.
pub proof fn law_transitions_respect_debounce<V>(s: AlertInstanceView<V>, timing: AlertTiming, t: u64, live: Option<(V, bool, bool)>, cap: int, k: AlertEventKind, w: WindowView<V>)
    requires
        cap > 0,
        s.trigger matches Some(x) ==> x.1.len() <= cap,
        s.clear matches Some(x) ==> x.1.len() <= cap,
        alert_step(s, timing, t, live, cap).2 == Some((k, w)),
    ensures
        debounced(s.last_transition, t, timing.debounce_ms),
        w.1.len() <= cap,
{
}

/// Whether a sample is a live reading that meets the trigger condition.
pub open spec fn triggering<V>(live: Option<(V, bool, bool)>) -> bool {
    live matches Some((_, trig, _)) && trig
}

/// `states[i + 1]` is the instance after applying sample `samples[i]` (its
/// time and reading) to `states[i]`, for every sample in turn.
pub open spec fn stepped_in_turn<V>(
    states: Seq<AlertInstanceView<V>>,
    samples: Seq<(u64, Option<(V, bool, bool)>)>,
    timing: AlertTiming,
    cap: int,
) -> bool {
    &&& states.len() == samples.len() + 1
    &&& forall|i: int|
        0 <= i < samples.len() ==> #[trigger] states[i + 1] == alert_step(states[i], timing, samples[i].0, samples[i].1, cap).0
}

/// A pending trigger window started at one of the samples so far, and every
/// sample from that one on was a triggering live reading.
pub open spec fn window_is_unbroken<V>(w: Option<WindowView<V>>, samples: Seq<(u64, Option<(V, bool, bool)>)>, upto: int) -> bool {
    w matches Some(x) ==> exists|m: int|
        0 <= m < upto && x.0 == samples[m].0 && forall|q: int| m <= q < upto ==> #[trigger] triggering(samples[q].1)
}

proof fn lemma_trigger_windows_are_unbroken<V>(
    states: Seq<AlertInstanceView<V>>,
    samples: Seq<(u64, Option<(V, bool, bool)>)>,
    timing: AlertTiming,
    cap: int,
    i: int,
)
    requires
        stepped_in_turn(states, samples, timing, cap),
        states[0].trigger is None,
        0 <= i <= samples.len(),
    ensures
        window_is_unbroken(states[i].trigger, samples, i),
    decreases i,
{
    if i > 0 {
        lemma_trigger_windows_are_unbroken(states, samples, timing, cap, i - 1);
        let s = states[i - 1];
        let j = i - 1;
        assert(states[j + 1] == alert_step(states[j], timing, samples[j].0, samples[j].1, cap).0);
        assert(j + 1 == i);
        if let Some(x) = states[i].trigger {
            let t = samples[i - 1].0;
            assert(triggering(samples[i - 1].1));
            match s.trigger {
                None => {
                    assert(x.0 == t);
                    assert forall|q: int| i - 1 <= q < i implies #[trigger] triggering(samples[q].1) by {}
                },
                Some(y) => {
                    assert(x.0 == y.0);
                    let m = choose|m: int|
                        0 <= m < i - 1 && y.0 == samples[m].0 && forall|q: int| m <= q < i - 1 ==> #[trigger] triggering(
                            samples[q].1,
                        );
                    assert forall|q: int| m <= q < i implies #[trigger] triggering(samples[q].1) by {
                        if q < i - 1 {
                        }
                    }
                },
            }
        }
    }
}

/// An alert fires only from an unbroken run of triggering live readings:
/// starting from an instance with no pending window, when sample `k` fires,
/// the event's window began at some sample `m <= k`, every sample from `m`
/// through `k` met the trigger, and so every earlier sample that did not
/// (a non-live one, or a reading below the trigger) came before `m`.
pub proof fn law_alert_fires_only_from_an_unbroken_run<V>(
    states: Seq<AlertInstanceView<V>>,
    samples: Seq<(u64, Option<(V, bool, bool)>)>,
    timing: AlertTiming,
    cap: int,
    k: int,
    w: WindowView<V>,
)
    requires
        stepped_in_turn(states, samples, timing, cap),
        states[0].trigger is None,
        0 <= k < samples.len(),
        alert_step(states[k], timing, samples[k].0, samples[k].1, cap).2 == Some((AlertEventKind::Fired, w)),
    ensures
        exists|m: int|
            0 <= m <= k && w.0 == samples[m].0 && (forall|q: int| m <= q <= k ==> #[trigger] triggering(samples[q].1))
                && (forall|j: int| 0 <= j <= k && !triggering(#[trigger] samples[j].1) ==> j < m),
{
    lemma_trigger_windows_are_unbroken(states, samples, timing, cap, k);
    let s = states[k];
    let t = samples[k].0;
    assert(triggering(samples[k].1));
    match s.trigger {
        None => {
            assert(w.0 == t);
            assert forall|q: int| k <= q <= k implies #[trigger] triggering(samples[q].1) by {}
            assert forall|j: int| 0 <= j <= k && !triggering(#[trigger] samples[j].1) implies j < k by {}
        },
        Some(y) => {
            assert(w.0 == y.0);
            let m = choose|m: int|
                0 <= m < k && y.0 == samples[m].0 && forall|q: int| m <= q < k ==> #[trigger] triggering(samples[q].1);
            assert forall|q: int| m <= q <= k implies #[trigger] triggering(samples[q].1) by {
                if q < k {
                }
            }
            assert forall|j: int| 0 <= j <= k && !triggering(#[trigger] samples[j].1) implies j < m by {
                if j >= m {
                    assert(triggering(samples[j].1));
                }
            }
        },
    }
}

/// Whether a sample is a live reading that meets the clear condition.
pub open spec fn clearing<V>(live: Option<(V, bool, bool)>) -> bool {
    live matches Some((_, _, clr)) && clr
}

/// A pending clear window started at one of the samples so far, and every
/// sample from that one on was a clearing live reading.
pub open spec fn clear_window_is_unbroken<V>(w: Option<WindowView<V>>, samples: Seq<(u64, Option<(V, bool, bool)>)>, upto: int) -> bool {
    w matches Some(x) ==> exists|m: int|
        0 <= m < upto && x.0 == samples[m].0 && forall|q: int| m <= q < upto ==> #[trigger] clearing(samples[q].1)
}

proof fn lemma_clear_windows_are_unbroken<V>(
    states: Seq<AlertInstanceView<V>>,
    samples: Seq<(u64, Option<(V, bool, bool)>)>,
    timing: AlertTiming,
    cap: int,
    i: int,
)
    requires
        stepped_in_turn(states, samples, timing, cap),
        states[0].clear is None,
        0 <= i <= samples.len(),
    ensures
        clear_window_is_unbroken(states[i].clear, samples, i),
    decreases i,
{
    if i > 0 {
        lemma_clear_windows_are_unbroken(states, samples, timing, cap, i - 1);
        let j = i - 1;
        let s = states[j];
        assert(states[j + 1] == alert_step(states[j], timing, samples[j].0, samples[j].1, cap).0);
        assert(j + 1 == i);
        if let Some(x) = states[i].clear {
            let t = samples[j].0;
            assert(clearing(samples[j].1));
            match s.clear {
                None => {
                    assert(x.0 == t);
                    assert forall|q: int| j <= q < i implies #[trigger] clearing(samples[q].1) by {}
                },
                Some(y) => {
                    assert(x.0 == y.0);
                    let m = choose|m: int|
                        0 <= m < j && y.0 == samples[m].0 && forall|q: int| m <= q < j ==> #[trigger] clearing(samples[q].1);
                    assert forall|q: int| m <= q < i implies #[trigger] clearing(samples[q].1) by {
                        if q < j {
                        }
                    }
                },
            }
        }
    }
}

/// An alert resolves only from an unbroken run of clearing live readings:
/// starting from an instance with no pending clear window, when sample `k`
/// resolves the alert, the event's window began at some sample `m <= k`,
/// every sample from `m` through `k` met the clear condition, and every
/// earlier sample that did not came before `m`.
pub proof fn law_alert_resolves_only_from_an_unbroken_run<V>(
    states: Seq<AlertInstanceView<V>>,
    samples: Seq<(u64, Option<(V, bool, bool)>)>,
    timing: AlertTiming,
    cap: int,
    k: int,
    w: WindowView<V>,
)
    requires
        stepped_in_turn(states, samples, timing, cap),
        states[0].clear is None,
        0 <= k < samples.len(),
        alert_step(states[k], timing, samples[k].0, samples[k].1, cap).2 == Some((AlertEventKind::Resolved, w)),
    ensures
        exists|m: int|
            0 <= m <= k && w.0 == samples[m].0 && (forall|q: int| m <= q <= k ==> #[trigger] clearing(samples[q].1))
                && (forall|j: int| 0 <= j <= k && !clearing(#[trigger] samples[j].1) ==> j < m),
{
    lemma_clear_windows_are_unbroken(states, samples, timing, cap, k);
    let s = states[k];
    let t = samples[k].0;
    assert(clearing(samples[k].1));
    match s.clear {
        None => {
            assert(w.0 == t);
            assert forall|q: int| k <= q <= k implies #[trigger] clearing(samples[q].1) by {}
            assert forall|j: int| 0 <= j <= k && !clearing(#[trigger] samples[j].1) implies j < k by {}
        },
        Some(y) => {
            assert(w.0 == y.0);
            let m = choose|m: int|
                0 <= m < k && y.0 == samples[m].0 && forall|q: int| m <= q < k ==> #[trigger] clearing(samples[q].1);
            assert forall|q: int| m <= q <= k implies #[trigger] clearing(samples[q].1) by {
                if q < k {
                }
            }
            assert forall|j: int| 0 <= j <= k && !clearing(#[trigger] samples[j].1) implies j < m by {
                if j >= m {
                    assert(clearing(samples[j].1));
                }
            }
        },
    }
}

} // verus!
