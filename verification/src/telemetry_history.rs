//! Telemetry history vocabulary: series identity and keys, sample states and
//! their presentation, history and chart policies, gap kinds, SVG escaping and
//! monotonic/wrapping counter tracking.
use vstd::prelude::*;
use crate::strings::{chars_of, push_chars, push_str, string_from_chars};

verus! {

pub const DEFAULT_HISTORY_RETENTION_MS: u64 = 1800000;
pub const DEFAULT_RAW_RETENTION_MS: u64 = 120000;
pub const DEFAULT_DOWNSAMPLE_BUCKET_MS: u64 = 5000;
pub const DEFAULT_MAX_POINTS_PER_SERIES: usize = 8192;

#[derive(Debug, Clone, Copy, PartialEq, Eq, Structural)]
pub enum MetricSupport {
    Supported,
    Unavailable,
    Error,
}

/// Why a sample is or is not a live reading.
#[derive(Debug, Clone, PartialEq, Eq)]
pub enum TimeSeriesState {
    Live,
    Stale { reason: String, last_observed_at_unix_ms: Option<u64> },
    Disconnected { reason: String },
    Paused { reason: String },
    Unavailable { reason: String },
    Error { message: String },
    Reset { reason: String },
}

/// How a renderable sample is drawn.
#[derive(Debug, Clone, Copy, PartialEq, Eq, Structural)]
pub enum RenderClass {
    Live,
    Stale,
}

pub open spec fn render_class_of(state: TimeSeriesState) -> Option<RenderClass> {
    match state {
        TimeSeriesState::Live => Some(RenderClass::Live),
        TimeSeriesState::Stale { .. } => Some(RenderClass::Stale),
        _ => None,
    }
}

pub open spec fn reason_of(state: TimeSeriesState) -> Option<String> {
    match state {
        TimeSeriesState::Live => None,
        TimeSeriesState::Stale { reason, .. } => Some(reason),
        TimeSeriesState::Disconnected { reason } => Some(reason),
        TimeSeriesState::Paused { reason } => Some(reason),
        TimeSeriesState::Unavailable { reason } => Some(reason),
        TimeSeriesState::Error { message } => Some(message),
        TimeSeriesState::Reset { reason } => Some(reason),
    }
}

impl TimeSeriesState {
    /// Live and stale samples carry a drawable value; every other state is a
    /// break in the line.
    pub fn render_class(&self) -> (r: Option<RenderClass>)
        ensures
            r == render_class_of(*self),
    {
        match self {
            TimeSeriesState::Live => Some(RenderClass::Live),
            TimeSeriesState::Stale { .. } => Some(RenderClass::Stale),
            _ => None,
        }
    }

    /// The explanation carried by a non-live state.
    pub fn reason(&self) -> (r: Option<&String>)
        ensures
            match reason_of(*self) {
                Some(s) => r is Some && *r->0 == s,
                None => r is None,
            },
    {
        match self {
            TimeSeriesState::Live => None,
            TimeSeriesState::Stale { reason, .. } => Some(reason),
            TimeSeriesState::Disconnected { reason } => Some(reason),
            TimeSeriesState::Paused { reason } => Some(reason),
            TimeSeriesState::Unavailable { reason } => Some(reason),
            TimeSeriesState::Error { message } => Some(message),
            TimeSeriesState::Reset { reason } => Some(reason),
        }
    }
}

/// A device or process identity that stays stable across display renames.
#[derive(Debug, Clone, PartialEq, Eq, Hash)]
pub struct SeriesIdentity {
    pub namespace: String,
    pub stable_id: String,
    pub display_name: Option<String>,
}

impl SeriesIdentity {
    pub fn new(namespace: String, stable_id: String) -> (r: Self)
        ensures
            r.namespace == namespace,
            r.stable_id == stable_id,
            r.display_name is None,
    {
        SeriesIdentity { namespace, stable_id, display_name: None }
    }

    pub fn with_display_name(self, display_name: String) -> (r: Self)
        ensures
            r.namespace == self.namespace,
            r.stable_id == self.stable_id,
            r.display_name == Some(display_name),
    {
        let mut s = self;
        s.display_name = Some(display_name);
        s
    }

    /// `namespace:stable_id`, followed by ` (display name)` when one is set.
    pub fn disclosure(&self) -> (r: String)
        ensures
            r@ == disclosure_of(*self),
    {
        let mut out: Vec<char> = Vec::new();
        push_str(&mut out, self.namespace.as_str());
        out.push(':');
        push_str(&mut out, self.stable_id.as_str());
        match &self.display_name {
            Some(name) => {
                push_str(&mut out, " (");
                push_str(&mut out, name.as_str());
                out.push(')');
            },
            None => {},
        }
        string_from_chars(out.as_slice())
    }
}

pub open spec fn disclosure_of(id: SeriesIdentity) -> Seq<char> {
    let base = id.namespace@ + seq![':'] + id.stable_id@;
    match id.display_name {
        Some(name) => base + " ("@ + name@ + seq![')'],
        None => base,
    }
}

/// Everything that must match for two samples to share one series.
#[derive(Debug, Clone, PartialEq, Eq, Hash)]
pub struct SeriesKey {
    pub metric: String,
    pub unit: String,
    pub source_provider: String,
    pub source_api: String,
    pub identity: SeriesIdentity,
}

impl SeriesKey {
    pub fn new(
        metric: String,
        unit: String,
        source_provider: String,
        source_api: String,
        identity: SeriesIdentity,
    ) -> (r: Self)
        ensures
            r.metric == metric,
            r.unit == unit,
            r.source_provider == source_provider,
            r.source_api == source_api,
            r.identity == identity,
    {
        SeriesKey { metric, unit, source_provider, source_api, identity }
    }
}

/// Provider, API and metric that produced a sample.
#[derive(Debug, Clone, PartialEq, Eq)]
pub struct SampleSource {
    pub provider: String,
    pub api: String,
    pub metric: String,
}

impl SampleSource {
    pub fn from_key(key: &SeriesKey) -> (r: Self)
        ensures
            r.provider == key.source_provider,
            r.api == key.source_api,
            r.metric == key.metric,
    {
        SampleSource {
            provider: key.source_provider.clone(),
            api: key.source_api.clone(),
            metric: key.metric.clone(),
        }
    }
}

/// Whether a sample from `source` may join the series with `key`.
pub open spec fn source_matches(source: SampleSource, key: SeriesKey) -> bool {
    source.metric@ == key.metric@ && source.provider@ == key.source_provider@ && source.api@
        == key.source_api@
}

#[derive(Debug, Clone, PartialEq)]
pub enum HistoryError {
    InvalidPolicy(String),
    NonFiniteValue,
    OutOfOrderSample { previous: u64, incoming: u64 },
    SourceMismatch,
    InvalidChartDimensions,
}

/// Rejects a sample whose source differs from the series key.
pub fn validate_sample_source(key: &SeriesKey, source: &SampleSource) -> (r: Result<(), HistoryError>)
    ensures
        r is Ok <==> source_matches(*source, *key),
        r is Err ==> r == Err::<(), _>(HistoryError::SourceMismatch),
{
    if source.metric != key.metric || source.provider != key.source_provider || source.api
        != key.source_api {
        Err(HistoryError::SourceMismatch)
    } else {
        Ok(())
    }
}

/// Retention, compaction and size bounds of one series.
#[derive(Debug, Clone, Copy, PartialEq, Eq, Structural)]
pub struct HistoryPolicy {
    pub retention_ms: u64,
    pub raw_retention_ms: u64,
    pub downsample_bucket_ms: u64,
    pub max_points_per_series: usize,
}

/// Which rule of a history policy `p` breaks first, if any.
pub open spec fn policy_violation(p: HistoryPolicy) -> Option<Seq<char>> {
    if p.retention_ms == 0 {
        Some("retention_ms must be greater than zero"@)
    } else if p.raw_retention_ms > p.retention_ms {
        Some("raw_retention_ms cannot exceed retention_ms"@)
    } else if p.downsample_bucket_ms == 0 {
        Some("downsample_bucket_ms must be greater than zero"@)
    } else if p.max_points_per_series < 8 {
        Some("max_points_per_series must be at least 8"@)
    } else {
        None
    }
}

fn invalid_policy(message: &str) -> (r: HistoryError)
    ensures
        r matches HistoryError::InvalidPolicy(m) && m@ == message@,
{
    let v = chars_of(message);
    HistoryError::InvalidPolicy(string_from_chars(v.as_slice()))
}

impl HistoryPolicy {
    pub fn default_policy() -> (r: Self)
        ensures
            r.retention_ms == DEFAULT_HISTORY_RETENTION_MS,
            r.raw_retention_ms == DEFAULT_RAW_RETENTION_MS,
            r.downsample_bucket_ms == DEFAULT_DOWNSAMPLE_BUCKET_MS,
            r.max_points_per_series == DEFAULT_MAX_POINTS_PER_SERIES,
    {
        HistoryPolicy {
            retention_ms: DEFAULT_HISTORY_RETENTION_MS,
            raw_retention_ms: DEFAULT_RAW_RETENTION_MS,
            downsample_bucket_ms: DEFAULT_DOWNSAMPLE_BUCKET_MS,
            max_points_per_series: DEFAULT_MAX_POINTS_PER_SERIES,
        }
    }

    /// The policy itself when every rule holds, else the first broken rule.
    pub fn validate(self) -> (r: Result<Self, HistoryError>)
        ensures
            match policy_violation(self) {
                None => r == Ok::<HistoryPolicy, HistoryError>(self),
                Some(m) => r matches Err(HistoryError::InvalidPolicy(s)) && s@ == m,
            },
    {
        if self.retention_ms == 0 {
            return Err(invalid_policy("retention_ms must be greater than zero"));
        }
        if self.raw_retention_ms > self.retention_ms {
            return Err(invalid_policy("raw_retention_ms cannot exceed retention_ms"));
        }
        if self.downsample_bucket_ms == 0 {
            return Err(invalid_policy("downsample_bucket_ms must be greater than zero"));
        }
        if self.max_points_per_series < 8 {
            return Err(invalid_policy("max_points_per_series must be at least 8"));
        }
        Ok(self)
    }
}

impl Default for HistoryPolicy {
    fn default() -> (r: Self)
        ensures
            r == HistoryPolicy::default_spec(),
    {
        HistoryPolicy::default_policy()
    }
}

impl HistoryPolicy {
    pub open spec fn default_spec() -> Self {
        HistoryPolicy {
            retention_ms: DEFAULT_HISTORY_RETENTION_MS,
            raw_retention_ms: DEFAULT_RAW_RETENTION_MS,
            downsample_bucket_ms: DEFAULT_DOWNSAMPLE_BUCKET_MS,
            max_points_per_series: DEFAULT_MAX_POINTS_PER_SERIES,
        }
    }
}

/// Chart size and the sample interval beyond which the line breaks.
#[derive(Debug, Clone, Copy, PartialEq, Eq, Structural)]
pub struct ChartOptions {
    pub width_px: u32,
    pub height_px: u32,
    pub missing_gap_after_ms: Option<u64>,
}

impl ChartOptions {
    pub fn validate(self) -> (r: Result<Self, HistoryError>)
        ensures
            (self.width_px == 0 || self.height_px == 0) ==> r == Err::<ChartOptions, _>(
                HistoryError::InvalidChartDimensions,
            ),
            !(self.width_px == 0 || self.height_px == 0) ==> r == Ok::<ChartOptions, HistoryError>(
                self,
            ),
    {
        if self.width_px == 0 || self.height_px == 0 {
            return Err(HistoryError::InvalidChartDimensions);
        }
        Ok(self)
    }
}

impl Default for ChartOptions {
    fn default() -> (r: Self)
        ensures
            r.width_px == 800 && r.height_px == 220 && r.missing_gap_after_ms is None,
    {
        ChartOptions { width_px: 800, height_px: 220, missing_gap_after_ms: None }
    }
}

/// What a series shows as a whole, from its newest sample.
#[derive(Debug, Clone, Copy, PartialEq, Eq, Structural)]
pub enum SeriesPresentationState {
    Empty,
    Live,
    Stale,
    Disconnected,
    Paused,
    Unavailable,
    Error,
    Reset,
}

pub open spec fn presentation_of(state: TimeSeriesState) -> SeriesPresentationState {
    match state {
        TimeSeriesState::Live => SeriesPresentationState::Live,
        TimeSeriesState::Stale { .. } => SeriesPresentationState::Stale,
        TimeSeriesState::Disconnected { .. } => SeriesPresentationState::Disconnected,
        TimeSeriesState::Paused { .. } => SeriesPresentationState::Paused,
        TimeSeriesState::Unavailable { .. } => SeriesPresentationState::Unavailable,
        TimeSeriesState::Error { .. } => SeriesPresentationState::Error,
        TimeSeriesState::Reset { .. } => SeriesPresentationState::Reset,
    }
}

impl SeriesPresentationState {
    pub fn from_state(value: &TimeSeriesState) -> (r: Self)
        ensures
            r == presentation_of(*value),
    {
        match value {
            TimeSeriesState::Live => SeriesPresentationState::Live,
            TimeSeriesState::Stale { .. } => SeriesPresentationState::Stale,
            TimeSeriesState::Disconnected { .. } => SeriesPresentationState::Disconnected,
            TimeSeriesState::Paused { .. } => SeriesPresentationState::Paused,
            TimeSeriesState::Unavailable { .. } => SeriesPresentationState::Unavailable,
            TimeSeriesState::Error { .. } => SeriesPresentationState::Error,
            TimeSeriesState::Reset { .. } => SeriesPresentationState::Reset,
        }
    }

    /// The state's name in SVG attributes.
    pub fn as_str(self) -> (r: &'static str)
        ensures
            r@ == presentation_name(self),
    {
        match self {
            SeriesPresentationState::Empty => "empty",
            SeriesPresentationState::Live => "live",
            SeriesPresentationState::Stale => "stale",
            SeriesPresentationState::Disconnected => "disconnected",
            SeriesPresentationState::Paused => "paused",
            SeriesPresentationState::Unavailable => "unavailable",
            SeriesPresentationState::Error => "error",
            SeriesPresentationState::Reset => "reset",
        }
    }
}

pub open spec fn presentation_name(s: SeriesPresentationState) -> Seq<char> {
    match s {
        SeriesPresentationState::Empty => "empty"@,
        SeriesPresentationState::Live => "live"@,
        SeriesPresentationState::Stale => "stale"@,
        SeriesPresentationState::Disconnected => "disconnected"@,
        SeriesPresentationState::Paused => "paused"@,
        SeriesPresentationState::Unavailable => "unavailable"@,
        SeriesPresentationState::Error => "error"@,
        SeriesPresentationState::Reset => "reset"@,
    }
}

/// Drawing class of one chart segment.
#[derive(Debug, Clone, Copy, PartialEq, Eq, Structural)]
pub enum ChartSegmentState {
    Live,
    Stale,
}

impl ChartSegmentState {
    pub fn from_render_class(value: RenderClass) -> (r: Self)
        ensures
            value == RenderClass::Live ==> r == ChartSegmentState::Live,
            value == RenderClass::Stale ==> r == ChartSegmentState::Stale,
    {
        match value {
            RenderClass::Live => ChartSegmentState::Live,
            RenderClass::Stale => ChartSegmentState::Stale,
        }
    }

    pub fn as_str(self) -> (r: &'static str)
        ensures
            self == ChartSegmentState::Live ==> r@ == "live"@,
            self == ChartSegmentState::Stale ==> r@ == "stale"@,
    {
        match self {
            ChartSegmentState::Live => "live",
            ChartSegmentState::Stale => "stale",
        }
    }
}

/// Why a chart line is broken.
#[derive(Debug, Clone, Copy, PartialEq, Eq, Structural)]
pub enum ChartGapKind {
    MissingSamples,
    Stale,
    Disconnected,
    Paused,
    Unavailable,
    Error,
    Reset,
}

pub open spec fn gap_kind_name(k: ChartGapKind) -> Seq<char> {
    match k {
        ChartGapKind::MissingSamples => "missing_samples"@,
        ChartGapKind::Stale => "stale"@,
        ChartGapKind::Disconnected => "disconnected"@,
        ChartGapKind::Paused => "paused"@,
        ChartGapKind::Unavailable => "unavailable"@,
        ChartGapKind::Error => "error"@,
        ChartGapKind::Reset => "reset"@,
    }
}

impl ChartGapKind {
    pub fn as_str(self) -> (r: &'static str)
        ensures
            r@ == gap_kind_name(self),
    {
        match self {
            ChartGapKind::MissingSamples => "missing_samples",
            ChartGapKind::Stale => "stale",
            ChartGapKind::Disconnected => "disconnected",
            ChartGapKind::Paused => "paused",
            ChartGapKind::Unavailable => "unavailable",
            ChartGapKind::Error => "error",
            ChartGapKind::Reset => "reset",
        }
    }
}

/// The gap a non-live sample state opens, with its reason.
pub open spec fn gap_kind_of(state: TimeSeriesState) -> Option<ChartGapKind> {
    match state {
        TimeSeriesState::Live => None,
        TimeSeriesState::Stale { .. } => Some(ChartGapKind::Stale),
        TimeSeriesState::Disconnected { .. } => Some(ChartGapKind::Disconnected),
        TimeSeriesState::Paused { .. } => Some(ChartGapKind::Paused),
        TimeSeriesState::Unavailable { .. } => Some(ChartGapKind::Unavailable),
        TimeSeriesState::Error { .. } => Some(ChartGapKind::Error),
        TimeSeriesState::Reset { .. } => Some(ChartGapKind::Reset),
    }
}

pub fn gap_for_state(state: &TimeSeriesState) -> (r: Option<(ChartGapKind, &String)>)
    ensures
        match gap_kind_of(*state) {
            None => r is None,
            Some(k) => (r matches Some((kind, reason)) && kind == k && reason_of(*state) == Some(
                *reason,
            )),
        },
{
    let reason = match state.reason() {
        Some(reason) => reason,
        None => {
            return None;
        },
    };
    let kind = match state {
        TimeSeriesState::Stale { .. } => ChartGapKind::Stale,
        TimeSeriesState::Disconnected { .. } => ChartGapKind::Disconnected,
        TimeSeriesState::Paused { .. } => ChartGapKind::Paused,
        TimeSeriesState::Unavailable { .. } => ChartGapKind::Unavailable,
        TimeSeriesState::Error { .. } => ChartGapKind::Error,
        TimeSeriesState::Reset { .. } => ChartGapKind::Reset,
        TimeSeriesState::Live => {
            return None;
        },
    };
    Some((kind, reason))
}

/// XML escaping of `&`, `"`, `<` and `>` for attribute text.
pub open spec fn escape_char(c: char) -> Seq<char> {
    if c == '&' {
        "&amp;"@
    } else if c == '"' {
        "&quot;"@
    } else if c == '<' {
        "&lt;"@
    } else if c == '>' {
        "&gt;"@
    } else {
        seq![c]
    }
}

pub open spec fn escaped(s: Seq<char>) -> Seq<char>
    decreases s.len(),
{
    if s.len() == 0 {
        Seq::empty()
    } else {
        escaped(s.drop_last()) + escape_char(s.last())
    }
}

/// Escapes text for an SVG attribute value.
pub fn escape_xml(value: &str) -> (r: String)
    ensures
        r@ == escaped(value@),
{
    let v = chars_of(value);
    let mut out: Vec<char> = Vec::new();
    let mut i: usize = 0;
    while i < v.len()
        invariant
            v@ == value@,
            i <= v@.len(),
            out@ == escaped(v@.subrange(0, i as int)),
        decreases v@.len() - i,
    {
        let c = v[i];
        let ghost prefix = v@.subrange(0, i as int + 1);
        assert(prefix.drop_last() == v@.subrange(0, i as int));
        if c == '&' {
            push_str(&mut out, "&amp;");
        } else if c == '"' {
            push_str(&mut out, "&quot;");
        } else if c == '<' {
            push_str(&mut out, "&lt;");
        } else if c == '>' {
            push_str(&mut out, "&gt;");
        } else {
            out.push(c);
        }
        i = i + 1;
    }
    assert(v@.subrange(0, v@.len() as int) == v@);
    string_from_chars(out.as_slice())
}

/// How a hardware counter behaves when it stops increasing.
#[derive(Debug, Clone, Copy, PartialEq, Eq, Structural)]
pub struct CounterPolicy {
    pub inclusive_max: Option<u64>,
}

impl CounterPolicy {
    /// A counter that only grows; any decrease is a reset.
    pub fn monotonic() -> (r: Self)
        ensures
            r.inclusive_max is None,
    {
        CounterPolicy { inclusive_max: None }
    }

    /// A counter that wraps to zero after `inclusive_max`.
    pub fn wrapping(inclusive_max: u64) -> (r: Self)
        ensures
            r.inclusive_max == Some(inclusive_max),
    {
        CounterPolicy { inclusive_max: Some(inclusive_max) }
    }
}

/// What one counter reading means relative to the previous one.
#[derive(Debug, Clone, Copy, PartialEq, Eq, Structural)]
pub enum CounterObservation {
    First { value: u64 },
    Delta { delta: u64 },
    Wrapped { delta: u64 },
    Reset { previous: u64, current: u64 },
}

pub open spec fn sat_add(a: nat, b: nat) -> nat {
    if a + b > u64::MAX {
        u64::MAX as nat
    } else {
        a + b
    }
}

/// The reading `current` after `previous` under `policy`.
pub open spec fn counter_step(policy: CounterPolicy, previous: Option<u64>, current: u64) -> CounterObservation {
    match previous {
        None => CounterObservation::First { value: current },
        Some(p) => if current >= p {
            CounterObservation::Delta { delta: (current - p) as u64 }
        } else {
            match policy.inclusive_max {
                Some(m) if p <= m && current <= m => CounterObservation::Wrapped {
                    delta: sat_add(sat_add((m - p) as nat, 1), current as nat) as u64,
                },
                _ => CounterObservation::Reset { previous: p, current },
            }
        },
    }
}

/// Turns successive counter readings into deltas, telling resets from wraps.
#[derive(Debug, Clone)]
pub struct CounterTracker {
    pub policy: CounterPolicy,
    pub previous: Option<u64>,
}

impl CounterTracker {
    pub fn new(policy: CounterPolicy) -> (r: Self)
        ensures
            r.policy == policy,
            r.previous is None,
    {
        CounterTracker { policy, previous: None }
    }

    /// Records `current` and classifies it against the previous reading.
    pub fn observe(&mut self, current: u64) -> (r: CounterObservation)
        ensures
            r == counter_step(old(self).policy, old(self).previous, current),
            final(self).previous == Some(current),
            final(self).policy == old(self).policy,
    {
        let previous = self.previous;
        self.previous = Some(current);
        let p = match previous {
            None => {
                return CounterObservation::First { value: current };
            },
            Some(p) => p,
        };
        if current >= p {
            return CounterObservation::Delta { delta: current - p };
        }
        match self.policy.inclusive_max {
            Some(maximum) => {
                if p <= maximum && current <= maximum {
                    CounterObservation::Wrapped {
                        delta: maximum.saturating_sub(p).saturating_add(1).saturating_add(current),
                    }
                } else {
                    CounterObservation::Reset { previous: p, current }
                }
            },
            None => CounterObservation::Reset { previous: p, current },
        }
    }
}

/// A counter never reports a negative change: a decrease is a wrap (when
/// both readings lie within the declared range) or a reset, never a delta.
pub proof fn law_counter_decrease_is_never_a_delta(policy: CounterPolicy, previous: u64, current: u64)
    requires
        current < previous,
    ensures
        !(counter_step(policy, Some(previous), current) is Delta),
        counter_step(policy, Some(previous), current) is Reset <==> !(policy.inclusive_max matches Some(m) && previous <= m && current <= m),
{
}

/// Under a wrapping policy the reported wrap distance is the distance around
/// the counter's range, `max - previous + 1 + current`, whenever it fits.
pub proof fn law_wrap_distance(maximum: u64, previous: u64, current: u64)
    requires
        current < previous <= maximum,
        (maximum - previous) + 1 + current <= u64::MAX,
    ensures
        counter_step(CounterPolicy { inclusive_max: Some(maximum) }, Some(previous), current)
            == (CounterObservation::Wrapped { delta: ((maximum - previous) + 1 + current) as u64 }),
{
}

} // verus!
