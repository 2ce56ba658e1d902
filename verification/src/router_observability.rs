//! Router observability: per-model evidence (residency, active requests,
//! last use, LRU rank, eviction eligibility) that is reported only where the
//! router states it, eviction safety derived from it, and a snapshot tracker
//! that marks a retained snapshot stale after a failed refresh.
use vstd::prelude::*;
use crate::json::{JsonValue, json_flag, json_get, json_int, json_items, json_text, json_uint, parse_json};
use crate::router::{RouterModel, RouterModelPhase, RouterRegistry, excerpt, excerpt_of, nonempty_text, str_is};
use crate::router_operations::{phase_debug, phase_debug_text};
use crate::strings::{push_chars, push_str, string_from_chars};

verus! {

/// Largest observability response read.
pub const MAX_OBSERVABILITY_RESPONSE_BYTES: u64 = 2097152;

#[derive(Debug, Clone, Copy, PartialEq, Eq, Structural)]
pub enum EvidenceAvailability {
    Observed,
    Unavailable,
}

/// A value the router reported, or why it is unavailable.
#[derive(Debug, Clone, PartialEq)]
pub struct EvidenceValue<T> {
    pub availability: EvidenceAvailability,
    pub value: Option<T>,
    pub reason: String,
}

impl<T> EvidenceValue<T> {
    pub fn observed(value: T, reason: &str) -> (r: Self)
        ensures
            r.availability == EvidenceAvailability::Observed,
            r.value == Some(value),
            r.reason@ == reason@,
    {
        EvidenceValue { availability: EvidenceAvailability::Observed, value: Some(value), reason: reason.to_owned() }
    }

    pub fn unavailable(reason: String) -> (r: Self)
        ensures
            r.availability == EvidenceAvailability::Unavailable,
            r.value is None,
            r.reason == reason,
    {
        EvidenceValue { availability: EvidenceAvailability::Unavailable, value: None, reason }
    }

    pub fn is_observed(&self) -> (r: bool)
        ensures
            r == (self.availability == EvidenceAvailability::Observed && self.value is Some),
    {
        self.availability == EvidenceAvailability::Observed && self.value.is_some()
    }
}

/// Whether evicting a model now is known to be safe.
#[derive(Debug, Clone, PartialEq, Eq)]
pub enum RouterEvictionSafety {
    SafeObserved,
    Busy { active_requests: u64 },
    RouterDenied,
    Unknown { reason: String },
    NotApplicable { reason: String },
}

/// A registry model with the evidence the router reported about it.
#[derive(Debug, Clone, PartialEq)]
pub struct RouterModelObservability {
    pub model: RouterModel,
    pub residency: EvidenceValue<bool>,
    pub active_requests: EvidenceValue<u64>,
    /// Router-relative last use; never converted to wall-clock time.
    pub last_used_ms: EvidenceValue<i64>,
    pub lru_rank: EvidenceValue<u64>,
    pub evictable: EvidenceValue<bool>,
}

/// Eviction safety as the evidence supports it: only a loaded or sleeping
/// model can be evicted; an unknown or positive active-request count never
/// reads as safe; the router's own eligibility decides the rest.
pub open spec fn eviction_safety_holds(r: RouterEvictionSafety, o: RouterModelObservability) -> bool {
    if !(o.model.status.phase is Loaded || o.model.status.phase is Sleeping) {
        r matches RouterEvictionSafety::NotApplicable { reason } && reason@ == "router status is "@
            + phase_debug(o.model.status.phase) + "; no loaded-model eviction is implied"@
    } else {
        match o.active_requests.value {
            None => r matches RouterEvictionSafety::Unknown { reason } && reason == o.active_requests.reason,
            Some(n) => if n > 0 {
                r == (RouterEvictionSafety::Busy { active_requests: n })
            } else {
                match o.evictable.value {
                    Some(true) => r == RouterEvictionSafety::SafeObserved,
                    Some(false) => r == RouterEvictionSafety::RouterDenied,
                    None => r matches RouterEvictionSafety::Unknown { reason } && reason == o.evictable.reason,
                }
            },
        }
    }
}

impl RouterModelObservability {
    pub fn eviction_safety(&self) -> (r: RouterEvictionSafety)
        ensures
            eviction_safety_holds(r, *self),
    {
        match self.model.status.phase {
            RouterModelPhase::Loaded | RouterModelPhase::Sleeping => {},
            _ => {
                let mut out: Vec<char> = Vec::new();
                push_str(&mut out, "router status is ");
                let p = phase_debug_text(&self.model.status.phase);
                push_str(&mut out, p.as_str());
                push_str(&mut out, "; no loaded-model eviction is implied");
                return RouterEvictionSafety::NotApplicable { reason: string_from_chars(out.as_slice()) };
            },
        }
        let active = match self.active_requests.value {
            None => {
                return RouterEvictionSafety::Unknown { reason: self.active_requests.reason.clone() };
            },
            Some(n) => n,
        };
        if active > 0 {
            return RouterEvictionSafety::Busy { active_requests: active };
        }
        match self.evictable.value {
            Some(true) => RouterEvictionSafety::SafeObserved,
            Some(false) => RouterEvictionSafety::RouterDenied,
            None => RouterEvictionSafety::Unknown { reason: self.evictable.reason.clone() },
        }
    }
}

/// A model that reports active requests is never called safe to evict.
pub proof fn law_busy_model_is_never_safe(r: RouterEvictionSafety, o: RouterModelObservability)
    requires
        eviction_safety_holds(r, o),
        o.active_requests.value matches Some(n) && n > 0,
    ensures
        r != RouterEvictionSafety::SafeObserved,
{
}

/// A registry with its per-model evidence.
#[derive(Debug, Clone, PartialEq)]
pub struct RouterObservabilitySnapshot {
    pub registry: RouterRegistry,
    pub models: Vec<RouterModelObservability>,
    /// Set when the supplemental read failed while the registry read held;
    /// every supplemental field is then unavailable.
    pub supplemental_error: Option<String>,
    pub observed_at_unix_ms: u128,
}

#[derive(Debug, Clone, Copy, PartialEq, Eq, Structural)]
pub enum RouterSnapshotFreshness {
    Empty,
    Loading,
    Live,
    Stale,
    Failed,
}

/// The latest snapshot, the latest refresh error, and whether a refresh is
/// under way.
#[derive(Debug, Clone, PartialEq)]
pub struct RouterObservabilityTracker {
    pub current: Option<RouterObservabilitySnapshot>,
    pub last_error: Option<String>,
    pub loading: bool,
}

/// How fresh a tracker's snapshot is.
pub open spec fn freshness_of(t: RouterObservabilityTracker) -> RouterSnapshotFreshness {
    if t.loading {
        RouterSnapshotFreshness::Loading
    } else if t.last_error is Some && t.current is Some {
        RouterSnapshotFreshness::Stale
    } else if t.last_error is Some {
        RouterSnapshotFreshness::Failed
    } else if t.current is Some {
        RouterSnapshotFreshness::Live
    } else {
        RouterSnapshotFreshness::Empty
    }
}

impl Default for RouterObservabilityTracker {
    fn default() -> (r: Self)
        ensures
            r.current is None,
            r.last_error is None,
            !r.loading,
    {
        RouterObservabilityTracker { current: None, last_error: None, loading: false }
    }
}

impl RouterObservabilityTracker {
    /// Marks a refresh under way and clears the previous error.
    pub fn begin_refresh(&mut self)
        ensures
            final(self).loading,
            final(self).last_error is None,
            final(self).current == old(self).current,
    {
        self.loading = true;
        self.last_error = None;
    }

    /// Records a refresh outcome; a failure keeps the previous snapshot.
    pub fn reconcile(&mut self, result: Result<RouterObservabilitySnapshot, String>)
        ensures
            !final(self).loading,
            match result {
                Ok(snapshot) => final(self).current == Some(snapshot) && final(self).last_error is None,
                Err(error) => final(self).current == old(self).current && final(self).last_error == Some(error),
            },
    {
        self.loading = false;
        match result {
            Ok(snapshot) => {
                self.current = Some(snapshot);
                self.last_error = None;
            },
            Err(error) => {
                self.last_error = Some(error);
            },
        }
    }

    pub fn freshness(&self) -> (r: RouterSnapshotFreshness)
        ensures
            r == freshness_of(*self),
    {
        if self.loading {
            RouterSnapshotFreshness::Loading
        } else if self.last_error.is_some() && self.current.is_some() {
            RouterSnapshotFreshness::Stale
        } else if self.last_error.is_some() {
            RouterSnapshotFreshness::Failed
        } else if self.current.is_some() {
            RouterSnapshotFreshness::Live
        } else {
            RouterSnapshotFreshness::Empty
        }
    }

    pub fn is_live(&self) -> (r: bool)
        ensures
            r == (freshness_of(*self) == RouterSnapshotFreshness::Live),
    {
        self.freshness() == RouterSnapshotFreshness::Live
    }
}

/// A failed refresh never reads as live: a retained snapshot becomes stale,
/// and without one the tracker reports failure.
pub proof fn law_failed_refresh_is_never_live(after: RouterObservabilityTracker)
    requires
        !after.loading,
        after.last_error is Some,
    ensures
        freshness_of(after) != RouterSnapshotFreshness::Live,
        after.current is Some ==> freshness_of(after) == RouterSnapshotFreshness::Stale,
        after.current is None ==> freshness_of(after) == RouterSnapshotFreshness::Failed,
{
}

#[derive(Debug, Clone, PartialEq, Eq)]
pub enum RouterObservabilityError {
    Discovery(String),
    HostResolution { host: String, message: String },
    Transport { path: String, message: String },
    AuthenticationRejected { path: String, status_code: u16 },
    HttpFailure { path: String, status_code: u16, body_excerpt: String },
    ProtocolDrift { path: String, message: String, body_excerpt: String },
}

/// What one `/models` entry reports beyond the registry.
#[derive(Debug, Clone, Copy, PartialEq, Eq, Structural)]
pub struct SupplementalModelEvidence {
    pub resident: Option<bool>,
    pub active_requests: Option<u64>,
    pub last_used_ms: Option<i64>,
    pub lru_rank: Option<u64>,
    pub evictable: Option<bool>,
}

impl Default for SupplementalModelEvidence {
    fn default() -> (r: Self)
        ensures
            r.resident is None,
            r.active_requests is None,
            r.last_used_ms is None,
            r.lru_rank is None,
            r.evictable is None,
    {
        SupplementalModelEvidence { resident: None, active_requests: None, last_used_ms: None, lru_rank: None, evictable: None }
    }
}

/// The first of two or three members that holds a boolean.
pub open spec fn first_flag(e: JsonValue, keys: Seq<Seq<char>>) -> Option<bool>
    decreases keys.len(),
{
    if keys.len() == 0 {
        None
    } else if json_flag(json_get(e, keys[0])) is Some {
        json_flag(json_get(e, keys[0]))
    } else {
        first_flag(e, keys.drop_first())
    }
}

/// The first member that holds an unsigned integer.
pub open spec fn first_count(e: JsonValue, keys: Seq<Seq<char>>) -> Option<u64>
    decreases keys.len(),
{
    if keys.len() == 0 {
        None
    } else if json_uint(json_get(e, keys[0])) is Some {
        json_uint(json_get(e, keys[0]))
    } else {
        first_count(e, keys.drop_first())
    }
}

/// A member read as `i64`: an integer in range, or an unsigned one that fits.
pub open spec fn signed_of(v: Option<JsonValue>) -> Option<i64> {
    match json_int(v) {
        Some(x) => Some(x),
        None => match json_uint(v) {
            Some(u) => if u <= i64::MAX {
                Some(u as i64)
            } else {
                None
            },
            None => None,
        },
    }
}

/// The first member that reads as `i64`.
pub open spec fn first_signed(e: JsonValue, keys: Seq<Seq<char>>) -> Option<i64>
    decreases keys.len(),
{
    if keys.len() == 0 {
        None
    } else if signed_of(json_get(e, keys[0])) is Some {
        signed_of(json_get(e, keys[0]))
    } else {
        first_signed(e, keys.drop_first())
    }
}

/// The supplemental evidence of one entry, each field from the first of its
/// accepted member names.
pub open spec fn supplemental_of(e: JsonValue) -> SupplementalModelEvidence {
    SupplementalModelEvidence {
        resident: first_flag(e, seq!["resident"@, "is_resident"@]),
        active_requests: first_count(e, seq!["active_requests"@, "req_count"@, "requests_active"@]),
        last_used_ms: first_signed(e, seq!["last_used_ms"@, "last_used"@]),
        lru_rank: first_count(e, seq!["lru_rank"@, "eviction_rank"@]),
        evictable: first_flag(e, seq!["evictable"@, "can_evict"@]),
    }
}

fn flag_of(e: &JsonValue, a: &str, b: &str) -> (r: Option<bool>)
    ensures
        r == first_flag(*e, seq![a@, b@]),
{
    let x = match e.get(a) {
        Some(v) => v.as_bool(),
        None => None,
    };
    if x.is_some() {
        return x;
    }
    proof {
        assert(seq![a@, b@].drop_first() =~= seq![b@]);
        assert(seq![b@].drop_first() =~= Seq::<Seq<char>>::empty());
        reveal_with_fuel(first_flag, 3);
    }
    match e.get(b) {
        Some(v) => v.as_bool(),
        None => None,
    }
}

fn count_of(e: &JsonValue, keys: &Vec<&str>) -> (r: Option<u64>)
    ensures
        r == first_count(*e, keys@.map_values(|k: &str| k@)),
{
    let ghost ks = keys@.map_values(|k: &str| k@);
    assert(ks.subrange(0, ks.len() as int) =~= ks);
    let mut i: usize = 0;
    while i < keys.len()
        invariant
            ks == keys@.map_values(|k: &str| k@),
            i <= keys@.len(),
            first_count(*e, ks) == first_count(*e, ks.subrange(i as int, ks.len() as int)),
        decreases keys@.len() - i,
    {
        let ghost rest = ks.subrange(i as int, ks.len() as int);
        assert(rest[0] == keys@[i as int]@);
        assert(rest.drop_first() =~= ks.subrange(i + 1, ks.len() as int));
        let x = match e.get(keys[i]) {
            Some(v) => v.as_u64(),
            None => None,
        };
        if x.is_some() {
            return x;
        }
        i = i + 1;
    }
    None
}

fn signed_member(v: Option<&JsonValue>) -> (r: Option<i64>)
    ensures
        r == signed_of(crate::router::opt_value(v)),
{
    match v {
        Some(x) => match x.as_i64() {
            Some(n) => Some(n),
            None => match x.as_u64() {
                Some(u) => if u <= 9223372036854775807u64 {
                    Some(u as i64)
                } else {
                    None
                },
                None => None,
            },
        },
        None => None,
    }
}

fn supplemental_entry(e: &JsonValue) -> (r: SupplementalModelEvidence)
    ensures
        r == supplemental_of(*e),
{
    let resident = flag_of(e, "resident", "is_resident");
    let active_keys: Vec<&str> = vec!["active_requests", "req_count", "requests_active"];
    assert(active_keys@.map_values(|k: &str| k@) =~= seq!["active_requests"@, "req_count"@, "requests_active"@]);
    let active_requests = count_of(e, &active_keys);
    let a = signed_member(e.get("last_used_ms"));
    let last_used_ms = if a.is_some() {
        a
    } else {
        signed_member(e.get("last_used"))
    };
    proof {
        assert(seq!["last_used_ms"@, "last_used"@].drop_first() =~= seq!["last_used"@]);
        assert(seq!["last_used"@].drop_first() =~= Seq::<Seq<char>>::empty());
        reveal_with_fuel(first_signed, 3);
    }
    let rank_keys: Vec<&str> = vec!["lru_rank", "eviction_rank"];
    assert(rank_keys@.map_values(|k: &str| k@) =~= seq!["lru_rank"@, "eviction_rank"@]);
    let lru_rank = count_of(e, &rank_keys);
    let evictable = flag_of(e, "evictable", "can_evict");
    SupplementalModelEvidence { resident, active_requests, last_used_ms, lru_rank, evictable }
}

/// Why an entry of the supplemental list is refused, given the ids before it.
pub open spec fn supplemental_entry_error(entry: JsonValue, earlier: Seq<Seq<char>>, body: Seq<char>) -> Option<(Seq<char>, Seq<char>)> {
    if !(entry is Object) {
        Some(("/models"@, "model entry was not an object"@))
    } else {
        match nonempty_text(json_get(entry, "id"@)) {
            None => Some(("/models"@, "model entry is missing non-empty string field `id`"@)),
            Some(id) => if earlier.contains(id) {
                Some(("/models"@, "duplicate model id `"@ + id + "` in observability payload"@))
            } else {
                None
            },
        }
    }
}

/// The ids of the entries before index `i` (all of them accepted).
pub open spec fn entry_ids(entries: Seq<JsonValue>, i: int) -> Seq<Seq<char>> {
    Seq::new(i as nat, |k: int| nonempty_text(json_get(entries[k], "id"@))->0)
}

/// The first refused entry from index `i` on.
pub open spec fn first_supplemental_error(entries: Seq<JsonValue>, body: Seq<char>, i: int) -> Option<Seq<char>>
    decreases entries.len() - i,
{
    if i < 0 || i >= entries.len() {
        None
    } else {
        match supplemental_entry_error(entries[i], entry_ids(entries, i), body) {
            Some((_, m)) => Some(m),
            None => first_supplemental_error(entries, body, i + 1),
        }
    }
}

/// The list that a supplemental `/models` document carries.
pub open spec fn supplemental_entries(v: JsonValue) -> Result<Seq<JsonValue>, Seq<char>> {
    match v {
        JsonValue::Array(a) => Ok(a@),
        JsonValue::Object(_) => match json_items(json_get(v, "data"@)) {
            Some(a) => Ok(a),
            None => Err("expected array response or object field `data` containing an array"@),
        },
        _ => Err("expected array response or object response"@),
    }
}

fn drift(message: String, body: &str) -> (r: RouterObservabilityError)
    ensures
        r matches RouterObservabilityError::ProtocolDrift { path, message: m, body_excerpt } && path@ == "/models"@ && m == message
            && body_excerpt@ == excerpt_of(body@),
{
    RouterObservabilityError::ProtocolDrift { path: "/models".to_owned(), message, body_excerpt: excerpt(body) }
}

fn seen_before(ids: &Vec<String>, id: &str) -> (r: bool)
    ensures
        r == ids@.map_values(|s: String| s@).contains(id@),
{
    let owned = id.to_owned();
    let mut k: usize = 0;
    while k < ids.len()
        invariant
            owned@ == id@,
            k <= ids@.len(),
            forall|m: int| 0 <= m < k ==> ids@[m]@ != id@,
        decreases ids@.len() - k,
    {
        if ids[k] == owned {
            assert(ids@.map_values(|s: String| s@)[k as int] == id@);
            return true;
        }
        k = k + 1;
    }
    proof {
        let view = ids@.map_values(|s: String| s@);
        if view.contains(id@) {
            let m = choose|m: int| 0 <= m < view.len() && #[trigger] view[m] == id@;
            assert(ids@[m]@ == id@);
        }
    }
    false
}

/// Reads the entries of a parsed supplemental `/models` document: one
/// `(id, evidence)` pair per entry, in order.
pub fn supplemental_from_entries(entries: &Vec<JsonValue>, body: &str) -> (r: Result<Vec<(String, SupplementalModelEvidence)>, RouterObservabilityError>)
    ensures
        match first_supplemental_error(entries@, body@, 0) {
            Some(m) => r matches Err(RouterObservabilityError::ProtocolDrift { path, message, body_excerpt }) && path@ == "/models"@
                && message@ == m && body_excerpt@ == excerpt_of(body@),
            None => r matches Ok(list) && list@.len() == entries@.len() && (forall|i: int| 0 <= i < list@.len() ==> {
                &&& (#[trigger] list@[i]).0@ == nonempty_text(json_get(entries@[i], "id"@))->0
                &&& list@[i].1 == supplemental_of(entries@[i])
            }) && (forall|a: int, b: int| 0 <= a < b < list@.len() ==> list@[a].0@ != list@[b].0@),
        },
{
    let mut out: Vec<(String, SupplementalModelEvidence)> = Vec::new();
    let mut ids: Vec<String> = Vec::new();
    let mut i: usize = 0;
    while i < entries.len()
        invariant
            i <= entries@.len(),
            first_supplemental_error(entries@, body@, 0) == first_supplemental_error(entries@, body@, i as int),
            ids@.map_values(|s: String| s@) == entry_ids(entries@, i as int),
            out@.len() == i,
            forall|k: int| 0 <= k < i ==> {
                &&& (#[trigger] out@[k]).0@ == nonempty_text(json_get(entries@[k], "id"@))->0
                &&& out@[k].1 == supplemental_of(entries@[k])
            },
            forall|a: int, b: int| 0 <= a < b < i ==> out@[a].0@ != out@[b].0@,
        decreases entries@.len() - i,
    {
        let e = &entries[i];
        match e {
            JsonValue::Object(_) => {},
            _ => {
                return Err(drift("model entry was not an object".to_owned(), body));
            },
        }
        let id = match e.get("id") {
            Some(x) => match x.as_str() {
                Some(t) => if !t.is_empty() {
                    t
                } else {
                    return Err(drift("model entry is missing non-empty string field `id`".to_owned(), body));
                },
                None => {
                    return Err(drift("model entry is missing non-empty string field `id`".to_owned(), body));
                },
            },
            None => {
                return Err(drift("model entry is missing non-empty string field `id`".to_owned(), body));
            },
        };
        if seen_before(&ids, id) {
            let mut m: Vec<char> = Vec::new();
            push_str(&mut m, "duplicate model id `");
            push_str(&mut m, id);
            push_str(&mut m, "` in observability payload");
            return Err(drift(string_from_chars(m.as_slice()), body));
        }
        let evidence = supplemental_entry(e);
        proof {
            assert forall|k: int| 0 <= k < i implies out@[k].0@ != id@ by {
                assert(entry_ids(entries@, i as int)[k] == out@[k].0@);
                assert(ids@.map_values(|s: String| s@)[k] == out@[k].0@);
            }
        }
        out.push((id.to_owned(), evidence));
        let ghost before = ids@.map_values(|s: String| s@);
        ids.push(id.to_owned());
        proof {
            assert(ids@.map_values(|s: String| s@) =~= before.push(id@));
            assert(entry_ids(entries@, i + 1) =~= entry_ids(entries@, i as int).push(id@));
        }
        i = i + 1;
    }
    Ok(out)
}

/// Reads a supplemental `/models` body.
pub fn parse_supplemental_model_evidence(body: &str) -> (r: Result<Vec<(String, SupplementalModelEvidence)>, RouterObservabilityError>)
    ensures
        match crate::json::json_document(body@) {
            Err(m) => r matches Err(RouterObservabilityError::ProtocolDrift { path, message, body_excerpt }) && path@ == "/models"@
                && message@ == "response was not valid JSON: "@ + m && body_excerpt@ == excerpt_of(body@),
            Ok(v) => match supplemental_entries(v) {
                Err(m) => r matches Err(RouterObservabilityError::ProtocolDrift { path, message, body_excerpt }) && path@ == "/models"@
                    && message@ == m && body_excerpt@ == excerpt_of(body@),
                Ok(entries) => match first_supplemental_error(entries, body@, 0) {
                    Some(m) => r matches Err(RouterObservabilityError::ProtocolDrift { path, message, body_excerpt }) && path@ == "/models"@
                        && message@ == m && body_excerpt@ == excerpt_of(body@),
                    None => r matches Ok(list) && list@.len() == entries.len() && (forall|i: int| 0 <= i < list@.len() ==> {
                        &&& (#[trigger] list@[i]).0@ == nonempty_text(json_get(entries[i], "id"@))->0
                        &&& list@[i].1 == supplemental_of(entries[i])
                    }) && (forall|a: int, b: int| 0 <= a < b < list@.len() ==> list@[a].0@ != list@[b].0@),
                },
            },
        },
{
    let value = match parse_json(body) {
        Ok(v) => v,
        Err(m) => {
            let mut text: Vec<char> = Vec::new();
            push_str(&mut text, "response was not valid JSON: ");
            push_str(&mut text, m.as_str());
            return Err(drift(string_from_chars(text.as_slice()), body));
        },
    };
    let entries: &Vec<JsonValue> = match &value {
        JsonValue::Array(a) => a,
        JsonValue::Object(_) => match value.get("data") {
            Some(d) => match d.as_array() {
                Some(a) => a,
                None => {
                    return Err(drift("expected array response or object field `data` containing an array".to_owned(), body));
                },
            },
            None => {
                return Err(drift("expected array response or object field `data` containing an array".to_owned(), body));
            },
        },
        _ => {
            return Err(drift("expected array response or object response".to_owned(), body));
        },
    };
    supplemental_from_entries(entries, body)
}

/// The supplemental evidence listed for `id`.
pub fn supplemental_for<'a>(list: &'a Vec<(String, SupplementalModelEvidence)>, id: &String) -> (r: Option<&'a SupplementalModelEvidence>)
    ensures
        r matches Some(e) ==> exists|i: int| 0 <= i < list@.len() && list@[i].0@ == id@ && list@[i].1 == *e,
        r is None ==> forall|i: int| 0 <= i < list@.len() ==> list@[i].0@ != id@,
{
    let mut i: usize = 0;
    while i < list.len()
        invariant
            i <= list@.len(),
            forall|k: int| 0 <= k < i ==> list@[k].0@ != id@,
        decreases list@.len() - i,
    {
        if list[i].0 == *id {
            return Some(&list[i].1);
        }
        i = i + 1;
    }
    None
}

/// Why a field is unavailable: the supplemental read failed, the model was
/// missing from it, or the router does not report the field.
pub open spec fn unavailable_reason(field: Seq<char>, model_id: Seq<char>, present: bool, error: Option<Seq<char>>) -> Seq<char> {
    match error {
        Some(e) => "supplemental /models evidence unavailable for "@ + field + ": "@ + e,
        None => if !present {
            "supplemental /models response did not contain model `"@ + model_id + "`"@
        } else {
            "selected router /models payload does not expose "@ + field
        },
    }
}

fn unavailable_text(field: &str, model_id: &String, present: bool, error: Option<&str>) -> (r: String)
    ensures
        r@ == unavailable_reason(field@, model_id@, present, match error { Some(e) => Some(e@), None => None }),
{
    let mut out: Vec<char> = Vec::new();
    match error {
        Some(e) => {
            push_str(&mut out, "supplemental /models evidence unavailable for ");
            push_str(&mut out, field);
            push_str(&mut out, ": ");
            push_str(&mut out, e);
        },
        None => if !present {
            push_str(&mut out, "supplemental /models response did not contain model `");
            push_str(&mut out, model_id.as_str());
            push_str(&mut out, "`");
        } else {
            push_str(&mut out, "selected router /models payload does not expose ");
            push_str(&mut out, field);
        },
    }
    string_from_chars(out.as_slice())
}

/// An evidence field: observed with `observed_reason` when the value is
/// known, else unavailable with `missing_reason`.
pub open spec fn evidence_holds<T>(e: EvidenceValue<T>, v: Option<T>, observed_reason: Seq<char>, missing_reason: Seq<char>) -> bool {
    match v {
        Some(x) => e.availability == EvidenceAvailability::Observed && e.value == Some(x) && e.reason@ == observed_reason,
        None => e.availability == EvidenceAvailability::Unavailable && e.value is None && e.reason@ == missing_reason,
    }
}

/// The evidence of one model: residency from the registry entry or else the
/// supplemental entry, every other field from the supplemental entry only.
pub open spec fn observability_holds(o: RouterModelObservability, model: RouterModel, s: Option<SupplementalModelEvidence>, error: Option<Seq<char>>) -> bool {
    let present = s is Some;
    let id = model.id@;
    let resident = if model.resident is Some { model.resident } else {
        match s {
            Some(x) => x.resident,
            None => None,
        }
    };
    &&& o.model == model
    &&& evidence_holds(o.residency, resident, "router /models payload explicitly reported residency"@,
        unavailable_reason("residency"@, id, present, error))
    &&& evidence_holds(o.active_requests, match s { Some(x) => x.active_requests, None => None },
        "router /models payload explicitly reported active-request count"@,
        unavailable_reason("active-request count"@, id, present, error))
    &&& evidence_holds(o.last_used_ms, match s { Some(x) => x.last_used_ms, None => None },
        "router /models payload explicitly reported router-relative last-use value"@,
        unavailable_reason("last-use/LRU value"@, id, present, error))
    &&& evidence_holds(o.lru_rank, match s { Some(x) => x.lru_rank, None => None },
        "router /models payload explicitly reported LRU/eviction rank"@,
        unavailable_reason("LRU/eviction rank"@, id, present, error))
    &&& evidence_holds(o.evictable, match s { Some(x) => x.evictable, None => None },
        "router /models payload explicitly reported eviction eligibility"@,
        unavailable_reason("eviction eligibility"@, id, present, error))
}

fn evidence_field<T>(v: Option<T>, observed_reason: &str, field: &str, model_id: &String, present: bool, error: Option<&str>) -> (r: EvidenceValue<T>)
    ensures
        evidence_holds(r, v, observed_reason@, unavailable_reason(field@, model_id@, present, match error { Some(e) => Some(e@), None => None })),
{
    match v {
        Some(x) => EvidenceValue::observed(x, observed_reason),
        None => EvidenceValue::unavailable(unavailable_text(field, model_id, present, error)),
    }
}

/// The evidence record of one registry model.
pub fn observability_for_model(model: RouterModel, supplemental: Option<&SupplementalModelEvidence>, supplemental_error: Option<&str>) -> (r: RouterModelObservability)
    ensures
        observability_holds(r, model, crate::router_observability::opt_supplemental(supplemental),
            match supplemental_error { Some(e) => Some(e@), None => None }),
{
    let present = supplemental.is_some();
    let s: SupplementalModelEvidence = match supplemental {
        Some(x) => *x,
        None => SupplementalModelEvidence::default(),
    };
    let resident = if model.resident.is_some() {
        model.resident
    } else if present {
        s.resident
    } else {
        None
    };
    let residency = evidence_field(resident, "router /models payload explicitly reported residency", "residency", &model.id, present, supplemental_error);
    let active_requests = evidence_field(
        if present { s.active_requests } else { None },
        "router /models payload explicitly reported active-request count",
        "active-request count",
        &model.id,
        present,
        supplemental_error,
    );
    let last_used_ms = evidence_field(
        if present { s.last_used_ms } else { None },
        "router /models payload explicitly reported router-relative last-use value",
        "last-use/LRU value",
        &model.id,
        present,
        supplemental_error,
    );
    let lru_rank = evidence_field(
        if present { s.lru_rank } else { None },
        "router /models payload explicitly reported LRU/eviction rank",
        "LRU/eviction rank",
        &model.id,
        present,
        supplemental_error,
    );
    let evictable = evidence_field(
        if present { s.evictable } else { None },
        "router /models payload explicitly reported eviction eligibility",
        "eviction eligibility",
        &model.id,
        present,
        supplemental_error,
    );
    RouterModelObservability { model, residency, active_requests, last_used_ms, lru_rank, evictable }
}

/// An optional reference taken by its value.
pub open spec fn opt_supplemental(v: Option<&SupplementalModelEvidence>) -> Option<SupplementalModelEvidence> {
    match v {
        Some(x) => Some(*x),
        None => None,
    }
}


/// Whether any model of a snapshot shows an observed active-request count.
pub fn any_active_requests_observed(models: &Vec<RouterModelObservability>) -> (r: bool)
    ensures
        r == exists|i: int| 0 <= i < models@.len() && (#[trigger] models@[i]).active_requests.availability
            == EvidenceAvailability::Observed,
{
    let mut i: usize = 0;
    while i < models.len()
        invariant
            i <= models@.len(),
            forall|k: int| 0 <= k < i ==> (#[trigger] models@[k]).active_requests.availability
                != EvidenceAvailability::Observed,
        decreases models@.len() - i,
    {
        if models[i].active_requests.availability == EvidenceAvailability::Observed {
            return true;
        }
        i = i + 1;
    }
    false
}

/// Port zero names no router: it is refused before any address is resolved.
pub fn check_observability_port(endpoint: &crate::server_readiness::ServerEndpoint) -> (r: Result<(), RouterObservabilityError>)
    ensures
        endpoint.port == 0 ==> (r matches Err(RouterObservabilityError::HostResolution { host, message }) && host@ == endpoint.host@
            && message@ == "port must be in 1..=65535"@),
        endpoint.port != 0 ==> r is Ok,
{
    if endpoint.port == 0 {
        Err(RouterObservabilityError::HostResolution {
            host: endpoint.host.clone(),
            message: "port must be in 1..=65535".to_owned(),
        })
    } else {
        Ok(())
    }
}

/// The resolved router addresses may be contacted only if there is one and,
/// without the endpoint's opt-in, all are loopback addresses.
pub fn check_observability_addresses(endpoint: &crate::server_readiness::ServerEndpoint, address_count: usize, any_non_loopback: bool) -> (r: Result<(), RouterObservabilityError>)
    ensures
        address_count == 0 ==> (r matches Err(RouterObservabilityError::HostResolution { host, message }) && host@ == endpoint.host@
            && message@ == "host resolved to no addresses"@),
        address_count > 0 && any_non_loopback && !endpoint.allow_non_loopback ==> (r matches Err(
            RouterObservabilityError::HostResolution { host, message },
        ) && host@ == endpoint.host@ && message@ == "non-loopback router target requires explicit opt-in"@),
        address_count > 0 && !(any_non_loopback && !endpoint.allow_non_loopback) ==> r is Ok,
{
    if address_count == 0 {
        return Err(RouterObservabilityError::HostResolution {
            host: endpoint.host.clone(),
            message: "host resolved to no addresses".to_owned(),
        });
    }
    if any_non_loopback && !endpoint.allow_non_loopback {
        return Err(RouterObservabilityError::HostResolution {
            host: endpoint.host.clone(),
            message: "non-loopback router target requires explicit opt-in".to_owned(),
        });
    }
    Ok(())
}

/// Reads an observability reply: a 2xx body is returned, 401/403 is an
/// authentication failure, anything else an HTTP failure with an excerpt.
pub fn observability_response(path: &str, bytes: &[u8]) -> (r: Result<String, RouterObservabilityError>)
    ensures
        match crate::router::router_response_outcome(crate::strings::utf8_lossy(bytes@), path@) {
            Err(crate::router::DiscoveryErrorView::Transport { path: p, message }) => r matches Err(RouterObservabilityError::Transport { path: rp, message: m })
                && rp@ == p && m@ == message,
            Err(_) => false,
            Ok((code, body)) => if 200 <= code <= 299 {
                r matches Ok(b) && b@ == body
            } else if code == 401 || code == 403 {
                r matches Err(RouterObservabilityError::AuthenticationRejected { path: p, status_code }) && p@ == path@ && status_code == code
            } else {
                r matches Err(RouterObservabilityError::HttpFailure { path: p, status_code, body_excerpt }) && p@ == path@
                    && status_code == code && body_excerpt@ == excerpt_of(body)
            },
        },
{
    let response = match crate::router::read_router_response(bytes, path) {
        Ok(resp) => resp,
        Err(crate::router::RouterDiscoveryError::Transport { path: p, message }) => {
            return Err(RouterObservabilityError::Transport { path: p, message });
        },
        Err(_) => {
            return Err(RouterObservabilityError::Transport { path: path.to_owned(), message: String::new() });
        },
    };
    let code = response.status_code;
    if 200 <= code && code <= 299 {
        Ok(response.body)
    } else if code == 401 || code == 403 {
        Err(RouterObservabilityError::AuthenticationRejected { path: path.to_owned(), status_code: code })
    } else {
        Err(RouterObservabilityError::HttpFailure {
            path: path.to_owned(),
            status_code: code,
            body_excerpt: excerpt(response.body.as_str()),
        })
    }
}

fn copy_texts(v: &Vec<String>) -> (r: Vec<String>)
    ensures
        crate::router::texts_view(r@) == crate::router::texts_view(v@),
{
    let mut out: Vec<String> = Vec::new();
    let mut i: usize = 0;
    while i < v.len()
        invariant
            i <= v@.len(),
            out@.len() == i,
            forall|k: int| 0 <= k < i ==> (#[trigger] out@[k])@ == v@[k]@,
        decreases v@.len() - i,
    {
        out.push(v[i].clone());
        i = i + 1;
    }
    assert(crate::router::texts_view(out@) =~= crate::router::texts_view(v@));
    out
}

fn copy_text(o: &Option<String>) -> (r: Option<String>)
    ensures
        crate::router::opt_text_view(r) == crate::router::opt_text_view(*o),
{
    match o {
        Some(s) => Some(s.clone()),
        None => None,
    }
}

/// A copy of a router model, equal to it in every field.
fn copy_model(m: &RouterModel) -> (r: RouterModel)
    ensures
        crate::router::model_view(r) == crate::router::model_view(*m),
        r.id == m.id,
        r.resident == m.resident,
        r.status.phase == m.status.phase,
{
    let status = crate::router::RouterModelStatus {
        phase: match &m.status.phase {
            RouterModelPhase::Unloaded => RouterModelPhase::Unloaded,
            RouterModelPhase::Downloading => RouterModelPhase::Downloading,
            RouterModelPhase::Loading => RouterModelPhase::Loading,
            RouterModelPhase::Loaded => RouterModelPhase::Loaded,
            RouterModelPhase::Sleeping => RouterModelPhase::Sleeping,
            RouterModelPhase::Unknown(s) => RouterModelPhase::Unknown(s.clone()),
        },
        failed: m.status.failed,
        exit_code: m.status.exit_code,
        args: copy_texts(&m.status.args),
        progress: match &m.status.progress {
            Some(v) => Some(crate::json::copy_json(v)),
            None => None,
        },
    };
    let library_link = crate::router::RouterLibraryLink {
        kind: m.library_link.kind,
        model_id: copy_text(&m.library_link.model_id),
        candidates: copy_texts(&m.library_link.candidates),
        reason: m.library_link.reason.clone(),
    };
    RouterModel {
        id: m.id.clone(),
        routing_targets: copy_texts(&m.routing_targets),
        path: copy_text(&m.path),
        sha256: copy_text(&m.sha256),
        status,
        resident: m.resident,
        input_modalities: copy_texts(&m.input_modalities),
        output_modalities: copy_texts(&m.output_modalities),
        library_link,
    }
}

/// The supplemental evidence a list holds for `id`, if any.
pub open spec fn listed_for(list: Seq<(String, SupplementalModelEvidence)>, id: Seq<char>) -> Option<SupplementalModelEvidence> {
    if exists|i: int| 0 <= i < list.len() && list[i].0@ == id {
        Some(list[choose|i: int| 0 <= i < list.len() && list[i].0@ == id].1)
    } else {
        None
    }
}

/// The observability snapshot of a registry: a non-router has no model
/// evidence; for a router each model gets its supplemental entry, or none
/// with the supplemental error recorded when that read failed.
pub fn observability_snapshot(registry: RouterRegistry, supplemental: Result<Vec<(String, SupplementalModelEvidence)>, String>, observed_at_unix_ms: u128) -> (r: RouterObservabilitySnapshot)
    requires
        supplemental matches Ok(list) ==> forall|i: int, j: int| 0 <= i < j < list@.len() ==> list@[i].0@ != list@[j].0@,
    ensures
        r.registry == registry,
        r.observed_at_unix_ms == observed_at_unix_ms,
        registry.role != crate::router::RouterRole::Router ==> r.models@.len() == 0 && r.supplemental_error is None,
        registry.role == crate::router::RouterRole::Router ==> {
            &&& r.models@.len() == registry.models@.len()
            &&& match supplemental {
                Ok(_) => r.supplemental_error is None,
                Err(e) => r.supplemental_error == Some(e),
            }
            &&& forall|i: int| 0 <= i < r.models@.len() ==> {
                &&& (#[trigger] r.models@[i]).model.id == registry.models@[i].id
                &&& crate::router::model_view(r.models@[i].model) == crate::router::model_view(registry.models@[i])
                &&& observability_holds(r.models@[i], r.models@[i].model, match supplemental {
                    Ok(list) => listed_for(list@, registry.models@[i].id@),
                    Err(_) => None,
                }, match supplemental {
                    Ok(_) => None,
                    Err(e) => Some(e@),
                })
            }
        },
{
    if registry.role != crate::router::RouterRole::Router {
        return RouterObservabilitySnapshot { registry, models: Vec::new(), supplemental_error: None, observed_at_unix_ms };
    }
    let (list, error): (Vec<(String, SupplementalModelEvidence)>, Option<String>) = match supplemental {
        Ok(l) => (l, None),
        Err(e) => (Vec::new(), Some(e)),
    };
    let mut models: Vec<RouterModelObservability> = Vec::new();
    let mut i: usize = 0;
    while i < registry.models.len()
        invariant
            i <= registry.models@.len(),
            models@.len() == i,
            match supplemental {
                Ok(l) => list == l && error is None,
                Err(e) => list@.len() == 0 && error == Some(e),
            },
            forall|a: int, b: int| 0 <= a < b < list@.len() ==> list@[a].0@ != list@[b].0@,
            forall|k: int| 0 <= k < i ==> {
                &&& (#[trigger] models@[k]).model.id == registry.models@[k].id
                &&& crate::router::model_view(models@[k].model) == crate::router::model_view(registry.models@[k])
                &&& observability_holds(models@[k], models@[k].model, match supplemental {
                    Ok(l) => listed_for(l@, registry.models@[k].id@),
                    Err(_) => None,
                }, match supplemental {
                    Ok(_) => None,
                    Err(e) => Some(e@),
                })
            },
        decreases registry.models@.len() - i,
    {
        let model = copy_model(&registry.models[i]);
        let entry = supplemental_for(&list, &model.id);
        proof {
            match entry {
                Some(e) => {
                    let w = choose|w: int| 0 <= w < list@.len() && list@[w].0@ == model.id@ && list@[w].1 == *e;
                    let c = choose|c: int| 0 <= c < list@.len() && list@[c].0@ == model.id@;
                    if c < w {
                        assert(list@[c].0@ != list@[w].0@);
                    } else if w < c {
                        assert(list@[w].0@ != list@[c].0@);
                    }
                    assert(c == w);
                },
                None => {},
            }
        }
        let err_text: Option<&str> = match &error {
            Some(e) => Some(e.as_str()),
            None => None,
        };
        let o = observability_for_model(model, entry, err_text);
        models.push(o);
        i = i + 1;
    }
    RouterObservabilitySnapshot { registry, models, supplemental_error: error, observed_at_unix_ms }
}

} // verus!
