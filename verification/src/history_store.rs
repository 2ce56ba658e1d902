//! Telemetry series kept side by side, one per series key, all under one
//! history policy. Two keys that differ in anything (metric, unit, source
//! or identity) never share a series.
use vstd::prelude::*;
use crate::history_series::{push_outcome, HistoryEntry, HistorySeries};
use crate::telemetry_history::{policy_violation, HistoryError, HistoryPolicy, SeriesKey};

verus! {

/// A series key by its texts.
pub type KeyView = (Seq<char>, Seq<char>, Seq<char>, Seq<char>, Seq<char>, Seq<char>, Option<Seq<char>>);

pub open spec fn key_view(k: SeriesKey) -> KeyView {
    (
        k.metric@,
        k.unit@,
        k.source_provider@,
        k.source_api@,
        k.identity.namespace@,
        k.identity.stable_id@,
        match k.identity.display_name {
            Some(n) => Some(n@),
            None => None,
        },
    )
}

/// Whether two keys are equal, field by field.
pub fn same_key(a: &SeriesKey, b: &SeriesKey) -> (r: bool)
    ensures
        r == (key_view(*a) == key_view(*b)),
{
    let names = match (&a.identity.display_name, &b.identity.display_name) {
        (Some(x), Some(y)) => *x == *y,
        (None, None) => true,
        _ => false,
    };
    a.metric == b.metric && a.unit == b.unit && a.source_provider == b.source_provider && a.source_api == b.source_api
        && a.identity.namespace == b.identity.namespace && a.identity.stable_id == b.identity.stable_id && names
}

/// A copy of a key, equal to it in every text.
pub fn copy_key(k: &SeriesKey) -> (r: SeriesKey)
    ensures
        key_view(r) == key_view(*k),
{
    let display_name = match &k.identity.display_name {
        Some(n) => Some(n.clone()),
        None => None,
    };
    SeriesKey {
        metric: k.metric.clone(),
        unit: k.unit.clone(),
        source_provider: k.source_provider.clone(),
        source_api: k.source_api.clone(),
        identity: crate::telemetry_history::SeriesIdentity {
            namespace: k.identity.namespace.clone(),
            stable_id: k.identity.stable_id.clone(),
            display_name,
        },
    }
}

/// The position of the series with key `k` among `ss`, from `i` on.
pub open spec fn position_of<S>(ss: Seq<HistorySeries<S>>, k: KeyView, i: int) -> Option<int>
    decreases ss.len() - i,
{
    if i < 0 || i >= ss.len() {
        None
    } else if key_view(ss[i].series_key()) == k {
        Some(i)
    } else {
        position_of(ss, k, i + 1)
    }
}

/// A series with this key and policy that holds nothing yet.
pub open spec fn fresh<S>(x: HistorySeries<S>, key: SeriesKey, policy: HistoryPolicy) -> bool {
    &&& x.series_key() == key
    &&& x.series_policy() == policy
    &&& x.entry_seq().len() == 0
    &&& x.last_compaction() is None
}

/// The series of a store, in the order their keys first arrived.
#[derive(Debug, Clone)]
pub struct HistoryStore<S> {
    policy: HistoryPolicy,
    series: Vec<HistorySeries<S>>,
}

impl<S> HistoryStore<S> {
    pub closed spec fn store_policy(&self) -> HistoryPolicy {
        self.policy
    }

    pub closed spec fn series_seq(&self) -> Seq<HistorySeries<S>> {
        self.series@
    }

    /// A valid policy shared by well-formed series, no key twice.
    pub open spec fn wf(&self) -> bool {
        &&& policy_violation(self.store_policy()) is None
        &&& forall|i: int| 0 <= i < self.series_seq().len() ==> (#[trigger] self.series_seq()[i]).wf()
            && self.series_seq()[i].series_policy() == self.store_policy()
        &&& forall|i: int, j: int|
            0 <= i < j < self.series_seq().len() ==> key_view((#[trigger] self.series_seq()[i]).series_key())
                != key_view((#[trigger] self.series_seq()[j]).series_key())
    }

    /// An empty store, if the policy is valid.
    pub fn new(policy: HistoryPolicy) -> (r: Result<Self, HistoryError>)
        ensures
            match policy_violation(policy) {
                None => r matches Ok(x) && x.wf() && x.store_policy() == policy && x.series_seq().len() == 0,
                Some(m) => r matches Err(HistoryError::InvalidPolicy(t)) && t@ == m,
            },
    {
        match policy.validate() {
            Ok(policy) => Ok(HistoryStore { policy, series: Vec::new() }),
            Err(e) => Err(e),
        }
    }

    /// Where the series with this key stands, if there is one.
    pub fn position(&self, key: &SeriesKey) -> (r: Option<usize>)
        ensures
            match position_of(self.series_seq(), key_view(*key), 0) {
                Some(i) => r == Some(i as usize),
                None => r is None,
            },
    {
        let mut i: usize = 0;
        while i < self.series.len()
            invariant
                i <= self.series@.len(),
                position_of(self.series@, key_view(*key), 0) == position_of(self.series@, key_view(*key), i as int),
            decreases self.series@.len() - i,
        {
            if same_key(self.series[i].key(), key) {
                return Some(i);
            }
            i = i + 1;
        }
        None
    }

    /// The series with this key, if there is one.
    pub fn series(&self, key: &SeriesKey) -> (r: Option<&HistorySeries<S>>)
        ensures
            match position_of(self.series_seq(), key_view(*key), 0) {
                Some(i) => r matches Some(x) && *x == self.series_seq()[i],
                None => r is None,
            },
    {
        proof {
            lemma_position_bounds(self.series@, key_view(*key), 0);
        }
        let n = self.series.len();
        let found = self.position(key);
        match found {
            Some(i) => {
                let x = &self.series[i];
                Some(x)
            },
            None => None,
        }
    }

    /// Every series, in the order their keys first arrived.
    pub fn all(&self) -> (r: &Vec<HistorySeries<S>>)
        ensures
            r@ == self.series_seq(),
    {
        &self.series
    }

    /// The positions of the series of one metric, in order.
    pub fn series_for_metric(&self, metric: &str) -> (r: Vec<usize>)
        ensures
            forall|k: int| 0 <= k < r@.len() ==> (#[trigger] r@[k]) < self.series_seq().len()
                && self.series_seq()[r@[k] as int].series_key().metric@ == metric@,
            forall|i: int| 0 <= i < self.series_seq().len() && (#[trigger] self.series_seq()[i]).series_key().metric@ == metric@
                ==> r@.contains(i as usize),
            forall|a: int, b: int| 0 <= a < b < r@.len() ==> (#[trigger] r@[a]) < (#[trigger] r@[b]),
    {
        let mut out: Vec<usize> = Vec::new();
        let mut i: usize = 0;
        while i < self.series.len()
            invariant
                i <= self.series@.len(),
                forall|k: int| 0 <= k < out@.len() ==> (#[trigger] out@[k]) < i
                    && self.series@[out@[k] as int].series_key().metric@ == metric@,
                forall|j: int| 0 <= j < i && (#[trigger] self.series@[j]).series_key().metric@ == metric@ ==> out@.contains(j as usize),
                forall|a: int, b: int| 0 <= a < b < out@.len() ==> (#[trigger] out@[a]) < (#[trigger] out@[b]),
            decreases self.series@.len() - i,
        {
            if crate::router::str_is(self.series[i].key().metric.as_str(), metric) {
                let ghost before = out@;
                out.push(i);
                assert(out@[out@.len() - 1] == i);
                assert forall|j: int| 0 <= j < i + 1 && (#[trigger] self.series@[j]).series_key().metric@ == metric@ implies out@.contains(j as usize) by {
                    if j < i {
                        assert(before.contains(j as usize));
                        let m = choose|m: int| 0 <= m < before.len() && before[m] == j as usize;
                        assert(out@[m] == j as usize);
                    }
                }
            }
            i = i + 1;
        }
        out
    }

    pub fn len(&self) -> (r: usize)
        ensures
            r == self.series_seq().len(),
    {
        self.series.len()
    }

    pub fn is_empty(&self) -> (r: bool)
        ensures
            r == (self.series_seq().len() == 0),
    {
        self.series.len() == 0
    }

    /// Adds a sample to the series of `key`, opening an empty series for a
    /// key not seen before (which stays even if the sample is refused). The
    /// result is the series' position; every other series is unchanged.
    pub fn push(&mut self, key: SeriesKey, entry: HistoryEntry<S>) -> (r: Result<usize, HistoryError>)
        requires
            old(self).wf(),
            old(self).series_seq().len() < usize::MAX,
        ensures
            final(self).wf(),
            final(self).store_policy() == old(self).store_policy(),
            final(self).series_seq().len() == if position_of(old(self).series_seq(), key_view(key), 0) is Some {
                old(self).series_seq().len() as int
            } else {
                old(self).series_seq().len() + 1int
            },
            forall|j: int|
                0 <= j < old(self).series_seq().len() && j != target_index(old(self).series_seq(), key) ==> #[trigger] final(self).series_seq()[j]
                    == old(self).series_seq()[j],
            exists|before: HistorySeries<S>| {
                &&& (match position_of(old(self).series_seq(), key_view(key), 0) {
                    Some(p) => before == old(self).series_seq()[p],
                    None => fresh(before, key, old(self).store_policy()),
                })
                &&& #[trigger] push_outcome(before, final(self).series_seq()[target_index(old(self).series_seq(), key)], entry, without_position(r))
            },
            r matches Ok(p) ==> p == target_index(old(self).series_seq(), key),
    {
        proof {
            lemma_position_bounds(self.series@, key_view(key), 0);
        }
        let ghost s0 = self.series@;
        let ghost key0 = key;
        let i = match self.position(&key) {
            Some(i) => i,
            None => {
                let created = match HistorySeries::new(key, self.policy) {
                    Ok(s) => s,
                    Err(e) => {
                        return Err(e);
                    },
                };
                let ghost old_series = self.series@;
                self.series.push(created);
                proof {
                    assert forall|a: int, b: int| 0 <= a < b < self.series@.len() implies key_view((#[trigger] self.series@[a]).series_key())
                        != key_view((#[trigger] self.series@[b]).series_key()) by {
                        if b == self.series@.len() - 1 {
                            lemma_absent_key(old_series, key_view(created_key_of(self.series@[b])), a);
                        }
                    }
                }
                self.series.len() - 1
            },
        };
        let ghost before = self.series@[i as int];
        let ghost others = self.series@;
        let result = self.series[i].push(entry);
        proof {
            assert forall|a: int, b: int| 0 <= a < b < self.series@.len() implies key_view((#[trigger] self.series@[a]).series_key())
                != key_view((#[trigger] self.series@[b]).series_key()) by {
                assert(others[a].series_key() == self.series@[a].series_key());
                assert(others[b].series_key() == self.series@[b].series_key());
            }
        }
        let r: Result<usize, HistoryError> = match result {
            Ok(_) => {
                assert(push_outcome(before, self.series@[i as int], entry, without_position(Ok::<usize, HistoryError>(i))));
                Ok(i)
            },
            Err(e) => {
                assert(push_outcome(before, self.series@[i as int], entry, without_position(Err::<usize, HistoryError>(e))));
                Err(e)
            },
        };
        proof {
            assert(target_index(s0, key0) == i as int);
            assert(push_outcome(before, self.series_seq()[target_index(s0, key0)], entry, without_position(r)));
        }
        r
    }
}

/// Samples of different keys never share a series: each key of a
/// well-formed store has a series of its own, and every sample of a series
/// came from that series' source.
pub proof fn law_store_never_mixes_keys<S>(store: HistoryStore<S>, i: int, j: int, k: int)
    requires
        store.wf(),
        0 <= i < j < store.series_seq().len(),
        0 <= k < store.series_seq()[i].entry_seq().len(),
    ensures
        key_view(store.series_seq()[i].series_key()) != key_view(store.series_seq()[j].series_key()),
        crate::telemetry_history::source_matches(store.series_seq()[i].entry_seq()[k].source, store.series_seq()[i].series_key()),
{
    assert(store.series_seq()[i].wf());
}

/// Where the series of `key` stands after a push: its position, or the
/// end for a new key.
pub open spec fn target_index<S>(ss: Seq<HistorySeries<S>>, key: SeriesKey) -> int {
    match position_of(ss, key_view(key), 0) {
        Some(p) => p,
        None => ss.len() as int,
    }
}

/// A push's outcome without the series' position.
pub open spec fn without_position(r: Result<usize, HistoryError>) -> Result<(), HistoryError> {
    match r {
        Ok(_) => Ok(()),
        Err(e) => Err(e),
    }
}

pub open spec fn created_key_of<S>(x: HistorySeries<S>) -> SeriesKey {
    x.series_key()
}

proof fn lemma_position_bounds<S>(ss: Seq<HistorySeries<S>>, k: KeyView, i: int)
    requires
        0 <= i,
    ensures
        position_of(ss, k, i) matches Some(p) ==> i <= p < ss.len() && key_view(ss[p].series_key()) == k,
        position_of(ss, k, i) is None ==> forall|j: int| i <= j < ss.len() ==> key_view((#[trigger] ss[j]).series_key()) != k,
    decreases ss.len() - i,
{
    if i < ss.len() && key_view(ss[i].series_key()) != k {
        lemma_position_bounds(ss, k, i + 1);
    }
}

proof fn lemma_absent_key<S>(ss: Seq<HistorySeries<S>>, k: KeyView, a: int)
    requires
        position_of(ss, k, 0) is None,
        0 <= a < ss.len(),
    ensures
        key_view(ss[a].series_key()) != k,
{
    lemma_position_bounds(ss, k, 0);
}

} // verus!
