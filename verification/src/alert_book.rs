//! The bookkeeping of an alert engine: one state machine per rule and
//! series key, and a bounded history of the events they produced. An
//! instance only ever sees the samples of its own series.
use vstd::prelude::*;
use crate::history_store::{copy_key, key_view, same_key, KeyView};
use crate::telemetry_alerts::{
    alert_step, instance_view, observe_alert_sample, transition_view, window_view, AlertError, AlertEventKind,
    AlertInstanceState, AlertInstanceView, AlertPresentationState, AlertTiming, PendingWindow,
};
use crate::telemetry_history::SeriesKey;

verus! {

/// The state machine of one rule on one series.
#[derive(Debug, Clone)]
pub struct AlertInstance<V> {
    pub rule_id: String,
    pub key: SeriesKey,
    pub state: AlertInstanceState<V>,
}

/// The instance a rule id and key name.
pub open spec fn instance_name<V>(x: AlertInstance<V>) -> (Seq<char>, KeyView) {
    (x.rule_id@, key_view(x.key))
}

/// The position of the instance named `n` among `xs`, from `i` on.
pub open spec fn instance_position<V>(xs: Seq<AlertInstance<V>>, n: (Seq<char>, KeyView), i: int) -> Option<int>
    decreases xs.len() - i,
{
    if i < 0 || i >= xs.len() {
        None
    } else if instance_name(xs[i]) == n {
        Some(i)
    } else {
        instance_position(xs, n, i + 1)
    }
}

/// The last `cap` events of `h`.
pub open spec fn kept_events<E>(h: Seq<E>, cap: int) -> Seq<E> {
    if h.len() > cap {
        h.subrange(h.len() - cap, h.len() as int)
    } else {
        h
    }
}

/// Alert instances, in the order they were first observed, and the latest
/// events, oldest first.
#[derive(Debug, Clone)]
pub struct AlertBook<V, E> {
    instances: Vec<AlertInstance<V>>,
    history: Vec<E>,
    history_capacity: usize,
}

impl<V, E> AlertBook<V, E> {
    pub closed spec fn instance_seq(&self) -> Seq<AlertInstance<V>> {
        self.instances@
    }

    pub closed spec fn event_seq(&self) -> Seq<E> {
        self.history@
    }

    pub closed spec fn capacity(&self) -> usize {
        self.history_capacity
    }

    /// No instance named twice, and no more events than the capacity.
    pub open spec fn wf(&self) -> bool {
        &&& self.capacity() > 0
        &&& self.event_seq().len() <= self.capacity()
        &&& forall|i: int, j: int|
            0 <= i < j < self.instance_seq().len() ==> instance_name(#[trigger] self.instance_seq()[i])
                != instance_name(#[trigger] self.instance_seq()[j])
    }

    /// An empty book that keeps up to `history_capacity` events.
    pub fn new(history_capacity: usize) -> (r: Self)
        requires
            history_capacity > 0,
        ensures
            r.wf(),
            r.capacity() == history_capacity,
            r.instance_seq().len() == 0,
            r.event_seq().len() == 0,
    {
        AlertBook { instances: Vec::new(), history: Vec::new(), history_capacity }
    }

    pub fn instances(&self) -> (r: &Vec<AlertInstance<V>>)
        ensures
            r@ == self.instance_seq(),
    {
        &self.instances
    }

    pub fn history(&self) -> (r: &Vec<E>)
        ensures
            r@ == self.event_seq(),
    {
        &self.history
    }

    fn position(&self, rule_id: &String, key: &SeriesKey) -> (r: Option<usize>)
        ensures
            match instance_position(self.instance_seq(), (rule_id@, key_view(*key)), 0) {
                Some(i) => r == Some(i as usize),
                None => r is None,
            },
    {
        let mut i: usize = 0;
        while i < self.instances.len()
            invariant
                i <= self.instances@.len(),
                instance_position(self.instances@, (rule_id@, key_view(*key)), 0) == instance_position(
                    self.instances@,
                    (rule_id@, key_view(*key)),
                    i as int,
                ),
            decreases self.instances@.len() - i,
        {
            let x = &self.instances[i];
            if x.rule_id == *rule_id && same_key(&x.key, key) {
                return Some(i);
            }
            i = i + 1;
        }
        None
    }

    /// Feeds one sample to the instance of `rule_id` on `key`, starting an
    /// instance that has seen nothing when there is none yet (it stays even
    /// when the sample is refused); the result is as `observe_alert_sample`
    /// says for that instance, and every other instance is unchanged.
    pub fn observe(
        &mut self,
        rule_id: &String,
        key: &SeriesKey,
        timing: AlertTiming,
        t: u64,
        live: Option<(V, bool, bool)>,
        evidence_capacity: usize,
    ) -> (r: Result<(AlertPresentationState, Option<(AlertEventKind, PendingWindow<V>)>), AlertError>)
        requires
            old(self).wf(),
            evidence_capacity > 0,
        ensures
            final(self).wf(),
            final(self).event_seq() == old(self).event_seq(),
            final(self).capacity() == old(self).capacity(),
            ({
                let name = (rule_id@, key_view(*key));
                let pos = instance_position(old(self).instance_seq(), name, 0);
                let i = match pos {
                    Some(p) => p,
                    None => old(self).instance_seq().len() as int,
                };
                let before = match pos {
                    Some(p) => instance_view(old(self).instance_seq()[p].state),
                    None => fresh_instance::<V>(),
                };
                &&& final(self).instance_seq().len() == (if pos is Some {
                    old(self).instance_seq().len() as int
                } else {
                    old(self).instance_seq().len() + 1int
                })
                &&& instance_name(final(self).instance_seq()[i]) == name
                &&& forall|j: int| 0 <= j < old(self).instance_seq().len() && j != i ==> #[trigger] final(self).instance_seq()[j]
                    == old(self).instance_seq()[j]
                &&& observed_as(before, instance_view(final(self).instance_seq()[i].state), timing, t, live, evidence_capacity, r)
            }),
    {
        let ghost s0 = self.instances@;
        let ghost name = (rule_id@, key_view(*key));
        proof {
            lemma_instance_position_bounds(s0, name, 0);
        }
        let count = self.instances.len();
        let i = match self.position(rule_id, key) {
            Some(i) => i,
            None => {
                let created = AlertInstance { rule_id: rule_id.clone(), key: copy_key(key), state: AlertInstanceState::new() };
                self.instances.push(created);
                proof {
                    assert forall|a: int, b: int| 0 <= a < b < self.instances@.len() implies instance_name(
                        #[trigger] self.instances@[a],
                    ) != instance_name(#[trigger] self.instances@[b]) by {
                        if b == self.instances@.len() - 1 {
                            assert(instance_name(s0[a]) != name);
                        }
                    }
                }
                self.instances.len() - 1
            },
        };
        let ghost before = self.instances@[i as int];
        let ghost mid = self.instances@;
        let r = observe_alert_sample(&mut self.instances[i].state, timing, t, live, evidence_capacity);
        proof {
            assert forall|a: int, b: int| 0 <= a < b < self.instances@.len() implies instance_name(
                #[trigger] self.instances@[a],
            ) != instance_name(#[trigger] self.instances@[b]) by {
                assert(instance_name(mid[a]) == instance_name(self.instances@[a]));
                assert(instance_name(mid[b]) == instance_name(self.instances@[b]));
            }
            assert(instance_view(before.state) == match instance_position(s0, name, 0) {
                Some(p) => instance_view(s0[p].state),
                None => fresh_instance::<V>(),
            });
        }
        r
    }

    /// Records an event, dropping the oldest beyond the capacity.
    pub fn record(&mut self, event: E)
        requires
            old(self).wf(),
        ensures
            final(self).wf(),
            final(self).instance_seq() == old(self).instance_seq(),
            final(self).capacity() == old(self).capacity(),
            final(self).event_seq() == kept_events(old(self).event_seq().push(event), old(self).capacity() as int),
    {
        let ghost full = self.history@.push(event);
        let ghost names = self.instances@;
        assert(self.wf());
        assert(self.instance_seq() == names);
        assert(forall|i: int, j: int| 0 <= i < j < names.len() ==> instance_name(#[trigger] names[i]) != instance_name(#[trigger] names[j]));
        self.history.push(event);
        if self.history.len() > self.history_capacity {
            let extra = self.history.len() - self.history_capacity;
            let kept = self.history.split_off(extra);
            self.history = kept;
        }
    }

    /// Forgets every instance of `rule_id` (after its rule changed).
    pub fn forget_rule(&mut self, rule_id: &String)
        requires
            old(self).wf(),
        ensures
            final(self).wf(),
            final(self).event_seq() == old(self).event_seq(),
            final(self).capacity() == old(self).capacity(),
            final(self).instance_seq() == without_rule(old(self).instance_seq(), rule_id@),
    {
        let ghost s0 = self.instances@;
        assert(self.wf());
        assert(self.instance_seq() == s0);
        assert(forall|i: int, j: int| 0 <= i < j < s0.len() ==> instance_name(#[trigger] s0[i]) != instance_name(#[trigger] s0[j]));
        let mut current: Vec<AlertInstance<V>> = Vec::new();
        std::mem::swap(&mut current, &mut self.instances);
        let n = current.len();
        let mut reversed: Vec<AlertInstance<V>> = Vec::new();
        while current.len() > 0
            invariant
                current@.len() + reversed@.len() == n,
                n == s0.len(),
                current@ == s0.subrange(0, current@.len() as int),
                forall|k: int| 0 <= k < reversed@.len() ==> #[trigger] reversed@[k] == s0[n - 1 - k],
            decreases current@.len(),
        {
            match current.pop() {
                Some(x) => {
                    reversed.push(x);
                },
                None => {},
            }
        }
        let mut kept: Vec<AlertInstance<V>> = Vec::new();
        let mut i: usize = 0;
        while i < n
            invariant
                n == s0.len(),
                i <= n,
                reversed@.len() == n - i,
                forall|k: int| 0 <= k < reversed@.len() ==> #[trigger] reversed@[k] == s0[n - 1 - k],
                kept@ == without_rule(s0.subrange(0, i as int), rule_id@),
            decreases n - i,
        {
            match reversed.pop() {
                Some(x) => {
                    assert(x == s0[i as int]);
                    assert(s0.subrange(0, i + 1).drop_last() =~= s0.subrange(0, i as int));
                    if x.rule_id != *rule_id {
                        kept.push(x);
                    }
                },
                None => {},
            }
            i = i + 1;
        }
        assert(s0.subrange(0, n as int) =~= s0);
        self.instances = kept;
        proof {
            assert forall|a: int, b: int| 0 <= a < b < self.instances@.len() implies instance_name(
                #[trigger] self.instances@[a],
            ) != instance_name(#[trigger] self.instances@[b]) by {
                lemma_without_rule_keeps_distinct_names(s0, rule_id@, a, b);
            }
        }
    }
}

/// The instances of every rule but `rule`, in order.
pub open spec fn without_rule<V>(xs: Seq<AlertInstance<V>>, rule: Seq<char>) -> Seq<AlertInstance<V>>
    decreases xs.len(),
{
    if xs.len() == 0 {
        xs
    } else {
        let d = without_rule(xs.drop_last(), rule);
        if xs.last().rule_id@ != rule {
            d.push(xs.last())
        } else {
            d
        }
    }
}

proof fn lemma_without_rule_from<V>(xs: Seq<AlertInstance<V>>, rule: Seq<char>, a: int)
    requires
        0 <= a < without_rule(xs, rule).len(),
    ensures
        without_rule(xs, rule).len() <= xs.len(),
        exists|i: int| 0 <= i < xs.len() && #[trigger] xs[i] == without_rule(xs, rule)[a],
    decreases xs.len(),
{
    let pre = xs.drop_last();
    lemma_without_rule_len(pre, rule);
    if xs.last().rule_id@ != rule && a == without_rule(xs, rule).len() - 1 {
        assert(xs[xs.len() - 1] == without_rule(xs, rule)[a]);
    } else {
        lemma_without_rule_from(pre, rule, a);
        let i = choose|i: int| 0 <= i < pre.len() && #[trigger] pre[i] == without_rule(pre, rule)[a];
        assert(xs[i] == pre[i]);
    }
}

proof fn lemma_without_rule_len<V>(xs: Seq<AlertInstance<V>>, rule: Seq<char>)
    ensures
        without_rule(xs, rule).len() <= xs.len(),
    decreases xs.len(),
{
    if xs.len() > 0 {
        lemma_without_rule_len(xs.drop_last(), rule);
    }
}

proof fn lemma_without_rule_keeps_distinct_names<V>(s: Seq<AlertInstance<V>>, rule: Seq<char>, a: int, b: int)
    requires
        forall|i: int, j: int| 0 <= i < j < s.len() ==> instance_name(#[trigger] s[i]) != instance_name(#[trigger] s[j]),
        0 <= a < b < without_rule(s, rule).len(),
    ensures
        instance_name(without_rule(s, rule)[a]) != instance_name(without_rule(s, rule)[b]),
    decreases s.len(),
{
    let pre = s.drop_last();
    let w = without_rule(s, rule);
    lemma_without_rule_len(pre, rule);
    assert forall|i: int, j: int| 0 <= i < j < pre.len() implies instance_name(#[trigger] pre[i]) != instance_name(#[trigger] pre[j]) by {
        assert(pre[i] == s[i] && pre[j] == s[j]);
    }
    if s.last().rule_id@ != rule && b == w.len() - 1 {
        lemma_without_rule_from(pre, rule, a);
        let k = choose|k: int| 0 <= k < pre.len() && #[trigger] pre[k] == without_rule(pre, rule)[a];
        assert(s[k] == pre[k]);
        assert(w[a] == without_rule(pre, rule)[a]);
        assert(instance_name(s[k]) != instance_name(s[s.len() - 1]));
    } else {
        lemma_without_rule_keeps_distinct_names(pre, rule, a, b);
    }
}

/// An instance that has seen nothing.
pub open spec fn fresh_instance<V>() -> AlertInstanceView<V> {
    AlertInstanceView { active: false, trigger: None, clear: None, last_transition: None, last_observed: None }
}

/// What observing a sample does to an instance, as `observe_alert_sample`
/// says: an older sample is refused and changes nothing; any other is
/// applied by `alert_step`.
pub open spec fn observed_as<V>(
    before: AlertInstanceView<V>,
    after: AlertInstanceView<V>,
    timing: AlertTiming,
    t: u64,
    live: Option<(V, bool, bool)>,
    cap: usize,
    r: Result<(AlertPresentationState, Option<(AlertEventKind, PendingWindow<V>)>), AlertError>,
) -> bool {
    if before.last_observed matches Some(p) && t < p {
        &&& r == Err::<(AlertPresentationState, Option<(AlertEventKind, PendingWindow<V>)>), AlertError>(
            AlertError::OutOfOrderSample { previous: before.last_observed->0, incoming: t },
        )
        &&& after == before
    } else {
        r matches Ok((presentation, event)) && {
            let step = alert_step(before, timing, t, live, cap as int);
            &&& after == step.0
            &&& presentation == step.1
            &&& transition_view(event) == step.2
        }
    }
}

proof fn lemma_instance_position_bounds<V>(xs: Seq<AlertInstance<V>>, n: (Seq<char>, KeyView), i: int)
    requires
        0 <= i,
    ensures
        instance_position(xs, n, i) matches Some(p) ==> i <= p < xs.len() && instance_name(xs[p]) == n,
        instance_position(xs, n, i) is None ==> forall|j: int| i <= j < xs.len() ==> instance_name(#[trigger] xs[j]) != n,
    decreases xs.len() - i,
{
    if i < xs.len() && instance_name(xs[i]) != n {
        lemma_instance_position_bounds(xs, n, i + 1);
    }
}

/// An event history never holds more than its capacity.
pub proof fn law_alert_history_is_bounded<E>(h: Seq<E>, e: E, cap: int)
    requires
        cap > 0,
        h.len() <= cap,
    ensures
        kept_events(h.push(e), cap).len() <= cap,
        kept_events(h.push(e), cap).last() == e,
{
}

/// A sample that is not a live reading, if it is not older than the last
/// one seen, is accepted and suppresses the alert without a transition: an
/// active alert stays active (no resolution), an inactive one stays
/// inactive, and both pending windows are dropped.
pub proof fn law_non_live_sample_suppresses_without_transition<V>(
    before: AlertInstanceView<V>,
    after: AlertInstanceView<V>,
    timing: AlertTiming,
    t: u64,
    cap: usize,
    r: Result<(AlertPresentationState, Option<(AlertEventKind, PendingWindow<V>)>), AlertError>,
)
    requires
        observed_as(before, after, timing, t, None, cap, r),
        before.last_observed matches Some(p) ==> p <= t,
    ensures
        r matches Ok((presentation, event)) && presentation == AlertPresentationState::Suppressed && event is None,
        after.active == before.active,
        after.trigger is None,
        after.clear is None,
        after.last_transition == before.last_transition,
        after.last_observed == Some(t),
{
    if let Ok((presentation, event)) = r {
        if let Some(x) = event {
            assert(transition_view(event) == Some((x.0, window_view(x.1))));
        }
    }
}

} // verus!
