//! One telemetry series: samples kept in time order, dropped past the
//! retention, and compacted once older than the raw retention into
//! per-bucket first, lowest, highest and last samples. Markers (samples with
//! no drawable value) are never merged. A reading is carried as an opaque
//! sample `S` with an integer `rank` that orders its value; the series
//! never looks inside `S`.
use vstd::prelude::*;
use crate::telemetry_history::{
    policy_violation, render_class_of, source_matches, validate_sample_source, HistoryError,
    HistoryPolicy, RenderClass, SampleSource, SeriesKey, TimeSeriesState,
};

verus! {

/// A sample as the series keeps it: its time, source and state, how it is
/// drawn (`None` for a marker), the rank of its value among the series'
/// values, and the sample itself.
#[derive(Debug, Clone)]
pub struct HistoryEntry<S> {
    pub timestamp_unix_ms: u64,
    pub source: SampleSource,
    pub state: TimeSeriesState,
    pub class: Option<RenderClass>,
    pub rank: u64,
    pub sample: S,
}

impl<S> HistoryEntry<S> {
    /// An entry for a sample in `state`; `rank` orders its value and is
    /// `None` for a sample without one. Only a live or stale sample with a
    /// value is drawn.
    pub fn new(timestamp_unix_ms: u64, source: SampleSource, state: TimeSeriesState, rank: Option<u64>, sample: S) -> (r: Self)
        ensures
            r.timestamp_unix_ms == timestamp_unix_ms,
            r.source == source,
            r.state == state,
            r.class == (if rank is Some { render_class_of(state) } else { None }),
            r.rank == (match rank {
                Some(k) => k,
                None => 0,
            }),
            r.sample == sample,
    {
        let class = match rank {
            Some(_) => state.render_class(),
            None => None,
        };
        let rank = match rank {
            Some(k) => k,
            None => 0,
        };
        HistoryEntry { timestamp_unix_ms, source, state, class, rank, sample }
    }
}

/// Timestamps never decrease along the series.
pub open spec fn time_ordered<S>(s: Seq<HistoryEntry<S>>) -> bool {
    forall|i: int, j: int|
        0 <= i <= j < s.len() ==> (#[trigger] s[i]).timestamp_unix_ms <= (#[trigger] s[j]).timestamp_unix_ms
}

/// Positions that strictly increase.
pub open spec fn increasing(ps: Seq<usize>) -> bool {
    forall|i: int, j: int| 0 <= i < j < ps.len() ==> (#[trigger] ps[i]) < (#[trigger] ps[j])
}

/// `a - b`, or zero when `b` is larger.
pub open spec fn minus_or_zero(a: u64, b: u64) -> u64 {
    if a >= b {
        (a - b) as u64
    } else {
        0
    }
}

/// A bucket being compacted: its number and render class, and the
/// positions of its first, lowest, highest and last sample.
#[derive(Debug, Clone, Copy, PartialEq, Eq, Structural)]
pub struct BucketAt {
    pub id: u64,
    pub class: RenderClass,
    pub first: usize,
    pub low: usize,
    pub high: usize,
    pub last: usize,
}

pub open spec fn start_bucket(id: u64, class: RenderClass, p: usize) -> BucketAt {
    BucketAt { id, class, first: p, low: p, high: p, last: p }
}

/// A bucket after the sample at `p`: the lowest and highest change only on
/// a strictly lower or higher rank.
pub open spec fn observe_bucket<S>(s: Seq<HistoryEntry<S>>, b: BucketAt, p: usize) -> BucketAt {
    BucketAt {
        id: b.id,
        class: b.class,
        first: b.first,
        low: if s[p as int].rank < s[b.low as int].rank { p } else { b.low },
        high: if s[p as int].rank > s[b.high as int].rank { p } else { b.high },
        last: p,
    }
}

/// Drops each position whose time equals that of the last one kept.
pub open spec fn dedup_by_time<S>(s: Seq<HistoryEntry<S>>, ps: Seq<usize>) -> Seq<usize>
    decreases ps.len(),
{
    if ps.len() <= 1 {
        ps
    } else {
        let d = dedup_by_time(s, ps.drop_last());
        if s[d.last() as int].timestamp_unix_ms == s[ps.last() as int].timestamp_unix_ms {
            d
        } else {
            d.push(ps.last())
        }
    }
}

/// The samples a bucket keeps: first, lowest, highest and last, in time
/// order (lowest before highest on a tie), one per timestamp.
pub open spec fn selected<S>(s: Seq<HistoryEntry<S>>, b: BucketAt) -> Seq<usize> {
    dedup_by_time(
        s,
        if s[b.high as int].timestamp_unix_ms < s[b.low as int].timestamp_unix_ms {
            seq![b.first, b.high, b.low, b.last]
        } else {
            seq![b.first, b.low, b.high, b.last]
        },
    )
}

pub open spec fn flushed<S>(s: Seq<HistoryEntry<S>>, out: Seq<usize>, b: Option<BucketAt>) -> Seq<usize> {
    match b {
        Some(b) => out + selected(s, b),
        None => out,
    }
}

/// A sample kept as it is: newer than the cutoff, or a marker.
pub open spec fn kept_raw<S>(e: HistoryEntry<S>, cutoff: u64) -> bool {
    e.timestamp_unix_ms > cutoff || e.class is None
}

/// Compaction after the sample at `p`.
pub open spec fn compact_step<S>(
    s: Seq<HistoryEntry<S>>,
    st: (Seq<usize>, Option<BucketAt>),
    p: usize,
    cutoff: u64,
    bucket_ms: u64,
) -> (Seq<usize>, Option<BucketAt>) {
    let e = s[p as int];
    if kept_raw(e, cutoff) {
        (flushed(s, st.0, st.1).push(p), None)
    } else {
        let id = (e.timestamp_unix_ms / bucket_ms) as u64;
        let c = e.class->0;
        match st.1 {
            Some(b) => if b.id == id && b.class == c {
                (st.0, Some(observe_bucket(s, b, p)))
            } else {
                (flushed(s, st.0, st.1), Some(start_bucket(id, c, p)))
            },
            None => (st.0, Some(start_bucket(id, c, p))),
        }
    }
}

/// Compaction over the first `n` samples: the positions kept so far and the
/// open bucket.
pub open spec fn compact_prefix<S>(s: Seq<HistoryEntry<S>>, n: int, cutoff: u64, bucket_ms: u64) -> (Seq<usize>, Option<BucketAt>)
    decreases n,
{
    if n <= 0 {
        (Seq::empty(), None)
    } else {
        compact_step(s, compact_prefix(s, n - 1, cutoff, bucket_ms), (n - 1) as usize, cutoff, bucket_ms)
    }
}

/// The positions that compaction keeps, before the size cap.
pub open spec fn kept_positions<S>(s: Seq<HistoryEntry<S>>, cutoff: u64, bucket_ms: u64) -> Seq<usize> {
    let st = compact_prefix(s, s.len() as int, cutoff, bucket_ms);
    flushed(s, st.0, st.1)
}

/// The last `max` positions.
pub open spec fn capped(ps: Seq<usize>, max: usize) -> Seq<usize> {
    if ps.len() > max {
        ps.subrange(ps.len() - max, ps.len() as int)
    } else {
        ps
    }
}

pub open spec fn at_positions<S>(s: Seq<HistoryEntry<S>>, ps: Seq<usize>) -> Seq<HistoryEntry<S>> {
    ps.map_values(|p: usize| s[p as int])
}

/// The series after compaction with this cutoff and bucket size, capped at
/// `max` samples.
pub open spec fn compacted<S>(s: Seq<HistoryEntry<S>>, cutoff: u64, bucket_ms: u64, max: usize) -> Seq<HistoryEntry<S>> {
    at_positions(s, capped(kept_positions(s, cutoff, bucket_ms), max))
}

/// The position of the first sample at or after `cutoff`, from `i` on.
pub open spec fn first_retained<S>(s: Seq<HistoryEntry<S>>, cutoff: u64, i: int) -> int
    decreases s.len() - i,
{
    if i < 0 || i >= s.len() || s[i].timestamp_unix_ms >= cutoff {
        if i < 0 { 0 } else if i > s.len() { s.len() as int } else { i }
    } else {
        first_retained(s, cutoff, i + 1)
    }
}

/// The series without its leading samples older than `cutoff`.
pub open spec fn pruned<S>(s: Seq<HistoryEntry<S>>, cutoff: u64) -> Seq<HistoryEntry<S>> {
    s.subrange(first_retained(s, cutoff, 0), s.len() as int)
}

/// In a time-ordered series, an earlier time means an earlier position.
proof fn lemma_time_orders_positions<S>(s: Seq<HistoryEntry<S>>, p: int, q: int)
    requires
        time_ordered(s),
        0 <= p < s.len(),
        0 <= q < s.len(),
        s[p].timestamp_unix_ms < s[q].timestamp_unix_ms,
    ensures
        p < q,
{
    if q <= p {
        assert(s[q].timestamp_unix_ms <= s[p].timestamp_unix_ms);
    }
}

/// Deduplicating positions whose times never decrease leaves strictly
/// increasing times, starting with the first position, each one taken
/// from the input.
proof fn lemma_dedup_shape<S>(s: Seq<HistoryEntry<S>>, ps: Seq<usize>)
    requires
        forall|k: int| 0 <= k < ps.len() ==> (#[trigger] ps[k]) < s.len(),
        forall|i: int, j: int|
            0 <= i < j < ps.len() ==> s[(#[trigger] ps[i]) as int].timestamp_unix_ms <= s[(#[trigger] ps[j]) as int].timestamp_unix_ms,
    ensures
        ps.len() > 0 ==> dedup_by_time(s, ps).len() > 0 && dedup_by_time(s, ps)[0] == ps[0],
        forall|i: int, j: int|
            0 <= i < j < dedup_by_time(s, ps).len() ==> s[(#[trigger] dedup_by_time(s, ps)[i]) as int].timestamp_unix_ms
                < s[(#[trigger] dedup_by_time(s, ps)[j]) as int].timestamp_unix_ms,
        forall|k: int| 0 <= k < dedup_by_time(s, ps).len() ==> ps.contains(#[trigger] dedup_by_time(s, ps)[k]),
    decreases ps.len(),
{
    if ps.len() > 1 {
        let pre = ps.drop_last();
        lemma_dedup_shape(s, pre);
        let d = dedup_by_time(s, pre);
        assert(pre.contains(d.last()));
        let m = choose|m: int| 0 <= m < pre.len() && pre[m] == d.last();
        assert(ps[m] == d.last());
        assert(ps.contains(ps.last()));
        assert forall|k: int| 0 <= k < d.len() implies ps.contains(#[trigger] d[k]) by {
            assert(pre.contains(d[k]));
            let m2 = choose|m2: int| 0 <= m2 < pre.len() && pre[m2] == d[k];
            assert(ps[m2] == d[k]);
        }
        if s[d.last() as int].timestamp_unix_ms != s[ps.last() as int].timestamp_unix_ms {
            assert(s[ps[m] as int].timestamp_unix_ms <= s[ps[ps.len() - 1] as int].timestamp_unix_ms);
            let r = d.push(ps.last());
            assert forall|i: int, j: int| 0 <= i < j < r.len() implies s[(#[trigger] r[i]) as int].timestamp_unix_ms
                < s[(#[trigger] r[j]) as int].timestamp_unix_ms by {
                if j == r.len() - 1 && i < j {
                    if i < d.len() - 1 {
                        assert(s[d[i] as int].timestamp_unix_ms < s[d[d.len() - 1] as int].timestamp_unix_ms);
                    }
                }
            }
            assert forall|k: int| 0 <= k < r.len() implies ps.contains(#[trigger] r[k]) by {
                if k < d.len() {
                    assert(d[k] == r[k]);
                }
            }
        }
    }
}

/// The positions a bucket keeps strictly increase, start at its first
/// sample and stay within its first and last.
proof fn lemma_selected_shape<S>(s: Seq<HistoryEntry<S>>, b: BucketAt)
    requires
        time_ordered(s),
        b.first <= b.low <= b.last,
        b.first <= b.high <= b.last,
        b.last < s.len(),
    ensures
        increasing(selected(s, b)),
        selected(s, b).len() > 0,
        selected(s, b)[0] == b.first,
        forall|k: int| 0 <= k < selected(s, b).len() ==> b.first <= #[trigger] selected(s, b)[k] <= b.last,
{
    let four = if s[b.high as int].timestamp_unix_ms < s[b.low as int].timestamp_unix_ms {
        seq![b.first, b.high, b.low, b.last]
    } else {
        seq![b.first, b.low, b.high, b.last]
    };
    assert(s[b.first as int].timestamp_unix_ms <= s[b.low as int].timestamp_unix_ms);
    assert(s[b.first as int].timestamp_unix_ms <= s[b.high as int].timestamp_unix_ms);
    assert(s[b.low as int].timestamp_unix_ms <= s[b.last as int].timestamp_unix_ms);
    assert(s[b.high as int].timestamp_unix_ms <= s[b.last as int].timestamp_unix_ms);
    assert forall|i: int, j: int| 0 <= i < j < four.len() implies s[(#[trigger] four[i]) as int].timestamp_unix_ms
        <= s[(#[trigger] four[j]) as int].timestamp_unix_ms by {}
    lemma_dedup_shape(s, four);
    let d = dedup_by_time(s, four);
    assert forall|k: int| 0 <= k < d.len() implies b.first <= #[trigger] d[k] <= b.last by {
        assert(four.contains(d[k]));
    }
    assert forall|i: int, j: int| 0 <= i < j < d.len() implies (#[trigger] d[i]) < (#[trigger] d[j]) by {
        lemma_time_orders_positions(s, d[i] as int, d[j] as int);
    }
}

/// The shape of a compaction prefix over a time-ordered series: kept
/// positions strictly increase and precede the open bucket, whose last
/// sample is the latest one seen.
proof fn lemma_prefix_shape<S>(s: Seq<HistoryEntry<S>>, n: int, cutoff: u64, bucket_ms: u64)
    requires
        time_ordered(s),
        0 <= n <= s.len(),
        s.len() <= usize::MAX,
    ensures
        ({
            let st = compact_prefix(s, n, cutoff, bucket_ms);
            &&& increasing(st.0)
            &&& forall|k: int| 0 <= k < st.0.len() ==> #[trigger] st.0[k] < n
            &&& st.1 matches Some(b) ==> {
                &&& b.first <= b.low <= b.last
                &&& b.first <= b.high <= b.last
                &&& b.last == n - 1
                &&& forall|k: int| 0 <= k < st.0.len() ==> #[trigger] st.0[k] < b.first
            }
        }),
    decreases n,
{
    if n > 0 {
        lemma_prefix_shape(s, n - 1, cutoff, bucket_ms);
        let st = compact_prefix(s, n - 1, cutoff, bucket_ms);
        let f = flushed(s, st.0, st.1);
        assert(increasing(f) && forall|k: int| 0 <= k < f.len() ==> #[trigger] f[k] < n - 1) by {
            match st.1 {
                Some(b) => {
                    lemma_selected_shape(s, b);
                    let sel = selected(s, b);
                    assert forall|i: int, j: int| 0 <= i < j < f.len() implies (#[trigger] f[i]) < (#[trigger] f[j]) by {
                        if j >= st.0.len() && i < st.0.len() {
                            assert(f[j] == sel[j - st.0.len()]);
                        } else if i >= st.0.len() {
                            assert(f[i] == sel[i - st.0.len()]);
                            assert(f[j] == sel[j - st.0.len()]);
                        }
                    }
                    assert forall|k: int| 0 <= k < f.len() implies #[trigger] f[k] < n - 1 by {
                        if k >= st.0.len() {
                            assert(f[k] == sel[k - st.0.len()]);
                        }
                    }
                },
                None => {},
            }
        }
        let p = (n - 1) as usize;
        let e = s[n - 1];
        let next = compact_prefix(s, n, cutoff, bucket_ms);
        assert(next == compact_step(s, st, p, cutoff, bucket_ms));
        if kept_raw(e, cutoff) {
            let out = f.push(p);
            assert(next.0 == out);
            assert forall|i: int, j: int| 0 <= i < j < out.len() implies (#[trigger] out[i]) < (#[trigger] out[j]) by {
                if j < f.len() {
                    assert(out[i] == f[i] && out[j] == f[j]);
                }
            }
        } else {
            let id = (e.timestamp_unix_ms / bucket_ms) as u64;
            let c = e.class->0;
            match st.1 {
                Some(b) => {
                    if b.id == id && b.class == c {
                        assert(next.0 == st.0);
                    } else {
                        assert(next.0 == f);
                    }
                },
                None => {
                    assert(next.0 == st.0);
                },
            }
        }
    }
}

fn bucket_entry_rank<S>(s: &Vec<HistoryEntry<S>>, p: usize) -> (r: u64)
    requires
        p < s@.len(),
    ensures
        r == s@[p as int].rank,
{
    s[p].rank
}

fn observe_bucket_exec<S>(s: &Vec<HistoryEntry<S>>, b: BucketAt, p: usize) -> (r: BucketAt)
    requires
        p < s@.len(),
        b.low < s@.len(),
        b.high < s@.len(),
    ensures
        r == observe_bucket(s@, b, p),
{
    let rank = bucket_entry_rank(s, p);
    let low = if rank < s[b.low].rank { p } else { b.low };
    let high = if rank > s[b.high].rank { p } else { b.high };
    BucketAt { id: b.id, class: b.class, first: b.first, low, high, last: p }
}

/// Appends the positions a bucket keeps.
fn flush_exec<S>(s: &Vec<HistoryEntry<S>>, out: &mut Vec<usize>, b: Option<BucketAt>)
    requires
        b matches Some(x) ==> x.first < s@.len() && x.low < s@.len() && x.high < s@.len() && x.last < s@.len(),
    ensures
        final(out)@ == flushed(s@, old(out)@, b),
{
    match b {
        None => {},
        Some(b) => {
            let four: Vec<usize> = if s[b.high].timestamp_unix_ms < s[b.low].timestamp_unix_ms {
                vec![b.first, b.high, b.low, b.last]
            } else {
                vec![b.first, b.low, b.high, b.last]
            };
            let ghost fs = four@;
            let mut sel: Vec<usize> = Vec::new();
            sel.push(four[0]);
            let mut i: usize = 1;
            while i < 4
                invariant
                    1 <= i <= 4,
                    four@ == fs,
                    fs.len() == 4,
                    forall|k: int| 0 <= k < 4 ==> fs[k] < s@.len(),
                    sel@ == dedup_by_time(s@, fs.subrange(0, i as int)),
                    sel@.len() >= 1,
                    forall|k: int| 0 <= k < sel@.len() ==> sel@[k] < s@.len(),
                decreases 4 - i,
            {
                let ghost pre = fs.subrange(0, i as int);
                assert(fs.subrange(0, i + 1).drop_last() =~= pre);
                assert(fs.subrange(0, i + 1).last() == fs[i as int]);
                let previous = sel[sel.len() - 1];
                if s[previous].timestamp_unix_ms != s[four[i]].timestamp_unix_ms {
                    sel.push(four[i]);
                }
                i = i + 1;
            }
            assert(fs.subrange(0, 4) =~= fs);
            let mut j: usize = 0;
            let ghost before = out@;
            while j < sel.len()
                invariant
                    j <= sel@.len(),
                    out@ == before + sel@.subrange(0, j as int),
                decreases sel@.len() - j,
            {
                out.push(sel[j]);
                j = j + 1;
                assert(out@ =~= before + sel@.subrange(0, j as int));
            }
            assert(sel@.subrange(0, sel@.len() as int) =~= sel@);
        },
    }
}


/// The positions that compaction keeps, in order.
fn compact_positions<S>(s: &Vec<HistoryEntry<S>>, cutoff: u64, bucket_ms: u64) -> (r: Vec<usize>)
    requires
        bucket_ms > 0,
        time_ordered(s@),
    ensures
        r@ == kept_positions(s@, cutoff, bucket_ms),
        increasing(r@),
        forall|k: int| 0 <= k < r@.len() ==> #[trigger] r@[k] < s@.len(),
{
    let mut out: Vec<usize> = Vec::new();
    let mut bucket: Option<BucketAt> = None;
    let mut i: usize = 0;
    while i < s.len()
        invariant
            bucket_ms > 0,
            time_ordered(s@),
            i <= s@.len(),
            (out@, bucket) == compact_prefix(s@, i as int, cutoff, bucket_ms),
        decreases s@.len() - i,
    {
        proof {
            lemma_prefix_shape(s@, i as int, cutoff, bucket_ms);
        }
        let ghost st = (out@, bucket);
        let e = &s[i];
        if e.timestamp_unix_ms > cutoff || e.class.is_none() {
            flush_exec(s, &mut out, bucket);
            out.push(i);
            bucket = None;
        } else {
            let id = e.timestamp_unix_ms / bucket_ms;
            let c = match e.class {
                Some(c) => c,
                None => RenderClass::Live,
            };
            match bucket {
                Some(b) => {
                    if b.id == id && b.class == c {
                        bucket = Some(observe_bucket_exec(s, b, i));
                    } else {
                        flush_exec(s, &mut out, bucket);
                        bucket = Some(BucketAt { id, class: c, first: i, low: i, high: i, last: i });
                    }
                },
                None => {
                    bucket = Some(BucketAt { id, class: c, first: i, low: i, high: i, last: i });
                },
            }
        }
        assert((out@, bucket) == compact_step(s@, st, i, cutoff, bucket_ms));
        i = i + 1;
    }
    proof {
        lemma_prefix_shape(s@, i as int, cutoff, bucket_ms);
        let st = compact_prefix(s@, i as int, cutoff, bucket_ms);
        match st.1 {
            Some(b) => {
                lemma_selected_shape(s@, b);
                let f = flushed(s@, st.0, st.1);
                let sel = selected(s@, b);
                assert forall|a: int, c: int| 0 <= a < c < f.len() implies (#[trigger] f[a]) < (#[trigger] f[c]) by {
                    if c >= st.0.len() && a < st.0.len() {
                        assert(f[c] == sel[c - st.0.len()]);
                    } else if a >= st.0.len() {
                        assert(f[a] == sel[a - st.0.len()]);
                        assert(f[c] == sel[c - st.0.len()]);
                    }
                }
                assert forall|k: int| 0 <= k < f.len() implies #[trigger] f[k] < s@.len() by {
                    if k >= st.0.len() {
                        assert(f[k] == sel[k - st.0.len()]);
                    }
                }
            },
            None => {},
        }
    }
    flush_exec(s, &mut out, bucket);
    out
}

/// The last `max` positions.
fn cap_positions(ps: Vec<usize>, max: usize) -> (r: Vec<usize>)
    ensures
        r@ == capped(ps@, max),
{
    if ps.len() > max {
        let mut ps = ps;
        let cut = ps.len() - max;
        let tail = ps.split_off(cut);
        tail
    } else {
        ps
    }
}

/// The entries at the given strictly increasing positions, moved out of
/// `entries` in order.
fn take_positions<S>(entries: Vec<HistoryEntry<S>>, keep: &Vec<usize>) -> (r: Vec<HistoryEntry<S>>)
    requires
        increasing(keep@),
        forall|k: int| 0 <= k < keep@.len() ==> #[trigger] keep@[k] < entries@.len(),
    ensures
        r@ == at_positions(entries@, keep@),
{
    let ghost s = entries@;
    let n = entries.len();
    let mut entries = entries;
    let mut reversed: Vec<HistoryEntry<S>> = Vec::new();
    while entries.len() > 0
        invariant
            entries@.len() + reversed@.len() == n,
            n == s.len(),
            entries@ == s.subrange(0, entries@.len() as int),
            forall|k: int| 0 <= k < reversed@.len() ==> #[trigger] reversed@[k] == s[n - 1 - k],
        decreases entries@.len(),
    {
        match entries.pop() {
            Some(e) => {
                reversed.push(e);
            },
            None => {},
        }
    }
    let mut out: Vec<HistoryEntry<S>> = Vec::new();
    let mut i: usize = 0;
    let mut j: usize = 0;
    while i < n
        invariant
            n == s.len(),
            i <= n,
            reversed@.len() == n - i,
            forall|k: int| 0 <= k < reversed@.len() ==> #[trigger] reversed@[k] == s[n - 1 - k],
            j <= keep@.len(),
            increasing(keep@),
            forall|k: int| 0 <= k < keep@.len() ==> #[trigger] keep@[k] < s.len(),
            forall|k: int| 0 <= k < j ==> #[trigger] keep@[k] < i,
            forall|k: int| j <= k < keep@.len() ==> #[trigger] keep@[k] >= i,
            out@ == at_positions(s, keep@.subrange(0, j as int)),
        decreases n - i,
    {
        let ghost rl = reversed@.len();
        let popped = reversed.pop();
        match popped {
            Some(e) => {
                assert(e == s[i as int]);
                if j < keep.len() && keep[j] == i {
                    out.push(e);
                    j = j + 1;
                    assert(keep@.subrange(0, j as int).drop_last() =~= keep@.subrange(0, j - 1));
                    assert(out@ =~= at_positions(s, keep@.subrange(0, j as int)));
                    assert forall|k: int| j <= k < keep@.len() implies #[trigger] keep@[k] >= i + 1 by {
                        assert(keep@[j - 1] < keep@[k]);
                    }
                } else {
                    assert forall|k: int| j <= k < keep@.len() implies #[trigger] keep@[k] >= i + 1 by {
                        if k > j {
                            assert(keep@[j as int] < keep@[k]);
                        }
                    }
                }
            },
            None => {},
        }
        i = i + 1;
    }
    assert(j == keep@.len()) by {
        if j < keep@.len() {
            assert(keep@[j as int] >= i);
        }
    }
    assert(keep@.subrange(0, j as int) =~= keep@);
    out
}

/// How many leading samples are older than `cutoff`.
fn count_expired<S>(s: &Vec<HistoryEntry<S>>, cutoff: u64) -> (r: usize)
    ensures
        r == first_retained(s@, cutoff, 0),
        r <= s@.len(),
{
    let mut i: usize = 0;
    while i < s.len() && s[i].timestamp_unix_ms < cutoff
        invariant
            i <= s@.len(),
            first_retained(s@, cutoff, 0) == first_retained(s@, cutoff, i as int),
        decreases s@.len() - i,
    {
        i = i + 1;
    }
    i
}

/// The series after `e` arrives at the end of `s` (with `last` the time of
/// the previous compaction): samples older than the retention are dropped;
/// then, when the series is over its maximum or a bucket's span has passed
/// since the previous compaction, it is compacted at `e`'s time.
pub open spec fn pushed<S>(s: Seq<HistoryEntry<S>>, last: Option<u64>, e: HistoryEntry<S>, p: HistoryPolicy) -> (Seq<HistoryEntry<S>>, Option<u64>) {
    let newest = e.timestamp_unix_ms;
    let q = pruned(s.push(e), minus_or_zero(newest, p.retention_ms));
    let due = q.len() > p.max_points_per_series || match last {
        None => true,
        Some(l) => minus_or_zero(newest, l) >= p.downsample_bucket_ms,
    };
    if due {
        (
            compacted(q, minus_or_zero(newest, p.raw_retention_ms), p.downsample_bucket_ms, p.max_points_per_series),
            Some(newest),
        )
    } else {
        (q, last)
    }
}

/// What adding `e` to `before` gives: a sample from another source, or
/// older than the newest sample, is refused and changes nothing; any other
/// is added as `pushed` says. Key and policy never change.
pub open spec fn push_outcome<S>(before: HistorySeries<S>, after: HistorySeries<S>, e: HistoryEntry<S>, r: Result<(), HistoryError>) -> bool {
    &&& after.series_key() == before.series_key()
    &&& after.series_policy() == before.series_policy()
    &&& if !source_matches(e.source, before.series_key()) {
        &&& r == Err::<(), HistoryError>(HistoryError::SourceMismatch)
        &&& after.entry_seq() == before.entry_seq()
        &&& after.last_compaction() == before.last_compaction()
    } else if before.entry_seq().len() > 0 && e.timestamp_unix_ms < before.entry_seq().last().timestamp_unix_ms {
        &&& r == Err::<(), HistoryError>(HistoryError::OutOfOrderSample {
            previous: before.entry_seq().last().timestamp_unix_ms,
            incoming: e.timestamp_unix_ms,
        })
        &&& after.entry_seq() == before.entry_seq()
        &&& after.last_compaction() == before.last_compaction()
    } else {
        &&& r is Ok
        &&& (after.entry_seq(), after.last_compaction()) == pushed(
            before.entry_seq(),
            before.last_compaction(),
            e,
            before.series_policy(),
        )
    }
}

/// One series: its key, its policy, its samples and the time of its last
/// compaction.
#[derive(Debug, Clone)]
pub struct HistorySeries<S> {
    key: SeriesKey,
    policy: HistoryPolicy,
    entries: Vec<HistoryEntry<S>>,
    last_compaction_unix_ms: Option<u64>,
}

impl<S> HistorySeries<S> {
    pub closed spec fn series_key(&self) -> SeriesKey {
        self.key
    }

    pub closed spec fn series_policy(&self) -> HistoryPolicy {
        self.policy
    }

    pub closed spec fn entry_seq(&self) -> Seq<HistoryEntry<S>> {
        self.entries@
    }

    pub closed spec fn last_compaction(&self) -> Option<u64> {
        self.last_compaction_unix_ms
    }

    /// A valid policy, and samples from the key's source, in time order and
    /// no more than the policy allows.
    pub open spec fn wf(&self) -> bool {
        &&& policy_violation(self.series_policy()) is None
        &&& time_ordered(self.entry_seq())
        &&& self.entry_seq().len() <= self.series_policy().max_points_per_series
        &&& forall|k: int| 0 <= k < self.entry_seq().len() ==> source_matches(
            #[trigger] self.entry_seq()[k].source,
            self.series_key(),
        )
    }

    /// An empty series, if the policy is valid.
    pub fn new(key: SeriesKey, policy: HistoryPolicy) -> (r: Result<Self, HistoryError>)
        ensures
            match policy_violation(policy) {
                None => r matches Ok(x) && x.wf() && x.series_key() == key && x.series_policy() == policy
                    && x.entry_seq().len() == 0 && x.last_compaction() is None,
                Some(m) => r matches Err(HistoryError::InvalidPolicy(t)) && t@ == m,
            },
    {
        match policy.validate() {
            Ok(policy) => Ok(HistorySeries { key, policy, entries: Vec::new(), last_compaction_unix_ms: None }),
            Err(e) => Err(e),
        }
    }

    pub fn key(&self) -> (r: &SeriesKey)
        ensures
            *r == self.series_key(),
    {
        &self.key
    }

    pub fn policy(&self) -> (r: HistoryPolicy)
        ensures
            r == self.series_policy(),
    {
        self.policy
    }

    pub fn entries(&self) -> (r: &Vec<HistoryEntry<S>>)
        ensures
            r@ == self.entry_seq(),
    {
        &self.entries
    }

    pub fn len(&self) -> (r: usize)
        ensures
            r == self.entry_seq().len(),
    {
        self.entries.len()
    }

    pub fn is_empty(&self) -> (r: bool)
        ensures
            r == (self.entry_seq().len() == 0),
    {
        self.entries.len() == 0
    }

    /// Adds a sample: one from another source, or older than the newest
    /// sample, is refused and changes nothing; any other is added as
    /// `pushed` says.
    pub fn push(&mut self, entry: HistoryEntry<S>) -> (r: Result<(), HistoryError>)
        requires
            old(self).wf(),
        ensures
            final(self).wf(),
            push_outcome(*old(self), *final(self), entry, r),
    {
        match validate_sample_source(&self.key, &entry.source) {
            Err(e) => {
                return Err(e);
            },
            Ok(()) => {},
        }
        let n = self.entries.len();
        if n > 0 {
            let previous = self.entries[n - 1].timestamp_unix_ms;
            if entry.timestamp_unix_ms < previous {
                return Err(HistoryError::OutOfOrderSample { previous, incoming: entry.timestamp_unix_ms });
            }
        }
        let ghost s0 = self.entries@;
        let ghost e0 = entry;
        let newest = entry.timestamp_unix_ms;
        self.entries.push(entry);
        let ghost s1 = self.entries@;
        assert(time_ordered(s1)) by {
            assert forall|i: int, j: int| 0 <= i <= j < s1.len() implies (#[trigger] s1[i]).timestamp_unix_ms
                <= (#[trigger] s1[j]).timestamp_unix_ms by {
                if j == s1.len() - 1 && i < j {
                    assert(s0[i].timestamp_unix_ms <= s0[s0.len() - 1].timestamp_unix_ms);
                }
            }
        }
        let cutoff = if newest >= self.policy.retention_ms { newest - self.policy.retention_ms } else { 0 };
        let k = count_expired(&self.entries, cutoff);
        let retained = self.entries.split_off(k);
        self.entries = retained;
        let ghost q = self.entries@;
        assert(q == pruned(s1, cutoff));
        assert(time_ordered(q)) by {
            assert forall|i: int, j: int| 0 <= i <= j < q.len() implies (#[trigger] q[i]).timestamp_unix_ms
                <= (#[trigger] q[j]).timestamp_unix_ms by {
                assert(q[i] == s1[i + k] && q[j] == s1[j + k]);
            }
        }
        assert forall|m: int| 0 <= m < q.len() implies source_matches(#[trigger] q[m].source, self.key) by {
            assert(q[m] == s1[m + k]);
            if m + k < s0.len() {
                assert(s1[m + k] == s0[m + k]);
            }
        }
        let due = self.entries.len() > self.policy.max_points_per_series || match self.last_compaction_unix_ms {
            None => true,
            Some(last) => {
                let since = if newest >= last { newest - last } else { 0 };
                since >= self.policy.downsample_bucket_ms
            },
        };
        if due {
            let raw_cutoff = if newest >= self.policy.raw_retention_ms { newest - self.policy.raw_retention_ms } else { 0 };
            let kept = compact_positions(&self.entries, raw_cutoff, self.policy.downsample_bucket_ms);
            let ghost kept_all = kept@;
            let keep = cap_positions(kept, self.policy.max_points_per_series);
            assert(increasing(keep@) && forall|m: int| 0 <= m < keep@.len() ==> #[trigger] keep@[m] < q.len()) by {
                if kept_all.len() > self.policy.max_points_per_series {
                    let off = kept_all.len() - self.policy.max_points_per_series;
                    assert forall|a: int, b: int| 0 <= a < b < keep@.len() implies (#[trigger] keep@[a]) < (#[trigger] keep@[b]) by {
                        assert(keep@[a] == kept_all[a + off] && keep@[b] == kept_all[b + off]);
                    }
                    assert forall|m: int| 0 <= m < keep@.len() implies #[trigger] keep@[m] < q.len() by {
                        assert(keep@[m] == kept_all[m + off]);
                    }
                }
            }
            let mut current: Vec<HistoryEntry<S>> = Vec::new();
            std::mem::swap(&mut current, &mut self.entries);
            let compacted_entries = take_positions(current, &keep);
            let ghost out = compacted_entries@;
            assert(time_ordered(out)) by {
                assert forall|i: int, j: int| 0 <= i <= j < out.len() implies (#[trigger] out[i]).timestamp_unix_ms
                    <= (#[trigger] out[j]).timestamp_unix_ms by {
                    assert(out[i] == q[keep@[i] as int] && out[j] == q[keep@[j] as int]);
                    if i < j {
                        assert(keep@[i] < keep@[j]);
                    }
                }
            }
            assert forall|m: int| 0 <= m < out.len() implies source_matches(#[trigger] out[m].source, self.key) by {
                assert(out[m] == q[keep@[m] as int]);
            }
            self.entries = compacted_entries;
            self.last_compaction_unix_ms = Some(newest);
        }
        Ok(())
    }
}

/// Compaction only appends: the kept positions of a shorter prefix lead
/// those of a longer one, and flushing the open bucket appends again.
proof fn lemma_prefix_grows<S>(s: Seq<HistoryEntry<S>>, m: int, n: int, cutoff: u64, bucket_ms: u64)
    requires
        0 <= m <= n,
    ensures
        compact_prefix(s, m, cutoff, bucket_ms).0.is_prefix_of(compact_prefix(s, n, cutoff, bucket_ms).0),
    decreases n - m,
{
    if m < n {
        lemma_prefix_grows(s, m, n - 1, cutoff, bucket_ms);
        let st = compact_prefix(s, n - 1, cutoff, bucket_ms);
        let next = compact_prefix(s, n, cutoff, bucket_ms);
        assert(st.0.is_prefix_of(flushed(s, st.0, st.1)));
        assert(st.0.is_prefix_of(next.0));
    }
}

/// Compacting a time-ordered series keeps it time-ordered and only keeps
/// samples it was given.
proof fn lemma_compacted_shape<S>(q: Seq<HistoryEntry<S>>, cutoff: u64, bucket_ms: u64, max: usize)
    requires
        time_ordered(q),
        q.len() <= usize::MAX,
    ensures
        time_ordered(compacted(q, cutoff, bucket_ms, max)),
        compacted(q, cutoff, bucket_ms, max).len() <= max,
        forall|k: int| 0 <= k < compacted(q, cutoff, bucket_ms, max).len() ==> q.contains(
            #[trigger] compacted(q, cutoff, bucket_ms, max)[k],
        ),
{
    lemma_prefix_shape(q, q.len() as int, cutoff, bucket_ms);
    let st = compact_prefix(q, q.len() as int, cutoff, bucket_ms);
    let f = kept_positions(q, cutoff, bucket_ms);
    assert(increasing(f) && forall|k: int| 0 <= k < f.len() ==> #[trigger] f[k] < q.len()) by {
        match st.1 {
            Some(b) => {
                lemma_selected_shape(q, b);
                let sel = selected(q, b);
                assert forall|a: int, c: int| 0 <= a < c < f.len() implies (#[trigger] f[a]) < (#[trigger] f[c]) by {
                    if c >= st.0.len() && a < st.0.len() {
                        assert(f[c] == sel[c - st.0.len()]);
                    } else if a >= st.0.len() {
                        assert(f[a] == sel[a - st.0.len()]);
                        assert(f[c] == sel[c - st.0.len()]);
                    }
                }
                assert forall|k: int| 0 <= k < f.len() implies #[trigger] f[k] < q.len() by {
                    if k >= st.0.len() {
                        assert(f[k] == sel[k - st.0.len()]);
                    }
                }
            },
            None => {},
        }
    }
    let keep = capped(f, max);
    let off = if f.len() > max { f.len() - max } else { 0 };
    assert forall|k: int| 0 <= k < keep.len() implies keep[k] == f[k + off] && #[trigger] keep[k] < q.len() by {}
    let out = compacted(q, cutoff, bucket_ms, max);
    assert forall|i: int, j: int| 0 <= i <= j < out.len() implies (#[trigger] out[i]).timestamp_unix_ms
        <= (#[trigger] out[j]).timestamp_unix_ms by {
        assert(out[i] == q[keep[i] as int] && out[j] == q[keep[j] as int]);
        if i < j {
            assert(keep[i] == f[i + off] && keep[j] == f[j + off]);
            assert(f[i + off] < f[j + off]);
        }
    }
    assert forall|k: int| 0 <= k < out.len() implies q.contains(#[trigger] out[k]) by {
        assert(out[k] == q[keep[k] as int]);
    }
}

/// A history never holds more samples than its policy's maximum.
pub proof fn law_history_is_bounded<S>(s: Seq<HistoryEntry<S>>, last: Option<u64>, e: HistoryEntry<S>, p: HistoryPolicy)
    requires
        s.len() <= p.max_points_per_series,
    ensures
        pushed(s, last, e, p).0.len() <= p.max_points_per_series,
{
}

/// Adding a sample no older than the newest keeps the series in time order,
/// and every sample kept is one that was pushed.
pub proof fn law_history_stays_time_ordered<S>(s: Seq<HistoryEntry<S>>, last: Option<u64>, e: HistoryEntry<S>, p: HistoryPolicy)
    requires
        time_ordered(s),
        s.len() > 0 ==> s.last().timestamp_unix_ms <= e.timestamp_unix_ms,
        s.len() < usize::MAX,
    ensures
        time_ordered(pushed(s, last, e, p).0),
        forall|k: int| 0 <= k < pushed(s, last, e, p).0.len() ==> s.push(e).contains(#[trigger] pushed(s, last, e, p).0[k]),
{
    let s1 = s.push(e);
    assert forall|i: int, j: int| 0 <= i <= j < s1.len() implies (#[trigger] s1[i]).timestamp_unix_ms
        <= (#[trigger] s1[j]).timestamp_unix_ms by {
        if j == s1.len() - 1 && i < j {
            assert(s[i].timestamp_unix_ms <= s[s.len() - 1].timestamp_unix_ms);
        }
    }
    let newest = e.timestamp_unix_ms;
    let cut = first_retained(s1, minus_or_zero(newest, p.retention_ms), 0);
    assert(0 <= cut <= s1.len()) by {
        lemma_first_retained_bounds(s1, minus_or_zero(newest, p.retention_ms), 0);
    }
    let q = pruned(s1, minus_or_zero(newest, p.retention_ms));
    assert forall|i: int, j: int| 0 <= i <= j < q.len() implies (#[trigger] q[i]).timestamp_unix_ms
        <= (#[trigger] q[j]).timestamp_unix_ms by {
        assert(q[i] == s1[i + cut] && q[j] == s1[j + cut]);
    }
    assert forall|k: int| 0 <= k < q.len() implies s1.contains(#[trigger] q[k]) by {
        assert(q[k] == s1[k + cut]);
    }
    lemma_compacted_shape(q, minus_or_zero(newest, p.raw_retention_ms), p.downsample_bucket_ms, p.max_points_per_series);
    let r = pushed(s, last, e, p).0;
    assert forall|k: int| 0 <= k < r.len() implies s1.contains(#[trigger] r[k]) by {
        if r != q {
            assert(q.contains(r[k]));
            let m = choose|m: int| 0 <= m < q.len() && q[m] == r[k];
            assert(s1.contains(q[m]));
        }
    }
}

/// Pruning stops at the first sample no older than the cutoff, and every
/// sample from there on is no older either.
proof fn lemma_first_retained_at_most<S>(s: Seq<HistoryEntry<S>>, cutoff: u64, i: int, j: int)
    requires
        time_ordered(s),
        0 <= i <= j < s.len(),
        s[j].timestamp_unix_ms >= cutoff,
    ensures
        first_retained(s, cutoff, i) <= j,
        forall|k: int| first_retained(s, cutoff, i) <= k < s.len() ==> (#[trigger] s[k]).timestamp_unix_ms >= cutoff,
    decreases s.len() - i,
{
    if s[i].timestamp_unix_ms < cutoff {
        lemma_first_retained_at_most(s, cutoff, i + 1, j);
    } else {
        assert forall|k: int| i <= k < s.len() implies (#[trigger] s[k]).timestamp_unix_ms >= cutoff by {
            assert(s[i].timestamp_unix_ms <= s[k].timestamp_unix_ms);
        }
    }
}

/// Deduplicating positions keeps at least one, and the last kept has the
/// time of the last given.
proof fn lemma_dedup_last_time<S>(s: Seq<HistoryEntry<S>>, ps: Seq<usize>)
    requires
        ps.len() > 0,
    ensures
        dedup_by_time(s, ps).len() > 0,
        s[dedup_by_time(s, ps).last() as int].timestamp_unix_ms == s[ps.last() as int].timestamp_unix_ms,
    decreases ps.len(),
{
    if ps.len() > 1 {
        lemma_dedup_last_time(s, ps.drop_last());
    }
}

/// The last position compaction keeps holds a sample of the newest time.
proof fn lemma_kept_last_time<S>(q: Seq<HistoryEntry<S>>, cutoff: u64, bucket_ms: u64)
    requires
        time_ordered(q),
        q.len() > 0,
        q.len() <= usize::MAX,
    ensures
        kept_positions(q, cutoff, bucket_ms).len() > 0,
        kept_positions(q, cutoff, bucket_ms).last() < q.len(),
        q[kept_positions(q, cutoff, bucket_ms).last() as int].timestamp_unix_ms == q.last().timestamp_unix_ms,
{
    let n = q.len() as int;
    lemma_prefix_shape(q, n, cutoff, bucket_ms);
    let st = compact_prefix(q, n, cutoff, bucket_ms);
    let prev = compact_prefix(q, n - 1, cutoff, bucket_ms);
    assert(st == compact_step(q, prev, (n - 1) as usize, cutoff, bucket_ms));
    let f = kept_positions(q, cutoff, bucket_ms);
    if kept_raw(q[n - 1], cutoff) {
        assert(st.1 is None);
        assert(f == st.0);
        assert(f.last() == (n - 1) as usize);
    } else {
        assert(st.1 is Some);
        let b = st.1->0;
        lemma_selected_shape(q, b);
        let four = if q[b.high as int].timestamp_unix_ms < q[b.low as int].timestamp_unix_ms {
            seq![b.first, b.high, b.low, b.last]
        } else {
            seq![b.first, b.low, b.high, b.last]
        };
        lemma_dedup_last_time(q, four);
        let sel = selected(q, b);
        assert(f == st.0 + sel);
        assert(f.last() == sel.last());
    }
}

/// After a push the newest sample of the series has the pushed sample's
/// time, and no kept sample is older than the retention allows.
pub proof fn law_history_keeps_newest_within_retention<S>(s: Seq<HistoryEntry<S>>, last: Option<u64>, e: HistoryEntry<S>, p: HistoryPolicy)
    requires
        time_ordered(s),
        s.len() > 0 ==> s.last().timestamp_unix_ms <= e.timestamp_unix_ms,
        s.len() < usize::MAX,
        policy_violation(p) is None,
    ensures
        pushed(s, last, e, p).0.len() > 0,
        pushed(s, last, e, p).0.last().timestamp_unix_ms == e.timestamp_unix_ms,
        forall|k: int| 0 <= k < pushed(s, last, e, p).0.len() ==> (#[trigger] pushed(s, last, e, p).0[k]).timestamp_unix_ms
            >= minus_or_zero(e.timestamp_unix_ms, p.retention_ms),
{
    let s1 = s.push(e);
    assert forall|i: int, j: int| 0 <= i <= j < s1.len() implies (#[trigger] s1[i]).timestamp_unix_ms
        <= (#[trigger] s1[j]).timestamp_unix_ms by {
        if j == s1.len() - 1 && i < j {
            assert(s[i].timestamp_unix_ms <= s[s.len() - 1].timestamp_unix_ms);
        }
    }
    let newest = e.timestamp_unix_ms;
    let cutoff = minus_or_zero(newest, p.retention_ms);
    lemma_first_retained_at_most(s1, cutoff, 0, s1.len() - 1);
    let cut = first_retained(s1, cutoff, 0);
    let q = pruned(s1, cutoff);
    assert(q.len() > 0 && q.last() == e);
    assert forall|k: int| 0 <= k < q.len() implies (#[trigger] q[k]).timestamp_unix_ms >= cutoff by {
        assert(q[k] == s1[k + cut]);
    }
    assert forall|i: int, j: int| 0 <= i <= j < q.len() implies (#[trigger] q[i]).timestamp_unix_ms
        <= (#[trigger] q[j]).timestamp_unix_ms by {
        assert(q[i] == s1[i + cut] && q[j] == s1[j + cut]);
    }
    let raw_cut = minus_or_zero(newest, p.raw_retention_ms);
    lemma_compacted_shape(q, raw_cut, p.downsample_bucket_ms, p.max_points_per_series);
    lemma_kept_last_time(q, raw_cut, p.downsample_bucket_ms);
    let f = kept_positions(q, raw_cut, p.downsample_bucket_ms);
    let keep = capped(f, p.max_points_per_series);
    assert(keep.len() > 0 && keep.last() == f.last());
    let c = compacted(q, raw_cut, p.downsample_bucket_ms, p.max_points_per_series);
    assert(c.len() == keep.len());
    assert(c.last() == q[keep.last() as int]);
    assert forall|k: int| 0 <= k < c.len() implies (#[trigger] c[k]).timestamp_unix_ms >= cutoff by {
        assert(q.contains(c[k]));
    }
}

proof fn lemma_first_retained_bounds<S>(s: Seq<HistoryEntry<S>>, cutoff: u64, i: int)
    requires
        0 <= i <= s.len(),
    ensures
        i <= first_retained(s, cutoff, i) <= s.len(),
    decreases s.len() - i,
{
    if i < s.len() && s[i].timestamp_unix_ms < cutoff {
        lemma_first_retained_bounds(s, cutoff, i + 1);
    }
}

/// Compaction never merges a marker or a sample newer than the cutoff:
/// unless the size cap has to evict, each of them is still in the series.
pub proof fn law_compaction_keeps_markers_and_recent_samples<S>(s: Seq<HistoryEntry<S>>, cutoff: u64, bucket_ms: u64, max: usize, i: int)
    requires
        0 <= i < s.len(),
        s.len() <= usize::MAX,
        kept_raw(s[i], cutoff),
        kept_positions(s, cutoff, bucket_ms).len() <= max,
    ensures
        compacted(s, cutoff, bucket_ms, max).contains(s[i]),
{
    lemma_prefix_grows(s, i + 1, s.len() as int, cutoff, bucket_ms);
    let at_i = compact_prefix(s, i + 1, cutoff, bucket_ms).0;
    assert(at_i == compact_step(s, compact_prefix(s, i, cutoff, bucket_ms), (i + 1 - 1) as usize, cutoff, bucket_ms).0);
    assert(at_i.last() == i as usize);
    let st = compact_prefix(s, s.len() as int, cutoff, bucket_ms);
    let f = kept_positions(s, cutoff, bucket_ms);
    assert(st.0.is_prefix_of(f));
    let k = at_i.len() - 1;
    assert(at_i[k] == st.0[k]);
    assert(f[k] == i as usize);
    assert(capped(f, max) == f);
    let out = compacted(s, cutoff, bucket_ms, max);
    assert(out[k] == s[f[k] as int]);
    assert(out[k] == s[i]);
}
} // verus!
