//! How a series is laid out on a chart: runs of drawable samples of one
//! render class become line segments, and every marker or over-long
//! interval between drawable samples becomes a gap with its reason. The
//! layout names samples by their positions; placing them in pixels is the
//! renderer's.
use vstd::prelude::*;
use crate::history_series::HistoryEntry;
use crate::telemetry_history::{gap_for_state, gap_kind_of, reason_of, ChartGapKind, RenderClass};

verus! {

/// A line segment: its render class and the positions of its samples.
#[derive(Debug, Clone)]
pub struct PlannedSegment {
    pub class: RenderClass,
    pub positions: Vec<usize>,
}

/// A break in the line: its kind, the times it spans and why.
#[derive(Debug, Clone)]
pub struct PlannedGap {
    pub kind: ChartGapKind,
    pub from_unix_ms: u64,
    pub to_unix_ms: u64,
    pub reason: String,
}

/// A chart layout: its segments and gaps, in time order.
#[derive(Debug, Clone)]
pub struct ChartLayout {
    pub segments: Vec<PlannedSegment>,
    pub gaps: Vec<PlannedGap>,
}

pub type SegmentView = (RenderClass, Seq<usize>);

pub type GapView = (ChartGapKind, u64, u64, Seq<char>);

/// A layout in progress.
pub ghost struct LayoutFold {
    pub segments: Seq<SegmentView>,
    pub current: Option<SegmentView>,
    pub gaps: Seq<GapView>,
    pub previous_drawn: Option<u64>,
    pub previous: Option<u64>,
}

pub open spec fn segment_view(s: PlannedSegment) -> SegmentView {
    (s.class, s.positions@)
}

pub open spec fn gap_view(g: PlannedGap) -> GapView {
    (g.kind, g.from_unix_ms, g.to_unix_ms, g.reason@)
}

/// The reason given for a gap opened by an over-long interval.
pub open spec fn missing_samples_reason() -> Seq<char> {
    "sample interval exceeded chart gap threshold"@
}

/// Closes the open segment, if any.
pub open spec fn close_segment(f: LayoutFold) -> LayoutFold {
    match f.current {
        Some(c) => LayoutFold { segments: f.segments.push(c), current: None, ..f },
        None => f,
    }
}

/// The layout after the sample at position `p`. A drawable sample first
/// closes the segment and opens a missing-samples gap when it comes more
/// than `limit` after the previous drawable sample, then closes a segment of
/// another class, and joins the open segment. Any other sample closes the
/// segment and opens the gap of its state (from the previous sample's time),
/// if its state has one.
pub open spec fn layout_step<S>(f: LayoutFold, e: HistoryEntry<S>, p: usize, limit: Option<u64>) -> LayoutFold {
    let t = e.timestamp_unix_ms;
    match e.class {
        Some(class) => {
            let f1 = match (f.previous_drawn, limit) {
                (Some(prev), Some(l)) => if (if t >= prev { t - prev } else { 0 }) > l {
                    let c = close_segment(f);
                    LayoutFold { gaps: c.gaps.push((ChartGapKind::MissingSamples, prev, t, missing_samples_reason())), ..c }
                } else {
                    f
                },
                _ => f,
            };
            let f2 = match f1.current {
                Some(c) => if c.0 != class { close_segment(f1) } else { f1 },
                None => f1,
            };
            let joined = match f2.current {
                Some(c) => (c.0, c.1.push(p)),
                None => (class, seq![p]),
            };
            LayoutFold { current: Some(joined), previous_drawn: Some(t), previous: Some(t), ..f2 }
        },
        None => {
            let c = close_segment(f);
            let from = match f.previous {
                Some(x) => x,
                None => t,
            };
            let gaps = match (gap_kind_of(e.state), reason_of(e.state)) {
                (Some(k), Some(r)) => c.gaps.push((k, from, t, r@)),
                _ => c.gaps,
            };
            LayoutFold { gaps, previous_drawn: None, previous: Some(t), ..c }
        },
    }
}

pub open spec fn empty_fold() -> LayoutFold {
    LayoutFold { segments: Seq::empty(), current: None, gaps: Seq::empty(), previous_drawn: None, previous: None }
}

/// The layout after the first `n` samples.
pub open spec fn layout_prefix<S>(s: Seq<HistoryEntry<S>>, n: int, limit: Option<u64>) -> LayoutFold
    decreases n,
{
    if n <= 0 {
        empty_fold()
    } else {
        layout_step(layout_prefix(s, n - 1, limit), s[n - 1], (n - 1) as usize, limit)
    }
}

/// The layout of a whole series: segments and gaps.
pub open spec fn layout_of<S>(s: Seq<HistoryEntry<S>>, limit: Option<u64>) -> (Seq<SegmentView>, Seq<GapView>) {
    let f = close_segment(layout_prefix(s, s.len() as int, limit));
    (f.segments, f.gaps)
}


pub open spec fn fold_of(
    segments: Seq<PlannedSegment>,
    current: Option<PlannedSegment>,
    gaps: Seq<PlannedGap>,
    previous_drawn: Option<u64>,
    previous: Option<u64>,
) -> LayoutFold {
    LayoutFold {
        segments: segments.map_values(|x: PlannedSegment| segment_view(x)),
        current: match current {
            Some(c) => Some(segment_view(c)),
            None => None,
        },
        gaps: gaps.map_values(|g: PlannedGap| gap_view(g)),
        previous_drawn,
        previous,
    }
}

fn close_exec(segments: &mut Vec<PlannedSegment>, current: &mut Option<PlannedSegment>, gaps: &Vec<PlannedGap>, previous_drawn: Option<u64>, previous: Option<u64>)
    ensures
        *final(current) is None,
        fold_of(final(segments)@, *final(current), gaps@, previous_drawn, previous) == close_segment(
            fold_of(old(segments)@, *old(current), gaps@, previous_drawn, previous),
        ),
{
    let ghost before = segments@;
    match current.take() {
        Some(c) => {
            segments.push(c);
            assert(segments@.map_values(|x: PlannedSegment| segment_view(x)) =~= before.map_values(
                |x: PlannedSegment| segment_view(x),
            ).push(segment_view(c)));
        },
        None => {},
    }
}

/// Lays a series out as segments and gaps, as `layout_of` says; `limit` is
/// the longest interval between drawable samples that keeps a line
/// unbroken.
pub fn layout_chart<S>(s: &Vec<HistoryEntry<S>>, limit: Option<u64>) -> (r: ChartLayout)
    ensures
        r.segments@.map_values(|x: PlannedSegment| segment_view(x)) == layout_of(s@, limit).0,
        r.gaps@.map_values(|g: PlannedGap| gap_view(g)) == layout_of(s@, limit).1,
{
    let mut segments: Vec<PlannedSegment> = Vec::new();
    let mut current: Option<PlannedSegment> = None;
    let mut gaps: Vec<PlannedGap> = Vec::new();
    let mut previous_drawn: Option<u64> = None;
    let mut previous: Option<u64> = None;
    let mut i: usize = 0;
    assert(segments@.map_values(|x: PlannedSegment| segment_view(x)) =~= Seq::<SegmentView>::empty());
    assert(gaps@.map_values(|g: PlannedGap| gap_view(g)) =~= Seq::<GapView>::empty());
    while i < s.len()
        invariant
            i <= s@.len(),
            fold_of(segments@, current, gaps@, previous_drawn, previous) == layout_prefix(s@, i as int, limit),
        decreases s@.len() - i,
    {
        let ghost f0 = layout_prefix(s@, i as int, limit);
        let e = &s[i];
        let t = e.timestamp_unix_ms;
        match e.class {
            Some(class) => {
                match (previous_drawn, limit) {
                    (Some(prev), Some(l)) => {
                        let since = if t >= prev { t - prev } else { 0 };
                        if since > l {
                            close_exec(&mut segments, &mut current, &gaps, previous_drawn, previous);
                            let ghost g0 = gaps@;
                            gaps.push(PlannedGap {
                                kind: ChartGapKind::MissingSamples,
                                from_unix_ms: prev,
                                to_unix_ms: t,
                                reason: "sample interval exceeded chart gap threshold".to_owned(),
                            });
                            proof {
                                reveal_strlit("sample interval exceeded chart gap threshold");
                            }
                            assert(gaps@.map_values(|g: PlannedGap| gap_view(g)) =~= g0.map_values(|g: PlannedGap| gap_view(g)).push(
                                (ChartGapKind::MissingSamples, prev, t, missing_samples_reason()),
                            ));
                        }
                    },
                    _ => {},
                }
                let ghost f1 = fold_of(segments@, current, gaps@, previous_drawn, previous);
                let switch = match &current {
                    Some(c) => c.class != class,
                    None => false,
                };
                if switch {
                    close_exec(&mut segments, &mut current, &gaps, previous_drawn, previous);
                }
                match current.take() {
                    Some(mut c) => {
                        c.positions.push(i);
                        current = Some(c);
                    },
                    None => {
                        let mut positions: Vec<usize> = Vec::new();
                        positions.push(i);
                        assert(positions@ =~= seq![i]);
                        current = Some(PlannedSegment { class, positions });
                    },
                }
                previous_drawn = Some(t);
                previous = Some(t);
            },
            None => {
                let from = match previous {
                    Some(x) => x,
                    None => t,
                };
                close_exec(&mut segments, &mut current, &gaps, previous_drawn, previous);
                match gap_for_state(&e.state) {
                    Some((kind, reason)) => {
                        let ghost g0 = gaps@;
                        gaps.push(PlannedGap { kind, from_unix_ms: from, to_unix_ms: t, reason: reason.clone() });
                        assert(gaps@.map_values(|g: PlannedGap| gap_view(g)) =~= g0.map_values(|g: PlannedGap| gap_view(g)).push(
                            (kind, from, t, reason@),
                        ));
                    },
                    None => {},
                }
                previous_drawn = None;
                previous = Some(t);
            },
        }
        assert(fold_of(segments@, current, gaps@, previous_drawn, previous) == layout_step(f0, s@[i as int], i, limit));
        i = i + 1;
    }
    close_exec(&mut segments, &mut current, &gaps, previous_drawn, previous);
    ChartLayout { segments, gaps }
}

/// A segment as a layout makes it: non-empty, drawn samples of its class at
/// consecutive positions, each no more than `limit` after the one before.
pub open spec fn segment_ok<S>(s: Seq<HistoryEntry<S>>, seg: SegmentView, limit: Option<u64>) -> bool {
    &&& seg.1.len() > 0
    &&& forall|k: int| 0 <= k < seg.1.len() ==> (#[trigger] seg.1[k]) < s.len() && s[seg.1[k] as int].class == Some(seg.0)
    &&& forall|k: int| 0 <= k < seg.1.len() - 1 ==> #[trigger] seg.1[k + 1] == seg.1[k] + 1
    &&& forall|k: int| 0 <= k < seg.1.len() - 1 ==> (limit matches Some(l) ==> crate::history_series::minus_or_zero(
        s[(#[trigger] seg.1[k + 1]) as int].timestamp_unix_ms,
        s[seg.1[k] as int].timestamp_unix_ms,
    ) <= l)
}

proof fn lemma_layout_prefix_ok<S>(s: Seq<HistoryEntry<S>>, n: int, limit: Option<u64>)
    requires
        0 <= n <= s.len(),
        s.len() <= usize::MAX,
    ensures
        ({
            let f = layout_prefix(s, n, limit);
            &&& forall|k: int| 0 <= k < f.segments.len() ==> segment_ok(s, #[trigger] f.segments[k], limit)
            &&& f.current matches Some(c) ==> {
                &&& segment_ok(s, c, limit)
                &&& c.1.last() == n - 1
                &&& f.previous_drawn == Some(s[n - 1].timestamp_unix_ms)
            }
        }),
    decreases n,
{
    if n > 0 {
        lemma_layout_prefix_ok(s, n - 1, limit);
        let f = layout_prefix(s, n - 1, limit);
        let p = (n - 1) as usize;
        let e = s[n - 1];
        let t = e.timestamp_unix_ms;
        let g = layout_prefix(s, n, limit);
        assert(g == layout_step(f, e, p, limit));
        let cf = close_segment(f);
        assert forall|k: int| 0 <= k < cf.segments.len() implies segment_ok(s, #[trigger] cf.segments[k], limit) by {
            if k >= f.segments.len() {
                assert(cf.segments[k] == f.current->0);
            }
        }
        match e.class {
            Some(class) => {
                let f1 = match (f.previous_drawn, limit) {
                    (Some(prev), Some(l)) => if (if t >= prev { t - prev } else { 0 }) > l {
                        LayoutFold { gaps: cf.gaps.push((ChartGapKind::MissingSamples, prev, t, missing_samples_reason())), ..cf }
                    } else {
                        f
                    },
                    _ => f,
                };
                let f2 = match f1.current {
                    Some(c) => if c.0 != class { close_segment(f1) } else { f1 },
                    None => f1,
                };
                assert forall|k: int| 0 <= k < f2.segments.len() implies segment_ok(s, #[trigger] f2.segments[k], limit) by {
                    if k >= f1.segments.len() {
                        assert(f2.segments[k] == f1.current->0);
                    }
                }
                match f2.current {
                    Some(c) => {
                        let j = (c.0, c.1.push(p));
                        assert(c.0 == class);
                        assert(f2.current == f.current);
                        assert(c.1.last() == n - 2);
                        assert forall|k: int| 0 <= k < j.1.len() - 1 implies #[trigger] j.1[k + 1] == j.1[k] + 1 by {
                            if k < j.1.len() - 2 {
                                assert(j.1[k + 1] == c.1[k + 1] && j.1[k] == c.1[k]);
                            }
                        }
                        assert forall|k: int| 0 <= k < j.1.len() - 1 implies (limit matches Some(l) ==> crate::history_series::minus_or_zero(
                            s[(#[trigger] j.1[k + 1]) as int].timestamp_unix_ms,
                            s[j.1[k] as int].timestamp_unix_ms,
                        ) <= l) by {
                            if k < j.1.len() - 2 {
                                assert(j.1[k + 1] == c.1[k + 1] && j.1[k] == c.1[k]);
                            }
                        }
                        assert(segment_ok(s, j, limit));
                    },
                    None => {
                        assert(segment_ok(s, (class, seq![p]), limit));
                    },
                }
            },
            None => {},
        }
    }
}

/// Every line segment of a layout is a run of drawn samples of its class,
/// consecutive in the series (no marker or gap inside it), each no more
/// than the gap limit after the one before.
pub proof fn law_segments_are_unbroken_runs<S>(s: Seq<HistoryEntry<S>>, limit: Option<u64>, k: int)
    requires
        s.len() <= usize::MAX,
        0 <= k < layout_of(s, limit).0.len(),
    ensures
        segment_ok(s, layout_of(s, limit).0[k], limit),
{
    lemma_layout_prefix_ok(s, s.len() as int, limit);
    let f = layout_prefix(s, s.len() as int, limit);
    if k >= f.segments.len() {
        assert(layout_of(s, limit).0[k] == f.current->0);
    }
}

/// A projected point as decimation sees it: the pixel column it falls in,
/// the rank of its value, and its time.
#[derive(Debug, Clone, Copy, PartialEq, Eq, Structural)]
pub struct PixelPoint {
    pub column: i64,
    pub rank: u64,
    pub timestamp_unix_ms: u64,
}

/// How many points a segment may keep undecimated: two per pixel, at
/// least two.
pub open spec fn point_budget(width_px: u32) -> int {
    let b = if 2 * (width_px as int) > usize::MAX { usize::MAX as int } else { 2 * (width_px as int) };
    if b < 2 { 2 } else { b }
}

/// The end of the run of points in the same column as the point at
/// `start`, looking from `i` on.
pub open spec fn run_end(pts: Seq<PixelPoint>, start: int, i: int) -> int
    decreases pts.len() - i,
{
    if i >= pts.len() || i < 0 || pts[i].column != pts[start].column {
        i
    } else {
        run_end(pts, start, i + 1)
    }
}

/// The first point of lowest rank among positions `start..i`.
pub open spec fn lowest_in(pts: Seq<PixelPoint>, start: int, i: int) -> int
    decreases i - start,
{
    if i <= start + 1 {
        start
    } else {
        let b = lowest_in(pts, start, i - 1);
        if pts[i - 1].rank < pts[b].rank { i - 1 } else { b }
    }
}

/// The last point of highest rank among positions `start..i`.
pub open spec fn highest_in(pts: Seq<PixelPoint>, start: int, i: int) -> int
    decreases i - start,
{
    if i <= start + 1 {
        start
    } else {
        let b = highest_in(pts, start, i - 1);
        if pts[i - 1].rank >= pts[b].rank { i - 1 } else { b }
    }
}

/// What a column keeps: its lowest and highest point in time order, once
/// when they share a time.
pub open spec fn column_pick(pts: Seq<PixelPoint>, lo: int, hi: int) -> Seq<usize> {
    if pts[lo].timestamp_unix_ms <= pts[hi].timestamp_unix_ms {
        if pts[lo].timestamp_unix_ms != pts[hi].timestamp_unix_ms {
            seq![lo as usize, hi as usize]
        } else {
            seq![lo as usize]
        }
    } else {
        seq![hi as usize, lo as usize]
    }
}

/// The positions kept from `start` on, column by column.
pub open spec fn decimated_from(pts: Seq<PixelPoint>, start: int) -> Seq<usize>
    decreases pts.len() - start,
{
    if start < 0 || start >= pts.len() {
        Seq::empty()
    } else {
        let end = run_end(pts, start, start + 1);
        if end <= start || end > pts.len() {
            Seq::empty()
        } else {
            column_pick(pts, lowest_in(pts, start, end), highest_in(pts, start, end)) + decimated_from(pts, end)
        }
    }
}

/// The positions a segment keeps: all of them within the budget, else the
/// lowest and highest point of each run of points in one pixel column.
pub open spec fn decimated(pts: Seq<PixelPoint>, width_px: u32) -> Seq<usize> {
    if pts.len() <= point_budget(width_px) {
        Seq::new(pts.len(), |i: int| i as usize)
    } else {
        decimated_from(pts, 0)
    }
}

proof fn lemma_run_end_bounds(pts: Seq<PixelPoint>, start: int, i: int)
    requires
        0 <= start < i <= pts.len(),
    ensures
        i <= run_end(pts, start, i) <= pts.len(),
        forall|k: int| start <= k < run_end(pts, start, i) && k >= i ==> #[trigger] pts[k].column == pts[start].column,
    decreases pts.len() - i,
{
    if i < pts.len() && pts[i].column == pts[start].column {
        lemma_run_end_bounds(pts, start, i + 1);
    }
}

proof fn lemma_lowest_highest_bounds(pts: Seq<PixelPoint>, start: int, i: int)
    requires
        0 <= start < i <= pts.len(),
    ensures
        start <= lowest_in(pts, start, i) < i,
        start <= highest_in(pts, start, i) < i,
        forall|k: int| start <= k < i ==> pts[lowest_in(pts, start, i)].rank <= #[trigger] pts[k].rank,
        forall|k: int| start <= k < i ==> pts[highest_in(pts, start, i)].rank >= #[trigger] pts[k].rank,
    decreases i - start,
{
    if i > start + 1 {
        lemma_lowest_highest_bounds(pts, start, i - 1);
    }
}

/// Points whose times strictly increase.
pub open spec fn strictly_timed(pts: Seq<PixelPoint>) -> bool {
    forall|i: int, j: int| 0 <= i < j < pts.len() ==> (#[trigger] pts[i]).timestamp_unix_ms < (#[trigger] pts[j]).timestamp_unix_ms
}

/// Every point is matched, from `start` on, by a kept point of its own
/// column with no higher rank, and, when times are distinct, by one with no
/// lower rank.
proof fn lemma_decimated_from_keeps_extremes(pts: Seq<PixelPoint>, start: int, j: int)
    requires
        0 <= start <= j < pts.len(),
        pts.len() <= usize::MAX,
    ensures
        exists|k: int| 0 <= k < decimated_from(pts, start).len() && pts[decimated_from(pts, start)[k] as int].rank <= pts[j].rank
            && pts[decimated_from(pts, start)[k] as int].column == pts[j].column,
        strictly_timed(pts) ==> exists|k: int| 0 <= k < decimated_from(pts, start).len()
            && pts[decimated_from(pts, start)[k] as int].rank >= pts[j].rank
            && pts[decimated_from(pts, start)[k] as int].column == pts[j].column,
    decreases pts.len() - start,
{
    lemma_run_end_bounds(pts, start, start + 1);
    let end = run_end(pts, start, start + 1);
    lemma_lowest_highest_bounds(pts, start, end);
    let lo = lowest_in(pts, start, end);
    let hi = highest_in(pts, start, end);
    let pick = column_pick(pts, lo, hi);
    let d = decimated_from(pts, start);
    assert(d == pick + decimated_from(pts, end));
    if j < end {
        assert(pts[lo].column == pts[start].column);
        assert(pts[hi].column == pts[start].column);
        assert(pts[j].column == pts[start].column);
        let (klo, khi) = if pts[lo].timestamp_unix_ms <= pts[hi].timestamp_unix_ms {
            if pts[lo].timestamp_unix_ms != pts[hi].timestamp_unix_ms {
                (0int, 1int)
            } else {
                (0int, 0int)
            }
        } else {
            (1int, 0int)
        };
        assert(d[klo] == lo as usize);
        assert(pts[d[klo] as int].rank <= pts[j].rank && pts[d[klo] as int].column == pts[j].column);
        if strictly_timed(pts) {
            if lo != hi && pts[lo].timestamp_unix_ms == pts[hi].timestamp_unix_ms {
                if lo < hi {
                    assert(pts[lo].timestamp_unix_ms < pts[hi].timestamp_unix_ms);
                } else {
                    assert(pts[hi].timestamp_unix_ms < pts[lo].timestamp_unix_ms);
                }
            }
            assert(d[khi] == hi as usize);
            assert(pts[d[khi] as int].rank >= pts[j].rank && pts[d[khi] as int].column == pts[j].column);
        }
    } else {
        lemma_decimated_from_keeps_extremes(pts, end, j);
        let e = decimated_from(pts, end);
        let k1 = choose|k: int| 0 <= k < e.len() && pts[e[k] as int].rank <= pts[j].rank && pts[e[k] as int].column == pts[j].column;
        assert(d[k1 + pick.len()] == e[k1]);
        if strictly_timed(pts) {
            let k2 = choose|k: int| 0 <= k < e.len() && pts[e[k] as int].rank >= pts[j].rank && pts[e[k] as int].column == pts[j].column;
            assert(d[k2 + pick.len()] == e[k2]);
        }
    }
}

/// Thins a segment's points for a chart `width_px` pixels wide, as
/// `decimated` says: the positions of the points kept, in order.
pub fn decimate_points(points: &Vec<PixelPoint>, width_px: u32) -> (r: Vec<usize>)
    ensures
        r@ == decimated(points@, width_px),
{
    let w = width_px as usize;
    let doubled = match w.checked_mul(2) {
        Some(b) => b,
        None => usize::MAX,
    };
    let budget = if doubled < 2 { 2 } else { doubled };
    let n = points.len();
    let ghost pts = points@;
    if n <= budget {
        let mut all: Vec<usize> = Vec::new();
        let mut i: usize = 0;
        while i < n
            invariant
                i <= n,
                n == pts.len(),
                all@ == Seq::new(i as nat, |k: int| k as usize),
            decreases n - i,
        {
            all.push(i);
            i = i + 1;
            assert(all@ =~= Seq::new(i as nat, |k: int| k as usize));
        }
        return all;
    }
    let mut out: Vec<usize> = Vec::new();
    let mut index: usize = 0;
    assert(out@ + decimated_from(pts, 0) =~= decimated_from(pts, 0));
    while index < n
        invariant
            index <= n,
            n == pts.len(),
            points@ == pts,
            out@ + decimated_from(pts, index as int) == decimated_from(pts, 0),
        decreases n - index,
    {
        let start = index;
        let column = points[start].column;
        let mut lo = start;
        let mut hi = start;
        index = start + 1;
        while index < n && points[index].column == column
            invariant
                start < index <= n,
                n == pts.len(),
                points@ == pts,
                column == pts[start as int].column,
                lo as int == lowest_in(pts, start as int, index as int),
                hi as int == highest_in(pts, start as int, index as int),
                start <= lo < index,
                start <= hi < index,
                run_end(pts, start as int, start + 1) == run_end(pts, start as int, index as int),
            decreases n - index,
        {
            if points[index].rank < points[lo].rank {
                lo = index;
            }
            if points[index].rank >= points[hi].rank {
                hi = index;
            }
            index = index + 1;
        }
        proof {
            lemma_lowest_highest_bounds(pts, start as int, index as int);
        }
        let ghost before = out@;
        if points[lo].timestamp_unix_ms <= points[hi].timestamp_unix_ms {
            out.push(lo);
            if points[lo].timestamp_unix_ms != points[hi].timestamp_unix_ms {
                out.push(hi);
            }
        } else {
            out.push(hi);
            out.push(lo);
        }
        assert(out@ =~= before + column_pick(pts, lo as int, hi as int));
        assert(decimated_from(pts, start as int) == column_pick(pts, lo as int, hi as int) + decimated_from(pts, index as int));
        assert(out@ + decimated_from(pts, index as int) =~= before + decimated_from(pts, start as int));
    }
    assert(decimated_from(pts, index as int) =~= Seq::<usize>::empty());
    assert(out@ =~= out@ + decimated_from(pts, index as int));
    out
}

/// Decimation keeps, in every pixel column, a point no higher than any
/// point of that column and, when the points' times are distinct, one no
/// lower: the extremes of a segment stay visible.
pub proof fn law_decimation_keeps_column_extremes(pts: Seq<PixelPoint>, width_px: u32, j: int)
    requires
        0 <= j < pts.len(),
        pts.len() <= usize::MAX,
    ensures
        exists|k: int| 0 <= k < decimated(pts, width_px).len() && pts[decimated(pts, width_px)[k] as int].rank <= pts[j].rank
            && pts[decimated(pts, width_px)[k] as int].column == pts[j].column,
        strictly_timed(pts) ==> exists|k: int| 0 <= k < decimated(pts, width_px).len()
            && pts[decimated(pts, width_px)[k] as int].rank >= pts[j].rank
            && pts[decimated(pts, width_px)[k] as int].column == pts[j].column,
{
    let d = decimated(pts, width_px);
    if pts.len() <= point_budget(width_px) {
        assert(d[j] == j as usize);
    } else {
        lemma_decimated_from_keeps_extremes(pts, 0, j);
    }
}

} // verus!
