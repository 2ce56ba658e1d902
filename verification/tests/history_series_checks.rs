use llamamanager::chart_layout::{decimate_points, layout_chart, PixelPoint};
use llamamanager::history_series::{HistoryEntry, HistorySeries};
use llamamanager::history_store::HistoryStore;
use llamamanager::telemetry_history::{
    ChartGapKind, HistoryError, HistoryPolicy, RenderClass, SampleSource, SeriesIdentity, SeriesKey,
    SeriesPresentationState, TimeSeriesState,
};

fn key(identity: &str) -> SeriesKey {
    SeriesKey::new(
        "gpu.utilization".into(),
        "percent".into(),
        "nvidia-nvml".into(),
        "nvmlDeviceGetUtilizationRates".into(),
        SeriesIdentity::new("gpu-uuid".into(), identity.into()),
    )
}

fn test_policy(max_points: usize) -> HistoryPolicy {
    HistoryPolicy {
        retention_ms: 60_000,
        raw_retention_ms: 1_000,
        downsample_bucket_ms: 500,
        max_points_per_series: max_points,
    }
}

/// A live reading, ranked by its integer part (the readings here are whole
/// numbers, so the rank orders them exactly).
fn live(source: &SampleSource, t: u64, value: f64) -> HistoryEntry<f64> {
    HistoryEntry::new(t, source.clone(), TimeSeriesState::Live, Some(value as u64), value)
}

fn stale(source: &SampleSource, t: u64, value: f64, reason: &str) -> HistoryEntry<f64> {
    let state = TimeSeriesState::Stale { reason: reason.into(), last_observed_at_unix_ms: Some(t) };
    HistoryEntry::new(t, source.clone(), state, Some(value as u64), value)
}

fn disconnected(source: &SampleSource, t: u64, reason: &str) -> HistoryEntry<f64> {
    HistoryEntry::new(t, source.clone(), TimeSeriesState::Disconnected { reason: reason.into() }, None, 0.0)
}

#[test]
fn history_is_bounded_and_downsamples_old_live_samples() {
    let key = key("GPU-1");
    let source = SampleSource::from_key(&key);
    let mut series = HistorySeries::new(key, test_policy(32)).unwrap();
    for index in 0..200_u64 {
        series.push(live(&source, index * 100, index as f64)).unwrap();
    }
    assert!(series.len() <= 32);
    assert_eq!(series.entries().last().unwrap().timestamp_unix_ms, 19_900);
}

#[test]
fn markers_survive_downsampling_until_retention_or_hard_cap_requires_eviction() {
    let key = key("GPU-1");
    let source = SampleSource::from_key(&key);
    let mut series = HistorySeries::new(key, test_policy(64)).unwrap();
    for index in 0..20_u64 {
        series.push(live(&source, index * 100, 50.0)).unwrap();
    }
    series.push(disconnected(&source, 2_100, "server stopped")).unwrap();
    for index in 22..40_u64 {
        series.push(live(&source, index * 100, 55.0)).unwrap();
    }
    assert!(series
        .entries()
        .iter()
        .any(|entry| matches!(entry.state, TimeSeriesState::Disconnected { .. })));
}

#[test]
fn compaction_keeps_bucket_extremes_in_time_order() {
    let key = key("GPU-1");
    let source = SampleSource::from_key(&key);
    let mut series = HistorySeries::new(key, test_policy(64)).unwrap();
    // One bucket of old samples: first 5, lowest 1, highest 9, last 4.
    for (t, v) in [(0, 5.0), (100, 1.0), (200, 9.0), (300, 3.0), (400, 4.0)] {
        series.push(live(&source, t, v)).unwrap();
    }
    series.push(live(&source, 5_000, 7.0)).unwrap();
    let kept: Vec<(u64, f64)> = series.entries().iter().map(|e| (e.timestamp_unix_ms, e.sample)).collect();
    assert_eq!(kept, vec![(0, 5.0), (100, 1.0), (200, 9.0), (400, 4.0), (5_000, 7.0)]);
}

#[test]
fn samples_are_refused_from_another_source_or_out_of_order() {
    let key = key("GPU-1");
    let source = SampleSource::from_key(&key);
    let mut series = HistorySeries::new(key, test_policy(64)).unwrap();
    series.push(live(&source, 2_000, 1.0)).unwrap();
    assert_eq!(
        series.push(live(&source, 1_000, 1.0)),
        Err(HistoryError::OutOfOrderSample { previous: 2_000, incoming: 1_000 })
    );
    let other = SampleSource { provider: "amd-smi".into(), api: "x".into(), metric: "gpu.utilization".into() };
    assert_eq!(series.push(live(&other, 3_000, 1.0)), Err(HistoryError::SourceMismatch));
    assert_eq!(series.len(), 1);
}

#[test]
fn samples_past_the_retention_are_dropped() {
    let key = key("GPU-1");
    let source = SampleSource::from_key(&key);
    let mut series = HistorySeries::new(key, test_policy(64)).unwrap();
    series.push(disconnected(&source, 0, "gone")).unwrap();
    series.push(live(&source, 60_001, 1.0)).unwrap();
    assert_eq!(series.len(), 1);
    assert_eq!(series.entries()[0].timestamp_unix_ms, 60_001);
}

#[test]
fn invalid_policies_are_refused() {
    let mut policy = test_policy(64);
    policy.max_points_per_series = 4;
    assert_eq!(
        HistorySeries::<f64>::new(key("GPU-1"), policy).unwrap_err(),
        HistoryError::InvalidPolicy("max_points_per_series must be at least 8".into())
    );
}

#[test]
fn disconnect_and_reconnect_create_separate_chart_segments() {
    let key = key("GPU-1");
    let source = SampleSource::from_key(&key);
    let mut series = HistorySeries::new(key, test_policy(64)).unwrap();
    series.push(live(&source, 1_000, 10.0)).unwrap();
    series.push(live(&source, 2_000, 20.0)).unwrap();
    series.push(disconnected(&source, 2_500, "provider disconnected")).unwrap();
    series.push(live(&source, 4_000, 40.0)).unwrap();

    let layout = layout_chart(series.entries(), None);
    assert_eq!(layout.segments.len(), 2);
    assert!(layout.gaps.iter().any(|gap| gap.kind == ChartGapKind::Disconnected));
    assert_eq!(layout.segments[0].positions.len(), 2);
    assert_eq!(layout.segments[1].positions.len(), 1);
    assert_eq!(layout.gaps[0].from_unix_ms, 2_000);
    assert_eq!(layout.gaps[0].to_unix_ms, 2_500);
    assert_eq!(layout.gaps[0].reason, "provider disconnected");
}

#[test]
fn stale_values_render_as_a_distinct_segment() {
    let key = key("GPU-1");
    let source = SampleSource::from_key(&key);
    let mut series = HistorySeries::new(key, test_policy(64)).unwrap();
    series.push(live(&source, 1_000, 10.0)).unwrap();
    series.push(stale(&source, 2_000, 10.0, "last provider sample is stale")).unwrap();

    let layout = layout_chart(series.entries(), None);
    assert_eq!(layout.segments.len(), 2);
    assert_eq!(layout.segments[0].class, RenderClass::Live);
    assert_eq!(layout.segments[1].class, RenderClass::Stale);
    assert_eq!(
        SeriesPresentationState::from_state(&series.entries().last().unwrap().state),
        SeriesPresentationState::Stale
    );
}

#[test]
fn missing_interval_breaks_the_line_without_an_explicit_marker() {
    let key = key("GPU-1");
    let source = SampleSource::from_key(&key);
    let mut series = HistorySeries::new(key, test_policy(64)).unwrap();
    series.push(live(&source, 1_000, 10.0)).unwrap();
    series.push(live(&source, 10_000, 20.0)).unwrap();

    let layout = layout_chart(series.entries(), Some(2_000));
    assert_eq!(layout.segments.len(), 2);
    assert_eq!(layout.gaps.len(), 1);
    assert_eq!(layout.gaps[0].kind, ChartGapKind::MissingSamples);
    assert_eq!(layout.gaps[0].reason, "sample interval exceeded chart gap threshold");
}

#[test]
fn pixel_decimation_preserves_extrema_and_bounds_render_points() {
    // 4000 samples one millisecond apart on a 200-pixel chart; one spike.
    let points: Vec<PixelPoint> = (0..4_000_u64)
        .map(|index| {
            let x = (index as f64 / 3_999.0) * 200.0;
            PixelPoint { column: x.floor() as i64, rank: if index == 2_000 { 100 } else { 10 }, timestamp_unix_ms: index }
        })
        .collect();
    let kept = decimate_points(&points, 200);
    assert!(kept.len() <= 402);
    assert!(kept.iter().any(|&position| points[position].rank == 100));
    assert!(kept.windows(2).all(|pair| pair[0] < pair[1]));
}

#[test]
fn decimation_keeps_lowest_then_highest_per_column() {
    let p = |column: i64, rank: u64, t: u64| PixelPoint { column, rank, timestamp_unix_ms: t };
    let points = vec![p(0, 5, 0), p(0, 9, 1), p(0, 1, 2), p(0, 9, 3), p(1, 4, 4), p(1, 4, 5)];
    // Within the budget nothing is dropped.
    assert_eq!(decimate_points(&points, 3), vec![0, 1, 2, 3, 4, 5]);
    // Over it: column 0 keeps its first lowest (2) and last highest (3);
    // column 1 keeps its first lowest (4) and last highest (5).
    assert_eq!(decimate_points(&points, 2), vec![2, 3, 4, 5]);
    let reversed = vec![p(0, 9, 0), p(0, 1, 1), p(0, 3, 2), p(1, 2, 3), p(2, 2, 4)];
    assert_eq!(decimate_points(&reversed, 1), vec![0, 1, 3, 4]);
}

#[test]
fn store_never_mixes_incompatible_identities() {
    let mut store = HistoryStore::new(test_policy(64)).unwrap();
    let first = key("GPU-1");
    let second = key("GPU-2");
    store.push(first.clone(), live(&SampleSource::from_key(&first), 1_000, 10.0)).unwrap();
    store.push(second.clone(), live(&SampleSource::from_key(&second), 1_000, 90.0)).unwrap();

    assert_eq!(store.len(), 2);
    assert_eq!(store.series_for_metric("gpu.utilization").len(), 2);
    assert_eq!(store.series(&first).unwrap().entries().last().unwrap().sample, 10.0);
    assert_eq!(store.series(&second).unwrap().entries().last().unwrap().sample, 90.0);
}

#[test]
fn store_opens_a_series_per_key_even_when_its_first_sample_is_refused() {
    let mut store = HistoryStore::new(test_policy(64)).unwrap();
    let first = key("GPU-1");
    let other = SampleSource { provider: "amd-smi".into(), api: "x".into(), metric: "gpu.utilization".into() };
    assert_eq!(store.push(first.clone(), live(&other, 1_000, 1.0)), Err(HistoryError::SourceMismatch));
    assert_eq!(store.len(), 1);
    assert!(store.series(&first).unwrap().is_empty());
    assert_eq!(store.push(first.clone(), live(&SampleSource::from_key(&first), 2_000, 2.0)), Ok(0));
    let renamed = SeriesKey::new(
        "gpu.utilization".into(),
        "percent".into(),
        "nvidia-nvml".into(),
        "nvmlDeviceGetUtilizationRates".into(),
        SeriesIdentity::new("gpu-uuid".into(), "GPU-1".into()).with_display_name("RTX".into()),
    );
    assert_eq!(store.push(renamed, live(&SampleSource::from_key(&first), 3_000, 3.0)), Ok(1));
    assert_eq!(store.series_for_metric("gpu.utilization"), vec![0, 1]);
    assert!(store.series_for_metric("cpu").is_empty());
}
