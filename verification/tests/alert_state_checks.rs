use llamamanager::alert_book::AlertBook;
use llamamanager::telemetry_alerts::{
    alert_rule_matches, check_alert_source, check_capacities, check_rule_texts, check_rule_timing,
    is_live_supported, non_live_reason, observe_alert_sample, AlertError, AlertEventKind,
    AlertInstanceState, AlertPresentationState, AlertTiming,
};
use llamamanager::telemetry_history::{
    MetricSupport, SampleSource, SeriesIdentity, SeriesKey, TimeSeriesState,
};

fn key() -> SeriesKey {
    SeriesKey::new(
        "gpu.temperature".into(),
        "celsius".into(),
        "nvidia-nvml".into(),
        "nvmlDeviceGetTemperature".into(),
        SeriesIdentity::new("gpu-uuid".into(), "GPU-1".into()).with_display_name("RTX test".into()),
    )
}

fn timing() -> AlertTiming {
    AlertTiming { window_ms: 2_000, debounce_ms: 3_000, min_live_samples: 3 }
}

/// A live reading against an "above 80, clear at 75" rule.
fn reading(value: f64) -> Option<(f64, bool, bool)> {
    Some((value, value >= 80.0, value <= 75.0))
}

type Step = (AlertPresentationState, Option<AlertEventKind>, usize);

fn observe(state: &mut AlertInstanceState<f64>, t: u64, live: Option<(f64, bool, bool)>) -> Step {
    let (presentation, event) = observe_alert_sample(state, timing(), t, live, 16).unwrap();
    match event {
        Some((kind, window)) => (presentation, Some(kind), window.samples.len()),
        None => (presentation, None, 0),
    }
}

#[test]
fn sustained_live_threshold_fires_with_complete_evidence() {
    let mut state = AlertInstanceState::new();
    assert_eq!(observe(&mut state, 1_000, reading(81.0)).0, AlertPresentationState::Pending);
    assert_eq!(observe(&mut state, 2_000, reading(82.0)).0, AlertPresentationState::Pending);
    let (presentation, event) = observe_alert_sample(&mut state, timing(), 3_000, reading(83.0), 16).unwrap();
    assert_eq!(presentation, AlertPresentationState::Active);
    let (kind, window) = event.unwrap();
    assert_eq!(kind, AlertEventKind::Fired);
    assert_eq!(window.started_at_unix_ms, 1_000);
    assert_eq!(window.samples, vec![(1_000, 81.0), (2_000, 82.0), (3_000, 83.0)]);
    assert!(state.active);
    assert_eq!(state.last_transition_at_unix_ms, Some(3_000));
}

#[test]
fn too_few_samples_keep_the_alert_pending() {
    let mut state = AlertInstanceState::new();
    observe(&mut state, 1_000, reading(90.0));
    // The window is spanned, but only two samples were seen.
    assert_eq!(observe(&mut state, 3_500, reading(90.0)), (AlertPresentationState::Pending, None, 0));
    assert!(!state.active);
}

#[test]
fn non_live_samples_suppress_and_drop_the_pending_window() {
    let mut state = AlertInstanceState::new();
    observe(&mut state, 1_000, reading(90.0));
    observe(&mut state, 2_000, reading(90.0));
    assert_eq!(observe(&mut state, 3_000, None), (AlertPresentationState::Suppressed, None, 0));
    assert!(state.trigger_window.is_none());
    // The run starts again from the next live reading.
    assert_eq!(observe(&mut state, 4_000, reading(90.0)).0, AlertPresentationState::Pending);
    assert_eq!(state.trigger_window.as_ref().unwrap().started_at_unix_ms, 4_000);
}

#[test]
fn hysteresis_and_window_prevent_alert_flapping() {
    let mut state = AlertInstanceState::new();
    for (t, v) in [(1_000, 82.0), (2_000, 83.0)] {
        observe(&mut state, t, reading(v));
    }
    assert_eq!(observe(&mut state, 3_000, reading(84.0)).1, Some(AlertEventKind::Fired));
    for (t, v) in [(4_000, 78.0), (5_000, 76.0), (6_000, 79.0)] {
        assert_eq!(observe(&mut state, t, reading(v)), (AlertPresentationState::Active, None, 0));
    }
    assert_eq!(observe(&mut state, 7_000, reading(74.0)).0, AlertPresentationState::Clearing);
    assert_eq!(observe(&mut state, 8_000, reading(73.0)).0, AlertPresentationState::Clearing);
    assert_eq!(
        observe(&mut state, 9_000, reading(72.0)),
        (AlertPresentationState::Inactive, Some(AlertEventKind::Resolved), 3)
    );
    // Within the debounce after the resolution nothing starts.
    for t in [10_000, 11_000] {
        assert_eq!(observe(&mut state, t, reading(90.0)), (AlertPresentationState::Inactive, None, 0));
    }
    assert!(state.trigger_window.is_none());
}

#[test]
fn active_alert_becomes_suppressed_when_data_goes_stale_without_false_resolution() {
    let mut state = AlertInstanceState::new();
    for (t, v) in [(1_000, 82.0), (2_000, 83.0), (3_000, 84.0)] {
        observe(&mut state, t, reading(v));
    }
    assert_eq!(observe(&mut state, 4_000, None), (AlertPresentationState::Suppressed, None, 0));
    let stale = TimeSeriesState::Stale {
        reason: "NVML temporarily unavailable".into(),
        last_observed_at_unix_ms: Some(3_000),
    };
    assert!(non_live_reason(&stale, MetricSupport::Supported).contains("stale"));
    assert!(state.active);
    assert_eq!(observe(&mut state, 5_000, reading(82.0)), (AlertPresentationState::Active, None, 0));
}

#[test]
fn stale_unavailable_and_error_samples_cannot_fire_live_alerts() {
    let mut state = AlertInstanceState::new();
    observe(&mut state, 1_000, reading(90.0));
    observe(&mut state, 2_000, reading(90.0));
    // Stale, unavailable and error samples are not live readings.
    for t in [3_000, 4_000, 5_000] {
        assert_eq!(observe(&mut state, t, None), (AlertPresentationState::Suppressed, None, 0));
    }
    assert!(!state.active);
    assert_eq!(state.last_transition_at_unix_ms, None);
}

#[test]
fn an_older_sample_is_refused_and_changes_nothing() {
    let mut state = AlertInstanceState::new();
    observe(&mut state, 2_000, reading(90.0));
    let error = observe_alert_sample(&mut state, timing(), 1_000, reading(90.0), 16).unwrap_err();
    assert_eq!(error, AlertError::OutOfOrderSample { previous: 2_000, incoming: 1_000 });
    assert_eq!(state.last_observed_at_unix_ms, Some(2_000));
    assert_eq!(state.trigger_window.as_ref().unwrap().samples.len(), 1);
}

#[test]
fn evidence_windows_keep_only_the_latest_samples() {
    let mut state = AlertInstanceState::new();
    let slow = AlertTiming { window_ms: 10_000, debounce_ms: 0, min_live_samples: 1 };
    for t in [1_000u64, 2_000, 3_000, 4_000] {
        observe_alert_sample(&mut state, slow, t, reading(90.0), 2).unwrap();
    }
    let window = state.trigger_window.as_ref().unwrap();
    assert_eq!(window.started_at_unix_ms, 1_000);
    assert_eq!(window.samples, vec![(3_000, 90.0), (4_000, 90.0)]);
}

#[test]
fn a_repeated_timestamp_does_not_add_a_sample() {
    let mut state = AlertInstanceState::new();
    observe(&mut state, 1_000, reading(90.0));
    observe(&mut state, 1_000, reading(91.0));
    assert_eq!(state.trigger_window.as_ref().unwrap().samples, vec![(1_000, 90.0)]);
}

#[test]
fn rule_texts_must_not_be_blank() {
    let s = |v: &str| v.to_string();
    assert!(check_rule_texts(&s("id"), &s("m"), &s("p"), &s("a"), &s("r")).is_ok());
    assert_eq!(
        check_rule_texts(&s("id"), &s("  "), &s(""), &s("a"), &s("r")),
        Err(AlertError::InvalidRule("alert rule metric cannot be empty".into()))
    );
    assert_eq!(
        check_rule_texts(&s("id"), &s("m"), &s("p"), &s("a"), &s("\t")),
        Err(AlertError::InvalidRule("alert rule reason cannot be empty".into()))
    );
    assert_eq!(
        check_rule_texts(&s(""), &s("m"), &s("p"), &s("a"), &s("r")),
        Err(AlertError::InvalidRule("alert rule id cannot be empty".into()))
    );
}

#[test]
fn rule_timing_and_capacities_must_be_positive() {
    assert_eq!(
        check_rule_timing(0, 3),
        Err(AlertError::InvalidRule("alert window_ms must be greater than zero".into()))
    );
    assert_eq!(
        check_rule_timing(1, 0),
        Err(AlertError::InvalidRule("min_live_samples must be greater than zero".into()))
    );
    assert!(check_rule_timing(1, 1).is_ok());
    assert_eq!(check_capacities(0, 5), Err(AlertError::InvalidHistoryCapacity));
    assert_eq!(check_capacities(5, 0), Err(AlertError::InvalidEvidenceCapacity));
    assert!(check_capacities(1, 1).is_ok());
}

#[test]
fn rules_and_samples_match_by_exact_source() {
    let k = key();
    assert!(alert_rule_matches(
        &"gpu.temperature".into(),
        &"nvidia-nvml".into(),
        &"nvmlDeviceGetTemperature".into(),
        &k
    ));
    assert!(!alert_rule_matches(&"gpu.temperature".into(), &"amd-smi".into(), &"nvmlDeviceGetTemperature".into(), &k));
    assert!(check_alert_source(&k, &SampleSource::from_key(&k)).is_ok());
    let other = SampleSource { provider: "nvidia-nvml".into(), api: "other".into(), metric: "gpu.temperature".into() };
    assert_eq!(check_alert_source(&k, &other), Err(AlertError::SourceMismatch));
}

#[test]
fn only_supported_live_samples_are_evaluated() {
    assert!(is_live_supported(&TimeSeriesState::Live, MetricSupport::Supported));
    assert!(!is_live_supported(&TimeSeriesState::Live, MetricSupport::Unavailable));
    let stale = TimeSeriesState::Stale { reason: "provider late".into(), last_observed_at_unix_ms: Some(2_000) };
    assert!(!is_live_supported(&stale, MetricSupport::Supported));
    assert_eq!(non_live_reason(&stale, MetricSupport::Supported), "stale telemetry: provider late");
    assert_eq!(
        non_live_reason(&TimeSeriesState::Live, MetricSupport::Error),
        "metric support state is Error"
    );
    assert_eq!(
        non_live_reason(&TimeSeriesState::Live, MetricSupport::Supported),
        "live sample has no finite value"
    );
    assert_eq!(
        non_live_reason(&TimeSeriesState::Error { message: "provider failed".into() }, MetricSupport::Error),
        "telemetry error: provider failed"
    );
    assert_eq!(
        non_live_reason(&TimeSeriesState::Unavailable { reason: "unsupported".into() }, MetricSupport::Unavailable),
        "metric unavailable: unsupported"
    );
}

#[test]
fn state_is_isolated_per_series_identity() {
    let first = key();
    let mut second = key();
    second.identity = SeriesIdentity::new("gpu-uuid".into(), "GPU-2".into());
    let rule = "gpu-temperature-warning".to_string();
    let mut book: AlertBook<f64, AlertEventKind> = AlertBook::new(512);
    for t in [1_000, 2_000, 3_000] {
        book.observe(&rule, &first, timing(), t, reading(90.0), 64).unwrap();
    }
    let (presentation, event) = book.observe(&rule, &second, timing(), 3_000, reading(90.0), 64).unwrap();
    assert_eq!(presentation, AlertPresentationState::Pending);
    assert!(event.is_none());
    assert_eq!(book.instances().len(), 2);
    assert!(book.instances()[0].state.active);
    assert!(!book.instances()[1].state.active);
}

#[test]
fn alert_history_is_bounded() {
    let k = key();
    let rule = "gpu-temperature-warning".to_string();
    let fast = AlertTiming { window_ms: 1, debounce_ms: 0, min_live_samples: 2 };
    let mut book: AlertBook<f64, AlertEventKind> = AlertBook::new(2);
    for cycle in 0..3_u64 {
        let base = cycle * 10_000;
        for (t, v) in [(base + 1_000, 90.0), (base + 1_001, 90.0), (base + 2_000, 70.0), (base + 2_001, 70.0)] {
            let (_, event) = book.observe(&rule, &k, fast, t, reading(v), 8).unwrap();
            if let Some((kind, _)) = event {
                book.record(kind);
            }
        }
    }
    assert_eq!(book.history().len(), 2);
    assert_eq!(*book.history().last().unwrap(), AlertEventKind::Resolved);
}

#[test]
fn forgetting_a_rule_drops_only_its_instances() {
    let k = key();
    let mut book: AlertBook<f64, AlertEventKind> = AlertBook::new(4);
    book.observe(&"a".to_string(), &k, timing(), 1_000, reading(90.0), 8).unwrap();
    book.observe(&"b".to_string(), &k, timing(), 1_000, reading(90.0), 8).unwrap();
    book.forget_rule(&"a".to_string());
    assert_eq!(book.instances().len(), 1);
    assert_eq!(book.instances()[0].rule_id, "b");
}
