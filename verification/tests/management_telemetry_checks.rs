use llamamanager::router::{
    RouterEndpointCapabilities, RouterFeatureEvidence, RouterFeatureState, RouterLibraryLink,
    RouterModel, RouterModelPhase, RouterModelStatus, RouterRegistry, RouterRole,
    RouterStaticCapabilities,
};
use llamamanager::router_management::{
    action_support, active_text, endpoint_from_fields, phase_text, reconcile_selection,
    residency_text, verification_text, PreferredModelVerification, RequestedAction,
};
use llamamanager::router_observability::{
    observability_for_model, observability_response, observability_snapshot,
    parse_supplemental_model_evidence, EvidenceValue, RouterEvictionSafety,
    RouterObservabilityError, RouterObservabilitySnapshot, RouterObservabilityTracker,
    RouterSnapshotFreshness, SupplementalModelEvidence,
};
use llamamanager::telemetry_alerts::{
    check_capacities, check_sample_order, check_unique_rule_ids, find_rule, AlertError,
};
use llamamanager::telemetry_overhead::{
    validate_resource_progression, OverheadError, ProcessResourceSample, ResourceWindow,
};

fn model(id: &str, phase: RouterModelPhase) -> RouterModel {
    RouterModel {
        id: id.into(),
        routing_targets: vec![id.into()],
        path: None,
        sha256: None,
        status: RouterModelStatus { phase, failed: false, exit_code: None, args: Vec::new(), progress: None },
        resident: None,
        input_modalities: Vec::new(),
        output_modalities: Vec::new(),
        library_link: RouterLibraryLink::unmatched("fixture"),
    }
}

fn registry(role: RouterRole, models: Vec<RouterModel>, load: RouterFeatureState) -> RouterRegistry {
    let f = |s: RouterFeatureState, reason: &str| RouterFeatureEvidence { state: s, reason: reason.into() };
    RouterRegistry {
        endpoint: "127.0.0.1:8080".into(),
        role,
        static_capabilities: RouterStaticCapabilities {
            server_sha256: None,
            server_version: None,
            router_cli_observed: true,
            models_dir: false,
            models_preset: false,
            models_max: false,
            models_autoload: true,
            observed_options: Vec::new(),
        },
        endpoints: RouterEndpointCapabilities {
            props: f(RouterFeatureState::Supported, "p"),
            list_models: f(RouterFeatureState::Supported, "l"),
            reload_models: f(RouterFeatureState::Supported, "r"),
            load_model: f(load, "load probe"),
            unload_model: f(RouterFeatureState::Supported, "u"),
            model_events: f(RouterFeatureState::Unknown, "e"),
        },
        models,
        observed_at_unix_ms: 3,
    }
}

fn live_tracker(reg: RouterRegistry) -> RouterObservabilityTracker {
    let snapshot = observability_snapshot(reg, Ok(Vec::new()), 4);
    let mut tracker = RouterObservabilityTracker::default();
    tracker.reconcile(Ok(snapshot));
    tracker
}

fn sample(at: u64, cpu: u64, private: u64, ws: u64, cpus: u32) -> ProcessResourceSample {
    ProcessResourceSample {
        captured_at_unix_ms: at,
        process_cpu_time_100ns: cpu,
        private_bytes: private,
        working_set_bytes: ws,
        logical_processor_count: cpus,
    }
}

#[test]
fn mutations_need_a_live_router_snapshot_and_support() {
    let reg = registry(RouterRole::Router, vec![model("a", RouterModelPhase::Loaded)], RouterFeatureState::Unknown);
    let mut tracker = live_tracker(reg.clone());
    assert_eq!(action_support(true, &tracker, RequestedAction::Reload), (false, "another refresh or operation is running".into()));
    assert_eq!(action_support(false, &tracker, RequestedAction::Reload).0, true);
    assert_eq!(
        action_support(false, &tracker, RequestedAction::Load),
        (false, "support unknown: load probe".into())
    );
    tracker.reconcile(Err("gone".into()));
    assert_eq!(tracker.freshness(), RouterSnapshotFreshness::Stale);
    assert_eq!(
        action_support(false, &tracker, RequestedAction::Reload),
        (false, "requires a live reconciled router snapshot; stale state cannot authorize mutation".into())
    );
    let single = live_tracker(registry(RouterRole::SingleModel, Vec::new(), RouterFeatureState::Supported));
    assert_eq!(
        action_support(false, &single, RequestedAction::Unload),
        (false, "selected endpoint is a single-model server".into())
    );
    assert_eq!(RequestedAction::Switch.label(), "SWITCH");
}

#[test]
fn endpoint_form_fields_are_validated() {
    let e = endpoint_from_fields(" localhost ", " 8081 ", "  ", false).unwrap();
    assert_eq!((e.host.as_str(), e.port, e.api_key.clone()), ("localhost", 8081, None));
    let keyed = endpoint_from_fields("h", "1", " k ", true).unwrap();
    assert_eq!(keyed.api_key.as_deref(), Some("k"));
    assert!(keyed.allow_non_loopback);
    assert_eq!(endpoint_from_fields(" ", "80", "", false), Err("Host cannot be empty.".into()));
    assert_eq!(endpoint_from_fields("h", "x", "", false), Err("Port must be an integer in 1..=65535.".into()));
    assert_eq!(endpoint_from_fields("h", "70000", "", false), Err("Port must be an integer in 1..=65535.".into()));
    assert_eq!(endpoint_from_fields("h", "0", "", false), Err("Port must be in 1..=65535.".into()));
}

#[test]
fn selections_fall_back_to_live_models() {
    let reg = registry(
        RouterRole::Router,
        vec![model("a", RouterModelPhase::Unloaded), model("b", RouterModelPhase::Loaded)],
        RouterFeatureState::Supported,
    );
    let snapshot = observability_snapshot(reg, Ok(Vec::new()), 1);
    let mut source = Some("gone".to_string());
    let mut target = None;
    reconcile_selection(&mut source, &mut target, &snapshot);
    assert_eq!(source.as_deref(), Some("b"));
    assert_eq!(target.as_deref(), Some("a"));
    let mut kept_source = Some("a".to_string());
    let mut kept_target = Some("b".to_string());
    reconcile_selection(&mut kept_source, &mut kept_target, &snapshot);
    assert_eq!((kept_source.as_deref(), kept_target.as_deref()), (Some("a"), Some("b")));
}

#[test]
fn verdict_and_evidence_badges() {
    let (title, style, detail) = verification_text(&PreferredModelVerification::Missing { model: "m".into() });
    assert_eq!((title.as_str(), style), ("MISSING", "rm-error"));
    assert_eq!(detail, "Preferred model `m` is absent from the live registry.");
    let supplemental = SupplementalModelEvidence { resident: Some(true), active_requests: Some(2), ..SupplementalModelEvidence::default() };
    let o = observability_for_model(model("a", RouterModelPhase::Loaded), Some(&supplemental), None);
    assert_eq!(phase_text(&o), ("LOADED".to_string(), "rm-live"));
    assert_eq!(residency_text(&o), ("RESIDENT · OBSERVED".to_string(), "rm-live"));
    assert_eq!(active_text(&o), ("2 · ACTIVE".to_string(), "rm-error"));
    assert_eq!(o.eviction_safety(), RouterEvictionSafety::Busy { active_requests: 2 });
    let unloaded = observability_for_model(model("u", RouterModelPhase::Unloaded), None, None);
    assert_eq!(
        unloaded.eviction_safety(),
        RouterEvictionSafety::NotApplicable { reason: "router status is Unloaded; no loaded-model eviction is implied".into() }
    );
    assert_eq!(phase_text(&unloaded), ("UNLOADED".to_string(), "rm-warn"));
}

#[test]
fn supplemental_evidence_refuses_duplicate_ids() {
    match parse_supplemental_model_evidence(r#"{"data":[{"id":"a"},{"id":"a"}]}"#) {
        Err(RouterObservabilityError::ProtocolDrift { path, .. }) => assert_eq!(path, "/models"),
        other => panic!("unexpected {other:?}"),
    }
    let list = parse_supplemental_model_evidence(r#"{"data":[{"id":"a","evictable":false,"active_requests":0}]}"#).unwrap();
    assert_eq!(list.len(), 1);
    assert_eq!(list[0].1.evictable, Some(false));
    let o = observability_for_model(model("a", RouterModelPhase::Sleeping), Some(&list[0].1), None);
    assert_eq!(o.eviction_safety(), RouterEvictionSafety::RouterDenied);
}

#[test]
fn observability_replies_are_classified() {
    assert_eq!(observability_response("/models", b"HTTP/1.1 200 OK\r\n\r\n{}"), Ok("{}".into()));
    assert_eq!(
        observability_response("/models", b"HTTP/1.1 401 No\r\n\r\n"),
        Err(RouterObservabilityError::AuthenticationRejected { path: "/models".into(), status_code: 401 })
    );
    assert!(matches!(
        observability_response("/models", b""),
        Err(RouterObservabilityError::Transport { .. })
    ));
}

#[test]
fn failed_refresh_keeps_the_snapshot_but_not_its_liveness() {
    let mut tracker = RouterObservabilityTracker::default();
    assert_eq!(tracker.freshness(), RouterSnapshotFreshness::Empty);
    tracker.begin_refresh();
    assert_eq!(tracker.freshness(), RouterSnapshotFreshness::Loading);
    tracker.reconcile(Err("boom".into()));
    assert_eq!(tracker.freshness(), RouterSnapshotFreshness::Failed);
    assert!(!tracker.is_live());
    let snapshot: RouterObservabilitySnapshot = observability_snapshot(
        registry(RouterRole::SingleModel, vec![model("a", RouterModelPhase::Loaded)], RouterFeatureState::Supported),
        Err("ignored".into()),
        9,
    );
    assert!(snapshot.models.is_empty());
    assert_eq!(snapshot.supplemental_error, None);
    let e: EvidenceValue<u64> = EvidenceValue::unavailable("r".into());
    assert!(!e.is_observed());
}

#[test]
fn resource_samples_must_move_forward() {
    let start = sample(100, 50, 10, 20, 4);
    assert_eq!(validate_resource_progression(start, sample(100, 50, 0, 0, 4)), Ok(()));
    assert_eq!(
        validate_resource_progression(start, sample(99, 50, 0, 0, 4)),
        Err(OverheadError::ClockMovedBackwards { start: 100, end: 99 })
    );
    assert_eq!(
        validate_resource_progression(start, sample(101, 49, 0, 0, 4)),
        Err(OverheadError::CpuCounterMovedBackwards { start: 50, end: 49 })
    );
    assert_eq!(
        validate_resource_progression(start, sample(101, 51, 0, 0, 8)),
        Err(OverheadError::LogicalProcessorCountChanged { start: 4, end: 8 })
    );
    assert_eq!(
        validate_resource_progression(start, sample(101, 51, 0, 0, 0)),
        Err(OverheadError::InvalidLogicalProcessorCount)
    );
}

#[test]
fn resource_window_tracks_peaks_and_totals() {
    assert_eq!(ResourceWindow::new(0, sample(0, 0, 0, 0, 1)), Err(OverheadError::InvalidCadence));
    let mut window = ResourceWindow::new(100, sample(1000, 0, 100, 200, 2)).unwrap();
    assert_eq!(window.finish(sample(1500, 10, 100, 200, 2)), Err(OverheadError::NoPollSamples));
    window.record(sample(1100, 5, 400, 150, 2)).unwrap();
    assert_eq!(
        window.record(sample(1050, 6, 0, 0, 2)),
        Err(OverheadError::ClockMovedBackwards { start: 1100, end: 1050 })
    );
    assert_eq!(window.samples, 1);
    let totals = window.finish(sample(1300, 30, 150, 250, 2)).unwrap();
    assert_eq!(totals.elapsed_ms, 300);
    assert_eq!(totals.cpu_delta_100ns, 30);
    assert_eq!(totals.peak_private_bytes, 400);
    assert_eq!(totals.peak_private_growth_bytes, 300);
    assert_eq!(totals.peak_working_set_bytes, 250);
    let mut same_time = ResourceWindow::new(100, sample(1000, 0, 1, 1, 1)).unwrap();
    same_time.record(sample(1000, 0, 1, 1, 1)).unwrap();
    assert_eq!(same_time.finish(sample(1000, 0, 1, 1, 1)), Err(OverheadError::ZeroDuration));
}

#[test]
fn alert_configuration_checks() {
    assert_eq!(check_capacities(0, 1), Err(AlertError::InvalidHistoryCapacity));
    assert_eq!(check_capacities(1, 0), Err(AlertError::InvalidEvidenceCapacity));
    assert_eq!(check_capacities(1, 1), Ok(()));
    let ids = vec!["cpu".to_string(), "mem".to_string(), "cpu".to_string()];
    assert_eq!(check_unique_rule_ids(&ids), Err(AlertError::DuplicateRuleId("cpu".into())));
    assert_eq!(find_rule(&ids, "mem"), Ok(1));
    assert_eq!(find_rule(&ids, "disk"), Err(AlertError::UnknownRule("disk".into())));
    assert_eq!(check_sample_order(Some(10), 9), Err(AlertError::OutOfOrderSample { previous: 10, incoming: 9 }));
    assert_eq!(check_sample_order(Some(10), 10), Ok(()));
    assert_eq!(check_sample_order(None, 0), Ok(()));
}

fn overhead_sample(timestamp_ms: u64, cpu_100ns: u64, private_bytes: u64, working_set_bytes: u64) -> ProcessResourceSample {
    ProcessResourceSample {
        captured_at_unix_ms: timestamp_ms,
        process_cpu_time_100ns: cpu_100ns,
        private_bytes,
        working_set_bytes,
        logical_processor_count: 20,
    }
}

#[test]
fn intermediate_resource_regressions_are_rejected() {
    let start = overhead_sample(1_000, 100, 1_000, 2_000);
    let mut window = ResourceWindow::new(1_000, start).unwrap();
    window.record(overhead_sample(2_000, 200, 1_000, 2_000)).unwrap();
    assert_eq!(
        window.record(overhead_sample(1_500, 250, 1_000, 2_000)),
        Err(OverheadError::ClockMovedBackwards { start: 2_000, end: 1_500 })
    );
    assert_eq!(
        window.record(overhead_sample(2_100, 150, 1_000, 2_000)),
        Err(OverheadError::CpuCounterMovedBackwards { start: 200, end: 150 })
    );

    let mut finish_window = ResourceWindow::new(1_000, start).unwrap();
    finish_window.record(overhead_sample(2_000, 200, 1_000, 2_000)).unwrap();
    assert_eq!(
        finish_window.finish(overhead_sample(1_500, 250, 1_000, 2_000)),
        Err(OverheadError::ClockMovedBackwards { start: 2_000, end: 1_500 })
    );
}
