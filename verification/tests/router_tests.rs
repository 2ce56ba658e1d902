use llamamanager::json::{JsonNumber, JsonValue};
use llamamanager::probe_router::child_port_from_model;
use llamamanager::router::{
    parse_model, parse_status, RouterDiscoveryError, RouterEndpointCapabilities,
    RouterFeatureEvidence, RouterFeatureState, RouterLibraryLink, RouterLibraryLinkKind,
    RouterModel, RouterModelPhase, RouterModelStatus, RouterRegistry, RouterRegistryTracker,
    RouterRole, RouterStaticCapabilities,
};
use llamamanager::router_management::{
    verify_preferred_model, PreferredModelVerification, RouterControlPreferences,
};
use llamamanager::router_observability::{
    observability_for_model, parse_supplemental_model_evidence, supplemental_for,
    EvidenceAvailability, EvidenceValue, RouterEvictionSafety, RouterModelObservability,
    RouterObservabilitySnapshot, RouterObservabilityTracker, RouterSnapshotFreshness,
    SupplementalModelEvidence,
};
use llamamanager::router_switch_benchmark::{
    compare_switch_runs, ActiveRequestEvictionExercise, CacheEvidence,
    RouterSwitchBenchmarkEnvelope, RouterSwitchBenchmarkError, RouterSwitchBenchmarkOutcome,
    RouterSwitchBenchmarkRun, RouterSwitchLeg, RouterSwitchPhaseTimings, TargetHistoryState,
    SWITCH_BENCHMARK_SCHEMA_VERSION,
};


/// A `serde_json` value as the library's value tree.
fn json_tree(v: &serde_json::Value) -> JsonValue {
    match v {
        serde_json::Value::Null => JsonValue::Null,
        serde_json::Value::Bool(b) => JsonValue::Bool(*b),
        serde_json::Value::Number(n) => {
            JsonValue::Number(JsonNumber { text: n.to_string(), as_i64: n.as_i64(), as_u64: n.as_u64() })
        }
        serde_json::Value::String(s) => JsonValue::String(s.clone()),
        serde_json::Value::Array(a) => JsonValue::Array(a.iter().map(json_tree).collect()),
        serde_json::Value::Object(o) => JsonValue::Object(o.iter().map(|(k, x)| (k.clone(), json_tree(x))).collect()),
    }
}

/// A JSON text as the library's value tree, read with `serde_json`.
fn parse_json(text: &str) -> Result<JsonValue, String> {
    serde_json::from_str::<serde_json::Value>(text).map(|v| json_tree(&v)).map_err(|e| e.to_string())
}

fn static_caps(autoload: bool) -> RouterStaticCapabilities {
    RouterStaticCapabilities {
        server_sha256: None,
        server_version: None,
        router_cli_observed: autoload,
        models_dir: autoload,
        models_preset: false,
        models_max: autoload,
        models_autoload: autoload,
        observed_options: Vec::new(),
    }
}

fn feature(state: RouterFeatureState, reason: &str) -> RouterFeatureEvidence {
    RouterFeatureEvidence {
        state,
        reason: reason.into(),
    }
}

fn router_model(phase: RouterModelPhase) -> RouterModel {
    RouterModel {
        id: "alpha".into(),
        routing_targets: vec!["alpha".into(), "alias-a".into()],
        path: None,
        sha256: None,
        status: RouterModelStatus {
            phase,
            failed: false,
            exit_code: None,
            args: Vec::new(),
            progress: None,
        },
        resident: None,
        input_modalities: vec!["text".into()],
        output_modalities: vec!["text".into()],
        library_link: RouterLibraryLink {
            kind: RouterLibraryLinkKind::Unmatched,
            model_id: None,
            candidates: Vec::new(),
            reason: "fixture".into(),
        },
    }
}

fn registry_with(models: Vec<RouterModel>, autoload: bool, state: RouterFeatureState) -> RouterRegistry {
    RouterRegistry {
        endpoint: "127.0.0.1:8080".into(),
        role: RouterRole::Router,
        static_capabilities: static_caps(autoload),
        endpoints: RouterEndpointCapabilities {
            props: feature(RouterFeatureState::Supported, "test"),
            list_models: feature(RouterFeatureState::Supported, "test"),
            reload_models: feature(state, "test"),
            load_model: feature(state, "test"),
            unload_model: feature(state, "test"),
            model_events: feature(RouterFeatureState::Unknown, "test"),
        },
        models,
        observed_at_unix_ms: 1,
    }
}

#[test]
fn unknown_model_status_is_retained_instead_of_converted_to_loaded() {
    let value = parse_json(r#"{"value": "future-state", "failed": false}"#).unwrap();
    let status = parse_status(Some(&value));
    assert_eq!(status.phase, RouterModelPhase::Unknown("future-state".into()));
}

#[test]
fn explicit_residency_only_is_reported() {
    let entry = parse_json(r#"{"id": "a", "status": {"value": "loaded"}}"#).unwrap();
    let model = parse_model(&entry, "fixture").unwrap();
    assert_eq!(model.status.phase, RouterModelPhase::Loaded);
    assert_eq!(model.resident, None);
}

#[test]
fn routing_targets_are_explicit_and_deduplicated() {
    let entry = parse_json(
        r#"{"id": "canonical", "alias": "short", "aliases": ["short", "other"], "status": "unloaded"}"#,
    )
    .unwrap();
    let model = parse_model(&entry, "fixture").unwrap();
    assert_eq!(
        model.routing_targets,
        vec!["canonical".to_string(), "other".to_string(), "short".to_string()]
    );
}

#[test]
fn router_tracker_marks_retained_snapshot_stale_on_disconnect_and_recovers() {
    let registry = registry_with(Vec::new(), false, RouterFeatureState::Unknown);
    let mut tracker = RouterRegistryTracker::default();
    tracker.reconcile(Ok(registry.clone()));
    assert!(tracker.is_live());

    tracker.reconcile(Err(RouterDiscoveryError::Transport {
        path: "/props".into(),
        message: "offline".into(),
    }));
    assert!(!tracker.is_live());
    assert_eq!(tracker.current, Some(registry.clone()));
    assert!(tracker.disconnect.is_some());

    let mut newer = registry;
    newer.observed_at_unix_ms = 2;
    tracker.reconcile(Ok(newer.clone()));
    assert!(tracker.is_live());
    assert_eq!(tracker.current, Some(newer));
    assert!(tracker.disconnect.is_none());
}

#[test]
fn child_port_is_read_from_router_args_without_user_configuration() {
    let model = parse_json(
        r#"{"status":{"args":["llama-server","--host","127.0.0.1","--port","53146"]}}"#,
    )
    .unwrap();
    assert_eq!(child_port_from_model(&model), Some(53146));

    let model = parse_json(r#"{"port":53147,"status":{"args":[]}}"#).unwrap();
    assert_eq!(child_port_from_model(&model), Some(53147));
}

#[test]
fn absent_router_fields_stay_unavailable() {
    let observed = observability_for_model(
        router_model(RouterModelPhase::Loaded),
        Some(&SupplementalModelEvidence::default()),
        None,
    );
    assert_eq!(observed.residency.availability, EvidenceAvailability::Unavailable);
    assert_eq!(observed.active_requests.availability, EvidenceAvailability::Unavailable);
    assert_eq!(observed.lru_rank.availability, EvidenceAvailability::Unavailable);
    assert!(matches!(observed.eviction_safety(), RouterEvictionSafety::Unknown { .. }));
}

#[test]
fn busy_model_is_never_presented_as_safe_to_evict() {
    let observed = observability_for_model(
        router_model(RouterModelPhase::Loaded),
        Some(&SupplementalModelEvidence {
            active_requests: Some(3),
            evictable: Some(true),
            ..SupplementalModelEvidence::default()
        }),
        None,
    );
    assert_eq!(
        observed.eviction_safety(),
        RouterEvictionSafety::Busy { active_requests: 3 }
    );
}

#[test]
fn lru_values_are_not_derived_when_only_last_use_is_observed() {
    let observed = observability_for_model(
        router_model(RouterModelPhase::Loaded),
        Some(&SupplementalModelEvidence {
            active_requests: Some(0),
            last_used_ms: Some(1234),
            evictable: Some(true),
            ..SupplementalModelEvidence::default()
        }),
        None,
    );
    assert_eq!(observed.last_used_ms.value, Some(1234));
    assert_eq!(observed.lru_rank.value, None);
    assert_eq!(observed.eviction_safety(), RouterEvictionSafety::SafeObserved);
}

#[test]
fn router_observability_tracker_marks_retained_snapshot_stale_on_disconnect_and_recovers() {
    let mut tracker = RouterObservabilityTracker::default();
    tracker.reconcile(Ok(RouterObservabilitySnapshot {
        registry: registry_with(
            vec![router_model(RouterModelPhase::Loaded)],
            true,
            RouterFeatureState::Unknown,
        ),
        models: Vec::new(),
        supplemental_error: None,
        observed_at_unix_ms: 1,
    }));
    assert_eq!(tracker.freshness(), RouterSnapshotFreshness::Live);

    tracker.begin_refresh();
    assert_eq!(tracker.freshness(), RouterSnapshotFreshness::Loading);
    tracker.reconcile(Err("disconnect".into()));
    assert_eq!(tracker.freshness(), RouterSnapshotFreshness::Stale);
    assert!(tracker.current.is_some());
}

#[test]
fn supplemental_parser_retains_explicit_active_lru_and_eviction_fields() {
    let parsed = parse_supplemental_model_evidence(
        r#"{"data":[{"id":"alpha","resident":true,"active_requests":2,"last_used_ms":88,"lru_rank":4,"evictable":false}]}"#,
    )
    .unwrap();
    let alpha = supplemental_for(&parsed, &"alpha".to_string()).unwrap();
    assert_eq!(alpha.resident, Some(true));
    assert_eq!(alpha.active_requests, Some(2));
    assert_eq!(alpha.last_used_ms, Some(88));
    assert_eq!(alpha.lru_rank, Some(4));
    assert_eq!(alpha.evictable, Some(false));
}

fn unavailable<T>() -> EvidenceValue<T> {
    EvidenceValue {
        availability: EvidenceAvailability::Unavailable,
        value: None,
        reason: "fixture".into(),
    }
}

fn management_snapshot(phase: RouterModelPhase, autoload: bool) -> RouterObservabilitySnapshot {
    let model = router_model(phase);
    RouterObservabilitySnapshot {
        registry: registry_with(vec![model.clone()], autoload, RouterFeatureState::Supported),
        models: vec![RouterModelObservability {
            model,
            residency: unavailable(),
            active_requests: unavailable(),
            last_used_ms: unavailable(),
            lru_rank: unavailable(),
            evictable: unavailable(),
        }],
        supplemental_error: None,
        observed_at_unix_ms: 1,
    }
}

#[test]
fn preferred_model_needs_fresh_reconciliation_after_disconnect() {
    let preferences = RouterControlPreferences {
        preferred_model: Some("alpha".into()),
        ..RouterControlPreferences::default()
    };
    let mut tracker = RouterObservabilityTracker::default();
    assert_eq!(
        verify_preferred_model(&preferences, &tracker),
        PreferredModelVerification::NeedsLiveReconciliation
    );
    tracker.reconcile(Ok(management_snapshot(RouterModelPhase::Loaded, true)));
    assert_eq!(
        verify_preferred_model(&preferences, &tracker),
        PreferredModelVerification::Verified {
            model: "alpha".into()
        }
    );
    tracker.reconcile(Err("router restarted".into()));
    assert_eq!(
        verify_preferred_model(&preferences, &tracker),
        PreferredModelVerification::NeedsLiveReconciliation
    );
}

#[test]
fn unsupported_autoload_is_not_presented_as_verified_startup_behavior() {
    let preferences = RouterControlPreferences {
        preferred_model: Some("alpha".into()),
        ..RouterControlPreferences::default()
    };
    let mut tracker = RouterObservabilityTracker::default();
    tracker.reconcile(Ok(management_snapshot(RouterModelPhase::Loaded, false)));
    assert!(matches!(
        verify_preferred_model(&preferences, &tracker),
        PreferredModelVerification::Unsupported { .. }
    ));
}

#[test]
fn post_restart_unloaded_target_is_not_ready() {
    let preferences = RouterControlPreferences {
        preferred_model: Some("alpha".into()),
        ..RouterControlPreferences::default()
    };
    let mut tracker = RouterObservabilityTracker::default();
    tracker.reconcile(Ok(management_snapshot(RouterModelPhase::Unloaded, true)));
    assert!(matches!(
        verify_preferred_model(&preferences, &tracker),
        PreferredModelVerification::NotReady { .. }
    ));
}

fn envelope() -> RouterSwitchBenchmarkEnvelope {
    RouterSwitchBenchmarkEnvelope {
        schema_version: SWITCH_BENCHMARK_SCHEMA_VERSION,
        installation_id: "runtime".into(),
        server_sha256: "server-sha".into(),
        server_version: Some("b10472".into()),
        endpoint_authority: "127.0.0.1:8080".into(),
        model_a_router_id: "a".into(),
        model_a_library_id: "lib-a".into(),
        model_a_sha256: "sha-a".into(),
        model_b_router_id: "b".into(),
        model_b_library_id: "lib-b".into(),
        model_b_sha256: "sha-b".into(),
        router_settings: vec!["--models-max=1".into()],
    }
}

fn leg(source: &str, target: &str, first_token: u128) -> RouterSwitchLeg {
    RouterSwitchLeg {
        source_model: source.into(),
        target_model: target.into(),
        cache: CacheEvidence {
            target_history: TargetHistoryState::FirstLoadInRun,
            os_page_cache_known: false,
            note: "unknown".into(),
        },
        timings: RouterSwitchPhaseTimings {
            unload_or_evict_ms: 10,
            load_to_ready_ms: 20,
            readiness_confirmation_ms: 5,
            first_token_ms: Some(first_token),
            notes: Vec::new(),
        },
        final_registry: registry_with(Vec::new(), true, RouterFeatureState::Unknown),
    }
}

fn successful_run(id: &str, envelope: RouterSwitchBenchmarkEnvelope) -> RouterSwitchBenchmarkRun {
    RouterSwitchBenchmarkRun {
        id: id.into(),
        envelope,
        started_at_unix_ms: 1,
        finished_at_unix_ms: 2,
        legs: vec![leg("a", "b", 30), leg("b", "a", 40)],
        outcome: RouterSwitchBenchmarkOutcome::Succeeded,
        recovery: None,
        active_request_eviction: ActiveRequestEvictionExercise::UnsupportedBySelectedRuntime {
            reason: "fixture".into(),
        },
    }
}

#[test]
fn comparison_rejects_incompatible_envelopes() {
    let left = successful_run("left", envelope());
    let mut other = envelope();
    other.server_sha256 = "different-runtime".into();
    let right = successful_run("right", other);
    assert!(matches!(
        compare_switch_runs(&left, &right),
        Err(RouterSwitchBenchmarkError::IncompatibleEnvelope)
    ));
}

#[test]
fn comparison_reports_phase_deltas_for_matching_envelopes() {
    let left = successful_run("left", envelope());
    let mut right = successful_run("right", envelope());
    right.legs[0].timings.first_token_ms = Some(35);
    right.legs[1].timings.first_token_ms = Some(38);
    let comparison = compare_switch_runs(&left, &right).unwrap();
    assert_eq!(comparison.a_to_b_first_token_delta_ms, Some(5));
    assert_eq!(comparison.b_to_a_first_token_delta_ms, Some(-2));
}

#[test]
fn status_progress_is_kept_as_reported() {
    let value = parse_json(r#"{"value": "loading", "progress": {"done": 3, "of": [4, "x"]}}"#).unwrap();
    let status = parse_status(Some(&value));
    let expected = parse_json(r#"{"done": 3, "of": [4, "x"]}"#).unwrap();
    assert_eq!(status.progress, Some(expected));
    assert_eq!(status.phase, RouterModelPhase::Loading);
    let plain = parse_json(r#""loaded""#).unwrap();
    assert_eq!(parse_status(Some(&plain)).progress, None);
}
