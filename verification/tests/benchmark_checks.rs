use llamamanager::installation::{LlamaInstallation, ToolEvidence};
use llamamanager::router::{
    RouterEndpointCapabilities, RouterFeatureEvidence, RouterFeatureState, RouterLibraryLink,
    RouterModel, RouterModelPhase, RouterModelStatus, RouterRegistry, RouterRole,
    RouterStaticCapabilities,
};
use llamamanager::router_switch_benchmark::{
    active_request_eviction, benchmark_model, build_envelope, cache_evidence,
    check_distinct_models, failed_without_envelope, first_token_progress, first_token_request,
    first_token_request_body, leg_readiness, library_model_id, prior_loads, record_load,
    recovery_evidence, round_trip_legs, same_envelope, switch_leg, timing_delta,
    ActiveRequestEvictionExercise, FirstTokenProgress, RouterSwitchBenchmarkConfig,
    RouterSwitchBenchmarkError, RouterSwitchBenchmarkOutcome, RouterSwitchBenchmarkPhase,
    RouterSwitchBenchmarkStore, TargetHistoryState, MAX_FIRST_TOKEN_RESPONSE_BYTES,
    SWITCH_BENCHMARK_SCHEMA_VERSION,
};
use llamamanager::server_readiness::ServerEndpoint;

fn installation(version: &str) -> LlamaInstallation {
    LlamaInstallation {
        id: "inst".into(),
        name: "llama".into(),
        root_path: "/opt/llama".into(),
        server: Some(ToolEvidence {
            path: "/opt/llama/llama-server".into(),
            sha256: "abc".into(),
            version_output: version.into(),
            help_output: String::new(),
            device_output: String::new(),
        }),
        bench: None,
        fit_params: None,
        backend: None,
        capabilities: Vec::new(),
        discovered_at_unix_ms: 0,
    }
}

fn model(id: &str, phase: RouterModelPhase, failed: bool, library: Option<&str>) -> RouterModel {
    let mut link = RouterLibraryLink::unmatched("fixture");
    link.model_id = library.map(|s| s.to_string());
    RouterModel {
        id: id.into(),
        routing_targets: vec![id.into()],
        path: None,
        sha256: None,
        status: RouterModelStatus { phase, failed, exit_code: None, args: Vec::new(), progress: None },
        resident: None,
        input_modalities: Vec::new(),
        output_modalities: Vec::new(),
        library_link: link,
    }
}

fn registry(models: Vec<RouterModel>) -> RouterRegistry {
    let f = || RouterFeatureEvidence { state: RouterFeatureState::Unknown, reason: "t".into() };
    RouterRegistry {
        endpoint: "127.0.0.1:8080".into(),
        role: RouterRole::Router,
        static_capabilities: RouterStaticCapabilities {
            server_sha256: None,
            server_version: None,
            router_cli_observed: false,
            models_dir: false,
            models_preset: false,
            models_max: false,
            models_autoload: false,
            observed_options: Vec::new(),
        },
        endpoints: RouterEndpointCapabilities {
            props: f(),
            list_models: f(),
            reload_models: f(),
            load_model: f(),
            unload_model: f(),
            model_events: f(),
        },
        models,
        observed_at_unix_ms: 1,
    }
}

#[test]
fn benchmark_config_defaults_and_distinct_models() {
    let config = RouterSwitchBenchmarkConfig::new("a".into(), "b".into());
    assert_eq!(config.timeout_ms, 120_000);
    assert_eq!(config.first_token_prompt, "Reply with OK");
    assert_eq!(check_distinct_models(&config), Ok(()));
    let same = RouterSwitchBenchmarkConfig::new("a".into(), "a".into());
    assert_eq!(check_distinct_models(&same), Err(RouterSwitchBenchmarkError::SameModel));
    let legs = round_trip_legs(&config);
    assert_eq!(legs, vec![("a".to_string(), "b".to_string()), ("b".to_string(), "a".to_string())]);
}

#[test]
fn envelope_records_identities_and_trimmed_version() {
    let config = RouterSwitchBenchmarkConfig::new("a".into(), "b".into());
    let endpoint = ServerEndpoint::loopback(8080);
    let envelope = build_envelope(
        &installation("  b1234 \n"),
        &endpoint,
        &config,
        "lib-a".into(),
        "sha-a".into(),
        "lib-b".into(),
        "sha-b".into(),
    );
    assert_eq!(envelope.schema_version, SWITCH_BENCHMARK_SCHEMA_VERSION);
    assert_eq!(envelope.server_sha256, "abc");
    assert_eq!(envelope.server_version.as_deref(), Some("b1234"));
    assert_eq!(envelope.endpoint_authority, "127.0.0.1:8080");
    assert_eq!(envelope.model_b_library_id, "lib-b");
    let blank = build_envelope(&installation(" \n"), &endpoint, &config, String::new(), String::new(), String::new(), String::new());
    assert_eq!(blank.server_version, None);
    assert!(!same_envelope(&envelope, &blank));
    assert!(same_envelope(&envelope, &envelope.clone()));
}

#[test]
fn setup_failure_is_recorded_without_legs() {
    let config = RouterSwitchBenchmarkConfig::new("a".into(), "b".into());
    let run = failed_without_envelope(
        "run".into(),
        &installation("v"),
        &ServerEndpoint::loopback(1),
        &config,
        5,
        9,
        RouterSwitchBenchmarkPhase::Baseline,
        "no router".into(),
    );
    assert!(!run.succeeded());
    assert!(run.legs.is_empty());
    assert_eq!(run.envelope.model_a_library_id, "");
    assert_eq!(
        run.outcome,
        RouterSwitchBenchmarkOutcome::Failed {
            phase: RouterSwitchBenchmarkPhase::Baseline,
            message: "no router".into(),
        }
    );
    assert_eq!(
        run.active_request_eviction,
        ActiveRequestEvictionExercise::UnsupportedBySelectedRuntime {
            reason: "benchmark setup failed before active-request evidence could be evaluated".into(),
        }
    );
}

#[test]
fn models_are_found_by_exact_id_and_need_a_library_identity() {
    let reg = registry(vec![model("a", RouterModelPhase::Loaded, false, Some("lib-a")), model("b", RouterModelPhase::Unloaded, false, None)]);
    assert_eq!(benchmark_model(&reg, &"a".to_string()).unwrap().id, "a");
    assert_eq!(
        benchmark_model(&reg, &"c".to_string()).map(|m| m.id.clone()),
        Err(RouterSwitchBenchmarkError::ModelNotFound { model: "c".into() })
    );
    assert_eq!(library_model_id(&reg.models[0]), Ok("lib-a".into()));
    assert_eq!(
        library_model_id(&reg.models[1]),
        Err(RouterSwitchBenchmarkError::ModelIdentityUnproven { model: "b".into() })
    );
}

#[test]
fn load_counts_give_cache_history() {
    let mut counts = Vec::new();
    assert_eq!(prior_loads(&counts, "a"), 0);
    assert_eq!(cache_evidence(0).target_history, TargetHistoryState::FirstLoadInRun);
    record_load(&mut counts, "a");
    record_load(&mut counts, "a");
    record_load(&mut counts, "b");
    assert_eq!(prior_loads(&counts, "a"), 2);
    assert_eq!(prior_loads(&counts, "b"), 1);
    let cache = cache_evidence(2);
    assert_eq!(cache.target_history, TargetHistoryState::PreviouslyLoadedInRun { prior_loads: 2 });
    assert!(!cache.os_page_cache_known);
}

#[test]
fn leg_readiness_requires_a_ready_target() {
    let reg = registry(vec![model("b", RouterModelPhase::Loading, false, None)]);
    assert_eq!(
        leg_readiness(&reg, "b"),
        Err((RouterSwitchBenchmarkPhase::Readiness, "target b was not ready after load: Loading, failed=false".into()))
    );
    assert_eq!(
        leg_readiness(&reg, "x"),
        Err((RouterSwitchBenchmarkPhase::Readiness, "target x disappeared from live registry".into()))
    );
    let ok = registry(vec![model("b", RouterModelPhase::Loaded, false, None)]);
    assert_eq!(leg_readiness(&ok, "b"), Ok(()));
}

#[test]
fn eviction_evidence_follows_the_probe() {
    assert!(matches!(
        active_request_eviction(Ok(true)),
        ActiveRequestEvictionExercise::EvidenceAvailableNotExercised { .. }
    ));
    assert_eq!(
        active_request_eviction(Err("down".into())),
        ActiveRequestEvictionExercise::UnsupportedBySelectedRuntime {
            reason: "active-request observability probe unavailable: down".into(),
        }
    );
}

#[test]
fn first_token_request_is_a_streamed_completion() {
    let body = first_token_request_body("m\"x", "Reply with OK");
    assert_eq!(
        body,
        "{\"model\":\"m\\\"x\",\"n_predict\":1,\"prompt\":\"Reply with OK\",\"stream\":true,\"temperature\":0}"
    );
    let request = first_token_request(&ServerEndpoint::loopback(8080), &body);
    assert!(request.starts_with("POST /completion HTTP/1.1\r\nHost: 127.0.0.1:8080\r\n"));
    assert!(request.ends_with(&format!("Content-Length: {}\r\n\r\n{}", body.len(), body)));
}

#[test]
fn first_token_reply_is_read_as_it_arrives() {
    assert_eq!(first_token_progress(b"HTTP/1.1 200 OK\r\n"), Ok(FirstTokenProgress::NeedMore));
    assert_eq!(first_token_progress(b"HTTP/1.1 200 OK\r\n\r\n"), Ok(FirstTokenProgress::NeedMore));
    assert_eq!(
        first_token_progress(b"HTTP/1.1 200 OK\r\n\r\ndata: {\"content\":\"O\"}"),
        Ok(FirstTokenProgress::Observed)
    );
    assert_eq!(
        first_token_progress(b"HTTP/1.1 503 Busy\r\n\r\nloading"),
        Err(RouterSwitchBenchmarkError::FirstTokenHttp { status_code: 503, body_excerpt: "loading".into() })
    );
    assert_eq!(
        first_token_progress(b"junk\r\n\r\n"),
        Err(RouterSwitchBenchmarkError::FirstTokenTransport("invalid HTTP status line during first-token probe".into()))
    );
    let big = vec![b'x'; MAX_FIRST_TOKEN_RESPONSE_BYTES + 1];
    assert_eq!(
        first_token_progress(&big),
        Err(RouterSwitchBenchmarkError::FirstTokenTransport("first-token response exceeded bounded evidence limit".into()))
    );
}

#[test]
fn measured_legs_and_deltas() {
    let leg = switch_leg("a", "b", cache_evidence(0), 1, 2, 3, 4, registry(Vec::new()));
    assert_eq!(leg.timings.first_token_ms, Some(4));
    assert_eq!(leg.timings.notes.len(), 2);
    assert_eq!(timing_delta(Some(10), Some(4)), Some(-6));
    assert_eq!(timing_delta(None, Some(4)), None);
}

#[test]
fn recovery_reports_whether_model_a_came_back() {
    let ready = registry(vec![model("a", RouterModelPhase::Loaded, false, None)]);
    let r = recovery_evidence(&"a".to_string(), Ok(ready), None);
    assert!(r.attempted && r.recovered);
    assert_eq!(r.message, "reloaded baseline model A after benchmark failure");
    let failed = recovery_evidence(&"a".to_string(), Err("unreachable".into()), None);
    assert!(!failed.recovered);
    assert_eq!(failed.message, "unreachable");
    assert!(failed.registry.is_none());
}

#[test]
fn store_keeps_its_path() {
    let store = RouterSwitchBenchmarkStore::at("/tmp/bench.sqlite3".into());
    assert_eq!(store.path(), "/tmp/bench.sqlite3");
}
