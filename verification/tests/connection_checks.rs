use llamamanager::installation::{LlamaInstallation, ToolEvidence};
use llamamanager::probe_router::{fallback_read_step, finish_fallback_response};
use llamamanager::router::{
    check_router_addresses, check_router_port, RouterDiscoveryError, RouterLibraryLink, RouterModel,
    RouterModelPhase, RouterModelStatus,
};
use llamamanager::router_observability::{
    any_active_requests_observed, check_observability_addresses, check_observability_port,
    EvidenceValue, RouterModelObservability, RouterObservabilityError,
};
use llamamanager::router_operations::{
    check_operation_addresses, compatibility_gate, resolve_by_evidence, CompatibilityStatus,
    LibraryModelRecord, RouterOperationError,
};
use llamamanager::router_switch_benchmark::{
    check_first_token_target, require_benchmark_server, RouterSwitchBenchmarkError,
};
use llamamanager::server_readiness::ServerEndpoint;
use llamamanager::streaming_probe::{
    check_probe_addresses, check_probe_port, stream_verdict, SseScan, StreamingInferenceProbeError,
};

fn endpoint(port: u16, allow_non_loopback: bool) -> ServerEndpoint {
    ServerEndpoint { host: "gpu-box".into(), port, api_key: None, allow_non_loopback }
}

fn model(id: &str, path: Option<&str>, sha: Option<&str>, args: &[&str]) -> RouterModel {
    RouterModel {
        id: id.into(),
        routing_targets: vec![id.to_string()],
        path: path.map(|p| p.to_string()),
        sha256: sha.map(|s| s.to_string()),
        status: RouterModelStatus {
            phase: RouterModelPhase::Loaded,
            failed: false,
            exit_code: None,
            args: args.iter().map(|a| a.to_string()).collect(),
            progress: None,
        },
        resident: None,
        input_modalities: Vec::new(),
        output_modalities: Vec::new(),
        library_link: RouterLibraryLink::unmatched("fixture"),
    }
}

fn record(id: &str, path: &str, sha: &str) -> LibraryModelRecord {
    LibraryModelRecord { id: id.into(), path: path.into(), sha256: sha.into() }
}

fn resolution(message: &str) -> RouterDiscoveryError {
    RouterDiscoveryError::HostResolution { host: "gpu-box".into(), message: message.into() }
}

#[test]
fn router_targets_need_a_port_and_loopback_addresses() {
    assert_eq!(check_router_port(&endpoint(0, false)), Err(resolution("port must be in 1..=65535")));
    assert!(check_router_port(&endpoint(8080, false)).is_ok());
    assert_eq!(
        check_router_addresses(&endpoint(8080, false), 0, false),
        Err(resolution("host resolved to no addresses"))
    );
    assert_eq!(
        check_router_addresses(&endpoint(8080, false), 2, true),
        Err(resolution("non-loopback router target requires explicit opt-in"))
    );
    assert!(check_router_addresses(&endpoint(8080, true), 2, true).is_ok());
    assert!(check_router_addresses(&endpoint(8080, false), 1, false).is_ok());
}

#[test]
fn observability_targets_follow_the_same_rules() {
    let err = |m: &str| RouterObservabilityError::HostResolution { host: "gpu-box".into(), message: m.into() };
    assert_eq!(check_observability_port(&endpoint(0, true)), Err(err("port must be in 1..=65535")));
    assert_eq!(check_observability_addresses(&endpoint(1, true), 0, false), Err(err("host resolved to no addresses")));
    assert_eq!(
        check_observability_addresses(&endpoint(1, false), 1, true),
        Err(err("non-loopback router target requires explicit opt-in"))
    );
    assert!(check_observability_addresses(&endpoint(1, false), 1, false).is_ok());
}

#[test]
fn operation_targets_report_the_path() {
    let err = |m: &str| RouterOperationError::Transport { path: "/models/load".into(), message: m.into() };
    assert_eq!(check_operation_addresses("/models/load", 0, false, false), Err(err("host resolved to no addresses")));
    assert_eq!(
        check_operation_addresses("/models/load", 3, true, false),
        Err(err("non-loopback router target requires explicit opt-in"))
    );
    assert!(check_operation_addresses("/models/load", 3, true, true).is_ok());
}

#[test]
fn probe_targets_are_checked_before_connecting() {
    assert_eq!(check_probe_port(&endpoint(0, false)), Err(StreamingInferenceProbeError::InvalidPort));
    assert!(check_probe_port(&endpoint(80, false)).is_ok());
    assert_eq!(
        check_probe_addresses(&endpoint(80, false), 0, false),
        Err(StreamingInferenceProbeError::HostResolution {
            host: "gpu-box".into(),
            message: "host resolved to no addresses".into()
        })
    );
    assert_eq!(
        check_probe_addresses(&endpoint(80, false), 1, true),
        Err(StreamingInferenceProbeError::NonLoopbackDenied { host: "gpu-box".into() })
    );
    assert!(check_probe_addresses(&endpoint(80, true), 1, true).is_ok());
}

#[test]
fn first_token_targets_are_checked_before_connecting() {
    let transport = |m: &str| Err(RouterSwitchBenchmarkError::FirstTokenTransport(m.into()));
    assert_eq!(check_first_token_target(&endpoint(0, true), None), transport("server port must be in 1..=65535"));
    assert!(check_first_token_target(&endpoint(9, false), None).is_ok());
    assert_eq!(
        check_first_token_target(&endpoint(9, false), Some((0, false))),
        transport("server host resolved to no addresses")
    );
    assert_eq!(
        check_first_token_target(&endpoint(9, false), Some((1, true))),
        transport("non-loopback target requires explicit opt-in")
    );
    assert!(check_first_token_target(&endpoint(9, true), Some((1, true))).is_ok());
}

#[test]
fn benchmarks_need_server_evidence() {
    let mut installation = LlamaInstallation {
        id: "i".into(),
        name: "n".into(),
        root_path: "/opt/llama".into(),
        server: None,
        bench: None,
        fit_params: None,
        backend: None,
        capabilities: Vec::new(),
        discovered_at_unix_ms: 0,
    };
    assert_eq!(require_benchmark_server(&installation), Err(RouterSwitchBenchmarkError::MissingServerEvidence));
    installation.server = Some(ToolEvidence {
        path: "/opt/llama/llama-server".into(),
        sha256: "ab".into(),
        version_output: String::new(),
        help_output: String::new(),
        device_output: String::new(),
    });
    assert!(require_benchmark_server(&installation).is_ok());
}

#[test]
fn stream_verdict_needs_headers_a_token_and_timings() {
    let scan = |first_token: bool, final_event: Option<&str>| SseScan {
        event_count: 2,
        first_token,
        final_event: final_event.map(|s| s.to_string()),
    };
    assert_eq!(stream_verdict(false, &scan(true, Some("{}"))), Err(StreamingInferenceProbeError::MissingHeaders));
    assert_eq!(stream_verdict(true, &scan(false, Some("{}"))), Err(StreamingInferenceProbeError::MissingFirstToken));
    assert_eq!(stream_verdict(true, &scan(true, None)), Err(StreamingInferenceProbeError::MissingTimings));
    assert_eq!(stream_verdict(true, &scan(true, Some("{\"timings\":{}}"))), Ok("{\"timings\":{}}".to_string()));
}

#[test]
fn fallback_control_reads_stop_at_the_declared_length() {
    let complete = b"HTTP/1.1 200 OK\r\nContent-Length: 2\r\n\r\nok";
    assert_eq!(fallback_read_step(complete), Ok(true));
    assert_eq!(fallback_read_step(&complete[..complete.len() - 1]), Ok(false));
    assert_eq!(fallback_read_step(b"HTTP/1.1 200 OK\r\n\r\nok"), Ok(false));
    let huge = vec![b'a'; 1_048_577];
    assert_eq!(fallback_read_step(&huge), Err("control response exceeded 1048576 bytes".to_string()));
}

#[test]
fn fallback_control_responses_are_split_and_truncated() {
    assert_eq!(
        finish_fallback_response(b"HTTP/1.1 200 OK\r\nContent-Length: 5\r\n\r\nhello world"),
        Ok((200, b"hello".to_vec()))
    );
    assert_eq!(finish_fallback_response(b"HTTP/1.1 404 Not Found\r\n\r\nmissing"), Ok((404, b"missing".to_vec())));
    assert_eq!(
        finish_fallback_response(b"HTTP/1.1 200 OK\r\n"),
        Err("control response ended before HTTP headers completed".to_string())
    );
    assert_eq!(
        finish_fallback_response(b"garbage\r\n\r\n"),
        Err("control response returned an invalid HTTP status line".to_string())
    );
}

#[test]
fn library_identity_needs_exactly_one_matching_record() {
    let records = vec![
        record("a", "/models/a.gguf", "AAAA"),
        record("b", "/models/b.gguf", "BBBB"),
        record("c", "/models/c.gguf", "bbbb"),
    ];
    assert_eq!(resolve_by_evidence(&model("m", Some("/models/a.gguf"), None, &[]), &records), Ok(0));
    assert_eq!(
        resolve_by_evidence(&model("m", None, None, &["--model", "/models/c.gguf"]), &records),
        Ok(2)
    );
    assert_eq!(
        resolve_by_evidence(&model("m", None, Some("bBbB"), &[]), &records),
        Err(RouterOperationError::ModelIdentityAmbiguous { model: "m".into(), candidates: vec!["b".into(), "c".into()] })
    );
    assert_eq!(
        resolve_by_evidence(&model("m", Some("/elsewhere.gguf"), None, &[]), &records),
        Err(RouterOperationError::ModelIdentityUnproven { model: "m".into() })
    );
}

#[test]
fn compatibility_gate_blocks_all_but_compatible_models() {
    let reasons = vec![("context".to_string(), "fits".to_string()), ("backend".to_string(), "cuda".to_string())];
    let ok = compatibility_gate("router-m", "lib-m".into(), CompatibilityStatus::Compatible, &reasons).unwrap();
    assert_eq!(ok.model_id, "lib-m");
    assert_eq!(ok.status, CompatibilityStatus::Compatible);
    assert_eq!(ok.reasons, vec!["context: fits".to_string(), "backend: cuda".to_string()]);
    assert_eq!(
        compatibility_gate("router-m", "lib-m".into(), CompatibilityStatus::Unknown, &reasons),
        Err(RouterOperationError::CompatibilityBlocked {
            model: "router-m".into(),
            status: CompatibilityStatus::Unknown,
            reasons: vec!["context: fits".into(), "backend: cuda".into()],
        })
    );
}

#[test]
fn active_requests_count_only_when_observed() {
    let entry = |active: EvidenceValue<u64>| RouterModelObservability {
        model: model("m", None, None, &[]),
        residency: EvidenceValue::unavailable("absent".into()),
        active_requests: active,
        last_used_ms: EvidenceValue::unavailable("absent".into()),
        lru_rank: EvidenceValue::unavailable("absent".into()),
        evictable: EvidenceValue::unavailable("absent".into()),
    };
    assert!(!any_active_requests_observed(&Vec::new()));
    assert!(!any_active_requests_observed(&vec![entry(EvidenceValue::unavailable("absent".into()))]));
    assert!(any_active_requests_observed(&vec![
        entry(EvidenceValue::unavailable("absent".into())),
        entry(EvidenceValue::observed(0, "router field")),
    ]));
}
