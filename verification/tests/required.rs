use llamamanager::installation::{LlamaInstallation, ToolEvidence};
use llamamanager::probe_router::{select_router_child, RouterChildCandidate};
use llamamanager::router::RouterStaticCapabilities;
use llamamanager::streaming_probe::{
    parse_content_length, percent_encode_query, select_loaded_router_model, RouterModelCandidate,
    StreamingInferenceProbeError,
};
use llamamanager::telemetry_history::{CounterObservation, CounterPolicy, CounterTracker};

#[test]
fn static_capabilities_do_not_use_union_capabilities_as_server_authority() {
    let installation = LlamaInstallation {
        id: "test".into(),
        name: "test".into(),
        root_path: ".".into(),
        server: Some(ToolEvidence {
            path: "llama-server".into(),
            sha256: "abc".into(),
            version_output: "version".into(),
            help_output: "--models-preset X --models-max N --models-autoload".into(),
            device_output: String::new(),
        }),
        bench: None,
        fit_params: None,
        backend: None,
        capabilities: vec!["--models-dir".into()],
        discovered_at_unix_ms: 0,
    };

    let evidence = RouterStaticCapabilities::from_installation(&installation);
    assert!(evidence.router_cli_observed);
    assert!(!evidence.models_dir);
    assert!(evidence.models_preset);
    assert!(evidence.models_max);
    assert!(evidence.models_autoload);
}

#[test]
fn router_multiple_loaded_models_selects_unique_most_recent() {
    assert_eq!(
        select_loaded_router_model(vec![
            RouterModelCandidate {
                id: "older".into(),
                last_used: Some(10),
            },
            RouterModelCandidate {
                id: "newer".into(),
                last_used: Some(20),
            },
        ])
        .unwrap(),
        "newer"
    );
}

#[test]
fn router_multiple_loaded_models_without_recency_is_truthfully_ambiguous() {
    assert_eq!(
        select_loaded_router_model(vec![
            RouterModelCandidate {
                id: "a".into(),
                last_used: None,
            },
            RouterModelCandidate {
                id: "b".into(),
                last_used: None,
            },
        ])
        .unwrap_err(),
        StreamingInferenceProbeError::AmbiguousRouterModels { count: 2 }
    );
}

#[test]
fn router_model_names_are_percent_encoded_for_slot_query() {
    assert_eq!(percent_encode_query("Qwen/3.8:27B A"), "Qwen%2F3.8%3A27B%20A");
}

#[test]
fn content_length_parser_is_case_insensitive() {
    assert_eq!(
        parse_content_length(b"HTTP/1.1 200 OK\r\ncontent-length: 42\r\n"),
        Some(42)
    );
}

#[test]
fn unique_most_recent_model_is_selected_for_fallback() {
    let selected = select_router_child(vec![
        RouterChildCandidate {
            id: "old".to_owned(),
            last_used: Some(10),
            child_port: Some(5001),
        },
        RouterChildCandidate {
            id: "new".to_owned(),
            last_used: Some(20),
            child_port: Some(5002),
        },
    ])
    .unwrap();
    assert_eq!(selected.id, "new");
    assert_eq!(selected.child_port, Some(5002));
}

#[test]
fn counter_tracker_reports_reset_instead_of_negative_delta() {
    let mut tracker = CounterTracker::new(CounterPolicy::monotonic());
    assert_eq!(tracker.observe(100), CounterObservation::First { value: 100 });
    assert_eq!(tracker.observe(120), CounterObservation::Delta { delta: 20 });
    assert_eq!(
        tracker.observe(5),
        CounterObservation::Reset {
            previous: 120,
            current: 5
        }
    );
}

#[test]
fn counter_tracker_can_handle_known_wrap_modulus() {
    let mut tracker = CounterTracker::new(CounterPolicy::wrapping(255));
    assert_eq!(tracker.observe(250), CounterObservation::First { value: 250 });
    assert_eq!(tracker.observe(3), CounterObservation::Wrapped { delta: 9 });
}
