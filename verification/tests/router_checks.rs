use llamamanager::json::{JsonNumber, JsonValue};
use llamamanager::router::{
    ensure_success, excerpt, exact_path_link, json_request, models_from_response, no_evidence_link,
    parse_models, parse_role, phase_from_text, read_router_response, require_server_evidence,
    role_from_props, sha256_link, RawHttpResponse, RouterDiscoveryError, RouterEndpointCapabilities,
    RouterFeatureEvidence, RouterFeatureState, RouterLibraryLink, RouterLibraryLinkKind, RouterModel,
    RouterModelPhase, RouterModelStatus, RouterRegistry, RouterRole, RouterStaticCapabilities,
};
use llamamanager::router_operations::{
    cancelled_outcome, check_switch_target, ensure_mutation_success, ensure_success_json,
    model_request_body, needs_load, needs_source_unload, needs_unload, operation_transport,
    phase_debug_text, registry_model, require_router, switch_step, wait_progress_message, wait_step,
    RouterOperationController, RouterOperationError, RouterOperationKind, RouterOperationState,
    SwitchAction, SwitchStage, WaitStep,
};
use llamamanager::server_readiness::ServerEndpoint;


/// A `serde_json` value as the library's value tree.
fn json_tree(v: &serde_json::Value) -> JsonValue {
    match v {
        serde_json::Value::Null => JsonValue::Null,
        serde_json::Value::Bool(b) => JsonValue::Bool(*b),
        serde_json::Value::Number(n) => {
            JsonValue::Number(JsonNumber { text: n.to_string(), as_i64: n.as_i64(), as_u64: n.as_u64() })
        }
        serde_json::Value::String(s) => JsonValue::String(s.clone()),
        serde_json::Value::Array(a) => JsonValue::Array(a.iter().map(json_tree).collect()),
        serde_json::Value::Object(o) => JsonValue::Object(o.iter().map(|(k, x)| (k.clone(), json_tree(x))).collect()),
    }
}

/// A JSON text as the library's value tree, read with `serde_json`.
fn parse_json(text: &str) -> Result<JsonValue, String> {
    serde_json::from_str::<serde_json::Value>(text).map(|v| json_tree(&v)).map_err(|e| e.to_string())
}

fn model(id: &str, aliases: &[&str], phase: RouterModelPhase, failed: bool) -> RouterModel {
    let mut targets = vec![id.to_string()];
    for a in aliases {
        targets.push(a.to_string());
    }
    RouterModel {
        id: id.into(),
        routing_targets: targets,
        path: None,
        sha256: None,
        status: RouterModelStatus {
            phase,
            failed,
            exit_code: if failed { Some(-3) } else { None },
            args: Vec::new(),
            progress: None,
        },
        resident: None,
        input_modalities: Vec::new(),
        output_modalities: Vec::new(),
        library_link: RouterLibraryLink::unmatched("fixture"),
    }
}

fn registry(role: RouterRole, models: Vec<RouterModel>) -> RouterRegistry {
    let f = |s: RouterFeatureState| RouterFeatureEvidence { state: s, reason: "t".into() };
    RouterRegistry {
        endpoint: "127.0.0.1:8080".into(),
        role,
        static_capabilities: RouterStaticCapabilities {
            server_sha256: None,
            server_version: None,
            router_cli_observed: false,
            models_dir: false,
            models_preset: false,
            models_max: false,
            models_autoload: false,
            observed_options: Vec::new(),
        },
        endpoints: RouterEndpointCapabilities {
            props: f(RouterFeatureState::Supported),
            list_models: f(RouterFeatureState::Supported),
            reload_models: f(RouterFeatureState::Unknown),
            load_model: f(RouterFeatureState::Unknown),
            unload_model: f(RouterFeatureState::Unknown),
            model_events: f(RouterFeatureState::Unknown),
        },
        models,
        observed_at_unix_ms: 7,
    }
}

fn response(status_code: u16, body: &str) -> RawHttpResponse {
    RawHttpResponse { status_code, body: body.into() }
}

#[test]
fn discovery_statuses_are_classified() {
    assert_eq!(ensure_success("/props", &response(204, "")), Ok(()));
    assert_eq!(
        ensure_success("/props", &response(401, "no")),
        Err(RouterDiscoveryError::AuthenticationRejected { path: "/props".into(), status_code: 401 })
    );
    assert_eq!(
        ensure_success("/models", &response(405, "")),
        Err(RouterDiscoveryError::EndpointUnsupported { path: "/models".into(), status_code: 405 })
    );
    assert_eq!(
        ensure_success("/models", &response(500, "boom")),
        Err(RouterDiscoveryError::HttpFailure {
            path: "/models".into(),
            status_code: 500,
            body_excerpt: "boom".into(),
        })
    );
}

#[test]
fn body_excerpt_keeps_the_first_4096_characters() {
    let long: String = std::iter::repeat('é').take(5000).collect();
    let e = excerpt(&long);
    assert_eq!(e.chars().count(), 4096);
    assert_eq!(excerpt("short"), "short");
}

#[test]
fn discovery_error_messages_match_their_display_text() {
    assert_eq!(
        RouterDiscoveryError::MissingServerEvidence.message(),
        "selected llama.cpp installation does not contain llama-server evidence"
    );
    assert_eq!(
        RouterDiscoveryError::EndpointUnsupported { path: "/models".into(), status_code: 404 }.message(),
        "router endpoint /models is unavailable on this runtime (HTTP 404)"
    );
    assert_eq!(
        RouterDiscoveryError::ProtocolDrift {
            path: "/props".into(),
            message: "m".into(),
            body_excerpt: "b".into(),
        }
        .message(),
        "router protocol drift at /props: m; response=b"
    );
}

#[test]
fn props_role_is_read_from_the_role_field() {
    assert_eq!(parse_role(r#"{"role":"router"}"#), Ok(RouterRole::Router));
    assert_eq!(parse_role(r#"{"role":"single_model"}"#), Ok(RouterRole::SingleModel));
    assert_eq!(
        parse_role(r#"{"role":"pilot"}"#),
        Err(RouterDiscoveryError::ProtocolDrift {
            path: "/props".into(),
            message: "unrecognized role `pilot`".into(),
            body_excerpt: r#"{"role":"pilot"}"#.into(),
        })
    );
    assert_eq!(
        parse_role("{}"),
        Err(RouterDiscoveryError::ProtocolDrift {
            path: "/props".into(),
            message: "expected string field `role`".into(),
            body_excerpt: "{}".into(),
        })
    );
    match parse_role("not json") {
        Err(RouterDiscoveryError::ProtocolDrift { path, message, .. }) => {
            assert_eq!(path, "/props");
            assert!(message.starts_with("response was not valid JSON: "));
        }
        other => panic!("unexpected {other:?}"),
    }
}

#[test]
fn props_status_is_checked_before_the_body() {
    assert_eq!(
        role_from_props(&response(403, "not json")),
        Err(RouterDiscoveryError::AuthenticationRejected { path: "/props".into(), status_code: 403 })
    );
    assert_eq!(role_from_props(&response(200, r#"{"role":"model"}"#)), Ok(RouterRole::SingleModel));
}

#[test]
fn models_listing_is_read_in_order() {
    let models = parse_models(
        r#"{"data":[{"id":"a","status":"loaded"},{"id":"b","status":{"value":"sleeping"}}]}"#,
    )
    .unwrap();
    assert_eq!(models.len(), 2);
    assert_eq!(models[0].id, "a");
    assert_eq!(models[0].status.phase, RouterModelPhase::Loaded);
    assert_eq!(models[1].status.phase, RouterModelPhase::Sleeping);
    assert!(matches!(
        models_from_response(&response(404, "")),
        Err(RouterDiscoveryError::EndpointUnsupported { .. })
    ));
    assert!(matches!(parse_models("[1]"), Err(RouterDiscoveryError::ProtocolDrift { .. })));
}

#[test]
fn phase_text_names_known_phases_and_keeps_others() {
    assert_eq!(phase_from_text(Some("loading")), RouterModelPhase::Loading);
    assert_eq!(phase_from_text(Some("odd")), RouterModelPhase::Unknown("odd".into()));
    assert_eq!(phase_from_text(None), RouterModelPhase::Unknown("missing".into()));
}

#[test]
fn raw_router_response_is_split_into_status_and_body() {
    let r = read_router_response(b"HTTP/1.1 200 OK\r\nX: y\r\n\r\n{\"a\":1}", "/models").unwrap();
    assert_eq!(r.status_code, 200);
    assert_eq!(r.body, "{\"a\":1}");
    assert_eq!(
        read_router_response(b"", "/models"),
        Err(RouterDiscoveryError::Transport { path: "/models".into(), message: "empty HTTP response".into() })
    );
    assert_eq!(
        read_router_response(b"garbage\r\n\r\n", "/props"),
        Err(RouterDiscoveryError::Transport {
            path: "/props".into(),
            message: "invalid HTTP status line: garbage".into(),
        })
    );
}

#[test]
fn json_request_carries_length_and_key() {
    let endpoint = ServerEndpoint {
        host: "127.0.0.1".into(),
        port: 8080,
        api_key: Some("k".into()),
        allow_non_loopback: false,
    };
    let text = json_request(&endpoint, "POST", "/models/load", Some("{}"));
    assert_eq!(
        text,
        "POST /models/load HTTP/1.1\r\nHost: 127.0.0.1:8080\r\nConnection: close\r\nAccept: application/json\r\nAuthorization: Bearer k\r\nContent-Type: application/json\r\nContent-Length: 2\r\n\r\n{}"
    );
    let get = json_request(&ServerEndpoint::loopback(9), "GET", "/props", None);
    assert_eq!(
        get,
        "GET /props HTTP/1.1\r\nHost: 127.0.0.1:9\r\nConnection: close\r\nAccept: application/json\r\nContent-Length: 0\r\n\r\n"
    );
}

#[test]
fn library_links_follow_the_evidence() {
    let exact = exact_path_link("/m/a.gguf", "lib-a".into());
    assert_eq!(exact.kind, RouterLibraryLinkKind::ExactPath);
    assert_eq!(exact.model_id.as_deref(), Some("lib-a"));
    assert_eq!(exact.reason, "router path exactly matches a persisted M2 model location: /m/a.gguf");
    assert_eq!(sha256_link(vec!["x".into()]).kind, RouterLibraryLinkKind::Sha256);
    assert_eq!(sha256_link(Vec::new()).kind, RouterLibraryLinkKind::Unmatched);
    let ambiguous = sha256_link(vec!["x".into(), "y".into()]);
    assert_eq!(ambiguous.kind, RouterLibraryLinkKind::AmbiguousSha256);
    assert_eq!(ambiguous.model_id, None);
    assert_eq!(ambiguous.candidates.len(), 2);
    assert_eq!(no_evidence_link().kind, RouterLibraryLinkKind::Unmatched);
}

#[test]
fn discovery_needs_server_evidence() {
    let installation = llamamanager::installation::LlamaInstallation {
        id: "i".into(),
        name: "n".into(),
        root_path: "/opt/llama".into(),
        server: None,
        bench: None,
        fit_params: None,
        backend: None,
        capabilities: Vec::new(),
        discovered_at_unix_ms: 0,
    };
    assert_eq!(require_server_evidence(&installation), Err(RouterDiscoveryError::MissingServerEvidence));
}

#[test]
fn controller_refuses_a_second_operation_while_one_runs() {
    let mut controller = RouterOperationController::new();
    assert!(controller.begin(RouterOperationKind::Load, None, Some("a".into())).is_ok());
    assert_eq!(
        controller.begin(RouterOperationKind::Unload, None, None),
        Err(RouterOperationError::Busy { active: RouterOperationKind::Load })
    );
    controller.progress("step".into(), None);
    match controller.state() {
        RouterOperationState::Running(p) => {
            assert_eq!(p.kind, RouterOperationKind::Load);
            assert_eq!(p.message, "step");
        }
        other => panic!("unexpected {other:?}"),
    }
    assert_eq!(
        controller.finish(Err(RouterOperationError::Cancelled), "ignored".into()),
        Err(RouterOperationError::Cancelled)
    );
    match controller.state() {
        RouterOperationState::Cancelled(f) => {
            assert_eq!(f.message, "operation cancelled");
            assert_eq!(f.target_model.as_deref(), Some("a"));
        }
        other => panic!("unexpected {other:?}"),
    }
    assert!(controller.begin(RouterOperationKind::Unload, None, None).is_ok());
    assert_eq!(
        controller.finish(Err(RouterOperationError::NotRouter), "not a router".into()),
        Err(RouterOperationError::NotRouter)
    );
    match controller.state() {
        RouterOperationState::Failed(f) => assert_eq!(f.message, "not a router"),
        other => panic!("unexpected {other:?}"),
    }
}

#[test]
fn finishing_an_idle_controller_changes_nothing() {
    let mut controller = RouterOperationController::new();
    controller.finish_failure(false, "x".into());
    assert!(matches!(controller.state(), RouterOperationState::Idle));
}

#[test]
fn operations_need_a_router_and_find_models_by_alias() {
    let single = registry(RouterRole::SingleModel, Vec::new());
    assert_eq!(require_router(&single), Err(RouterOperationError::NotRouter));
    let reg = registry(RouterRole::Router, vec![model("alpha", &["a"], RouterModelPhase::Loaded, false)]);
    assert_eq!(require_router(&reg), Ok(()));
    assert_eq!(registry_model(&reg, "a").unwrap().id, "alpha");
    assert_eq!(
        registry_model(&reg, "beta").map(|m| m.id.clone()),
        Err(RouterOperationError::ModelNotFound { model: "beta".into() })
    );
}

#[test]
fn control_replies_are_classified() {
    assert_eq!(ensure_mutation_success("/models/load", &response(200, "")), Ok(()));
    assert_eq!(
        ensure_mutation_success("/models/load", &response(403, "")),
        Err(RouterOperationError::AuthenticationRejected { path: "/models/load".into(), status_code: 403 })
    );
    assert_eq!(ensure_success_json("/models/load", &response(200, r#"{"success":true}"#)), Ok(()));
    assert_eq!(
        ensure_success_json("/models/load", &response(200, r#"{"success":false}"#)),
        Err(RouterOperationError::ProtocolDrift {
            path: "/models/load".into(),
            body_excerpt: r#"{"success":false}"#.into(),
        })
    );
    assert!(matches!(
        ensure_success_json("/models/unload", &response(500, "x")),
        Err(RouterOperationError::HttpFailure { status_code: 500, .. })
    ));
}

#[test]
fn model_request_body_escapes_the_name() {
    assert_eq!(model_request_body("a\"b"), "{\"model\":\"a\\\"b\"}");
    assert_eq!(model_request_body("tab\there"), "{\"model\":\"tab\\there\"}");
}

#[test]
fn transport_errors_keep_their_path() {
    assert_eq!(
        operation_transport(RouterDiscoveryError::Transport { path: "/p".into(), message: "m".into() }),
        RouterOperationError::Transport { path: "/p".into(), message: "m".into() }
    );
    assert_eq!(
        operation_transport(RouterDiscoveryError::MissingServerEvidence),
        RouterOperationError::Discovery(RouterDiscoveryError::MissingServerEvidence)
    );
    assert_eq!(cancelled_outcome(true), Err(RouterOperationError::Cancelled));
    assert_eq!(cancelled_outcome(false), Ok(()));
}

#[test]
fn load_and_unload_decisions_follow_the_phase() {
    assert!(needs_load(&model("a", &[], RouterModelPhase::Unloaded, false)));
    assert!(!needs_load(&model("a", &[], RouterModelPhase::Loaded, false)));
    assert!(!needs_unload(&model("a", &[], RouterModelPhase::Unloaded, false)));
    assert!(needs_unload(&model("a", &[], RouterModelPhase::Sleeping, false)));
    let reg = registry(
        RouterRole::Router,
        vec![
            model("a", &[], RouterModelPhase::Loaded, false),
            model("b", &[], RouterModelPhase::Unloaded, false),
        ],
    );
    assert!(needs_source_unload(&reg, "a", "b"));
    assert!(!needs_source_unload(&reg, "b", "a"));
    assert!(!needs_source_unload(&reg, "a", "a"));
}

#[test]
fn waits_report_progress_failure_and_timeout() {
    assert_eq!(phase_debug_text(&RouterModelPhase::Unknown("x".into())), "Unknown(\"x\")");
    assert_eq!(
        wait_progress_message("a", &RouterModelPhase::Loading, "loaded"),
        "a: observed Loading; waiting for loaded"
    );
    let loading = model("a", &[], RouterModelPhase::Loading, false);
    assert_eq!(wait_step("a", &loading, false, false, "loaded"), Ok(WaitStep::Continue));
    assert_eq!(wait_step("a", &loading, true, true, "loaded"), Ok(WaitStep::Reached));
    assert_eq!(
        wait_step("a", &loading, false, true, "loaded"),
        Err(RouterOperationError::Timeout {
            model: "a".into(),
            expected: "loaded".into(),
            last_phase: "Loading".into(),
        })
    );
    let failed = model("a", &[], RouterModelPhase::Unloaded, true);
    assert_eq!(
        wait_step("a", &failed, true, false, "loaded"),
        Err(RouterOperationError::Reconciliation {
            message: "router model a entered failed state while waiting for loaded; exit_code=Some(-3)".into(),
        })
    );
}

#[test]
fn switch_must_leave_the_target_ready() {
    let reg = registry(RouterRole::Router, vec![model("b", &[], RouterModelPhase::Loading, false)]);
    assert_eq!(
        check_switch_target(&reg, "b"),
        Err(RouterOperationError::Reconciliation {
            message: "switch did not leave target b ready; observed Loading, failed=false".into(),
        })
    );
    let ready = registry(RouterRole::Router, vec![model("b", &[], RouterModelPhase::Sleeping, false)]);
    assert_eq!(check_switch_target(&ready, "b"), Ok(()));
    assert_eq!(
        check_switch_target(&ready, "c"),
        Err(RouterOperationError::ModelNotFound { model: "c".into() })
    );
}

#[test]
fn parsed_json_reads_members() {
    let v = parse_json(r#"{"a":{"b":[1,"x"]}}"#).unwrap();
    let inner = v.get("a").unwrap().get("b").unwrap().as_array().unwrap();
    assert_eq!(inner[0].as_u64(), Some(1));
    assert_eq!(inner[1].as_str(), Some("x"));
    assert!(matches!(
        models_from_response(&response(200, "{")),
        Err(RouterDiscoveryError::ProtocolDrift { .. })
    ));
}

#[test]
fn switch_loads_the_target_before_unloading_the_source() {
    let cold = registry(
        RouterRole::Router,
        vec![
            model("a", &[], RouterModelPhase::Loaded, false),
            model("b", &[], RouterModelPhase::Unloaded, false),
        ],
    );
    assert_eq!(
        switch_step(SwitchStage::TargetChecked, &cold, "a", "b"),
        Ok((SwitchStage::TargetReady, SwitchAction::LoadTarget))
    );
    let warm = registry(
        RouterRole::Router,
        vec![
            model("a", &[], RouterModelPhase::Loaded, false),
            model("b", &[], RouterModelPhase::Loaded, false),
        ],
    );
    assert_eq!(
        switch_step(SwitchStage::TargetReady, &warm, "a", "b"),
        Ok((SwitchStage::SourceReleased, SwitchAction::UnloadSource))
    );
    assert_eq!(
        switch_step(SwitchStage::TargetChecked, &warm, "a", "b"),
        Ok((SwitchStage::SourceReleased, SwitchAction::UnloadSource))
    );
    let released = registry(
        RouterRole::Router,
        vec![
            model("a", &[], RouterModelPhase::Unloaded, false),
            model("b", &[], RouterModelPhase::Loaded, false),
        ],
    );
    assert_eq!(
        switch_step(SwitchStage::TargetReady, &released, "a", "b"),
        Ok((SwitchStage::SourceReleased, SwitchAction::VerifyTarget))
    );
    assert_eq!(
        switch_step(SwitchStage::SourceReleased, &cold, "a", "b"),
        Ok((SwitchStage::SourceReleased, SwitchAction::VerifyTarget))
    );
    assert_eq!(
        switch_step(SwitchStage::TargetChecked, &warm, "a", "a"),
        Ok((SwitchStage::SourceReleased, SwitchAction::VerifyTarget))
    );
    assert_eq!(
        switch_step(SwitchStage::TargetChecked, &warm, "a", "zzz"),
        Err(RouterOperationError::ModelNotFound { model: "zzz".into() })
    );
}
