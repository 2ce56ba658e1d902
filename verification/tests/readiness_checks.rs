use llamamanager::server_process::{ProcessExitEvidence, ProcessExitKind};
use llamamanager::server_readiness::{
    attempt_error, build_http_request, check_endpoint_port, check_resolved_addresses,
    health_after_path, health_verdict, inference_outcome, parse_http_response, readiness_evidence,
    require_port_available, AttemptError, HealthCapabilityEvidence, HealthVerdict,
    HttpProbeEvidence, InferenceProbe, PortAvailability, ProbePhase, ReadinessPolicy,
    ReadinessWait, ServerEndpoint, ServerReadinessError,
};

fn evidence(path: &str, status_code: u16, body: &str) -> HttpProbeEvidence {
    HttpProbeEvidence {
        method: "GET".into(),
        path: path.into(),
        status_code,
        body_excerpt: body.into(),
        observed_at_unix_ms: 1,
    }
}

#[test]
fn port_check_result_decides_the_start() {
    let endpoint = ServerEndpoint::loopback(8080);
    assert_eq!(require_port_available(&endpoint, Ok(PortAvailability::Available)), Ok(()));
    assert_eq!(
        require_port_available(&endpoint, Ok(PortAvailability::InUse)),
        Err(ServerReadinessError::PortInUse { host: "127.0.0.1".into(), port: 8080 })
    );
    assert_eq!(
        require_port_available(&endpoint, Err(ServerReadinessError::InvalidPort)),
        Err(ServerReadinessError::InvalidPort)
    );
    assert_eq!(check_endpoint_port(&ServerEndpoint::loopback(0)), Err(ServerReadinessError::InvalidPort));
}

#[test]
fn resolved_addresses_must_exist_and_stay_local_without_opt_in() {
    let mut endpoint = ServerEndpoint::loopback(80);
    endpoint.host = "example.org".into();
    assert_eq!(
        check_resolved_addresses(&endpoint, 0, false),
        Err(ServerReadinessError::HostResolution {
            host: "example.org".into(),
            message: "host resolved to no addresses".into(),
        })
    );
    assert_eq!(
        check_resolved_addresses(&endpoint, 1, true),
        Err(ServerReadinessError::NonLoopbackDenied { host: "example.org".into() })
    );
    endpoint.allow_non_loopback = true;
    assert_eq!(check_resolved_addresses(&endpoint, 1, true), Ok(()));
}

#[test]
fn probe_request_brackets_ipv6_hosts() {
    let endpoint = ServerEndpoint {
        host: "::1".into(),
        port: 8081,
        api_key: None,
        allow_non_loopback: false,
    };
    assert_eq!(endpoint.authority(), "[::1]:8081");
    assert_eq!(
        build_http_request(&endpoint, "GET", "/health", ""),
        "GET /health HTTP/1.1\r\nHost: [::1]:8081\r\nConnection: close\r\nAccept: application/json\r\nContent-Length: 0\r\n\r\n"
    );
}

#[test]
fn probe_reply_is_read_into_evidence() {
    let e = parse_http_response("GET", "/health", b"HTTP/1.1 200 OK\r\n\r\n{\"status\":\"ok\"}").unwrap();
    assert_eq!(e.status_code, 200);
    assert_eq!(e.body_excerpt, "{\"status\":\"ok\"}");
    assert_eq!(
        parse_http_response("GET", "/health", b""),
        Err(ServerReadinessError::Transport { path: "/health".into(), message: "empty HTTP response".into() })
    );
    let long = format!("HTTP/1.1 200 OK\r\n\r\n{}", "x".repeat(9000));
    let e = parse_http_response("GET", "/health", long.as_bytes()).unwrap();
    assert_eq!(e.body_excerpt.chars().count(), 8192);
}

#[test]
fn transport_failures_are_retried_and_others_end_the_wait() {
    assert_eq!(
        attempt_error(ServerReadinessError::Transport { path: "/h".into(), message: "m".into() }),
        AttemptError::Retry(None)
    );
    assert_eq!(
        attempt_error(ServerReadinessError::Cancelled),
        AttemptError::Fatal(ServerReadinessError::Cancelled)
    );
}

#[test]
fn health_answers_are_classified() {
    assert_eq!(health_verdict(&evidence("/health", 200, "")), HealthVerdict::Healthy);
    assert_eq!(health_verdict(&evidence("/health", 404, "")), HealthVerdict::Unsupported);
    assert_eq!(health_verdict(&evidence("/health", 503, "")), HealthVerdict::Failed(AttemptError::Retry(Some(503))));
    assert_eq!(
        health_verdict(&evidence("/health", 401, "")),
        HealthVerdict::Failed(AttemptError::Fatal(ServerReadinessError::AuthenticationRejected {
            phase: ProbePhase::Health,
            status_code: 401,
        }))
    );
    assert_eq!(
        health_verdict(&evidence("/health", 302, "")),
        HealthVerdict::Failed(AttemptError::Fatal(ServerReadinessError::HealthRejected {
            path: "/health".into(),
            status_code: 302,
        }))
    );
}

#[test]
fn unsupported_health_paths_are_collected() {
    let mut unsupported = Vec::new();
    assert_eq!(health_after_path(&mut unsupported, evidence("/health", 404, "")), None);
    assert_eq!(unsupported.len(), 1);
    let healthy = evidence("/v1/models", 200, "{}");
    assert_eq!(
        health_after_path(&mut unsupported, healthy.clone()),
        Some(Ok(HealthCapabilityEvidence::Healthy(healthy)))
    );
    assert_eq!(unsupported.len(), 1);
}

#[test]
fn inference_answers_need_their_markers() {
    let probe = InferenceProbe::llama_cpp_native_completion();
    let good = evidence("/completion", 200, "{\"content\":\"OK\"}");
    assert_eq!(inference_outcome(&probe, good.clone()), Ok(good));
    assert_eq!(
        inference_outcome(&probe, evidence("/completion", 200, "{}")),
        Err(AttemptError::Fatal(ServerReadinessError::InferenceRejected {
            status_code: Some(200),
            reason: "successful HTTP response lacked required evidence markers".into(),
        }))
    );
    assert_eq!(
        inference_outcome(&probe, evidence("/completion", 400, "")),
        Err(AttemptError::Fatal(ServerReadinessError::InferenceRejected {
            status_code: Some(400),
            reason: "HTTP 400 from /completion".into(),
        }))
    );
    assert_eq!(inference_outcome(&probe, evidence("/completion", 502, "")), Err(AttemptError::Retry(Some(502))));
}

#[test]
fn readiness_wait_times_out_with_its_last_observation() {
    let policy = ReadinessPolicy::default();
    let mut wait = ReadinessWait::new(&policy);
    assert_eq!(wait.backoff_ms, 50);
    assert_eq!(wait.begin_attempt(false, Ok(None), 10, 100), Ok(()));
    assert_eq!(wait.attempts, 1);
    wait.enter_inference();
    wait.record_retry(Some(503));
    assert_eq!(
        wait.begin_attempt(false, Ok(None), 100, 100),
        Err(ServerReadinessError::Timeout {
            phase: ProbePhase::Inference,
            elapsed_ms: 100,
            last_status: Some(503),
        })
    );
    assert_eq!(wait.begin_attempt(true, Ok(None), 0, 100), Err(ServerReadinessError::Cancelled));
    let exit = ProcessExitEvidence { code: Some(1), kind: ProcessExitKind::Natural, observed_at_unix_ms: 3 };
    assert_eq!(
        wait.begin_attempt(false, Ok(Some(exit.clone())), 0, 100),
        Err(ServerReadinessError::ProcessExited { evidence: exit })
    );
    assert_eq!(
        wait.begin_attempt(false, Err("gone".into()), 0, 100),
        Err(ServerReadinessError::Transport { path: "<process-state>".into(), message: "gone".into() })
    );
    assert_eq!(wait.attempts, 1);
}

#[test]
fn backoff_doubles_up_to_the_cap() {
    let mut wait = ReadinessWait::new(&ReadinessPolicy::default());
    let mut seen = Vec::new();
    for _ in 0..6 {
        seen.push(wait.backoff_ms);
        wait.advance_backoff();
    }
    assert_eq!(seen, vec![50, 100, 200, 400, 500, 500]);
    assert_eq!(wait.pause_ms(30), 30);
    assert_eq!(wait.pause_ms(0), 0);
    let zero = ReadinessPolicy { initial_backoff_ms: 0, max_backoff_ms: 0, ..ReadinessPolicy::default() };
    let w = ReadinessWait::new(&zero);
    assert_eq!((w.backoff_ms, w.max_backoff_ms), (1, 1));
}

#[test]
fn readiness_evidence_names_the_endpoint() {
    let mut endpoint = ServerEndpoint::loopback(9000);
    endpoint.api_key = Some("secret".into());
    let health = HealthCapabilityEvidence::UnsupportedObserved(Vec::new());
    let r = readiness_evidence(&endpoint, health, evidence("/completion", 200, ""), 3, 40);
    assert_eq!(r.endpoint, "127.0.0.1:9000");
    assert!(r.authenticated);
    assert_eq!(r.attempts, 3);
}
