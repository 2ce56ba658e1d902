use llamamanager::server_logs::{ServerLifecyclePhase, ServerLifecycleTracker};
use llamamanager::server_process::{ManagedProcessIdentity, ProcessExitEvidence, ProcessExitKind};
use llamamanager::server_readiness::{
    HealthCapabilityEvidence, HttpProbeEvidence, ProbePhase, ServerReadinessError, ServerReadinessEvidence,
};
use llamamanager::server_start::{
    may_start, settle_readiness, validate_launch_form, LaunchFormValues, ServerOperation,
};
use llamamanager::telemetry_overhead::nearest_rank_index;

fn starting_tracker() -> ServerLifecycleTracker {
    let mut tracker = ServerLifecycleTracker::default();
    tracker.mark_starting(ManagedProcessIdentity { pid: 7, executable: "llama-server".into(), started_at_unix_ms: 1 });
    tracker
}

fn probe(path: &str, status_code: u16) -> HttpProbeEvidence {
    HttpProbeEvidence {
        method: "GET".into(),
        path: path.into(),
        status_code,
        body_excerpt: String::new(),
        observed_at_unix_ms: 1,
    }
}

#[test]
fn a_start_needs_an_idle_operation_and_no_owned_process() {
    assert!(may_start(false, ServerOperation::Idle));
    assert!(!may_start(true, ServerOperation::Idle));
    assert!(!may_start(false, ServerOperation::Starting));
    assert!(!may_start(false, ServerOperation::Stopping));
}

#[test]
fn launch_form_trims_and_checks_host_port_and_key() {
    assert_eq!(
        validate_launch_form(" 127.0.0.1 ", " 8080 ", "  key-1 "),
        Ok(LaunchFormValues { host: "127.0.0.1".into(), port: 8080, api_key: Some("key-1".into()) })
    );
    assert_eq!(
        validate_launch_form("localhost", "+65535", "   "),
        Ok(LaunchFormValues { host: "localhost".into(), port: 65535, api_key: None })
    );
    assert_eq!(validate_launch_form("  ", "8080", ""), Err("Host cannot be empty.".to_string()));
    assert_eq!(
        validate_launch_form("h", "65536", ""),
        Err("Port must be an integer in 1..=65535.".to_string())
    );
    assert_eq!(validate_launch_form("h", "-1", ""), Err("Port must be an integer in 1..=65535.".to_string()));
    assert_eq!(validate_launch_form("h", "", ""), Err("Port must be an integer in 1..=65535.".to_string()));
    assert_eq!(validate_launch_form("h", "0", ""), Err("Port must be in 1..=65535.".to_string()));
}

#[test]
fn readiness_marks_the_server_ready_and_keeps_it_owned() {
    let mut tracker = starting_tracker();
    let evidence = ServerReadinessEvidence {
        endpoint: "127.0.0.1:8080".into(),
        health: HealthCapabilityEvidence::Healthy(probe("/health", 200)),
        inference: probe("/completion", 200),
        attempts: 2,
        elapsed_ms: 40,
        authenticated: false,
    };
    let r = settle_readiness(&mut tracker, ServerOperation::Starting, true, Ok(evidence), String::new());
    assert_eq!(r, (ServerOperation::Idle, true));
    assert_eq!(tracker.snapshot().phase, ServerLifecyclePhase::Ready);
    assert_eq!(tracker.snapshot().process.as_ref().map(|p| p.pid), Some(7));
}

#[test]
fn an_exit_before_readiness_releases_the_process() {
    let mut tracker = starting_tracker();
    let exit = ProcessExitEvidence { code: Some(3), kind: ProcessExitKind::Natural, observed_at_unix_ms: 5 };
    let r = settle_readiness(
        &mut tracker,
        ServerOperation::Starting,
        true,
        Err(ServerReadinessError::ProcessExited { evidence: exit.clone() }),
        String::new(),
    );
    assert_eq!(r, (ServerOperation::Idle, false));
    assert_eq!(tracker.snapshot().phase, ServerLifecyclePhase::Crashed);
    assert_eq!(tracker.snapshot().last_exit, Some(exit));
}

#[test]
fn a_cancelled_wait_leaves_the_lifecycle_to_the_stop() {
    let mut tracker = starting_tracker();
    tracker.mark_stopping();
    let r = settle_readiness(
        &mut tracker,
        ServerOperation::Stopping,
        true,
        Err(ServerReadinessError::Cancelled),
        String::new(),
    );
    assert_eq!(r, (ServerOperation::Stopping, true));
    assert_eq!(tracker.snapshot().phase, ServerLifecyclePhase::Stopping);
}

#[test]
fn other_readiness_errors_mark_the_start_failed() {
    let mut tracker = starting_tracker();
    let r = settle_readiness(
        &mut tracker,
        ServerOperation::Starting,
        true,
        Err(ServerReadinessError::Timeout { phase: ProbePhase::Health, elapsed_ms: 30000, last_status: None }),
        "readiness timed out".into(),
    );
    assert_eq!(r, (ServerOperation::Idle, true));
    assert_eq!(tracker.snapshot().phase, ServerLifecyclePhase::Failed);
    assert_eq!(tracker.snapshot().detail.as_deref(), Some("readiness timed out"));
}

#[test]
fn nearest_rank_picks_the_ninety_fifth_percentile() {
    assert_eq!(nearest_rank_index(1, 95), 0);
    assert_eq!(nearest_rank_index(10, 95), 9);
    assert_eq!(nearest_rank_index(20, 95), 18);
    assert_eq!(nearest_rank_index(21, 95), 19);
    assert_eq!(nearest_rank_index(100, 95), 94);
    assert_eq!(nearest_rank_index(5, 0), 0);
    assert_eq!(nearest_rank_index(5, 100), 4);
}
