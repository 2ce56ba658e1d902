use llamamanager::installation::{LlamaInstallation, ToolEvidence};
use llamamanager::server_command::{
    build_server_launch_spec, insert_environment_variable, ServerCommandError, ServerEnvironmentValue,
    ServerLaunchSettings,
};
use llamamanager::server_logs::{
    redact_text, ServerLifecyclePhase, ServerLifecycleTracker, ServerLogBuffer, ServerLogStream,
};
use llamamanager::server_process::{ManagedProcessIdentity, ProcessExitEvidence, ProcessExitKind};

fn installation(help: &str) -> LlamaInstallation {
    let root = String::from(r"C:\llama cpp 外部 build");
    LlamaInstallation {
        id: "runtime-1".into(),
        name: "runtime".into(),
        root_path: root.clone(),
        server: Some(ToolEvidence {
            path: format!(r"{root}\bin\llama-server.exe"),
            sha256: "a".repeat(64),
            version_output: "version".into(),
            help_output: help.into(),
            device_output: "CPU".into(),
        }),
        bench: None,
        fit_params: None,
        backend: Some("CPU".into()),
        capabilities: Vec::new(),
        discovered_at_unix_ms: 1,
    }
}

#[test]
fn typed_spec_preserves_unicode_space_paths_as_distinct_argv() {
    let selected = installation(
        "--model FILE --mmproj FILE --config FILE --host HOST --port N --threads N --ctx-size N --n-gpu-layers N --batch-size N --ubatch-size N",
    );
    let expected_executable = selected.server.as_ref().unwrap().path.clone();
    let expected_cwd = selected.root_path.clone();
    let settings = ServerLaunchSettings {
        model: String::from(r"D:\Models 外部\my model.gguf"),
        mmproj: Some(String::from(r"D:\Models 外部\视觉 projector.gguf")),
        config: Some(String::from(r"D:\Configs 外部\server config.ini")),
        host: Some("127.0.0.1".into()),
        port: Some(8080),
        threads: Some(8),
        context_size: Some(65536),
        gpu_layers: Some(20),
        batch_size: Some(512),
        ubatch_size: Some(128),
        ..Default::default()
    };
    let model_arg = settings.model.clone();
    let mmproj_arg = settings.mmproj.clone().unwrap();
    let config_arg = settings.config.clone().unwrap();

    let spec = build_server_launch_spec(&selected, &settings).unwrap();
    assert_eq!(spec.executable, expected_executable);
    assert_eq!(spec.cwd, expected_cwd);
    assert!(spec.argv.contains(&model_arg));
    assert!(spec.argv.contains(&mmproj_arg));
    assert!(spec.argv.contains(&config_arg));
    assert!(spec.diagnostic_command().contains("my model.gguf"));
    assert!(spec.diagnostic_command().contains("视觉 projector.gguf"));
}

#[test]
fn unsupported_option_fails_before_a_launch_spec_exists() {
    let selected = installation("--model FILE --port N");
    let settings = ServerLaunchSettings {
        model: "model.gguf".into(),
        context_size: Some(8192),
        ..Default::default()
    };
    assert_eq!(
        build_server_launch_spec(&selected, &settings).unwrap_err(),
        ServerCommandError::UnsupportedOption {
            option: "--ctx-size".into()
        }
    );
}

#[test]
fn cross_field_and_zero_values_fail_deterministically() {
    let selected = installation("--model FILE --batch-size N --ubatch-size N --threads N");
    let bad_batch = ServerLaunchSettings {
        model: "model.gguf".into(),
        batch_size: Some(128),
        ubatch_size: Some(256),
        ..Default::default()
    };
    assert!(matches!(
        build_server_launch_spec(&selected, &bad_batch),
        Err(ServerCommandError::InvalidValue { ref field, .. }) if field == "ubatch_size"
    ));

    let zero_threads = ServerLaunchSettings {
        model: "model.gguf".into(),
        threads: Some(0),
        ..Default::default()
    };
    assert!(matches!(
        build_server_launch_spec(&selected, &zero_threads),
        Err(ServerCommandError::InvalidValue { ref field, .. }) if field == "threads"
    ));
}

#[test]
fn diagnostics_redact_secret_argument_and_environment_without_mutating_execution_data() {
    let selected = installation("--model FILE --api-key KEY");
    let mut environment = Vec::new();
    insert_environment_variable(
        &mut environment,
        "PUBLIC_SETTING".into(),
        ServerEnvironmentValue::plain("visible".into()),
    );
    insert_environment_variable(
        &mut environment,
        "PRIVATE_TOKEN".into(),
        ServerEnvironmentValue::secret("secret-env".into()),
    );
    let settings = ServerLaunchSettings {
        model: "model.gguf".into(),
        api_key: Some("super-secret".into()),
        environment,
        ..Default::default()
    };

    let spec = build_server_launch_spec(&selected, &settings).unwrap();
    assert!(spec.argv.iter().any(|item| item == "super-secret"));
    assert_eq!(
        spec.environment
            .iter()
            .find(|(key, _)| key == "PRIVATE_TOKEN")
            .map(|(_, value)| value.as_str())
            .unwrap(),
        "secret-env"
    );

    let diagnostic = spec.diagnostic_command();
    assert!(!diagnostic.contains("super-secret"));
    assert!(diagnostic.contains("<redacted>"));
    let diagnostic_environment = spec.diagnostic_environment();
    let get = |name: &str| {
        diagnostic_environment
            .iter()
            .find(|(key, _)| key == name)
            .map(|(_, value)| value.clone())
            .unwrap()
    };
    assert_eq!(get("PUBLIC_SETTING"), "visible");
    assert_eq!(get("PRIVATE_TOKEN"), "<redacted>");
}

#[test]
fn preferred_supported_alias_is_emitted_from_server_help_evidence() {
    let selected = installation("-m FILE -c N -t N");
    let settings = ServerLaunchSettings {
        model: "model.gguf".into(),
        context_size: Some(4096),
        threads: Some(4),
        ..Default::default()
    };
    let spec = build_server_launch_spec(&selected, &settings).unwrap();
    assert_eq!(
        spec.argv,
        vec!["-m", "model.gguf", "-t", "4", "-c", "4096"]
            .into_iter()
            .map(String::from)
            .collect::<Vec<_>>()
    );
}

fn identity(pid: u32) -> ManagedProcessIdentity {
    ManagedProcessIdentity {
        pid,
        executable: String::from(r"C:\llama cpp 模型\llama-server.exe"),
        started_at_unix_ms: 1,
    }
}

#[test]
fn bounded_buffer_evicts_old_entries_without_exceeding_limit() {
    let mut logs = ServerLogBuffer::new(128);
    for index in 0..1000 {
        logs.push(42, ServerLogStream::Stdout, format!("line-{index:04}-xxxxxxxx"));
    }
    let snapshot = logs.snapshot();
    assert!(snapshot.retained_bytes <= 128);
    assert!(snapshot.evicted_entries > 0);
    assert!(!snapshot.entries.is_empty());
    assert!(snapshot
        .entries
        .windows(2)
        .all(|pair| pair[0].sequence < pair[1].sequence));
}

#[test]
fn giant_unicode_entry_is_truncated_on_a_char_boundary() {
    let mut logs = ServerLogBuffer::new(17);
    logs.push(7, ServerLogStream::Stderr, "模型模型模型模型模型模型模型".into());
    let snapshot = logs.snapshot();
    let entry = snapshot.entries.last().unwrap();
    assert!(entry.truncated);
    assert!(entry.text.len() <= 17);
    assert!(entry.text.is_char_boundary(0));
}

#[test]
fn redaction_hides_explicit_and_bearer_secrets_but_not_original_snapshot() {
    let mut logs = ServerLogBuffer::new(1024);
    logs.push(
        9,
        ServerLogStream::Stderr,
        "Authorization: Bearer abc123 api-key=secret-value".into(),
    );
    let original = logs.snapshot();
    let redacted = original.redacted(&["secret-value".into()]);
    assert!(original.entries[0].text.contains("abc123"));
    assert!(!redacted.entries[0].text.contains("abc123"));
    assert!(!redacted.entries[0].text.contains("secret-value"));
    assert!(redacted.entries[0].text.contains("<redacted>"));
}

#[test]
fn lifecycle_records_crash_stop_and_restart_unknown_truthfully() {
    let mut tracker = ServerLifecycleTracker::default();
    tracker.mark_starting(identity(100));
    tracker.mark_ready();
    tracker.mark_exit(ProcessExitEvidence {
        code: Some(7),
        kind: ProcessExitKind::Natural,
        observed_at_unix_ms: 2,
    });
    assert_eq!(tracker.snapshot().phase, ServerLifecyclePhase::Crashed);
    assert_eq!(tracker.snapshot().last_exit.as_ref().unwrap().code, Some(7));

    tracker.reconcile_after_restart(Some(identity(100)), true);
    assert_eq!(tracker.snapshot().phase, ServerLifecyclePhase::Unknown);
    assert!(tracker.snapshot().detail.is_some());

    tracker.reconcile_after_restart(Some(identity(100)), false);
    assert_eq!(tracker.snapshot().phase, ServerLifecyclePhase::Stopped);
}

#[test]
fn lifecycle_distinguishes_stopping_force_kill_from_crash() {
    let mut tracker = ServerLifecycleTracker::default();
    tracker.mark_starting(identity(101));
    tracker.mark_ready();
    tracker.mark_stopping();
    tracker.mark_exit(ProcessExitEvidence {
        code: None,
        kind: ProcessExitKind::ForceKilled,
        observed_at_unix_ms: 3,
    });
    assert_eq!(tracker.snapshot().phase, ServerLifecyclePhase::Stopped);
    assert_eq!(
        tracker.snapshot().last_exit.as_ref().unwrap().kind,
        ProcessExitKind::ForceKilled
    );
}

#[test]
fn eviction_stops_as_soon_as_the_new_entry_fits() {
    let mut logs = ServerLogBuffer::new(10);
    logs.push(1, ServerLogStream::Stdout, "aaaa".into());
    logs.push(1, ServerLogStream::Stdout, "bbbb".into());
    // 8 bytes kept; a 3-byte entry needs only the oldest to go.
    logs.push(1, ServerLogStream::Stdout, "ccc".into());
    let snapshot = logs.snapshot();
    let texts: Vec<&str> = snapshot.entries.iter().map(|e| e.text.as_str()).collect();
    assert_eq!(texts, vec!["bbbb", "ccc"]);
    assert_eq!(snapshot.evicted_entries, 1);
    assert_eq!(snapshot.retained_bytes, 7);
    // A 2-byte entry fits beside them: nothing is evicted.
    logs.push(1, ServerLogStream::Stdout, "dd".into());
    let snapshot = logs.snapshot();
    assert_eq!(snapshot.entries.len(), 3);
    assert_eq!(snapshot.evicted_entries, 1);
    assert_eq!(snapshot.retained_bytes, 9);
}

#[test]
fn every_push_is_kept_or_counted_as_evicted() {
    let mut logs = ServerLogBuffer::new(128);
    for index in 0..1000u64 {
        logs.push(42, ServerLogStream::Stdout, format!("line-{index:04}-xxxxxxxx"));
        let snapshot = logs.snapshot();
        assert_eq!(snapshot.evicted_entries + snapshot.entries.len() as u64, index + 1);
        let total: usize = snapshot.entries.iter().map(|e| e.text.len()).sum();
        assert_eq!(snapshot.retained_bytes, total);
        assert_eq!(snapshot.entries.last().unwrap().sequence, index);
        assert!(snapshot.retained_bytes <= 128);
        let kept = snapshot.entries.len() as u64;
        for (j, entry) in snapshot.entries.iter().enumerate() {
            let pushed = index + 1 - kept + j as u64;
            assert_eq!(entry.sequence, pushed);
            assert_eq!(entry.text, format!("line-{pushed:04}-xxxxxxxx"));
        }
    }
}

#[test]
fn environment_inserts_keep_key_order_and_replace_values() {
    let mut env = Vec::new();
    insert_environment_variable(&mut env, "B".into(), ServerEnvironmentValue::plain("1".into()));
    insert_environment_variable(&mut env, "A".into(), ServerEnvironmentValue::plain("2".into()));
    insert_environment_variable(&mut env, "C".into(), ServerEnvironmentValue::secret("3".into()));
    insert_environment_variable(&mut env, "B".into(), ServerEnvironmentValue::secret("4".into()));
    let keys: Vec<&str> = env.iter().map(|(k, _)| k.as_str()).collect();
    assert_eq!(keys, vec!["A", "B", "C"]);
    assert_eq!(env[1].1, ServerEnvironmentValue::secret("4".into()));
    assert_eq!(env[0].1, ServerEnvironmentValue::plain("2".into()));
}

#[test]
fn redaction_removes_secrets_and_marks_every_bearer_token() {
    let secrets = vec![String::new(), "hunter2".to_string(), "sk-9".to_string()];
    let out = redact_text("key=hunter2 sk-9x Authorization: Bearer abc; BEARER  tail hunter2", &secrets);
    assert_eq!(out, "key=<redacted> <redacted>x Authorization: Bearer <redacted> BEARER <redacted> tail <redacted>");
    assert!(!out.contains("hunter2"));
    assert!(!out.contains("sk-9"));
    let lower = out.to_ascii_lowercase();
    let mut from = 0;
    while let Some(i) = lower[from..].find("bearer ") {
        let at = from + i + "bearer ".len();
        assert!(out[at..].starts_with("<redacted>"));
        from = at;
    }
}
