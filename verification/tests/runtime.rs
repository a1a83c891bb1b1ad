use chicon_runner::config::{Config, ConfigError};
use chicon_runner::container::{assemble_scan, build_stage_args, script_path, StageOutcome};
use chicon_runner::gitsync::{plan_merge, target_branch, branch_ref_name, checkout_path, GitSyncError, MergeAction};
use chicon_runner::models::{
    CodeFunction, FunctionCapabilities, FunctionEnv, FunctionOutput, FunctionStage, GitCommit,
    MetricValue, Repository,
};
use chicon_runner::protocol::Frame;
use chicon_runner::models::GenericModel;
use chicon_runner::scheduler::{filter_functions, scan_id_or_default, Scheduler};
use chicon_runner::session::{
    auth_reply_ok, Backoff, Session, SessionAction, SessionEvent, SessionPhase,
};
use chicon_runner::utils::{timing_from_millis, TimeError};
use chicon_runner::workspace::{DirEntry, FsAction, Workspace};

fn sample_commit() -> GitCommit {
    GitCommit {
        commit_id: "abc".to_string(),
        message: None,
        branch: "master".to_string(),
    }
}

fn stage(extension: &str) -> FunctionStage {
    FunctionStage {
        environment: FunctionEnv {
            name: "python".to_string(),
            base_image: "python:3.12".to_string(),
            file_extension: extension.to_string(),
            executor: "python".to_string(),
            user: None,
        },
        content: "print('hi')".to_string(),
    }
}

fn sample_function(stages: Vec<FunctionStage>) -> CodeFunction {
    CodeFunction {
        public_id: "fid-1".to_string(),
        name: "counter".to_string(),
        capabilities: FunctionCapabilities { network: false, filesystem: false },
        outputs: vec![FunctionOutput {
            key: "count".to_string(),
            description: "How many".to_string(),
        }],
        stages,
    }
}

#[test]
fn backoff_delays_never_shrink_and_respect_the_ceiling() {
    let mut backoff = Backoff::new(5, 125, 30).unwrap();
    let mut delays: Vec<u64> = Vec::new();
    for _ in 0..10 {
        delays.push(backoff.next_delay());
    }
    assert_eq!(delays, vec![5, 6, 8, 10, 13, 16, 20, 25, 30, 30]);
    for window in delays.windows(2) {
        assert!(window[0] <= window[1]);
        assert!(window[1] <= 30);
    }
}

#[test]
fn backoff_refuses_a_shrinking_factor() {
    assert!(Backoff::new(5, 99, 30).is_none());
    assert!(Backoff::new(5, 100, 30).is_some());
}

#[test]
fn backoff_clamps_an_oversized_initial_period() {
    let mut backoff = Backoff::new(99, 125, 30).unwrap();
    assert_eq!(backoff.next_delay(), 30);
}

#[test]
fn session_walks_connect_auth_run() {
    let config = chicon_runner::config::ConfigScheduler {
        base_url: "localhost:3000".to_string(),
        token: "tok".to_string(),
        retry_period: 5,
        retry_scale_hundredths: 125,
        retry_scale_limit: 30,
    };
    let mut session = Session::new(&config).unwrap();

    assert_eq!(session.step(SessionEvent::ConnectFailed), SessionAction::SleepSeconds(5));
    assert_eq!(session.step(SessionEvent::ConnectFailed), SessionAction::SleepSeconds(6));
    assert_eq!(session.step(SessionEvent::ConnectSucceeded), SessionAction::SendToken);
    assert_eq!(session.phase, SessionPhase::Authenticating);
    assert_eq!(session.step(SessionEvent::AuthAccepted), SessionAction::AwaitFrame);
    assert_eq!(session.phase, SessionPhase::Running);
    let frame = Frame::Text("v1;r;f".to_string());
    assert_eq!(
        session.step(SessionEvent::FrameReceived(frame.clone())),
        SessionAction::ProcessFrame(frame)
    );
    assert_eq!(session.step(SessionEvent::ReadFailed), SessionAction::SleepSeconds(5));
    match session.phase {
        SessionPhase::Connecting(b) => assert_eq!(b.period_secs, 5),
        _ => panic!("expected a reconnect"),
    }
}

#[test]
fn session_stops_on_rejected_authentication() {
    let config = chicon_runner::config::ConfigScheduler {
        base_url: "localhost:3000".to_string(),
        token: "tok".to_string(),
        retry_period: 5,
        retry_scale_hundredths: 125,
        retry_scale_limit: 30,
    };
    let mut session = Session::new(&config).unwrap();
    session.step(SessionEvent::ConnectSucceeded);
    assert_eq!(session.step(SessionEvent::AuthRejected), SessionAction::StopFatal);
    assert_eq!(session.phase, SessionPhase::Stopped);
}

#[test]
fn auth_reply_accepts_exactly_the_handshake_text() {
    assert!(auth_reply_ok(&Frame::Text("auth-ok".to_string())));
    assert!(!auth_reply_ok(&Frame::Text("auth-no".to_string())));
    assert!(!auth_reply_ok(&Frame::Binary(vec![1])));
}

#[test]
fn pruning_evicts_until_under_the_limit() {
    let workspace = Workspace::new("ws".to_string(), 100, 0).unwrap();
    let dirs = vec![
        DirEntry { name: "old-repo".to_string(), size: 95 },
        DirEntry { name: "new-repo".to_string(), size: 10 },
    ];
    let victims = workspace.plan_pruning(0, &dirs);
    assert_eq!(victims, vec!["old-repo".to_string()]);
}

#[test]
fn pruning_stops_when_nothing_is_removable() {
    let workspace = Workspace::new("ws".to_string(), 100, 0).unwrap();
    let victims = workspace.plan_pruning(150, &vec![]);
    assert_eq!(victims, Vec::<String>::new());
}

#[test]
fn workspace_refuses_a_full_directory() {
    assert!(Workspace::new("ws".to_string(), 100, 100).is_err());
    assert!(Workspace::new("ws".to_string(), 100, 99).is_ok());
}

#[test]
fn clean_actions_reset_the_scratch_slots() {
    let workspace = Workspace::new("ws".to_string(), 100, 0).unwrap();
    assert_eq!(
        workspace.clean_actions("rid", false),
        vec![
            FsAction::RemoveTree("ws/rid/bin".to_string()),
            FsAction::RemoveTree("ws/rid/result".to_string()),
            FsAction::EnsureDir("ws/rid".to_string()),
            FsAction::CreateDir("ws/rid/bin".to_string()),
            FsAction::CreateDir("ws/rid/result".to_string()),
        ]
    );
    assert_eq!(
        workspace.clean_actions("rid", true),
        vec![
            FsAction::RemoveTree("ws/rid".to_string()),
            FsAction::EnsureDir("ws/rid".to_string()),
            FsAction::CreateDir("ws/rid/bin".to_string()),
            FsAction::CreateDir("ws/rid/result".to_string()),
        ]
    );
    assert_eq!(
        workspace.clean_bin_actions("rid"),
        vec![
            FsAction::RemoveTree("ws/rid/bin".to_string()),
            FsAction::CreateDir("ws/rid/bin".to_string()),
        ]
    );
}

#[test]
fn container_arguments_follow_the_launch_protocol() {
    let mut st = stage("py");
    st.environment.user = Some("scan".to_string());
    let capabilities = FunctionCapabilities { network: true, filesystem: false };
    let args = build_stage_args("kb", "/ws", "rid", &st, &capabilities);
    let expected: Vec<String> = vec![
        "--namespace=kb",
        "run",
        "--rm",
        "--cap-drop",
        "all",
        "--security-opt",
        "apparmor=docker-default",
        "--security-opt",
        "no-new-privileges",
        "--network",
        "bridge",
        "--user",
        "scan",
        "--volume",
        "/ws/rid/repository:/workspace:ro",
        "--volume",
        "/ws/rid/bin:/tmp-bin:ro",
        "--volume",
        "/ws/rid/result:/result",
        "--workdir",
        "/workspace",
        "--read-only",
        "python:3.12",
        "python",
        "/tmp-bin/process.py",
    ]
    .into_iter()
    .map(|s| s.to_string())
    .collect();
    assert_eq!(args, expected);
}

#[test]
fn container_arguments_isolate_an_offline_function() {
    let st = stage("sh");
    let capabilities = FunctionCapabilities { network: false, filesystem: false };
    let args = build_stage_args("kb", "/ws", "rid", &st, &capabilities);
    assert!(args.contains(&"--network".to_string()));
    assert!(args.contains(&"none".to_string()));
    assert!(args.contains(&"--read-only".to_string()));
    assert!(!args.contains(&"bridge".to_string()));
    assert_eq!(script_path("sh"), "bin/process.sh".to_string());
}

#[test]
fn two_stage_success_harvests_metrics() {
    let function = sample_function(vec![stage("py"), stage("py")]);
    let outcomes = vec![
        StageOutcome {
            exit_code: 0,
            stdout: String::new(),
            stderr: String::new(),
            duration_ms: 40,
        },
        StageOutcome {
            exit_code: 0,
            stdout: "done".to_string(),
            stderr: String::new(),
            duration_ms: 60,
        },
    ];
    let data = Some("count = 3".to_string());
    let scan = assemble_scan(&function, "rid", sample_commit(), &outcomes, &data);
    assert!(!scan.has_failed);
    assert_eq!(scan.timing_ms, 100);
    assert_eq!(scan.results.len(), 1);
    assert_eq!(scan.results[0].key, "count");
    assert_eq!(scan.results[0].description, "How many");
    assert_eq!(scan.results[0].value, MetricValue::Number(3));
}

#[test]
fn stage_failure_does_not_abort_the_run() {
    let function = sample_function(vec![stage("py"), stage("py")]);
    let outcomes = vec![
        StageOutcome {
            exit_code: 1,
            stdout: "first out".to_string(),
            stderr: "first err".to_string(),
            duration_ms: 5,
        },
        StageOutcome {
            exit_code: 0,
            stdout: "second out".to_string(),
            stderr: String::new(),
            duration_ms: 6,
        },
    ];
    let data = Some("count = 3".to_string());
    let scan = assemble_scan(&function, "rid", sample_commit(), &outcomes, &data);
    assert!(scan.has_failed);
    assert_eq!(scan.timing_ms, 11);
    assert_eq!(scan.logs, "first out\nfirst errsecond out\n");
    assert_eq!(scan.results.len(), 1);
    assert_eq!(scan.results[0].value, MetricValue::Number(3));
}

#[test]
fn malformed_metrics_yield_no_results() {
    let function = sample_function(vec![stage("py")]);
    let outcomes = vec![StageOutcome {
        exit_code: 0,
        stdout: String::new(),
        stderr: String::new(),
        duration_ms: 1,
    }];
    let data = Some("count ==".to_string());
    let scan = assemble_scan(&function, "rid", sample_commit(), &outcomes, &data);
    assert!(scan.results.is_empty());
    let scan_without = assemble_scan(&function, "rid", sample_commit(), &outcomes, &None);
    assert!(scan_without.results.is_empty());
}

#[test]
fn function_filter_keeps_requested_identifiers_in_order() {
    let catalog = vec![
        sample_function(vec![stage("py")]),
        CodeFunction { public_id: "fid-2".to_string(), ..sample_function(vec![stage("sh")]) },
        CodeFunction { public_id: "fid-3".to_string(), ..sample_function(vec![stage("sh")]) },
    ];
    let requested = vec!["fid-3".to_string(), "fid-1".to_string()];
    let kept = filter_functions(catalog.clone(), &requested);
    assert_eq!(kept.len(), 2);
    assert_eq!(kept[0].public_id, "fid-1");
    assert_eq!(kept[1].public_id, "fid-3");

    let all = filter_functions(catalog.clone(), &vec!["*".to_string()]);
    assert_eq!(all.len(), 3);
    let all_again = filter_functions(catalog, &vec![]);
    assert_eq!(all_again.len(), 3);
}

#[test]
fn scheduler_builds_bearer_requests() {
    let mut config = Config::default();
    config.scheduler.base_url = "scheduler:3000".to_string();
    config.scheduler.token = "secret".to_string();
    let scheduler = Scheduler::new(&config);
    assert_eq!(scheduler.base_url, "http://scheduler:3000/api/v1");
    assert_eq!(scheduler.authorization_value(), "Bearer secret");
    assert_eq!(
        scheduler.repository_url("rid"),
        "http://scheduler:3000/api/v1/repositories/rid"
    );
    assert_eq!(scheduler.functions_url(), "http://scheduler:3000/api/v1/functions");
    assert_eq!(scheduler.scans_url(), "http://scheduler:3000/api/v1/scans");
    assert_eq!(scheduler.issues_url(), "http://scheduler:3000/api/v1/issues");
}

#[test]
fn scan_identifier_falls_back_to_a_placeholder() {
    assert_eq!(
        scan_id_or_default(GenericModel { public_id: Some("sid".to_string()) }),
        "sid"
    );
    assert_eq!(scan_id_or_default(GenericModel { public_id: None }), "-");
}

#[test]
fn config_defaults_match_the_documented_values() {
    let config = Config::default();
    assert_eq!(config.workspace.path, "chicon-workspace");
    assert_eq!(config.workspace.cache_limit, "200");
    assert_eq!(config.workspace.ssh_clone_key, None);
    assert_eq!(config.scheduler.base_url, "localhost:3000");
    assert_eq!(config.scheduler.retry_period, 5);
    assert_eq!(config.scheduler.retry_scale_hundredths, 125);
    assert_eq!(config.scheduler.retry_scale_limit, 30);
    assert_eq!(config.container.namespace, "kb");
    assert_eq!(config.get_cache_bytes().unwrap(), 200_000_000);
}

#[test]
fn cache_limit_must_be_a_bounded_number() {
    let mut config = Config::default();
    config.workspace.cache_limit = "not-a-number".to_string();
    assert_eq!(config.get_cache_bytes().unwrap_err(), ConfigError::InvalidCacheLimit);
    config.workspace.cache_limit = "99999999999999".to_string();
    assert_eq!(config.get_cache_bytes().unwrap_err(), ConfigError::InvalidCacheLimit);
    config.workspace.cache_limit = "1".to_string();
    assert_eq!(config.get_cache_bytes().unwrap(), 1_000_000);
}

#[test]
fn config_overrides_replace_single_fields() {
    let mut config = Config::default();
    config.set_workspace_path("/srv/scans");
    config.set_container_namespace("prod");
    assert_eq!(config.workspace.path, "/srv/scans");
    assert_eq!(config.container.namespace, "prod");
    assert_eq!(config.workspace.cache_limit, "200");
}

#[test]
fn sync_targets_the_configured_branch_or_master() {
    let mut repository = Repository {
        id: "rid".to_string(),
        name: "demo".to_string(),
        url: "ssh://git/demo".to_string(),
        branch: None,
        directory: None,
    };
    assert_eq!(target_branch(&repository), "master");
    repository.branch = Some("develop".to_string());
    assert_eq!(target_branch(&repository), "develop");
    assert_eq!(branch_ref_name("develop"), "refs/heads/develop");
    assert_eq!(checkout_path("/ws", "rid"), "/ws/rid/repository");
}

#[test]
fn time_diff_counts_forward_from_an_earlier_reading() {
    let earlier = std::time::SystemTime::now();
    let elapsed = chicon_runner::utils::compute_time_diff(earlier).unwrap();
    assert!(elapsed < 60_000);
}

#[test]
fn timing_classifies_every_clock_answer() {
    assert_eq!(timing_from_millis(Some(5)), Ok(5));
    assert_eq!(timing_from_millis(Some(usize::MAX as u128)), Ok(usize::MAX));
    assert_eq!(
        timing_from_millis(Some(usize::MAX as u128 + 1)),
        Err(TimeError::OutOfRange)
    );
    assert_eq!(timing_from_millis(None), Err(TimeError::ClockDrift));
}

#[test]
fn byte_counts_print_in_whole_megabytes() {
    assert_eq!(chicon_runner::workspace::megabytes_of(0), "0");
    assert_eq!(chicon_runner::workspace::megabytes_of(2_500_000), "2");
    assert_eq!(chicon_runner::workspace::megabytes_of(200_000_000), "200");
}

#[test]
fn cache_limit_accepts_the_largest_representable_values() {
    let mut config = Config::default();
    config.workspace.cache_limit = "18446744073709".to_string();
    assert_eq!(config.get_cache_bytes().unwrap(), 18_446_744_073_709_000_000);
    config.workspace.cache_limit = "18446744073710".to_string();
    assert!(config.get_cache_bytes().is_err());
    config.workspace.cache_limit = "18446744073709551616".to_string();
    assert!(config.get_cache_bytes().is_err());
}

#[test]
fn merge_analysis_admits_only_fast_forward() {
    assert_eq!(plan_merge(true, false), Ok(MergeAction::UseCommit));
    assert_eq!(plan_merge(true, true), Ok(MergeAction::UseCommit));
    assert_eq!(plan_merge(false, true), Ok(MergeAction::FastForward));
    assert_eq!(plan_merge(false, false), Err(GitSyncError::FastForwardOnly));
    assert_eq!(
        GitSyncError::FastForwardOnly.message(),
        "Fast-forward only authorized"
    );
}
