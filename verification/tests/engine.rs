use cicada::git::parse_github_repository;
use cicada::image::ImageInfoCache;
use cicada::job::evaluate_trigger;
use cicada::job::trigger_skip_exit_code;
use cicada::job::InspectConfig;
use cicada::job::InspectInfo;
use cicada::job::OnFail;
use cicada::job::Trigger;
use cicada::job::TriggerDecision;
use cicada::job::TriggerError;
use cicada::oci::OciArgs;
use cicada::oci::OciBackend;
use cicada::oci::OciBackendClap;
use cicada::run::buildctl_args;
use cicada::run::buildkit_host;
use cicada::run::evaluate_level;
use cicada::run::run_exit_code;
use cicada::run::JobOutcome;
use cicada::run::LevelVerdict;
use cicada::secrets::aggregate_secrets;
use cicada::secrets::effective_env;
use cicada::secrets::SecretError;
use cicada::telemetry::segment_enabled;
use cicada::telemetry::sentry_enabled;
use cicada::telemetry::TrackEvent;

fn pair(k: &str, v: &str) -> (String, String) {
    (String::from(k), String::from(v))
}

#[test]
fn secret_sources_concatenate_in_order() {
    let explicit = vec![(String::from("A"), Some(String::from("1")))];
    let dotenv = vec![pair("B", "2")];
    let json = vec![pair("C", "3")];
    let all = aggregate_secrets(&explicit, &dotenv, &json).unwrap();
    assert_eq!(all, vec![pair("A", "1"), pair("B", "2"), pair("C", "3")]);
}

#[test]
fn missing_explicit_secret_is_fatal() {
    let explicit = vec![
        (String::from("A"), Some(String::from("1"))),
        (String::from("B"), None),
    ];
    let err = aggregate_secrets(&explicit, &vec![], &vec![]).unwrap_err();
    assert_eq!(err, SecretError::NotFound { name: String::from("B") });
}

#[test]
fn later_duplicate_wins_but_both_are_declared() {
    // An explicit secret X=1 plus a secrets-file entry X=2: the subprocess
    // environment sees X=2, while both pairs are declared as secret ids.
    let explicit = vec![(String::from("X"), Some(String::from("1")))];
    let json = vec![pair("X", "2")];
    let all = aggregate_secrets(&explicit, &vec![], &json).unwrap();
    assert_eq!(all, vec![pair("X", "1"), pair("X", "2")]);

    let env = effective_env(&all);
    assert_eq!(env, vec![pair("X", "2")]);

    let args = buildctl_args("/proj", false, &all);
    let declarations: Vec<&String> = args.iter().filter(|a| *a == "id=X").collect();
    assert_eq!(declarations.len(), 2);
}

#[test]
fn effective_env_keeps_first_position_and_last_value() {
    let pairs = vec![pair("A", "1"), pair("B", "2"), pair("A", "3")];
    let env = effective_env(&pairs);
    assert_eq!(env, vec![pair("A", "3"), pair("B", "2")]);
}

#[test]
fn backend_arguments() {
    let secrets = vec![pair("TOKEN", "t")];
    let args = buildctl_args("/proj", false, &secrets);
    assert_eq!(
        args,
        vec![
            String::from("build"),
            String::from("--local"),
            String::from("local=/proj"),
            String::from("--progress"),
            String::from("plain"),
            String::from("--secret"),
            String::from("id=TOKEN"),
        ]
    );
    let args = buildctl_args("/proj", true, &vec![]);
    assert!(args.contains(&String::from("--no-cache")));
    assert_eq!(buildkit_host(OciBackend::Docker), "docker-container://cicada-buildkitd");
    assert_eq!(buildkit_host(OciBackend::Podman), "podman-container://cicada-buildkitd");
}

fn completed(success: bool, on_fail: Option<OnFail>) -> JobOutcome {
    JobOutcome::Completed { long_name: String::from("j"), success, on_fail }
}

#[test]
fn ignored_failures_do_not_abort_the_run() {
    let outcomes = vec![
        completed(false, Some(OnFail::Ignore)),
        completed(true, None),
        completed(true, Some(OnFail::Stop)),
    ];
    assert_eq!(evaluate_level(&outcomes), LevelVerdict::Proceed);
    assert_eq!(run_exit_code(false), 0);
}

#[test]
fn stop_failures_abort_the_run() {
    let outcomes = vec![completed(true, None), completed(false, Some(OnFail::Stop))];
    assert_eq!(evaluate_level(&outcomes), LevelVerdict::Abort);
    // The default policy is Stop.
    let outcomes = vec![completed(false, None)];
    assert_eq!(evaluate_level(&outcomes), LevelVerdict::Abort);
    assert_eq!(run_exit_code(true), 1);
}

#[test]
fn infrastructure_errors_abort_the_run() {
    let outcomes = vec![
        completed(true, None),
        JobOutcome::InfraError { message: String::from("spawn failed") },
    ];
    assert_eq!(evaluate_level(&outcomes), LevelVerdict::Abort);
}

#[test]
fn empty_level_proceeds() {
    assert_eq!(evaluate_level(&vec![]), LevelVerdict::Proceed);
}

fn branches(list: &[&str]) -> Vec<String> {
    list.iter().map(|s| String::from(*s)).collect()
}

#[test]
fn triggers_filter_by_branch_and_event() {
    let on = Some(Trigger::Options { push: branches(&["main"]), pull_request: vec![] });
    let ev = |event: &str, base: &str| Some((String::from(event), String::from(base)));

    assert_eq!(evaluate_trigger(&on, &ev("push", "main")), Ok(TriggerDecision::Proceed));
    assert_eq!(evaluate_trigger(&on, &ev("push", "dev")), Ok(TriggerDecision::Skip));
    // An empty list does not filter.
    assert_eq!(evaluate_trigger(&on, &ev("pull_request", "dev")), Ok(TriggerDecision::Proceed));
    // Unknown events do not filter.
    assert_eq!(evaluate_trigger(&on, &ev("tag", "dev")), Ok(TriggerDecision::Proceed));
    // Without git event information the pipeline always runs.
    assert_eq!(evaluate_trigger(&on, &None), Ok(TriggerDecision::Proceed));
    assert_eq!(evaluate_trigger(&None, &ev("push", "dev")), Ok(TriggerDecision::Proceed));

    let deno = Some(Trigger::DenoFunction);
    assert_eq!(
        evaluate_trigger(&deno, &ev("push", "main")),
        Err(TriggerError::DenoFunctionUnsupported)
    );
    assert_eq!(evaluate_trigger(&deno, &None), Ok(TriggerDecision::Proceed));
    assert_eq!(
        TriggerError::DenoFunctionUnsupported.message(),
        "TypeScript trigger functions are unimplemented"
    );
    assert_eq!(trigger_skip_exit_code(), 2);
}

#[test]
fn github_repository_values_parse() {
    let gh = parse_github_repository("acme/site").unwrap();
    assert_eq!(gh.owner, "acme");
    assert_eq!(gh.repo, "site");
    assert_eq!(gh.repository(), "acme/site");
    assert!(parse_github_repository("acme").is_none());
    assert!(parse_github_repository("a/b/c").is_none());
}

#[test]
fn image_cache_memoizes_by_reference() {
    let mut cache = ImageInfoCache::new();
    assert!(cache.get("docker.io/library/ubuntu:latest").is_none());
    let info = InspectInfo {
        config: InspectConfig {
            hostname: None,
            domainname: None,
            user: None,
            env: vec![String::from("PATH=/bin")],
            cmd: vec![],
        },
    };
    cache.insert(String::from("docker.io/library/ubuntu:latest"), info.clone());
    let got = cache.get("docker.io/library/ubuntu:latest").unwrap();
    assert_eq!(*got, info);
    assert!(cache.get("docker.io/library/alpine:latest").is_none());
}

#[test]
fn analytics_switches() {
    assert!(segment_enabled(false, false, false, true));
    assert!(!segment_enabled(true, false, false, true));
    assert!(!segment_enabled(false, true, false, true));
    assert!(!segment_enabled(false, false, true, true));
    assert!(!segment_enabled(false, false, false, false));
    assert!(sentry_enabled(false, false, true));
    assert!(!sentry_enabled(true, false, true));
    let event = TrackEvent::SubcommandExecuted { subcommand_name: String::from("run") };
    assert_eq!(event.name(), "Subcommand Executed");
    let event = TrackEvent::PipelineExecuted {
        pipeline_name: String::from("ci"),
        pipeline_length: Some(10),
    };
    assert_eq!(event.name(), "Pipeline Executed");
}

#[test]
fn backend_selection() {
    assert_eq!(OciBackend::Docker.as_str(), "docker");
    assert_eq!(OciBackend::Podman.as_str(), "podman");
    assert_eq!(OciBackendClap::default(), OciBackendClap::Docker);
    let args = OciArgs { oci_backend: OciBackendClap::Podman };
    assert_eq!(args.oci_backend(), OciBackend::Podman);
}
