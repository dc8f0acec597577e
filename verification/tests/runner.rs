use benchy::model::{BenchmarkStatus, Measurement, MetricId, Timestamp, Unit};
use benchy::runner::{command_failure, git_value_text, BenchmarkDefinition, Recorder, RunContext};
use benchy::serve::{
    api_failure, data_directory, database_path, frontend_path, internal_error, join_path_text,
    missing_frontend_warning, rocket, ApiFailure,
};

const DEFINITION: BenchmarkDefinition = BenchmarkDefinition {
    repository: "gotatun",
    name: "gotatun-throughput",
    description: "GotaTun throughput",
};

fn context() -> RunContext {
    RunContext {
        github_sha: None,
        git_commit: Some("abc123".to_owned()),
        github_ref_name: None,
        git_branch: None,
        commit_message: Some("message".to_owned()),
        date: Timestamp::new(1_790_337_600, 0).unwrap(),
        github_run_attempt: Some("1".to_owned()),
        github_run_id: Some("99".to_owned()),
        github_run_number: None,
        runner_name: Some("benchy-alice".to_owned()),
        runner_os: None,
    }
}

#[test]
fn recorder_starts_from_ci_and_git_metadata() {
    let recorder = Recorder::new(DEFINITION, "results/throughput.json".to_owned(), context());
    let benchmark = recorder.benchmark();
    assert_eq!(benchmark.commit, "abc123");
    assert_eq!(benchmark.branch, "unknown");
    assert_eq!(benchmark.run_id.as_deref(), Some("99"));
    assert_eq!(benchmark.status, BenchmarkStatus::Success);
    let environment: Vec<(String, String)> = benchmark.environment.entries().clone();
    assert_eq!(
        environment,
        vec![
            ("GITHUB_RUN_ATTEMPT".to_owned(), "1".to_owned()),
            ("GITHUB_RUN_ID".to_owned(), "99".to_owned()),
            ("RUNNER_NAME".to_owned(), "benchy-alice".to_owned()),
        ]
    );
    assert_eq!(recorder.output(), "results/throughput.json");
}

#[test]
fn recorder_collects_values_and_failures() {
    let mut context = context();
    context.github_sha = Some("def456".to_owned());
    let mut recorder = Recorder::new(DEFINITION, "out.json".to_owned(), context);
    recorder.parameter("mtu".to_owned(), "1440".to_owned());
    recorder.parameter("duration_seconds".to_owned(), "30".to_owned());
    recorder.parameter("mtu".to_owned(), "1500".to_owned());
    recorder.environment("EXTRA".to_owned(), "x".to_owned());
    recorder.value(
        MetricId::new("throughput.sender".to_owned()).unwrap(),
        Measurement { label: "Sender".to_owned(), unit: Unit::BitsPerSecond, value_bits: 5.0f64.to_bits() },
    );
    assert_eq!(recorder.benchmark().commit, "def456");
    let parameters: Vec<(String, String)> = recorder.benchmark().parameters.entries().clone();
    assert_eq!(
        parameters,
        vec![
            ("duration_seconds".to_owned(), "30".to_owned()),
            ("mtu".to_owned(), "1500".to_owned()),
        ]
    );
    let (output, benchmark) = recorder.failure("iperf3 failed".to_owned());
    assert_eq!(output, "out.json");
    assert_eq!(benchmark.status, BenchmarkStatus::Failed);
    assert_eq!(benchmark.error.as_deref(), Some("iperf3 failed"));
    assert_eq!(benchmark.measurements.len(), 1);
    assert_eq!(benchmark.environment.get("EXTRA").map(String::as_str), Some("x"));
}

#[test]
fn failed_commands_are_described() {
    assert_eq!(
        command_failure("iperf3", "exit status: 1", "  unable to connect\n"),
        "iperf3 failed with exit status: 1: unable to connect"
    );
}

#[test]
fn git_values_are_trimmed_and_never_empty() {
    assert_eq!(git_value_text(true, "main\n"), Some("main".to_owned()));
    assert_eq!(git_value_text(true, "  \n"), None);
    assert_eq!(git_value_text(false, "main\n"), None);
    assert_eq!(git_value_text(true, "fix: parse\n\nbody\n"), Some("fix: parse\n\nbody".to_owned()));
}

#[test]
fn server_layout_and_errors() {
    let plan = rocket("db.sqlite3".to_owned(), "dist".to_owned(), true);
    assert_eq!(plan.api_base, "/api");
    assert_eq!(plan.api_routes, ["/benchmarks", "/health"]);
    assert_eq!(plan.frontend.as_deref(), Some("dist"));
    assert_eq!(rocket("db".to_owned(), "dist".to_owned(), false).frontend, None);
    let error = internal_error("boom".to_owned());
    assert_eq!(error.status, 500);
    assert_eq!(error.message, "boom");
    assert_eq!(
        api_failure(ApiFailure::Query, "locked").message,
        "failed to query benchmarks: locked"
    );
    assert_eq!(api_failure(ApiFailure::Task, "x").message, "database task failed: x");
    assert_eq!(api_failure(ApiFailure::Unavailable, "y").message, "database is unavailable: y");
    assert_eq!(
        missing_frontend_warning("dist"),
        "frontend directory dist does not exist; serving the API only"
    );
}

#[test]
fn default_database_and_frontend_paths() {
    let some = |s: &str| Some(s.to_owned());
    assert_eq!(
        database_path(None, some("/data"), some("/home/mole")),
        "/data/benchy/results.sqlite3"
    );
    assert_eq!(
        database_path(None, None, some("/home/mole")),
        "/home/mole/.local/share/benchy/results.sqlite3"
    );
    assert_eq!(database_path(None, None, None), "./benchy/results.sqlite3");
    assert_eq!(database_path(some("/tmp/r.sqlite3"), some("/data"), None), "/tmp/r.sqlite3");
    assert_eq!(data_directory(None, some("/home/mole/")), "/home/mole/.local/share");
    assert_eq!(join_path_text("", "a/b"), "a/b");
    assert_eq!(frontend_path(None), "benchy-gui/dist");
    assert_eq!(frontend_path(some("/srv/dist")), "/srv/dist");
}
