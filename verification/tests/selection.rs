use benchy::cli::{
    check_limit, ingest_summary, is_result_file, list_line, no_runs_line, parse_selection,
    result_file_name, result_files, run_line, select_benchmarks, BenchyMetadata, RunFailures,
    RunSummary, SelectionError,
};
use benchy::model::{BenchmarkGroup, BenchmarkStatus, Timestamp};
use benchy::store::IngestReport;

fn package(id: &str, default: bool) -> BenchyMetadata {
    BenchyMetadata { id: id.to_owned(), default }
}

#[test]
fn parses_comma_and_space_delimited_selection() {
    let parsed = parse_selection("first, second third");
    assert_eq!(parsed, ["first", "second", "third"]);
}

#[test]
fn selection_is_sorted_and_without_repetition() {
    let parsed = parse_selection(" zeta,alpha,,zeta \tbeta\t");
    assert_eq!(parsed, ["alpha", "beta", "zeta"]);
    assert!(parse_selection("").is_empty());
    assert!(parse_selection(" , ,").is_empty());
}

#[test]
fn selects_default_all_and_named_packages() {
    let packages = vec![package("throughput", true), package("latency", false), package("cpu", true)];
    assert_eq!(select_benchmarks(&packages, "default").unwrap(), [0, 2]);
    assert_eq!(select_benchmarks(&packages, "all").unwrap(), [0, 1, 2]);
    assert_eq!(select_benchmarks(&packages, "latency").unwrap(), [1]);
    assert_eq!(select_benchmarks(&packages, "latency default").unwrap(), [0, 1, 2]);
}

#[test]
fn unknown_benchmarks_are_refused_before_empty_selections() {
    let packages = vec![package("throughput", true), package("latency", false)];
    let error = select_benchmarks(&packages, "nope, latency, missing").unwrap_err();
    assert_eq!(
        error,
        SelectionError::Unknown { names: vec!["missing".to_owned(), "nope".to_owned()] }
    );
    assert_eq!(error.message(), r#"unknown benchmarks: ["missing", "nope"]"#);
    let packages = vec![package("latency", false)];
    let error = select_benchmarks(&packages, "default").unwrap_err();
    assert_eq!(error, SelectionError::NoMatch { selection: "default".to_owned() });
    assert_eq!(error.message(), "benchmark selection 'default' matched no packages");
}

#[test]
fn failed_benchmarks_are_reported_in_order() {
    let mut failures = RunFailures::new();
    failures.record("zeta", false, false);
    failures.record("alpha", true, false);
    failures.record("ok", true, true);
    failures.record("zeta", false, true);
    assert_eq!(failures.finish().unwrap_err(), "benchmarks failed: alpha, zeta");
    assert!(RunFailures::new().finish().is_ok());
}

#[test]
fn result_files_are_json_files_in_name_order() {
    let names = vec![
        "b.json".to_owned(),
        ".json".to_owned(),
        "a.json".to_owned(),
        "notes.txt".to_owned(),
        "c.json.bak".to_owned(),
    ];
    assert_eq!(result_files(&names), ["a.json", "b.json"]);
    assert!(is_result_file("x.json"));
    assert!(!is_result_file("json"));
    assert_eq!(result_file_name("throughput"), "throughput.json");
}

#[test]
fn printed_lines() {
    let report = IngestReport { inserted: 2, updated: 1 };
    assert_eq!(
        ingest_summary(report, "/tmp/results.sqlite3"),
        "Stored 3 benchmark result(s) in /tmp/results.sqlite3 (2 inserted, 1 updated)"
    );
    assert_eq!(list_line(&package("throughput", true)), "throughput (default)");
    assert_eq!(list_line(&package("latency", false)), "latency");
    assert_eq!(check_limit(0).unwrap_err(), "--limit must be greater than zero");
    assert!(check_limit(20).is_ok());
    assert_eq!(no_runs_line("db"), "No benchmark runs stored in db");
    let run = RunSummary {
        id: 7,
        date: Timestamp::new(1_790_337_600, 0).unwrap(),
        status: BenchmarkStatus::Failed,
        group: BenchmarkGroup { repository: "gotatun".to_owned(), name: "gotatun-throughput".to_owned() },
        branch: "main".to_owned(),
        commit: "0123456789abcdef".to_owned(),
        measurement_count: 12,
    };
    assert_eq!(
        run_line(&run),
        "#7  2026-09-25T12:00:00+00:00  failed   gotatun/gotatun-throughput  main  0123456789ab  12 measurement(s)"
    );
}
