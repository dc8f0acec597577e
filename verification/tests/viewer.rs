use benchy::gui::{
    decode_error, fetch_error, group_benchmarks, metric_ids, metric_label, plot_metric_ids, series,
    units, HttpProvider,
};
use benchy::model::{
    Benchmark, BenchmarkGroup, BenchmarkStatus, Measurement, MetricId, SchemaVersion, Timestamp,
    Unit,
};
use benchy::sorted::SortedMap;

fn id(text: &str) -> MetricId {
    MetricId::new(text.to_owned()).unwrap()
}

fn run(repository: &str, name: &str, commit: &str, values: &[(&str, &str, Unit, f64)]) -> Benchmark {
    let mut measurements = SortedMap::new();
    for (metric, label, unit, value) in values {
        measurements.insert(
            id(metric),
            Measurement { label: (*label).to_owned(), unit: *unit, value_bits: value.to_bits() },
        );
    }
    Benchmark {
        schema_version: SchemaVersion,
        group: BenchmarkGroup { repository: repository.to_owned(), name: name.to_owned() },
        commit: commit.to_owned(),
        branch: "main".to_owned(),
        commit_message: None,
        description: "description".to_owned(),
        date: Timestamp::new(1_790_337_600, 0).unwrap(),
        measurements,
        run_id: None,
        status: BenchmarkStatus::Success,
        error: None,
        parameters: SortedMap::new(),
        environment: SortedMap::new(),
    }
}

#[test]
fn runs_are_grouped_by_benchmark_in_order() {
    let list = vec![
        run("zeta", "a", "1", &[]),
        run("alpha", "b", "2", &[]),
        run("zeta", "a", "3", &[]),
        run("alpha", "a", "4", &[]),
    ];
    let grouped = group_benchmarks(list);
    let summary: Vec<(String, String, Vec<String>)> = grouped
        .iter()
        .map(|(group, runs)| {
            (
                group.repository.clone(),
                group.name.clone(),
                runs.iter().map(|run| run.commit.clone()).collect(),
            )
        })
        .collect();
    assert_eq!(
        summary,
        vec![
            ("alpha".to_owned(), "a".to_owned(), vec!["4".to_owned()]),
            ("alpha".to_owned(), "b".to_owned(), vec!["2".to_owned()]),
            ("zeta".to_owned(), "a".to_owned(), vec!["1".to_owned(), "3".to_owned()]),
        ]
    );
    assert!(group_benchmarks(Vec::new()).is_empty());
}

#[test]
fn tables_and_plots_of_a_benchmark() {
    let runs = vec![
        run("r", "n", "1", &[("throughput.sender", "Old label", Unit::BitsPerSecond, 1.0)]),
        run("r", "n", "2", &[("cpu.up", "CPU", Unit::Percent, 50.0)]),
        run(
            "r",
            "n",
            "3",
            &[("throughput.sender", "Sender", Unit::BitsPerSecond, 3.0), ("cpu.up", "CPU", Unit::Percent, 60.0)],
        ),
    ];
    let ids: Vec<String> = metric_ids(&runs).iter().map(|m| m.as_str().to_owned()).collect();
    assert_eq!(ids, ["cpu.up", "throughput.sender"]);
    assert_eq!(metric_label(&runs, &id("throughput.sender")), "Sender");
    assert_eq!(metric_label(&runs, &id("latency.p95")), "latency.p95");
    let first_only = vec![run("r", "n", "1", &[("throughput.sender", "Old label", Unit::BitsPerSecond, 1.0)])];
    assert_eq!(metric_label(&first_only, &id("throughput.sender")), "Old label");
    assert_eq!(units(&runs), [Unit::BitsPerSecond, Unit::Percent]);
    assert_eq!(
        series(&runs, &id("throughput.sender"), Unit::BitsPerSecond),
        [(0, 1.0f64.to_bits()), (2, 3.0f64.to_bits())]
    );
    assert!(series(&runs, &id("throughput.sender"), Unit::Percent).is_empty());
    let plotted = |unit| -> Vec<String> {
        plot_metric_ids(&runs, unit).iter().map(|m| m.as_str().to_owned()).collect()
    };
    assert_eq!(plotted(Unit::BitsPerSecond), ["throughput.sender"]);
    assert_eq!(plotted(Unit::Percent), ["cpu.up"]);
    assert!(plotted(Unit::Seconds).is_empty());
}

#[test]
fn provider_requests_and_answers() {
    let mut provider = HttpProvider::new();
    assert!(provider.is_loading());
    assert!(!provider.refresh());
    provider.update(None);
    assert!(provider.is_loading());
    provider.update(Some(Err(fetch_error("timeout"))));
    assert!(!provider.is_loading());
    assert_eq!(provider.error(), Some("failed to fetch benchmark results: timeout"));
    assert!(provider.refresh());
    assert_eq!(provider.error(), None);
    provider.update(Some(Ok(vec![run("r", "n", "1", &[])])));
    assert!(!provider.is_loading());
    assert_eq!(provider.benchmarks().len(), 1);
    let group = BenchmarkGroup { repository: "r".to_owned(), name: "n".to_owned() };
    assert_eq!(provider.runs(&group).map(|runs| runs.len()), Some(1));
    let other = BenchmarkGroup { repository: "r".to_owned(), name: "m".to_owned() };
    assert!(provider.runs(&other).is_none());
    assert_eq!(decode_error("bad"), "failed to decode benchmark results: bad");
}
