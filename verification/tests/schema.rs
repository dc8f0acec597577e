use benchy::model::{
    BenchmarkStatus, InvalidMetricId, MetricId, SchemaVersion, Timestamp, Unit, RESULT_SCHEMA_VERSION,
};
use benchy::store::schema_step;

#[test]
fn metric_ids_are_stable_machine_identifiers() {
    for valid in [
        "throughput.sender",
        "cpu.gotatun.up",
        "latency.p95_seconds",
        "reconnect.count-v2",
    ] {
        assert!(MetricId::new(valid.to_owned()).is_ok(), "{valid}");
    }
    for invalid in ["", "UP CPU", "cpu..up", ".cpu", "cpu.UP", "9cpu.up"] {
        assert!(MetricId::new(invalid.to_owned()).is_err(), "{invalid}");
    }
}

#[test]
fn more_metric_id_edges() {
    assert!(MetricId::new("a".to_owned()).is_ok());
    assert!(MetricId::new("cpu.".to_owned()).is_err());
    assert!(MetricId::new("cpu.up.".to_owned()).is_err());
    assert!(MetricId::new("cpu.-up".to_owned()).is_err());
    assert!(MetricId::new("cpu.ü".to_owned()).is_err());
    assert_eq!(MetricId::new("cpu.up".to_owned()).unwrap().as_str(), "cpu.up");
    let error = MetricId::new("UP CPU".to_owned()).unwrap_err();
    assert_eq!(error, InvalidMetricId("UP CPU".to_owned()));
    assert_eq!(
        error.message(),
        "invalid metric ID \"UP CPU\"; expected lowercase dot-separated identifiers"
    );
}

#[test]
fn unknown_schema_versions_are_rejected() {
    let error = SchemaVersion::from_version(2).unwrap_err();
    assert!(error.message().contains("unsupported benchmark result schema version 2"));
    assert_eq!(SchemaVersion::from_version(RESULT_SCHEMA_VERSION), Ok(SchemaVersion));
    assert_eq!(SchemaVersion.version(), 1);
}

#[test]
fn rejects_newer_database_schema() {
    let error = schema_step(2).err().unwrap();
    assert!(error.message().contains("newer than supported"));
    assert_eq!(
        error.message(),
        "database schema version 2 is newer than supported version 1"
    );
}

#[test]
fn status_and_unit_names() {
    assert_eq!(BenchmarkStatus::Success.as_str(), "success");
    assert_eq!(BenchmarkStatus::Failed.as_str(), "failed");
    assert_eq!(Unit::BitsPerSecond.as_str(), "bits_per_second");
    assert_eq!(Unit::Percent.as_str(), "percent");
    assert_eq!(Unit::Seconds.as_str(), "seconds");
    assert_eq!(Unit::Count.as_str(), "count");
}

#[test]
fn timestamps_are_utc_instants() {
    let start = Timestamp::new(1_790_337_600, 0).unwrap();
    assert_eq!(start.to_rfc3339(), "2026-09-25T12:00:00+00:00");
    assert_eq!((start.secs(), start.nanos()), (1_790_337_600, 0));
    assert_eq!(
        Timestamp::new(1_790_337_600, 500_000_000).unwrap().to_rfc3339(),
        "2026-09-25T12:00:00.500+00:00"
    );
    assert_eq!(Timestamp::new(0, 0).unwrap().to_rfc3339(), "1970-01-01T00:00:00+00:00");
    assert!(Timestamp::new(0, 2_000_000_000).is_none());
    assert!(Timestamp::new(i64::MAX, 0).is_none());
}
