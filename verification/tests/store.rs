use benchy::model::{
    Benchmark, BenchmarkGroup, BenchmarkStatus, Measurement, MetricId, SchemaVersion, Timestamp,
    Unit,
};
use benchy::sorted::SortedMap;
use benchy::store::{
    find_run, row_statements, run_statements, schema_step, validate, validate_all, IngestReport,
    SchemaStep, SqlKind, SqlStatement, SqlValue, StoreError, BUSY_TIMEOUT_MILLIS,
    CONNECTION_SETUP, CREATE_SCHEMA_V1,
};
use rusqlite::{params_from_iter, types::Value, Connection, OptionalExtension};

fn bind(statement: &SqlStatement) -> Vec<Value> {
    statement
        .params
        .iter()
        .map(|value| match value {
            SqlValue::Null => Value::Null,
            SqlValue::Integer(i) => Value::Integer(*i),
            SqlValue::Real(bits) => Value::Real(f64::from_bits(*bits)),
            SqlValue::Text(text) => Value::Text(text.clone()),
        })
        .collect()
}

fn execute(connection: &Connection, statement: &SqlStatement) {
    connection
        .execute(statement.kind.sql(), params_from_iter(bind(statement)))
        .unwrap();
}

fn open_in_memory() -> Connection {
    let connection = Connection::open_in_memory().unwrap();
    connection
        .busy_timeout(std::time::Duration::from_millis(BUSY_TIMEOUT_MILLIS.into()))
        .unwrap();
    connection.execute_batch(CONNECTION_SETUP).unwrap();
    let version: u32 = connection
        .pragma_query_value(None, "user_version", |row| row.get(0))
        .unwrap();
    match schema_step(version).unwrap() {
        SchemaStep::Migrate => connection.execute_batch(CREATE_SCHEMA_V1).unwrap(),
        SchemaStep::Ready => {}
    }
    connection
}

fn ingest(connection: &mut Connection, benchmarks: &[Benchmark]) -> IngestReport {
    validate_all(benchmarks).unwrap();
    let transaction = connection.transaction().unwrap();
    let mut report = IngestReport::empty();
    for benchmark in benchmarks {
        let existing = find_run(benchmark).and_then(|lookup| {
            transaction
                .query_row(lookup.kind.sql(), params_from_iter(bind(&lookup)), |row| {
                    row.get::<_, i64>(0)
                })
                .optional()
                .unwrap()
        });
        for statement in run_statements(benchmark, "{}", existing) {
            execute(&transaction, &statement);
        }
        let id = existing.unwrap_or_else(|| transaction.last_insert_rowid());
        for statement in row_statements(benchmark, id) {
            execute(&transaction, &statement);
        }
        report.record(existing.is_some());
    }
    transaction.commit().unwrap();
    report
}

fn result(value: f64) -> Benchmark {
    let mut measurements = SortedMap::new();
    measurements.insert(
        MetricId::new("throughput.receiver".to_owned()).unwrap(),
        Measurement {
            label: "Receiver throughput".to_owned(),
            unit: Unit::BitsPerSecond,
            value_bits: value.to_bits(),
        },
    );
    let mut parameters = SortedMap::new();
    parameters.insert("duration_seconds".to_owned(), "30".to_owned());
    let mut environment = SortedMap::new();
    environment.insert("GITHUB_RUN_ATTEMPT".to_owned(), "1".to_owned());
    environment.insert("GITHUB_RUN_NUMBER".to_owned(), "42".to_owned());
    environment.insert("RUNNER_NAME".to_owned(), "benchy-alice".to_owned());
    Benchmark {
        schema_version: SchemaVersion,
        group: BenchmarkGroup {
            repository: "gotatun".to_owned(),
            name: "gotatun-throughput".to_owned(),
        },
        commit: "abc123".to_owned(),
        branch: "main".to_owned(),
        commit_message: Some("Benchmark storage".to_owned()),
        description: "GotaTun throughput".to_owned(),
        date: Timestamp::new(1_790_337_600, 0).unwrap(),
        measurements,
        run_id: Some("123456".to_owned()),
        status: BenchmarkStatus::Success,
        error: None,
        parameters,
        environment,
    }
}

#[test]
fn creates_schema_and_normalizes_results() {
    let mut connection = open_in_memory();
    let report = ingest(&mut connection, &[result(2_500_000_000.0)]);
    assert_eq!(report.inserted, 1);
    assert_eq!(report.updated, 0);

    let version: u32 = connection
        .pragma_query_value(None, "user_version", |row| row.get(0))
        .unwrap();
    assert_eq!(version, 1);
    let row: (String, String, f64) = connection
        .query_row(
            "SELECT runs.repository, measurements.metric_id, measurements.value
             FROM runs JOIN measurements ON measurements.run_id = runs.id",
            [],
            |row| Ok((row.get(0)?, row.get(1)?, row.get(2)?)),
        )
        .unwrap();
    assert_eq!(
        row,
        (
            "gotatun".to_owned(),
            "throughput.receiver".to_owned(),
            2_500_000_000.0
        )
    );
    let run: (String, Option<String>, String) = connection
        .query_row(
            "SELECT started_at, workflow_run_number, workflow_run_attempt FROM runs",
            [],
            |row| Ok((row.get(0)?, row.get(1)?, row.get(2)?)),
        )
        .unwrap();
    assert_eq!(
        run,
        ("2026-09-25T12:00:00+00:00".to_owned(), Some("42".to_owned()), "1".to_owned())
    );
    assert_eq!(schema_step(1).unwrap(), SchemaStep::Ready);
}

#[test]
fn retrying_the_same_workflow_attempt_updates_the_run() {
    let mut connection = open_in_memory();
    assert_eq!(ingest(&mut connection, &[result(1.0)]).inserted, 1);
    let report = ingest(&mut connection, &[result(2.0)]);
    assert_eq!(report.inserted, 0);
    assert_eq!(report.updated, 1);

    let counts: (i64, i64) = connection
        .query_row(
            "SELECT (SELECT count(*) FROM runs), (SELECT count(*) FROM measurements)",
            [],
            |row| Ok((row.get(0)?, row.get(1)?)),
        )
        .unwrap();
    assert_eq!(counts, (1, 1));
    let value: f64 = connection
        .query_row("SELECT value FROM measurements", [], |row| row.get(0))
        .unwrap();
    assert_eq!(value, 2.0);
}

#[test]
fn a_new_attempt_or_a_run_without_id_adds_a_run() {
    let mut connection = open_in_memory();
    let first = result(1.0);
    let mut second = result(2.0);
    second
        .environment
        .insert("GITHUB_RUN_ATTEMPT".to_owned(), "2".to_owned());
    let mut local = result(3.0);
    local.run_id = None;
    let report = ingest(&mut connection, &[first, second, local]);
    assert_eq!(report, IngestReport { inserted: 3, updated: 0 });
    assert_eq!(report.total(), 3);
    let mut again = result(4.0);
    again.run_id = None;
    assert!(find_run(&again).is_none());
    assert_eq!(ingest(&mut connection, &[again]).inserted, 1);
}

#[test]
fn lookup_uses_the_ci_identity() {
    let statement = find_run(&result(1.0)).unwrap();
    assert_eq!(statement.kind, SqlKind::FindRun);
    assert_eq!(
        statement.params,
        vec![
            SqlValue::Text("gotatun".to_owned()),
            SqlValue::Text("gotatun-throughput".to_owned()),
            SqlValue::Text("123456".to_owned()),
            SqlValue::Text("1".to_owned()),
        ]
    );
    let mut without_attempt = result(1.0);
    without_attempt.environment = SortedMap::new();
    assert_eq!(
        find_run(&without_attempt).unwrap().params[3],
        SqlValue::Text(String::new())
    );
}

#[test]
fn update_replaces_the_rows_of_the_run() {
    let statements = run_statements(&result(1.0), "raw", Some(9));
    let kinds: Vec<SqlKind> = statements.iter().map(|statement| statement.kind).collect();
    assert_eq!(
        kinds,
        [
            SqlKind::UpdateRun,
            SqlKind::DeleteMeasurements,
            SqlKind::DeleteParameters,
            SqlKind::DeleteEnvironment
        ]
    );
    assert_eq!(statements[0].params[10], SqlValue::Integer(9));
    assert_eq!(statements[0].params[6], SqlValue::Text("42".to_owned()));
    assert_eq!(statements[0].params[9], SqlValue::Text("raw".to_owned()));
    let inserted = run_statements(&result(1.0), "raw", None);
    assert_eq!(inserted.len(), 1);
    assert_eq!(inserted[0].kind, SqlKind::InsertRun);
    assert_eq!(inserted[0].params.len(), 14);
    let rows = row_statements(&result(1.5), 3);
    assert_eq!(rows.len(), 5);
    assert_eq!(rows[0].params[4], SqlValue::Real(1.5f64.to_bits()));
    assert_eq!(rows[1].kind, SqlKind::InsertParameter);
    assert_eq!(rows[2].kind, SqlKind::InsertEnvironment);
}

#[test]
fn invalid_documents_are_refused() {
    let mut blank_name = result(1.0);
    blank_name.group.name = " \t".to_owned();
    assert_eq!(validate(&blank_name), Err(StoreError::EmptyName));
    let mut blank_repository = result(1.0);
    blank_repository.group.repository = String::new();
    assert_eq!(validate(&blank_repository), Err(StoreError::EmptyRepository));
    assert_eq!(
        StoreError::EmptyRepository.message(),
        "benchmark repository must not be empty"
    );
    let infinite = result(f64::INFINITY);
    let error = validate(&infinite).unwrap_err();
    assert_eq!(
        error.message(),
        "measurement throughput.receiver has a non-finite value"
    );
    assert!(validate(&result(f64::NAN)).is_err());
    let mut unlabeled = result(1.0);
    unlabeled.measurements.insert(
        MetricId::new("cpu.up".to_owned()).unwrap(),
        Measurement { label: "\u{3000}".to_owned(), unit: Unit::Percent, value_bits: 1.0f64.to_bits() },
    );
    assert_eq!(
        validate(&unlabeled).unwrap_err().message(),
        "measurement cpu.up has an empty label"
    );
    assert_eq!(validate_all(&[result(1.0), unlabeled, infinite]).unwrap_err().message(),
        "measurement cpu.up has an empty label");
    assert!(validate_all(&[]).is_ok());
}
