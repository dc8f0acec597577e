//! Storage of result documents in SQLite: the database schema, the checks a
//! document must pass before it is stored, and the statements that store it.
//! A document from a CI run that is already stored (same repository,
//! benchmark, workflow run ID and attempt) updates that run instead of adding
//! another one.
use vstd::prelude::*;

use crate::model::{
    finite_bits, rfc3339_text, status_text, unit_text, Benchmark, Measurement, MetricId,
    RESULT_SCHEMA_VERSION,
};
use crate::sorted::{lookup, TextKey};
use crate::text::{blank, decimal, is_blank, owned, push_decimal, push_str};

verus! {

/// The version of the database layout that this library creates and reads
/// (SQLite `user_version`).
pub const DATABASE_SCHEMA_VERSION: u32 = 1;

/// Connection settings applied when a database is opened.
pub const CONNECTION_SETUP: &'static str = "PRAGMA foreign_keys = ON;
             PRAGMA journal_mode = WAL;";

/// How long a connection waits for a locked database, in milliseconds.
pub const BUSY_TIMEOUT_MILLIS: u32 = 5000;

/// Creates the tables of schema version 1 and records the version.
pub const CREATE_SCHEMA_V1: &'static str = "BEGIN IMMEDIATE;
         CREATE TABLE runs (
             id INTEGER PRIMARY KEY,
             result_schema_version INTEGER NOT NULL,
             repository TEXT NOT NULL,
             benchmark TEXT NOT NULL,
             commit_hash TEXT NOT NULL,
             branch TEXT NOT NULL,
             commit_message TEXT,
             description TEXT NOT NULL,
             started_at TEXT NOT NULL,
             workflow_run_id TEXT,
             workflow_run_attempt TEXT NOT NULL DEFAULT '',
             workflow_run_number TEXT,
             status TEXT NOT NULL CHECK (status IN ('success', 'failed')),
             error TEXT,
             raw_json TEXT NOT NULL
         );
         CREATE UNIQUE INDEX runs_ci_identity
             ON runs(repository, benchmark, workflow_run_id, workflow_run_attempt)
             WHERE workflow_run_id IS NOT NULL;
         CREATE INDEX runs_series_time
             ON runs(repository, benchmark, started_at);
         CREATE TABLE measurements (
             run_id INTEGER NOT NULL REFERENCES runs(id) ON DELETE CASCADE,
             metric_id TEXT NOT NULL,
             label TEXT NOT NULL,
             unit TEXT NOT NULL CHECK (
                 unit IN ('bits_per_second', 'percent', 'seconds', 'count')
             ),
             value REAL NOT NULL,
             PRIMARY KEY (run_id, metric_id)
         );
         CREATE INDEX measurements_metric
             ON measurements(metric_id, run_id);
         CREATE TABLE parameters (
             run_id INTEGER NOT NULL REFERENCES runs(id) ON DELETE CASCADE,
             key TEXT NOT NULL,
             value TEXT NOT NULL,
             PRIMARY KEY (run_id, key)
         );
         CREATE TABLE environment (
             run_id INTEGER NOT NULL REFERENCES runs(id) ON DELETE CASCADE,
             key TEXT NOT NULL,
             value TEXT NOT NULL,
             PRIMARY KEY (run_id, key)
         );
         PRAGMA user_version = 1;
         COMMIT;";

/// The newest stored runs, newest first, at most `?1` of them: ID, start
/// time, status, repository, benchmark, branch, commit and measurement count.
pub const LATEST_RUNS: &'static str = "SELECT runs.id, runs.started_at, runs.status, runs.repository,
                runs.benchmark, runs.branch, runs.commit_hash,
                (SELECT count(*) FROM measurements WHERE measurements.run_id = runs.id)
         FROM runs
         ORDER BY runs.started_at DESC, runs.id DESC
         LIMIT ?1";

/// The stored result documents, by benchmark and then in start order.
pub const ALL_DOCUMENTS: &'static str = "SELECT raw_json FROM runs
         ORDER BY repository, benchmark, started_at, id";

/// What opening a database with a given `user_version` requires.
#[derive(Debug, Clone, Copy, PartialEq, Eq, Structural)]
pub enum SchemaStep {
    /// A fresh database: create schema version 1.
    Migrate,
    /// The database already has the current schema.
    Ready,
}

/// Why a database or a document is refused.
#[derive(Debug, PartialEq)]
pub enum StoreError {
    /// The database was written by a newer version of this library.
    NewerSchema { version: u32 },
    EmptyRepository,
    EmptyName,
    EmptyLabel { metric: MetricId },
    NonFiniteValue { metric: MetricId },
}

/// The step for a database whose `user_version` is `version`.
pub open spec fn schema_step_of(version: u32) -> Result<SchemaStep, StoreError> {
    if version == 0 {
        Ok(SchemaStep::Migrate)
    } else if version == DATABASE_SCHEMA_VERSION {
        Ok(SchemaStep::Ready)
    } else {
        Err(StoreError::NewerSchema { version })
    }
}

/// Decides what to do with a database of schema `version`: create the schema
/// when there is none, use it when it is current, refuse a newer one.
pub fn schema_step(version: u32) -> (r: Result<SchemaStep, StoreError>)
    ensures
        r == schema_step_of(version),
{
    if version == 0 {
        Ok(SchemaStep::Migrate)
    } else if version == DATABASE_SCHEMA_VERSION {
        Ok(SchemaStep::Ready)
    } else {
        Err(StoreError::NewerSchema { version })
    }
}

/// The message of each error.
pub open spec fn error_text(e: StoreError) -> Seq<char> {
    match e {
        StoreError::NewerSchema { version } => "database schema version "@ + decimal(
            version as nat,
        ) + " is newer than supported version "@ + decimal(DATABASE_SCHEMA_VERSION as nat),
        StoreError::EmptyRepository => "benchmark repository must not be empty"@,
        StoreError::EmptyName => "benchmark name must not be empty"@,
        StoreError::EmptyLabel { metric } => "measurement "@ + metric@ + " has an empty label"@,
        StoreError::NonFiniteValue { metric } => "measurement "@ + metric@
            + " has a non-finite value"@,
    }
}

impl StoreError {
    pub fn message(&self) -> (r: String)
        ensures
            r@ == error_text(*self),
    {
        let mut s = String::new();
        match self {
            StoreError::NewerSchema { version } => {
                push_str(&mut s, "database schema version ");
                push_decimal(&mut s, *version as u64);
                push_str(&mut s, " is newer than supported version ");
                push_decimal(&mut s, DATABASE_SCHEMA_VERSION as u64);
            },
            StoreError::EmptyRepository => {
                push_str(&mut s, "benchmark repository must not be empty");
            },
            StoreError::EmptyName => {
                push_str(&mut s, "benchmark name must not be empty");
            },
            StoreError::EmptyLabel { metric } => {
                push_str(&mut s, "measurement ");
                push_str(&mut s, metric.as_str());
                push_str(&mut s, " has an empty label");
            },
            StoreError::NonFiniteValue { metric } => {
                push_str(&mut s, "measurement ");
                push_str(&mut s, metric.as_str());
                push_str(&mut s, " has a non-finite value");
            },
        }
        s
    }
}

/// A measurement may be stored: its label is not blank and its value is
/// finite.
pub open spec fn measurement_ok(m: Measurement) -> bool {
    !is_blank(m.label@) && finite_bits(m.value_bits)
}

/// The first measurement, in ID order, with an empty label or a non-finite
/// value.
pub open spec fn measurement_problem(entries: Seq<(MetricId, Measurement)>) -> Option<StoreError>
    decreases entries.len(),
{
    if entries.len() == 0 {
        None
    } else if is_blank(entries[0].1.label@) {
        Some(StoreError::EmptyLabel { metric: entries[0].0 })
    } else if !finite_bits(entries[0].1.value_bits) {
        Some(StoreError::NonFiniteValue { metric: entries[0].0 })
    } else {
        measurement_problem(entries.drop_first())
    }
}

/// A document may be stored when its repository and name are not blank and
/// every measurement has a label that is not blank and a finite value; else
/// the first of these that fails is the error.
pub open spec fn validation(b: Benchmark) -> Result<(), StoreError> {
    if is_blank(b.group.repository@) {
        Err(StoreError::EmptyRepository)
    } else if is_blank(b.group.name@) {
        Err(StoreError::EmptyName)
    } else {
        match measurement_problem(b.measurements@) {
            Some(e) => Err(e),
            None => Ok(()),
        }
    }
}

/// Checks that a document may be stored.
pub fn validate(b: &Benchmark) -> (r: Result<(), StoreError>)
    ensures
        r == validation(*b),
        r is Ok <==> !is_blank(b.group.repository@) && !is_blank(b.group.name@) && forall|i: int|
            0 <= i < b.measurements@.len() ==> measurement_ok(#[trigger] b.measurements@[i].1),
        r == Err::<(), StoreError>(StoreError::EmptyRepository) <==> is_blank(b.group.repository@),
        r == Err::<(), StoreError>(StoreError::EmptyName) <==> !is_blank(b.group.repository@)
            && is_blank(b.group.name@),
        r matches Err(StoreError::EmptyLabel { metric }) ==> exists|i: int|
            0 <= i < b.measurements@.len() && (#[trigger] b.measurements@[i]).0 == metric
                && is_blank(b.measurements@[i].1.label@) && forall|j: int|
                0 <= j < i ==> measurement_ok(#[trigger] b.measurements@[j].1),
        r matches Err(StoreError::NonFiniteValue { metric }) ==> exists|i: int|
            0 <= i < b.measurements@.len() && (#[trigger] b.measurements@[i]).0 == metric
                && !is_blank(b.measurements@[i].1.label@) && !finite_bits(
                b.measurements@[i].1.value_bits,
            ) && forall|j: int| 0 <= j < i ==> measurement_ok(#[trigger] b.measurements@[j].1),
        r !is Err || r->Err_0 !is NewerSchema,
{
    if blank(b.group.repository.as_str()) {
        return Err(StoreError::EmptyRepository);
    }
    if blank(b.group.name.as_str()) {
        return Err(StoreError::EmptyName);
    }
    let entries = b.measurements.entries();
    let n: usize = entries.len();
    assert(entries@.skip(0) == entries@);
    for i in 0..n
        invariant
            n == entries@.len(),
            entries@ == b.measurements@,
            !is_blank(b.group.repository@),
            !is_blank(b.group.name@),
            measurement_problem(entries@) == measurement_problem(entries@.skip(i as int)),
            forall|j: int| 0 <= j < i ==> measurement_ok(#[trigger] entries@[j].1),
    {
        let e = &entries[i];
        let ghost rest = entries@.skip(i as int);
        assert(rest[0] == entries@[i as int]);
        assert(rest.drop_first() == entries@.skip(i + 1));
        assert(rest.len() > 0);
        if blank(e.1.label.as_str()) {
            let metric = e.0.copy();
            assert(measurement_problem(rest) == Some(StoreError::EmptyLabel { metric }));
            return Err(StoreError::EmptyLabel { metric });
        }
        if !e.1.is_finite() {
            let metric = e.0.copy();
            assert(measurement_problem(rest) == Some(StoreError::NonFiniteValue { metric }));
            return Err(StoreError::NonFiniteValue { metric });
        }
    }
    assert(entries@.skip(n as int).len() == 0);
    Ok(())
}

/// The first document that may not be stored, and why.
pub open spec fn batch_validation(bs: Seq<Benchmark>) -> Result<(), StoreError>
    decreases bs.len(),
{
    if bs.len() == 0 {
        Ok(())
    } else {
        match validation(bs[0]) {
            Err(e) => Err(e),
            Ok(_) => batch_validation(bs.drop_first()),
        }
    }
}

/// Checks a whole batch before any of it is stored, so that a batch is stored
/// entirely or not at all.
pub fn validate_all(bs: &[Benchmark]) -> (r: Result<(), StoreError>)
    ensures
        r == batch_validation(bs@),
        r is Ok <==> forall|i: int| 0 <= i < bs@.len() ==> (#[trigger] validation(bs@[i])) is Ok,
{
    let n: usize = bs.len();
    proof {
        lemma_batch_ok(bs@);
    }
    assert(bs@.skip(0) == bs@);
    for i in 0..n
        invariant
            n == bs@.len(),
            batch_validation(bs@) == batch_validation(bs@.skip(i as int)),
            forall|j: int| 0 <= j < i ==> (#[trigger] validation(bs@[j])) is Ok,
    {
        assert(bs@.skip(i as int)[0] == bs@[i as int]);
        assert(bs@.skip(i as int).drop_first() == bs@.skip(i + 1));
        match validate(&bs[i]) {
            Err(e) => {
                return Err(e);
            },
            Ok(()) => {},
        }
    }
    assert(bs@.skip(n as int).len() == 0);
    Ok(())
}

proof fn lemma_batch_ok(bs: Seq<Benchmark>)
    ensures
        batch_validation(bs) is Ok <==> forall|i: int|
            0 <= i < bs.len() ==> (#[trigger] validation(bs[i])) is Ok,
    decreases bs.len(),
{
    if bs.len() > 0 {
        lemma_batch_ok(bs.drop_first());
        if batch_validation(bs) is Ok {
            assert forall|i: int| 0 <= i < bs.len() implies (#[trigger] validation(
                bs[i],
            )) is Ok by {
                if i > 0 {
                    assert(bs.drop_first()[i - 1] == bs[i]);
                }
            }
        } else {
            if validation(bs[0]) is Ok {
                let k = choose|k: int|
                    0 <= k < bs.drop_first().len() && !((#[trigger] validation(
                        bs.drop_first()[k],
                    )) is Ok);
                assert(bs.drop_first()[k] == bs[k + 1]);
            }
        }
    }
}

/// How many documents an ingestion added and how many replaced an earlier
/// run of the same CI workflow attempt.
#[derive(Debug, Default, Clone, Copy, PartialEq, Eq, Structural)]
pub struct IngestReport {
    pub inserted: usize,
    pub updated: usize,
}

impl IngestReport {
    /// A report of nothing stored.
    pub fn empty() -> (r: IngestReport)
        ensures
            r.inserted == 0,
            r.updated == 0,
    {
        IngestReport { inserted: 0, updated: 0 }
    }

    /// The number of documents stored.
    pub fn total(self) -> (r: usize)
        requires
            self.inserted + self.updated <= usize::MAX,
        ensures
            r == self.inserted + self.updated,
    {
        self.inserted + self.updated
    }

    /// Counts one stored document: `updated` when it replaced an earlier run.
    pub fn record(&mut self, updated: bool)
        requires
            old(self).inserted + old(self).updated < usize::MAX,
        ensures
            updated ==> final(self).updated == old(self).updated + 1 && final(self).inserted
                == old(self).inserted,
            !updated ==> final(self).inserted == old(self).inserted + 1 && final(self).updated
                == old(self).updated,
            final(self).inserted + final(self).updated == old(self).inserted + old(self).updated
                + 1,
    {
        if updated {
            self.updated = self.updated + 1;
        } else {
            self.inserted = self.inserted + 1;
        }
    }
}

/// A value bound to a statement parameter. `Real` holds IEEE 754 binary64
/// bits.
#[derive(Debug, PartialEq)]
pub enum SqlValue {
    Null,
    Integer(i64),
    Real(u64),
    Text(String),
}

/// The statements that store documents.
#[derive(Debug, Clone, Copy, PartialEq, Eq, Structural)]
pub enum SqlKind {
    FindRun,
    UpdateRun,
    InsertRun,
    DeleteMeasurements,
    DeleteParameters,
    DeleteEnvironment,
    InsertMeasurement,
    InsertParameter,
    InsertEnvironment,
}


/// Looks up the run with a CI identity.
pub const FIND_RUN_SQL: &'static str = "SELECT id FROM runs
                 WHERE repository = ?1 AND benchmark = ?2
                   AND workflow_run_id = ?3 AND workflow_run_attempt = ?4";

/// Replaces the metadata of a run.
pub const UPDATE_RUN_SQL: &'static str = "UPDATE runs SET
                 result_schema_version = ?1, commit_hash = ?2, branch = ?3,
                 commit_message = ?4, description = ?5, started_at = ?6,
                 workflow_run_number = ?7, status = ?8, error = ?9, raw_json = ?10
             WHERE id = ?11";

/// Adds a run.
pub const INSERT_RUN_SQL: &'static str = "INSERT INTO runs (
                 result_schema_version, repository, benchmark, commit_hash, branch,
                 commit_message, description, started_at, workflow_run_id,
                 workflow_run_attempt, workflow_run_number, status, error, raw_json
             ) VALUES (?1, ?2, ?3, ?4, ?5, ?6, ?7, ?8, ?9, ?10, ?11, ?12, ?13, ?14)";

/// Removes the measurements of a run.
pub const DELETE_MEASUREMENTS_SQL: &'static str = "DELETE FROM measurements WHERE run_id = ?1";

/// Removes the parameters of a run.
pub const DELETE_PARAMETERS_SQL: &'static str = "DELETE FROM parameters WHERE run_id = ?1";

/// Removes the environment entries of a run.
pub const DELETE_ENVIRONMENT_SQL: &'static str = "DELETE FROM environment WHERE run_id = ?1";

/// Adds a measurement of a run.
pub const INSERT_MEASUREMENT_SQL: &'static str = "INSERT INTO measurements (run_id, metric_id, label, unit, value)
             VALUES (?1, ?2, ?3, ?4, ?5)";

/// Adds a parameter of a run.
pub const INSERT_PARAMETER_SQL: &'static str = "INSERT INTO parameters (run_id, key, value) VALUES (?1, ?2, ?3)";

/// Adds an environment entry of a run.
pub const INSERT_ENVIRONMENT_SQL: &'static str = "INSERT INTO environment (run_id, key, value) VALUES (?1, ?2, ?3)";

/// The SQL text of each statement.
pub open spec fn sql_text(kind: SqlKind) -> Seq<char> {
    match kind {
        SqlKind::FindRun => FIND_RUN_SQL@,
        SqlKind::UpdateRun => UPDATE_RUN_SQL@,
        SqlKind::InsertRun => INSERT_RUN_SQL@,
        SqlKind::DeleteMeasurements => DELETE_MEASUREMENTS_SQL@,
        SqlKind::DeleteParameters => DELETE_PARAMETERS_SQL@,
        SqlKind::DeleteEnvironment => DELETE_ENVIRONMENT_SQL@,
        SqlKind::InsertMeasurement => INSERT_MEASUREMENT_SQL@,
        SqlKind::InsertParameter => INSERT_PARAMETER_SQL@,
        SqlKind::InsertEnvironment => INSERT_ENVIRONMENT_SQL@,
    }
}

impl SqlKind {
    /// The SQL text of the statement.
    pub fn sql(self) -> (r: &'static str)
        ensures
            r@ == sql_text(self),
    {
        match self {
            SqlKind::FindRun => FIND_RUN_SQL,
            SqlKind::UpdateRun => UPDATE_RUN_SQL,
            SqlKind::InsertRun => INSERT_RUN_SQL,
            SqlKind::DeleteMeasurements => DELETE_MEASUREMENTS_SQL,
            SqlKind::DeleteParameters => DELETE_PARAMETERS_SQL,
            SqlKind::DeleteEnvironment => DELETE_ENVIRONMENT_SQL,
            SqlKind::InsertMeasurement => INSERT_MEASUREMENT_SQL,
            SqlKind::InsertParameter => INSERT_PARAMETER_SQL,
            SqlKind::InsertEnvironment => INSERT_ENVIRONMENT_SQL,
        }
    }
}

/// A statement with its parameters, in the order `?1`, `?2`, ...
#[derive(Debug, PartialEq)]
pub struct SqlStatement {
    pub kind: SqlKind,
    pub params: Vec<SqlValue>,
}

/// The text of a text value.
pub open spec fn text_of(v: SqlValue) -> Option<Seq<char>> {
    match v {
        SqlValue::Text(s) => Some(s@),
        _ => None,
    }
}

/// The value is the text `t`.
pub open spec fn is_text(v: SqlValue, t: Seq<char>) -> bool {
    v matches SqlValue::Text(s) && s@ == t
}

/// The value is the optional text `t` (NULL for none).
pub open spec fn is_opt_text(v: SqlValue, t: Option<String>) -> bool {
    match t {
        Some(s) => is_text(v, s@),
        None => v is Null,
    }
}

fn text_value(s: &str) -> (r: SqlValue)
    ensures
        is_text(r, s@),
{
    SqlValue::Text(owned(s))
}

fn opt_text_value(s: &Option<String>) -> (r: SqlValue)
    ensures
        is_opt_text(r, *s),
{
    match s {
        Some(t) => SqlValue::Text(owned(t.as_str())),
        None => SqlValue::Null,
    }
}

/// The workflow attempt recorded for a run: the `GITHUB_RUN_ATTEMPT`
/// environment entry, or the empty text.
pub open spec fn attempt_of(b: Benchmark) -> Seq<char> {
    match lookup(b.environment@, "GITHUB_RUN_ATTEMPT"@) {
        Some(v) => v@,
        None => Seq::empty(),
    }
}

/// The workflow run number recorded for a run: the `GITHUB_RUN_NUMBER`
/// environment entry.
pub open spec fn run_number_of(b: Benchmark) -> Option<Seq<char>> {
    match lookup(b.environment@, "GITHUB_RUN_NUMBER"@) {
        Some(v) => Some(v@),
        None => None,
    }
}

pub fn run_attempt(b: &Benchmark) -> (r: String)
    ensures
        r@ == attempt_of(*b),
{
    match b.environment.get("GITHUB_RUN_ATTEMPT") {
        Some(v) => owned(v.as_str()),
        None => String::new(),
    }
}

pub fn run_number(b: &Benchmark) -> (r: Option<String>)
    ensures
        match r {
            Some(s) => run_number_of(*b) == Some(s@),
            None => run_number_of(*b) is None,
        },
{
    match b.environment.get("GITHUB_RUN_NUMBER") {
        Some(v) => Some(owned(v.as_str())),
        None => None,
    }
}

/// The CI identity of a document: repository, benchmark name, workflow run ID
/// and attempt; none when the document has no run ID.
pub open spec fn ci_identity(b: Benchmark) -> Option<(Seq<char>, Seq<char>, Seq<char>, Seq<char>)> {
    match b.run_id {
        Some(id) => Some((b.group.repository@, b.group.name@, id@, attempt_of(b))),
        None => None,
    }
}

/// The parameters of a lookup of the run with identity `id`.
pub open spec fn find_params(
    p: Seq<SqlValue>,
    id: (Seq<char>, Seq<char>, Seq<char>, Seq<char>),
) -> bool {
    &&& p.len() == 4
    &&& is_text(p[0], id.0)
    &&& is_text(p[1], id.1)
    &&& is_text(p[2], id.2)
    &&& is_text(p[3], id.3)
}

/// The query for an earlier run with the same CI identity, made only when the
/// document has a run ID; it yields the `id` of such a run.
pub fn find_run(b: &Benchmark) -> (r: Option<SqlStatement>)
    ensures
        r is Some <==> b.run_id is Some,
        r matches Some(st) ==> st.kind == SqlKind::FindRun && find_params(
            st.params@,
            ci_identity(*b)->0,
        ),
{
    match &b.run_id {
        Some(run_id) => {
            let mut params: Vec<SqlValue> = Vec::new();
            params.push(text_value(b.group.repository.as_str()));
            params.push(text_value(b.group.name.as_str()));
            params.push(text_value(run_id.as_str()));
            let attempt = run_attempt(b);
            params.push(text_value(attempt.as_str()));
            Some(SqlStatement { kind: SqlKind::FindRun, params })
        },
        None => None,
    }
}

/// The parameters that update run `id` with document `b`.
pub open spec fn update_params(p: Seq<SqlValue>, b: Benchmark, raw_json: Seq<char>, id: i64) -> bool {
    &&& p.len() == 11
    &&& p[0] == SqlValue::Integer(RESULT_SCHEMA_VERSION as i64)
    &&& is_text(p[1], b.commit@)
    &&& is_text(p[2], b.branch@)
    &&& is_opt_text(p[3], b.commit_message)
    &&& is_text(p[4], b.description@)
    &&& is_text(p[5], rfc3339_text(b.date@.0, b.date@.1))
    &&& (match run_number_of(b) {
        Some(t) => is_text(p[6], t),
        None => p[6] is Null,
    })
    &&& is_text(p[7], status_text(b.status))
    &&& is_opt_text(p[8], b.error)
    &&& is_text(p[9], raw_json)
    &&& p[10] == SqlValue::Integer(id)
}

/// The parameters that insert a new run for document `b`.
pub open spec fn insert_params(p: Seq<SqlValue>, b: Benchmark, raw_json: Seq<char>) -> bool {
    &&& p.len() == 14
    &&& p[0] == SqlValue::Integer(RESULT_SCHEMA_VERSION as i64)
    &&& is_text(p[1], b.group.repository@)
    &&& is_text(p[2], b.group.name@)
    &&& is_text(p[3], b.commit@)
    &&& is_text(p[4], b.branch@)
    &&& is_opt_text(p[5], b.commit_message)
    &&& is_text(p[6], b.description@)
    &&& is_text(p[7], rfc3339_text(b.date@.0, b.date@.1))
    &&& is_opt_text(p[8], b.run_id)
    &&& is_text(p[9], attempt_of(b))
    &&& (match run_number_of(b) {
        Some(t) => is_text(p[10], t),
        None => p[10] is Null,
    })
    &&& is_text(p[11], status_text(b.status))
    &&& is_opt_text(p[12], b.error)
    &&& is_text(p[13], raw_json)
}

/// A statement of `kind` whose only parameter is the run `id`.
pub open spec fn run_only(st: SqlStatement, kind: SqlKind, id: i64) -> bool {
    st.kind == kind && st.params@ == seq![SqlValue::Integer(id)]
}

/// The statements that store the run row of document `b` with its JSON text
/// `raw_json`, given the `id` of an earlier run with the same CI identity:
/// that run is updated in place and its measurements, parameters and
/// environment are removed (to be written again); without one, a new run is
/// inserted.
pub fn run_statements(b: &Benchmark, raw_json: &str, existing: Option<i64>) -> (r: Vec<SqlStatement>)
    ensures
        match existing {
            Some(id) => {
                &&& r@.len() == 4
                &&& r@[0].kind == SqlKind::UpdateRun
                &&& update_params(r@[0].params@, *b, raw_json@, id)
                &&& run_only(r@[1], SqlKind::DeleteMeasurements, id)
                &&& run_only(r@[2], SqlKind::DeleteParameters, id)
                &&& run_only(r@[3], SqlKind::DeleteEnvironment, id)
            },
            None => {
                &&& r@.len() == 1
                &&& r@[0].kind == SqlKind::InsertRun
                &&& insert_params(r@[0].params@, *b, raw_json@)
            },
        },
{
    let number = run_number(b);
    let started_at = b.date.to_rfc3339();
    let mut out: Vec<SqlStatement> = Vec::new();
    match existing {
        Some(id) => {
            let mut p: Vec<SqlValue> = Vec::new();
            p.push(SqlValue::Integer(RESULT_SCHEMA_VERSION as i64));
            p.push(text_value(b.commit.as_str()));
            p.push(text_value(b.branch.as_str()));
            p.push(opt_text_value(&b.commit_message));
            p.push(text_value(b.description.as_str()));
            p.push(text_value(started_at.as_str()));
            p.push(opt_text_value(&number));
            p.push(text_value(b.status.as_str()));
            p.push(opt_text_value(&b.error));
            p.push(text_value(raw_json));
            p.push(SqlValue::Integer(id));
            out.push(SqlStatement { kind: SqlKind::UpdateRun, params: p });
            let mut d1: Vec<SqlValue> = Vec::new();
            d1.push(SqlValue::Integer(id));
            out.push(SqlStatement { kind: SqlKind::DeleteMeasurements, params: d1 });
            let mut d2: Vec<SqlValue> = Vec::new();
            d2.push(SqlValue::Integer(id));
            out.push(SqlStatement { kind: SqlKind::DeleteParameters, params: d2 });
            let mut d3: Vec<SqlValue> = Vec::new();
            d3.push(SqlValue::Integer(id));
            out.push(SqlStatement { kind: SqlKind::DeleteEnvironment, params: d3 });
        },
        None => {
            let mut p: Vec<SqlValue> = Vec::new();
            p.push(SqlValue::Integer(RESULT_SCHEMA_VERSION as i64));
            p.push(text_value(b.group.repository.as_str()));
            p.push(text_value(b.group.name.as_str()));
            p.push(text_value(b.commit.as_str()));
            p.push(text_value(b.branch.as_str()));
            p.push(opt_text_value(&b.commit_message));
            p.push(text_value(b.description.as_str()));
            p.push(text_value(started_at.as_str()));
            p.push(opt_text_value(&b.run_id));
            let attempt = run_attempt(b);
            p.push(text_value(attempt.as_str()));
            p.push(opt_text_value(&number));
            p.push(text_value(b.status.as_str()));
            p.push(opt_text_value(&b.error));
            p.push(text_value(raw_json));
            out.push(SqlStatement { kind: SqlKind::InsertRun, params: p });
        },
    }
    out
}

/// The statement that stores measurement `e` of run `id`.
pub open spec fn measurement_row(st: SqlStatement, id: i64, e: (MetricId, Measurement)) -> bool {
    &&& st.kind == SqlKind::InsertMeasurement
    &&& st.params@.len() == 5
    &&& st.params@[0] == SqlValue::Integer(id)
    &&& is_text(st.params@[1], e.0@)
    &&& is_text(st.params@[2], e.1.label@)
    &&& is_text(st.params@[3], unit_text(e.1.unit))
    &&& st.params@[4] == SqlValue::Real(e.1.value_bits)
}

/// The statement of `kind` that stores entry `e` of run `id`.
pub open spec fn pair_row(st: SqlStatement, kind: SqlKind, id: i64, e: (String, String)) -> bool {
    &&& st.kind == kind
    &&& st.params@.len() == 3
    &&& st.params@[0] == SqlValue::Integer(id)
    &&& is_text(st.params@[1], e.0@)
    &&& is_text(st.params@[2], e.1@)
}

/// The statements that store the measurements, parameters and environment of
/// document `b` as rows of run `id`: one per entry, in key order,
/// measurements first, then parameters, then environment.
pub fn row_statements(b: &Benchmark, id: i64) -> (r: Vec<SqlStatement>)
    ensures
        r@.len() == b.measurements@.len() + b.parameters@.len() + b.environment@.len(),
        forall|k: int|
            0 <= k < b.measurements@.len() ==> measurement_row(
                #[trigger] r@[k],
                id,
                b.measurements@[k],
            ),
        forall|k: int|
            0 <= k < b.parameters@.len() ==> pair_row(
                #[trigger] r@[b.measurements@.len() + k],
                SqlKind::InsertParameter,
                id,
                b.parameters@[k],
            ),
        forall|k: int|
            0 <= k < b.environment@.len() ==> pair_row(
                #[trigger] r@[b.measurements@.len() + b.parameters@.len() + k],
                SqlKind::InsertEnvironment,
                id,
                b.environment@[k],
            ),
{
    let mut out: Vec<SqlStatement> = Vec::new();
    let ms = b.measurements.entries();
    let nm: usize = ms.len();
    for i in 0..nm
        invariant
            nm == ms@.len(),
            ms@ == b.measurements@,
            out@.len() == i,
            forall|k: int| 0 <= k < i ==> measurement_row(#[trigger] out@[k], id, ms@[k]),
    {
        let (metric, m) = &ms[i];
        let mut p: Vec<SqlValue> = Vec::new();
        p.push(SqlValue::Integer(id));
        p.push(text_value(metric.as_str()));
        p.push(text_value(m.label.as_str()));
        p.push(text_value(m.unit.as_str()));
        p.push(SqlValue::Real(m.value_bits));
        out.push(SqlStatement { kind: SqlKind::InsertMeasurement, params: p });
    }
    let ps = b.parameters.entries();
    let np: usize = ps.len();
    for i in 0..np
        invariant
            nm == b.measurements@.len(),
            np == ps@.len(),
            ps@ == b.parameters@,
            out@.len() == nm + i,
            forall|k: int|
                0 <= k < nm ==> measurement_row(#[trigger] out@[k], id, b.measurements@[k]),
            forall|k: int|
                0 <= k < i ==> pair_row(
                    #[trigger] out@[nm + k],
                    SqlKind::InsertParameter,
                    id,
                    ps@[k],
                ),
    {
        let (key, value) = &ps[i];
        let mut p: Vec<SqlValue> = Vec::new();
        p.push(SqlValue::Integer(id));
        p.push(text_value(key.as_str()));
        p.push(text_value(value.as_str()));
        out.push(SqlStatement { kind: SqlKind::InsertParameter, params: p });
        assert(out@[nm + i as int].kind == SqlKind::InsertParameter);
    }
    let es = b.environment.entries();
    let ne: usize = es.len();
    for i in 0..ne
        invariant
            nm == b.measurements@.len(),
            np == b.parameters@.len(),
            ne == es@.len(),
            es@ == b.environment@,
            out@.len() == nm + np + i,
            forall|k: int|
                0 <= k < nm ==> measurement_row(#[trigger] out@[k], id, b.measurements@[k]),
            forall|k: int|
                0 <= k < np ==> pair_row(
                    #[trigger] out@[nm + k],
                    SqlKind::InsertParameter,
                    id,
                    b.parameters@[k],
                ),
            forall|k: int|
                0 <= k < i ==> pair_row(
                    #[trigger] out@[nm + np + k],
                    SqlKind::InsertEnvironment,
                    id,
                    es@[k],
                ),
    {
        let (key, value) = &es[i];
        let mut p: Vec<SqlValue> = Vec::new();
        p.push(SqlValue::Integer(id));
        p.push(text_value(key.as_str()));
        p.push(text_value(value.as_str()));
        out.push(SqlStatement { kind: SqlKind::InsertEnvironment, params: p });
        assert(out@[nm + np + i as int].kind == SqlKind::InsertEnvironment);
    }
    out
}

/// Retrying a CI workflow attempt finds the run that the first attempt
/// stored: two documents with the same repository, benchmark name, run ID
/// and `GITHUB_RUN_ATTEMPT` are looked up with the same parameters, so the
/// second one updates the first one's run instead of adding a run. A document
/// without a run ID is never looked up, so it always adds a run.
pub proof fn lemma_same_ci_identity_same_lookup(
    a: Benchmark,
    b: Benchmark,
    pa: Seq<SqlValue>,
    pb: Seq<SqlValue>,
)
    requires
        a.run_id is Some,
        ci_identity(a) == ci_identity(b),
        find_params(pa, ci_identity(a)->0),
        find_params(pb, ci_identity(b)->0),
    ensures
        b.run_id is Some,
        pa.len() == pb.len(),
        forall|i: int|
            0 <= i < pa.len() ==> text_of(#[trigger] pa[i]) == text_of(pb[i]) && text_of(
                pa[i],
            ) is Some,
{
}

/// A retry finds the row that the first attempt inserted: the repository,
/// benchmark, workflow run ID and attempt that an insert of document `a`
/// writes (parameters `?2`, `?3`, `?9` and `?10`, the columns of the CI
/// identity) are the texts that the lookup for any document `b` with the same
/// CI identity compares (`?1` to `?4`). An update of the run writes none of
/// these columns, so later retries find it too.
pub proof fn lemma_retry_finds_inserted_run(
    a: Benchmark,
    b: Benchmark,
    raw_json: Seq<char>,
    inserted: Seq<SqlValue>,
    lookup_params: Seq<SqlValue>,
)
    requires
        a.run_id is Some,
        ci_identity(a) == ci_identity(b),
        insert_params(inserted, a, raw_json),
        find_params(lookup_params, ci_identity(b)->0),
    ensures
        text_of(inserted[1]) == text_of(lookup_params[0]),
        text_of(inserted[2]) == text_of(lookup_params[1]),
        text_of(inserted[8]) == text_of(lookup_params[2]),
        text_of(inserted[9]) == text_of(lookup_params[3]),
        text_of(inserted[1]) is Some,
        text_of(inserted[2]) is Some,
        text_of(inserted[8]) is Some,
        text_of(inserted[9]) is Some,
{
}

} // verus!
