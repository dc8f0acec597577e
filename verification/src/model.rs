//! The versioned benchmark result document (schema v1): identity, metadata,
//! measurements, and the rules on measurement IDs and schema versions.
use vstd::prelude::*;

use crate::sorted::{SortedMap, TextKey};
use crate::text::{chars_of, decimal, push_decimal, push_str};

verus! {

/// The result document version that this library reads and writes.
pub const RESULT_SCHEMA_VERSION: u32 = 1;

/// The `schema_version` field: it only ever holds [`RESULT_SCHEMA_VERSION`].
#[derive(Debug, Default, Clone, Copy, PartialEq, Eq, Structural)]
pub struct SchemaVersion;

/// A document declared a schema version that this library does not read.
#[derive(Debug, Clone, Copy, PartialEq, Eq, Structural)]
pub struct UnsupportedSchemaVersion {
    pub version: u32,
}

/// A reader accepts a document of schema `version` exactly when it is the
/// version this library writes.
pub open spec fn accepted_version(version: u32) -> bool {
    version == RESULT_SCHEMA_VERSION
}

/// What this library writes, it reads back: the schema version written by
/// [`SchemaVersion::version`] is accepted by [`SchemaVersion::from_version`],
/// and no other version is.
pub proof fn lemma_written_version_is_accepted(version: u32)
    ensures
        accepted_version(RESULT_SCHEMA_VERSION),
        version != RESULT_SCHEMA_VERSION ==> !accepted_version(version),
{
}

impl SchemaVersion {
    /// The number written for this field.
    pub fn version(self) -> (r: u32)
        ensures
            r == RESULT_SCHEMA_VERSION,
    {
        RESULT_SCHEMA_VERSION
    }

    /// Reads the field: only [`RESULT_SCHEMA_VERSION`] is accepted.
    pub fn from_version(version: u32) -> (r: Result<SchemaVersion, UnsupportedSchemaVersion>)
        ensures
            r is Ok <==> accepted_version(version),
            r matches Err(e) ==> e.version == version,
    {
        if version == RESULT_SCHEMA_VERSION {
            Ok(SchemaVersion)
        } else {
            Err(UnsupportedSchemaVersion { version })
        }
    }
}

impl UnsupportedSchemaVersion {
    /// "unsupported benchmark result schema version {version}"
    pub fn message(&self) -> (r: String)
        ensures
            r@ == "unsupported benchmark result schema version "@ + decimal(self.version as nat),
    {
        let mut s = String::new();
        push_str(&mut s, "unsupported benchmark result schema version ");
        push_decimal(&mut s, self.version as u64);
        s
    }
}

/// A lowercase ASCII letter.
pub open spec fn is_lower(c: char) -> bool {
    'a' <= c && c <= 'z'
}

/// A character that may follow the first one of a segment.
pub open spec fn is_segment_char(c: char) -> bool {
    is_lower(c) || ('0' <= c && c <= '9') || c == '-' || c == '_'
}

/// Position `i` begins a segment: it is the start of the text or follows a `.`.
pub open spec fn segment_start(s: Seq<char>, i: int) -> bool {
    i == 0 || s[i - 1] == '.'
}

/// Measurement IDs: lowercase dot-separated segments, each starting with an
/// ASCII letter followed by lowercase letters, digits, `_` or `-`.
/// Equivalently: every character is a segment character or `.`, and every
/// position that begins a segment (the start, and every position after a
/// `.`, the end included) holds a lowercase letter.
pub open spec fn valid_metric_id(s: Seq<char>) -> bool {
    &&& forall|i: int| 0 <= i < s.len() ==> is_segment_char(#[trigger] s[i]) || s[i] == '.'
    &&& forall|i: int|
        0 <= i <= s.len() && #[trigger] segment_start(s, i) ==> i < s.len() && is_lower(s[i])
}

fn is_lower_char(c: char) -> (r: bool)
    ensures
        r == is_lower(c),
{
    'a' <= c && c <= 'z'
}

fn is_segment_char_exec(c: char) -> (r: bool)
    ensures
        r == is_segment_char(c),
{
    is_lower_char(c) || ('0' <= c && c <= '9') || c == '-' || c == '_'
}

/// Whether `id` is a valid measurement ID.
pub fn is_valid_metric_id(id: &str) -> (r: bool)
    ensures
        r == valid_metric_id(id@),
{
    let cs = chars_of(id);
    let n: usize = cs.len();
    // `at_start`: the current position begins a segment
    let mut at_start = true;
    for i in 0..n
        invariant
            n == cs@.len(),
            cs@ == id@,
            at_start == segment_start(cs@, i as int),
            forall|j: int| 0 <= j < i ==> is_segment_char(#[trigger] cs@[j]) || cs@[j] == '.',
            forall|j: int|
                0 <= j < i && #[trigger] segment_start(cs@, j) ==> is_lower(cs@[j]),
    {
        let c = cs[i];
        if at_start {
            if !is_lower_char(c) {
                assert(segment_start(id@, i as int));
                return false;
            }
        } else if !(is_segment_char_exec(c) || c == '.') {
            return false;
        }
        at_start = c == '.';
    }
    if at_start {
        assert(segment_start(id@, n as int));
        return false;
    }
    proof {
        assert forall|i: int|
            0 <= i <= id@.len() && #[trigger] segment_start(id@, i) implies i < id@.len()
            && is_lower(id@[i]) by {
            if i == id@.len() {
                assert(segment_start(cs@, i));
            } else {
                assert(segment_start(cs@, i));
            }
        }
    }
    true
}

/// A stable machine identifier of a measurement.
#[derive(Debug, PartialEq, Eq, PartialOrd, Ord, Hash)]
pub struct MetricId(String);

/// A text that is not a valid measurement ID.
#[derive(Debug, Clone, PartialEq, Eq)]
pub struct InvalidMetricId(pub String);

impl View for MetricId {
    type V = Seq<char>;

    closed spec fn view(&self) -> Seq<char> {
        self.0@
    }
}

impl MetricId {
    #[verifier::type_invariant]
    closed spec fn valid(&self) -> bool {
        valid_metric_id(self.0@)
    }

    /// Accepts `id` exactly when it is a valid measurement ID.
    pub fn new(id: String) -> (r: Result<MetricId, InvalidMetricId>)
        ensures
            r is Ok <==> valid_metric_id(id@),
            match r {
                Ok(m) => m@ == id@,
                Err(e) => e.0@ == id@,
            },
    {
        if is_valid_metric_id(id.as_str()) {
            Ok(MetricId(id))
        } else {
            Err(InvalidMetricId(id))
        }
    }

    /// The ID's text, which is a valid measurement ID.
    pub fn as_str(&self) -> (r: &str)
        ensures
            r@ == self@,
            valid_metric_id(r@),
    {
        proof {
            use_type_invariant(self);
        }
        self.0.as_str()
    }

    /// A copy of the ID.
    pub fn copy(&self) -> (r: MetricId)
        ensures
            r == *self,
    {
        proof {
            use_type_invariant(self);
        }
        MetricId(self.0.clone())
    }
}

impl TextKey for MetricId {
    open spec fn text(&self) -> Seq<char> {
        self@
    }

    fn as_text(&self) -> (r: &str) {
        self.as_str()
    }

    fn duplicate(&self) -> (r: Self) {
        self.copy()
    }
}

/// The text that `{:?}` prints for a string (`<str as Debug>::fmt`).
pub uninterp spec fn debug_text(s: Seq<char>) -> Seq<char>;

/// `format!("{:?}", s)`: the string quoted and escaped as Rust's `Debug`
/// prints it. Its contract claims only that the result is a function of the
/// text.
#[verifier::external_body]
pub(crate) fn debug_quoted(s: &str) -> (r: String)
    ensures
        r@ == debug_text(s@),
{
    format!("{:?}", s)
}

impl InvalidMetricId {
    /// "invalid metric ID {id:?}; expected lowercase dot-separated identifiers"
    pub fn message(&self) -> (r: String)
        ensures
            r@ == "invalid metric ID "@ + debug_text(self.0@)
                + "; expected lowercase dot-separated identifiers"@,
    {
        let mut s = String::new();
        push_str(&mut s, "invalid metric ID ");
        let quoted = debug_quoted(self.0.as_str());
        push_str(&mut s, quoted.as_str());
        push_str(&mut s, "; expected lowercase dot-separated identifiers");
        s
    }
}

/// Whether the benchmark run completed.
#[derive(Debug, Clone, Copy, PartialEq, Eq, Structural)]
pub enum BenchmarkStatus {
    Success,
    Failed,
}

pub open spec fn status_text(status: BenchmarkStatus) -> Seq<char> {
    match status {
        BenchmarkStatus::Success => "success"@,
        BenchmarkStatus::Failed => "failed"@,
    }
}

impl BenchmarkStatus {
    /// The status with the given name, if any.
    pub fn from_text(text: &str) -> (r: Option<BenchmarkStatus>)
        ensures
            match r {
                Some(status) => status_text(status) == text@,
                None => text@ != "success"@ && text@ != "failed"@,
            },
    {
        if crate::text::text_eq(text, "success") {
            Some(BenchmarkStatus::Success)
        } else if crate::text::text_eq(text, "failed") {
            Some(BenchmarkStatus::Failed)
        } else {
            None
        }
    }

    /// The name written in result documents and the database.
    pub fn as_str(self) -> (r: &'static str)
        ensures
            r@ == status_text(self),
    {
        match self {
            BenchmarkStatus::Success => "success",
            BenchmarkStatus::Failed => "failed",
        }
    }
}

/// The unit of a measurement.
#[derive(Debug, Clone, Copy, PartialEq, Eq, Structural)]
#[non_exhaustive]
pub enum Unit {
    BitsPerSecond,
    Percent,
    Seconds,
    Count,
}

pub open spec fn unit_text(unit: Unit) -> Seq<char> {
    match unit {
        Unit::BitsPerSecond => "bits_per_second"@,
        Unit::Percent => "percent"@,
        Unit::Seconds => "seconds"@,
        Unit::Count => "count"@,
    }
}

impl Unit {
    /// The name written in result documents and the database.
    pub fn as_str(self) -> (r: &'static str)
        ensures
            r@ == unit_text(self),
    {
        match self {
            Unit::BitsPerSecond => "bits_per_second",
            Unit::Percent => "percent",
            Unit::Seconds => "seconds",
            Unit::Count => "count",
        }
    }
}

/// An IEEE 754 binary64 value, given by its bits, is finite: its exponent
/// field is not all ones.
pub open spec fn finite_bits(bits: u64) -> bool {
    (bits >> 52u64) & 0x7ffu64 != 0x7ffu64
}

/// One measured value. `value_bits` holds the IEEE 754 binary64 bits of the
/// value (`f64::to_bits`).
#[derive(Debug, Clone, PartialEq)]
pub struct Measurement {
    pub label: String,
    pub unit: Unit,
    pub value_bits: u64,
}

impl Measurement {
    /// Whether the value is finite (`f64::is_finite`).
    pub fn is_finite(&self) -> (r: bool)
        ensures
            r == finite_bits(self.value_bits),
    {
        (self.value_bits >> 52u64) & 0x7ffu64 != 0x7ffu64
    }
}

/// The identity of a benchmark: together with a measurement ID it names a
/// time series.
#[derive(Debug, Clone, PartialEq, Eq, PartialOrd, Ord, Hash)]
pub struct BenchmarkGroup {
    pub repository: String,
    pub name: String,
}

impl BenchmarkGroup {
    /// A copy of the group.
    pub fn copy(&self) -> (r: BenchmarkGroup)
        ensures
            r == *self,
    {
        BenchmarkGroup { repository: self.repository.clone(), name: self.name.clone() }
    }
}

/// Whether `chrono::DateTime::<Utc>::from_timestamp(secs, nanos)` yields an
/// instant: `secs` non-leap seconds since the Unix epoch within chrono's
/// range, and `nanos` a valid nanosecond (above 10^9 only in a leap second).
pub uninterp spec fn utc_instant_exists(secs: i64, nanos: u32) -> bool;

/// The text `chrono::DateTime::<Utc>::to_rfc3339` writes for the instant
/// `from_timestamp(secs, nanos)`, such as `2026-09-25T12:00:00+00:00`.
pub uninterp spec fn rfc3339_text(secs: i64, nanos: u32) -> Seq<char>;

/// Calls `chrono::DateTime::<Utc>::from_timestamp`; the contract claims that
/// the answer is a function of the two numbers, named [`utc_instant_exists`].
#[verifier::external_body]
fn utc_instant(secs: i64, nanos: u32) -> (r: bool)
    ensures
        r == utc_instant_exists(secs, nanos),
{
    chrono::DateTime::<chrono::Utc>::from_timestamp(secs, nanos).is_some()
}

/// Calls `chrono::DateTime::<Utc>::to_rfc3339`, on the instant that
/// `from_timestamp(secs, nanos)` builds from the two numbers (which the
/// `requires` guarantees exists); the contract claims that the text is a
/// function of the two numbers, named [`rfc3339_text`], and nothing of its
/// form.
#[verifier::external_body]
fn utc_rfc3339(secs: i64, nanos: u32) -> (r: String)
    requires
        utc_instant_exists(secs, nanos),
    ensures
        r@ == rfc3339_text(secs, nanos),
{
    match chrono::DateTime::<chrono::Utc>::from_timestamp(secs, nanos) {
        Some(instant) => instant.to_rfc3339(),
        None => String::new(),
    }
}

/// An instant in UTC, as `chrono::DateTime<Utc>` holds it: whole seconds
/// since the Unix epoch and nanoseconds.
#[derive(Debug, Clone, Copy, PartialEq, Eq, Structural)]
pub struct Timestamp {
    secs: i64,
    nanos: u32,
}

impl View for Timestamp {
    type V = (i64, u32);

    closed spec fn view(&self) -> (i64, u32) {
        (self.secs, self.nanos)
    }
}

impl Timestamp {
    #[verifier::type_invariant]
    closed spec fn representable(&self) -> bool {
        utc_instant_exists(self.secs, self.nanos)
    }

    /// The instant `secs` seconds and `nanos` nanoseconds after the Unix
    /// epoch, when chrono can represent it.
    pub fn new(secs: i64, nanos: u32) -> (r: Option<Timestamp>)
        ensures
            r is Some <==> utc_instant_exists(secs, nanos),
            r matches Some(t) ==> t@ == (secs, nanos),
    {
        if utc_instant(secs, nanos) {
            Some(Timestamp { secs, nanos })
        } else {
            None
        }
    }

    /// Seconds since the Unix epoch (`DateTime::timestamp`).
    pub fn secs(&self) -> (r: i64)
        ensures
            r == self@.0,
    {
        self.secs
    }

    /// Nanoseconds within the second (`DateTime::timestamp_subsec_nanos`).
    pub fn nanos(&self) -> (r: u32)
        ensures
            r == self@.1,
    {
        self.nanos
    }

    /// The RFC 3339 text of the instant (`DateTime::to_rfc3339`).
    pub fn to_rfc3339(&self) -> (r: String)
        ensures
            r@ == rfc3339_text(self@.0, self@.1),
    {
        proof {
            use_type_invariant(self);
        }
        utc_rfc3339(self.secs, self.nanos)
    }
}

/// One benchmark result document.
#[derive(Debug, PartialEq)]
pub struct Benchmark {
    pub schema_version: SchemaVersion,
    pub group: BenchmarkGroup,
    pub commit: String,
    pub branch: String,
    pub commit_message: Option<String>,
    pub description: String,
    /// When the benchmark started.
    pub date: Timestamp,
    pub measurements: SortedMap<MetricId, Measurement>,
    pub run_id: Option<String>,
    pub status: BenchmarkStatus,
    pub error: Option<String>,
    pub parameters: SortedMap<String, String>,
    pub environment: SortedMap<String, String>,
}

} // verus!
