//! The results server: which routes it serves and how it answers a failure.
use vstd::prelude::*;

use crate::text::{chars_of, owned, push_str};

verus! {

/// The HTTP status of an internal server error.
pub const INTERNAL_SERVER_ERROR: u16 = 500;

/// A failed API request: its HTTP status and message.
#[derive(Debug, PartialEq, Eq)]
pub struct ApiError {
    pub status: u16,
    pub message: String,
}

/// An internal server error carrying `message`.
pub fn internal_error(message: String) -> (r: ApiError)
    ensures
        r.status == INTERNAL_SERVER_ERROR,
        r.message == message,
{
    ApiError { status: INTERNAL_SERVER_ERROR, message }
}

/// What went wrong while answering a request.
#[derive(Debug, Clone, Copy, PartialEq, Eq, Structural)]
pub enum ApiFailure {
    /// The blocking database task did not complete.
    Task,
    /// Reading the stored benchmarks failed.
    Query,
    /// The database could not be opened or read for the health check.
    Unavailable,
}

pub open spec fn failure_prefix(kind: ApiFailure) -> Seq<char> {
    match kind {
        ApiFailure::Task => "database task failed: "@,
        ApiFailure::Query => "failed to query benchmarks: "@,
        ApiFailure::Unavailable => "database is unavailable: "@,
    }
}

/// The internal error that answers a failure of `kind` with detail `detail`.
pub fn api_failure(kind: ApiFailure, detail: &str) -> (r: ApiError)
    ensures
        r.status == INTERNAL_SERVER_ERROR,
        r.message@ == failure_prefix(kind) + detail@,
{
    let mut s = match kind {
        ApiFailure::Task => owned("database task failed: "),
        ApiFailure::Query => owned("failed to query benchmarks: "),
        ApiFailure::Unavailable => owned("database is unavailable: "),
    };
    push_str(&mut s, detail);
    internal_error(s)
}

/// The routes the server mounts and where it finds its files.
#[derive(Debug, PartialEq, Eq)]
pub struct ServerPlan {
    /// The SQLite database the API reads.
    pub database: String,
    /// Where the API routes are mounted.
    pub api_base: String,
    /// The API routes below `api_base`.
    pub api_routes: Vec<String>,
    /// The directory served at `/`, when it exists.
    pub frontend: Option<String>,
}

/// Plans the server: the API (`/api/benchmarks`, `/api/health`) on
/// `database`, and the frontend directory served at `/` only when it is a
/// directory; otherwise the API alone.
pub fn rocket(database: String, frontend: String, frontend_is_dir: bool) -> (r: ServerPlan)
    ensures
        r.database == database,
        r.api_base@ == "/api"@,
        r.api_routes@.len() == 2,
        r.api_routes@[0]@ == "/benchmarks"@,
        r.api_routes@[1]@ == "/health"@,
        frontend_is_dir ==> r.frontend == Some(frontend),
        !frontend_is_dir ==> r.frontend is None,
{
    let mut routes: Vec<String> = Vec::new();
    routes.push(owned("/benchmarks"));
    routes.push(owned("/health"));
    ServerPlan {
        database,
        api_base: owned("/api"),
        api_routes: routes,
        frontend: if frontend_is_dir {
            Some(frontend)
        } else {
            None
        },
    }
}

/// The warning logged when the frontend directory is missing.
pub fn missing_frontend_warning(frontend: &str) -> (r: String)
    ensures
        r@ == "frontend directory "@ + frontend@ + " does not exist; serving the API only"@,
{
    let mut s = owned("frontend directory ");
    push_str(&mut s, frontend);
    push_str(&mut s, " does not exist; serving the API only");
    s
}

/// `Path::join` of a relative path `rel` onto `base`: a `/` goes between
/// them unless `base` is empty or already ends in one.
pub open spec fn join_path(base: Seq<char>, rel: Seq<char>) -> Seq<char> {
    if base.len() == 0 || base.last() == '/' {
        base + rel
    } else {
        base + "/"@ + rel
    }
}

/// Joins the relative path `rel` onto `base`.
pub fn join_path_text(base: &str, rel: &str) -> (r: String)
    ensures
        r@ == join_path(base@, rel@),
{
    let cs = chars_of(base);
    let mut s = owned(base);
    if cs.len() > 0 && cs[cs.len() - 1] != '/' {
        push_str(&mut s, "/");
    }
    push_str(&mut s, rel);
    s
}

/// The directory that holds application data: `$XDG_DATA_HOME`, else
/// `$HOME/.local/share`, else the working directory.
pub open spec fn data_directory_of(xdg_data_home: Option<String>, home: Option<String>) -> Seq<char> {
    match xdg_data_home {
        Some(x) => x@,
        None => match home {
            Some(h) => join_path(h@, ".local/share"@),
            None => "."@,
        },
    }
}

/// The data directory, from the values of `XDG_DATA_HOME` and `HOME`.
pub fn data_directory(xdg_data_home: Option<String>, home: Option<String>) -> (r: String)
    ensures
        r@ == data_directory_of(xdg_data_home, home),
{
    match xdg_data_home {
        Some(x) => x,
        None => match home {
            Some(h) => join_path_text(h.as_str(), ".local/share"),
            None => owned("."),
        },
    }
}

/// The database the server reads: `BENCHY_DATABASE_PATH` when set, else
/// `benchy/results.sqlite3` in the data directory.
pub fn database_path(
    configured: Option<String>,
    xdg_data_home: Option<String>,
    home: Option<String>,
) -> (r: String)
    ensures
        configured matches Some(c) ==> r == c,
        configured is None ==> r@ == join_path(
            data_directory_of(xdg_data_home, home),
            "benchy/results.sqlite3"@,
        ),
{
    match configured {
        Some(c) => c,
        None => {
            let dir = data_directory(xdg_data_home, home);
            join_path_text(dir.as_str(), "benchy/results.sqlite3")
        },
    }
}

/// The frontend the server serves: `BENCHY_FRONTEND_PATH` when set, else
/// `benchy-gui/dist`.
pub fn frontend_path(configured: Option<String>) -> (r: String)
    ensures
        configured matches Some(c) ==> r == c,
        configured is None ==> r@ == "benchy-gui/dist"@,
{
    match configured {
        Some(c) => c,
        None => owned("benchy-gui/dist"),
    }
}

} // verus!
