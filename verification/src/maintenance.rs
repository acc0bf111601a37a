//! Database maintenance: schema migration, view queries, backup and restore.

use vstd::prelude::*;

use crate::config::path_detail;
use crate::errors::{and_detail, detail, ErrorCode, ErrorV, ReviewKBError};
use crate::json::{texts, Json, JsonV};
use crate::path_util::{
    expanded, expanduser, file_name_of, last_name, lexpath_resolve, optional, optional_text,
    parent_of, parent_path, path_join, path_joined, resolved,
};
use crate::protocol::{
    row_view, rows_view, statement, Cell, CellV, Failure, FailureV, Handle, Reply, ReplyV, Request,
    RequestV, Row, RowV, Statement, StatementV, Step, StepV,
};
use crate::repository::{
    first_integer, integer_in, integrity_query, no_integer, no_integer_in, schema_query, Repository,
    RepositoryError, RepositoryErrorV, LATEST_SCHEMA_VERSION,
};
use crate::rows::{no_text, no_text_in};
use crate::text::{begins, same, strings};

verus! {

broadcast use crate::json::group_json;

// ---- migration ----

/// The tables of projects, rules and synchronisations.
pub const MIGRATION_001: &'static str = "CREATE TABLE projects (project_id TEXT PRIMARY KEY, project_name TEXT NOT NULL, checklist_path TEXT NOT NULL, schema_version INTEGER NOT NULL, checklist_version TEXT NOT NULL, content_hash TEXT NOT NULL, knowledge_revision TEXT NOT NULL, source_mtime_ns INTEGER, description_json TEXT NOT NULL, created_at TEXT NOT NULL, updated_at TEXT NOT NULL); CREATE TABLE rules (project_id TEXT NOT NULL REFERENCES projects(project_id) ON DELETE CASCADE, rule_key TEXT NOT NULL, ordinal INTEGER NOT NULL, summary TEXT NOT NULL, content TEXT NOT NULL, tags_json TEXT NOT NULL, paths_json TEXT NOT NULL, languages_json TEXT NOT NULL, source_rule_hash TEXT NOT NULL, PRIMARY KEY (project_id, rule_key), UNIQUE (project_id, ordinal)); CREATE TABLE sync_history (sync_id INTEGER PRIMARY KEY AUTOINCREMENT, project_id TEXT NOT NULL, action TEXT NOT NULL, old_version TEXT, new_version TEXT, old_hash TEXT, new_hash TEXT, result TEXT NOT NULL, warnings_json TEXT NOT NULL, error_code TEXT, created_at TEXT NOT NULL);";

/// The tables of overrides and of the audit log. An override outlives the rule rows, which every
/// refresh replaces.
pub const MIGRATION_002: &'static str = "CREATE TABLE rule_overrides (project_id TEXT NOT NULL REFERENCES projects(project_id) ON DELETE CASCADE, rule_key TEXT NOT NULL, summary TEXT, content TEXT, tags_json TEXT, paths_json TEXT, languages_json TEXT, base_source_rule_hash TEXT NOT NULL, status TEXT NOT NULL CHECK (status IN ('active', 'conflict', 'disabled')), reason TEXT NOT NULL, created_at TEXT NOT NULL, updated_at TEXT NOT NULL, PRIMARY KEY (project_id, rule_key)); CREATE TABLE audit_log (audit_id INTEGER PRIMARY KEY AUTOINCREMENT, project_id TEXT NOT NULL, rule_key TEXT, action TEXT NOT NULL, reason TEXT NOT NULL, change_json TEXT NOT NULL, created_at TEXT NOT NULL); CREATE VIEW overrides AS SELECT * FROM rule_overrides;";

/// The script that leads to a schema version.
pub open spec fn migration_script(version: int) -> Seq<char> {
    if version == 1 {
        MIGRATION_001@
    } else {
        MIGRATION_002@
    }
}

/// The table that records which migrations are applied.
pub open spec fn migrations_table() -> Seq<char> {
    "CREATE TABLE IF NOT EXISTS schema_migrations (version INTEGER PRIMARY KEY, applied_at TEXT NOT NULL)"@
}

/// The versions that are applied.
pub open spec fn versions_query() -> StatementV {
    statement("SELECT version FROM schema_migrations"@)
}

/// The record of an applied migration.
pub open spec fn version_insert(version: int, now: Seq<char>) -> StatementV {
    statement("INSERT INTO schema_migrations(version, applied_at) VALUES (?, ?)"@).cell(
        CellV::Integer(version),
    ).text(now)
}

/// Where a migration stands.
#[derive(Debug)]
pub enum MigrateStage {
    /// The table of migrations is being made.
    Table,
    /// The applied versions are being read.
    Versions,
    /// The script of a version is running; the others are still to come.
    Script(i64, Vec<i64>),
    /// A version is being recorded; the others are still to come.
    Record(i64, Vec<i64>),
}

/// A migration of the database at `path`.
#[derive(Debug)]
pub struct Migration {
    pub path: String,
    pub stage: MigrateStage,
}

/// What a [`MigrateStage`] stands for.
pub enum MigrateStageV {
    Table,
    Versions,
    Script(int, Seq<int>),
    Record(int, Seq<int>),
}

/// What a [`Migration`] stands for.
pub struct MigrationV {
    pub path: Seq<char>,
    pub stage: MigrateStageV,
}

/// The views of a list of versions.
pub open spec fn versions_view(list: Seq<i64>) -> Seq<int> {
    list.map_values(|v: i64| v as int)
}

impl View for Migration {
    type V = MigrationV;

    open spec fn view(&self) -> MigrationV {
        MigrationV {
            path: self.path@,
            stage: match self.stage {
                MigrateStage::Table => MigrateStageV::Table,
                MigrateStage::Versions => MigrateStageV::Versions,
                MigrateStage::Script(v, list) => MigrateStageV::Script(
                    v as int,
                    versions_view(list@),
                ),
                MigrateStage::Record(v, list) => MigrateStageV::Record(
                    v as int,
                    versions_view(list@),
                ),
            },
        }
    }
}

/// Whether a row is that of a version.
pub open spec fn is_version_row(row: RowV, version: int) -> bool {
    row.len() > 0 && row[0].1 == CellV::Integer(version)
}

/// Whether a version is among the rows that record applied ones.
pub open spec fn is_applied(rows: Seq<RowV>, version: int) -> bool {
    exists|i: int| 0 <= i < rows.len() && #[trigger] is_version_row(rows[i], version)
}

/// The newest applied version, at least zero.
pub open spec fn newest(rows: Seq<RowV>) -> int
    decreases rows.len(),
{
    if rows.len() == 0 {
        0
    } else {
        let front = newest(rows.drop_last());
        let row = rows.last();
        if row.len() > 0 && row[0].1 is Integer && row[0].1->Integer_0 > front {
            row[0].1->Integer_0
        } else {
            front
        }
    }
}

/// The versions that are still to be applied, oldest first.
pub open spec fn pending(rows: Seq<RowV>) -> Seq<int> {
    (if is_applied(rows, 1) {
        Seq::empty()
    } else {
        seq![1int]
    }) + (if is_applied(rows, 2) {
        Seq::empty()
    } else {
        seq![2int]
    })
}

/// The error for a schema that a newer library made.
pub open spec fn too_new_error(version: int, path: Seq<char>) -> ErrorV {
    ErrorV {
        code: ErrorCode::DbSchemaUnsupported,
        message: "database schema is newer than this CLI supports"@,
        details: and_detail(
            and_detail(
                detail("schema_version"@, JsonV::Int(version)),
                "supported"@,
                JsonV::Int(LATEST_SCHEMA_VERSION as int),
            ),
            "path"@,
            JsonV::Text(path),
        ),
    }
}

/// The error for a migration that failed.
pub open spec fn migration_error(f: FailureV, path: Seq<char>) -> ErrorV {
    ErrorV {
        code: ErrorCode::DbIntegrityError,
        message: "database migration failed: "@ + f.text,
        details: path_detail(path),
    }
}

/// A failure that comes from a row rather than from the engine.
pub open spec fn row_failure(message: Seq<char>) -> FailureV {
    FailureV { text: message, engine: None, busy: false }
}

/// A failure that comes from a row rather than from the engine.
pub fn bad_row(message: &str) -> (r: Failure)
    ensures
        r@ == row_failure(message@),
{
    Failure { text: message.to_string(), engine: None, busy: false }
}

/// The diagnostic for a reply of a kind that the request does not have.
pub open spec fn misplaced() -> Seq<char> {
    "unexpected reply"@
}

/// The error for a reply of a kind that the request does not have.
pub open spec fn misplaced_error() -> RepositoryErrorV {
    RepositoryErrorV::Io(misplaced())
}

fn misplaced_reply() -> (r: RepositoryError)
    ensures
        r@ == misplaced_error(),
{
    RepositoryError::Io("unexpected reply".to_string())
}

/// The next step of a migration with these versions left.
pub open spec fn migrate_on(path: Seq<char>, left: Seq<int>) -> StepV<
    MigrationV,
    RepositoryErrorV,
> {
    if left.len() == 0 {
        StepV::Done(Ok(JsonV::Null))
    } else {
        StepV::Ask(
            RequestV::Script(Handle::Main, migration_script(left[0])),
            MigrationV { path, stage: MigrateStageV::Script(left[0], left.skip(1)) },
        )
    }
}

/// The first step of a migration.
pub open spec fn migrate_start(path: Seq<char>) -> StepV<MigrationV, RepositoryErrorV> {
    StepV::Ask(
        RequestV::Script(Handle::Main, migrations_table()),
        MigrationV { path, stage: MigrateStageV::Table },
    )
}

/// The next step of a migration.
pub open spec fn migrate_next(m: MigrationV, reply: ReplyV, now: Seq<char>) -> StepV<
    MigrationV,
    RepositoryErrorV,
> {
    match (m.stage, reply) {
        (MigrateStageV::Table, ReplyV::Done) => StepV::Ask(
            RequestV::Query(Handle::Main, versions_query()),
            MigrationV { stage: MigrateStageV::Versions, ..m },
        ),
        (MigrateStageV::Table, ReplyV::Failed(f)) => StepV::Done(Err(RepositoryErrorV::Sqlite(f))),
        (MigrateStageV::Versions, ReplyV::Rows(rows)) => if newest(rows) > LATEST_SCHEMA_VERSION {
            StepV::Done(Err(RepositoryErrorV::Kb(too_new_error(newest(rows), m.path))))
        } else {
            migrate_on(m.path, pending(rows))
        },
        (MigrateStageV::Versions, ReplyV::Failed(f)) => StepV::Done(
            Err(RepositoryErrorV::Sqlite(f)),
        ),
        (MigrateStageV::Script(version, rest), ReplyV::Done) => StepV::Ask(
            RequestV::Execute(version_insert(version, now)),
            MigrationV { stage: MigrateStageV::Record(version, rest), ..m },
        ),
        (MigrateStageV::Script(_, _), ReplyV::Failed(f)) => StepV::Done(
            Err(RepositoryErrorV::Kb(migration_error(f, m.path))),
        ),
        (MigrateStageV::Record(_, rest), ReplyV::Done) => migrate_on(m.path, rest),
        (MigrateStageV::Record(_, _), ReplyV::Failed(f)) => StepV::Done(
            Err(RepositoryErrorV::Kb(migration_error(f, m.path))),
        ),
        _ => StepV::Done(Err(misplaced_error())),
    }
}

fn applied(rows: &Vec<Row>, version: i64) -> (r: bool)
    ensures
        r == is_applied(rows_view(rows@), version as int),
{
    let ghost all = rows_view(rows@);
    let mut i: usize = 0;
    while i < rows.len()
        invariant
            i <= rows@.len(),
            all == rows_view(rows@),
            forall|k: int| 0 <= k < i ==> !#[trigger] is_version_row(all[k], version as int),
        decreases rows@.len() - i,
    {
        let row = &rows[i];
        assert(all[i as int] == row_view(row@));
        if row.len() > 0 {
            assert(row_view(row@)[0] == (row@[0].0@, row@[0].1@));
            if let Cell::Integer(n) = &row[0].1 {
                if *n == version {
                    assert(is_version_row(all[i as int], version as int));
                    return true;
                }
            }
        }
        i += 1;
    }
    false
}

fn newest_version(rows: &Vec<Row>) -> (r: i64)
    ensures
        r == newest(rows_view(rows@)),
{
    let ghost all = rows_view(rows@);
    let mut top: i64 = 0;
    let mut i: usize = 0;
    assert(all.take(0) =~= Seq::empty());
    while i < rows.len()
        invariant
            i <= rows@.len(),
            all == rows_view(rows@),
            top == newest(all.take(i as int)),
        decreases rows@.len() - i,
    {
        let row = &rows[i];
        proof {
            assert(all.take(i + 1).drop_last() =~= all.take(i as int));
            assert(all.take(i + 1).last() == row_view(row@));
        }
        if row.len() > 0 {
            assert(row_view(row@)[0] == (row@[0].0@, row@[0].1@));
            if let Cell::Integer(n) = &row[0].1 {
                if *n > top {
                    top = *n;
                }
            }
        }
        i += 1;
    }
    assert(all.take(i as int) =~= all);
    top
}

fn migrate_left(path: String, left: Vec<i64>) -> (r: Step<Migration, RepositoryError>)
    ensures
        r@ == migrate_on(path@, versions_view(left@)),
{
    let mut left = left;
    if left.len() == 0 {
        return Step::Done(Ok(Json::Null));
    }
    let ghost all = left@;
    let version: i64 = left.remove(0);
    assert(versions_view(left@) =~= versions_view(all).skip(1));
    let script = if version == 1 {
        MIGRATION_001
    } else {
        MIGRATION_002
    };
    Step::Ask(
        Request::Script(Handle::Main, script.to_string()),
        Migration { path, stage: MigrateStage::Script(version, left) },
    )
}

/// `path` in the details of an error.
fn path_details(path: &str) -> (r: Json)
    ensures
        r@ == path_detail(path@),
{
    Json::object().with("path", Json::text(path))
}

/// A domain error of the repository.
pub open spec fn kb(code: ErrorCode, message: Seq<char>, details: JsonV) -> RepositoryErrorV {
    RepositoryErrorV::Kb(ErrorV { code, message, details })
}

fn domain(code: ErrorCode, message: String, details: Json) -> (r: RepositoryError)
    ensures
        r@ == kb(code, message@, details@),
{
    RepositoryError::Kb(ReviewKBError::new(code, message, details))
}

/// `a` and `b`, one after the other.
fn glue(a: &str, b: &str) -> (r: String)
    ensures
        r@ == a@ + b@,
{
    let mut r = a.to_string();
    r.push_str(b);
    r
}

impl Repository {
    /// Applies the migrations that are pending.
    pub fn migrate(&self) -> (r: Step<Migration, RepositoryError>)
        ensures
            r@ == migrate_start(self.path@),
    {
        Step::Ask(
            Request::Script(
                Handle::Main,
                "CREATE TABLE IF NOT EXISTS schema_migrations (version INTEGER PRIMARY KEY, applied_at TEXT NOT NULL)".to_string(),
            ),
            Migration { path: self.path.clone(), stage: MigrateStage::Table },
        )
    }
}

impl Migration {
    fn failed(path: &str, f: &Failure) -> (r: RepositoryError)
        ensures
            r@ == RepositoryErrorV::Kb(migration_error(f@, path@)),
    {
        domain(
            ErrorCode::DbIntegrityError,
            glue("database migration failed: ", f.text.as_str()),
            path_details(path),
        )
    }

    /// Goes on with what the last request brought.
    pub fn resume(self, reply: Reply, now: &str) -> (r: Step<Migration, RepositoryError>)
        ensures
            r@ == migrate_next(self@, reply@, now@),
    {
        let Migration { path, stage } = self;
        match (stage, reply) {
            (MigrateStage::Table, Reply::Done) => Step::Ask(
                Request::Query(
                    Handle::Main,
                    Statement::new("SELECT version FROM schema_migrations"),
                ),
                Migration { path, stage: MigrateStage::Versions },
            ),
            (MigrateStage::Table, Reply::Failed(f)) => Step::Done(Err(RepositoryError::Sqlite(f))),
            (MigrateStage::Versions, Reply::Rows(rows)) => {
                let top: i64 = newest_version(&rows);
                if top > LATEST_SCHEMA_VERSION {
                    return Step::Done(
                        Err(
                            domain(
                                ErrorCode::DbSchemaUnsupported,
                                "database schema is newer than this CLI supports".to_string(),
                                Json::object().with("schema_version", Json::Int(top)).with(
                                    "supported",
                                    Json::Int(LATEST_SCHEMA_VERSION),
                                ).with("path", Json::text(path.as_str())),
                            ),
                        ),
                    );
                }
                let mut left: Vec<i64> = Vec::new();
                if !applied(&rows, 1) {
                    left.push(1);
                }
                if !applied(&rows, 2) {
                    left.push(2);
                }
                assert(versions_view(left@) =~= pending(rows_view(rows@)));
                migrate_left(path, left)
            },
            (MigrateStage::Versions, Reply::Failed(f)) => Step::Done(
                Err(RepositoryError::Sqlite(f)),
            ),
            (MigrateStage::Script(version, rest), Reply::Done) => Step::Ask(
                Request::Execute(
                    Statement::new(
                        "INSERT INTO schema_migrations(version, applied_at) VALUES (?, ?)",
                    ).number(version).text(now),
                ),
                Migration { path, stage: MigrateStage::Record(version, rest) },
            ),
            (MigrateStage::Script(_, _), Reply::Failed(f)) => Step::Done(
                Err(Migration::failed(path.as_str(), &f)),
            ),
            (MigrateStage::Record(_, rest), Reply::Done) => migrate_left(path, rest),
            (MigrateStage::Record(_, _), Reply::Failed(f)) => Step::Done(
                Err(Migration::failed(path.as_str(), &f)),
            ),
            _ => Step::Done(Err(misplaced_reply())),
        }
    }
}

// ---- view queries ----

/// The order in which the rows of a view come, where there is such a view.
pub open spec fn view_order(view: Seq<char>) -> Option<Seq<char>> {
    if view == "projects"@ {
        Some("project_id"@)
    } else if view == "rules"@ {
        Some("project_id, ordinal"@)
    } else if view == "overrides"@ {
        Some("project_id, rule_key"@)
    } else if view == "sync_history"@ {
        Some("sync_id"@)
    } else if view == "audit_log"@ {
        Some("audit_id"@)
    } else {
        None
    }
}

fn query_view_order(view: &str) -> (r: Option<&'static str>)
    ensures
        match r {
            Some(o) => view_order(view@) == Some(o@),
            None => view_order(view@) is None,
        },
{
    if same(view, "projects") {
        Some("project_id")
    } else if same(view, "rules") {
        Some("project_id, ordinal")
    } else if same(view, "overrides") {
        Some("project_id, rule_key")
    } else if same(view, "sync_history") {
        Some("sync_id")
    } else if same(view, "audit_log") {
        Some("audit_id")
    } else {
        None
    }
}

/// The views that can be queried.
pub open spec fn view_names() -> Seq<Seq<char>> {
    seq!["audit_log"@, "overrides"@, "projects"@, "rules"@, "sync_history"@]
}

/// The rows of a view, or why they cannot be queried.
pub open spec fn view_query(view: Seq<char>, project_id: Option<Seq<char>>, limit: int) -> Result<
    StatementV,
    ErrorV,
> {
    match view_order(view) {
        None => Err(
            ErrorV {
                code: ErrorCode::InvalidArgument,
                message: "unsupported database view: "@ + view,
                details: detail("allowed_views"@, texts(view_names())),
            },
        ),
        Some(order) => if !(1 <= limit <= 1000) {
            Err(
                ErrorV {
                    code: ErrorCode::InvalidArgument,
                    message: "query limit must be between 1 and 1000"@,
                    details: detail("limit"@, JsonV::Int(limit)),
                },
            )
        } else {
            match project_id {
                Some(id) => Ok(
                    statement(
                        "SELECT * FROM "@ + view + " WHERE project_id = ?"@ + " ORDER BY "@ + order,
                    ).text(id),
                ),
                None => Ok(statement("SELECT * FROM "@ + view + " ORDER BY "@ + order)),
            }
        },
    }
}

impl Repository {
    /// The query for the rows of a view.
    pub fn query_view(&self, view: &str, project_id: &Option<String>, limit: i64) -> (r: Result<
        Statement,
        ReviewKBError,
    >)
        ensures
            match r {
                Ok(s) => view_query(view@, optional_text(*project_id), limit as int) == Ok::<
                    StatementV,
                    ErrorV,
                >(s@),
                Err(e) => view_query(view@, optional_text(*project_id), limit as int) == Err::<
                    StatementV,
                    ErrorV,
                >(e@),
            },
    {
        let order = match query_view_order(view) {
            Some(o) => o,
            None => {
                let mut allowed: Vec<String> = Vec::new();
                allowed.push("audit_log".to_string());
                allowed.push("overrides".to_string());
                allowed.push("projects".to_string());
                allowed.push("rules".to_string());
                allowed.push("sync_history".to_string());
                assert(strings(allowed@) =~= view_names());
                return Err(
                    ReviewKBError::new(
                        ErrorCode::InvalidArgument,
                        glue("unsupported database view: ", view),
                        Json::object().with("allowed_views", Json::texts(&allowed)),
                    ),
                );
            },
        };
        if limit < 1 || limit > 1000 {
            return Err(
                ReviewKBError::new(
                    ErrorCode::InvalidArgument,
                    "query limit must be between 1 and 1000".to_string(),
                    Json::object().with("limit", Json::Int(limit)),
                ),
            );
        }
        let mut sql = "SELECT * FROM ".to_string();
        sql.push_str(view);
        if project_id.is_some() {
            sql.push_str(" WHERE project_id = ?");
        }
        sql.push_str(" ORDER BY ");
        sql.push_str(order);
        let query = Statement::new(sql.as_str());
        match project_id {
            Some(id) => Ok(query.text(id.as_str())),
            None => Ok(query),
        }
    }
}

// ---- integrity ----

/// The findings in the first `n` rows of an integrity check.
pub open spec fn findings_upto(rows: Seq<RowV>, n: int) -> Result<Seq<Seq<char>>, Seq<char>>
    decreases n,
{
    if n <= 0 {
        Ok(Seq::empty())
    } else {
        match findings_upto(rows, n - 1) {
            Err(e) => Err(e),
            Ok(list) => if rows[n - 1].len() == 0 {
                Err("Invalid column index: 0"@)
            } else {
                match rows[n - 1][0].1 {
                    CellV::Text(t) => Ok(list.push(t)),
                    c => Err(no_text(c, 0, rows[n - 1][0].0)),
                }
            },
        }
    }
}

/// The findings of an integrity check.
pub open spec fn findings(rows: Seq<RowV>) -> Result<Seq<Seq<char>>, Seq<char>> {
    findings_upto(rows, rows.len() as int)
}

/// Whether an integrity check found nothing.
pub open spec fn is_sound(list: Seq<Seq<char>>) -> bool {
    list == seq!["ok"@]
}

proof fn lemma_findings_fail(rows: Seq<RowV>, lo: int, hi: int)
    requires
        0 <= lo <= hi,
        findings_upto(rows, lo) is Err,
    ensures
        findings_upto(rows, hi) == findings_upto(rows, lo),
    decreases hi,
{
    if lo < hi {
        lemma_findings_fail(rows, lo, hi - 1);
    }
}

/// The findings of an integrity check.
pub fn read_findings(rows: &Vec<Row>) -> (r: Result<Vec<String>, String>)
    ensures
        match r {
            Ok(list) => findings(rows_view(rows@)) == Ok::<Seq<Seq<char>>, Seq<char>>(
                strings(list@),
            ),
            Err(e) => findings(rows_view(rows@)) == Err::<Seq<Seq<char>>, Seq<char>>(e@),
        },
{
    let ghost all = rows_view(rows@);
    let mut list: Vec<String> = Vec::new();
    let mut i: usize = 0;
    assert(strings(list@) =~= Seq::empty());
    while i < rows.len()
        invariant
            i <= rows@.len(),
            all == rows_view(rows@),
            findings_upto(all, i as int) == Ok::<Seq<Seq<char>>, Seq<char>>(strings(list@)),
        decreases rows@.len() - i,
    {
        let row = &rows[i];
        let ghost before = list@;
        assert(all[i as int] == row_view(row@));
        if row.len() == 0 {
            proof {
                lemma_findings_fail(all, i + 1, all.len() as int);
            }
            return Err("Invalid column index: 0".to_string());
        }
        assert(row_view(row@)[0] == (row@[0].0@, row@[0].1@));
        match &row[0].1 {
            Cell::Text(t) => {
                list.push(t.clone());
                assert(strings(list@) =~= strings(before).push(t@));
            },
            c => {
                proof {
                    lemma_findings_fail(all, i + 1, all.len() as int);
                }
                return Err(no_text_in(c, 0, row[0].0.as_str()));
            },
        }
        i += 1;
    }
    Ok(list)
}

fn sound(list: &Vec<String>) -> (r: bool)
    ensures
        r == is_sound(strings(list@)),
{
    if list.len() == 1 && same(list[0].as_str(), "ok") {
        assert(strings(list@) =~= seq!["ok"@]);
        true
    } else {
        assert(strings(list@).len() == list@.len());
        assert(list@.len() == 1 ==> strings(list@)[0] == list@[0]@);
        assert(is_sound(strings(list@)) ==> strings(list@)[0] == "ok"@);
        false
    }
}

// ---- URIs ----

/// A byte as a URI shows it.
pub open spec fn uri_byte(b: u8) -> Seq<char> {
    if (0x30 <= b <= 0x39) || (0x41 <= b <= 0x5a) || (0x61 <= b <= 0x7a) || b == 0x2f || b == 0x2d
        || b == 0x5f || b == 0x2e || b == 0x7e {
        seq![b as char]
    } else {
        seq!['%', upper_digit(b as int / 16), upper_digit(b as int % 16)]
    }
}

/// The uppercase character of a digit below sixteen.
pub open spec fn upper_digit(n: int) -> char {
    if n < 10 {
        (0x30 + n) as char
    } else {
        (0x37 + n) as char
    }
}

/// Bytes as a URI shows them.
pub open spec fn uri_bytes(bytes: Seq<u8>) -> Seq<char>
    decreases bytes.len(),
{
    if bytes.len() == 0 {
        Seq::empty()
    } else {
        uri_bytes(bytes.drop_last()) + uri_byte(bytes.last())
    }
}

/// The `file:` URI of an absolute path, its UTF-8 bytes percent-encoded where they must be.
pub open spec fn uri_of(path: Seq<char>) -> Seq<char> {
    "file://"@ + uri_bytes(vstd::utf8::encode_utf8(path))
}

fn upper_digit_of(n: u8) -> (c: char)
    requires
        n < 16,
    ensures
        c == upper_digit(n as int),
{
    let code: u8 = if n < 10 {
        0x30 + n
    } else {
        0x37 + n
    };
    code as char
}

/// The `file:` URI of an absolute path.
pub fn file_uri(abs: &str) -> (r: String)
    ensures
        r@ == uri_of(abs@),
{
    let bytes = abs.as_bytes();
    let mut out = "file://".to_string();
    let mut i: usize = 0;
    assert(bytes@.take(0) =~= Seq::empty());
    assert(out@ =~= "file://"@ + uri_bytes(bytes@.take(0)));
    while i < bytes.len()
        invariant
            i <= bytes@.len(),
            out@ == "file://"@ + uri_bytes(bytes@.take(i as int)),
        decreases bytes@.len() - i,
    {
        let b: u8 = bytes[i];
        let ghost before = out@;
        if (0x30 <= b && b <= 0x39) || (0x41 <= b && b <= 0x5a) || (0x61 <= b && b <= 0x7a) || b
            == 0x2f || b == 0x2d || b == 0x5f || b == 0x2e || b == 0x7e {
            out.push(b as char);
        } else {
            out.push('%');
            out.push(upper_digit_of(b / 16));
            out.push(upper_digit_of(b % 16));
        }
        proof {
            assert(out@ =~= before + uri_byte(b));
            assert(bytes@.take(i + 1).drop_last() =~= bytes@.take(i as int));
            assert(out@ =~= "file://"@ + uri_bytes(bytes@.take(i + 1)));
        }
        i += 1;
    }
    assert(bytes@.take(i as int) =~= bytes@);
    out
}

/// The value of an uppercase hexadecimal digit.
pub open spec fn digit_value(c: char) -> int {
    if c <= '9' {
        c as int - 0x30
    } else {
        c as int - 0x37
    }
}

/// The bytes that a percent-encoded text stands for.
pub open spec fn percent_decoded(s: Seq<char>) -> Seq<u8>
    decreases s.len(),
{
    if s.len() == 0 {
        Seq::empty()
    } else if s[0] == '%' && s.len() > 2 {
        seq![(16 * digit_value(s[1]) + digit_value(s[2])) as u8] + percent_decoded(s.skip(3))
    } else {
        seq![s[0] as u8] + percent_decoded(s.skip(1))
    }
}

/// The characters that the path of a URI consists of.
pub open spec fn is_uri_char(c: char) -> bool {
    ||| '0' <= c <= '9'
    ||| 'A' <= c <= 'Z'
    ||| 'a' <= c <= 'z'
    ||| c == '/' || c == '-' || c == '_' || c == '.' || c == '~' || c == '%'
}

proof fn lemma_uri_front(bytes: Seq<u8>)
    requires
        bytes.len() > 0,
    ensures
        uri_bytes(bytes) == uri_byte(bytes[0]) + uri_bytes(bytes.skip(1)),
    decreases bytes.len(),
{
    if bytes.len() == 1 {
        assert(uri_bytes(bytes.drop_last()) =~= Seq::empty());
        assert(uri_bytes(bytes.skip(1)) =~= Seq::empty());
        assert(uri_bytes(bytes) =~= uri_byte(bytes[0]) + uri_bytes(bytes.skip(1)));
    } else {
        lemma_uri_front(bytes.drop_last());
        assert(bytes.drop_last().skip(1) =~= bytes.skip(1).drop_last());
        assert(uri_bytes(bytes) =~= uri_byte(bytes[0]) + (uri_bytes(bytes.skip(1).drop_last())
            + uri_byte(bytes.last())));
    }
}

proof fn lemma_uri_byte(b: u8)
    ensures
        uri_byte(b).len() == 1 ==> uri_byte(b)[0] as u8 == b && uri_byte(b)[0] != '%'
            && is_uri_char(uri_byte(b)[0]),
        uri_byte(b).len() == 3 ==> uri_byte(b)[0] == '%' && (16 * digit_value(uri_byte(b)[1])
            + digit_value(uri_byte(b)[2])) as u8 == b && is_uri_char(uri_byte(b)[1]) && is_uri_char(
            uri_byte(b)[2],
        ),
        uri_byte(b).len() == 1 || uri_byte(b).len() == 3,
{
}

proof fn lemma_uri_decoded(bytes: Seq<u8>)
    ensures
        percent_decoded(uri_bytes(bytes)) == bytes,
        forall|i: int| 0 <= i < uri_bytes(bytes).len() ==> is_uri_char(#[trigger] uri_bytes(bytes)[i]),
    decreases bytes.len(),
{
    if bytes.len() > 0 {
        let b = bytes[0];
        let rest = uri_bytes(bytes.skip(1));
        lemma_uri_front(bytes);
        lemma_uri_byte(b);
        lemma_uri_decoded(bytes.skip(1));
        assert(uri_bytes(bytes).skip(uri_byte(b).len() as int) =~= rest);
        assert(percent_decoded(uri_bytes(bytes)) == seq![b] + percent_decoded(rest));
        assert(seq![b] + bytes.skip(1) =~= bytes);
    } else {
        assert(percent_decoded(uri_bytes(bytes)) =~= bytes);
    }
}

/// What follows `file://` consists of characters of URIs and decodes to the bytes of the path.
pub proof fn a_uri_decodes_to_its_path(path: Seq<char>)
    ensures
        begins(uri_of(path), "file://"@),
        percent_decoded(uri_of(path).skip(7)) == vstd::utf8::encode_utf8(path),
        forall|i: int| 7 <= i < uri_of(path).len() ==> is_uri_char(#[trigger] uri_of(path)[i]),
{
    reveal_strlit("file://");
    let bytes = vstd::utf8::encode_utf8(path);
    assert(uri_of(path).take(7) =~= "file://"@);
    assert(uri_of(path).skip(7) =~= uri_bytes(bytes));
    lemma_uri_decoded(bytes);
    assert forall|i: int| 7 <= i < uri_of(path).len() implies is_uri_char(
        #[trigger] uri_of(path)[i],
    ) by {
        assert(uri_of(path)[i] == uri_bytes(bytes)[i - 7]);
    }
}

/// Different paths have different URIs.
pub proof fn a_uri_names_one_path(a: Seq<char>, b: Seq<char>)
    ensures
        uri_of(a) == uri_of(b) <==> a == b,
{
    a_uri_decodes_to_its_path(a);
    a_uri_decodes_to_its_path(b);
    vstd::utf8::encode_utf8_decode_utf8(a);
    vstd::utf8::encode_utf8_decode_utf8(b);
}

// ---- backup ----

/// Where a backup stands.
#[derive(Debug)]
pub enum BackupStage {
    /// Whether the target exists is being asked.
    Exists,
    /// The directory of the target is being made.
    Dirs,
    /// The target is being opened.
    Opened,
    /// The database is being copied.
    Copied,
    /// The copy is being checked.
    Checked,
    /// The schema version is being read.
    Version,
    /// A copy that is no good is being removed; the backup ends with this error.
    Discarded(RepositoryError),
}

/// What a [`BackupStage`] stands for.
pub enum BackupStageV {
    Exists,
    Dirs,
    Opened,
    Copied,
    Checked,
    Version,
    Discarded(RepositoryErrorV),
}

impl View for BackupStage {
    type V = BackupStageV;

    open spec fn view(&self) -> BackupStageV {
        match *self {
            BackupStage::Exists => BackupStageV::Exists,
            BackupStage::Dirs => BackupStageV::Dirs,
            BackupStage::Opened => BackupStageV::Opened,
            BackupStage::Copied => BackupStageV::Copied,
            BackupStage::Checked => BackupStageV::Checked,
            BackupStage::Version => BackupStageV::Version,
            BackupStage::Discarded(e) => BackupStageV::Discarded(e@),
        }
    }
}

/// A backup of the database at `from` into the file `target`.
#[derive(Debug)]
pub struct Backup {
    pub from: Handle,
    pub target: String,
    /// Whether the target is the database itself.
    pub onto_itself: bool,
    pub stage: BackupStage,
}

/// What a [`Backup`] stands for.
pub struct BackupV {
    pub from: Handle,
    pub target: Seq<char>,
    pub onto_itself: bool,
    pub stage: BackupStageV,
}

impl View for Backup {
    type V = BackupV;

    open spec fn view(&self) -> BackupV {
        BackupV {
            from: self.from,
            target: self.target@,
            onto_itself: self.onto_itself,
            stage: self.stage@,
        }
    }
}

/// The first step of a backup.
pub open spec fn backup_start(
    path: Seq<char>,
    from: Handle,
    output: Seq<char>,
    home: Option<Seq<char>>,
    cwd: Seq<char>,
) -> StepV<BackupV, RepositoryErrorV> {
    let target = expanded(output, home);
    StepV::Ask(
        RequestV::Exists(target),
        BackupV {
            from,
            target,
            onto_itself: path != ":memory:"@ && resolved(target, home, cwd) == resolved(
                path,
                home,
                cwd,
            ),
            stage: BackupStageV::Exists,
        },
    )
}

/// The findings of an integrity check in the details of an error.
pub open spec fn findings_detail(path: Seq<char>, list: Seq<Seq<char>>) -> JsonV {
    and_detail(path_detail(path), "integrity"@, texts(list))
}

/// The next step of a backup.
pub open spec fn backup_next(b: BackupV, reply: ReplyV) -> StepV<BackupV, RepositoryErrorV> {
    match (b.stage, reply) {
        (BackupStageV::Exists, ReplyV::Flag(exists)) => if exists {
            StepV::Done(
                Err(
                    kb(
                        ErrorCode::InvalidArgument,
                        "backup output already exists: "@ + b.target,
                        path_detail(b.target),
                    ),
                ),
            )
        } else if b.onto_itself {
            StepV::Done(
                Err(
                    kb(
                        ErrorCode::InvalidArgument,
                        "backup output must differ from the active database"@,
                        path_detail(b.target),
                    ),
                ),
            )
        } else {
            match parent_path(b.target) {
                Some(p) => StepV::Ask(
                    RequestV::CreateDirs(p),
                    BackupV { stage: BackupStageV::Dirs, ..b },
                ),
                None => StepV::Ask(
                    RequestV::OpenFile(Handle::Copy, b.target),
                    BackupV { stage: BackupStageV::Opened, ..b },
                ),
            }
        },
        (BackupStageV::Dirs, ReplyV::Done) => StepV::Ask(
            RequestV::OpenFile(Handle::Copy, b.target),
            BackupV { stage: BackupStageV::Opened, ..b },
        ),
        (BackupStageV::Dirs, ReplyV::IoFailed(e)) => StepV::Done(Err(RepositoryErrorV::Io(e))),
        (BackupStageV::Opened, ReplyV::Done) => StepV::Ask(
            RequestV::Copy(b.from, Handle::Copy),
            BackupV { stage: BackupStageV::Copied, ..b },
        ),
        (BackupStageV::Opened, ReplyV::Failed(f)) => StepV::Done(Err(RepositoryErrorV::Sqlite(f))),
        (BackupStageV::Copied, ReplyV::Done) => StepV::Ask(
            RequestV::Query(Handle::Copy, integrity_query()),
            BackupV { stage: BackupStageV::Checked, ..b },
        ),
        (BackupStageV::Copied, ReplyV::Failed(f)) => StepV::Done(Err(RepositoryErrorV::Sqlite(f))),
        (BackupStageV::Copied, ReplyV::Broken(f)) => StepV::Ask(
            RequestV::Remove(b.target),
            BackupV {
                stage: BackupStageV::Discarded(
                    kb(
                        ErrorCode::BackupInvalid,
                        "database backup failed: "@ + f.text,
                        path_detail(b.target),
                    ),
                ),
                ..b
            },
        ),
        (BackupStageV::Checked, ReplyV::Rows(rows)) => match findings(rows) {
            Err(e) => StepV::Done(Err(RepositoryErrorV::Sqlite(row_failure(e)))),
            Ok(list) => if is_sound(list) {
                StepV::Ask(
                    RequestV::Query(b.from, schema_query()),
                    BackupV { stage: BackupStageV::Version, ..b },
                )
            } else {
                StepV::Ask(
                    RequestV::Remove(b.target),
                    BackupV {
                        stage: BackupStageV::Discarded(
                            kb(
                                ErrorCode::BackupInvalid,
                                "created backup failed integrity check"@,
                                findings_detail(b.target, list),
                            ),
                        ),
                        ..b
                    },
                )
            },
        },
        (BackupStageV::Checked, ReplyV::Failed(f)) => StepV::Done(Err(RepositoryErrorV::Sqlite(f))),
        (BackupStageV::Version, ReplyV::Rows(rows)) => match first_integer(rows) {
            Some(version) => StepV::Done(
                Ok(and_detail(path_detail(b.target), "schema_version"@, JsonV::Int(version))),
            ),
            None => StepV::Done(
                Err(RepositoryErrorV::Sqlite(row_failure(no_integer(rows)))),
            ),
        },
        (BackupStageV::Version, ReplyV::Failed(f)) => StepV::Done(Err(RepositoryErrorV::Sqlite(f))),
        (BackupStageV::Discarded(e), ReplyV::Done) => StepV::Done(Err(e)),
        _ => StepV::Done(Err(misplaced_error())),
    }
}

impl Repository {
    /// Copies this database, which is open at `from`, into a fresh file and checks the copy.
    pub fn backup(&self, from: Handle, output: &str, home: Option<&str>, cwd: &str) -> (r: Step<
        Backup,
        RepositoryError,
    >)
        ensures
            r@ == backup_start(self.path@, from, output@, optional(home), cwd@),
    {
        let target = expanduser(output, home);
        let onto_itself = !same(self.path.as_str(), ":memory:") && same(
            lexpath_resolve(target.as_str(), home, cwd).as_str(),
            lexpath_resolve(self.path.as_str(), home, cwd).as_str(),
        );
        Step::Ask(
            Request::Exists(target.clone()),
            Backup { from, target, onto_itself, stage: BackupStage::Exists },
        )
    }
}

impl Backup {
    /// Goes on with what the last request brought.
    pub fn resume(self, reply: Reply) -> (r: Step<Backup, RepositoryError>)
        ensures
            r@ == backup_next(self@, reply@),
    {
        let Backup { from, target, onto_itself, stage } = self;
        match (stage, reply) {
            (BackupStage::Exists, Reply::Flag(exists)) => {
                if exists {
                    return Step::Done(
                        Err(
                            domain(
                                ErrorCode::InvalidArgument,
                                glue("backup output already exists: ", target.as_str()),
                                path_details(target.as_str()),
                            ),
                        ),
                    );
                }
                if onto_itself {
                    return Step::Done(
                        Err(
                            domain(
                                ErrorCode::InvalidArgument,
                                "backup output must differ from the active database".to_string(),
                                path_details(target.as_str()),
                            ),
                        ),
                    );
                }
                match parent_of(target.as_str()) {
                    Some(p) => Step::Ask(
                        Request::CreateDirs(p),
                        Backup { from, target, onto_itself, stage: BackupStage::Dirs },
                    ),
                    None => Step::Ask(
                        Request::OpenFile(Handle::Copy, target.clone()),
                        Backup { from, target, onto_itself, stage: BackupStage::Opened },
                    ),
                }
            },
            (BackupStage::Dirs, Reply::Done) => Step::Ask(
                Request::OpenFile(Handle::Copy, target.clone()),
                Backup { from, target, onto_itself, stage: BackupStage::Opened },
            ),
            (BackupStage::Dirs, Reply::IoFailed(e)) => Step::Done(Err(RepositoryError::Io(e))),
            (BackupStage::Opened, Reply::Done) => Step::Ask(
                Request::Copy(from, Handle::Copy),
                Backup { from, target, onto_itself, stage: BackupStage::Copied },
            ),
            (BackupStage::Opened, Reply::Failed(f)) => Step::Done(Err(RepositoryError::Sqlite(f))),
            (BackupStage::Copied, Reply::Done) => Step::Ask(
                Request::Query(Handle::Copy, Statement::new("PRAGMA integrity_check")),
                Backup { from, target, onto_itself, stage: BackupStage::Checked },
            ),
            (BackupStage::Copied, Reply::Failed(f)) => Step::Done(Err(RepositoryError::Sqlite(f))),
            (BackupStage::Copied, Reply::Broken(f)) => {
                let error = domain(
                    ErrorCode::BackupInvalid,
                    glue("database backup failed: ", f.text.as_str()),
                    path_details(target.as_str()),
                );
                Step::Ask(
                    Request::Remove(target.clone()),
                    Backup { from, target, onto_itself, stage: BackupStage::Discarded(error) },
                )
            },
            (BackupStage::Checked, Reply::Rows(rows)) => match read_findings(&rows) {
                Err(e) => Step::Done(Err(RepositoryError::Sqlite(bad_row(e.as_str())))),
                Ok(list) => if sound(&list) {
                    Step::Ask(
                        Request::Query(
                            from,
                            Statement::new(
                                "SELECT COALESCE(MAX(version), 0) FROM schema_migrations",
                            ),
                        ),
                        Backup { from, target, onto_itself, stage: BackupStage::Version },
                    )
                } else {
                    let error = domain(
                        ErrorCode::BackupInvalid,
                        "created backup failed integrity check".to_string(),
                        path_details(target.as_str()).with("integrity", Json::texts(&list)),
                    );
                    Step::Ask(
                        Request::Remove(target.clone()),
                        Backup { from, target, onto_itself, stage: BackupStage::Discarded(error) },
                    )
                },
            },
            (BackupStage::Checked, Reply::Failed(f)) => Step::Done(Err(RepositoryError::Sqlite(f))),
            (BackupStage::Version, Reply::Rows(rows)) => match integer_in(&rows) {
                Some(version) => Step::Done(
                    Ok(path_details(target.as_str()).with("schema_version", Json::Int(version))),
                ),
                None => Step::Done(
                    Err(RepositoryError::Sqlite(bad_row(no_integer_in(&rows).as_str()))),
                ),
            },
            (BackupStage::Version, Reply::Failed(f)) => Step::Done(Err(RepositoryError::Sqlite(f))),
            (BackupStage::Discarded(e), Reply::Done) => Step::Done(Err(e)),
            _ => Step::Done(Err(misplaced_reply())),
        }
    }
}

// ---- restore ----

/// Where a restore stands.
#[derive(Debug)]
pub enum RestoreStage {
    /// Whether the backup is a file is being asked.
    Found,
    /// The directory of the destination is being made.
    Dirs,
    /// The backup is being opened.
    Opened,
    /// The backup is being checked.
    Checked,
    /// The schema version of the backup is being read.
    Version,
    /// Whether the destination exists is being asked.
    Present(i64),
    /// The existing database is being opened.
    ExistingOpened(i64),
    /// The existing database is being set up.
    ExistingReady(i64),
    /// The existing database is being saved.
    Saving(i64, Backup),
    /// The existing database is being closed.
    Saved(i64),
    /// The temporary file is being opened; the flag says whether there is a safety backup.
    TempOpened(i64, bool),
    /// The backup is being copied into the temporary file.
    TempFilled(i64, bool),
    /// The temporary file is being closed.
    TempClosed(i64, bool),
    /// The write-ahead log of the existing database is being removed.
    LogGone(i64, bool),
    /// The shared memory of the existing database is being removed.
    MemoryGone(i64, bool),
    /// The temporary file is taking the place of the destination.
    Renamed(i64, bool),
    /// The temporary file is being removed; the restore ends with this error.
    Abandoned(RepositoryError),
}

/// What a [`RestoreStage`] stands for.
pub enum RestoreStageV {
    Found,
    Dirs,
    Opened,
    Checked,
    Version,
    Present(int),
    ExistingOpened(int),
    ExistingReady(int),
    Saving(int, BackupV),
    Saved(int),
    TempOpened(int, bool),
    TempFilled(int, bool),
    TempClosed(int, bool),
    LogGone(int, bool),
    MemoryGone(int, bool),
    Renamed(int, bool),
    Abandoned(RepositoryErrorV),
}

impl View for RestoreStage {
    type V = RestoreStageV;

    open spec fn view(&self) -> RestoreStageV {
        match *self {
            RestoreStage::Found => RestoreStageV::Found,
            RestoreStage::Dirs => RestoreStageV::Dirs,
            RestoreStage::Opened => RestoreStageV::Opened,
            RestoreStage::Checked => RestoreStageV::Checked,
            RestoreStage::Version => RestoreStageV::Version,
            RestoreStage::Present(v) => RestoreStageV::Present(v as int),
            RestoreStage::ExistingOpened(v) => RestoreStageV::ExistingOpened(v as int),
            RestoreStage::ExistingReady(v) => RestoreStageV::ExistingReady(v as int),
            RestoreStage::Saving(v, b) => RestoreStageV::Saving(v as int, b@),
            RestoreStage::Saved(v) => RestoreStageV::Saved(v as int),
            RestoreStage::TempOpened(v, s) => RestoreStageV::TempOpened(v as int, s),
            RestoreStage::TempFilled(v, s) => RestoreStageV::TempFilled(v as int, s),
            RestoreStage::TempClosed(v, s) => RestoreStageV::TempClosed(v as int, s),
            RestoreStage::LogGone(v, s) => RestoreStageV::LogGone(v as int, s),
            RestoreStage::MemoryGone(v, s) => RestoreStageV::MemoryGone(v as int, s),
            RestoreStage::Renamed(v, s) => RestoreStageV::Renamed(v as int, s),
            RestoreStage::Abandoned(e) => RestoreStageV::Abandoned(e@),
        }
    }
}

/// The paths of a restore.
#[derive(Debug)]
pub struct RestorePaths {
    pub source: String,
    pub destination: String,
    /// URI under which the backup is read.
    pub uri: String,
    /// Where an existing database is saved.
    pub safety: String,
    /// Where the restored database is made.
    pub temporary: String,
    /// The home directory, where one is known.
    pub home: Option<String>,
    /// The working directory.
    pub cwd: String,
}

/// What [`RestorePaths`] stand for.
pub struct RestorePathsV {
    pub source: Seq<char>,
    pub destination: Seq<char>,
    pub uri: Seq<char>,
    pub safety: Seq<char>,
    pub temporary: Seq<char>,
    pub home: Option<Seq<char>>,
    pub cwd: Seq<char>,
}

impl View for RestorePaths {
    type V = RestorePathsV;

    open spec fn view(&self) -> RestorePathsV {
        RestorePathsV {
            source: self.source@,
            destination: self.destination@,
            uri: self.uri@,
            safety: self.safety@,
            temporary: self.temporary@,
            home: optional_text(self.home),
            cwd: self.cwd@,
        }
    }
}

/// A restore of a backup.
#[derive(Debug)]
pub struct Restore {
    pub paths: RestorePaths,
    pub stage: RestoreStage,
}

/// What a [`Restore`] stands for.
pub struct RestoreV {
    pub paths: RestorePathsV,
    pub stage: RestoreStageV,
}

impl View for Restore {
    type V = RestoreV;

    open spec fn view(&self) -> RestoreV {
        RestoreV { paths: self.paths@, stage: self.stage@ }
    }
}

/// `path` with another last name.
pub open spec fn renamed(path: Seq<char>, name: Seq<char>) -> Seq<char> {
    match (last_name(path), parent_path(path)) {
        (Some(_), Some(p)) => path_joined(p, name),
        _ => path_joined(path, name),
    }
}

/// The last name of a path, empty where it has none.
pub open spec fn name_of(path: Seq<char>) -> Seq<char> {
    match last_name(path) {
        Some(n) => n,
        None => Seq::empty(),
    }
}

/// The paths of a restore, with `stamp` in the names that it makes.
pub open spec fn restore_paths(
    source: Seq<char>,
    destination: Seq<char>,
    home: Option<Seq<char>>,
    cwd: Seq<char>,
    stamp: Seq<char>,
) -> RestorePathsV {
    let from = expanded(source, home);
    let to = expanded(destination, home);
    RestorePathsV {
        source: from,
        destination: to,
        uri: uri_of(resolved(from, home, cwd)) + "?mode=ro"@,
        safety: renamed(to, name_of(to) + ".safety-"@ + stamp + ".db"@),
        temporary: path_joined(
            match parent_path(to) {
                Some(p) => p,
                None => "."@,
            },
            "."@ + name_of(to) + ".restore-"@ + stamp,
        ),
        home,
        cwd,
    }
}

/// The settings of a database file: wait for locks, enforce foreign keys, write ahead.
pub open spec fn file_settings() -> Seq<char> {
    "PRAGMA busy_timeout=5000; PRAGMA foreign_keys=ON; PRAGMA journal_mode=WAL;"@
}

/// The first step of a restore.
pub open spec fn restore_start(paths: RestorePathsV) -> StepV<RestoreV, RepositoryErrorV> {
    if resolved(paths.source, paths.home, paths.cwd) == resolved(
        paths.destination,
        paths.home,
        paths.cwd,
    ) {
        StepV::Done(
            Err(
                kb(
                    ErrorCode::InvalidArgument,
                    "backup source and restore destination must differ"@,
                    path_detail(paths.source),
                ),
            ),
        )
    } else {
        StepV::Ask(
            RequestV::IsFile(paths.source),
            RestoreV { paths, stage: RestoreStageV::Found },
        )
    }
}

/// The error for a restore that the database engine stopped.
pub open spec fn restore_error(f: FailureV, source: Seq<char>) -> RepositoryErrorV {
    kb(ErrorCode::BackupInvalid, "database restore failed: "@ + f.text, path_detail(source))
}

/// What a restore reports when it is done.
pub open spec fn restore_result(paths: RestorePathsV, version: int, saved: bool) -> JsonV {
    and_detail(
        and_detail(
            and_detail(path_detail(paths.destination), "source"@, JsonV::Text(paths.source)),
            "schema_version"@,
            JsonV::Int(version),
        ),
        "safety_backup"@,
        if saved {
            JsonV::Text(paths.safety)
        } else {
            JsonV::Null
        },
    )
}

/// The restore with another stage.
pub open spec fn at_stage(r: RestoreV, stage: RestoreStageV) -> RestoreV {
    RestoreV { stage, ..r }
}

/// The step after the existing database has been saved as far as `step` says.
pub open spec fn saving_next(
    r: RestoreV,
    version: int,
    step: StepV<BackupV, RepositoryErrorV>,
) -> StepV<RestoreV, RepositoryErrorV> {
    match step {
        StepV::Ask(request, b) => StepV::Ask(
            request,
            at_stage(r, RestoreStageV::Saving(version, b)),
        ),
        StepV::Done(Ok(_)) => StepV::Ask(
            RequestV::Close(Handle::Existing),
            at_stage(r, RestoreStageV::Saved(version)),
        ),
        StepV::Done(Err(RepositoryErrorV::Sqlite(f))) => StepV::Done(
            Err(restore_error(f, r.paths.source)),
        ),
        StepV::Done(Err(e)) => StepV::Done(Err(e)),
    }
}

/// The step that gives a failed restore up: the temporary file goes.
pub open spec fn abandon(r: RestoreV, e: RepositoryErrorV) -> StepV<RestoreV, RepositoryErrorV> {
    StepV::Ask(
        RequestV::Remove(r.paths.temporary),
        at_stage(r, RestoreStageV::Abandoned(e)),
    )
}

/// The next step of a restore.
pub open spec fn restore_next(r: RestoreV, reply: ReplyV) -> StepV<RestoreV, RepositoryErrorV> {
    let paths = r.paths;
    match (r.stage, reply) {
        (RestoreStageV::Found, ReplyV::Flag(found)) => if !found {
            StepV::Done(
                Err(
                    kb(
                        ErrorCode::BackupInvalid,
                        "backup file not found: "@ + paths.source,
                        path_detail(paths.source),
                    ),
                ),
            )
        } else {
            match parent_path(paths.destination) {
                Some(p) => StepV::Ask(RequestV::CreateDirs(p), at_stage(r, RestoreStageV::Dirs)),
                None => StepV::Ask(
                    RequestV::OpenReadOnly(Handle::Source, paths.uri),
                    at_stage(r, RestoreStageV::Opened),
                ),
            }
        },
        (RestoreStageV::Dirs, ReplyV::Done) => StepV::Ask(
            RequestV::OpenReadOnly(Handle::Source, paths.uri),
            at_stage(r, RestoreStageV::Opened),
        ),
        (RestoreStageV::Dirs, ReplyV::IoFailed(e)) => StepV::Done(Err(RepositoryErrorV::Io(e))),
        (RestoreStageV::Opened, ReplyV::Done) => StepV::Ask(
            RequestV::Query(Handle::Source, integrity_query()),
            at_stage(r, RestoreStageV::Checked),
        ),
        (RestoreStageV::Opened, ReplyV::Failed(f)) => StepV::Done(
            Err(restore_error(f, paths.source)),
        ),
        (RestoreStageV::Checked, ReplyV::Rows(rows)) => match findings(rows) {
            Err(e) => StepV::Done(Err(restore_error(row_failure(e), paths.source))),
            Ok(list) => if is_sound(list) {
                StepV::Ask(
                    RequestV::Query(Handle::Source, schema_query()),
                    at_stage(r, RestoreStageV::Version),
                )
            } else {
                StepV::Done(
                    Err(
                        kb(
                            ErrorCode::BackupInvalid,
                            "backup failed integrity check"@,
                            findings_detail(paths.source, list),
                        ),
                    ),
                )
            },
        },
        (RestoreStageV::Checked, ReplyV::Failed(f)) => StepV::Done(
            Err(restore_error(f, paths.source)),
        ),
        (RestoreStageV::Version, ReplyV::Rows(rows)) => match first_integer(rows) {
            None => StepV::Done(
                Err(
                    kb(
                        ErrorCode::BackupInvalid,
                        "backup does not contain a review-kb schema"@,
                        path_detail(paths.source),
                    ),
                ),
            ),
            Some(version) => if version > LATEST_SCHEMA_VERSION {
                StepV::Done(
                    Err(
                        kb(
                            ErrorCode::DbSchemaUnsupported,
                            "backup schema is newer than this CLI supports"@,
                            and_detail(
                                detail("schema_version"@, JsonV::Int(version)),
                                "supported"@,
                                JsonV::Int(LATEST_SCHEMA_VERSION as int),
                            ),
                        ),
                    ),
                )
            } else {
                StepV::Ask(
                    RequestV::Exists(paths.destination),
                    at_stage(r, RestoreStageV::Present(version)),
                )
            },
        },
        (RestoreStageV::Version, ReplyV::Failed(_)) => StepV::Done(
            Err(
                kb(
                    ErrorCode::BackupInvalid,
                    "backup does not contain a review-kb schema"@,
                    path_detail(paths.source),
                ),
            ),
        ),
        (RestoreStageV::Present(version), ReplyV::Flag(exists)) => if exists {
            StepV::Ask(
                RequestV::OpenFile(Handle::Existing, paths.destination),
                at_stage(r, RestoreStageV::ExistingOpened(version)),
            )
        } else {
            StepV::Ask(
                RequestV::OpenFile(Handle::Copy, paths.temporary),
                at_stage(r, RestoreStageV::TempOpened(version, false)),
            )
        },
        (RestoreStageV::ExistingOpened(version), ReplyV::Done) => StepV::Ask(
            RequestV::Script(Handle::Existing, file_settings()),
            at_stage(r, RestoreStageV::ExistingReady(version)),
        ),
        (RestoreStageV::ExistingOpened(_), ReplyV::Failed(f)) => StepV::Done(
            Err(restore_error(f, paths.source)),
        ),
        (RestoreStageV::ExistingReady(version), ReplyV::Done) => saving_next(
            r,
            version,
            backup_start(
                paths.destination,
                Handle::Existing,
                paths.safety,
                paths.home,
                paths.cwd,
            ),
        ),
        (RestoreStageV::ExistingReady(_), ReplyV::Failed(f)) => StepV::Done(
            Err(restore_error(f, paths.source)),
        ),
        (RestoreStageV::Saving(version, b), reply) => saving_next(
            r,
            version,
            backup_next(b, reply),
        ),
        (RestoreStageV::Saved(version), ReplyV::Done) => StepV::Ask(
            RequestV::OpenFile(Handle::Copy, paths.temporary),
            at_stage(r, RestoreStageV::TempOpened(version, true)),
        ),
        (RestoreStageV::TempOpened(version, saved), ReplyV::Done) => StepV::Ask(
            RequestV::Copy(Handle::Source, Handle::Copy),
            at_stage(r, RestoreStageV::TempFilled(version, saved)),
        ),
        (RestoreStageV::TempOpened(_, _), ReplyV::Failed(f)) => abandon(
            r,
            restore_error(f, paths.source),
        ),
        (RestoreStageV::TempFilled(version, saved), ReplyV::Done) => StepV::Ask(
            RequestV::Close(Handle::Copy),
            at_stage(r, RestoreStageV::TempClosed(version, saved)),
        ),
        (RestoreStageV::TempFilled(_, _), ReplyV::Failed(f)) => abandon(
            r,
            restore_error(f, paths.source),
        ),
        (RestoreStageV::TempFilled(_, _), ReplyV::Broken(f)) => abandon(
            r,
            restore_error(f, paths.source),
        ),
        (RestoreStageV::TempClosed(version, saved), ReplyV::Done) => StepV::Ask(
            RequestV::Remove(paths.destination + "-wal"@),
            at_stage(r, RestoreStageV::LogGone(version, saved)),
        ),
        (RestoreStageV::LogGone(version, saved), ReplyV::Done) => StepV::Ask(
            RequestV::Remove(paths.destination + "-shm"@),
            at_stage(r, RestoreStageV::MemoryGone(version, saved)),
        ),
        (RestoreStageV::MemoryGone(version, saved), ReplyV::Done) => StepV::Ask(
            RequestV::Rename(paths.temporary, paths.destination),
            at_stage(r, RestoreStageV::Renamed(version, saved)),
        ),
        (RestoreStageV::Renamed(version, saved), ReplyV::Done) => StepV::Done(
            Ok(restore_result(paths, version, saved)),
        ),
        (RestoreStageV::Renamed(_, _), ReplyV::IoFailed(e)) => abandon(r, RepositoryErrorV::Io(e)),
        (RestoreStageV::Abandoned(e), ReplyV::Done) => StepV::Done(Err(e)),
        _ => StepV::Done(Err(misplaced_error())),
    }
}

/// The name of a path, empty where it has none.
fn name_text(path: &str) -> (r: String)
    ensures
        r@ == name_of(path@),
{
    match file_name_of(path) {
        Some(n) => n,
        None => {
            proof {
                reveal_strlit("");
                assert(""@ =~= Seq::<char>::empty());
            }
            "".to_string()
        },
    }
}

fn with_name(path: &str, name: &str) -> (r: String)
    ensures
        r@ == renamed(path@, name@),
{
    match (file_name_of(path), parent_of(path)) {
        (Some(_), Some(p)) => path_join(p.as_str(), name),
        _ => path_join(path, name),
    }
}

fn plan_paths(
    source: &str,
    destination: &str,
    home: Option<&str>,
    cwd: &str,
    stamp: &str,
) -> (r: RestorePaths)
    ensures
        r@ == restore_paths(source@, destination@, optional(home), cwd@, stamp@),
{
    let from = expanduser(source, home);
    let to = expanduser(destination, home);
    let name = name_text(to.as_str());
    let mut uri = file_uri(lexpath_resolve(from.as_str(), home, cwd).as_str());
    uri.push_str("?mode=ro");
    let mut safety = name.clone();
    safety.push_str(".safety-");
    safety.push_str(stamp);
    safety.push_str(".db");
    let mut temporary = glue(".", name.as_str());
    temporary.push_str(".restore-");
    temporary.push_str(stamp);
    let directory = match parent_of(to.as_str()) {
        Some(p) => p,
        None => ".".to_string(),
    };
    RestorePaths {
        uri,
        safety: with_name(to.as_str(), safety.as_str()),
        temporary: path_join(directory.as_str(), temporary.as_str()),
        source: from,
        destination: to,
        home: match home {
            Some(h) => Some(h.to_string()),
            None => None,
        },
        cwd: cwd.to_string(),
    }
}

impl Repository {
    /// Restores a backup into `destination`: the backup is checked first, an existing database is
    /// saved, and the restored one takes its place in a single step. `stamp` goes into the names
    /// of the files that are made.
    pub fn restore(
        source: &str,
        destination: &str,
        home: Option<&str>,
        cwd: &str,
        stamp: &str,
    ) -> (r: Step<Restore, RepositoryError>)
        ensures
            r@ == restore_start(
                restore_paths(source@, destination@, optional(home), cwd@, stamp@),
            ),
    {
        let paths = plan_paths(source, destination, home, cwd, stamp);
        if same(
            lexpath_resolve(paths.source.as_str(), home, cwd).as_str(),
            lexpath_resolve(paths.destination.as_str(), home, cwd).as_str(),
        ) {
            return Step::Done(
                Err(
                    domain(
                        ErrorCode::InvalidArgument,
                        "backup source and restore destination must differ".to_string(),
                        path_details(paths.source.as_str()),
                    ),
                ),
            );
        }
        Step::Ask(
            Request::IsFile(paths.source.clone()),
            Restore { paths, stage: RestoreStage::Found },
        )
    }
}

impl Restore {
    fn stopped(f: &Failure, source: &str) -> (r: RepositoryError)
        ensures
            r@ == restore_error(f@, source@),
    {
        domain(
            ErrorCode::BackupInvalid,
            glue("database restore failed: ", f.text.as_str()),
            path_details(source),
        )
    }

    fn saving(paths: RestorePaths, version: i64, step: Step<Backup, RepositoryError>) -> (r: Step<
        Restore,
        RepositoryError,
    >)
        ensures
            forall|stage: RestoreStageV|
                r@ == #[trigger] saving_next(
                    RestoreV { paths: paths@, stage },
                    version as int,
                    step@,
                ),
    {
        match step {
            Step::Ask(request, b) => Step::Ask(
                request,
                Restore { paths, stage: RestoreStage::Saving(version, b) },
            ),
            Step::Done(Ok(_)) => Step::Ask(
                Request::Close(Handle::Existing),
                Restore { paths, stage: RestoreStage::Saved(version) },
            ),
            Step::Done(Err(RepositoryError::Sqlite(f))) => Step::Done(
                Err(Restore::stopped(&f, paths.source.as_str())),
            ),
            Step::Done(Err(e)) => Step::Done(Err(e)),
        }
    }

    fn abandoned(paths: RestorePaths, e: RepositoryError) -> (r: Step<Restore, RepositoryError>)
        ensures
            forall|stage: RestoreStageV|
                r@ == #[trigger] abandon(RestoreV { paths: paths@, stage }, e@),
    {
        Step::Ask(
            Request::Remove(paths.temporary.clone()),
            Restore { paths, stage: RestoreStage::Abandoned(e) },
        )
    }

    fn no_schema(paths: &RestorePaths) -> (r: RepositoryError)
        ensures
            r@ == kb(
                ErrorCode::BackupInvalid,
                "backup does not contain a review-kb schema"@,
                path_detail(paths@.source),
            ),
    {
        domain(
            ErrorCode::BackupInvalid,
            "backup does not contain a review-kb schema".to_string(),
            path_details(paths.source.as_str()),
        )
    }

    /// Goes on with what the last request brought.
    pub fn resume(self, reply: Reply) -> (r: Step<Restore, RepositoryError>)
        ensures
            r@ == restore_next(self@, reply@),
    {
        let Restore { paths, stage } = self;
        match (stage, reply) {
            (RestoreStage::Found, Reply::Flag(found)) => {
                if !found {
                    return Step::Done(
                        Err(
                            domain(
                                ErrorCode::BackupInvalid,
                                glue("backup file not found: ", paths.source.as_str()),
                                path_details(paths.source.as_str()),
                            ),
                        ),
                    );
                }
                match parent_of(paths.destination.as_str()) {
                    Some(p) => Step::Ask(
                        Request::CreateDirs(p),
                        Restore { paths, stage: RestoreStage::Dirs },
                    ),
                    None => Step::Ask(
                        Request::OpenReadOnly(Handle::Source, paths.uri.clone()),
                        Restore { paths, stage: RestoreStage::Opened },
                    ),
                }
            },
            (RestoreStage::Dirs, Reply::Done) => Step::Ask(
                Request::OpenReadOnly(Handle::Source, paths.uri.clone()),
                Restore { paths, stage: RestoreStage::Opened },
            ),
            (RestoreStage::Dirs, Reply::IoFailed(e)) => Step::Done(Err(RepositoryError::Io(e))),
            (RestoreStage::Opened, Reply::Done) => Step::Ask(
                Request::Query(Handle::Source, Statement::new("PRAGMA integrity_check")),
                Restore { paths, stage: RestoreStage::Checked },
            ),
            (RestoreStage::Opened, Reply::Failed(f)) => Step::Done(
                Err(Restore::stopped(&f, paths.source.as_str())),
            ),
            (RestoreStage::Checked, Reply::Rows(rows)) => match read_findings(&rows) {
                Err(e) => Step::Done(
                    Err(Restore::stopped(&bad_row(e.as_str()), paths.source.as_str())),
                ),
                Ok(list) => if sound(&list) {
                    Step::Ask(
                        Request::Query(
                            Handle::Source,
                            Statement::new(
                                "SELECT COALESCE(MAX(version), 0) FROM schema_migrations",
                            ),
                        ),
                        Restore { paths, stage: RestoreStage::Version },
                    )
                } else {
                    Step::Done(
                        Err(
                            domain(
                                ErrorCode::BackupInvalid,
                                "backup failed integrity check".to_string(),
                                path_details(paths.source.as_str()).with(
                                    "integrity",
                                    Json::texts(&list),
                                ),
                            ),
                        ),
                    )
                },
            },
            (RestoreStage::Checked, Reply::Failed(f)) => Step::Done(
                Err(Restore::stopped(&f, paths.source.as_str())),
            ),
            (RestoreStage::Version, Reply::Rows(rows)) => match integer_in(&rows) {
                None => Step::Done(Err(Restore::no_schema(&paths))),
                Some(version) => if version > LATEST_SCHEMA_VERSION {
                    Step::Done(
                        Err(
                            domain(
                                ErrorCode::DbSchemaUnsupported,
                                "backup schema is newer than this CLI supports".to_string(),
                                Json::object().with("schema_version", Json::Int(version)).with(
                                    "supported",
                                    Json::Int(LATEST_SCHEMA_VERSION),
                                ),
                            ),
                        ),
                    )
                } else {
                    Step::Ask(
                        Request::Exists(paths.destination.clone()),
                        Restore { paths, stage: RestoreStage::Present(version) },
                    )
                },
            },
            (RestoreStage::Version, Reply::Failed(_)) => Step::Done(
                Err(Restore::no_schema(&paths)),
            ),
            (RestoreStage::Present(version), Reply::Flag(exists)) => if exists {
                Step::Ask(
                    Request::OpenFile(Handle::Existing, paths.destination.clone()),
                    Restore { paths, stage: RestoreStage::ExistingOpened(version) },
                )
            } else {
                Step::Ask(
                    Request::OpenFile(Handle::Copy, paths.temporary.clone()),
                    Restore { paths, stage: RestoreStage::TempOpened(version, false) },
                )
            },
            (RestoreStage::ExistingOpened(version), Reply::Done) => Step::Ask(
                Request::Script(
                    Handle::Existing,
                    "PRAGMA busy_timeout=5000; PRAGMA foreign_keys=ON; PRAGMA journal_mode=WAL;".to_string(),
                ),
                Restore { paths, stage: RestoreStage::ExistingReady(version) },
            ),
            (RestoreStage::ExistingOpened(_), Reply::Failed(f)) => Step::Done(
                Err(Restore::stopped(&f, paths.source.as_str())),
            ),
            (RestoreStage::ExistingReady(version), Reply::Done) => {
                let repository = Repository { path: paths.destination.clone() };
                let step = match &paths.home {
                    Some(h) => repository.backup(
                        Handle::Existing,
                        paths.safety.as_str(),
                        Some(h.as_str()),
                        paths.cwd.as_str(),
                    ),
                    None => repository.backup(
                        Handle::Existing,
                        paths.safety.as_str(),
                        None,
                        paths.cwd.as_str(),
                    ),
                };
                Restore::saving(paths, version, step)
            },
            (RestoreStage::ExistingReady(_), Reply::Failed(f)) => Step::Done(
                Err(Restore::stopped(&f, paths.source.as_str())),
            ),
            (RestoreStage::Saving(version, b), reply) => Restore::saving(
                paths,
                version,
                b.resume(reply),
            ),
            (RestoreStage::Saved(version), Reply::Done) => Step::Ask(
                Request::OpenFile(Handle::Copy, paths.temporary.clone()),
                Restore { paths, stage: RestoreStage::TempOpened(version, true) },
            ),
            (RestoreStage::TempOpened(version, saved), Reply::Done) => Step::Ask(
                Request::Copy(Handle::Source, Handle::Copy),
                Restore { paths, stage: RestoreStage::TempFilled(version, saved) },
            ),
            (RestoreStage::TempOpened(_, _), Reply::Failed(f)) => {
                let e = Restore::stopped(&f, paths.source.as_str());
                Restore::abandoned(paths, e)
            },
            (RestoreStage::TempFilled(version, saved), Reply::Done) => Step::Ask(
                Request::Close(Handle::Copy),
                Restore { paths, stage: RestoreStage::TempClosed(version, saved) },
            ),
            (RestoreStage::TempFilled(_, _), Reply::Failed(f)) => {
                let e = Restore::stopped(&f, paths.source.as_str());
                Restore::abandoned(paths, e)
            },
            (RestoreStage::TempFilled(_, _), Reply::Broken(f)) => {
                let e = Restore::stopped(&f, paths.source.as_str());
                Restore::abandoned(paths, e)
            },
            (RestoreStage::TempClosed(version, saved), Reply::Done) => Step::Ask(
                Request::Remove(glue(paths.destination.as_str(), "-wal")),
                Restore { paths, stage: RestoreStage::LogGone(version, saved) },
            ),
            (RestoreStage::LogGone(version, saved), Reply::Done) => Step::Ask(
                Request::Remove(glue(paths.destination.as_str(), "-shm")),
                Restore { paths, stage: RestoreStage::MemoryGone(version, saved) },
            ),
            (RestoreStage::MemoryGone(version, saved), Reply::Done) => Step::Ask(
                Request::Rename(paths.temporary.clone(), paths.destination.clone()),
                Restore { paths, stage: RestoreStage::Renamed(version, saved) },
            ),
            (RestoreStage::Renamed(version, saved), Reply::Done) => {
                let safety = if saved {
                    Json::text(paths.safety.as_str())
                } else {
                    Json::Null
                };
                Step::Done(
                    Ok(
                        path_details(paths.destination.as_str()).with(
                            "source",
                            Json::text(paths.source.as_str()),
                        ).with("schema_version", Json::Int(version)).with("safety_backup", safety),
                    ),
                )
            },
            (RestoreStage::Renamed(_, _), Reply::IoFailed(e)) => Restore::abandoned(
                paths,
                RepositoryError::Io(e),
            ),
            (RestoreStage::Abandoned(e), Reply::Done) => Step::Done(Err(e)),
            _ => Step::Done(Err(misplaced_reply())),
        }
    }
}

} // verus!
