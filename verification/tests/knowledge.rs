use std::collections::HashMap;
use std::path::Path;

use review_kb::cli::{
    Cli, ConfigArgs, ConfigCommand, DbArgs, DbCommand, OverridesArgs, OverridesCommand,
    PrepareArgs, RulesArgs, RulesCommand, StatusArgs, TopCommand,
};
use review_kb::description::build_description;
use review_kb::errors::{ErrorCode, ReviewKBError};
use review_kb::json::{get_str, Json};
use review_kb::json_parse::parse_json;
use review_kb::json_util::canonical_json;
use review_kb::maintenance::file_uri;
use review_kb::models::{Checklist, Rule};
use review_kb::overrides::{dedupe_strings, validate_override_fields};
use review_kb::protocol::{Cell, Failure, Handle, Reply, Request, Row, Statement, Step};
use review_kb::repository::{literal_pattern, project_in, integer_in, Repository, RepositoryError};
use review_kb::rows::{read_records, Shape};
use review_kb::service::{KnowledgeService, ServiceError, ServiceStep};
use review_kb::session::{start, Turn, World};
use review_kb::time_util::{now_iso, restore_stamp};
use rusqlite::types::{Value, ValueRef};
use rusqlite::{Connection, OpenFlags};

// ---- the surroundings ----

/// Texts by path, databases in SQLite.
struct Machine {
    files: HashMap<String, String>,
    input: String,
    open: HashMap<String, Connection>,
}

fn failure(e: &rusqlite::Error) -> Failure {
    let (engine, busy) = match e {
        rusqlite::Error::SqliteFailure(code, message) => (
            message.clone(),
            matches!(
                code.code,
                rusqlite::ErrorCode::DatabaseBusy | rusqlite::ErrorCode::DatabaseLocked
            ),
        ),
        _ => (None, false),
    };
    Failure { text: e.to_string(), engine, busy }
}

fn done<T>(r: Result<T, rusqlite::Error>) -> Reply {
    match r {
        Ok(_) => Reply::Done,
        Err(e) => Reply::Failed(failure(&e)),
    }
}

fn values(s: &Statement) -> Vec<Value> {
    s.params
        .iter()
        .map(|c| match c {
            Cell::Integer(n) => Value::Integer(*n),
            Cell::Text(t) => Value::Text(t.clone()),
            _ => Value::Null,
        })
        .collect()
}

fn execute(conn: &Connection, s: &Statement) -> Result<usize, rusqlite::Error> {
    conn.execute(&s.sql, rusqlite::params_from_iter(values(s)))
}

fn query(conn: &Connection, s: &Statement) -> Result<Vec<Row>, rusqlite::Error> {
    let mut stmt = conn.prepare(&s.sql)?;
    let names: Vec<String> = stmt.column_names().iter().map(|n| n.to_string()).collect();
    let mut rows = stmt.query(rusqlite::params_from_iter(values(s)))?;
    let mut list: Vec<Row> = Vec::new();
    while let Some(row) = rows.next()? {
        let mut cells: Row = Vec::new();
        for (i, name) in names.iter().enumerate() {
            let cell = match row.get_ref(i)? {
                ValueRef::Null => Cell::Null,
                ValueRef::Integer(n) => Cell::Integer(n),
                ValueRef::Real(_) => Cell::Real(None),
                ValueRef::Text(t) => Cell::Text(String::from_utf8_lossy(t).into_owned()),
                ValueRef::Blob(_) => Cell::Blob,
            };
            cells.push((name.clone(), cell));
        }
        list.push(cells);
    }
    Ok(list)
}

fn write_all(conn: &Connection, list: &[Statement]) -> Result<(), rusqlite::Error> {
    conn.execute_batch("BEGIN IMMEDIATE")?;
    let written = list
        .iter()
        .try_for_each(|s| execute(conn, s).map(|_| ()))
        .and_then(|_| conn.execute_batch("COMMIT"));
    if written.is_err() && !conn.is_autocommit() {
        let _ = conn.execute_batch("ROLLBACK");
    }
    written
}

impl Machine {
    fn new() -> Machine {
        Machine { files: HashMap::new(), input: String::new(), open: HashMap::new() }
    }

    fn conn(&self, h: Handle) -> &Connection {
        self.open.get(&format!("{h:?}")).expect("open connection")
    }

    fn keep(&mut self, h: Handle, r: Result<Connection, rusqlite::Error>) -> Reply {
        match r {
            Ok(conn) => {
                self.open.insert(format!("{h:?}"), conn);
                Reply::Done
            }
            Err(e) => Reply::Failed(failure(&e)),
        }
    }

    fn copy(&mut self, from: Handle, to: Handle) -> Reply {
        let mut target = self.open.remove(&format!("{to:?}")).expect("open copy");
        let reply = match rusqlite::backup::Backup::new(self.conn(from), &mut target) {
            Err(e) => Reply::Failed(failure(&e)),
            Ok(backup) => {
                match backup.run_to_completion(64, std::time::Duration::from_millis(0), None) {
                    Ok(()) => Reply::Done,
                    Err(e) => Reply::Broken(failure(&e)),
                }
            }
        };
        self.open.insert(format!("{to:?}"), target);
        reply
    }

    fn act(&mut self, request: Request) -> Reply {
        match request {
            Request::ReadFile(p) => Reply::File(self.files.get(&p).map(|t| t.clone().into_bytes())),
            Request::ReadText(p) => match self.files.get(&p) {
                Some(t) => Reply::Text(t.clone()),
                None => Reply::Missing,
            },
            Request::ReadInput(p) => {
                if p == "-" {
                    return Reply::Text(self.input.clone());
                }
                match self.files.get(&p) {
                    Some(t) => Reply::Text(t.clone()),
                    None => Reply::IoFailed("no such file".to_string()),
                }
            }
            Request::WriteText(p, t) => {
                self.files.insert(p, t);
                Reply::Done
            }
            Request::Exists(p) => Reply::Flag(Path::new(&p).exists()),
            Request::IsFile(p) => Reply::Flag(Path::new(&p).is_file()),
            Request::CreateDirs(p) => {
                if Path::new(&p).is_dir() {
                    Reply::Done
                } else {
                    Reply::IoFailed("no such directory".to_string())
                }
            }
            Request::Remove(p) => {
                if Path::new(&p).exists() {
                    tempfile::TempPath::from_path(&p).close().unwrap();
                }
                Reply::Done
            }
            Request::Rename(p, q) => match tempfile::TempPath::from_path(&p).persist(&q) {
                Ok(_) => Reply::Done,
                Err(e) => Reply::IoFailed(e.to_string()),
            },
            Request::OpenMemory => self.keep(Handle::Main, Connection::open_in_memory()),
            Request::OpenFile(h, p) => self.keep(h, Connection::open(p)),
            Request::OpenReadOnly(h, uri) => self.keep(
                h,
                Connection::open_with_flags(
                    uri,
                    OpenFlags::SQLITE_OPEN_READ_ONLY | OpenFlags::SQLITE_OPEN_URI,
                ),
            ),
            Request::Close(h) => {
                self.open.remove(&format!("{h:?}"));
                Reply::Done
            }
            Request::Script(h, sql) => done(self.conn(h).execute_batch(&sql)),
            Request::Query(h, s) => match query(self.conn(h), &s) {
                Ok(rows) => Reply::Rows(rows),
                Err(e) => Reply::Failed(failure(&e)),
            },
            Request::Execute(s) => done(execute(self.conn(Handle::Main), &s)),
            Request::Write(list) => done(write_all(self.conn(Handle::Main), &list)),
            Request::BeginRead => done(self.conn(Handle::Main).execute_batch("BEGIN")),
            Request::Copy(from, to) => self.copy(from, to),
        }
    }

    /// Opens a database, in memory where no path is given, and brings it up to date.
    fn open_repository(&mut self, path: Option<&str>) -> Repository {
        let (reply, name) = match path {
            Some(p) => (self.act(Request::OpenFile(Handle::Main, p.to_string())), p),
            None => (self.act(Request::OpenMemory), ":memory:"),
        };
        assert!(matches!(reply, Reply::Done));
        let settings = "PRAGMA busy_timeout=5000; PRAGMA foreign_keys=ON;".to_string();
        assert!(matches!(self.act(Request::Script(Handle::Main, settings)), Reply::Done));
        let repository = Repository { path: name.to_string() };
        self.migrate(&repository).unwrap();
        repository
    }

    fn migrate(&mut self, repository: &Repository) -> Result<Json, RepositoryError> {
        let mut step = repository.migrate();
        loop {
            match step {
                Step::Done(r) => return r,
                Step::Ask(request, state) => {
                    let reply = self.act(request);
                    step = state.resume(reply, &now_iso());
                }
            }
        }
    }

    fn rows(&self, s: Statement) -> Vec<Row> {
        query(self.conn(Handle::Main), &s).unwrap()
    }

    fn finish(&mut self, service: &KnowledgeService, first: ServiceStep) -> Result<Json, ServiceError> {
        let mut step = first;
        loop {
            match step {
                Step::Done(r) => {
                    let conn = self.conn(Handle::Main);
                    if !conn.is_autocommit() {
                        conn.execute_batch("COMMIT").unwrap();
                    }
                    return r;
                }
                Step::Ask(request, stage) => {
                    let reply = self.act(request);
                    step = service.resume(stage, reply, &now_iso());
                }
            }
        }
    }
}

// ---- small helpers ----

fn json(source: &str) -> Json {
    parse_json(source).unwrap()
}

fn fields(source: &str) -> Vec<(String, Json)> {
    match json(source) {
        Json::Object(entries) => entries,
        other => panic!("no object: {other:?}"),
    }
}

/// The value at a path of names and positions, in canonical form.
fn at(v: &Json, path: &[&str]) -> String {
    let mut here = v;
    for step in path {
        here = match here {
            Json::Array(items) => &items[step.parse::<usize>().unwrap()],
            other => match other.get(step) {
                Some(x) => x,
                None => return "-".to_string(),
            },
        };
    }
    canonical_json(here)
}

fn text(v: &Json, path: &[&str]) -> String {
    let shown = at(v, path);
    shown.trim_matches('"').to_string()
}

fn length(v: &Json) -> usize {
    match v {
        Json::Array(items) => items.len(),
        other => panic!("no array: {other:?}"),
    }
}

fn kb(r: Result<Json, ServiceError>, code: ErrorCode, part: &str) -> ReviewKBError {
    match r {
        Err(ServiceError::Kb(e)) => {
            assert_eq!(e.code, code);
            assert!(e.message.contains(part), "{:?} lacks {:?}", e.message, part);
            e
        }
        other => panic!("expected {code:?}, got {other:?}"),
    }
}

const CHECKLIST_SRC: &str = "\
---
schema_version: 1
checklist_version: \"2026.07.1\"
global_description: project-wide guidance
---

## SEC-001

```yaml review-rule
summary: Check SQL parameterization
tags:
  - security
paths:
  - \"src/**/*.py\"
languages:
  - python
```

Do not concatenate SQL strings.

## DB-004

```yaml review-rule
summary: Check transaction boundaries
tags:
  - database
paths:
  - \"src/**/services/*.py\"
languages:
  - python
```

Wrap full business operations in a transaction.
";

/// A service on a fresh database, with the checklist at `/cl.md`.
struct Bench {
    machine: Machine,
    service: KnowledgeService,
}

impl Bench {
    fn new() -> Bench {
        let mut machine = Machine::new();
        let repository = machine.open_repository(None);
        machine.files.insert("/cl.md".to_string(), CHECKLIST_SRC.to_string());
        let service = KnowledgeService::new(repository, None, "/".to_string());
        Bench { machine, service }
    }

    fn prepared() -> Bench {
        let mut b = Bench::new();
        b.prepare("p1", "payments", "/cl.md", false).unwrap();
        b
    }

    fn file(&mut self, path: &str, source: &str) {
        self.machine.files.insert(path.to_string(), source.to_string());
    }

    fn run(&mut self, step: ServiceStep) -> Result<Json, ServiceError> {
        self.machine.finish(&self.service, step)
    }

    fn prepare(
        &mut self,
        id: &str,
        name: &str,
        path: &str,
        force: bool,
    ) -> Result<Json, ServiceError> {
        let step = self.service.prepare(id, name, path, force);
        self.run(step)
    }

    fn status(&mut self, path: &str) -> Json {
        let step = self.service.status("p1", path);
        self.run(step).unwrap()
    }

    fn set(&mut self, key: &str, source: &str, reason: &str) -> Result<Json, ServiceError> {
        let step = self.service.set_override("p1", key, fields(source), reason);
        self.run(step)
    }

    fn show(&mut self, key: &str) -> Result<Json, ServiceError> {
        let step = self.service.show_override("p1", key);
        self.run(step)
    }

    fn select(&mut self, source: &str) -> Result<Json, ServiceError> {
        let step = self.service.get_selected_rules(&json(source));
        self.run(step)
    }

    fn project(&mut self) -> Json {
        let query = self.service.repository.get_project("p1");
        project_in(&self.machine.rows(query)).unwrap()
    }

    /// Everything in a table, as one text.
    fn dump(&self, table: &str) -> String {
        let rows = self.machine.rows(Statement::new(&format!("SELECT * FROM {table}")));
        format!("{rows:?}")
    }
}

fn changed() -> String {
    CHECKLIST_SRC.replace(
        "Do not concatenate SQL strings.",
        "Do not concatenate SQL strings. Ever.",
    )
}

// ---- the repository ----

#[test]
fn literal_pattern_escapes() {
    assert_eq!(literal_pattern("a%b_c"), r#"%a\%b\_c%"#);
    assert_eq!(literal_pattern(r#"a\b"#), r#"%a\\b%"#);
    assert_eq!(literal_pattern("plain"), "%plain%");
}

#[test]
fn file_uri_encodes() {
    assert_eq!(file_uri("/a/b.db"), "file:///a/b.db");
    assert_eq!(file_uri("/tmp/a b/c.db"), "file:///tmp/a%20b/c.db");
}

#[test]
fn migrate_then_schema_version_in_memory() {
    let mut machine = Machine::new();
    let repo = machine.open_repository(None);
    assert_eq!(integer_in(&machine.rows(repo.schema_version())), Some(2));
    machine.migrate(&repo).unwrap();
    assert_eq!(integer_in(&machine.rows(repo.schema_version())), Some(2));
}

fn sample(key: &str, summary: &str, content: &str) -> Rule {
    Rule {
        key: key.to_string(),
        summary: summary.to_string(),
        content: content.to_string(),
        tags: vec![],
        paths: vec![],
        languages: vec![],
        source_rule_hash: "sha256:src".to_string(),
    }
}

fn store(machine: &mut Machine, repo: &Repository, id: &str, path: &str, rule: Rule) {
    let checklist = Checklist {
        schema_version: 1,
        checklist_version: "2026.07.1".into(),
        global_description: "gd".into(),
        content_hash: "sha256:abc".into(),
        rules: vec![rule],
    };
    let description = build_description(id, "proj", &checklist);
    let list = repo
        .replace_project(
            &None,
            id,
            "proj",
            path,
            &checklist,
            &description,
            "refresh",
            &Vec::new(),
            &now_iso(),
        )
        .unwrap();
    assert!(matches!(machine.act(Request::Write(list)), Reply::Done));
}

#[test]
fn round_trip_replace_and_read() {
    let mut machine = Machine::new();
    let repo = machine.open_repository(None);
    let mut rule = sample("SEC-001", "s", "c");
    rule.tags = vec!["security".into()];
    rule.paths = vec!["src/**".into()];
    rule.languages = vec!["python".into()];
    store(&mut machine, &repo, "p1", "/tmp/cl.md", rule);

    let project = project_in(&machine.rows(repo.get_project("p1"))).unwrap();
    assert_eq!(get_str(&project, "project_name"), Some("proj"));
    assert_eq!(at(&project, &["rule_count"]), "1");

    let rules = read_records(Shape::Rule, &machine.rows(repo.list_rules("p1"))).unwrap();
    assert_eq!(rules.len(), 1);
    assert_eq!(get_str(&rules[0], "key"), Some("SEC-001"));
    assert_eq!(at(&rules[0], &["tags"]), r#"["security"]"#);

    let keys = vec!["SEC-001".to_string()];
    let got = read_records(Shape::Rule, &machine.rows(repo.get_rules("p1", &keys))).unwrap();
    assert_eq!(got.len(), 1);
}

#[test]
fn search_rules_matches() {
    let mut machine = Machine::new();
    let repo = machine.open_repository(None);
    store(&mut machine, &repo, "p", "/c.md", sample("DB-001", "Never SELECT *", "explain"));
    let hits = |q: &str| -> usize { machine.rows(repo.search_rules("p", q)).len() };
    assert_eq!(hits("select"), 1);
    assert_eq!(hits("zzznope"), 0);
}

#[test]
fn search_takes_wildcards_literally() {
    let mut machine = Machine::new();
    let repo = machine.open_repository(None);
    store(&mut machine, &repo, "p", "/c.md", sample("A", "100% of a_b\\c", "explain"));
    let hits = |q: &str| -> usize { machine.rows(repo.search_rules("p", q)).len() };
    assert_eq!(hits("100%"), 1);
    assert_eq!(hits("a_b\\C"), 1);
    assert_eq!(hits("1%0"), 0);
    assert_eq!(hits("axb"), 0);
}

fn restore(machine: &mut Machine, from: &str, to: &str) -> Result<Json, RepositoryError> {
    let mut step = Repository::restore(from, to, None, "/", &restore_stamp());
    loop {
        match step {
            Step::Done(r) => return r,
            Step::Ask(request, state) => {
                let reply = machine.act(request);
                step = state.resume(reply);
            }
        }
    }
}

fn backup(machine: &mut Machine, repo: &Repository, to: &str) -> Result<Json, RepositoryError> {
    let mut step = repo.backup(Handle::Main, to, None, "/");
    loop {
        match step {
            Step::Done(r) => return r,
            Step::Ask(request, state) => {
                let reply = machine.act(request);
                step = state.resume(reply);
            }
        }
    }
}

fn below(dir: &tempfile::TempDir, name: &str) -> String {
    dir.path().join(name).to_string_lossy().into_owned()
}

#[test]
fn backup_and_restore_round_trip() {
    let dir = tempfile::tempdir().unwrap();
    let mut machine = Machine::new();
    let repo = machine.open_repository(Some(&below(&dir, "knowledge.db")));
    store(&mut machine, &repo, "p", "/c.md", sample("K", "s", "c"));

    let backup_path = below(&dir, "backup.db");
    let info = backup(&mut machine, &repo, &backup_path).unwrap();
    assert_eq!(at(&info, &["schema_version"]), "2");

    let restored = below(&dir, "restored.db");
    let restore_info = restore(&mut machine, &backup_path, &restored).unwrap();
    assert_eq!(at(&restore_info, &["schema_version"]), "2");
    assert_eq!(at(&restore_info, &["safety_backup"]), "null");
    let r2 = machine.open_repository(Some(&restored));
    let rules = read_records(Shape::Rule, &machine.rows(r2.list_rules("p"))).unwrap();
    assert_eq!(rules.len(), 1);
    assert_eq!(get_str(&rules[0], "key"), Some("K"));
}

fn repository_error(r: Result<Json, RepositoryError>, part: &str) -> ReviewKBError {
    match r {
        Err(RepositoryError::Kb(e)) => {
            assert!(e.message.contains(part), "{:?} lacks {:?}", e.message, part);
            e
        }
        other => panic!("expected an error, got {other:?}"),
    }
}

#[test]
fn backups_that_are_refused() {
    let dir = tempfile::tempdir().unwrap();
    let mut machine = Machine::new();
    let db = below(&dir, "knowledge.db");
    let repo = machine.open_repository(Some(&db));
    let e = repository_error(backup(&mut machine, &repo, &db), "");
    assert_eq!(e.code.exit_code(), 2);
    let copy = below(&dir, "copy.db");
    backup(&mut machine, &repo, &copy).unwrap();
    let again = repository_error(backup(&mut machine, &repo, &copy), "already exists");
    assert_eq!(again.code.exit_code(), 2);

    repository_error(restore(&mut machine, &below(&dir, "none.db"), &db), "not found");
    repository_error(restore(&mut machine, &db, &db), "");
    assert!(Path::new(&db).exists());
}

#[test]
fn a_restore_keeps_what_it_replaces() {
    let dir = tempfile::tempdir().unwrap();
    let mut machine = Machine::new();
    let db = below(&dir, "knowledge.db");
    let repo = machine.open_repository(Some(&db));
    let copy = below(&dir, "copy.db");
    backup(&mut machine, &repo, &copy).unwrap();
    store(&mut machine, &repo, "p", "/c.md", sample("K", "s", "c"));
    machine.act(Request::Close(Handle::Main));

    let info = restore(&mut machine, &copy, &db).unwrap();
    let saved = text(&info, &["safety_backup"]);
    let old = machine.open_repository(Some(&saved));
    assert_eq!(machine.rows(old.list_projects()).len(), 1);
    let new = machine.open_repository(Some(&db));
    assert_eq!(machine.rows(new.list_projects()).len(), 0);
}

#[test]
fn the_files_that_a_restore_makes_have_names_of_their_own() {
    let step = Repository::restore("~/copy.db", "data/kb.db/.", Some("/home/u"), "/work", "S");
    match step {
        Step::Ask(_, state) => {
            assert_eq!(state.paths.source, "/home/u/copy.db");
            assert_eq!(state.paths.destination, "data/kb.db/.");
            assert_eq!(state.paths.uri, "file:///home/u/copy.db?mode=ro");
            assert_eq!(state.paths.safety, "data/kb.db.safety-S.db");
            assert_eq!(state.paths.temporary, "data/.kb.db.restore-S");
        }
        Step::Done(other) => panic!("expected a request, got {other:?}"),
    }
}

#[test]
fn a_newer_schema_is_refused() {
    let mut machine = Machine::new();
    let repo = machine.open_repository(None);
    machine
        .conn(Handle::Main)
        .execute_batch("INSERT INTO schema_migrations VALUES (9, 'later')")
        .unwrap();
    match machine.migrate(&repo) {
        Err(RepositoryError::Kb(e)) => assert_eq!(e.code, ErrorCode::DbSchemaUnsupported),
        other => panic!("expected a refusal, got {other:?}"),
    }
}

// ---- prepare ----

#[test]
fn prepare_creates_new_project() {
    let mut b = Bench::new();
    let res = b.prepare("p1", "payments", "/cl.md", false).unwrap();
    assert_eq!(text(&res, &["knowledge_status"]), "created");
    assert_eq!(text(&res, &["checklist_version"]), "2026.07.1");
    assert_eq!(at(&res, &["rule_count"]), "2");
    assert_eq!(at(&res, &["warnings"]), "[]");
    assert_eq!(text(&res, &["description", "project", "name"]), "payments");
    assert_eq!(text(&res, &["selection_context", "project_id"]), "p1");
    assert_eq!(
        at(&res, &["selection_context", "knowledge_revision"]),
        at(&res, &["description", "checklist", "knowledge_revision"])
    );

    let project = b.project();
    assert_eq!(text(&project, &["project_name"]), "payments");
    assert_eq!(at(&project, &["rule_count"]), "2");
}

#[test]
fn prepare_reuses_when_unchanged_and_silent_on_match() {
    let mut b = Bench::prepared();
    let second = b.prepare("p1", "payments", "/cl.md", false).unwrap();
    assert_eq!(text(&second, &["knowledge_status"]), "reused");
    assert_eq!(at(&second, &["warnings"]), "[]");
}

#[test]
fn a_reuse_writes_nothing() {
    let mut b = Bench::prepared();
    let tables = ["projects", "rules", "rule_overrides", "sync_history", "audit_log"];
    let before: Vec<String> = tables.iter().map(|t| b.dump(t)).collect();
    b.prepare("p1", "payments", "/cl.md", false).unwrap();
    let after: Vec<String> = tables.iter().map(|t| b.dump(t)).collect();
    assert_eq!(before, after);
}

#[test]
fn prepare_reused_warns_on_metadata_change() {
    let mut b = Bench::prepared();
    let revision = text(&b.project(), &["knowledge_revision"]);
    let second = b.prepare("p1", "payments-renamed", "/cl.md", false).unwrap();
    assert_eq!(text(&second, &["knowledge_status"]), "reused");
    assert_eq!(at(&second, &["warnings"]), r#"["PROJECT_METADATA_UPDATED"]"#);
    assert_eq!(text(&b.project(), &["project_name"]), "payments-renamed");
    assert_eq!(text(&b.project(), &["knowledge_revision"]), revision);
}

#[test]
fn prepare_refreshes_on_content_change_same_version() {
    let mut b = Bench::prepared();
    let changed = CHECKLIST_SRC.replace(
        "Do not concatenate SQL strings.",
        "Do not concatenate SQL strings. Use bind parameters everywhere.",
    );
    b.file("/cl2.md", &changed);
    let second = b.prepare("p1", "payments", "/cl2.md", false).unwrap();
    assert_eq!(text(&second, &["knowledge_status"]), "refreshed");
    assert_eq!(at(&second, &["warnings"]), r#"["CONTENT_CHANGED_WITHOUT_VERSION_BUMP"]"#);
}

#[test]
fn prepare_rebuild_force() {
    let mut b = Bench::prepared();
    let rebuilt = b.prepare("p1", "payments", "/cl.md", true).unwrap();
    assert_eq!(text(&rebuilt, &["knowledge_status"]), "rebuilt");
}

#[test]
fn a_checklist_path_is_expanded_before_it_is_resolved() {
    let asked = |home: Option<&str>, path: &str| -> String {
        let repository = Repository { path: ":memory:".to_string() };
        let home = home.map(|h| h.to_string());
        let service = KnowledgeService::new(repository, home, "/work".to_string());
        match service.prepare("p1", "payments", path, false) {
            Step::Ask(Request::ReadFile(p), _) => p,
            other => panic!("{other:?}"),
        }
    };
    assert_eq!(asked(Some("/home/me"), "~/a/../cl.md"), "/home/me/cl.md");
    assert_eq!(asked(Some("~/x"), "~/cl.md"), "/work/~/x/x/cl.md");
    assert_eq!(asked(None, "~/cl.md"), "/work/~/cl.md");
    assert_eq!(asked(None, "/cl.md"), "/cl.md");
}

#[test]
fn sync_and_rebuild_are_prepare() {
    let mut b = Bench::new();
    let step = b.service.sync("p1", "payments", "/cl.md");
    assert_eq!(text(&b.run(step).unwrap(), &["knowledge_status"]), "created");
    let step = b.service.rebuild("p1", "payments", "/cl.md");
    assert_eq!(text(&b.run(step).unwrap(), &["knowledge_status"]), "rebuilt");
}

#[test]
fn prepare_requires_nonempty_args() {
    let mut b = Bench::new();
    let e = kb(
        b.prepare("  ", "payments", "/cl.md", false),
        ErrorCode::InvalidArgument,
        "project_id must not be empty",
    );
    assert_eq!(text(&e.details, &["field"]), "project_id");
    let e2 = kb(
        b.prepare("p1", "", "/cl.md", false),
        ErrorCode::InvalidArgument,
        "project_name must not be empty",
    );
    assert_eq!(text(&e2.details, &["field"]), "project_name");
}

#[test]
fn prepare_conflict_when_active_override_and_source_changed() {
    let mut b = Bench::prepared();
    b.set("SEC-001", r#"{"summary": "OVER-RIDDEN summary"}"#, "why").unwrap();
    b.file("/cl2.md", &changed());
    let e = kb(
        b.prepare("p1", "payments", "/cl2.md", false),
        ErrorCode::OverrideConflict,
        "source rules changed while local overrides are active",
    );
    assert_eq!(text(&e.details, &["project_id"]), "p1");
    assert_eq!(at(&e.details, &["keys"]), r#"["SEC-001"]"#);
    assert_eq!(text(&b.show("SEC-001").unwrap(), &["override", "status"]), "conflict");
}

#[test]
fn a_conflict_leaves_the_snapshot_alone() {
    let mut b = Bench::prepared();
    b.set("SEC-001", r#"{"summary": "local"}"#, "why").unwrap();
    let before = (b.dump("projects"), b.dump("rules"), b.dump("sync_history"));
    b.file("/cl2.md", &changed());
    assert!(b.prepare("p1", "payments", "/cl2.md", false).is_err());
    assert_eq!(before, (b.dump("projects"), b.dump("rules"), b.dump("sync_history")));
}

/// Action, rule and reason of the audit entries of a project, oldest first.
fn audited(b: &Bench) -> Vec<String> {
    let query = "SELECT action || '|' || COALESCE(rule_key, '-') || '|' || reason AS entry \
                 FROM audit_log WHERE project_id = 'p1' ORDER BY audit_id";
    b.machine
        .rows(Statement::new(query))
        .into_iter()
        .map(|row| match &row[0].1 {
            Cell::Text(t) => t.clone(),
            other => panic!("no text: {other:?}"),
        })
        .collect()
}

#[test]
fn conflicts_and_descriptions_are_audited() {
    let mut b = Bench::prepared();
    b.set("SEC-001", r#"{"summary": "local"}"#, "why").unwrap();
    let set = vec![
        "override.set|SEC-001|why".to_string(),
        "description.update|-|effective rules changed".to_string(),
    ];
    assert_eq!(audited(&b), set);
    b.file("/cl2.md", &changed());
    assert!(b.prepare("p1", "payments", "/cl2.md", false).is_err());
    let mut marked = set.clone();
    marked.push("override.conflict|SEC-001|source rule changed".to_string());
    assert_eq!(audited(&b), marked);
}

#[test]
fn a_conflict_is_marked_only_with_its_entry() {
    let mut b = Bench::prepared();
    b.set("SEC-001", r#"{"summary": "local"}"#, "why").unwrap();
    b.machine
        .conn(Handle::Main)
        .execute_batch(
            "CREATE TRIGGER refuse BEFORE INSERT ON audit_log BEGIN SELECT RAISE(ABORT, 'no'); END",
        )
        .unwrap();
    b.file("/cl2.md", &changed());
    match b.prepare("p1", "payments", "/cl2.md", false) {
        Err(ServiceError::Raw(e)) => assert_eq!(e, "no"),
        other => panic!("expected a failure, got {other:?}"),
    }
    assert_eq!(text(&b.show("SEC-001").unwrap(), &["override", "status"]), "active");
}

#[test]
fn the_revision_that_is_handed_out_is_accepted() {
    let mut b = Bench::new();
    let first = b.prepare("p1", "payments", "/cl.md", false).unwrap();
    let source = text(&first, &["selection_context", "knowledge_revision"]);
    b.set("SEC-001", r#"{"summary": "local"}"#, "why").unwrap();
    b.file("/cl2.md", &changed());
    assert!(b.prepare("p1", "payments", "/cl2.md", false).is_err());
    assert_ne!(text(&b.project(), &["knowledge_revision"]), source);

    let again = b.prepare("p1", "payments", "/cl.md", false).unwrap();
    assert_eq!(text(&again, &["knowledge_status"]), "reused");
    assert_eq!(text(&again, &["selection_context", "knowledge_revision"]), source);
    assert_eq!(text(&b.project(), &["knowledge_revision"]), source);
    let rules = b
        .select(&format!(
            r#"{{"project_id": "p1", "knowledge_revision": "{source}", "keys": ["DB-004", "SEC-001"]}}"#
        ))
        .unwrap();
    assert_eq!(text(&rules, &["rules", "0", "key"]), "DB-004");
    assert_eq!(text(&rules, &["rules", "1", "key"]), "SEC-001");
    let e = kb(
        b.select(r#"{"project_id": "p1", "knowledge_revision": "stale", "keys": ["DB-004"]}"#),
        ErrorCode::KnowledgeRevisionMismatch,
        "",
    );
    assert_eq!(text(&e.details, &["requested_revision"]), "stale");
}

/// The revision of a project that is prepared from `source` and has no overrides.
fn revision_of_source(source: &str) -> String {
    let mut b = Bench::new();
    b.file("/other.md", source);
    let prepared = b.prepare("p9", "other", "/other.md", false).unwrap();
    text(&prepared, &["selection_context", "knowledge_revision"])
}

#[test]
fn the_stored_revision_is_that_of_the_effective_rules() {
    let stored = |b: &mut Bench| -> String { text(&b.project(), &["knowledge_revision"]) };
    let local = |source: &str| -> String {
        source.replace("Check SQL parameterization", "local")
    };
    let mut b = Bench::prepared();
    b.prepare("p2", "billing", "/cl.md", false).unwrap();
    assert_eq!(stored(&mut b), revision_of_source(CHECKLIST_SRC));

    let set = b.set("SEC-001", r#"{"summary": "local"}"#, "why").unwrap();
    assert_eq!(stored(&mut b), revision_of_source(&local(CHECKLIST_SRC)));
    assert_eq!(text(&set, &["knowledge_revision"]), stored(&mut b));

    b.prepare("p1", "renamed", "/cl.md", false).unwrap();
    assert_eq!(stored(&mut b), revision_of_source(&local(CHECKLIST_SRC)));
    b.prepare("p1", "renamed", "/cl.md", true).unwrap();
    assert_eq!(stored(&mut b), revision_of_source(&local(CHECKLIST_SRC)));

    b.file("/cl2.md", &changed());
    assert!(b.prepare("p1", "renamed", "/cl2.md", false).is_err());
    let step = b.service.resolve_override("p1", "SEC-001", "keep-override", "/cl2.md", "ours");
    let resolved = b.run(step).unwrap();
    assert_eq!(stored(&mut b), revision_of_source(&local(&changed())));
    assert_eq!(text(&resolved, &["selection_context", "knowledge_revision"]), stored(&mut b));

    let step = b.service.unset_override("p1", "SEC-001", "done");
    b.run(step).unwrap();
    assert_eq!(stored(&mut b), revision_of_source(&changed()));

    let query = b.service.repository.get_project("p2");
    let other = project_in(&b.machine.rows(query)).unwrap();
    assert_eq!(text(&other, &["knowledge_revision"]), revision_of_source(CHECKLIST_SRC));
}

#[test]
fn a_refresh_replaces_only_its_own() {
    let mut b = Bench::prepared();
    b.prepare("p2", "billing", "/cl.md", false).unwrap();
    let created = text(&b.project(), &["created_at"]);
    let other = Statement::new("SELECT * FROM rules WHERE project_id = 'p2' ORDER BY ordinal");
    let before = format!("{:?}", b.machine.rows(other));
    b.file("/cl2.md", &changed());
    b.prepare("p1", "payments", "/cl2.md", false).unwrap();
    let other = Statement::new("SELECT * FROM rules WHERE project_id = 'p2' ORDER BY ordinal");
    assert_eq!(before, format!("{:?}", b.machine.rows(other)));
    assert_eq!(text(&b.project(), &["created_at"]), created);
    assert_eq!(at(&b.project(), &["rule_count"]), "2");
    let query = b.service.repository.list_rules("p1");
    let rules = read_records(Shape::Rule, &b.machine.rows(query)).unwrap();
    assert_eq!(at(&rules[0], &["ordinal"]), "0");
    assert_eq!(at(&rules[1], &["ordinal"]), "1");
    assert_eq!(get_str(&rules[0], "content"), Some("Do not concatenate SQL strings. Ever."));
    let history = Statement::new("SELECT * FROM sync_history WHERE project_id = 'p1'");
    assert_eq!(b.machine.rows(history).len(), 2);
}

#[test]
fn a_write_that_fails_is_reported_and_changes_nothing() {
    let mut b = Bench::prepared();
    b.machine
        .conn(Handle::Main)
        .execute_batch(
            "CREATE TRIGGER refuse BEFORE INSERT ON sync_history BEGIN SELECT RAISE(ABORT, 'no'); END",
        )
        .unwrap();
    let before = (b.dump("projects"), b.dump("rules"));
    let e = kb(
        b.prepare("p1", "payments", "/cl.md", true),
        ErrorCode::DbIntegrityError,
        "database write failed: no",
    );
    assert_eq!(text(&e.details, &["path"]), ":memory:");
    assert_eq!(before, (b.dump("projects"), b.dump("rules")));
}

// ---- status ----

#[test]
fn status_missing_current_stale() {
    let mut b = Bench::new();
    let s = b.status("/cl.md");
    assert_eq!(text(&s, &["status"]), "missing");
    assert_eq!(at(&s, &["stored_version"]), "null");
    assert_eq!(at(&s, &["stored_hash"]), "null");

    b.prepare("p1", "payments", "/cl.md", false).unwrap();
    let s = b.status("/cl.md");
    assert_eq!(text(&s, &["status"]), "current");
    assert_eq!(text(&s, &["stored_version"]), "2026.07.1");

    b.file("/cl2.md", &CHECKLIST_SRC.replace("\"2026.07.1\"", "\"2026.08.1\""));
    let s = b.status("/cl2.md");
    assert_eq!(text(&s, &["status"]), "stale");
    assert_eq!(text(&s, &["source_version"]), "2026.08.1");
}

#[test]
fn status_conflict_when_override_base_hash_diverged() {
    let mut b = Bench::prepared();
    b.set("SEC-001", r#"{"summary": "changed summary"}"#, "why").unwrap();
    b.file("/cl2.md", &changed());
    let s = b.status("/cl2.md");
    assert_eq!(text(&s, &["status"]), "conflict");
    assert_eq!(at(&s, &["conflict_keys"]), r#"["SEC-001"]"#);
}

// ---- projects, rules, descriptions ----

#[test]
fn show_project_and_list_projects_strip_description() {
    let mut b = Bench::prepared();
    let step = b.service.show_project("p1");
    let shown = b.run(step).unwrap();
    assert!(shown.get("description_json").is_none());
    assert_eq!(text(&shown, &["project_id"]), "p1");

    let step = b.service.list_projects();
    let listed = b.run(step).unwrap();
    assert_eq!(length(&listed), 1);
    assert_eq!(at(&listed, &["0", "description_json"]), "-");
}

#[test]
fn list_rules_strips_content_and_hash() {
    let mut b = Bench::prepared();
    let step = b.service.list_rules("p1");
    let rules = b.run(step).unwrap();
    assert_eq!(length(&rules), 2);
    for i in ["0", "1"] {
        assert_eq!(at(&rules, &[i, "content"]), "-", "content must be stripped");
        assert_eq!(at(&rules, &[i, "source_rule_hash"]), "-", "source_rule_hash must be stripped");
        assert_ne!(at(&rules, &[i, "key"]), "-");
        assert_ne!(at(&rules, &[i, "ordinal"]), "-");
    }
    assert_eq!(text(&rules, &["0", "key"]), "SEC-001");
    assert_eq!(text(&rules, &["1", "key"]), "DB-004");
}

#[test]
fn get_description_round_trips() {
    let mut b = Bench::new();
    let prep = b.prepare("p1", "payments", "/cl.md", false).unwrap();
    let step = b.service.get_description("p1");
    let desc = b.run(step).unwrap();
    assert_eq!(text(&desc, &["project", "id"]), "p1");
    assert_eq!(text(&desc, &["checklist", "version"]), "2026.07.1");
    assert_eq!(length(desc.get("rules").unwrap()), 2);
    assert_eq!(canonical_json(&desc), at(&prep, &["description"]));
}

#[test]
fn search_rules_requires_query_and_filters() {
    let mut b = Bench::prepared();
    let step = b.service.search_rules("p1", "");
    kb(b.run(step), ErrorCode::InvalidArgument, "query must not be empty");
    let step = b.service.search_rules("p1", "transaction");
    let hits = b.run(step).unwrap();
    assert_eq!(length(&hits), 1);
    assert_eq!(text(&hits, &["0", "key"]), "DB-004");
}

#[test]
fn a_search_looks_at_every_field() {
    let mut b = Bench::prepared();
    let mut hits = |query: &str| -> usize {
        let step = b.service.search_rules("p1", query);
        length(&b.run(step).unwrap())
    };
    assert_eq!(hits("db-0"), 1);
    assert_eq!(hits("PARAMETERIZATION"), 1);
    assert_eq!(hits("concatenate"), 1);
    assert_eq!(hits("security"), 1);
    assert_eq!(hits("services/*"), 1);
    assert_eq!(hits("Python"), 2);
    for query in ["[", "\"", "\",", "\\"] {
        assert_eq!(hits(query), 0, "{query}");
    }
}

#[test]
fn project_not_found_paths() {
    let mut b = Bench::new();
    let missing = "project not found: nope";
    let step = b.service.show_project("nope");
    kb(b.run(step), ErrorCode::ProjectNotFound, missing);
    let step = b.service.get_description("nope");
    kb(b.run(step), ErrorCode::ProjectNotFound, missing);
    let step = b.service.list_rules("nope");
    kb(b.run(step), ErrorCode::ProjectNotFound, missing);
    let step = b.service.search_rules("nope", "x");
    kb(b.run(step), ErrorCode::ProjectNotFound, missing);
    let step = b.service.list_overrides("nope");
    kb(b.run(step), ErrorCode::ProjectNotFound, missing);
    let step = b.service.unset_override("nope", "K", "r");
    kb(b.run(step), ErrorCode::ProjectNotFound, missing);
}

// ---- selections ----

#[test]
fn get_selected_rules_applies_active_overrides() {
    let mut b = Bench::prepared();
    let set = b
        .set("SEC-001", r#"{"summary": "OVERRIDDEN", "tags": ["security", "security", "extra"]}"#, "why")
        .unwrap();
    let revision = text(&set, &["knowledge_revision"]);
    let out = b
        .select(&format!(
            r#"{{"project_id": "p1", "knowledge_revision": "{revision}", "keys": ["SEC-001", "DB-004"]}}"#
        ))
        .unwrap();
    assert_eq!(text(&out, &["project_id"]), "p1");
    assert_eq!(length(out.get("rules").unwrap()), 2);
    assert_eq!(text(&out, &["rules", "0", "key"]), "SEC-001");
    assert_eq!(text(&out, &["rules", "0", "summary"]), "OVERRIDDEN");
    assert_eq!(at(&out, &["rules", "0", "tags"]), r#"["security","extra"]"#);
    assert_ne!(at(&out, &["rules", "0", "content"]), "-");
    assert_ne!(at(&out, &["rules", "0", "source_rule_hash"]), "-");
    assert_eq!(text(&out, &["rules", "1", "key"]), "DB-004");
    assert_ne!(text(&out, &["rules", "1", "summary"]), "OVERRIDDEN");
}

#[test]
fn a_selection_is_answered_in_its_own_order() {
    let mut b = Bench::prepared();
    let revision = text(&b.project(), &["knowledge_revision"]);
    let out = b
        .select(&format!(
            r#"{{"project_id": "p1", "knowledge_revision": "{revision}", "keys": ["DB-004", "SEC-001"]}}"#
        ))
        .unwrap();
    assert_eq!(text(&out, &["rules", "0", "key"]), "DB-004");
    assert_eq!(text(&out, &["rules", "1", "key"]), "SEC-001");
}

#[test]
fn get_selected_rules_revision_mismatch() {
    let mut b = Bench::prepared();
    let e = kb(
        b.select(
            r#"{"project_id": "p1", "knowledge_revision": "sha256:stale-revision", "keys": ["SEC-001"]}"#,
        ),
        ErrorCode::KnowledgeRevisionMismatch,
        "knowledge revision changed",
    );
    assert_eq!(text(&e.details, &["requested_revision"]), "sha256:stale-revision");
    assert!(get_str(&e.details, "current_revision").is_some());
}

#[test]
fn get_selected_rules_unknown_key_suggests() {
    let mut b = Bench::prepared();
    let revision = text(&b.project(), &["knowledge_revision"]);
    let e = kb(
        b.select(&format!(
            r#"{{"project_id": "p1", "knowledge_revision": "{revision}", "keys": ["SEC-001", "DB-999"]}}"#
        )),
        ErrorCode::RuleNotFound,
        "one or more selected rule keys do not exist",
    );
    assert_eq!(at(&e.details, &["not_found"]), r#"["DB-999"]"#);
    assert!(e.details.get("suggestions").unwrap().get("DB-999").is_some());
    assert!(at(&e.details, &["suggestions", "DB-999"]).contains(r#""DB-004""#));
}

#[test]
fn get_selected_rules_clean_validation_error_is_envelope() {
    let mut b = Bench::new();
    let e = kb(b.select("{}"), ErrorCode::InvalidSelection, "invalid rule selection");
    assert_eq!(length(e.details.get("validation_errors").unwrap()), 3);
    let expected = [
        r#"[{"input":{},"loc":["project_id"],"msg":"Field required","type":"missing"},"#,
        r#"{"input":{},"loc":["knowledge_revision"],"msg":"Field required","type":"missing"},"#,
        r#"{"input":{},"loc":["keys"],"msg":"Field required","type":"missing"}]"#,
    ]
    .concat();
    assert_eq!(at(&e.details, &["validation_errors"]), expected);
}

#[test]
fn get_selected_rules_value_error_is_raw_escape() {
    let mut b = Bench::new();
    match b.select(r#"{"project_id": "", "knowledge_revision": "r", "keys": ["A"]}"#) {
        Err(ServiceError::Raw(_)) => {}
        other => panic!("expected Raw, got {other:?}"),
    }
}

// ---- overrides ----

#[test]
fn set_override_refreshes_effective_description() {
    let mut b = Bench::new();
    let prep = b.prepare("p1", "payments", "/cl.md", false).unwrap();
    let before_rev = text(&prep, &["selection_context", "knowledge_revision"]);

    let res = b.set("SEC-001", r#"{"summary": "New summary"}"#, "reason").unwrap();
    assert_eq!(text(&res, &["status"]), "active");
    let after_rev = text(&res, &["knowledge_revision"]);
    assert_ne!(before_rev, after_rev, "effective revision must change");
    assert_eq!(text(&b.project(), &["knowledge_revision"]), after_rev);

    let step = b.service.list_overrides("p1");
    let ovs = b.run(step).unwrap();
    assert_eq!(length(&ovs), 1);
    assert_eq!(text(&ovs, &["0", "rule_key"]), "SEC-001");
    assert_eq!(text(&ovs, &["0", "status"]), "active");
    assert_eq!(text(&ovs, &["0", "summary"]), "New summary");
}

#[test]
fn an_override_that_is_unset_leaves_the_source() {
    let mut b = Bench::prepared();
    let source = text(&b.project(), &["knowledge_revision"]);
    let rules = b.dump("rules");
    b.set("SEC-001", r#"{"content": "X"}"#, "why").unwrap();
    assert_eq!(rules, b.dump("rules"));
    let step = b.service.unset_override("p1", "SEC-001", "done");
    let unset = b.run(step).unwrap();
    assert_eq!(text(&unset, &["status"]), "disabled");
    assert_eq!(text(&unset, &["knowledge_revision"]), source);
    assert_eq!(text(&b.project(), &["knowledge_revision"]), source);
    assert_eq!(rules, b.dump("rules"));
}

#[test]
fn set_override_rejects_invalid_fields() {
    let mut b = Bench::prepared();
    let e = kb(
        b.set("SEC-001", r#"{"bogus": "x"}"#, "reason"),
        ErrorCode::InvalidArgument,
        "override requires at least one supported field",
    );
    assert_eq!(
        at(&e.details, &["allowed_fields"]),
        r#"["content","languages","paths","summary","tags"]"#
    );
    let e = kb(
        b.set("SEC-001", r#"{"summary": "   "}"#, "reason"),
        ErrorCode::InvalidArgument,
        "override summary must be a non-empty string",
    );
    assert_eq!(text(&e.details, &["field"]), "summary");
    let e = kb(
        b.set("SEC-001", r#"{"tags": ["ok", 5]}"#, "reason"),
        ErrorCode::InvalidArgument,
        "override tags must be an array of non-empty strings",
    );
    assert_eq!(text(&e.details, &["field"]), "tags");
    let e = kb(
        b.set("SEC-001", r#"{"summary": "ok"}"#, "   "),
        ErrorCode::InvalidArgument,
        "override reason must not be empty",
    );
    assert_eq!(text(&e.details, &["field"]), "reason");
    kb(
        b.set("NOPE", r#"{"summary": "ok"}"#, "reason"),
        ErrorCode::RuleNotFound,
        "rule not found: NOPE",
    );
}

#[test]
fn show_override_and_unset() {
    let mut b = Bench::prepared();
    b.set("SEC-001", r#"{"summary": "X"}"#, "why").unwrap();
    let shown = b.show("SEC-001").unwrap();
    assert_eq!(text(&shown, &["override", "rule_key"]), "SEC-001");
    assert_eq!(text(&shown, &["source", "key"]), "SEC-001");
    kb(b.show("DB-004"), ErrorCode::RuleNotFound, "override not found: DB-004");

    let step = b.service.unset_override("p1", "SEC-001", "done");
    let unset = b.run(step).unwrap();
    assert_eq!(text(&unset, &["status"]), "disabled");
    assert_eq!(text(&b.show("SEC-001").unwrap(), &["override", "status"]), "disabled");
}

impl Bench {
    fn resolve(&mut self, strategy: &str, path: &str, reason: &str) -> Result<Json, ServiceError> {
        let step = self.service.resolve_override("p1", "SEC-001", strategy, path, reason);
        self.run(step)
    }

    fn conflicting() -> Bench {
        let mut b = Bench::prepared();
        b.set("SEC-001", r#"{"summary": "X"}"#, "why").unwrap();
        b.file("/cl2.md", &changed());
        kb(
            b.prepare("p1", "payments", "/cl2.md", false),
            ErrorCode::OverrideConflict,
            "source rules changed",
        );
        b
    }
}

#[test]
fn resolve_override_accept_source_disables_and_refreshes() {
    let mut b = Bench::conflicting();
    assert_eq!(text(&b.show("SEC-001").unwrap(), &["override", "status"]), "conflict");
    let res = b.resolve("accept-source", "/cl2.md", "accepting upstream").unwrap();
    assert_eq!(text(&res, &["knowledge_status"]), "refreshed");
    assert_eq!(text(&res, &["override_resolution", "strategy"]), "accept-source");
    assert_eq!(text(&res, &["override_resolution", "key"]), "SEC-001");
    assert_eq!(text(&b.show("SEC-001").unwrap(), &["override", "status"]), "disabled");
}

#[test]
fn resolve_override_keep_override_rebinds() {
    let mut b = Bench::conflicting();
    let res = b.resolve("keep-override", "/cl2.md", "still needed").unwrap();
    assert_eq!(text(&res, &["knowledge_status"]), "refreshed");
    let shown = b.show("SEC-001").unwrap();
    assert_eq!(text(&shown, &["override", "status"]), "active");
    assert_eq!(
        at(&shown, &["override", "base_source_rule_hash"]),
        at(&shown, &["source", "source_rule_hash"])
    );
    assert_eq!(text(&res, &["description", "rules", "0", "summary"]), "X");
}

#[test]
fn resolve_override_rejects_bad_strategy_and_reason() {
    let mut b = Bench::prepared();
    kb(
        b.resolve("bogus", "/cl.md", "r"),
        ErrorCode::InvalidArgument,
        "override resolution strategy must be keep-override or accept-source",
    );
    kb(
        b.resolve("keep-override", "/cl.md", "  "),
        ErrorCode::InvalidArgument,
        "override resolution reason must not be empty",
    );
    kb(b.resolve("keep-override", "/cl.md", "r"), ErrorCode::RuleNotFound, "override not found: ");
    b.set("SEC-001", r#"{"summary": "X"}"#, "why").unwrap();
    kb(
        b.resolve("keep-override", "/cl.md", "r"),
        ErrorCode::InvalidArgument,
        "only a conflicting override can be resolved",
    );
}

#[test]
fn keeping_an_override_needs_its_rule() {
    let mut b = Bench::conflicting();
    b.file("/cl3.md", &CHECKLIST_SRC.replace("## SEC-001", "## SEC-009"));
    kb(
        b.resolve("keep-override", "/cl3.md", "r"),
        ErrorCode::RuleNotFound,
        "source rule not found: ",
    );
}

#[test]
fn dedupe_strings_preserves_first_occurrence() {
    match json(r#"["a", "b", "a", "c", "b"]"#) {
        Json::Array(items) => assert_eq!(
            dedupe_strings(&items),
            vec!["a".to_string(), "b".into(), "c".into()]
        ),
        other => panic!("no array: {other:?}"),
    }
}

#[test]
fn validate_override_fields_dedupes_arrays() {
    let v = Json::Object(validate_override_fields(&fields(r#"{"tags": ["x", "x", "y"]}"#)).unwrap());
    assert_eq!(at(&v, &["tags"]), r#"["x","y"]"#);
}

#[test]
fn validate_override_fields_trims_strings() {
    let v = Json::Object(validate_override_fields(&fields(r#"{"summary": "  hi  "}"#)).unwrap());
    assert_eq!(text(&v, &["summary"]), "hi");
}

#[test]
fn two_projects_with_the_same_keys() {
    let mut b = Bench::prepared();
    b.prepare("p2", "billing", "/cl.md", false).unwrap();
    b.set("SEC-001", r#"{"summary": "only p1"}"#, "why").unwrap();
    let step = b.service.list_overrides("p2");
    assert_eq!(length(&b.run(step).unwrap()), 0);
    let step = b.service.list_rules("p2");
    assert_eq!(length(&b.run(step).unwrap()), 2);
}

#[test]
fn now_iso_shape() {
    let s = now_iso();
    assert!(s.ends_with("+00:00"));
    assert!(!s.ends_with('Z'));
    let head = s.strip_suffix("+00:00").unwrap();
    assert!(head.len() >= 19);
}

// ---- whole runs ----

const FIXTURE: &str = r####"---
schema_version: 1
checklist_version: "2026.07.1"
global_description: |-
  检查本项目的安全性、事务边界、兼容性和可观测性。
---

## SEC-001

```yaml review-rule
summary: 检查外部输入是否在进入 SQL 前完成参数化处理
tags:
  - security
  - database
paths:
  - "src/**/*.py"
languages:
  - python
```

### 检视要求

禁止使用字符串拼接构造 SQL。确认查询使用参数绑定。

## DB-004

```yaml review-rule
summary: 检查事务边界是否覆盖完整业务操作
tags:
  - database
paths: []
languages:
  - python
```

确认失败路径会回滚事务，且外部调用不会被包含在长事务中。

"####;

fn world(pairs: &[(&str, &str)]) -> World {
    World {
        env: pairs.iter().map(|(k, v)| (k.to_string(), v.to_string())).collect(),
        cwd: "/".to_string(),
        stamp: restore_stamp(),
    }
}

/// Exit status, standard output, standard error.
type Ran = (i32, String, String);

fn run_in(machine: &mut Machine, cli: Cli, world: World) -> Ran {
    let mut turn = start(cli, world);
    loop {
        match turn {
            Turn::Exit(o) => {
                machine.open.clear();
                return (o.code, o.stdout.unwrap_or_default(), o.stderr.unwrap_or_default());
            }
            Turn::Ask(request, session) => {
                let reply = machine.act(request);
                turn = session.resume(reply, &now_iso());
            }
        }
    }
}

struct Shell {
    machine: Machine,
    db: String,
}

impl Shell {
    fn new(db: &str) -> Shell {
        let mut machine = Machine::new();
        machine.files.insert("/fixture.md".to_string(), FIXTURE.to_string());
        Shell { machine, db: db.to_string() }
    }

    fn run(&mut self, command: TopCommand, input: &str) -> Ran {
        self.machine.input = input.to_string();
        let cli = Cli { db: Some(self.db.clone()), command };
        run_in(&mut self.machine, cli, world(&[]))
    }

    fn prepare(&mut self) -> Ran {
        self.run(TopCommand::Prepare(tail("/fixture.md")), "")
    }

    fn rules_get(&mut self, input: &str) -> Ran {
        let command = RulesCommand::Get { input: "-".to_string() };
        self.run(TopCommand::Rules(RulesArgs { command }), input)
    }

    fn overrides_set(&mut self, input: &str) -> Ran {
        let command = OverridesCommand::Put { input: "-".to_string() };
        self.run(TopCommand::Overrides(OverridesArgs { command }), input)
    }

    fn database(&mut self, command: DbCommand) -> Ran {
        self.run(TopCommand::Db(DbArgs { command }), "")
    }
}

fn tail(checklist: &str) -> PrepareArgs {
    PrepareArgs {
        project_id: "123".to_string(),
        project_name: "payments".to_string(),
        checklist: checklist.to_string(),
    }
}

fn data(out: &str) -> Json {
    json(out).get("data").expect("envelope has data").duplicate()
}

fn error_obj(out: &str) -> Json {
    json(out).get("error").expect("envelope has error").duplicate()
}

fn selection(revision: &str, key: &str) -> String {
    format!(r#"{{"project_id": "123", "knowledge_revision": "{revision}", "keys": ["{key}"]}}"#)
}

#[test]
fn prepare_then_rules_get_emit_one_line_envelope() {
    let dir = tempfile::tempdir().unwrap();
    let mut sh = Shell::new(&below(&dir, "k.db"));
    let (code, out, err) = sh.prepare();
    assert_eq!(code, 0, "prepare failed: {err}");
    assert_eq!(text(&data(&out), &["selection_context", "project_id"]), "123");
    let revision = text(&data(&out), &["selection_context", "knowledge_revision"]);

    let (code, out, _err) = sh.rules_get(&selection(&revision, "SEC-001"));
    assert_eq!(code, 0, "rules get failed");
    assert_eq!(text(&data(&out), &["rules", "0", "key"]), "SEC-001");
    assert_eq!(out.trim().split('\n').count(), 1);
    assert!(out.ends_with('\n'));
}

#[test]
fn bad_selection_is_invalid_selection_exit_two() {
    let dir = tempfile::tempdir().unwrap();
    let mut sh = Shell::new(&below(&dir, "k.db"));
    let (code, out, _err) = sh.rules_get("{}");
    assert_eq!(code, 2);
    assert_eq!(text(&error_obj(&out), &["code"]), "INVALID_SELECTION");
}

#[test]
fn status_does_not_create_a_missing_database() {
    let dir = tempfile::tempdir().unwrap();
    let db = below(&dir, "must-not-exist.db");
    let mut sh = Shell::new(&db);
    let (code, out, _err) = sh.run(
        TopCommand::Status(StatusArgs {
            project_id: "123".to_string(),
            checklist: "/fixture.md".to_string(),
        }),
        "",
    );
    assert_eq!(code, 0);
    assert_eq!(text(&data(&out), &["status"]), "missing");
    assert!(!Path::new(&db).exists(), "status must not create the DB file");
}

#[test]
fn rule_not_found_is_exit_three_with_suggestions() {
    let dir = tempfile::tempdir().unwrap();
    let mut sh = Shell::new(&below(&dir, "k.db"));
    let (code, out, _err) = sh.prepare();
    assert_eq!(code, 0);
    let revision = text(&data(&out), &["selection_context", "knowledge_revision"]);
    let (code, out, _err) = sh.rules_get(&selection(&revision, "SEC-01"));
    assert_eq!(code, 3);
    let error = error_obj(&out);
    assert_eq!(text(&error, &["code"]), "RULE_NOT_FOUND");
    assert_eq!(text(&error, &["details", "suggestions", "SEC-01", "0"]), "SEC-001");
}

#[test]
fn sync_creates_and_rebuild_marks_rebuilt() {
    let dir = tempfile::tempdir().unwrap();
    let mut sh = Shell::new(&below(&dir, "k.db"));
    let (code, out, err) = sh.run(TopCommand::Sync(tail("/fixture.md")), "");
    assert_eq!(code, 0, "sync: {err}");
    assert_eq!(text(&data(&out), &["knowledge_status"]), "created");
    let (code, out, err) = sh.run(TopCommand::Rebuild(tail("/fixture.md")), "");
    assert_eq!(code, 0, "rebuild: {err}");
    assert_eq!(text(&data(&out), &["knowledge_status"]), "rebuilt");
}

#[test]
fn override_lifecycle_updates_revision_and_content() {
    let dir = tempfile::tempdir().unwrap();
    let mut sh = Shell::new(&below(&dir, "k.db"));
    let (code, out, err) = sh.prepare();
    assert_eq!(code, 0, "prepare: {err}");
    let old_revision = text(&data(&out), &["selection_context", "knowledge_revision"]);

    let (code, out, _err) = sh.overrides_set(
        r#"{"project_id": "123", "key": "SEC-001", "reason": "应急修复", "content": "临时规则正文"}"#,
    );
    assert_eq!(code, 0);
    let new_revision = text(&data(&out), &["knowledge_revision"]);
    assert_ne!(new_revision, old_revision);

    let command = OverridesCommand::List { project_id: "123".to_string() };
    let (code, out, _err) = sh.run(TopCommand::Overrides(OverridesArgs { command }), "");
    assert_eq!(code, 0);
    assert_eq!(text(&data(&out), &["overrides", "0", "status"]), "active");

    let (code, out, _err) = sh.rules_get(&selection(&new_revision, "SEC-001"));
    assert_eq!(code, 0);
    assert_eq!(text(&data(&out), &["rules", "0", "content"]), "临时规则正文");

    let command = OverridesCommand::Unset {
        project_id: "123".to_string(),
        key: "SEC-001".to_string(),
        reason: "应急结束".to_string(),
    };
    let (code, out, _err) = sh.run(TopCommand::Overrides(OverridesArgs { command }), "");
    assert_eq!(code, 0);
    assert_eq!(text(&data(&out), &["status"]), "disabled");
}

#[test]
fn override_resolve_accept_source_emits_resolution() {
    let dir = tempfile::tempdir().unwrap();
    let mut sh = Shell::new(&below(&dir, "k.db"));
    let checklist = "/review-checklist.md";
    sh.machine.files.insert(checklist.to_string(), FIXTURE.to_string());
    sh.run(TopCommand::Prepare(tail(checklist)), "");
    sh.overrides_set(
        r#"{"project_id": "123", "key": "SEC-001", "reason": "应急", "content": "临时规则"}"#,
    );

    let mutated = FIXTURE.replace("参数化处理", "安全参数绑定");
    sh.machine.files.insert(checklist.to_string(), mutated);
    let (code, _out, _err) = sh.run(TopCommand::Prepare(tail(checklist)), "");
    assert_eq!(code, 4);

    let command = OverridesCommand::Resolve {
        project_id: "123".to_string(),
        key: "SEC-001".to_string(),
        strategy: "accept-source".to_string(),
        checklist: checklist.to_string(),
        reason: "接受源规则".to_string(),
    };
    let (code, out, err) = sh.run(TopCommand::Overrides(OverridesArgs { command }), "");
    assert_eq!(code, 0, "resolve: {err}");
    assert_eq!(text(&data(&out), &["override_resolution", "strategy"]), "accept-source");
}

fn config(command: ConfigCommand) -> Cli {
    Cli { db: None, command: TopCommand::Config(ConfigArgs { command }) }
}

#[test]
fn config_show_reports_environment_and_set_get_round_trips() {
    let mut machine = Machine::new();
    let (code, out, _err) = run_in(
        &mut machine,
        config(ConfigCommand::Show),
        world(&[("REVIEW_KB_DB", "/t/from-env.db"), ("HOME", "/t")]),
    );
    assert_eq!(code, 0);
    assert_eq!(
        canonical_json(&data(&out)),
        r#"{"db_path":"/t/from-env.db","source":"environment"}"#
    );

    let env = [("REVIEW_KB_CONFIG", "/t/rk/config.toml"), ("HOME", "/t")];
    let (code, out, err) = run_in(
        &mut machine,
        config(ConfigCommand::Put { key: "db_path".to_string(), value: "/t/data/k.db".to_string() }),
        world(&env),
    );
    assert_eq!(code, 0, "config set: {err}");
    assert_eq!(
        canonical_json(&data(&out)),
        r#"{"config_path":"/t/rk/config.toml","key":"db_path","value":"/t/data/k.db"}"#
    );
    assert!(machine.files.contains_key("/t/rk/config.toml"));

    let (code, out, _err) = run_in(
        &mut machine,
        config(ConfigCommand::Get { key: "db_path".to_string() }),
        world(&env),
    );
    assert_eq!(code, 0);
    assert_eq!(
        canonical_json(&data(&out)),
        r#"{"key":"db_path","source":"config_file","value":"/t/data/k.db"}"#
    );
}

#[test]
fn configuration_faults() {
    let mut machine = Machine::new();
    let env = [("REVIEW_KB_CONFIG", "/c.toml"), ("HOME", "/t")];
    for command in [
        ConfigCommand::Get { key: "other".to_string() },
        ConfigCommand::Put { key: "other".to_string(), value: "x".to_string() },
    ] {
        let (code, out, _err) = run_in(&mut machine, config(command), world(&env));
        assert_eq!(code, 2);
        assert_eq!(text(&error_obj(&out), &["message"]), "unsupported config key: other");
        assert_eq!(at(&error_obj(&out), &["details", "allowed_keys"]), r#"["db_path"]"#);
    }
    machine.files.insert("/c.toml".to_string(), "db_path = 3".to_string());
    let (code, out, err) = run_in(&mut machine, config(ConfigCommand::Show), world(&env));
    assert_eq!((code, out.as_str()), (1, ""));
    assert_eq!(err, "INVALID_ARGUMENT: config db_path must be a non-empty string");
}

#[test]
fn db_query_backup_restore_migrate_info() {
    let dir = tempfile::tempdir().unwrap();
    let mut sh = Shell::new(&below(&dir, "k.db"));
    let backup = below(&dir, "bk.db");
    sh.prepare();

    let (code, out, err) = sh.database(DbCommand::Query {
        view: "rules".to_string(),
        project_id: Some("123".to_string()),
        query: Some("SEC-001".to_string()),
        limit: 100,
    });
    assert_eq!(code, 0, "query: {err}");
    assert_eq!(text(&data(&out), &["rows", "0", "key"]), "SEC-001");

    let (code, _out, err) = sh.database(DbCommand::Backup { output: backup.clone() });
    assert_eq!(code, 0, "backup: {err}");
    assert!(Path::new(&backup).exists());

    let (code, out, err) = sh.database(DbCommand::Restore { input: backup.clone() });
    assert_eq!(code, 0, "restore: {err}");
    let safety = text(&data(&out), &["safety_backup"]);
    assert!(Path::new(&safety).exists(), "safety backup {safety} must exist");

    let (code, out, err) = sh.database(DbCommand::Migrate);
    assert_eq!(code, 0, "migrate: {err}");
    assert_eq!(at(&data(&out), &["schema_version"]), "2");

    let (code, out, err) = sh.database(DbCommand::Info);
    assert_eq!(code, 0, "info: {err}");
    assert_eq!(at(&data(&out), &["schema_version"]), "2");
    assert_eq!(at(&data(&out), &["project_count"]), "1");
    assert_eq!(at(&data(&out), &["rule_count"]), "2");
    assert_eq!(text(&data(&out), &["path_source"]), "command_line");

    let (code, out, _err) = sh.database(DbCommand::Check);
    assert_eq!(code, 0);
    assert_eq!(canonical_json(&data(&out)), r#"{"integrity":["ok"]}"#);
}

#[test]
fn views_that_can_be_queried() {
    let dir = tempfile::tempdir().unwrap();
    let mut sh = Shell::new(&below(&dir, "k.db"));
    sh.prepare();
    sh.overrides_set(
        r#"{"project_id": "123", "key": "SEC-001", "reason": "r", "summary": "s"}"#,
    );
    let mut ask = |view: &str, query: Option<&str>, limit: i64| -> Ran {
        sh.database(DbCommand::Query {
            view: view.to_string(),
            project_id: None,
            query: query.map(|q| q.to_string()),
            limit,
        })
    };
    for (view, n) in
        [("projects", 1), ("rules", 2), ("overrides", 1), ("sync_history", 1), ("audit_log", 2)]
    {
        let (code, out, _err) = ask(view, None, 100);
        assert_eq!(code, 0);
        assert_eq!(length(data(&out).get("rows").unwrap()), n, "{view}");
    }
    let (_code, out, _err) = ask("rules", None, 1);
    assert_eq!(length(data(&out).get("rows").unwrap()), 1);
    let (_code, out, _err) = ask("rules", Some("db-004"), 1);
    assert_eq!(text(&data(&out), &["rows", "0", "key"]), "DB-004");
    let (code, out, _err) = ask("secrets", None, 1);
    assert_eq!(code, 2);
    assert_eq!(
        at(&error_obj(&out), &["details", "allowed_views"]),
        r#"["audit_log","overrides","projects","rules","sync_history"]"#
    );
    for limit in [0, 1001] {
        let (code, out, _err) = ask("rules", None, limit);
        assert_eq!(code, 2);
        assert_eq!(
            text(&error_obj(&out), &["message"]),
            "query limit must be between 1 and 1000"
        );
    }
}

#[test]
fn a_backup_needs_a_database() {
    let dir = tempfile::tempdir().unwrap();
    let db = below(&dir, "none.db");
    let mut sh = Shell::new(&db);
    let (code, out, _err) = sh.database(DbCommand::Backup { output: below(&dir, "o.db") });
    assert_eq!(code, 5);
    assert_eq!(
        text(&error_obj(&out), &["message"]),
        format!("database file not found: {db}")
    );
    assert!(!Path::new(&db).exists());
}

#[test]
fn input_that_cannot_be_used() {
    let dir = tempfile::tempdir().unwrap();
    let mut sh = Shell::new(&below(&dir, "k.db"));
    let (code, out, _err) = sh.rules_get("[1]");
    assert_eq!(code, 2);
    assert_eq!(text(&error_obj(&out), &["message"]), "selection input must be a JSON object");
    assert_eq!(at(&error_obj(&out), &["details"]), r#"{"input":"-"}"#);
    let (code, out, _err) = sh.rules_get("{");
    assert_eq!(code, 2);
    assert!(text(&error_obj(&out), &["message"])
        .starts_with("selection input must be one valid JSON document: "));
    let (code, out, _err) = sh.overrides_set(r#"{"key": "K"}"#);
    assert_eq!(code, 2);
    assert_eq!(at(&error_obj(&out), &["details", "fields"]), r#"["project_id","reason"]"#);
    let command = RulesCommand::Get { input: "/nowhere.json".to_string() };
    let (code, out, _err) = sh.run(TopCommand::Rules(RulesArgs { command }), "");
    assert_eq!(code, 2);
    assert_eq!(
        text(&error_obj(&out), &["message"]),
        "selection input must be one valid JSON document: no such file"
    );
    let (code, out, err) =
        sh.rules_get(r#"{"project_id": "p", "knowledge_revision": "r", "keys": ["A", "A"]}"#);
    assert_eq!((code, out.as_str()), (1, ""));
    assert!(!err.is_empty());
}

#[test]
fn a_locked_database_is_reported() {
    let dir = tempfile::tempdir().unwrap();
    let db = below(&dir, "k.db");
    let mut machine = Machine::new();
    machine.files.insert("/cl.md".to_string(), CHECKLIST_SRC.to_string());
    let repository = machine.open_repository(Some(&db));
    machine.conn(Handle::Main).execute_batch("PRAGMA busy_timeout=0").unwrap();
    let other = Connection::open(&db).unwrap();
    other.execute_batch("BEGIN IMMEDIATE").unwrap();
    let service = KnowledgeService::new(repository, None, "/".to_string());
    let step = service.prepare("p1", "payments", "/cl.md", false);
    let e = kb(machine.finish(&service, step), ErrorCode::DbLocked, "database write failed: ");
    assert_eq!(text(&e.details, &["path"]), db);
}
