//! A run of the program, from the command line to the outcome.
//!
//! [`start`] takes the command line; [`Session::resume`] takes what the surroundings answer.

use vstd::prelude::*;

use crate::cli::{
    emit_failure, emit_success, escape_with, escaped, failed, finish, finished, input_error,
    override_input, override_parts, payload_of, read_selection, selection_error, succeeded, Cli,
    ConfigArgs, ConfigCommand, DbArgs, DbCommand, DescriptionArgs, DescriptionCommand, Outcome,
    OutcomeV, OverridesArgs, OverridesCommand, PrepareArgs, ProjectsArgs, ProjectsCommand,
    RulesArgs, RulesCommand, TopCommand,
};
use crate::config::{
    config_to_consult, config_write, consulted, env_get, env_value, env_view, invalid_config_error,
    location, path_detail, resolve_database_path, write_database_path, write_err, ConfigFile,
    ConfigFileV, DatabaseLocation, EnvV, LocationV,
};
use crate::errors::{and_detail, detail, ErrorCode, ErrorV, ReviewKBError};
use crate::json::{entries_view, Entries, Json, JsonV};
use crate::maintenance::{
    backup_next, backup_start, file_settings, migrate_next, migrate_start, misplaced, restore_next,
    restore_paths, restore_start, view_query, Backup, BackupV, Migration, MigrationV, Restore,
    RestoreV,
};
use crate::path_util::{expanded, expanduser, optional, optional_text, parent_of, parent_path};
use crate::protocol::{Handle, Reply, ReplyV, Request, RequestV, Step, StepV};
use crate::repository::{
    integrity_query, project_query, projects_query, schema_query, Repository, RepositoryError,
    RepositoryErrorV,
};
use crate::service::{
    ask, fail, given_path, next, prepare_start, required_fault, select_start, service_error,
    KnowledgeService, OverrideJobV, PrepareJobV, ResolveJobV, ServiceError, ServiceErrorV,
    ServiceStep, ServiceStepV, Stage, StageV,
};
use crate::text::same;

verus! {

broadcast use crate::json::group_json;

// ---- operations ----

/// What a command does with the database.
#[derive(Debug)]
pub enum Operation {
    Prepare { project_id: String, project_name: String, checklist: String, force: bool },
    Status { project_id: String, checklist: String },
    Description { project_id: String },
    Projects,
    Project { project_id: String },
    Rules { project_id: String },
    Search { project_id: String, query: String },
    Selection { payload: Json },
    Change { project_id: String, key: String, fields: Vec<(String, Json)>, reason: String },
    Overrides { project_id: String },
    Override { project_id: String, key: String },
    Unset { project_id: String, key: String, reason: String },
    Resolve {
        project_id: String,
        key: String,
        strategy: String,
        checklist: String,
        reason: String,
    },
    Info,
    Check,
    Query { view: String, scope: Option<String>, needle: Option<String>, limit: i64 },
    Schema,
    Backup { output: String },
}

/// What an [`Operation`] stands for.
pub enum OperationV {
    Prepare {
        project_id: Seq<char>,
        project_name: Seq<char>,
        checklist: Seq<char>,
        force: bool,
    },
    Status { project_id: Seq<char>, checklist: Seq<char> },
    Description { project_id: Seq<char> },
    Projects,
    Project { project_id: Seq<char> },
    Rules { project_id: Seq<char> },
    Search { project_id: Seq<char>, query: Seq<char> },
    Selection { payload: JsonV },
    Change { project_id: Seq<char>, key: Seq<char>, fields: Entries, reason: Seq<char> },
    Overrides { project_id: Seq<char> },
    Override { project_id: Seq<char>, key: Seq<char> },
    Unset { project_id: Seq<char>, key: Seq<char>, reason: Seq<char> },
    Resolve {
        project_id: Seq<char>,
        key: Seq<char>,
        strategy: Seq<char>,
        checklist: Seq<char>,
        reason: Seq<char>,
    },
    Info,
    Check,
    Query {
        view: Seq<char>,
        scope: Option<Seq<char>>,
        needle: Option<Seq<char>>,
        limit: int,
    },
    Schema,
    Backup { output: Seq<char> },
}

impl View for Operation {
    type V = OperationV;

    open spec fn view(&self) -> OperationV {
        match *self {
            Operation::Prepare { project_id, project_name, checklist, force } => OperationV::Prepare {
                project_id: project_id@,
                project_name: project_name@,
                checklist: checklist@,
                force,
            },
            Operation::Status { project_id, checklist } => OperationV::Status {
                project_id: project_id@,
                checklist: checklist@,
            },
            Operation::Description { project_id } => OperationV::Description {
                project_id: project_id@,
            },
            Operation::Projects => OperationV::Projects,
            Operation::Project { project_id } => OperationV::Project { project_id: project_id@ },
            Operation::Rules { project_id } => OperationV::Rules { project_id: project_id@ },
            Operation::Search { project_id, query } => OperationV::Search {
                project_id: project_id@,
                query: query@,
            },
            Operation::Selection { payload } => OperationV::Selection { payload: payload@ },
            Operation::Change { project_id, key, fields, reason } => OperationV::Change {
                project_id: project_id@,
                key: key@,
                fields: entries_view(fields@),
                reason: reason@,
            },
            Operation::Overrides { project_id } => OperationV::Overrides {
                project_id: project_id@,
            },
            Operation::Override { project_id, key } => OperationV::Override {
                project_id: project_id@,
                key: key@,
            },
            Operation::Unset { project_id, key, reason } => OperationV::Unset {
                project_id: project_id@,
                key: key@,
                reason: reason@,
            },
            Operation::Resolve { project_id, key, strategy, checklist, reason } => OperationV::Resolve {
                project_id: project_id@,
                key: key@,
                strategy: strategy@,
                checklist: checklist@,
                reason: reason@,
            },
            Operation::Info => OperationV::Info,
            Operation::Check => OperationV::Check,
            Operation::Query { view, scope, needle, limit } => OperationV::Query {
                view: view@,
                scope: optional_text(scope),
                needle: optional_text(needle),
                limit: limit as int,
            },
            Operation::Schema => OperationV::Schema,
            Operation::Backup { output } => OperationV::Backup { output: output@ },
        }
    }
}

/// The name under which the result of an operation that lists things is reported.
pub open spec fn label(operation: OperationV) -> Option<Seq<char>> {
    match operation {
        OperationV::Projects => Some("projects"@),
        OperationV::Rules { .. } => Some("rules"@),
        OperationV::Search { .. } => Some("rules"@),
        OperationV::Overrides { .. } => Some("overrides"@),
        _ => None,
    }
}

/// The result of an operation as it is reported.
pub open spec fn labelled(operation: OperationV, v: JsonV) -> JsonV {
    match label(operation) {
        Some(name) => detail(name, v),
        None => v,
    }
}

fn with_label(operation: &Operation, v: Json) -> (r: Json)
    ensures
        r@ == labelled(operation@, v@),
{
    match operation {
        Operation::Projects => Json::object().with("projects", v),
        Operation::Rules { .. } => Json::object().with("rules", v),
        Operation::Search { .. } => Json::object().with("rules", v),
        Operation::Overrides { .. } => Json::object().with("overrides", v),
        _ => v,
    }
}

// ---- plans ----

/// What a command asks for.
#[derive(Debug)]
pub enum Plan {
    /// An operation, under a command name; the flag tells whether a missing database file is
    /// created for it.
    Run(String, bool, Operation),
    /// A selection, in an input.
    Select(String),
    /// A new override, in an input.
    Change(String),
    /// A backup into a file.
    Backup(String),
    /// A restore from a file.
    Restore(String),
    /// The database location.
    Show,
    /// A configuration value.
    Get(String),
    /// A change of a configuration value.
    Put(String, String),
}

/// What a [`Plan`] stands for.
pub enum PlanV {
    Run(Seq<char>, bool, OperationV),
    Select(Seq<char>),
    Change(Seq<char>),
    Backup(Seq<char>),
    Restore(Seq<char>),
    Show,
    Get(Seq<char>),
    Put(Seq<char>, Seq<char>),
}

impl View for Plan {
    type V = PlanV;

    open spec fn view(&self) -> PlanV {
        match *self {
            Plan::Run(command, create, operation) => PlanV::Run(command@, create, operation@),
            Plan::Select(input) => PlanV::Select(input@),
            Plan::Change(input) => PlanV::Change(input@),
            Plan::Backup(output) => PlanV::Backup(output@),
            Plan::Restore(input) => PlanV::Restore(input@),
            Plan::Show => PlanV::Show,
            Plan::Get(key) => PlanV::Get(key@),
            Plan::Put(key, value) => PlanV::Put(key@, value@),
        }
    }
}

/// The operation of `prepare`, `sync` and `rebuild`.
pub open spec fn preparing(a: PrepareArgs, force: bool) -> OperationV {
    OperationV::Prepare {
        project_id: a.project_id@,
        project_name: a.project_name@,
        checklist: a.checklist@,
        force,
    }
}

/// The plan of a command. Only what brings knowledge in, and a migration, creates a database.
pub open spec fn planned(command: TopCommand) -> PlanV {
    match command {
        TopCommand::Prepare(a) => PlanV::Run("prepare"@, true, preparing(a, false)),
        TopCommand::Sync(a) => PlanV::Run("sync"@, true, preparing(a, false)),
        TopCommand::Rebuild(a) => PlanV::Run("rebuild"@, true, preparing(a, true)),
        TopCommand::Status(a) => PlanV::Run(
            "status"@,
            false,
            OperationV::Status { project_id: a.project_id@, checklist: a.checklist@ },
        ),
        TopCommand::Description(
            DescriptionArgs { command: DescriptionCommand::Get { project_id } },
        ) => PlanV::Run(
            "description get"@,
            false,
            OperationV::Description { project_id: project_id@ },
        ),
        TopCommand::Projects(ProjectsArgs { command }) => match command {
            ProjectsCommand::List => PlanV::Run("projects list"@, false, OperationV::Projects),
            ProjectsCommand::Show { project_id } => PlanV::Run(
                "projects show"@,
                false,
                OperationV::Project { project_id: project_id@ },
            ),
        },
        TopCommand::Rules(RulesArgs { command }) => match command {
            RulesCommand::List { project_id } => PlanV::Run(
                "rules list"@,
                false,
                OperationV::Rules { project_id: project_id@ },
            ),
            RulesCommand::Get { input } => PlanV::Select(input@),
            RulesCommand::Search { project_id, query } => PlanV::Run(
                "rules search"@,
                false,
                OperationV::Search { project_id: project_id@, query: query@ },
            ),
        },
        TopCommand::Overrides(OverridesArgs { command }) => match command {
            OverridesCommand::Put { input } => PlanV::Change(input@),
            OverridesCommand::List { project_id } => PlanV::Run(
                "overrides list"@,
                false,
                OperationV::Overrides { project_id: project_id@ },
            ),
            OverridesCommand::Show { project_id, key } => PlanV::Run(
                "overrides show"@,
                false,
                OperationV::Override { project_id: project_id@, key: key@ },
            ),
            OverridesCommand::Unset { project_id, key, reason } => PlanV::Run(
                "overrides unset"@,
                false,
                OperationV::Unset { project_id: project_id@, key: key@, reason: reason@ },
            ),
            OverridesCommand::Resolve { project_id, key, strategy, checklist, reason } => PlanV::Run(
                "overrides resolve"@,
                false,
                OperationV::Resolve {
                    project_id: project_id@,
                    key: key@,
                    strategy: strategy@,
                    checklist: checklist@,
                    reason: reason@,
                },
            ),
        },
        TopCommand::Db(DbArgs { command }) => match command {
            DbCommand::Info => PlanV::Run("db info"@, false, OperationV::Info),
            DbCommand::Check => PlanV::Run("db check"@, false, OperationV::Check),
            DbCommand::Query { view, project_id, query, limit } => PlanV::Run(
                "db query"@,
                false,
                OperationV::Query {
                    view: view@,
                    scope: optional_text(project_id),
                    needle: optional_text(query),
                    limit: limit as int,
                },
            ),
            DbCommand::Backup { output } => PlanV::Backup(output@),
            DbCommand::Restore { input } => PlanV::Restore(input@),
            DbCommand::Migrate => PlanV::Run("db migrate"@, true, OperationV::Schema),
        },
        TopCommand::Config(ConfigArgs { command }) => match command {
            ConfigCommand::Show => PlanV::Show,
            ConfigCommand::Get { key } => PlanV::Get(key@),
            ConfigCommand::Put { key, value } => PlanV::Put(key@, value@),
        },
    }
}

fn run(command: &str, create: bool, operation: Operation) -> (r: Plan)
    ensures
        r@ == PlanV::Run(command@, create, operation@),
{
    Plan::Run(command.to_string(), create, operation)
}

fn prepare(a: PrepareArgs, force: bool) -> (r: Operation)
    ensures
        r@ == preparing(a, force),
{
    Operation::Prepare {
        project_id: a.project_id,
        project_name: a.project_name,
        checklist: a.checklist,
        force,
    }
}

/// The plan of a command.
pub fn plan(command: TopCommand) -> (r: Plan)
    ensures
        r@ == planned(command),
{
    match command {
        TopCommand::Prepare(a) => run("prepare", true, prepare(a, false)),
        TopCommand::Sync(a) => run("sync", true, prepare(a, false)),
        TopCommand::Rebuild(a) => run("rebuild", true, prepare(a, true)),
        TopCommand::Status(a) => run(
            "status",
            false,
            Operation::Status { project_id: a.project_id, checklist: a.checklist },
        ),
        TopCommand::Description(
            DescriptionArgs { command: DescriptionCommand::Get { project_id } },
        ) => run("description get", false, Operation::Description { project_id }),
        TopCommand::Projects(ProjectsArgs { command }) => match command {
            ProjectsCommand::List => run("projects list", false, Operation::Projects),
            ProjectsCommand::Show { project_id } => run(
                "projects show",
                false,
                Operation::Project { project_id },
            ),
        },
        TopCommand::Rules(RulesArgs { command }) => match command {
            RulesCommand::List { project_id } => run(
                "rules list",
                false,
                Operation::Rules { project_id },
            ),
            RulesCommand::Get { input } => Plan::Select(input),
            RulesCommand::Search { project_id, query } => run(
                "rules search",
                false,
                Operation::Search { project_id, query },
            ),
        },
        TopCommand::Overrides(OverridesArgs { command }) => match command {
            OverridesCommand::Put { input } => Plan::Change(input),
            OverridesCommand::List { project_id } => run(
                "overrides list",
                false,
                Operation::Overrides { project_id },
            ),
            OverridesCommand::Show { project_id, key } => run(
                "overrides show",
                false,
                Operation::Override { project_id, key },
            ),
            OverridesCommand::Unset { project_id, key, reason } => run(
                "overrides unset",
                false,
                Operation::Unset { project_id, key, reason },
            ),
            OverridesCommand::Resolve { project_id, key, strategy, checklist, reason } => run(
                "overrides resolve",
                false,
                Operation::Resolve { project_id, key, strategy, checklist, reason },
            ),
        },
        TopCommand::Db(DbArgs { command }) => match command {
            DbCommand::Info => run("db info", false, Operation::Info),
            DbCommand::Check => run("db check", false, Operation::Check),
            DbCommand::Query { view, project_id, query, limit } => run(
                "db query",
                false,
                Operation::Query { view, scope: project_id, needle: query, limit },
            ),
            DbCommand::Backup { output } => Plan::Backup(output),
            DbCommand::Restore { input } => Plan::Restore(input),
            DbCommand::Migrate => run("db migrate", true, Operation::Schema),
        },
        TopCommand::Config(ConfigArgs { command }) => match command {
            ConfigCommand::Show => Plan::Show,
            ConfigCommand::Get { key } => Plan::Get(key),
            ConfigCommand::Put { key, value } => Plan::Put(key, value),
        },
    }
}

// ---- states ----

/// The surroundings of a run.
#[derive(Debug)]
pub struct World {
    /// The variables of the process.
    pub env: Vec<(String, String)>,
    /// The working directory.
    pub cwd: String,
    /// What tells the files of this run's restore apart from those of others.
    pub stamp: String,
}

/// What a [`World`] stands for.
pub struct WorldV {
    pub env: EnvV,
    pub cwd: Seq<char>,
    pub stamp: Seq<char>,
}

impl View for World {
    type V = WorldV;

    open spec fn view(&self) -> WorldV {
        WorldV { env: env_view(self.env@), cwd: self.cwd@, stamp: self.stamp@ }
    }
}

impl WorldV {
    /// The home directory of the process.
    pub open spec fn home(self) -> Option<Seq<char>> {
        env_value(self.env, "HOME"@)
    }
}

fn home_of(w: &World) -> (r: Option<String>)
    ensures
        optional_text(r) == w@.home(),
{
    env_get(w.env.as_slice(), "HOME")
}

fn borrowed(t: &Option<String>) -> (r: Option<&str>)
    ensures
        optional(r) == optional_text(*t),
{
    match t {
        Some(s) => Some(s.as_str()),
        None => None,
    }
}

/// An operation to run.
#[derive(Debug)]
pub struct Run {
    pub command: String,
    pub operation: Operation,
    pub location: DatabaseLocation,
}

/// What a [`Run`] stands for.
pub struct RunV {
    pub command: Seq<char>,
    pub operation: OperationV,
    pub location: LocationV,
}

impl View for Run {
    type V = RunV;

    open spec fn view(&self) -> RunV {
        RunV {
            command: self.command@,
            operation: self.operation@,
            location: self.location@,
        }
    }
}

/// What a session is waiting for.
#[derive(Debug)]
pub enum Phase {
    /// The configuration file, for the database path on the command line and a plan.
    Config(Option<String>, Plan),
    /// A selection, out of an input.
    Selecting(String, DatabaseLocation),
    /// A new override, out of an input.
    Changing(String, DatabaseLocation),
    /// The configuration file to be written, for a key, a value and a path.
    Configuring(String, String, String),
    /// Whether there is a database.
    Existing(Run),
    /// Whether the database to back up is a file.
    Filed(Run),
    /// The directory of the database at a path.
    Directory(Run, String),
    /// The database at a path; the flag tells whether it is a file.
    Opened(Run, String, bool),
    /// The settings of the connection.
    Settled(Run, String),
    /// A step of the migration.
    Migrating(Run, String, Migration),
    /// A step of the operation.
    Operating(Run, String, Stage),
    /// A step of a backup.
    Saving(Backup),
    /// A step of a restore.
    Restoring(Restore),
}

/// What a [`Phase`] stands for.
pub enum PhaseV {
    Config(Option<Seq<char>>, PlanV),
    Selecting(Seq<char>, LocationV),
    Changing(Seq<char>, LocationV),
    Configuring(Seq<char>, Seq<char>, Seq<char>),
    Existing(RunV),
    Filed(RunV),
    Directory(RunV, Seq<char>),
    Opened(RunV, Seq<char>, bool),
    Settled(RunV, Seq<char>),
    Migrating(RunV, Seq<char>, MigrationV),
    Operating(RunV, Seq<char>, StageV),
    Saving(BackupV),
    Restoring(RestoreV),
}

impl View for Phase {
    type V = PhaseV;

    open spec fn view(&self) -> PhaseV {
        match *self {
            Phase::Config(db, plan) => PhaseV::Config(optional_text(db), plan@),
            Phase::Selecting(input, l) => PhaseV::Selecting(input@, l@),
            Phase::Changing(input, l) => PhaseV::Changing(input@, l@),
            Phase::Configuring(key, value, path) => PhaseV::Configuring(key@, value@, path@),
            Phase::Existing(run) => PhaseV::Existing(run@),
            Phase::Filed(run) => PhaseV::Filed(run@),
            Phase::Directory(run, path) => PhaseV::Directory(run@, path@),
            Phase::Opened(run, path, file) => PhaseV::Opened(run@, path@, file),
            Phase::Settled(run, path) => PhaseV::Settled(run@, path@),
            Phase::Migrating(run, path, m) => PhaseV::Migrating(run@, path@, m@),
            Phase::Operating(run, path, stage) => PhaseV::Operating(run@, path@, stage@),
            Phase::Saving(b) => PhaseV::Saving(b@),
            Phase::Restoring(r) => PhaseV::Restoring(r@),
        }
    }
}

/// A run of the program that waits for an answer.
#[derive(Debug)]
pub struct Session {
    pub world: World,
    pub phase: Phase,
}

/// What a [`Session`] stands for.
pub struct SessionV {
    pub world: WorldV,
    pub phase: PhaseV,
}

impl View for Session {
    type V = SessionV;

    open spec fn view(&self) -> SessionV {
        SessionV { world: self.world@, phase: self.phase@ }
    }
}

/// What a run does next: ask, and wait, or end.
#[derive(Debug)]
pub enum Turn {
    Ask(Request, Session),
    Exit(Outcome),
}

/// What a [`Turn`] stands for.
pub enum TurnV {
    Ask(RequestV, SessionV),
    Exit(OutcomeV),
}

impl View for Turn {
    type V = TurnV;

    open spec fn view(&self) -> TurnV {
        match *self {
            Turn::Ask(request, s) => TurnV::Ask(request@, s@),
            Turn::Exit(o) => TurnV::Exit(o@),
        }
    }
}

/// The turn that asks and waits.
pub open spec fn wait(world: WorldV, request: RequestV, phase: PhaseV) -> TurnV {
    TurnV::Ask(request, SessionV { world, phase })
}

fn waiting(world: World, request: Request, phase: Phase) -> (r: Turn)
    ensures
        r@ == wait(world@, request@, phase@),
{
    Turn::Ask(request, Session { world, phase })
}

/// The end of a run where something else went wrong than its operation can answer for.
pub open spec fn stray(reply: ReplyV) -> TurnV {
    match reply {
        ReplyV::Failed(f) => TurnV::Exit(escaped(f.text)),
        ReplyV::IoFailed(e) => TurnV::Exit(escaped(e)),
        _ => TurnV::Exit(escaped(misplaced())),
    }
}

fn straying(reply: &Reply) -> (r: Turn)
    ensures
        r@ == stray(reply@),
{
    match reply {
        Reply::Failed(f) => Turn::Exit(escape_with(f.text.as_str())),
        Reply::IoFailed(e) => Turn::Exit(escape_with(e.as_str())),
        _ => Turn::Exit(escape_with("unexpected reply")),
    }
}

// ---- the operation ----

/// The first step of an operation of the service.
pub open spec fn operation_start(
    operation: OperationV,
    l: LocationV,
    home: Option<Seq<char>>,
    cwd: Seq<char>,
) -> ServiceStepV {
    match operation {
        OperationV::Prepare { project_id, project_name, checklist, force } => prepare_start(
            PrepareJobV {
                project_id,
                project_name,
                path: given_path(checklist, home, cwd),
                force,
                completes: None,
            },
        ),
        OperationV::Status { project_id, checklist } => match required_fault(
            project_id,
            "project_id"@,
        ) {
            Some(e) => fail(e),
            None => StepV::Ask(
                RequestV::ReadFile(checklist),
                StageV::StatusRead(project_id, checklist),
            ),
        },
        OperationV::Description { project_id } => ask(
            project_query(project_id),
            StageV::Description(project_id),
        ),
        OperationV::Projects => ask(projects_query(), StageV::Projects),
        OperationV::Project { project_id } => ask(
            project_query(project_id),
            StageV::ShowProject(project_id),
        ),
        OperationV::Rules { project_id } => ask(
            project_query(project_id),
            StageV::RulesProject(project_id),
        ),
        OperationV::Search { project_id, query } => ask(
            project_query(project_id),
            StageV::SearchProject(project_id, query),
        ),
        OperationV::Selection { payload } => select_start(payload),
        OperationV::Change { project_id, key, fields, reason } => ask(
            project_query(project_id),
            StageV::SetProject(
                OverrideJobV { project_id, key, fields: JsonV::Object(fields), reason },
            ),
        ),
        OperationV::Overrides { project_id } => ask(
            project_query(project_id),
            StageV::OverridesProject(project_id),
        ),
        OperationV::Override { project_id, key } => ask(
            project_query(project_id),
            StageV::ShowOverrideProject(project_id, key),
        ),
        OperationV::Unset { project_id, key, reason } => ask(
            project_query(project_id),
            StageV::UnsetProject(
                OverrideJobV { project_id, key, fields: JsonV::Object(Seq::empty()), reason },
            ),
        ),
        OperationV::Resolve { project_id, key, strategy, checklist, reason } => ask(
            project_query(project_id),
            StageV::ResolveProject(
                ResolveJobV {
                    project_id,
                    key,
                    strategy,
                    reason,
                    given_path: checklist,
                    path: given_path(checklist, home, cwd),
                },
            ),
        ),
        OperationV::Info => ask(projects_query(), StageV::InfoProjects(l.path, l.source)),
        OperationV::Check => ask(integrity_query(), StageV::Check),
        OperationV::Query { view, scope, needle, limit } => match view_query(view, scope, limit) {
            Err(e) => fail(e),
            Ok(statement) => ask(statement, StageV::View(view, needle, limit)),
        },
        OperationV::Schema => ask(schema_query(), StageV::Schema),
        OperationV::Backup { .. } => StepV::Done(Err(ServiceErrorV::Raw(misplaced()))),
    }
}

fn begin(service: &KnowledgeService, run: &Run) -> (r: ServiceStep)
    ensures
        r@ == operation_start(
            run.operation@,
            run.location@,
            optional_text(service.home),
            service.cwd@,
        ),
{
    match &run.operation {
        Operation::Prepare { project_id, project_name, checklist, force } => service.prepare(
            project_id.as_str(),
            project_name.as_str(),
            checklist.as_str(),
            *force,
        ),
        Operation::Status { project_id, checklist } => service.status(
            project_id.as_str(),
            checklist.as_str(),
        ),
        Operation::Description { project_id } => service.get_description(project_id.as_str()),
        Operation::Projects => service.list_projects(),
        Operation::Project { project_id } => service.show_project(project_id.as_str()),
        Operation::Rules { project_id } => service.list_rules(project_id.as_str()),
        Operation::Search { project_id, query } => service.search_rules(
            project_id.as_str(),
            query.as_str(),
        ),
        Operation::Selection { payload } => service.get_selected_rules(payload),
        Operation::Change { project_id, key, fields, reason } => service.set_override(
            project_id.as_str(),
            key.as_str(),
            copy_entries(fields),
            reason.as_str(),
        ),
        Operation::Overrides { project_id } => service.list_overrides(project_id.as_str()),
        Operation::Override { project_id, key } => service.show_override(
            project_id.as_str(),
            key.as_str(),
        ),
        Operation::Unset { project_id, key, reason } => service.unset_override(
            project_id.as_str(),
            key.as_str(),
            reason.as_str(),
        ),
        Operation::Resolve { project_id, key, strategy, checklist, reason } => service.resolve_override(
            project_id.as_str(),
            key.as_str(),
            strategy.as_str(),
            checklist.as_str(),
            reason.as_str(),
        ),
        Operation::Info => service.info(run.location.path.as_str(), run.location.source.as_str()),
        Operation::Check => service.check(),
        Operation::Query { view, scope, needle, limit } => service.view(
            view.as_str(),
            scope,
            needle,
            *limit,
        ),
        Operation::Schema => service.schema(),
        Operation::Backup { .. } => Step::Done(
            Err(ServiceError::Raw("unexpected reply".to_string())),
        ),
    }
}

fn copy_entries(entries: &Vec<(String, Json)>) -> (r: Vec<(String, Json)>)
    ensures
        entries_view(r@) == entries_view(entries@),
{
    let mut out: Vec<(String, Json)> = Vec::new();
    let mut i: usize = 0;
    while i < entries.len()
        invariant
            i <= entries@.len(),
            out@.len() == i,
            forall|k: int|
                0 <= k < i ==> (#[trigger] out@[k]).0@ == entries@[k].0@ && out@[k].1@
                    == entries@[k].1@,
        decreases entries@.len() - i,
    {
        out.push((entries[i].0.clone(), entries[i].1.duplicate()));
        i += 1;
    }
    assert(entries_view(out@) =~= entries_view(entries@));
    out
}

/// The turn that goes with a step of the operation.
pub open spec fn operating(
    w: WorldV,
    run: RunV,
    path: Seq<char>,
    step: ServiceStepV,
) -> TurnV {
    match step {
        StepV::Ask(request, stage) => wait(w, request, PhaseV::Operating(run, path, stage)),
        StepV::Done(Ok(v)) => TurnV::Exit(
            finished(run.command, Ok(labelled(run.operation, v))),
        ),
        StepV::Done(Err(e)) => TurnV::Exit(finished(run.command, Err(e))),
    }
}

fn operate(w: World, run: Run, path: String, step: ServiceStep) -> (r: Turn)
    ensures
        r@ == operating(w@, run@, path@, step@),
{
    match step {
        Step::Ask(request, stage) => waiting(w, request, Phase::Operating(run, path, stage)),
        Step::Done(Ok(v)) => {
            let v = with_label(&run.operation, v);
            Turn::Exit(finish(run.command.as_str(), Ok(v)))
        },
        Step::Done(Err(e)) => Turn::Exit(finish(run.command.as_str(), Err(e))),
    }
}

/// The turn that goes with a step of a backup.
pub open spec fn saving(w: WorldV, step: StepV<BackupV, RepositoryErrorV>) -> TurnV {
    match step {
        StepV::Ask(request, b) => wait(w, request, PhaseV::Saving(b)),
        StepV::Done(Ok(v)) => TurnV::Exit(finished("db backup"@, Ok(v))),
        StepV::Done(Err(e)) => TurnV::Exit(finished("db backup"@, Err(service_error(e)))),
    }
}

fn save(w: World, step: Step<Backup, RepositoryError>) -> (r: Turn)
    ensures
        r@ == saving(w@, step@),
{
    match step {
        Step::Ask(request, b) => waiting(w, request, Phase::Saving(b)),
        Step::Done(Ok(v)) => Turn::Exit(finish("db backup", Ok(v))),
        Step::Done(Err(e)) => Turn::Exit(finish("db backup", Err(ServiceError::from(e)))),
    }
}

/// The turn that goes with a step of a restore.
pub open spec fn restoring(w: WorldV, step: StepV<RestoreV, RepositoryErrorV>) -> TurnV {
    match step {
        StepV::Ask(request, r) => wait(w, request, PhaseV::Restoring(r)),
        StepV::Done(Ok(v)) => TurnV::Exit(finished("db restore"@, Ok(v))),
        StepV::Done(Err(e)) => TurnV::Exit(finished("db restore"@, Err(service_error(e)))),
    }
}

fn restore(w: World, step: Step<Restore, RepositoryError>) -> (r: Turn)
    ensures
        r@ == restoring(w@, step@),
{
    match step {
        Step::Ask(request, s) => waiting(w, request, Phase::Restoring(s)),
        Step::Done(Ok(v)) => Turn::Exit(finish("db restore", Ok(v))),
        Step::Done(Err(e)) => Turn::Exit(finish("db restore", Err(ServiceError::from(e)))),
    }
}

/// The first turn of an operation once the database is up to date.
pub open spec fn operation_turn(w: WorldV, run: RunV, path: Seq<char>) -> TurnV {
    match run.operation {
        OperationV::Backup { output } => saving(
            w,
            backup_start(path, Handle::Main, output, w.home(), w.cwd),
        ),
        _ => operating(
            w,
            run,
            path,
            operation_start(run.operation, run.location, w.home(), w.cwd),
        ),
    }
}

fn run_operation(w: World, run: Run, path: String) -> (r: Turn)
    ensures
        r@ == operation_turn(w@, run@, path@),
{
    let home = home_of(&w);
    let repository = Repository { path: path.clone() };
    if let Operation::Backup { output } = &run.operation {
        let step = repository.backup(
            Handle::Main,
            output.as_str(),
            borrowed(&home),
            w.cwd.as_str(),
        );
        return save(w, step);
    }
    let service = KnowledgeService::new(repository, home, w.cwd.clone());
    let step = begin(&service, &run);
    operate(w, run, path, step)
}

/// The turn that goes with a step of the migration.
pub open spec fn migrating(
    w: WorldV,
    run: RunV,
    path: Seq<char>,
    step: StepV<MigrationV, RepositoryErrorV>,
) -> TurnV {
    match step {
        StepV::Ask(request, m) => wait(w, request, PhaseV::Migrating(run, path, m)),
        StepV::Done(Ok(_)) => operation_turn(w, run, path),
        StepV::Done(Err(e)) => TurnV::Exit(finished(run.command, Err(service_error(e)))),
    }
}

fn migrate(w: World, run: Run, path: String, step: Step<Migration, RepositoryError>) -> (r: Turn)
    ensures
        r@ == migrating(w@, run@, path@, step@),
{
    match step {
        Step::Ask(request, m) => waiting(w, request, Phase::Migrating(run, path, m)),
        Step::Done(Ok(_)) => run_operation(w, run, path),
        Step::Done(Err(e)) => Turn::Exit(
            finish(run.command.as_str(), Err(ServiceError::from(e))),
        ),
    }
}

// ---- opening ----

/// The settings of a database in memory.
pub open spec fn memory_settings() -> Seq<char> {
    "PRAGMA busy_timeout=5000; PRAGMA foreign_keys=ON;"@
}

/// The turn that opens the database file of a run; first comes its directory.
pub open spec fn opening(w: WorldV, run: RunV) -> TurnV {
    let path = expanded(run.location.path, w.home());
    match parent_path(path) {
        Some(parent) => wait(w, RequestV::CreateDirs(parent), PhaseV::Directory(run, path)),
        None => wait(
            w,
            RequestV::OpenFile(Handle::Main, path),
            PhaseV::Opened(run, path, true),
        ),
    }
}

fn open(w: World, run: Run) -> (r: Turn)
    ensures
        r@ == opening(w@, run@),
{
    let home = home_of(&w);
    let path = expanduser(run.location.path.as_str(), borrowed(&home));
    match parent_of(path.as_str()) {
        Some(parent) => waiting(w, Request::CreateDirs(parent), Phase::Directory(run, path)),
        None => waiting(
            w,
            Request::OpenFile(Handle::Main, path.clone()),
            Phase::Opened(run, path, true),
        ),
    }
}

/// The turn that starts an operation: a database that is not there and is not to be created is
/// replaced by an empty one in memory.
pub open spec fn launched(w: WorldV, create: bool, run: RunV) -> TurnV {
    if create {
        opening(w, run)
    } else {
        wait(w, RequestV::Exists(run.location.path), PhaseV::Existing(run))
    }
}

fn launch(w: World, create: bool, run: Run) -> (r: Turn)
    ensures
        r@ == launched(w@, create, run@),
{
    if create {
        open(w, run)
    } else {
        waiting(w, Request::Exists(run.location.path.clone()), Phase::Existing(run))
    }
}

// ---- the commands ----

/// The error for a configuration key that there is not.
pub open spec fn config_key_error(key: Seq<char>) -> ErrorV {
    ErrorV {
        code: ErrorCode::InvalidArgument,
        message: "unsupported config key: "@ + key,
        details: detail("allowed_keys"@, JsonV::Array(seq![JsonV::Text("db_path"@)])),
    }
}

fn unknown_config_key(key: &str) -> (r: ReviewKBError)
    ensures
        r@ == config_key_error(key@),
{
    let mut message = "unsupported config key: ".to_string();
    message.push_str(key);
    let mut keys: Vec<Json> = Vec::new();
    keys.push(Json::text("db_path"));
    assert(crate::json::items_view(keys@) =~= seq![JsonV::Text("db_path"@)]);
    ReviewKBError::new(
        ErrorCode::InvalidArgument,
        message,
        Json::object().with("allowed_keys", Json::Array(keys)),
    )
}

/// What `config show` reports.
pub open spec fn shown(l: LocationV) -> JsonV {
    and_detail(detail("db_path"@, JsonV::Text(l.path)), "source"@, JsonV::Text(l.source))
}

/// What `config get` reports.
pub open spec fn gotten(key: Seq<char>, l: LocationV) -> JsonV {
    and_detail(
        and_detail(detail("key"@, JsonV::Text(key)), "value"@, JsonV::Text(l.path)),
        "source"@,
        JsonV::Text(l.source),
    )
}

/// What `config set` reports.
pub open spec fn put_value(key: Seq<char>, value: Seq<char>, path: Seq<char>) -> JsonV {
    and_detail(
        and_detail(detail("key"@, JsonV::Text(key)), "value"@, JsonV::Text(value)),
        "config_path"@,
        JsonV::Text(path),
    )
}

/// The turn of a plan once the database location is known. Input is read before any database is
/// touched.
pub open spec fn dispatched(w: WorldV, plan: PlanV, l: LocationV) -> TurnV {
    match plan {
        PlanV::Run(command, create, operation) => launched(
            w,
            create,
            RunV { command, operation, location: l },
        ),
        PlanV::Select(input) => wait(w, RequestV::ReadInput(input), PhaseV::Selecting(input, l)),
        PlanV::Change(input) => wait(w, RequestV::ReadInput(input), PhaseV::Changing(input, l)),
        PlanV::Backup(output) => wait(
            w,
            RequestV::IsFile(l.path),
            PhaseV::Filed(
                RunV {
                    command: "db backup"@,
                    operation: OperationV::Backup { output },
                    location: l,
                },
            ),
        ),
        PlanV::Restore(input) => restoring(
            w,
            restore_start(restore_paths(input, l.path, w.home(), w.cwd, w.stamp)),
        ),
        PlanV::Show => TurnV::Exit(succeeded("config show"@, shown(l))),
        PlanV::Get(key) => if key != "db_path"@ {
            TurnV::Exit(failed("config get"@, config_key_error(key)))
        } else {
            TurnV::Exit(succeeded("config get"@, gotten(key, l)))
        },
        PlanV::Put(key, value) => if key != "db_path"@ {
            TurnV::Exit(failed("config set"@, config_key_error(key)))
        } else {
            match config_write(value, None, w.env, w.home()) {
                Err(e) => TurnV::Exit(failed("config set"@, e)),
                Ok(file) => wait(
                    w,
                    RequestV::WriteText(file.target, file.content),
                    PhaseV::Configuring(key, value, file.target),
                ),
            }
        },
    }
}

fn dispatch(w: World, plan: Plan, l: DatabaseLocation) -> (r: Turn)
    ensures
        r@ == dispatched(w@, plan@, l@),
{
    match plan {
        Plan::Run(command, create, operation) => launch(
            w,
            create,
            Run { command, operation, location: l },
        ),
        Plan::Select(input) => waiting(
            w,
            Request::ReadInput(input.clone()),
            Phase::Selecting(input, l),
        ),
        Plan::Change(input) => waiting(
            w,
            Request::ReadInput(input.clone()),
            Phase::Changing(input, l),
        ),
        Plan::Backup(output) => waiting(
            w,
            Request::IsFile(l.path.clone()),
            Phase::Filed(
                Run {
                    command: "db backup".to_string(),
                    operation: Operation::Backup { output },
                    location: l,
                },
            ),
        ),
        Plan::Restore(input) => {
            let home = home_of(&w);
            let step = Repository::restore(
                input.as_str(),
                l.path.as_str(),
                borrowed(&home),
                w.cwd.as_str(),
                w.stamp.as_str(),
            );
            restore(w, step)
        },
        Plan::Show => Turn::Exit(
            emit_success(
                "config show",
                Json::object().with("db_path", Json::text(l.path.as_str())).with(
                    "source",
                    Json::text(l.source.as_str()),
                ),
            ),
        ),
        Plan::Get(key) => {
            if !same(key.as_str(), "db_path") {
                return Turn::Exit(emit_failure("config get", &unknown_config_key(key.as_str())));
            }
            Turn::Exit(
                emit_success(
                    "config get",
                    Json::object().with("key", Json::text(key.as_str())).with(
                        "value",
                        Json::text(l.path.as_str()),
                    ).with("source", Json::text(l.source.as_str())),
                ),
            )
        },
        Plan::Put(key, value) => {
            if !same(key.as_str(), "db_path") {
                return Turn::Exit(emit_failure("config set", &unknown_config_key(key.as_str())));
            }
            let home = home_of(&w);
            match write_database_path(value.as_str(), None, w.env.as_slice(), borrowed(&home)) {
                Err(e) => Turn::Exit(emit_failure("config set", &e)),
                Ok(file) => waiting(
                    w,
                    Request::WriteText(file.target.clone(), file.content),
                    Phase::Configuring(key, value, file.target),
                ),
            }
        },
    }
}

/// The turn of a plan after the configuration file has been looked at. A configuration that
/// cannot be used ends the run without an envelope.
pub open spec fn located(
    w: WorldV,
    db: Option<Seq<char>>,
    plan: PlanV,
    file: ConfigFileV,
) -> TurnV {
    match location(db, w.env, None, file, w.home()) {
        Err(e) => TurnV::Exit(escaped(e.code.word() + ": "@ + e.message)),
        Ok(l) => dispatched(w, plan, l),
    }
}

fn locate(w: World, db: &Option<String>, plan: Plan, file: &ConfigFile) -> (r: Turn)
    ensures
        r@ == located(w@, optional_text(*db), plan@, file@),
{
    let home = home_of(&w);
    match resolve_database_path(borrowed(db), w.env.as_slice(), None, file, borrowed(&home)) {
        Err(e) => Turn::Exit(escape_with(e.text().as_str())),
        Ok(l) => dispatch(w, plan, l),
    }
}

/// The first turn of a run.
pub open spec fn started(w: WorldV, db: Option<Seq<char>>, plan: PlanV) -> TurnV {
    match consulted(db, w.env, None, w.home()) {
        None => located(w, db, plan, ConfigFileV::Missing),
        Some(path) => wait(w, RequestV::ReadText(path), PhaseV::Config(db, plan)),
    }
}

/// Starts a run of the program.
pub fn start(cli: Cli, world: World) -> (r: Turn)
    ensures
        r@ == started(world@, optional_text(cli.db), planned(cli.command)),
{
    let db = cli.db;
    let plan = plan(cli.command);
    let home = home_of(&world);
    match config_to_consult(borrowed(&db), world.env.as_slice(), None, borrowed(&home)) {
        None => locate(world, &db, plan, &ConfigFile::Missing),
        Some(path) => waiting(world, Request::ReadText(path), Phase::Config(db, plan)),
    }
}

/// The turn of `rules get` after its input.
pub open spec fn selecting(w: WorldV, input: Seq<char>, l: LocationV, reply: ReplyV) -> TurnV {
    match reply {
        ReplyV::Text(source) => match payload_of(input, source) {
            Err(e) => TurnV::Exit(failed("rules get"@, e)),
            Ok(payload) => launched(
                w,
                false,
                RunV {
                    command: "rules get"@,
                    operation: OperationV::Selection { payload },
                    location: l,
                },
            ),
        },
        ReplyV::IoFailed(e) => TurnV::Exit(failed("rules get"@, input_error(input, e))),
        _ => stray(reply),
    }
}

fn select(w: World, input: &str, l: DatabaseLocation, reply: Reply) -> (r: Turn)
    ensures
        r@ == selecting(w@, input@, l@, reply@),
{
    match reply {
        Reply::Text(source) => match read_selection(input, source.as_str()) {
            Err(e) => Turn::Exit(emit_failure("rules get", &e)),
            Ok(payload) => launch(
                w,
                false,
                Run {
                    command: "rules get".to_string(),
                    operation: Operation::Selection { payload },
                    location: l,
                },
            ),
        },
        Reply::IoFailed(e) => Turn::Exit(
            emit_failure("rules get", &selection_error(input, e.as_str())),
        ),
        _ => straying(&reply),
    }
}

/// The turn of `overrides set` after its input.
pub open spec fn changing(w: WorldV, input: Seq<char>, l: LocationV, reply: ReplyV) -> TurnV {
    match reply {
        ReplyV::Text(source) => match payload_of(input, source) {
            Err(e) => TurnV::Exit(failed("overrides set"@, e)),
            Ok(payload) => match override_parts(payload) {
                Err(e) => TurnV::Exit(failed("overrides set"@, e)),
                Ok((project_id, key, reason, fields)) => launched(
                    w,
                    false,
                    RunV {
                        command: "overrides set"@,
                        operation: OperationV::Change { project_id, key, fields, reason },
                        location: l,
                    },
                ),
            },
        },
        ReplyV::IoFailed(e) => TurnV::Exit(failed("overrides set"@, input_error(input, e))),
        _ => stray(reply),
    }
}

fn change(w: World, input: &str, l: DatabaseLocation, reply: Reply) -> (r: Turn)
    ensures
        r@ == changing(w@, input@, l@, reply@),
{
    match reply {
        Reply::Text(source) => match read_selection(input, source.as_str()) {
            Err(e) => Turn::Exit(emit_failure("overrides set", &e)),
            Ok(payload) => match override_input(&payload) {
                Err(e) => Turn::Exit(emit_failure("overrides set", &e)),
                Ok((project_id, key, reason, fields)) => launch(
                    w,
                    false,
                    Run {
                        command: "overrides set".to_string(),
                        operation: Operation::Change { project_id, key, fields, reason },
                        location: l,
                    },
                ),
            },
        },
        Reply::IoFailed(e) => Turn::Exit(
            emit_failure("overrides set", &selection_error(input, e.as_str())),
        ),
        _ => straying(&reply),
    }
}

/// The error for a database to back up that is not there.
pub open spec fn no_database_error(path: Seq<char>) -> ErrorV {
    ErrorV {
        code: ErrorCode::BackupInvalid,
        message: "database file not found: "@ + path,
        details: path_detail(path),
    }
}

fn no_database(path: &str) -> (r: ReviewKBError)
    ensures
        r@ == no_database_error(path@),
{
    let mut message = "database file not found: ".to_string();
    message.push_str(path);
    ReviewKBError::new(
        ErrorCode::BackupInvalid,
        message,
        Json::object().with("path", Json::text(path)),
    )
}

/// The turn after `reply`, at the time `now`.
pub open spec fn turned(s: SessionV, reply: ReplyV, now: Seq<char>) -> TurnV {
    let w = s.world;
    match s.phase {
        PhaseV::Config(db, plan) => match reply {
            ReplyV::Text(t) => located(w, db, plan, ConfigFileV::Text(t)),
            ReplyV::Missing => located(w, db, plan, ConfigFileV::Missing),
            ReplyV::IoFailed(e) => located(w, db, plan, ConfigFileV::Unreadable(e)),
            _ => stray(reply),
        },
        PhaseV::Selecting(input, l) => selecting(w, input, l, reply),
        PhaseV::Changing(input, l) => changing(w, input, l, reply),
        PhaseV::Configuring(key, value, path) => match reply {
            ReplyV::Done => TurnV::Exit(succeeded("config set"@, put_value(key, value, path))),
            ReplyV::IoFailed(e) => TurnV::Exit(
                failed(
                    "config set"@,
                    invalid_config_error(path, "could not write config file: "@ + e),
                ),
            ),
            _ => stray(reply),
        },
        PhaseV::Existing(run) => match reply {
            ReplyV::Flag(true) => opening(w, run),
            ReplyV::Flag(false) => wait(
                w,
                RequestV::OpenMemory,
                PhaseV::Opened(run, ":memory:"@, false),
            ),
            _ => stray(reply),
        },
        PhaseV::Filed(run) => match reply {
            ReplyV::Flag(true) => opening(w, run),
            ReplyV::Flag(false) => TurnV::Exit(
                failed(run.command, no_database_error(run.location.path)),
            ),
            _ => stray(reply),
        },
        PhaseV::Directory(run, path) => match reply {
            ReplyV::Done => wait(
                w,
                RequestV::OpenFile(Handle::Main, path),
                PhaseV::Opened(run, path, true),
            ),
            _ => stray(reply),
        },
        PhaseV::Opened(run, path, file) => match reply {
            ReplyV::Done => wait(
                w,
                RequestV::Script(
                    Handle::Main,
                    if file {
                        file_settings()
                    } else {
                        memory_settings()
                    },
                ),
                PhaseV::Settled(run, path),
            ),
            _ => stray(reply),
        },
        PhaseV::Settled(run, path) => match reply {
            ReplyV::Done => migrating(w, run, path, migrate_start(path)),
            _ => stray(reply),
        },
        PhaseV::Migrating(run, path, m) => migrating(w, run, path, migrate_next(m, reply, now)),
        PhaseV::Operating(run, path, stage) => operating(
            w,
            run,
            path,
            next(path, stage, reply, now),
        ),
        PhaseV::Saving(b) => saving(w, backup_next(b, reply)),
        PhaseV::Restoring(r) => restoring(w, restore_next(r, reply)),
    }
}

impl Session {
    /// Goes on with a run: what it waited for is `reply`, the time is `now`.
    pub fn resume(self, reply: Reply, now: &str) -> (r: Turn)
        ensures
            r@ == turned(self@, reply@, now@),
    {
        let w = self.world;
        match self.phase {
            Phase::Config(db, plan) => match reply {
                Reply::Text(t) => locate(w, &db, plan, &ConfigFile::Text(t)),
                Reply::Missing => locate(w, &db, plan, &ConfigFile::Missing),
                Reply::IoFailed(e) => locate(w, &db, plan, &ConfigFile::Unreadable(e)),
                _ => straying(&reply),
            },
            Phase::Selecting(input, l) => select(w, input.as_str(), l, reply),
            Phase::Changing(input, l) => change(w, input.as_str(), l, reply),
            Phase::Configuring(key, value, path) => match reply {
                Reply::Done => Turn::Exit(
                    emit_success(
                        "config set",
                        Json::object().with("key", Json::text(key.as_str())).with(
                            "value",
                            Json::text(value.as_str()),
                        ).with("config_path", Json::text(path.as_str())),
                    ),
                ),
                Reply::IoFailed(e) => Turn::Exit(
                    emit_failure("config set", &write_err(path.as_str(), e.as_str())),
                ),
                _ => straying(&reply),
            },
            Phase::Existing(run) => match reply {
                Reply::Flag(true) => open(w, run),
                Reply::Flag(false) => waiting(
                    w,
                    Request::OpenMemory,
                    Phase::Opened(run, ":memory:".to_string(), false),
                ),
                _ => straying(&reply),
            },
            Phase::Filed(run) => match reply {
                Reply::Flag(true) => open(w, run),
                Reply::Flag(false) => Turn::Exit(
                    emit_failure(
                        run.command.as_str(),
                        &no_database(run.location.path.as_str()),
                    ),
                ),
                _ => straying(&reply),
            },
            Phase::Directory(run, path) => match reply {
                Reply::Done => waiting(
                    w,
                    Request::OpenFile(Handle::Main, path.clone()),
                    Phase::Opened(run, path, true),
                ),
                _ => straying(&reply),
            },
            Phase::Opened(run, path, file) => match reply {
                Reply::Done => {
                    let settings = if file {
                        "PRAGMA busy_timeout=5000; PRAGMA foreign_keys=ON; PRAGMA journal_mode=WAL;".to_string()
                    } else {
                        "PRAGMA busy_timeout=5000; PRAGMA foreign_keys=ON;".to_string()
                    };
                    waiting(w, Request::Script(Handle::Main, settings), Phase::Settled(run, path))
                },
                _ => straying(&reply),
            },
            Phase::Settled(run, path) => match reply {
                Reply::Done => {
                    let repository = Repository { path: path.clone() };
                    migrate(w, run, path, repository.migrate())
                },
                _ => straying(&reply),
            },
            Phase::Migrating(run, path, m) => migrate(w, run, path, m.resume(reply, now)),
            Phase::Operating(run, path, stage) => {
                let service = KnowledgeService::new(
                    Repository { path: path.clone() },
                    home_of(&w),
                    w.cwd.clone(),
                );
                let step = service.resume(stage, reply, now);
                operate(w, run, path, step)
            },
            Phase::Saving(b) => save(w, b.resume(reply)),
            Phase::Restoring(r) => restore(w, r.resume(reply)),
        }
    }
}

} // verus!
