//! The knowledge service: preparing projects, answering selections, managing overrides.
//!
//! Each operation starts with a method of [`KnowledgeService`] and goes on with
//! [`KnowledgeService::resume`] until it is done.

use vstd::prelude::*;

use crate::checklist::{checklist_of, parse_checklist};
use crate::config::path_detail;
use crate::description::{
    build_description, carried_revision, description_carries_revision, description_value,
    knowledge_revision_of, revision_of,
};
use crate::errors::{and_detail, detail, ErrorCode, ErrorV, ReviewKBError};
use crate::json::{
    entries_view, field, get_str, items_view, text_field, texts, without, Entries, Json, JsonV,
};
use crate::json_laws::{lemma_sorted_fits, storable};
use crate::json_parse::{fits, json_document, parse_json, reading};
use crate::json_util::{canonical, json_text, sorted};
use crate::maintenance::{findings, misplaced, read_findings, view_query};
use crate::models::{
    rules_view, validate_selection, validated_selection, Checklist, ChecklistV, Rule, RuleV,
    Selection, SelectionError, SelectionErrorV, SelectionV,
};
use crate::overrides::{
    apply_overrides, conflicts, effective_checklist, find_conflicts, find_hash, rule_hash,
    str_array_owned, text_items, text_of_field, text_or_empty, validate_override_fields,
    validated_fields,
};
use crate::path_util::{expanded, expanduser, lexpath_resolve, optional_text, resolved};
use crate::protocol::{
    rows_view, statements_view, Failure, FailureV, Handle, Reply, ReplyV, Request, RequestV, Row,
    RowV, Statement, StatementV, Step, StepV,
};
use crate::repository::{
    audit_insert, conflicts_marking, description_writes, first_integer, first_object,
    first_override, first_text, integer_in, integrity_query, is_locked, is_locked_error,
    keyed_rules_query, metadata_update, missing, missing_error, no_integer,
    no_integer_in, no_revision_error, optional_json,
    override_disable, override_in, override_query, override_upsert, overrides_query, project_in,
    project_query, projects_query, replacement, resolution, rules_query, schema_query,
    search_query, source_hash_query, text_in, Repository, RepositoryError, RepositoryErrorV,
};
use crate::rows::{
    folded, matching_records, matching_upto, mentioning, mentioning_rules, read_records, records,
    Shape,
};
use crate::selection::{
    check_keys, missing_keys, pick, picked, record_keys, revision_error, selected, selection_value,
    stale, unknown_keys_error,
};
use crate::text::{blank, is_blank, same, strings, trim, trimmed};

verus! {

broadcast use crate::json::group_json;

// ---- errors ----

/// Why an operation failed.
#[derive(Debug)]
pub enum ServiceError {
    /// A domain error, for the failure envelope.
    Kb(ReviewKBError),
    /// A failure that leaves no envelope, only a diagnostic.
    Raw(String),
}

/// What a [`ServiceError`] stands for.
pub enum ServiceErrorV {
    Kb(ErrorV),
    Raw(Seq<char>),
}

impl View for ServiceError {
    type V = ServiceErrorV;

    open spec fn view(&self) -> ServiceErrorV {
        match *self {
            ServiceError::Kb(e) => ServiceErrorV::Kb(e@),
            ServiceError::Raw(t) => ServiceErrorV::Raw(t@),
        }
    }
}

impl From<RepositoryError> for ServiceError {
    fn from(e: RepositoryError) -> (r: ServiceError) {
        match e {
            RepositoryError::Kb(e) => ServiceError::Kb(e),
            RepositoryError::Sqlite(f) => ServiceError::Raw(f.text),
            RepositoryError::Io(e) => ServiceError::Raw(e),
        }
    }
}

impl vstd::std_specs::convert::FromSpecImpl<RepositoryError> for ServiceError {
    open spec fn obeys_from_spec() -> bool {
        true
    }

    open spec fn from_spec(e: RepositoryError) -> ServiceError {
        match e {
            RepositoryError::Kb(e) => ServiceError::Kb(e),
            RepositoryError::Sqlite(f) => ServiceError::Raw(f.text),
            RepositoryError::Io(e) => ServiceError::Raw(e),
        }
    }
}

/// A repository error as the service reports it.
pub open spec fn service_error(e: RepositoryErrorV) -> ServiceErrorV {
    match e {
        RepositoryErrorV::Kb(e) => ServiceErrorV::Kb(e),
        RepositoryErrorV::Sqlite(f) => ServiceErrorV::Raw(f.text),
        RepositoryErrorV::Io(e) => ServiceErrorV::Raw(e),
    }
}

// ---- states ----

/// What a `prepare` is about.
#[derive(Debug)]
pub struct PrepareJob {
    pub project_id: String,
    pub project_name: String,
    /// Absolute path of the checklist.
    pub path: String,
    pub force: bool,
    /// Key and strategy of the conflict resolution that this completes.
    pub completes: Option<(String, String)>,
}

/// What a [`PrepareJob`] stands for.
pub struct PrepareJobV {
    pub project_id: Seq<char>,
    pub project_name: Seq<char>,
    pub path: Seq<char>,
    pub force: bool,
    pub completes: Option<(Seq<char>, Seq<char>)>,
}

impl View for PrepareJob {
    type V = PrepareJobV;

    open spec fn view(&self) -> PrepareJobV {
        PrepareJobV {
            project_id: self.project_id@,
            project_name: self.project_name@,
            path: self.path@,
            force: self.force,
            completes: match self.completes {
                Some((k, s)) => Some((k@, s@)),
                None => None,
            },
        }
    }
}

/// A refresh that has been decided on.
#[derive(Debug)]
pub struct Refresh {
    pub job: PrepareJob,
    pub checklist: Checklist,
    pub description: Json,
    pub status: String,
    pub action: String,
    pub warnings: Vec<String>,
}

/// What a [`Refresh`] stands for.
pub struct RefreshV {
    pub job: PrepareJobV,
    pub checklist: ChecklistV,
    pub description: JsonV,
    pub status: Seq<char>,
    pub action: Seq<char>,
    pub warnings: Seq<Seq<char>>,
}

impl View for Refresh {
    type V = RefreshV;

    open spec fn view(&self) -> RefreshV {
        RefreshV {
            job: self.job@,
            checklist: self.checklist@,
            description: self.description@,
            status: self.status@,
            action: self.action@,
            warnings: strings(self.warnings@),
        }
    }
}

/// What setting or unsetting an override is about.
#[derive(Debug)]
pub struct OverrideJob {
    pub project_id: String,
    pub key: String,
    /// The override fields, an object.
    pub fields: Json,
    pub reason: String,
}

/// What an [`OverrideJob`] stands for.
pub struct OverrideJobV {
    pub project_id: Seq<char>,
    pub key: Seq<char>,
    pub fields: JsonV,
    pub reason: Seq<char>,
}

impl View for OverrideJob {
    type V = OverrideJobV;

    open spec fn view(&self) -> OverrideJobV {
        OverrideJobV {
            project_id: self.project_id@,
            key: self.key@,
            fields: self.fields@,
            reason: self.reason@,
        }
    }
}

/// What renewing the effective description after an override change is about.
#[derive(Debug)]
pub struct RenewJob {
    pub project_id: String,
    pub key: String,
    pub status: String,
}

/// What a [`RenewJob`] stands for.
pub struct RenewJobV {
    pub project_id: Seq<char>,
    pub key: Seq<char>,
    pub status: Seq<char>,
}

impl View for RenewJob {
    type V = RenewJobV;

    open spec fn view(&self) -> RenewJobV {
        RenewJobV { project_id: self.project_id@, key: self.key@, status: self.status@ }
    }
}

/// What resolving a conflict is about.
#[derive(Debug)]
pub struct ResolveJob {
    pub project_id: String,
    pub key: String,
    pub strategy: String,
    pub reason: String,
    /// Path of the checklist as it was given.
    pub given_path: String,
    /// Absolute path of the checklist.
    pub path: String,
}

/// What a [`ResolveJob`] stands for.
pub struct ResolveJobV {
    pub project_id: Seq<char>,
    pub key: Seq<char>,
    pub strategy: Seq<char>,
    pub reason: Seq<char>,
    pub given_path: Seq<char>,
    pub path: Seq<char>,
}

impl View for ResolveJob {
    type V = ResolveJobV;

    open spec fn view(&self) -> ResolveJobV {
        ResolveJobV {
            project_id: self.project_id@,
            key: self.key@,
            strategy: self.strategy@,
            reason: self.reason@,
            given_path: self.given_path@,
            path: self.path@,
        }
    }
}

/// What an operation is waiting for.
#[derive(Debug)]
pub enum Stage {
    /// The checklist of a `prepare`.
    PrepareRead(PrepareJob),
    /// The project as it is stored.
    PrepareProject(PrepareJob, Checklist),
    /// The overrides that may be in conflict.
    PrepareConflicts(PrepareJob, Checklist, Json),
    /// The mark on overrides in conflict.
    PrepareMarked(String, Vec<String>),
    /// The active overrides.
    PrepareActive(PrepareJob, Checklist, Json),
    /// The project once more, right before it is replaced.
    PrepareRecheck(Refresh),
    /// The replacement of the project; then comes the result.
    PrepareWritten(Json),
    /// The checklist of a `status`.
    StatusRead(String, String),
    /// The project as it is stored.
    StatusProject(String, Checklist),
    /// The overrides that may be in conflict.
    StatusOverrides(String, Checklist, Json),
    /// A project to show.
    ShowProject(String),
    /// A project whose description is wanted.
    Description(String),
    /// All projects.
    Projects,
    /// The project whose rules are wanted.
    RulesProject(String),
    /// The rules to list.
    Rules,
    /// The project to search in, and what to search for.
    SearchProject(String, String),
    /// The rules among which to search, and what to search for.
    SearchRules(String),
    /// The start of the snapshot that a selection is answered from.
    Snapshot(Selection),
    /// The project of a selection.
    SelectProject(Selection),
    /// All rules of the project.
    SelectAvailable(Selection),
    /// The selected rules.
    SelectRules(Selection),
    /// The active overrides.
    SelectOverrides(Selection, Vec<Json>),
    /// The project of an override to set.
    SetProject(OverrideJob),
    /// The source hash of the rule to override.
    SetSource(OverrideJob),
    /// The project of an override to unset.
    UnsetProject(OverrideJob),
    /// The override to unset.
    UnsetFound(OverrideJob),
    /// The change of an override.
    RenewWritten(RenewJob),
    /// The project whose description is to be renewed.
    RenewProject(RenewJob),
    /// The source rules, for a checklist without them and a project name.
    RenewRules(RenewJob, Checklist, String),
    /// The active overrides.
    RenewOverrides(RenewJob, Checklist, String),
    /// A change that completes an operation; then comes the result.
    Completed(Json),
    /// The project of a conflict to resolve.
    ResolveProject(ResolveJob),
    /// The new checklist; the project name is known.
    ResolveRead(ResolveJob, String),
    /// The override in conflict; the hash of the new source rule is known, where there is one.
    ResolveFound(ResolveJob, String, Option<String>),
    /// The resolution.
    ResolveWritten(ResolveJob, String),
    /// The project whose overrides are wanted.
    OverridesProject(String),
    /// The overrides to list.
    Overrides,
    /// The project of an override to show.
    ShowOverrideProject(String, String),
    /// The override to show.
    ShowOverride(String, String),
    /// The source rule of an override to show.
    ShowSource(String, Json),
    /// All projects, to be counted; path and source of the database are known.
    InfoProjects(String, String),
    /// The schema version; the numbers of projects and rules are known.
    InfoVersion(String, String, usize, i64),
    /// The findings of the integrity check.
    Check,
    /// The rows of a view, to be filtered and limited.
    View(String, Option<String>, usize),
    /// The schema version.
    Schema,
}

/// What a [`Stage`] stands for.
pub enum StageV {
    PrepareRead(PrepareJobV),
    PrepareProject(PrepareJobV, ChecklistV),
    PrepareConflicts(PrepareJobV, ChecklistV, JsonV),
    PrepareMarked(Seq<char>, Seq<Seq<char>>),
    PrepareActive(PrepareJobV, ChecklistV, JsonV),
    PrepareRecheck(RefreshV),
    PrepareWritten(JsonV),
    StatusRead(Seq<char>, Seq<char>),
    StatusProject(Seq<char>, ChecklistV),
    StatusOverrides(Seq<char>, ChecklistV, JsonV),
    ShowProject(Seq<char>),
    Description(Seq<char>),
    Projects,
    RulesProject(Seq<char>),
    Rules,
    SearchProject(Seq<char>, Seq<char>),
    SearchRules(Seq<char>),
    Snapshot(SelectionV),
    SelectProject(SelectionV),
    SelectAvailable(SelectionV),
    SelectRules(SelectionV),
    SelectOverrides(SelectionV, Seq<JsonV>),
    SetProject(OverrideJobV),
    SetSource(OverrideJobV),
    UnsetProject(OverrideJobV),
    UnsetFound(OverrideJobV),
    RenewWritten(RenewJobV),
    RenewProject(RenewJobV),
    RenewRules(RenewJobV, ChecklistV, Seq<char>),
    RenewOverrides(RenewJobV, ChecklistV, Seq<char>),
    Completed(JsonV),
    ResolveProject(ResolveJobV),
    ResolveRead(ResolveJobV, Seq<char>),
    ResolveFound(ResolveJobV, Seq<char>, Option<Seq<char>>),
    ResolveWritten(ResolveJobV, Seq<char>),
    OverridesProject(Seq<char>),
    Overrides,
    ShowOverrideProject(Seq<char>, Seq<char>),
    ShowOverride(Seq<char>, Seq<char>),
    ShowSource(Seq<char>, JsonV),
    InfoProjects(Seq<char>, Seq<char>),
    InfoVersion(Seq<char>, Seq<char>, int, int),
    Check,
    View(Seq<char>, Option<Seq<char>>, int),
    Schema,
}

impl View for Stage {
    type V = StageV;

    open spec fn view(&self) -> StageV {
        match *self {
            Stage::PrepareRead(j) => StageV::PrepareRead(j@),
            Stage::PrepareProject(j, c) => StageV::PrepareProject(j@, c@),
            Stage::PrepareConflicts(j, c, p) => StageV::PrepareConflicts(j@, c@, p@),
            Stage::PrepareMarked(id, keys) => StageV::PrepareMarked(id@, strings(keys@)),
            Stage::PrepareActive(j, c, p) => StageV::PrepareActive(j@, c@, p@),
            Stage::PrepareRecheck(r) => StageV::PrepareRecheck(r@),
            Stage::PrepareWritten(v) => StageV::PrepareWritten(v@),
            Stage::StatusRead(id, path) => StageV::StatusRead(id@, path@),
            Stage::StatusProject(id, c) => StageV::StatusProject(id@, c@),
            Stage::StatusOverrides(id, c, p) => StageV::StatusOverrides(id@, c@, p@),
            Stage::ShowProject(id) => StageV::ShowProject(id@),
            Stage::Description(id) => StageV::Description(id@),
            Stage::Projects => StageV::Projects,
            Stage::RulesProject(id) => StageV::RulesProject(id@),
            Stage::Rules => StageV::Rules,
            Stage::SearchProject(id, q) => StageV::SearchProject(id@, q@),
            Stage::SearchRules(q) => StageV::SearchRules(q@),
            Stage::Snapshot(s) => StageV::Snapshot(s@),
            Stage::SelectProject(s) => StageV::SelectProject(s@),
            Stage::SelectAvailable(s) => StageV::SelectAvailable(s@),
            Stage::SelectRules(s) => StageV::SelectRules(s@),
            Stage::SelectOverrides(s, rules) => StageV::SelectOverrides(s@, items_view(rules@)),
            Stage::SetProject(j) => StageV::SetProject(j@),
            Stage::SetSource(j) => StageV::SetSource(j@),
            Stage::UnsetProject(j) => StageV::UnsetProject(j@),
            Stage::UnsetFound(j) => StageV::UnsetFound(j@),
            Stage::RenewWritten(j) => StageV::RenewWritten(j@),
            Stage::RenewProject(j) => StageV::RenewProject(j@),
            Stage::RenewRules(j, c, n) => StageV::RenewRules(j@, c@, n@),
            Stage::RenewOverrides(j, c, n) => StageV::RenewOverrides(j@, c@, n@),
            Stage::Completed(v) => StageV::Completed(v@),
            Stage::ResolveProject(j) => StageV::ResolveProject(j@),
            Stage::ResolveRead(j, n) => StageV::ResolveRead(j@, n@),
            Stage::ResolveFound(j, n, h) => StageV::ResolveFound(j@, n@, optional_text(h)),
            Stage::ResolveWritten(j, n) => StageV::ResolveWritten(j@, n@),
            Stage::OverridesProject(id) => StageV::OverridesProject(id@),
            Stage::Overrides => StageV::Overrides,
            Stage::ShowOverrideProject(id, k) => StageV::ShowOverrideProject(id@, k@),
            Stage::ShowOverride(id, k) => StageV::ShowOverride(id@, k@),
            Stage::ShowSource(k, o) => StageV::ShowSource(k@, o@),
            Stage::InfoProjects(p, s) => StageV::InfoProjects(p@, s@),
            Stage::InfoVersion(p, s, n, t) => StageV::InfoVersion(p@, s@, n as int, t as int),
            Stage::Check => StageV::Check,
            Stage::View(v, q, n) => StageV::View(v@, optional_text(q), n as int),
            Stage::Schema => StageV::Schema,
        }
    }
}

/// A step of a service operation.
pub type ServiceStep = Step<Stage, ServiceError>;

/// A step of a service operation as a value of views.
pub type ServiceStepV = StepV<StageV, ServiceErrorV>;

// ---- small steps ----

/// The end with a domain error.
pub open spec fn fail(e: ErrorV) -> ServiceStepV {
    StepV::Done(Err(ServiceErrorV::Kb(e)))
}

/// The end with a diagnostic only.
pub open spec fn escape(text: Seq<char>) -> ServiceStepV {
    StepV::Done(Err(ServiceErrorV::Raw(text)))
}

/// The end with a result.
pub open spec fn end(v: JsonV) -> ServiceStepV {
    StepV::Done(Ok(v))
}

/// A query of the main database.
pub open spec fn ask(query: StatementV, stage: StageV) -> ServiceStepV {
    StepV::Ask(RequestV::Query(Handle::Main, query), stage)
}

fn failing(e: ReviewKBError) -> (r: ServiceStep)
    ensures
        r@ == fail(e@),
{
    Step::Done(Err(ServiceError::Kb(e)))
}

fn escaping(text: &str) -> (r: ServiceStep)
    ensures
        r@ == escape(text@),
{
    Step::Done(Err(ServiceError::Raw(text.to_string())))
}

fn asking(query: Statement, stage: Stage) -> (r: ServiceStep)
    ensures
        r@ == ask(query@, stage@),
{
    Step::Ask(Request::Query(Handle::Main, query), stage)
}

/// The error for an argument that must not be empty.
pub open spec fn empty_error(name: Seq<char>, message: Seq<char>) -> ErrorV {
    ErrorV {
        code: ErrorCode::InvalidArgument,
        message,
        details: detail("field"@, JsonV::Text(name)),
    }
}

fn empty(name: &str, message: String) -> (r: ReviewKBError)
    ensures
        r@ == empty_error(name@, message@),
{
    ReviewKBError::new(
        ErrorCode::InvalidArgument,
        message,
        Json::object().with("field", Json::text(name)),
    )
}

/// What is wrong with an argument that has to have something in it.
pub open spec fn required_fault(value: Seq<char>, name: Seq<char>) -> Option<ErrorV> {
    if is_blank(value) {
        Some(empty_error(name, name + " must not be empty"@))
    } else {
        None
    }
}

fn required(value: &str, name: &str) -> (r: Option<ReviewKBError>)
    ensures
        match r {
            Some(e) => required_fault(value@, name@) == Some(e@),
            None => required_fault(value@, name@) is None,
        },
{
    if blank(value) {
        let mut message = name.to_string();
        message.push_str(" must not be empty");
        Some(empty(name, message))
    } else {
        None
    }
}

/// The error for a project that is not there.
pub open spec fn no_project_error(project_id: Seq<char>) -> ErrorV {
    ErrorV {
        code: ErrorCode::ProjectNotFound,
        message: "project not found: "@ + project_id,
        details: detail("project_id"@, JsonV::Text(project_id)),
    }
}

fn no_project(project_id: &str) -> (r: ReviewKBError)
    ensures
        r@ == no_project_error(project_id@),
{
    let mut message = "project not found: ".to_string();
    message.push_str(project_id);
    ReviewKBError::new(
        ErrorCode::ProjectNotFound,
        message,
        Json::object().with("project_id", Json::text(project_id)),
    )
}

/// The statuses of overrides that a checklist can be in conflict with.
pub open spec fn contested() -> Seq<Seq<char>> {
    seq!["active"@, "conflict"@]
}

/// The status of overrides that count.
pub open spec fn counting() -> Seq<Seq<char>> {
    seq!["active"@]
}

fn contested_statuses() -> (r: Vec<String>)
    ensures
        strings(r@) == contested(),
{
    let mut r: Vec<String> = Vec::new();
    r.push("active".to_string());
    r.push("conflict".to_string());
    assert(strings(r@) =~= contested());
    r
}

fn counting_statuses() -> (r: Vec<String>)
    ensures
        strings(r@) == counting(),
{
    let mut r: Vec<String> = Vec::new();
    r.push("active".to_string());
    assert(strings(r@) =~= counting());
    r
}

fn one(key: &str) -> (r: Vec<String>)
    ensures
        strings(r@) == seq![key@],
{
    let mut r: Vec<String> = Vec::new();
    r.push(key.to_string());
    assert(strings(r@) =~= seq![key@]);
    r
}

/// `name`, bound to `value` alone.
fn object1(name: &str, value: Json) -> (r: Json)
    ensures
        r@ == detail(name@, value@),
{
    Json::object().with(name, value)
}

// ---- prepare ----

/// Whether the stored project comes from another version or another content of the checklist.
pub open spec fn source_changed(current: JsonV, checklist: ChecklistV) -> bool {
    text_field(current, "checklist_version"@) != Some(checklist.checklist_version) || text_field(
        current,
        "content_hash"@,
    ) != Some(checklist.content_hash)
}

/// The warnings of a refresh: the content changed and the version did not.
pub open spec fn refresh_warnings(current: JsonV, checklist: ChecklistV) -> Seq<Seq<char>> {
    if text_field(current, "checklist_version"@) == Some(checklist.checklist_version) && text_field(
        current,
        "content_hash"@,
    ) != Some(checklist.content_hash) {
        seq!["CONTENT_CHANGED_WITHOUT_VERSION_BUMP"@]
    } else {
        Seq::empty()
    }
}

/// Whether the project is stored under another name or path.
pub open spec fn metadata_changed(current: JsonV, job: PrepareJobV) -> bool {
    text_field(current, "project_name"@) != Some(job.project_name) || text_field(
        current,
        "checklist_path"@,
    ) != Some(job.path)
}

/// What a `prepare` reports when it is done. `checklist` is the source.
pub open spec fn prepare_value(
    job: PrepareJobV,
    checklist: ChecklistV,
    description: JsonV,
    status: Seq<char>,
    warnings: Seq<Seq<char>>,
) -> JsonV {
    let revision = match carried_revision(description) {
        Some(r) => r,
        None => Seq::empty(),
    };
    let value = and_detail(
        and_detail(
            and_detail(
                and_detail(
                    and_detail(
                        and_detail(
                            detail("description"@, description),
                            "selection_context"@,
                            and_detail(
                                detail("project_id"@, JsonV::Text(job.project_id)),
                                "knowledge_revision"@,
                                JsonV::Text(revision),
                            ),
                        ),
                        "knowledge_status"@,
                        JsonV::Text(status),
                    ),
                    "checklist_version"@,
                    JsonV::Text(checklist.checklist_version),
                ),
                "content_hash"@,
                JsonV::Text(checklist.content_hash),
            ),
            "rule_count"@,
            JsonV::Int(checklist.rules.len() as int),
        ),
        "warnings"@,
        texts(warnings),
    );
    match job.completes {
        None => value,
        Some((key, strategy)) => and_detail(
            value,
            "override_resolution"@,
            and_detail(
                detail("key"@, JsonV::Text(key)),
                "strategy"@,
                JsonV::Text(strategy),
            ),
        ),
    }
}

fn prepared(
    job: &PrepareJob,
    checklist: &Checklist,
    description: &Json,
    status: &str,
    warnings: &Vec<String>,
) -> (r: Json)
    ensures
        r@ == prepare_value(job@, checklist@, description@, status@, strings(warnings@)),
{
    let revision = match knowledge_revision_of(description) {
        Some(t) => t.to_string(),
        None => {
            proof {
                reveal_strlit("");
                assert(""@ =~= Seq::<char>::empty());
            }
            "".to_string()
        },
    };
    let value = Json::object().with("description", description.duplicate()).with(
        "selection_context",
        Json::object().with("project_id", Json::text(job.project_id.as_str())).with(
            "knowledge_revision",
            Json::text(revision.as_str()),
        ),
    ).with("knowledge_status", Json::text(status)).with(
        "checklist_version",
        Json::text(checklist.checklist_version.as_str()),
    ).with("content_hash", Json::text(checklist.content_hash.as_str())).with(
        "rule_count",
        crate::models::index_value(checklist.rules.len()),
    ).with("warnings", Json::texts(warnings));
    match &job.completes {
        None => value,
        Some((key, strategy)) => value.with(
            "override_resolution",
            Json::object().with("key", Json::text(key.as_str())).with(
                "strategy",
                Json::text(strategy.as_str()),
            ),
        ),
    }
}

/// The first step of a `prepare`: the arguments are checked, the checklist is read.
pub open spec fn prepare_start(job: PrepareJobV) -> ServiceStepV {
    if let Some(e) = required_fault(job.project_id, "project_id"@) {
        fail(e)
    } else if let Some(e) = required_fault(job.project_name, "project_name"@) {
        fail(e)
    } else {
        StepV::Ask(RequestV::ReadFile(job.path), StageV::PrepareRead(job))
    }
}

fn start_prepare(job: PrepareJob) -> (r: ServiceStep)
    ensures
        r@ == prepare_start(job@),
{
    if let Some(e) = required(job.project_id.as_str(), "project_id") {
        return failing(e);
    }
    if let Some(e) = required(job.project_name.as_str(), "project_name") {
        return failing(e);
    }
    Step::Ask(Request::ReadFile(job.path.clone()), Stage::PrepareRead(job))
}

/// The step after the checklist has been read.
pub open spec fn prepare_read(job: PrepareJobV, file: Option<Seq<u8>>) -> ServiceStepV {
    match checklist_of(job.path, file) {
        Err(e) => fail(e),
        Ok(checklist) => ask(
            project_query(job.project_id),
            StageV::PrepareProject(job, checklist),
        ),
    }
}

/// The step after the stored project has been looked up. Only an existing project that is about
/// to be refreshed can have overrides in conflict.
pub open spec fn prepare_project(
    job: PrepareJobV,
    checklist: ChecklistV,
    current: Option<JsonV>,
    now: Seq<char>,
) -> ServiceStepV {
    match current {
        None => prepare_decide(job, checklist, None, Seq::empty(), now),
        Some(c) => if source_changed(c, checklist) || job.force {
            ask(
                overrides_query(job.project_id, contested()),
                StageV::PrepareConflicts(job, checklist, c),
            )
        } else {
            ask(
                overrides_query(job.project_id, counting()),
                StageV::PrepareActive(job, checklist, c),
            )
        },
    }
}

/// The step after the contested overrides have been read: where one of them is in conflict, the
/// conflict is marked and nothing else is written.
pub open spec fn prepare_conflicts(
    job: PrepareJobV,
    checklist: ChecklistV,
    current: JsonV,
    overrides: Seq<JsonV>,
    now: Seq<char>,
) -> ServiceStepV {
    let keys = conflicts(overrides, checklist.rules);
    if keys.len() > 0 {
        StepV::Ask(
            RequestV::Write(conflicts_marking(job.project_id, keys, now)),
            StageV::PrepareMarked(job.project_id, keys),
        )
    } else {
        ask(
            overrides_query(job.project_id, counting()),
            StageV::PrepareActive(job, checklist, current),
        )
    }
}

/// The error for overrides whose source rules changed.
pub open spec fn conflict_error(project_id: Seq<char>, keys: Seq<Seq<char>>) -> ErrorV {
    ErrorV {
        code: ErrorCode::OverrideConflict,
        message: "source rules changed while local overrides are active"@,
        details: and_detail(
            detail("project_id"@, JsonV::Text(project_id)),
            "keys"@,
            texts(keys),
        ),
    }
}

/// The step that settles a `prepare`: create, refresh or rebuild the project, or reuse it.
pub open spec fn prepare_decide(
    job: PrepareJobV,
    checklist: ChecklistV,
    current: Option<JsonV>,
    overrides: Seq<JsonV>,
    now: Seq<char>,
) -> ServiceStepV {
    let description = description_value(
        job.project_id,
        job.project_name,
        effective_checklist(checklist, overrides),
    );
    match current {
        None => ask(
            project_query(job.project_id),
            StageV::PrepareRecheck(
                RefreshV {
                    job,
                    checklist,
                    description,
                    status: "created"@,
                    action: "create"@,
                    warnings: Seq::empty(),
                },
            ),
        ),
        Some(c) => if source_changed(c, checklist) || job.force {
            ask(
                project_query(job.project_id),
                StageV::PrepareRecheck(
                    RefreshV {
                        job,
                        checklist,
                        description,
                        status: if job.force {
                            "rebuilt"@
                        } else {
                            "refreshed"@
                        },
                        action: if job.force {
                            "rebuild"@
                        } else {
                            "refresh"@
                        },
                        warnings: refresh_warnings(c, checklist),
                    },
                ),
            )
        } else {
            let value = prepare_value(
                job,
                checklist,
                description,
                "reused"@,
                reuse_warnings(c, job),
            );
            let writes = reuse_writes(c, job, description, now);
            if writes.len() == 0 {
                end(value)
            } else {
                StepV::Ask(RequestV::Write(writes), StageV::Completed(value))
            }
        },
    }
}

/// Whether the revision of a stored project is that of a description.
pub open spec fn revision_stored(project: JsonV, description: JsonV) -> bool {
    carried_revision(description) matches Some(revision) && text_field(
        project,
        "knowledge_revision"@,
    ) == Some(revision)
}

/// The warnings of a `prepare` that reuses a project.
pub open spec fn reuse_warnings(project: JsonV, job: PrepareJobV) -> Seq<Seq<char>> {
    if metadata_changed(project, job) {
        seq!["PROJECT_METADATA_UPDATED"@]
    } else {
        Seq::empty()
    }
}

/// The statements of a `prepare` that reuses a project: those that bring its name, its path and
/// its revision up to date, as far as they are not.
pub open spec fn reuse_writes(
    project: JsonV,
    job: PrepareJobV,
    description: JsonV,
    now: Seq<char>,
) -> Seq<StatementV> {
    let naming = if metadata_changed(project, job) {
        seq![metadata_update(job.project_id, job.project_name, job.path, description, now)]
    } else {
        Seq::empty()
    };
    match carried_revision(description) {
        Some(revision) => if revision_stored(project, description) {
            naming
        } else {
            naming + description_writes(job.project_id, revision, description, now)
        },
        None => naming,
    }
}

/// The step after the project has been read once more: it is replaced in one transaction.
pub open spec fn prepare_replace(
    r: RefreshV,
    current: Option<JsonV>,
    now: Seq<char>,
) -> ServiceStepV {
    match carried_revision(r.description) {
        None => fail(no_revision_error()),
        Some(revision) => StepV::Ask(
            RequestV::Write(
                replacement(
                    current,
                    r.job.project_id,
                    r.job.project_name,
                    r.job.path,
                    r.checklist,
                    revision,
                    r.description,
                    r.action,
                    r.warnings,
                    now,
                ),
            ),
            StageV::PrepareWritten(
                prepare_value(r.job, r.checklist, r.description, r.status, r.warnings),
            ),
        ),
    }
}

/// The error for a refresh that could not be written.
pub open spec fn write_error(f: FailureV, db: Seq<char>) -> ErrorV {
    ErrorV {
        code: if is_locked(f) {
            ErrorCode::DbLocked
        } else {
            ErrorCode::DbIntegrityError
        },
        message: "database write failed: "@ + f.text,
        details: path_detail(db),
    }
}

fn write_failure(f: &Failure, db: &str) -> (r: ReviewKBError)
    ensures
        r@ == write_error(f@, db@),
{
    let code = if is_locked_error(f) {
        ErrorCode::DbLocked
    } else {
        ErrorCode::DbIntegrityError
    };
    let mut message = "database write failed: ".to_string();
    message.push_str(f.text.as_str());
    ReviewKBError::new(code, message, object1("path", Json::text(db)))
}

/// Whether an object binds `name` to another text, or to none.
fn differs(v: &Json, name: &str, text: &str) -> (r: bool)
    ensures
        r == (text_field(v@, name@) != Some(text@)),
{
    match get_str(v, name) {
        Some(t) => !same(t, text),
        None => true,
    }
}

fn revision_kept(project: &Json, description: &Json) -> (r: bool)
    ensures
        r == revision_stored(project@, description@),
{
    match knowledge_revision_of(description) {
        Some(revision) => !differs(project, "knowledge_revision", revision),
        None => false,
    }
}

fn changed(current: &Json, checklist: &Checklist) -> (r: bool)
    ensures
        r == source_changed(current@, checklist@),
{
    differs(current, "checklist_version", checklist.checklist_version.as_str()) || differs(
        current,
        "content_hash",
        checklist.content_hash.as_str(),
    )
}

fn decide(
    repository: &Repository,
    job: PrepareJob,
    checklist: Checklist,
    current: &Option<Json>,
    overrides: &Vec<Json>,
    now: &str,
) -> (r: ServiceStep)
    ensures
        r@ == prepare_decide(
            job@,
            checklist@,
            optional_json(*current),
            items_view(overrides@),
            now@,
        ),
{
    let effective = apply_overrides(&checklist, overrides);
    let description = build_description(
        job.project_id.as_str(),
        job.project_name.as_str(),
        &effective,
    );
    let mut warnings: Vec<String> = Vec::new();
    assert(strings(warnings@) =~= Seq::empty());
    match current {
        None => {
            let query = repository.get_project(job.project_id.as_str());
            asking(
                query,
                Stage::PrepareRecheck(
                    Refresh {
                        job,
                        checklist,
                        description,
                        status: "created".to_string(),
                        action: "create".to_string(),
                        warnings,
                    },
                ),
            )
        },
        Some(c) => {
            if changed(c, &checklist) || job.force {
                if !differs(c, "checklist_version", checklist.checklist_version.as_str())
                    && differs(c, "content_hash", checklist.content_hash.as_str()) {
                    warnings.push("CONTENT_CHANGED_WITHOUT_VERSION_BUMP".to_string());
                    assert(strings(warnings@) =~= seq!["CONTENT_CHANGED_WITHOUT_VERSION_BUMP"@]);
                }
                assert(strings(warnings@) == refresh_warnings(c@, checklist@));
                let query = repository.get_project(job.project_id.as_str());
                let status = if job.force {
                    "rebuilt".to_string()
                } else {
                    "refreshed".to_string()
                };
                let action = if job.force {
                    "rebuild".to_string()
                } else {
                    "refresh".to_string()
                };
                return asking(
                    query,
                    Stage::PrepareRecheck(
                        Refresh { job, checklist, description, status, action, warnings },
                    ),
                );
            }
            let mut writes: Vec<Statement> = Vec::new();
            assert(statements_view(writes@) =~= Seq::empty());
            if differs(c, "project_name", job.project_name.as_str()) || differs(
                c,
                "checklist_path",
                job.path.as_str(),
            ) {
                warnings.push("PROJECT_METADATA_UPDATED".to_string());
                assert(strings(warnings@) =~= seq!["PROJECT_METADATA_UPDATED"@]);
                writes.push(
                    repository.update_project_metadata(
                        job.project_id.as_str(),
                        job.project_name.as_str(),
                        job.path.as_str(),
                        &description,
                        now,
                    ),
                );
                assert(statements_view(writes@) =~= seq![
                    metadata_update(
                        job.project_id@,
                        job.project_name@,
                        job.path@,
                        description@,
                        now@,
                    ),
                ]);
            }
            let ghost naming = statements_view(writes@);
            proof {
                description_carries_revision(job.project_id@, job.project_name@, effective@);
            }
            if !revision_kept(c, &description) {
                match repository.update_effective_description(
                    job.project_id.as_str(),
                    &description,
                    now,
                ) {
                    Ok(mut list) => {
                        let ghost more = list@;
                        let ghost before = writes@;
                        writes.append(&mut list);
                        assert(statements_view(writes@) =~= naming + statements_view(more));
                    },
                    Err(_) => {},
                }
            }
            assert(statements_view(writes@) =~= reuse_writes(c@, job@, description@, now@));
            assert(strings(warnings@) =~= reuse_warnings(c@, job@));
            let value = prepared(&job, &checklist, &description, "reused", &warnings);
            if writes.len() == 0 {
                Step::Done(Ok(value))
            } else {
                Step::Ask(Request::Write(writes), Stage::Completed(value))
            }
        },
    }
}

fn after_checklist(repository: &Repository, job: PrepareJob, file: &Option<Vec<u8>>) -> (r:
    ServiceStep)
    ensures
        r@ == prepare_read(job@, file_view(*file)),
{
    match read_checklist(job.path.as_str(), file) {
        Err(e) => failing(e),
        Ok(checklist) => {
            let query = repository.get_project(job.project_id.as_str());
            asking(query, Stage::PrepareProject(job, checklist))
        },
    }
}

/// The view of the bytes of a file.
pub open spec fn file_view(file: Option<Vec<u8>>) -> Option<Seq<u8>> {
    match file {
        Some(raw) => Some(raw@),
        None => None,
    }
}

fn read_checklist(path: &str, file: &Option<Vec<u8>>) -> (r: Result<Checklist, ReviewKBError>)
    ensures
        crate::checklist::checklist_view(r) == checklist_of(path@, file_view(*file)),
{
    match file {
        Some(raw) => parse_checklist(path, Some(raw.as_slice())),
        None => parse_checklist(path, None),
    }
}

fn after_project(
    repository: &Repository,
    job: PrepareJob,
    checklist: Checklist,
    current: Option<Json>,
    now: &str,
) -> (r: ServiceStep)
    ensures
        r@ == prepare_project(job@, checklist@, optional_json(current), now@),
{
    match current {
        None => {
            let none: Vec<Json> = Vec::new();
            assert(items_view(none@) =~= Seq::empty());
            decide(repository, job, checklist, &None, &none, now)
        },
        Some(c) => {
            if changed(&c, &checklist) || job.force {
                let query = repository.list_overrides(
                    job.project_id.as_str(),
                    &contested_statuses(),
                );
                asking(query, Stage::PrepareConflicts(job, checklist, c))
            } else {
                let query = repository.list_overrides(
                    job.project_id.as_str(),
                    &counting_statuses(),
                );
                asking(query, Stage::PrepareActive(job, checklist, c))
            }
        },
    }
}

fn after_contested(
    repository: &Repository,
    job: PrepareJob,
    checklist: Checklist,
    current: Json,
    overrides: &Vec<Json>,
    now: &str,
) -> (r: ServiceStep)
    ensures
        r@ == prepare_conflicts(job@, checklist@, current@, items_view(overrides@), now@),
{
    let keys = find_conflicts(overrides, &checklist.rules);
    assert(strings(keys@).len() == keys@.len());
    if keys.len() > 0 {
        let marks = repository.mark_override_conflicts(job.project_id.as_str(), &keys, now);
        Step::Ask(Request::Write(marks), Stage::PrepareMarked(job.project_id, keys))
    } else {
        let query = repository.list_overrides(job.project_id.as_str(), &counting_statuses());
        asking(query, Stage::PrepareActive(job, checklist, current))
    }
}

fn conflicting(project_id: &str, keys: &Vec<String>) -> (r: ReviewKBError)
    ensures
        r@ == conflict_error(project_id@, strings(keys@)),
{
    ReviewKBError::new(
        ErrorCode::OverrideConflict,
        "source rules changed while local overrides are active".to_string(),
        Json::object().with("project_id", Json::text(project_id)).with("keys", Json::texts(keys)),
    )
}

fn replace(repository: &Repository, r: Refresh, current: &Option<Json>, now: &str) -> (s:
    ServiceStep)
    ensures
        s@ == prepare_replace(r@, optional_json(*current), now@),
{
    let statements = repository.replace_project(
        current,
        r.job.project_id.as_str(),
        r.job.project_name.as_str(),
        r.job.path.as_str(),
        &r.checklist,
        &r.description,
        r.action.as_str(),
        &r.warnings,
        now,
    );
    match statements {
        Err(e) => failing(e),
        Ok(list) => {
            let value = prepared(
                &r.job,
                &r.checklist,
                &r.description,
                r.status.as_str(),
                &r.warnings,
            );
            Step::Ask(Request::Write(list), Stage::PrepareWritten(value))
        },
    }
}

// ---- status ----

/// A field of the stored project, null where there is none.
pub open spec fn stored_field(current: Option<JsonV>, name: Seq<char>) -> JsonV {
    match current {
        None => JsonV::Null,
        Some(c) => match field(c, name) {
            Some(v) => v,
            None => JsonV::Null,
        },
    }
}

fn stored(current: &Option<Json>, name: &str) -> (r: Json)
    ensures
        r@ == stored_field(optional_json(*current), name@),
{
    match current {
        None => Json::Null,
        Some(c) => match c.get(name) {
            Some(v) => v.duplicate(),
            None => Json::Null,
        },
    }
}

/// How a checklist stands to the stored project.
pub open spec fn status_word(
    current: Option<JsonV>,
    checklist: ChecklistV,
    keys: Seq<Seq<char>>,
) -> Seq<char> {
    match current {
        None => "missing"@,
        Some(c) => if keys.len() > 0 {
            "conflict"@
        } else if source_changed(c, checklist) {
            "stale"@
        } else {
            "current"@
        },
    }
}

/// What a `status` reports. `overrides` are those that may be in conflict.
pub open spec fn status_value(
    project_id: Seq<char>,
    checklist: ChecklistV,
    current: Option<JsonV>,
    overrides: Seq<JsonV>,
) -> JsonV {
    let keys = conflicts(overrides, checklist.rules);
    and_detail(
        and_detail(
            and_detail(
                and_detail(
                    and_detail(
                        and_detail(
                            detail("project_id"@, JsonV::Text(project_id)),
                            "status"@,
                            JsonV::Text(status_word(current, checklist, keys)),
                        ),
                        "source_version"@,
                        JsonV::Text(checklist.checklist_version),
                    ),
                    "source_hash"@,
                    JsonV::Text(checklist.content_hash),
                ),
                "stored_version"@,
                stored_field(current, "checklist_version"@),
            ),
            "stored_hash"@,
            stored_field(current, "content_hash"@),
        ),
        "conflict_keys"@,
        texts(keys),
    )
}

fn status_of(
    project_id: &str,
    checklist: &Checklist,
    current: &Option<Json>,
    overrides: &Vec<Json>,
) -> (r: Json)
    ensures
        r@ == status_value(
            project_id@,
            checklist@,
            optional_json(*current),
            items_view(overrides@),
        ),
{
    let keys = find_conflicts(overrides, &checklist.rules);
    assert(strings(keys@).len() == keys@.len());
    let word = match current {
        None => "missing",
        Some(c) => if keys.len() > 0 {
            "conflict"
        } else if changed(c, checklist) {
            "stale"
        } else {
            "current"
        },
    };
    Json::object().with("project_id", Json::text(project_id)).with("status", Json::text(word)).with(
        "source_version",
        Json::text(checklist.checklist_version.as_str()),
    ).with("source_hash", Json::text(checklist.content_hash.as_str())).with(
        "stored_version",
        stored(current, "checklist_version"),
    ).with("stored_hash", stored(current, "content_hash")).with(
        "conflict_keys",
        Json::texts(&keys),
    )
}

// ---- projects, descriptions and rules ----

/// A value without the binding of `name`.
pub open spec fn dropped(v: JsonV, name: Seq<char>) -> JsonV {
    match v {
        JsonV::Object(entries) => JsonV::Object(without(entries, name)),
        other => other,
    }
}

/// A list of values, each without the binding of `name`.
pub open spec fn stripped(list: Seq<JsonV>, name: Seq<char>) -> Seq<JsonV> {
    list.map_values(|v: JsonV| dropped(v, name))
}

fn strip(list: &Vec<Json>, name: &str) -> (r: Vec<Json>)
    ensures
        items_view(r@) == stripped(items_view(list@), name@),
{
    let mut out: Vec<Json> = Vec::new();
    let mut i: usize = 0;
    while i < list.len()
        invariant
            i <= list@.len(),
            out@.len() == i,
            forall|k: int| 0 <= k < i ==> (#[trigger] out@[k])@ == dropped(list@[k]@, name@),
        decreases list@.len() - i,
    {
        out.push(list[i].duplicate().dropping(name));
        i += 1;
    }
    assert(items_view(out@) =~= stripped(items_view(list@), name@));
    out
}

/// The end with a list of records, or with the reason why they cannot be read.
pub open spec fn end_records(list: Result<Seq<JsonV>, Seq<char>>) -> ServiceStepV {
    match list {
        Err(e) => escape(e),
        Ok(list) => end(JsonV::Array(list)),
    }
}

fn ending(list: Result<Vec<Json>, String>) -> (r: ServiceStep)
    ensures
        r@ == end_records(crate::rows::records_view(list)),
{
    match list {
        Err(e) => escaping(e.as_str()),
        Ok(list) => Step::Done(Ok(Json::Array(list))),
    }
}

/// Whether a project row holds a description as it is written.
pub open spec fn holds_description(project: JsonV, d: JsonV) -> bool {
    text_field(project, "description_json"@) == Some(canonical(d)) && storable(d, 127)
}

/// The stored description of a project.
pub open spec fn stored_description(project: JsonV) -> Result<JsonV, Seq<char>> {
    match json_document(text_or_empty(project, "description_json"@)) {
        Ok(v) => Ok(v),
        Err(e) => Err("invalid description_json: "@ + e),
    }
}

fn description_in(project: &Json) -> (r: Result<Json, String>)
    ensures
        reading(r) == stored_description(project@),
        forall|d: JsonV| #[trigger] holds_description(project@, d) ==> reading(r) == Ok::<
            JsonV,
            Seq<char>,
        >(sorted(d)),
{
    let raw = text_of_field(project, "description_json");
    proof {
        assert forall|d: JsonV| #[trigger] holds_description(project@, d) implies raw@ == json_text(
            sorted(d),
        ) && fits(sorted(d), 127) by {
            lemma_sorted_fits(d, 127);
        }
    }
    match parse_json(raw.as_str()) {
        Ok(v) => Ok(v),
        Err(e) => {
            let mut message = "invalid description_json: ".to_string();
            message.push_str(e.as_str());
            Err(message)
        },
    }
}

// ---- selections ----

/// The first step of answering a selection: the payload is validated before anything is read.
pub open spec fn select_start(payload: JsonV) -> ServiceStepV {
    match validated_selection(payload) {
        Ok(s) => StepV::Ask(RequestV::BeginRead, StageV::Snapshot(s)),
        Err(SelectionErrorV::Envelope(errors)) => fail(
            ErrorV {
                code: ErrorCode::InvalidSelection,
                message: "invalid rule selection"@,
                details: detail("validation_errors"@, JsonV::Array(errors)),
            },
        ),
        Err(SelectionErrorV::Raw) => escape("selection payload failed value validation"@),
    }
}

/// The step after the project of a selection has been looked up: a selection made against another
/// knowledge revision is refused.
pub open spec fn select_project(s: SelectionV, project: Option<JsonV>) -> ServiceStepV {
    match project {
        None => fail(no_project_error(s.project_id)),
        Some(p) => {
            let current = text_or_empty(p, "knowledge_revision"@);
            if current != s.knowledge_revision {
                fail(revision_error(s, current))
            } else {
                ask(rules_query(s.project_id), StageV::SelectAvailable(s))
            }
        },
    }
}

/// The step after all rules of the project have been read: a selection with an unknown key is
/// refused as a whole.
pub open spec fn select_available(s: SelectionV, rules: Seq<JsonV>) -> ServiceStepV {
    let available = record_keys(rules);
    let missing = missing_keys(s.keys, available);
    if missing.len() > 0 {
        fail(unknown_keys_error(missing, available))
    } else {
        ask(keyed_rules_query(s.project_id, s.keys), StageV::SelectRules(s))
    }
}

fn after_select_project(repository: &Repository, s: Selection, project: Option<Json>) -> (r:
    ServiceStep)
    ensures
        r@ == select_project(s@, optional_json(project)),
{
    match project {
        None => failing(no_project(s.project_id.as_str())),
        Some(p) => {
            let current = text_of_field(&p, "knowledge_revision");
            if !same(current.as_str(), s.knowledge_revision.as_str()) {
                return failing(stale(&s, current.as_str()));
            }
            let query = repository.list_rules(s.project_id.as_str());
            asking(query, Stage::SelectAvailable(s))
        },
    }
}

fn after_available(repository: &Repository, s: Selection, rules: &Vec<Json>) -> (r: ServiceStep)
    ensures
        r@ == select_available(s@, items_view(rules@)),
{
    match check_keys(&s.keys, rules) {
        Err(e) => failing(e),
        Ok(_) => {
            let query = repository.get_rules(s.project_id.as_str(), &s.keys);
            asking(query, Stage::SelectRules(s))
        },
    }
}

// ---- overrides ----

/// The bindings of an object; no bindings for anything else.
pub open spec fn bindings(v: JsonV) -> Entries {
    match v {
        JsonV::Object(entries) => entries,
        _ => Seq::empty(),
    }
}

fn as_object(v: Json) -> (r: Json)
    ensures
        r@ == JsonV::Object(bindings(v@)),
{
    match v {
        Json::Object(list) => Json::Object(list),
        _ => Json::object(),
    }
}

/// The error for a change of an override without a reason.
pub open spec fn no_reason_error(message: Seq<char>) -> ErrorV {
    empty_error("reason"@, message)
}

/// The step after the project of an override to set has been looked up: reason and fields are
/// checked, the fields are kept as they are going to be stored.
pub open spec fn set_project(job: OverrideJobV, project: Option<JsonV>) -> ServiceStepV {
    if project is None {
        fail(no_project_error(job.project_id))
    } else if is_blank(job.reason) {
        fail(no_reason_error("override reason must not be empty"@))
    } else {
        match validated_fields(bindings(job.fields)) {
            Err(e) => fail(e),
            Ok(kept) => ask(
                source_hash_query(job.project_id, job.key),
                StageV::SetSource(
                    OverrideJobV {
                        fields: JsonV::Object(kept),
                        reason: trimmed(job.reason),
                        ..job
                    },
                ),
            ),
        }
    }
}

fn after_set_project(repository: &Repository, job: OverrideJob, project: &Option<Json>) -> (r:
    ServiceStep)
    ensures
        r@ == set_project(job@, optional_json(*project)),
{
    if project.is_none() {
        return failing(no_project(job.project_id.as_str()));
    }
    if blank(job.reason.as_str()) {
        return failing(empty("reason", "override reason must not be empty".to_string()));
    }
    let none: Vec<(String, Json)> = Vec::new();
    assert(entries_view(none@) =~= Seq::empty());
    let checked = match &job.fields {
        Json::Object(list) => validate_override_fields(list),
        _ => validate_override_fields(&none),
    };
    match checked {
        Err(e) => failing(e),
        Ok(kept) => {
            let query = repository.source_hash(job.project_id.as_str(), job.key.as_str());
            let reason = trim(job.reason.as_str());
            asking(
                query,
                Stage::SetSource(
                    OverrideJob {
                        project_id: job.project_id,
                        key: job.key,
                        fields: Json::Object(kept),
                        reason,
                    },
                ),
            )
        },
    }
}

/// The step after the source hash of the rule to override has been looked up.
pub open spec fn set_source(
    job: OverrideJobV,
    source_hash: Option<Seq<char>>,
    now: Seq<char>,
) -> ServiceStepV {
    match source_hash {
        None => fail(missing_error("rule not found: "@, job.project_id, job.key)),
        Some(hash) => StepV::Ask(
            RequestV::Write(
                seq![
                    override_upsert(
                        job.project_id,
                        job.key,
                        bindings(job.fields),
                        hash,
                        job.reason,
                        now,
                    ),
                    audit_insert(
                        job.project_id,
                        job.key,
                        "override.set"@,
                        job.reason,
                        JsonV::Object(bindings(job.fields)),
                        now,
                    ),
                ],
            ),
            StageV::RenewWritten(
                RenewJobV { project_id: job.project_id, key: job.key, status: "active"@ },
            ),
        ),
    }
}

fn after_source(
    repository: &Repository,
    job: OverrideJob,
    source_hash: &Option<String>,
    now: &str,
) -> (r: ServiceStep)
    ensures
        r@ == set_source(job@, optional_text(*source_hash), now@),
{
    let fields = as_object(job.fields);
    let statements = repository.upsert_override(
        job.project_id.as_str(),
        job.key.as_str(),
        &fields,
        job.reason.as_str(),
        source_hash,
        now,
    );
    match statements {
        Err(e) => failing(e),
        Ok(list) => Step::Ask(
            Request::Write(list),
            Stage::RenewWritten(
                RenewJob { project_id: job.project_id, key: job.key, status: "active".to_string() },
            ),
        ),
    }
}

/// The step after the project of an override to unset has been looked up.
pub open spec fn unset_project(job: OverrideJobV, project: Option<JsonV>) -> ServiceStepV {
    if project is None {
        fail(no_project_error(job.project_id))
    } else if is_blank(job.reason) {
        fail(no_reason_error("override reason must not be empty"@))
    } else {
        ask(
            override_query(job.project_id, job.key),
            StageV::UnsetFound(OverrideJobV { reason: trimmed(job.reason), ..job }),
        )
    }
}

fn after_unset_project(repository: &Repository, job: OverrideJob, project: &Option<Json>) -> (r:
    ServiceStep)
    ensures
        r@ == unset_project(job@, optional_json(*project)),
{
    if project.is_none() {
        return failing(no_project(job.project_id.as_str()));
    }
    if blank(job.reason.as_str()) {
        return failing(empty("reason", "override reason must not be empty".to_string()));
    }
    let query = repository.get_override(job.project_id.as_str(), job.key.as_str());
    let reason = trim(job.reason.as_str());
    asking(
        query,
        Stage::UnsetFound(
            OverrideJob { project_id: job.project_id, key: job.key, fields: job.fields, reason },
        ),
    )
}

/// The step after the override to unset has been looked up: it is disabled, not deleted.
pub open spec fn unset_found(
    job: OverrideJobV,
    found: Option<JsonV>,
    now: Seq<char>,
) -> ServiceStepV {
    if found is None {
        fail(missing_error("override not found: "@, job.project_id, job.key))
    } else {
        StepV::Ask(
            RequestV::Write(
                seq![
                    override_disable(job.project_id, job.key, job.reason, now),
                    audit_insert(
                        job.project_id,
                        job.key,
                        "override.unset"@,
                        job.reason,
                        JsonV::Object(Seq::empty()),
                        now,
                    ),
                ],
            ),
            StageV::RenewWritten(
                RenewJobV { project_id: job.project_id, key: job.key, status: "disabled"@ },
            ),
        )
    }
}

fn after_unset_found(
    repository: &Repository,
    job: OverrideJob,
    found: &Option<Json>,
    now: &str,
) -> (r: ServiceStep)
    ensures
        r@ == unset_found(job@, optional_json(*found), now@),
{
    let statements = repository.disable_override(
        job.project_id.as_str(),
        job.key.as_str(),
        job.reason.as_str(),
        found,
        now,
    );
    match statements {
        Err(e) => failing(e),
        Ok(list) => Step::Ask(
            Request::Write(list),
            Stage::RenewWritten(
                RenewJob {
                    project_id: job.project_id,
                    key: job.key,
                    status: "disabled".to_string(),
                },
            ),
        ),
    }
}

/// The integer that a field holds, zero where it holds none.
pub open spec fn integer_or_zero(v: JsonV, name: Seq<char>) -> int {
    match field(v, name) {
        Some(JsonV::Int(n)) => if n <= i64::MAX {
            n
        } else {
            0
        },
        _ => 0,
    }
}

fn integer_field(v: &Json, name: &str) -> (r: i64)
    ensures
        r == integer_or_zero(v@, name@),
{
    match v.get(name) {
        None => 0,
        Some(x) => match x.as_i64() {
            Some(n) => n,
            None => 0,
        },
    }
}

/// The checklist of a stored project, as far as the project itself and its stored description
/// hold it: everything but the rules.
pub open spec fn stored_checklist(project: JsonV, description: JsonV) -> ChecklistV {
    ChecklistV {
        schema_version: integer_or_zero(project, "schema_version"@),
        checklist_version: text_or_empty(project, "checklist_version"@),
        global_description: text_or_empty(description, "global_description"@),
        content_hash: text_or_empty(project, "content_hash"@),
        rules: Seq::empty(),
    }
}

/// The rule of a stored rule record.
pub open spec fn stored_rule(record: JsonV) -> RuleV {
    RuleV {
        key: text_or_empty(record, "key"@),
        summary: text_or_empty(record, "summary"@),
        content: text_or_empty(record, "content"@),
        tags: text_items(field(record, "tags"@)),
        paths: text_items(field(record, "paths"@)),
        languages: text_items(field(record, "languages"@)),
        source_rule_hash: text_or_empty(record, "source_rule_hash"@),
    }
}

/// The rules of stored rule records.
pub open spec fn stored_rules(list: Seq<JsonV>) -> Seq<RuleV> {
    list.map_values(|r: JsonV| stored_rule(r))
}

fn list_of(record: &Json, name: &str) -> (r: Vec<String>)
    ensures
        strings(r@) == text_items(field(record@, name@)),
{
    str_array_owned(record.get(name))
}

fn rule_of(record: &Json) -> (r: Rule)
    ensures
        r@ == stored_rule(record@),
{
    Rule {
        key: text_of_field(record, "key"),
        summary: text_of_field(record, "summary"),
        content: text_of_field(record, "content"),
        tags: list_of(record, "tags"),
        paths: list_of(record, "paths"),
        languages: list_of(record, "languages"),
        source_rule_hash: text_of_field(record, "source_rule_hash"),
    }
}

fn rules_of(list: &Vec<Json>) -> (r: Vec<Rule>)
    ensures
        rules_view(r@) == stored_rules(items_view(list@)),
{
    let mut out: Vec<Rule> = Vec::new();
    let mut i: usize = 0;
    while i < list.len()
        invariant
            i <= list@.len(),
            out@.len() == i,
            forall|k: int| 0 <= k < i ==> (#[trigger] out@[k])@ == stored_rule(list@[k]@),
        decreases list@.len() - i,
    {
        out.push(rule_of(&list[i]));
        i += 1;
    }
    assert(rules_view(out@) =~= stored_rules(items_view(list@)));
    out
}

/// The step after the project whose description is to be renewed has been looked up.
pub open spec fn renew_project(job: RenewJobV, project: Option<JsonV>) -> ServiceStepV {
    match project {
        None => fail(no_project_error(job.project_id)),
        Some(p) => match stored_description(p) {
            Err(e) => escape(e),
            Ok(description) => ask(
                rules_query(job.project_id),
                StageV::RenewRules(
                    job,
                    stored_checklist(p, description),
                    text_or_empty(p, "project_name"@),
                ),
            ),
        },
    }
}

fn after_renew_project(repository: &Repository, job: RenewJob, project: Option<Json>) -> (r:
    ServiceStep)
    ensures
        r@ == renew_project(job@, optional_json(project)),
{
    match project {
        None => failing(no_project(job.project_id.as_str())),
        Some(p) => match description_in(&p) {
            Err(e) => escaping(e.as_str()),
            Ok(description) => {
                let rules: Vec<Rule> = Vec::new();
                assert(rules_view(rules@) =~= Seq::empty());
                let base = Checklist {
                    schema_version: integer_field(&p, "schema_version"),
                    checklist_version: text_of_field(&p, "checklist_version"),
                    global_description: text_of_field(&description, "global_description"),
                    content_hash: text_of_field(&p, "content_hash"),
                    rules,
                };
                let query = repository.list_rules(job.project_id.as_str());
                asking(query, Stage::RenewRules(job, base, text_of_field(&p, "project_name")))
            },
        },
    }
}

/// What changing an override reports when it is done.
pub open spec fn renew_value(job: RenewJobV, revision: Seq<char>) -> JsonV {
    and_detail(
        and_detail(
            and_detail(
                detail("project_id"@, JsonV::Text(job.project_id)),
                "key"@,
                JsonV::Text(job.key),
            ),
            "status"@,
            JsonV::Text(job.status),
        ),
        "knowledge_revision"@,
        JsonV::Text(revision),
    )
}

/// The step after the active overrides have been read: the effective description is stored.
pub open spec fn renew_description(
    job: RenewJobV,
    source: ChecklistV,
    project_name: Seq<char>,
    overrides: Seq<JsonV>,
    now: Seq<char>,
) -> ServiceStepV {
    let effective = effective_checklist(source, overrides);
    let description = description_value(job.project_id, project_name, effective);
    StepV::Ask(
        RequestV::Write(
            description_writes(job.project_id, revision_of(effective), description, now),
        ),
        StageV::Completed(renew_value(job, revision_of(effective))),
    )
}

fn after_renew_overrides(
    repository: &Repository,
    job: &RenewJob,
    source: &Checklist,
    project_name: &str,
    overrides: &Vec<Json>,
    now: &str,
) -> (r: ServiceStep)
    ensures
        r@ == renew_description(
            job@,
            source@,
            project_name@,
            items_view(overrides@),
            now@,
        ),
{
    let effective = apply_overrides(source, overrides);
    let description = build_description(job.project_id.as_str(), project_name, &effective);
    proof {
        description_carries_revision(job.project_id@, project_name@, effective@);
    }
    let revision = match knowledge_revision_of(&description) {
        Some(t) => t.to_string(),
        None => "".to_string(),
    };
    match repository.update_effective_description(job.project_id.as_str(), &description, now) {
        Err(e) => failing(e),
        Ok(update) => {
            let value = Json::object().with("project_id", Json::text(job.project_id.as_str())).with(
                "key",
                Json::text(job.key.as_str()),
            ).with("status", Json::text(job.status.as_str())).with(
                "knowledge_revision",
                Json::text(revision.as_str()),
            );
            Step::Ask(Request::Write(update), Stage::Completed(value))
        },
    }
}

/// Whether a strategy resolves conflicts.
pub open spec fn is_strategy(strategy: Seq<char>) -> bool {
    strategy == "keep-override"@ || strategy == "accept-source"@
}

/// The step after the project of a conflict to resolve has been looked up.
pub open spec fn resolve_project(job: ResolveJobV, project: Option<JsonV>) -> ServiceStepV {
    match project {
        None => fail(no_project_error(job.project_id)),
        Some(p) => if !is_strategy(job.strategy) {
            fail(
                ErrorV {
                    code: ErrorCode::InvalidArgument,
                    message: "override resolution strategy must be keep-override or accept-source"@,
                    details: detail("strategy"@, JsonV::Text(job.strategy)),
                },
            )
        } else if is_blank(job.reason) {
            fail(no_reason_error("override resolution reason must not be empty"@))
        } else {
            StepV::Ask(
                RequestV::ReadFile(job.given_path),
                StageV::ResolveRead(job, text_or_empty(p, "project_name"@)),
            )
        },
    }
}

fn after_resolve_project(job: ResolveJob, project: Option<Json>) -> (r: ServiceStep)
    ensures
        r@ == resolve_project(job@, optional_json(project)),
{
    match project {
        None => failing(no_project(job.project_id.as_str())),
        Some(p) => {
            if !same(job.strategy.as_str(), "keep-override") && !same(
                job.strategy.as_str(),
                "accept-source",
            ) {
                return failing(
                    ReviewKBError::new(
                        ErrorCode::InvalidArgument,
                        "override resolution strategy must be keep-override or accept-source".to_string(),
                        object1("strategy", Json::text(job.strategy.as_str())),
                    ),
                );
            }
            if blank(job.reason.as_str()) {
                return failing(
                    empty("reason", "override resolution reason must not be empty".to_string()),
                );
            }
            let name = text_of_field(&p, "project_name");
            Step::Ask(Request::ReadFile(job.given_path.clone()), Stage::ResolveRead(job, name))
        },
    }
}

/// The step after the new checklist has been read.
pub open spec fn resolve_read(
    job: ResolveJobV,
    project_name: Seq<char>,
    file: Option<Seq<u8>>,
) -> ServiceStepV {
    match checklist_of(job.given_path, file) {
        Err(e) => fail(e),
        Ok(checklist) => ask(
            override_query(job.project_id, job.key),
            StageV::ResolveFound(job, project_name, rule_hash(checklist.rules, job.key)),
        ),
    }
}

fn after_resolve_read(
    repository: &Repository,
    job: ResolveJob,
    project_name: String,
    file: &Option<Vec<u8>>,
) -> (r: ServiceStep)
    ensures
        r@ == resolve_read(job@, project_name@, file_view(*file)),
{
    match read_checklist(job.given_path.as_str(), file) {
        Err(e) => failing(e),
        Ok(checklist) => {
            let hash = find_hash(&checklist.rules, job.key.as_str());
            let query = repository.get_override(job.project_id.as_str(), job.key.as_str());
            asking(query, Stage::ResolveFound(job, project_name, hash))
        },
    }
}

/// The step after the override in conflict has been looked up.
pub open spec fn resolve_found(
    job: ResolveJobV,
    project_name: Seq<char>,
    hash: Option<Seq<char>>,
    found: Option<JsonV>,
    now: Seq<char>,
) -> ServiceStepV {
    match resolution(
        job.project_id,
        job.key,
        job.strategy == "keep-override"@,
        hash,
        trimmed(job.reason),
        found,
        now,
    ) {
        Err(e) => fail(e),
        Ok(list) => StepV::Ask(RequestV::Write(list), StageV::ResolveWritten(job, project_name)),
    }
}

fn after_resolve_found(
    repository: &Repository,
    job: ResolveJob,
    project_name: String,
    hash: &Option<String>,
    found: &Option<Json>,
    now: &str,
) -> (r: ServiceStep)
    ensures
        r@ == resolve_found(
            job@,
            project_name@,
            optional_text(*hash),
            optional_json(*found),
            now@,
        ),
{
    let keep = same(job.strategy.as_str(), "keep-override");
    let reason = trim(job.reason.as_str());
    let statements = repository.resolve_override(
        job.project_id.as_str(),
        job.key.as_str(),
        keep,
        hash,
        reason.as_str(),
        found,
        now,
    );
    match statements {
        Err(e) => failing(e),
        Ok(list) => Step::Ask(Request::Write(list), Stage::ResolveWritten(job, project_name)),
    }
}

/// The `prepare` that completes the resolution of a conflict.
pub open spec fn completing(job: ResolveJobV, project_name: Seq<char>) -> PrepareJobV {
    PrepareJobV {
        project_id: job.project_id,
        project_name,
        path: job.path,
        force: false,
        completes: Some((job.key, job.strategy)),
    }
}

/// What showing an override reports.
pub open spec fn override_value_shown(source: Seq<JsonV>, shown: JsonV) -> JsonV {
    and_detail(
        detail(
            "source"@,
            if source.len() > 0 {
                source[0]
            } else {
                JsonV::Null
            },
        ),
        "override"@,
        shown,
    )
}

fn override_shown(source: &Vec<Json>, shown: Json) -> (r: Json)
    ensures
        r@ == override_value_shown(items_view(source@), shown@),
{
    let first = if source.len() > 0 {
        source[0].duplicate()
    } else {
        Json::Null
    };
    Json::object().with("source", first).with("override", shown)
}

// ---- the database as such ----

/// As much of a number as 64 bits hold.
pub open spec fn clamped(n: int) -> int {
    if n > i64::MAX {
        i64::MAX as int
    } else if n < i64::MIN {
        i64::MIN as int
    } else {
        n
    }
}

/// The number of rules of the first `n` projects.
pub open spec fn rules_total(projects: Seq<JsonV>, n: int) -> int
    decreases n,
{
    if n <= 0 {
        0
    } else {
        clamped(
            rules_total(projects, n - 1) + integer_or_zero(projects[n - 1], "rule_count"@),
        )
    }
}

fn count_rules(projects: &Vec<Json>) -> (r: i64)
    ensures
        r == rules_total(items_view(projects@), projects@.len() as int),
{
    let ghost all = items_view(projects@);
    let mut total: i64 = 0;
    let mut i: usize = 0;
    while i < projects.len()
        invariant
            all == items_view(projects@),
            i <= projects@.len(),
            total == rules_total(all, i as int),
        decreases projects@.len() - i,
    {
        assert(all[i as int] == projects@[i as int]@);
        let sum: i128 = total as i128 + integer_field(&projects[i], "rule_count") as i128;
        total = if sum > i64::MAX as i128 {
            i64::MAX
        } else if sum < i64::MIN as i128 {
            i64::MIN
        } else {
            sum as i64
        };
        i += 1;
    }
    total
}

/// What `db info` reports.
pub open spec fn info_value(
    path: Seq<char>,
    source: Seq<char>,
    projects: int,
    rules: int,
    version: int,
) -> JsonV {
    and_detail(
        and_detail(
            and_detail(
                and_detail(
                    detail("db_path"@, JsonV::Text(path)),
                    "path_source"@,
                    JsonV::Text(source),
                ),
                "project_count"@,
                JsonV::Int(projects),
            ),
            "rule_count"@,
            JsonV::Int(rules),
        ),
        "schema_version"@,
        JsonV::Int(version),
    )
}

/// What `db query` reports.
pub open spec fn view_value(view: Seq<char>, rows: Seq<JsonV>) -> JsonV {
    and_detail(detail("view"@, JsonV::Text(view)), "rows"@, JsonV::Array(rows))
}

proof fn lemma_nothing_matches(
    view: Seq<char>,
    rows: Seq<RowV>,
    n: int,
    needle: Option<Seq<char>>,
)
    ensures
        matching_upto(view, rows, n, needle, 0) == Ok::<Seq<JsonV>, Seq<char>>(Seq::empty()),
    decreases n,
{
    if n > 0 {
        lemma_nothing_matches(view, rows, n - 1, needle);
    }
}

fn view_rows(view: &str, rows: &Vec<Row>, query: &Option<String>, limit: usize) -> (r: ServiceStep)
    ensures
        r@ == (match matching_upto(
            view@,
            rows_view(rows@),
            rows@.len() as int,
            folded(optional_text(*query)),
            limit as int,
        ) {
            Err(e) => escape(e),
            Ok(list) => end(view_value(view@, list)),
        }),
{
    let found = if limit == 0 {
        proof {
            lemma_nothing_matches(
                view@,
                rows_view(rows@),
                rows@.len() as int,
                folded(optional_text(*query)),
            );
        }
        let none: Vec<Json> = Vec::new();
        assert(items_view(none@) =~= Seq::empty());
        Ok(none)
    } else {
        matching_records(view, rows, query, limit)
    };
    match found {
        Err(e) => escaping(e.as_str()),
        Ok(list) => Step::Done(
            Ok(Json::object().with("view", Json::text(view)).with("rows", Json::Array(list))),
        ),
    }
}

// ---- the operations ----

/// What an operation does with the overrides that a reply brings.
pub open spec fn overrides_in(rows: Seq<RowV>) -> Result<Seq<JsonV>, Seq<char>> {
    records(Shape::Override, rows)
}

/// What an operation does with the rules that a reply brings.
pub open spec fn rules_in(rows: Seq<RowV>) -> Result<Seq<JsonV>, Seq<char>> {
    records(Shape::Rule, rows)
}

/// A step that asks for the rows of a query, provided that the project is there.
pub open spec fn with_project(
    project_id: Seq<char>,
    rows: Seq<RowV>,
    query: StatementV,
    stage: StageV,
) -> ServiceStepV {
    if first_object(rows) is None {
        fail(no_project_error(project_id))
    } else {
        ask(query, stage)
    }
}

fn given_project(project_id: &str, rows: &Vec<Row>, query: Statement, stage: Stage) -> (r:
    ServiceStep)
    ensures
        r@ == with_project(project_id@, rows_view(rows@), query@, stage@),
{
    match project_in(rows) {
        None => failing(no_project(project_id)),
        Some(_) => asking(query, stage),
    }
}

/// The step of a `prepare` or a `status` after rows.
pub open spec fn prepare_rows(stage: StageV, rows: Seq<RowV>, now: Seq<char>) -> ServiceStepV {
    match stage {
        StageV::PrepareProject(job, checklist) => prepare_project(
            job,
            checklist,
            first_object(rows),
            now,
        ),
        StageV::PrepareConflicts(job, checklist, current) => match overrides_in(
            rows,
        ) {
            Err(e) => escape(e),
            Ok(list) => prepare_conflicts(job, checklist, current, list, now),
        },
        StageV::PrepareActive(job, checklist, current) => match overrides_in(
            rows,
        ) {
            Err(e) => escape(e),
            Ok(list) => prepare_decide(job, checklist, Some(current), list, now),
        },
        StageV::PrepareRecheck(r) => prepare_replace(
            r,
            first_object(rows),
            now,
        ),
        StageV::StatusProject(project_id, checklist) => match first_object(
            rows,
        ) {
            None => end(status_value(project_id, checklist, None, Seq::empty())),
            Some(current) => ask(
                overrides_query(project_id, contested()),
                StageV::StatusOverrides(project_id, checklist, current),
            ),
        },
        StageV::StatusOverrides(project_id, checklist, current) => match overrides_in(
            rows,
        ) {
            Err(e) => escape(e),
            Ok(list) => end(status_value(project_id, checklist, Some(current), list)),
        },
        _ => escape(misplaced()),
    }
}

/// The step of reading projects, rules or a selection after rows.
pub open spec fn knowledge_rows(stage: StageV, rows: Seq<RowV>, now: Seq<char>) -> ServiceStepV {
    match stage {
        StageV::ShowProject(project_id) => match first_object(rows) {
            None => fail(no_project_error(project_id)),
            Some(project) => end(dropped(project, "description_json"@)),
        },
        StageV::Description(project_id) => match first_object(rows) {
            None => fail(no_project_error(project_id)),
            Some(project) => match stored_description(project) {
                Err(e) => escape(e),
                Ok(v) => end(v),
            },
        },
        StageV::Projects => match records(Shape::Plain, rows) {
            Err(e) => escape(e),
            Ok(list) => end(JsonV::Array(stripped(list, "description_json"@))),
        },
        StageV::RulesProject(project_id) => with_project(
            project_id,
            rows,
            rules_query(project_id),
            StageV::Rules,
        ),
        StageV::Rules => match rules_in(rows) {
            Err(e) => escape(e),
            Ok(list) => end(
                JsonV::Array(stripped(stripped(list, "content"@), "source_rule_hash"@)),
            ),
        },
        StageV::SearchProject(project_id, query) => if first_object(
            rows,
        ) is None {
            fail(no_project_error(project_id))
        } else if query.len() == 0 {
            fail(empty_error("query"@, "query must not be empty"@))
        } else {
            ask(search_query(project_id, query), StageV::SearchRules(query))
        },
        StageV::SearchRules(query) => match rules_in(rows) {
            Err(e) => escape(e),
            Ok(list) => end(JsonV::Array(mentioning(list, query))),
        },
        StageV::SelectProject(s) => select_project(s, first_object(rows)),
        StageV::SelectAvailable(s) => match rules_in(rows) {
            Err(e) => escape(e),
            Ok(list) => select_available(s, list),
        },
        StageV::SelectRules(s) => match rules_in(rows) {
            Err(e) => escape(e),
            Ok(list) => ask(
                overrides_query(s.project_id, counting()),
                StageV::SelectOverrides(s, picked(list, s.keys)),
            ),
        },
        StageV::SelectOverrides(s, rules) => match overrides_in(rows) {
            Err(e) => escape(e),
            Ok(list) => end(selection_value(s, rules, list)),
        },
        _ => escape(misplaced()),
    }
}

/// The step of an operation on overrides after rows.
pub open spec fn override_rows(stage: StageV, rows: Seq<RowV>, now: Seq<char>) -> ServiceStepV {
    match stage {
        StageV::SetProject(job) => set_project(job, first_object(rows)),
        StageV::SetSource(job) => set_source(job, first_text(rows), now),
        StageV::UnsetProject(job) => unset_project(job, first_object(rows)),
        StageV::UnsetFound(job) => match first_override(rows) {
            Err(e) => escape(e),
            Ok(found) => unset_found(job, found, now),
        },
        StageV::RenewProject(job) => renew_project(job, first_object(rows)),
        StageV::RenewRules(job, base, name) => match rules_in(rows) {
            Err(e) => escape(e),
            Ok(list) => ask(
                overrides_query(job.project_id, counting()),
                StageV::RenewOverrides(
                    job,
                    ChecklistV { rules: stored_rules(list), ..base },
                    name,
                ),
            ),
        },
        StageV::RenewOverrides(job, source, name) => match overrides_in(rows) {
            Err(e) => escape(e),
            Ok(list) => renew_description(job, source, name, list, now),
        },
        StageV::ResolveProject(job) => resolve_project(
            job,
            first_object(rows),
        ),
        StageV::ResolveFound(job, name, hash) => match first_override(rows) {
            Err(e) => escape(e),
            Ok(found) => resolve_found(job, name, hash, found, now),
        },
        StageV::OverridesProject(project_id) => with_project(
            project_id,
            rows,
            overrides_query(project_id, Seq::empty()),
            StageV::Overrides,
        ),
        StageV::Overrides => end_records(overrides_in(rows)),
        StageV::ShowOverrideProject(project_id, key) => with_project(
            project_id,
            rows,
            override_query(project_id, key),
            StageV::ShowOverride(project_id, key),
        ),
        StageV::ShowOverride(project_id, key) => match first_override(rows) {
            Err(e) => escape(e),
            Ok(None) => fail(missing_error("override not found: "@, project_id, key)),
            Ok(Some(found)) => ask(
                keyed_rules_query(project_id, seq![key]),
                StageV::ShowSource(key, found),
            ),
        },
        StageV::ShowSource(key, found) => match rules_in(rows) {
            Err(e) => escape(e),
            Ok(list) => end(override_value_shown(picked(list, seq![key]), found)),
        },
        _ => escape(misplaced()),
    }
}

/// The step of an operation on the database as such after rows.
pub open spec fn database_rows(stage: StageV, rows: Seq<RowV>, now: Seq<char>) -> ServiceStepV {
    match stage {
        StageV::InfoProjects(path, source) => match records(
            Shape::Plain,
            rows,
        ) {
            Err(e) => escape(e),
            Ok(list) => ask(
                schema_query(),
                StageV::InfoVersion(
                    path,
                    source,
                    list.len() as int,
                    rules_total(list, list.len() as int),
                ),
            ),
        },
        StageV::InfoVersion(path, source, projects, rules) => match first_integer(
            rows,
        ) {
            None => escape(no_integer(rows)),
            Some(version) => end(info_value(path, source, projects, rules, version)),
        },
        StageV::Check => match findings(rows) {
            Err(e) => escape(e),
            Ok(list) => end(detail("integrity"@, texts(list))),
        },
        StageV::View(view, query, limit) => match matching_upto(
            view,
            rows,
            rows.len() as int,
            folded(query),
            limit,
        ) {
            Err(e) => escape(e),
            Ok(list) => end(view_value(view, list)),
        },
        StageV::Schema => match first_integer(rows) {
            None => escape(no_integer(rows)),
            Some(version) => end(detail("schema_version"@, JsonV::Int(version))),
        },
        _ => escape(misplaced()),
    }
}

/// The step after rows.
pub open spec fn rows_next(stage: StageV, rows: Seq<RowV>, now: Seq<char>) -> ServiceStepV {
    match stage {
        StageV::PrepareProject(..)
        | StageV::PrepareConflicts(..)
        | StageV::PrepareActive(..)
        | StageV::PrepareRecheck(..)
        | StageV::StatusProject(..)
        | StageV::StatusOverrides(..) => prepare_rows(stage, rows, now),
        StageV::ShowProject(..)
        | StageV::Description(..)
        | StageV::Projects
        | StageV::RulesProject(..)
        | StageV::Rules
        | StageV::SearchProject(..)
        | StageV::SearchRules(..)
        | StageV::SelectProject(..)
        | StageV::SelectAvailable(..)
        | StageV::SelectRules(..)
        | StageV::SelectOverrides(..) => knowledge_rows(stage, rows, now),
        StageV::InfoProjects(..)
        | StageV::InfoVersion(..)
        | StageV::Check
        | StageV::View(..)
        | StageV::Schema => database_rows(stage, rows, now),
        _ => override_rows(stage, rows, now),
    }
}

/// The step after something has been done.
pub open spec fn done_next(stage: StageV) -> ServiceStepV {
    match stage {
        StageV::PrepareMarked(project_id, keys) => fail(
            conflict_error(project_id, keys),
        ),
        StageV::PrepareWritten(value) => end(value),
        StageV::Snapshot(s) => ask(
            project_query(s.project_id),
            StageV::SelectProject(s),
        ),
        StageV::RenewWritten(job) => ask(
            project_query(job.project_id),
            StageV::RenewProject(job),
        ),
        StageV::Completed(value) => end(value),
        StageV::ResolveWritten(job, name) => prepare_start(completing(job, name)),
        _ => escape(misplaced()),
    }
}

/// The step after a file has been read.
pub open spec fn file_next(stage: StageV, f: Option<Seq<u8>>) -> ServiceStepV {
    match stage {
        StageV::PrepareRead(job) => prepare_read(job, f),
        StageV::StatusRead(project_id, path) => match checklist_of(path, f) {
            Err(e) => fail(e),
            Ok(checklist) => ask(
                project_query(project_id),
                StageV::StatusProject(project_id, checklist),
            ),
        },
        StageV::ResolveRead(job, name) => resolve_read(job, name, f),
        _ => escape(misplaced()),
    }
}

/// The step after a failure of the database at `db`.
pub open spec fn failed_next(db: Seq<char>, stage: StageV, f: FailureV, now: Seq<char>) -> ServiceStepV {
    match stage {
        StageV::PrepareWritten(_) => fail(write_error(f, db)),
        StageV::SetSource(job) => set_source(job, None, now),
        _ => escape(f.text),
    }
}

/// The next step of an operation in the database at `db`, after `reply`, at the time `now`.
pub open spec fn next(
    db: Seq<char>,
    stage: StageV,
    reply: ReplyV,
    now: Seq<char>,
) -> ServiceStepV {
    match reply {
        ReplyV::Rows(rows) => rows_next(stage, rows, now),
        ReplyV::Done => done_next(stage),
        ReplyV::File(f) => file_next(stage, f),
        ReplyV::Failed(f) => failed_next(db, stage, f, now),
        _ => escape(misplaced()),
    }
}

/// Whether what an operation waited for is a project row that holds the description `d`, to be
/// handed out.
pub open spec fn brings_back(stage: StageV, rows: Seq<RowV>, d: JsonV) -> bool {
    stage is Description && (first_object(rows) matches Some(p) && holds_description(p, d))
}

/// The absolute form of a path that was given: its `~` is expanded before it is resolved.
pub open spec fn given_path(path: Seq<char>, home: Option<Seq<char>>, cwd: Seq<char>) -> Seq<char> {
    resolved(expanded(path, home), home, cwd)
}

/// The knowledge service of one database.
#[derive(Debug)]
pub struct KnowledgeService {
    pub repository: Repository,
    /// The home directory, where there is one.
    pub home: Option<String>,
    /// The working directory.
    pub cwd: String,
}

impl KnowledgeService {
    pub fn new(repository: Repository, home: Option<String>, cwd: String) -> (r: KnowledgeService)
        ensures
            r == (KnowledgeService { repository, home, cwd }),
    {
        KnowledgeService { repository, home, cwd }
    }

    /// The absolute form of a path that was given.
    pub open spec fn located(&self, path: Seq<char>) -> Seq<char> {
        given_path(path, optional_text(self.home), self.cwd@)
    }

    fn locate(&self, path: &str) -> (r: String)
        ensures
            r@ == self.located(path@),
    {
        let home = match &self.home {
            Some(h) => Some(h.as_str()),
            None => None,
        };
        lexpath_resolve(expanduser(path, home).as_str(), home, self.cwd.as_str())
    }

    /// Brings the stored knowledge of a project up to the checklist. With `force` it is written
    /// anew even where nothing changed.
    pub fn prepare(
        &self,
        project_id: &str,
        project_name: &str,
        checklist_path: &str,
        force: bool,
    ) -> (r: ServiceStep)
        ensures
            r@ == prepare_start(
                PrepareJobV {
                    project_id: project_id@,
                    project_name: project_name@,
                    path: self.located(checklist_path@),
                    force,
                    completes: None,
                },
            ),
    {
        start_prepare(
            PrepareJob {
                project_id: project_id.to_string(),
                project_name: project_name.to_string(),
                path: self.locate(checklist_path),
                force,
                completes: None,
            },
        )
    }

    /// [`KnowledgeService::prepare`] without force.
    pub fn sync(&self, project_id: &str, project_name: &str, checklist_path: &str) -> (r:
        ServiceStep)
        ensures
            r@ == prepare_start(
                PrepareJobV {
                    project_id: project_id@,
                    project_name: project_name@,
                    path: self.located(checklist_path@),
                    force: false,
                    completes: None,
                },
            ),
    {
        self.prepare(project_id, project_name, checklist_path, false)
    }

    /// [`KnowledgeService::prepare`] with force.
    pub fn rebuild(&self, project_id: &str, project_name: &str, checklist_path: &str) -> (r:
        ServiceStep)
        ensures
            r@ == prepare_start(
                PrepareJobV {
                    project_id: project_id@,
                    project_name: project_name@,
                    path: self.located(checklist_path@),
                    force: true,
                    completes: None,
                },
            ),
    {
        self.prepare(project_id, project_name, checklist_path, true)
    }

    /// How a checklist stands to the stored knowledge. Nothing is written. The path is taken as
    /// it was given.
    pub fn status(&self, project_id: &str, checklist_path: &str) -> (r: ServiceStep)
        ensures
            r@ == (match required_fault(project_id@, "project_id"@) {
                Some(e) => fail(e),
                None => StepV::Ask(
                    RequestV::ReadFile(checklist_path@),
                    StageV::StatusRead(project_id@, checklist_path@),
                ),
            }),
    {
        if let Some(e) = required(project_id, "project_id") {
            return failing(e);
        }
        Step::Ask(
            Request::ReadFile(checklist_path.to_string()),
            Stage::StatusRead(project_id.to_string(), checklist_path.to_string()),
        )
    }

    /// A project without its description.
    pub fn show_project(&self, project_id: &str) -> (r: ServiceStep)
        ensures
            r@ == ask(project_query(project_id@), StageV::ShowProject(project_id@)),
    {
        asking(
            self.repository.get_project(project_id),
            Stage::ShowProject(project_id.to_string()),
        )
    }

    /// All projects without their descriptions.
    pub fn list_projects(&self) -> (r: ServiceStep)
        ensures
            r@ == ask(projects_query(), StageV::Projects),
    {
        asking(self.repository.list_projects(), Stage::Projects)
    }

    /// The description of a project.
    pub fn get_description(&self, project_id: &str) -> (r: ServiceStep)
        ensures
            r@ == ask(project_query(project_id@), StageV::Description(project_id@)),
    {
        asking(
            self.repository.get_project(project_id),
            Stage::Description(project_id.to_string()),
        )
    }

    /// The rules of a project without content and source hash.
    pub fn list_rules(&self, project_id: &str) -> (r: ServiceStep)
        ensures
            r@ == ask(project_query(project_id@), StageV::RulesProject(project_id@)),
    {
        asking(
            self.repository.get_project(project_id),
            Stage::RulesProject(project_id.to_string()),
        )
    }

    /// The rules of a project that hold `query` somewhere.
    pub fn search_rules(&self, project_id: &str, query: &str) -> (r: ServiceStep)
        ensures
            r@ == ask(project_query(project_id@), StageV::SearchProject(project_id@, query@)),
    {
        asking(
            self.repository.get_project(project_id),
            Stage::SearchProject(project_id.to_string(), query.to_string()),
        )
    }

    /// The selected rules, with the active overrides applied.
    pub fn get_selected_rules(&self, payload: &Json) -> (r: ServiceStep)
        ensures
            r@ == select_start(payload@),
    {
        match validate_selection(payload) {
            Ok(s) => Step::Ask(Request::BeginRead, Stage::Snapshot(s)),
            Err(SelectionError::Envelope(errors)) => failing(
                ReviewKBError::new(
                    ErrorCode::InvalidSelection,
                    "invalid rule selection".to_string(),
                    object1("validation_errors", Json::Array(errors)),
                ),
            ),
            Err(SelectionError::Raw) => escaping("selection payload failed value validation"),
        }
    }

    /// Sets an override of a rule.
    pub fn set_override(
        &self,
        project_id: &str,
        rule_key: &str,
        fields: Vec<(String, Json)>,
        reason: &str,
    ) -> (r: ServiceStep)
        ensures
            r@ == ask(
                project_query(project_id@),
                StageV::SetProject(
                    OverrideJobV {
                        project_id: project_id@,
                        key: rule_key@,
                        fields: JsonV::Object(entries_view(fields@)),
                        reason: reason@,
                    },
                ),
            ),
    {
        asking(
            self.repository.get_project(project_id),
            Stage::SetProject(
                OverrideJob {
                    project_id: project_id.to_string(),
                    key: rule_key.to_string(),
                    fields: Json::Object(fields),
                    reason: reason.to_string(),
                },
            ),
        )
    }

    /// The overrides of a project, whatever their status.
    pub fn list_overrides(&self, project_id: &str) -> (r: ServiceStep)
        ensures
            r@ == ask(project_query(project_id@), StageV::OverridesProject(project_id@)),
    {
        asking(
            self.repository.get_project(project_id),
            Stage::OverridesProject(project_id.to_string()),
        )
    }

    /// An override beside its source rule.
    pub fn show_override(&self, project_id: &str, rule_key: &str) -> (r: ServiceStep)
        ensures
            r@ == ask(
                project_query(project_id@),
                StageV::ShowOverrideProject(project_id@, rule_key@),
            ),
    {
        asking(
            self.repository.get_project(project_id),
            Stage::ShowOverrideProject(project_id.to_string(), rule_key.to_string()),
        )
    }

    /// Disables an override.
    pub fn unset_override(&self, project_id: &str, rule_key: &str, reason: &str) -> (r: ServiceStep)
        ensures
            r@ == ask(
                project_query(project_id@),
                StageV::UnsetProject(
                    OverrideJobV {
                        project_id: project_id@,
                        key: rule_key@,
                        fields: JsonV::Object(Seq::empty()),
                        reason: reason@,
                    },
                ),
            ),
    {
        asking(
            self.repository.get_project(project_id),
            Stage::UnsetProject(
                OverrideJob {
                    project_id: project_id.to_string(),
                    key: rule_key.to_string(),
                    fields: Json::object(),
                    reason: reason.to_string(),
                },
            ),
        )
    }

    /// Resolves a conflict between an override and a changed source rule, then prepares the
    /// project.
    pub fn resolve_override(
        &self,
        project_id: &str,
        rule_key: &str,
        strategy: &str,
        checklist_path: &str,
        reason: &str,
    ) -> (r: ServiceStep)
        ensures
            r@ == ask(
                project_query(project_id@),
                StageV::ResolveProject(
                    ResolveJobV {
                        project_id: project_id@,
                        key: rule_key@,
                        strategy: strategy@,
                        reason: reason@,
                        given_path: checklist_path@,
                        path: self.located(checklist_path@),
                    },
                ),
            ),
    {
        asking(
            self.repository.get_project(project_id),
            Stage::ResolveProject(
                ResolveJob {
                    project_id: project_id.to_string(),
                    key: rule_key.to_string(),
                    strategy: strategy.to_string(),
                    reason: reason.to_string(),
                    given_path: checklist_path.to_string(),
                    path: self.locate(checklist_path),
                },
            ),
        )
    }

    /// What the database holds, beside its path and where the path comes from.
    pub fn info(&self, path: &str, source: &str) -> (r: ServiceStep)
        ensures
            r@ == ask(projects_query(), StageV::InfoProjects(path@, source@)),
    {
        asking(
            self.repository.list_projects(),
            Stage::InfoProjects(path.to_string(), source.to_string()),
        )
    }

    /// The findings of the integrity check.
    pub fn check(&self) -> (r: ServiceStep)
        ensures
            r@ == ask(integrity_query(), StageV::Check),
    {
        asking(self.repository.integrity_check(), Stage::Check)
    }

    /// The schema version of the database.
    pub fn schema(&self) -> (r: ServiceStep)
        ensures
            r@ == ask(schema_query(), StageV::Schema),
    {
        asking(self.repository.schema_version(), Stage::Schema)
    }

    /// The rows of a view that hold `query` somewhere, at most `limit` of them.
    pub fn view(
        &self,
        view: &str,
        project_id: &Option<String>,
        query: &Option<String>,
        limit: i64,
    ) -> (r: ServiceStep)
        ensures
            r@ == (match view_query(view@, optional_text(*project_id), limit as int) {
                Err(e) => fail(e),
                Ok(statement) => ask(
                    statement,
                    StageV::View(view@, optional_text(*query), limit as int),
                ),
            }),
    {
        match self.repository.query_view(view, project_id, limit) {
            Err(e) => failing(e),
            Ok(statement) => {
                let query = match query {
                    Some(t) => Some(t.clone()),
                    None => None,
                };
                asking(statement, Stage::View(view.to_string(), query, limit as usize))
            },
        }
    }

    fn after_prepare_rows(&self, stage: Stage, rows: &Vec<Row>, now: &str) -> (r: ServiceStep)
        ensures
            r@ == prepare_rows(stage@, rows_view(rows@), now@),
    {
        let repository = &self.repository;
        match stage {
            Stage::PrepareProject(job, checklist) => after_project(
                repository,
                job,
                checklist,
                project_in(rows),
                now,
            ),
            Stage::PrepareConflicts(job, checklist, current) => match read_records(
                Shape::Override,
                rows,
            ) {
                Err(e) => escaping(e.as_str()),
                Ok(list) => after_contested(repository, job, checklist, current, &list, now),
            },
            Stage::PrepareActive(job, checklist, current) => match read_records(
                Shape::Override,
                rows,
            ) {
                Err(e) => escaping(e.as_str()),
                Ok(list) => decide(repository, job, checklist, &Some(current), &list, now),
            },
            Stage::PrepareRecheck(r) => replace(
                repository,
                r,
                &project_in(rows),
                now,
            ),
            Stage::StatusProject(project_id, checklist) => match project_in(
                rows,
            ) {
                None => {
                    let none: Vec<Json> = Vec::new();
                    assert(items_view(none@) =~= Seq::empty());
                    Step::Done(Ok(status_of(project_id.as_str(), &checklist, &None, &none)))
                },
                Some(current) => {
                    let query = repository.list_overrides(
                        project_id.as_str(),
                        &contested_statuses(),
                    );
                    asking(query, Stage::StatusOverrides(project_id, checklist, current))
                },
            },
            Stage::StatusOverrides(project_id, checklist, current) => match read_records(
                Shape::Override,
                rows,
            ) {
                Err(e) => escaping(e.as_str()),
                Ok(list) => Step::Done(
                    Ok(status_of(project_id.as_str(), &checklist, &Some(current), &list)),
                ),
            },
            _ => escaping("unexpected reply"),
        }
    }

    fn after_knowledge_rows(&self, stage: Stage, rows: &Vec<Row>, now: &str) -> (r: ServiceStep)
        ensures
            r@ == knowledge_rows(stage@, rows_view(rows@), now@),
            forall|d: JsonV| #[trigger]
                brings_back(stage@, rows_view(rows@), d) ==> r@ == end(sorted(d)),
    {
        let repository = &self.repository;
        match stage {
            Stage::ShowProject(project_id) => match project_in(rows) {
                None => failing(no_project(project_id.as_str())),
                Some(project) => Step::Done(Ok(project.dropping("description_json"))),
            },
            Stage::Description(project_id) => match project_in(rows) {
                None => failing(no_project(project_id.as_str())),
                Some(project) => match description_in(&project) {
                    Err(e) => escaping(e.as_str()),
                    Ok(v) => Step::Done(Ok(v)),
                },
            },
            Stage::Projects => match read_records(Shape::Plain, rows) {
                Err(e) => escaping(e.as_str()),
                Ok(list) => Step::Done(Ok(Json::Array(strip(&list, "description_json")))),
            },
            Stage::RulesProject(project_id) => {
                let query = repository.list_rules(project_id.as_str());
                given_project(project_id.as_str(), rows, query, Stage::Rules)
            },
            Stage::Rules => match read_records(Shape::Rule, rows) {
                Err(e) => escaping(e.as_str()),
                Ok(list) => Step::Done(
                    Ok(Json::Array(strip(&strip(&list, "content"), "source_rule_hash"))),
                ),
            },
            Stage::SearchProject(project_id, query) => {
                if project_in(rows).is_none() {
                    return failing(no_project(project_id.as_str()));
                }
                proof {
                    reveal_strlit("");
                    assert(query@.len() == 0 ==> query@ =~= ""@);
                }
                if same(query.as_str(), "") {
                    return failing(empty("query", "query must not be empty".to_string()));
                }
                asking(
                    repository.search_rules(project_id.as_str(), query.as_str()),
                    Stage::SearchRules(query),
                )
            },
            Stage::SearchRules(query) => match read_records(Shape::Rule, rows) {
                Err(e) => escaping(e.as_str()),
                Ok(list) => Step::Done(
                    Ok(Json::Array(mentioning_rules(list, query.as_str()))),
                ),
            },
            Stage::SelectProject(s) => after_select_project(
                repository,
                s,
                project_in(rows),
            ),
            Stage::SelectAvailable(s) => match read_records(
                Shape::Rule,
                rows,
            ) {
                Err(e) => escaping(e.as_str()),
                Ok(list) => after_available(repository, s, &list),
            },
            Stage::SelectRules(s) => match read_records(Shape::Rule, rows) {
                Err(e) => escaping(e.as_str()),
                Ok(list) => {
                    let rules = pick(&list, &s.keys);
                    let query = repository.list_overrides(
                        s.project_id.as_str(),
                        &counting_statuses(),
                    );
                    asking(query, Stage::SelectOverrides(s, rules))
                },
            },
            Stage::SelectOverrides(s, rules) => match read_records(
                Shape::Override,
                rows,
            ) {
                Err(e) => escaping(e.as_str()),
                Ok(list) => Step::Done(Ok(selected(&s, &rules, &list))),
            },
            _ => escaping("unexpected reply"),
        }
    }

    fn after_override_rows(&self, stage: Stage, rows: &Vec<Row>, now: &str) -> (r: ServiceStep)
        ensures
            r@ == override_rows(stage@, rows_view(rows@), now@),
    {
        let repository = &self.repository;
        match stage {
            Stage::SetProject(job) => after_set_project(
                repository,
                job,
                &project_in(rows),
            ),
            Stage::SetSource(job) => after_source(
                repository,
                job,
                &text_in(rows),
                now,
            ),
            Stage::UnsetProject(job) => after_unset_project(
                repository,
                job,
                &project_in(rows),
            ),
            Stage::UnsetFound(job) => match override_in(rows) {
                Err(e) => escaping(e.as_str()),
                Ok(found) => after_unset_found(repository, job, &found, now),
            },
            Stage::RenewProject(job) => after_renew_project(
                repository,
                job,
                project_in(rows),
            ),
            Stage::RenewRules(job, base, name) => match read_records(
                Shape::Rule,
                rows,
            ) {
                Err(e) => escaping(e.as_str()),
                Ok(list) => {
                    let source = Checklist {
                        schema_version: base.schema_version,
                        checklist_version: base.checklist_version,
                        global_description: base.global_description,
                        content_hash: base.content_hash,
                        rules: rules_of(&list),
                    };
                    let query = repository.list_overrides(
                        job.project_id.as_str(),
                        &counting_statuses(),
                    );
                    asking(query, Stage::RenewOverrides(job, source, name))
                },
            },
            Stage::RenewOverrides(job, source, name) => match read_records(
                Shape::Override,
                rows,
            ) {
                Err(e) => escaping(e.as_str()),
                Ok(list) => after_renew_overrides(
                    repository,
                    &job,
                    &source,
                    name.as_str(),
                    &list,
                    now,
                ),
            },
            Stage::ResolveProject(job) => after_resolve_project(
                job,
                project_in(rows),
            ),
            Stage::ResolveFound(job, name, hash) => match override_in(rows) {
                Err(e) => escaping(e.as_str()),
                Ok(found) => after_resolve_found(repository, job, name, &hash, &found, now),
            },
            Stage::OverridesProject(project_id) => {
                let all: Vec<String> = Vec::new();
                assert(strings(all@) =~= Seq::empty());
                let query = repository.list_overrides(project_id.as_str(), &all);
                given_project(project_id.as_str(), rows, query, Stage::Overrides)
            },
            Stage::Overrides => ending(read_records(Shape::Override, rows)),
            Stage::ShowOverrideProject(project_id, key) => {
                let query = repository.get_override(project_id.as_str(), key.as_str());
                given_project(
                    project_id.clone().as_str(),
                    rows,
                    query,
                    Stage::ShowOverride(project_id, key),
                )
            },
            Stage::ShowOverride(project_id, key) => match override_in(rows) {
                Err(e) => escaping(e.as_str()),
                Ok(None) => failing(
                    missing("override not found: ", project_id.as_str(), key.as_str()),
                ),
                Ok(Some(found)) => {
                    let query = repository.get_rules(project_id.as_str(), &one(key.as_str()));
                    asking(query, Stage::ShowSource(key, found))
                },
            },
            Stage::ShowSource(key, found) => match read_records(
                Shape::Rule,
                rows,
            ) {
                Err(e) => escaping(e.as_str()),
                Ok(list) => {
                    let source = pick(&list, &one(key.as_str()));
                    Step::Done(Ok(override_shown(&source, found)))
                },
            },
            _ => escaping("unexpected reply"),
        }
    }

    fn after_database_rows(&self, stage: Stage, rows: &Vec<Row>, now: &str) -> (r: ServiceStep)
        ensures
            r@ == database_rows(stage@, rows_view(rows@), now@),
    {
        let repository = &self.repository;
        match stage {
            Stage::InfoProjects(path, source) => match read_records(
                Shape::Plain,
                rows,
            ) {
                Err(e) => escaping(e.as_str()),
                Ok(list) => {
                    let rules = count_rules(&list);
                    asking(
                        repository.schema_version(),
                        Stage::InfoVersion(path, source, list.len(), rules),
                    )
                },
            },
            Stage::InfoVersion(path, source, projects, rules) => match integer_in(
                rows,
            ) {
                None => escaping(no_integer_in(rows).as_str()),
                Some(version) => Step::Done(
                    Ok(
                        Json::object().with("db_path", Json::text(path.as_str())).with(
                            "path_source",
                            Json::text(source.as_str()),
                        ).with("project_count", crate::models::index_value(projects)).with(
                            "rule_count",
                            Json::Int(rules),
                        ).with("schema_version", Json::Int(version)),
                    ),
                ),
            },
            Stage::Check => match read_findings(rows) {
                Err(e) => escaping(e.as_str()),
                Ok(list) => Step::Done(Ok(object1("integrity", Json::texts(&list)))),
            },
            Stage::View(view, query, limit) => view_rows(
                view.as_str(),
                rows,
                &query,
                limit,
            ),
            Stage::Schema => match integer_in(rows) {
                None => escaping(no_integer_in(rows).as_str()),
                Some(version) => Step::Done(Ok(object1("schema_version", Json::Int(version)))),
            },
            _ => escaping("unexpected reply"),
        }
    }

    fn after_rows(&self, stage: Stage, rows: &Vec<Row>, now: &str) -> (r: ServiceStep)
        ensures
            r@ == rows_next(stage@, rows_view(rows@), now@),
            forall|d: JsonV| #[trigger]
                brings_back(stage@, rows_view(rows@), d) ==> r@ == end(sorted(d)),
    {
        match stage {
            Stage::PrepareProject(..)
            | Stage::PrepareConflicts(..)
            | Stage::PrepareActive(..)
            | Stage::PrepareRecheck(..)
            | Stage::StatusProject(..)
            | Stage::StatusOverrides(..) => self.after_prepare_rows(stage, rows, now),
            Stage::ShowProject(..)
            | Stage::Description(..)
            | Stage::Projects
            | Stage::RulesProject(..)
            | Stage::Rules
            | Stage::SearchProject(..)
            | Stage::SearchRules(..)
            | Stage::SelectProject(..)
            | Stage::SelectAvailable(..)
            | Stage::SelectRules(..)
            | Stage::SelectOverrides(..) => self.after_knowledge_rows(stage, rows, now),
            Stage::InfoProjects(..)
            | Stage::InfoVersion(..)
            | Stage::Check
            | Stage::View(..)
            | Stage::Schema => self.after_database_rows(stage, rows, now),
            _ => self.after_override_rows(stage, rows, now),
        }
    }

    fn after_done(&self, stage: Stage) -> (r: ServiceStep)
        ensures
            r@ == done_next(stage@),
    {
        let repository = &self.repository;
        match stage {
            Stage::PrepareMarked(project_id, keys) => failing(
                conflicting(project_id.as_str(), &keys),
            ),
            Stage::PrepareWritten(value) => Step::Done(Ok(value)),
            Stage::Snapshot(s) => {
                let query = repository.get_project(s.project_id.as_str());
                asking(query, Stage::SelectProject(s))
            },
            Stage::RenewWritten(job) => {
                let query = repository.get_project(job.project_id.as_str());
                asking(query, Stage::RenewProject(job))
            },
            Stage::Completed(value) => Step::Done(Ok(value)),
            Stage::ResolveWritten(job, name) => start_prepare(
                PrepareJob {
                    project_id: job.project_id,
                    project_name: name,
                    path: job.path,
                    force: false,
                    completes: Some((job.key, job.strategy)),
                },
            ),
            _ => escaping("unexpected reply"),
        }
    }

    fn after_file(&self, stage: Stage, f: &Option<Vec<u8>>) -> (r: ServiceStep)
        ensures
            r@ == file_next(stage@, file_view(*f)),
    {
        let repository = &self.repository;
        match stage {
            Stage::PrepareRead(job) => after_checklist(repository, job, f),
            Stage::StatusRead(project_id, path) => match read_checklist(
                path.as_str(),
                f,
            ) {
                Err(e) => failing(e),
                Ok(checklist) => {
                    let query = repository.get_project(project_id.as_str());
                    asking(query, Stage::StatusProject(project_id, checklist))
                },
            },
            Stage::ResolveRead(job, name) => after_resolve_read(
                repository,
                job,
                name,
                f,
            ),
            _ => escaping("unexpected reply"),
        }
    }

    fn after_failure(&self, stage: Stage, f: &Failure, now: &str) -> (r: ServiceStep)
        ensures
            r@ == failed_next(self.repository.path@, stage@, f@, now@),
    {
        let repository = &self.repository;
        match stage {
            Stage::PrepareWritten(_) => failing(
                write_failure(f, repository.path.as_str()),
            ),
            Stage::SetSource(job) => after_source(repository, job, &None, now),
            _ => escaping(f.text.as_str()),
        }
    }

    /// Goes on with an operation: what it waited for is `reply`, the time is `now`. Asking for the
    /// description of a project gives back the one that was stored.
    pub fn resume(&self, stage: Stage, reply: Reply, now: &str) -> (r: ServiceStep)
        ensures
            r@ == next(self.repository.path@, stage@, reply@, now@),
            forall|rows: Seq<RowV>, d: JsonV|
                reply@ == ReplyV::Rows(rows) && #[trigger] brings_back(stage@, rows, d) ==> r@ == end(
                    sorted(d),
                ),
    {
        match reply {
            Reply::Rows(rows) => self.after_rows(stage, &rows, now),
            Reply::Done => self.after_done(stage),
            Reply::File(f) => self.after_file(stage, &f),
            Reply::Failed(f) => self.after_failure(stage, &f, now),
            _ => escaping("unexpected reply"),
        }
    }
}

} // verus!
