//! Command-line interface: the commands, their input, and what the program prints.

use vstd::prelude::*;

use crate::errors::{and_detail, detail, error_value, ErrorCode, ErrorV, ReviewKBError};
use crate::json::{
    entries_view, field, get_str, items_view, text_field, texts, without, Entries, Json, JsonV,
};
use crate::json_parse::{json_document, parse_json};
use crate::json_util::{canonical, canonical_json};
use crate::path_util::optional_text;
use crate::service::{ServiceError, ServiceErrorV};
use crate::text::{same, strings};

verus! {

broadcast use crate::json::group_json;

/// The command line.
#[derive(Debug)]
pub struct Cli {
    /// Database path given with `--db`.
    pub db: Option<String>,
    pub command: TopCommand,
}

#[derive(Debug)]
pub enum TopCommand {
    Prepare(PrepareArgs),
    Status(StatusArgs),
    Sync(PrepareArgs),
    Rebuild(PrepareArgs),
    Description(DescriptionArgs),
    Projects(ProjectsArgs),
    Rules(RulesArgs),
    Overrides(OverridesArgs),
    Db(DbArgs),
    Config(ConfigArgs),
}

#[derive(Debug)]
pub struct PrepareArgs {
    pub project_id: String,
    pub project_name: String,
    pub checklist: String,
}

#[derive(Debug)]
pub struct StatusArgs {
    pub project_id: String,
    pub checklist: String,
}

#[derive(Debug)]
pub struct DescriptionArgs {
    pub command: DescriptionCommand,
}

#[derive(Debug)]
pub enum DescriptionCommand {
    Get { project_id: String },
}

#[derive(Debug)]
pub struct ProjectsArgs {
    pub command: ProjectsCommand,
}

#[derive(Debug)]
pub enum ProjectsCommand {
    List,
    Show { project_id: String },
}

#[derive(Debug)]
pub struct RulesArgs {
    pub command: RulesCommand,
}

#[derive(Debug)]
pub enum RulesCommand {
    List { project_id: String },
    /// `input` is `-` for standard input, else a file path.
    Get { input: String },
    Search { project_id: String, query: String },
}

#[derive(Debug)]
pub struct OverridesArgs {
    pub command: OverridesCommand,
}

#[derive(Debug)]
pub enum OverridesCommand {
    /// `input` is `-` for standard input, else a file path.
    Put { input: String },
    List { project_id: String },
    Show { project_id: String, key: String },
    Unset { project_id: String, key: String, reason: String },
    Resolve {
        project_id: String,
        key: String,
        strategy: String,
        checklist: String,
        reason: String,
    },
}

#[derive(Debug)]
pub struct DbArgs {
    pub command: DbCommand,
}

#[derive(Debug)]
pub enum DbCommand {
    Info,
    Check,
    Query { view: String, project_id: Option<String>, query: Option<String>, limit: i64 },
    Backup { output: String },
    Restore { input: String },
    Migrate,
}

#[derive(Debug)]
pub struct ConfigArgs {
    pub command: ConfigCommand,
}

#[derive(Debug)]
pub enum ConfigCommand {
    Show,
    Get { key: String },
    Put { key: String, value: String },
}

// ---- envelopes ----

/// What every envelope says of the command.
pub open spec fn meta_value(command: Seq<char>) -> JsonV {
    and_detail(detail("command"@, JsonV::Text(command)), "schema_version"@, JsonV::Int(1))
}

fn meta(command: &str) -> (r: Json)
    ensures
        r@ == meta_value(command@),
{
    Json::object().with("command", Json::text(command)).with("schema_version", Json::Int(1))
}

/// The envelope of a success.
pub open spec fn success_value(command: Seq<char>, data: JsonV, warnings: JsonV) -> JsonV {
    and_detail(
        and_detail(
            and_detail(detail("ok"@, JsonV::Bool(true)), "data"@, data),
            "warnings"@,
            warnings,
        ),
        "meta"@,
        meta_value(command),
    )
}

pub fn success_envelope(command: &str, data: Json, warnings: Json) -> (r: Json)
    ensures
        r@ == success_value(command@, data@, warnings@),
{
    Json::object().with("ok", Json::Bool(true)).with("data", data).with("warnings", warnings).with(
        "meta",
        meta(command),
    )
}

/// The envelope of a failure.
pub open spec fn failure_value(command: Seq<char>, e: ErrorV) -> JsonV {
    and_detail(
        and_detail(
            and_detail(detail("ok"@, JsonV::Bool(false)), "error"@, error_value(e)),
            "warnings"@,
            JsonV::Array(Seq::empty()),
        ),
        "meta"@,
        meta_value(command),
    )
}

fn no_items() -> (r: Json)
    ensures
        r@ == JsonV::Array(Seq::empty()),
{
    let none: Vec<Json> = Vec::new();
    assert(items_view(none@) =~= Seq::empty());
    Json::Array(none)
}

pub fn failure_envelope(command: &str, error: &ReviewKBError) -> (r: Json)
    ensures
        r@ == failure_value(command@, error@),
{
    Json::object().with("ok", Json::Bool(false)).with("error", error.as_value()).with(
        "warnings",
        no_items(),
    ).with("meta", meta(command))
}

/// A result, and the warnings that came in it.
pub open spec fn warnings_split(data: JsonV) -> (JsonV, JsonV) {
    match data {
        JsonV::Object(entries) => (
            JsonV::Object(without(entries, "warnings"@)),
            match field(data, "warnings"@) {
                Some(w) => w,
                None => JsonV::Array(Seq::empty()),
            },
        ),
        other => (other, JsonV::Array(Seq::empty())),
    }
}

/// Takes the warnings out of a result.
pub fn split_warnings(data: Json) -> (r: (Json, Json))
    ensures
        (r.0@, r.1@) == warnings_split(data@),
{
    let warnings = match data.get("warnings") {
        Some(w) => w.duplicate(),
        None => no_items(),
    };
    (data.dropping("warnings"), warnings)
}

// ---- outcomes ----

/// What a run of the program leaves: a line on standard output, a diagnostic on standard error,
/// the exit status.
#[derive(Debug)]
pub struct Outcome {
    pub stdout: Option<String>,
    pub stderr: Option<String>,
    pub code: i32,
}

/// What an [`Outcome`] stands for.
pub struct OutcomeV {
    pub stdout: Option<Seq<char>>,
    pub stderr: Option<Seq<char>>,
    pub code: int,
}

impl View for Outcome {
    type V = OutcomeV;

    open spec fn view(&self) -> OutcomeV {
        OutcomeV {
            stdout: optional_text(self.stdout),
            stderr: optional_text(self.stderr),
            code: self.code as int,
        }
    }
}

/// The outcome that prints an envelope.
pub open spec fn printed(envelope: JsonV, code: int) -> OutcomeV {
    OutcomeV { stdout: Some(canonical(envelope) + "\n"@), stderr: None, code }
}

fn print(envelope: &Json, code: i32) -> (r: Outcome)
    ensures
        r@ == printed(envelope@, code as int),
{
    let mut line = canonical_json(envelope);
    line.push_str("\n");
    Outcome { stdout: Some(line), stderr: None, code }
}

/// The outcome of a failure with an envelope.
pub open spec fn failed(command: Seq<char>, e: ErrorV) -> OutcomeV {
    printed(failure_value(command, e), e.code.status())
}

pub fn emit_failure(command: &str, e: &ReviewKBError) -> (r: Outcome)
    ensures
        r@ == failed(command@, e@),
{
    print(&failure_envelope(command, e), e.exit_code())
}

/// The outcome of a success whose result holds no warnings.
pub open spec fn succeeded(command: Seq<char>, data: JsonV) -> OutcomeV {
    printed(success_value(command, data, JsonV::Array(Seq::empty())), 0)
}

pub fn emit_success(command: &str, data: Json) -> (r: Outcome)
    ensures
        r@ == succeeded(command@, data@),
{
    print(&success_envelope(command, data, no_items()), 0)
}

/// The outcome of a failure without an envelope: nothing on standard output.
pub open spec fn escaped(text: Seq<char>) -> OutcomeV {
    OutcomeV { stdout: None, stderr: Some(text), code: 1 }
}

pub fn escape_with(text: &str) -> (r: Outcome)
    ensures
        r@ == escaped(text@),
{
    Outcome { stdout: None, stderr: Some(text.to_string()), code: 1 }
}

/// The outcome of an operation.
pub open spec fn finished(command: Seq<char>, result: Result<JsonV, ServiceErrorV>) -> OutcomeV {
    match result {
        Ok(v) => {
            let (data, warnings) = warnings_split(v);
            printed(success_value(command, data, warnings), 0)
        },
        Err(ServiceErrorV::Kb(e)) => failed(command, e),
        Err(ServiceErrorV::Raw(text)) => escaped(text),
    }
}

/// A result of an operation as a value of views.
pub open spec fn result_view(r: Result<Json, ServiceError>) -> Result<JsonV, ServiceErrorV> {
    match r {
        Ok(v) => Ok(v@),
        Err(e) => Err(e@),
    }
}

/// Turns the result of an operation into what the program prints and returns.
pub fn finish(command: &str, result: Result<Json, ServiceError>) -> (r: Outcome)
    ensures
        r@ == finished(command@, result_view(result)),
{
    match result {
        Ok(v) => {
            let (data, warnings) = split_warnings(v);
            print(&success_envelope(command, data, warnings), 0)
        },
        Err(ServiceError::Kb(e)) => emit_failure(command, &e),
        Err(ServiceError::Raw(text)) => escape_with(text.as_str()),
    }
}

// ---- input ----

/// The error for an input that is no JSON document.
pub open spec fn input_error(input: Seq<char>, error: Seq<char>) -> ErrorV {
    ErrorV {
        code: ErrorCode::InvalidSelection,
        message: "selection input must be one valid JSON document: "@ + error,
        details: detail("input"@, JsonV::Text(input)),
    }
}

pub fn selection_error(input: &str, error: &str) -> (r: ReviewKBError)
    ensures
        r@ == input_error(input@, error@),
{
    let mut message = "selection input must be one valid JSON document: ".to_string();
    message.push_str(error);
    ReviewKBError::new(
        ErrorCode::InvalidSelection,
        message,
        Json::object().with("input", Json::text(input)),
    )
}

/// The payload in the text of an input.
pub open spec fn payload_of(input: Seq<char>, source: Seq<char>) -> Result<JsonV, ErrorV> {
    match json_document(source) {
        Err(e) => Err(input_error(input, e)),
        Ok(v) => if v is Object {
            Ok(v)
        } else {
            Err(
                ErrorV {
                    code: ErrorCode::InvalidSelection,
                    message: "selection input must be a JSON object"@,
                    details: detail("input"@, JsonV::Text(input)),
                },
            )
        },
    }
}

/// A payload as a value of views.
pub open spec fn payload_view(r: Result<Json, ReviewKBError>) -> Result<JsonV, ErrorV> {
    match r {
        Ok(v) => Ok(v@),
        Err(e) => Err(e@),
    }
}

/// Reads the payload out of the text of an input.
pub fn read_selection(input: &str, source: &str) -> (r: Result<Json, ReviewKBError>)
    ensures
        payload_view(r) == payload_of(input@, source@),
{
    match parse_json(source) {
        Err(e) => Err(selection_error(input, e.as_str())),
        Ok(Json::Object(entries)) => Ok(Json::Object(entries)),
        Ok(_) => Err(
            ReviewKBError::new(
                ErrorCode::InvalidSelection,
                "selection input must be a JSON object".to_string(),
                Json::object().with("input", Json::text(input)),
            ),
        ),
    }
}

/// Whether a field of an override payload says which override is meant, and why.
pub open spec fn is_reserved(name: Seq<char>) -> bool {
    name == "project_id"@ || name == "key"@ || name == "reason"@
}

/// The first `n` bindings, without the reserved ones.
pub open spec fn free_upto(entries: Entries, n: int) -> Entries
    decreases n,
{
    if n <= 0 {
        Seq::empty()
    } else if is_reserved(entries[n - 1].0) {
        free_upto(entries, n - 1)
    } else {
        free_upto(entries, n - 1).push(entries[n - 1])
    }
}

/// `name`, where the payload binds it to no string.
pub open spec fn lacking(payload: JsonV, name: Seq<char>) -> Seq<Seq<char>> {
    if text_field(payload, name) is None {
        seq![name]
    } else {
        Seq::empty()
    }
}

/// The reserved fields that a payload does not bind to strings.
pub open spec fn lacking_all(payload: JsonV) -> Seq<Seq<char>> {
    lacking(payload, "project_id"@) + lacking(payload, "key"@) + lacking(payload, "reason"@)
}

/// Project, key, reason and fields of an override payload.
pub open spec fn override_parts(payload: JsonV) -> Result<
    (Seq<char>, Seq<char>, Seq<char>, Entries),
    ErrorV,
> {
    if lacking_all(payload).len() > 0 {
        Err(
            ErrorV {
                code: ErrorCode::InvalidArgument,
                message: "override input is missing required string fields"@,
                details: detail("fields"@, texts(lacking_all(payload))),
            },
        )
    } else {
        Ok(
            (
                text_field(payload, "project_id"@)->0,
                text_field(payload, "key"@)->0,
                text_field(payload, "reason"@)->0,
                free_upto(payload->Object_0, payload->Object_0.len() as int),
            ),
        )
    }
}

/// The parts of an override payload as a value of views.
pub open spec fn parts_view(
    r: Result<(String, String, String, Vec<(String, Json)>), ReviewKBError>,
) -> Result<(Seq<char>, Seq<char>, Seq<char>, Entries), ErrorV> {
    match r {
        Ok((id, key, reason, fields)) => Ok((id@, key@, reason@, entries_view(fields@))),
        Err(e) => Err(e@),
    }
}

fn note_lacking(payload: &Json, name: &str, list: &mut Vec<String>)
    ensures
        strings(final(list)@) == strings(old(list)@) + lacking(payload@, name@),
{
    if get_str(payload, name).is_none() {
        let ghost before = list@;
        list.push(name.to_string());
        assert(strings(list@) =~= strings(before) + lacking(payload@, name@));
    } else {
        assert(strings(list@) =~= strings(list@) + lacking(payload@, name@));
    }
}

fn free_fields(entries: &Vec<(String, Json)>) -> (r: Vec<(String, Json)>)
    ensures
        entries_view(r@) == free_upto(entries_view(entries@), entries@.len() as int),
{
    let ghost all = entries_view(entries@);
    let mut out: Vec<(String, Json)> = Vec::new();
    let mut i: usize = 0;
    assert(entries_view(out@) =~= Seq::empty());
    while i < entries.len()
        invariant
            all == entries_view(entries@),
            i <= entries@.len(),
            entries_view(out@) == free_upto(all, i as int),
        decreases entries@.len() - i,
    {
        let (name, value) = (&entries[i].0, &entries[i].1);
        assert(all[i as int] == (name@, value@));
        if !(same(name.as_str(), "project_id") || same(name.as_str(), "key") || same(
            name.as_str(),
            "reason",
        )) {
            let ghost before = out@;
            out.push((name.clone(), value.duplicate()));
            assert(entries_view(out@) =~= entries_view(before).push(all[i as int]));
        }
        i += 1;
    }
    out
}

/// Takes an override payload apart. What is not project, key or reason is a field.
pub fn override_input(payload: &Json) -> (r: Result<
    (String, String, String, Vec<(String, Json)>),
    ReviewKBError,
>)
    ensures
        parts_view(r) == override_parts(payload@),
{
    let mut missing: Vec<String> = Vec::new();
    note_lacking(payload, "project_id", &mut missing);
    note_lacking(payload, "key", &mut missing);
    note_lacking(payload, "reason", &mut missing);
    assert(strings(missing@) =~= lacking_all(payload@));
    if let (Some(id), Some(key), Some(reason), Json::Object(entries)) = (
        get_str(payload, "project_id"),
        get_str(payload, "key"),
        get_str(payload, "reason"),
        payload,
    ) {
        return Ok((id.to_string(), key.to_string(), reason.to_string(), free_fields(entries)));
    }
    Err(
        ReviewKBError::new(
            ErrorCode::InvalidArgument,
            "override input is missing required string fields".to_string(),
            Json::object().with("fields", Json::texts(&missing)),
        ),
    )
}

} // verus!
