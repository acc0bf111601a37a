//! What is printed of an operation, and with which status the program ends.

use vstd::prelude::*;

use crate::cli::{failure_value, finished, meta_value, success_value, warnings_split, OutcomeV};
use crate::errors::{and_detail, detail, error_value, ErrorCode, ErrorV};
use crate::json::{field, without_drops, JsonV};
use crate::json_laws::{lemma_and_detail, lemma_detail, tidy};
use crate::json_util::canonical;
use crate::looking_laws::all_but;
use crate::protocol::{ReplyV, StepV};
use crate::service::{next, ServiceErrorV, StageV};
use crate::session::{turned, OperationV, PhaseV, RunV, SessionV, TurnV, WorldV};

verus! {

/// Whether an outcome is an envelope on one line of standard output, and a status.
pub open spec fn prints(o: OutcomeV, envelope: JsonV, code: int) -> bool {
    &&& o.stdout == Some(canonical(envelope) + seq!['\n'])
    &&& o.stderr is None
    &&& o.code == code
}

/// Whether an envelope tells which command it is the answer to.
pub open spec fn answers(envelope: JsonV, command: Seq<char>) -> bool {
    field(envelope, "meta"@) matches Some(meta) && {
        &&& field(meta, "command"@) == Some(JsonV::Text(command))
        &&& field(meta, "schema_version"@) == Some(JsonV::Int(1))
    }
}

/// Whether an envelope carries the result of an operation: the warnings of a result that has some
/// stand beside it, not in it.
pub open spec fn carries(envelope: JsonV, v: JsonV) -> bool {
    &&& field(envelope, "ok"@) == Some(JsonV::Bool(true))
    &&& field(envelope, "data"@) matches Some(data) && if v is Object {
        all_but(data, v, seq!["warnings"@])
    } else {
        data == v
    }
    &&& field(envelope, "warnings"@) == Some(
        match field(v, "warnings"@) {
            Some(w) => w,
            None => JsonV::Array(Seq::empty()),
        },
    )
}

/// Whether an envelope carries an error.
pub open spec fn carries_error(envelope: JsonV, e: ErrorV) -> bool {
    &&& field(envelope, "ok"@) == Some(JsonV::Bool(false))
    &&& field(envelope, "error"@) matches Some(error) && {
        &&& field(error, "code"@) == Some(JsonV::Text(e.code.word()))
        &&& field(error, "message"@) == Some(JsonV::Text(e.message))
        &&& field(error, "details"@) == Some(e.details)
    }
    &&& field(envelope, "warnings"@) == Some(JsonV::Array(Seq::empty()))
}

/// The status with which a domain error ends the program: two for what was given, three for what is
/// not there, four for what changed meanwhile, five for the database, one for a fault.
pub open spec fn ends_with(code: ErrorCode) -> int {
    if code == ErrorCode::ProjectNotFound || code == ErrorCode::RuleNotFound {
        3
    } else if code == ErrorCode::KnowledgeRevisionMismatch || code == ErrorCode::OverrideConflict {
        4
    } else if code == ErrorCode::DbLocked || code == ErrorCode::DbIntegrityError || code
        == ErrorCode::DbSchemaUnsupported || code == ErrorCode::BackupInvalid {
        5
    } else if code == ErrorCode::InternalError {
        1
    } else {
        2
    }
}

proof fn lemma_names()
    ensures
        "ok"@.len() == 2 && "data"@.len() == 4 && "data"@[0] == 'd' && "error"@.len() == 5,
        "warnings"@.len() == 8 && "meta"@.len() == 4 && "meta"@[0] == 'm',
        "command"@.len() == 7 && "command"@[0] == 'c' && "schema_version"@.len() == 14,
        "code"@.len() == 4 && "message"@.len() == 7 && "message"@[0] == 'm' && "details"@.len() == 7
            && "details"@[0] == 'd',
{
    reveal_strlit("ok");
    reveal_strlit("data");
    reveal_strlit("error");
    reveal_strlit("warnings");
    reveal_strlit("meta");
    reveal_strlit("command");
    reveal_strlit("schema_version");
    reveal_strlit("code");
    reveal_strlit("message");
    reveal_strlit("details");
}

proof fn lemma_meta(command: Seq<char>)
    ensures
        field(meta_value(command), "command"@) == Some(JsonV::Text(command)),
        field(meta_value(command), "schema_version"@) == Some(JsonV::Int(1)),
{
    lemma_names();
    lemma_detail("command"@, JsonV::Text(command));
    let v0 = detail("command"@, JsonV::Text(command));
    lemma_and_detail(v0, "schema_version"@, JsonV::Int(1));
    let v1 = and_detail(v0, "schema_version"@, JsonV::Int(1));
}

proof fn lemma_success(command: Seq<char>, data: JsonV, warnings: JsonV)
    ensures
        ({
            let v = success_value(command, data, warnings);
            &&& field(v, "ok"@) == Some(JsonV::Bool(true))
            &&& field(v, "data"@) == Some(data)
            &&& field(v, "warnings"@) == Some(warnings)
            &&& answers(v, command)
        }),
{
    lemma_names();
    lemma_meta(command);
    let meta = meta_value(command);
    lemma_detail("ok"@, JsonV::Bool(true));
    let v0 = detail("ok"@, JsonV::Bool(true));
    lemma_and_detail(v0, "data"@, data);
    let v1 = and_detail(v0, "data"@, data);
    lemma_and_detail(v1, "warnings"@, warnings);
    let v2 = and_detail(v1, "warnings"@, warnings);
    lemma_and_detail(v2, "meta"@, meta);
    let v3 = and_detail(v2, "meta"@, meta);
}

proof fn lemma_failure(command: Seq<char>, e: ErrorV)
    ensures
        carries_error(failure_value(command, e), e),
        answers(failure_value(command, e), command),
{
    lemma_names();
    lemma_meta(command);
    let meta = meta_value(command);
    lemma_detail("code"@, JsonV::Text(e.code.word()));
    let e0 = detail("code"@, JsonV::Text(e.code.word()));
    lemma_and_detail(e0, "message"@, JsonV::Text(e.message));
    let e1 = and_detail(e0, "message"@, JsonV::Text(e.message));
    lemma_and_detail(e1, "details"@, e.details);
    let error = error_value(e);
    let none = JsonV::Array(Seq::empty());
    lemma_detail("ok"@, JsonV::Bool(false));
    let v0 = detail("ok"@, JsonV::Bool(false));
    lemma_and_detail(v0, "error"@, error);
    let v1 = and_detail(v0, "error"@, error);
    lemma_and_detail(v1, "warnings"@, none);
    let v2 = and_detail(v1, "warnings"@, none);
    lemma_and_detail(v2, "meta"@, meta);
    let v3 = and_detail(v2, "meta"@, meta);
}

/// A result is printed in an envelope, and the program ends with status zero. A domain error is
/// printed in an envelope, with the status of its kind. Any other failure prints nothing to
/// standard output and ends with status one.
pub proof fn an_outcome_tells_the_result(
    command: Seq<char>,
    result: Result<JsonV, ServiceErrorV>,
)
    requires
        result matches Ok(v) ==> (v is Object ==> tidy(v)),
    ensures
        match result {
            Ok(v) => exists|envelope: JsonV|
                {
                    &&& #[trigger] prints(finished(command, result), envelope, 0)
                    &&& carries(envelope, v)
                    &&& answers(envelope, command)
                },
            Err(ServiceErrorV::Kb(e)) => exists|envelope: JsonV|
                {
                    &&& #[trigger] prints(finished(command, result), envelope, ends_with(e.code))
                    &&& carries_error(envelope, e)
                    &&& answers(envelope, command)
                },
            Err(ServiceErrorV::Raw(text)) => finished(command, result) == (OutcomeV {
                stdout: None,
                stderr: Some(text),
                code: 1,
            }),
        },
{
    reveal_strlit("\n");
    assert("\n"@ =~= seq!['\n']);
    match result {
        Ok(v) => {
            let (data, warnings) = warnings_split(v);
            lemma_success(command, data, warnings);
            let envelope = success_value(command, data, warnings);
            if let JsonV::Object(entries) = v {
                assert forall|name: Seq<char>| #[trigger] field(data, name) == (if seq![
                    "warnings"@,
                ].contains(name) {
                    None
                } else {
                    field(v, name)
                }) by {
                    without_drops(entries, "warnings"@, name);
                    assert(seq!["warnings"@][0] == "warnings"@);
                    if name == "warnings"@ {
                        assert(seq!["warnings"@].contains(name));
                    }
                }
            } else {
                assert(field(v, "warnings"@) is None);
            }
            assert(prints(finished(command, result), envelope, 0));
        },
        Err(ServiceErrorV::Kb(e)) => {
            lemma_failure(command, e);
            let envelope = failure_value(command, e);
            assert(prints(finished(command, result), envelope, ends_with(e.code)));
        },
        Err(ServiceErrorV::Raw(_)) => {},
    }
}

/// The name under which a list is printed.
pub open spec fn printed_as(op: OperationV, name: Seq<char>) -> bool {
    match op {
        OperationV::Projects => name == "projects"@,
        OperationV::Rules { .. } => name == "rules"@,
        OperationV::Search { .. } => name == "rules"@,
        OperationV::Overrides { .. } => name == "overrides"@,
        _ => false,
    }
}

/// When an operation is done, its result is printed under the command that was given: a list of
/// projects, rules or overrides under its name, any other result as it is.
pub proof fn a_finished_operation_is_printed(
    w: WorldV,
    run: RunV,
    path: Seq<char>,
    stage: StageV,
    reply: ReplyV,
    now: Seq<char>,
    name: Seq<char>,
)
    ensures
        ({
            let s = SessionV { world: w, phase: PhaseV::Operating(run, path, stage) };
            match next(path, stage, reply, now) {
                StepV::Ask(request, after) => turned(s, reply, now) == TurnV::Ask(
                    request,
                    SessionV { world: w, phase: PhaseV::Operating(run, path, after) },
                ),
                StepV::Done(Ok(v)) => {
                    &&& printed_as(run.operation, name) ==> turned(s, reply, now) == TurnV::Exit(
                        finished(
                            run.command,
                            Ok(JsonV::Object(seq![(name, v)])),
                        ),
                    )
                    &&& !(run.operation is Projects || run.operation is Rules
                        || run.operation is Search || run.operation is Overrides) ==> turned(
                        s,
                        reply,
                        now,
                    ) == TurnV::Exit(finished(run.command, Ok(v)))
                },
                StepV::Done(Err(e)) => turned(s, reply, now) == TurnV::Exit(
                    finished(run.command, Err(e)),
                ),
            }
        }),
{
    if let StepV::Done(Ok(v)) = next(path, stage, reply, now) {
        assert(detail(name, v)->Object_0 =~= seq![(name, v)]);
    }
}

} // verus!
