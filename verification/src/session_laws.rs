//! What a command line asks for, and how a run gets to its operation.

use vstd::prelude::*;

use crate::cli::{
    failed, finished, override_parts, payload_of, succeeded, ConfigArgs, ConfigCommand, DbArgs,
    DbCommand, DescriptionArgs, DescriptionCommand, OverridesArgs, OverridesCommand, ProjectsArgs,
    ProjectsCommand, RulesArgs, RulesCommand, TopCommand,
};
use crate::config::{config_write, LocationV};
use crate::errors::{and_detail, detail, ErrorCode, ErrorV};
use crate::json::{field, JsonV};
use crate::json_laws::{lemma_and_detail, lemma_detail};
use crate::maintenance::{backup_start, restore_next, restore_paths, restore_start, RestoreV};
use crate::path_util::{expanded, optional_text, parent_path};
use crate::protocol::{Handle, ReplyV, RequestV, StepV};
use crate::repository::RepositoryErrorV;
use crate::service::ServiceErrorV;
use crate::session::{
    dispatched, gotten, opening, operation_turn, planned, put_value, shown, turned, OperationV,
    PhaseV, PlanV, RunV, SessionV, TurnV, WorldV,
};

verus! {

/// `prepare` and `sync` bring a project up to its checklist without force, `rebuild` with it.
pub proof fn only_a_rebuild_is_forced(command: TopCommand)
    ensures
        command is Prepare || command is Sync || command is Rebuild <==> (planned(
            command,
        ) matches PlanV::Run(_, _, operation) && operation is Prepare),
        planned(command) matches PlanV::Run(
            _,
            create,
            OperationV::Prepare { project_id, project_name, checklist, force },
        ) ==> {
            &&& create
            &&& force <==> command is Rebuild
            &&& command matches TopCommand::Prepare(a) ==> project_id == a.project_id@ && project_name
                == a.project_name@ && checklist == a.checklist@
            &&& command matches TopCommand::Sync(a) ==> project_id == a.project_id@ && project_name
                == a.project_name@ && checklist == a.checklist@
            &&& command matches TopCommand::Rebuild(a) ==> project_id == a.project_id@
                && project_name == a.project_name@ && checklist == a.checklist@
        },
{
}

/// Whether a plan runs an operation on a database that has to be there.
pub open spec fn runs(plan: PlanV, operation: OperationV) -> bool {
    plan matches PlanV::Run(_, create, op) && !create && op == operation
}

/// Each command asks for its operation, with what was given for it.
#[verifier::spinoff_prover]
#[verifier::rlimit(50)]
pub proof fn a_command_asks_for_its_operation(command: TopCommand)
    ensures
        command matches TopCommand::Status(a) ==> runs(
            planned(command),
            OperationV::Status { project_id: a.project_id@, checklist: a.checklist@ },
        ),
        command matches TopCommand::Description(DescriptionArgs { command: DescriptionCommand::Get {
            project_id,
        } }) ==> runs(planned(command), OperationV::Description { project_id: project_id@ }),
        command matches TopCommand::Projects(ProjectsArgs { command: ProjectsCommand::List })
            ==> runs(planned(command), OperationV::Projects),
        command matches TopCommand::Projects(ProjectsArgs { command: ProjectsCommand::Show {
            project_id,
        } }) ==> runs(planned(command), OperationV::Project { project_id: project_id@ }),
        command matches TopCommand::Rules(RulesArgs { command: RulesCommand::List { project_id } })
            ==> runs(planned(command), OperationV::Rules { project_id: project_id@ }),
        command matches TopCommand::Rules(RulesArgs { command: RulesCommand::Search {
            project_id,
            query,
        } }) ==> runs(
            planned(command),
            OperationV::Search { project_id: project_id@, query: query@ },
        ),
        command matches TopCommand::Rules(RulesArgs { command: RulesCommand::Get { input } })
            ==> planned(command) == PlanV::Select(input@),
        command matches TopCommand::Overrides(OverridesArgs { command: OverridesCommand::Put {
            input,
        } }) ==> planned(command) == PlanV::Change(input@),
        command matches TopCommand::Overrides(OverridesArgs { command: OverridesCommand::List {
            project_id,
        } }) ==> runs(planned(command), OperationV::Overrides { project_id: project_id@ }),
        command matches TopCommand::Overrides(OverridesArgs { command: OverridesCommand::Show {
            project_id,
            key,
        } }) ==> runs(
            planned(command),
            OperationV::Override { project_id: project_id@, key: key@ },
        ),
        command matches TopCommand::Overrides(OverridesArgs { command: OverridesCommand::Unset {
            project_id,
            key,
            reason,
        } }) ==> runs(
            planned(command),
            OperationV::Unset { project_id: project_id@, key: key@, reason: reason@ },
        ),
        command matches TopCommand::Overrides(OverridesArgs { command: OverridesCommand::Resolve {
            project_id,
            key,
            strategy,
            checklist,
            reason,
        } }) ==> runs(
            planned(command),
            OperationV::Resolve {
                project_id: project_id@,
                key: key@,
                strategy: strategy@,
                checklist: checklist@,
                reason: reason@,
            },
        ),
        command matches TopCommand::Db(DbArgs { command: DbCommand::Info }) ==> runs(
            planned(command),
            OperationV::Info,
        ),
        command matches TopCommand::Db(DbArgs { command: DbCommand::Check }) ==> runs(
            planned(command),
            OperationV::Check,
        ),
        command matches TopCommand::Db(DbArgs { command: DbCommand::Query {
            view,
            project_id,
            query,
            limit,
        } }) ==> runs(
            planned(command),
            OperationV::Query {
                view: view@,
                scope: optional_text(project_id),
                needle: optional_text(query),
                limit: limit as int,
            },
        ),
        command matches TopCommand::Db(DbArgs { command: DbCommand::Backup { output } }) ==> planned(
            command,
        ) == PlanV::Backup(output@),
        command matches TopCommand::Db(DbArgs { command: DbCommand::Restore { input } }) ==> planned(
            command,
        ) == PlanV::Restore(input@),
        command matches TopCommand::Db(DbArgs { command: DbCommand::Migrate }) ==> (planned(
            command,
        ) matches PlanV::Run(_, create, op) && create && op is Schema),
        command matches TopCommand::Config(ConfigArgs { command: ConfigCommand::Show }) ==> planned(
            command,
        ) is Show,
        command matches TopCommand::Config(ConfigArgs { command: ConfigCommand::Get { key } })
            ==> planned(command) == PlanV::Get(key@),
        command matches TopCommand::Config(ConfigArgs { command: ConfigCommand::Put { key, value } })
            ==> planned(command) == PlanV::Put(key@, value@),
{
}

/// Whether a turn asks for something.
pub open spec fn turn_asks(turn: TurnV, request: RequestV) -> bool {
    turn matches TurnV::Ask(r, _) && r == request
}

/// The configuration shows where the database lies and who decided so. The one key that it has is
/// the path of the database; any other is refused. A new value for it is written to the
/// configuration file.
#[verifier::spinoff_prover]
#[verifier::rlimit(50)]
pub proof fn the_configuration_has_one_key(
    w: WorldV,
    l: LocationV,
    key: Seq<char>,
    value: Seq<char>,
    path: Seq<char>,
    now: Seq<char>,
)
    ensures
        dispatched(w, PlanV::Show, l) == TurnV::Exit(succeeded("config show"@, shown(l))),
        field(shown(l), "db_path"@) == Some(JsonV::Text(l.path)),
        field(shown(l), "source"@) == Some(JsonV::Text(l.source)),
        key == "db_path"@ ==> dispatched(w, PlanV::Get(key), l) == TurnV::Exit(
            succeeded("config get"@, gotten(key, l)),
        ),
        field(gotten(key, l), "key"@) == Some(JsonV::Text(key)),
        field(gotten(key, l), "value"@) == Some(JsonV::Text(l.path)),
        field(gotten(key, l), "source"@) == Some(JsonV::Text(l.source)),
        key == "db_path"@ ==> match config_write(value, None, w.env, w.home()) {
            Ok(file) => {
                let turn = dispatched(w, PlanV::Put(key, value), l);
                &&& turn_asks(turn, RequestV::WriteText(file.target, file.content))
                &&& turned(turn->Ask_1, ReplyV::Done, now) == TurnV::Exit(
                    succeeded("config set"@, put_value(key, value, file.target)),
                )
            },
            Err(e) => dispatched(w, PlanV::Put(key, value), l) == TurnV::Exit(
                failed("config set"@, e),
            ),
        },
        field(put_value(key, value, path), "key"@) == Some(JsonV::Text(key)),
        field(put_value(key, value, path), "value"@) == Some(JsonV::Text(value)),
        field(put_value(key, value, path), "config_path"@) == Some(JsonV::Text(path)),
        key != "db_path"@ ==> {
            &&& exists|e: ErrorV|
                e.code == ErrorCode::InvalidArgument && dispatched(w, PlanV::Get(key), l)
                    == TurnV::Exit(#[trigger] failed("config get"@, e))
            &&& exists|e: ErrorV|
                e.code == ErrorCode::InvalidArgument && dispatched(w, PlanV::Put(key, value), l)
                    == TurnV::Exit(#[trigger] failed("config set"@, e))
        },
{
    reveal_strlit("db_path");
    reveal_strlit("source");
    reveal_strlit("key");
    reveal_strlit("value");
    reveal_strlit("config_path");
    assert("db_path"@.len() == 7 && "source"@.len() == 6 && "key"@.len() == 3 && "value"@.len() == 5
        && "config_path"@.len() == 11);
    lemma_detail("db_path"@, JsonV::Text(l.path));
    lemma_and_detail(
        detail("db_path"@, JsonV::Text(l.path)),
        "source"@,
        JsonV::Text(l.source),
    );
    let a = detail("key"@, JsonV::Text(key));
    lemma_detail("key"@, JsonV::Text(key));
    lemma_and_detail(a, "value"@, JsonV::Text(l.path));
    lemma_and_detail(
        and_detail(a, "value"@, JsonV::Text(l.path)),
        "source"@,
        JsonV::Text(l.source),
    );
    lemma_and_detail(a, "value"@, JsonV::Text(value));
    lemma_and_detail(
        and_detail(a, "value"@, JsonV::Text(value)),
        "config_path"@,
        JsonV::Text(path),
    );
    if key != "db_path"@ {
        let e = crate::session::config_key_error(key);
        assert(dispatched(w, PlanV::Get(key), l) == TurnV::Exit(failed("config get"@, e)));
        assert(dispatched(w, PlanV::Put(key, value), l) == TurnV::Exit(failed("config set"@, e)));
    }
}

/// A run opens the database file where it is, after making its directory; where it is not there, it
/// is made only for what may create it, and anything else works on an empty database in memory.
#[verifier::spinoff_prover]
#[verifier::rlimit(50)]
pub proof fn a_run_opens_its_database(
    w: WorldV,
    command: Seq<char>,
    create: bool,
    operation: OperationV,
    l: LocationV,
    now: Seq<char>,
)
    ensures
        ({
            let run = RunV { command, operation, location: l };
            let path = expanded(l.path, w.home());
            let first = dispatched(w, PlanV::Run(command, create, operation), l);
            let opening = if create {
                first
            } else {
                turned(first->Ask_1, ReplyV::Flag(true), now)
            };
            let opened = if parent_path(path) is Some {
                turned(opening->Ask_1, ReplyV::Done, now)
            } else {
                opening
            };
            &&& !create ==> turn_asks(first, RequestV::Exists(l.path)) && turn_asks(
                turned(first->Ask_1, ReplyV::Flag(false), now),
                RequestV::OpenMemory,
            )
            &&& parent_path(path) matches Some(p) ==> turn_asks(opening, RequestV::CreateDirs(p))
            &&& turn_asks(opened, RequestV::OpenFile(Handle::Main, path))
            &&& opened matches TurnV::Ask(_, s) && s == (SessionV {
                world: w,
                phase: PhaseV::Opened(run, path, true),
            })
        }),
{
}

/// The input of a selection becomes the selection of a run that creates no database, that of a new
/// override its change; what is no input of that kind ends the run with its refusal.
pub proof fn an_input_becomes_its_operation(
    w: WorldV,
    input: Seq<char>,
    l: LocationV,
    source: Seq<char>,
    now: Seq<char>,
)
    ensures
        ({
            let select = dispatched(w, PlanV::Select(input), l);
            let change = dispatched(w, PlanV::Change(input), l);
            &&& turn_asks(select, RequestV::ReadInput(input))
            &&& turn_asks(change, RequestV::ReadInput(input))
            &&& match payload_of(input, source) {
                Err(e) => {
                    &&& turned(select->Ask_1, ReplyV::Text(source), now) == TurnV::Exit(
                        failed("rules get"@, e),
                    )
                    &&& turned(change->Ask_1, ReplyV::Text(source), now) == TurnV::Exit(
                        failed("overrides set"@, e),
                    )
                },
                Ok(payload) => {
                    &&& turned(select->Ask_1, ReplyV::Text(source), now) == dispatched(
                        w,
                        PlanV::Run("rules get"@, false, OperationV::Selection { payload }),
                        l,
                    )
                    &&& match override_parts(payload) {
                        Err(e) => turned(change->Ask_1, ReplyV::Text(source), now) == TurnV::Exit(
                            failed("overrides set"@, e),
                        ),
                        Ok((project_id, key, reason, fields)) => turned(
                            change->Ask_1,
                            ReplyV::Text(source),
                            now,
                        ) == dispatched(
                            w,
                            PlanV::Run(
                                "overrides set"@,
                                false,
                                OperationV::Change { project_id, key, fields, reason },
                            ),
                            l,
                        ),
                    }
                },
            }
        }),
{
}

/// A backup needs a database file: where there is none it is refused, else the file is opened. Once
/// the database is migrated, the backup of it begins.
pub proof fn a_backup_needs_a_database(
    w: WorldV,
    output: Seq<char>,
    l: LocationV,
    path: Seq<char>,
    now: Seq<char>,
)
    ensures
        ({
            let run = RunV {
                command: "db backup"@,
                operation: OperationV::Backup { output },
                location: l,
            };
            let first = dispatched(w, PlanV::Backup(output), l);
            let last = operation_turn(w, run, path);
            &&& turn_asks(first, RequestV::IsFile(l.path))
            &&& exists|e: ErrorV|
                e.code == ErrorCode::BackupInvalid && turned(
                    first->Ask_1,
                    ReplyV::Flag(false),
                    now,
                ) == TurnV::Exit(#[trigger] failed("db backup"@, e))
            &&& turned(first->Ask_1, ReplyV::Flag(true), now) == opening(w, run)
            &&& match backup_start(path, Handle::Main, output, w.home(), w.cwd) {
                StepV::Ask(request, b) => last == TurnV::Ask(
                    request,
                    SessionV { world: w, phase: PhaseV::Saving(b) },
                ),
                StepV::Done(_) => true,
            }
        }),
{
    let e = crate::session::no_database_error(l.path);
    let first = dispatched(w, PlanV::Backup(output), l);
    assert(turned(first->Ask_1, ReplyV::Flag(false), now) == TurnV::Exit(failed("db backup"@, e)));
}

/// A restore brings the given backup to the place of the database, and each of its steps follows
/// from the reply to the one before.
pub proof fn a_restore_goes_to_the_database(
    w: WorldV,
    input: Seq<char>,
    l: LocationV,
    r: RestoreV,
    reply: ReplyV,
    now: Seq<char>,
)
    ensures
        ({
            let s = SessionV { world: w, phase: PhaseV::Restoring(r) };
            let paths = restore_paths(input, l.path, w.home(), w.cwd, w.stamp);
            &&& restore_start(paths) matches StepV::Ask(request, first) ==> dispatched(
                w,
                PlanV::Restore(input),
                l,
            ) == TurnV::Ask(request, SessionV { world: w, phase: PhaseV::Restoring(first) })
            &&& match restore_next(r, reply) {
                StepV::Ask(request, after) => turned(s, reply, now) == TurnV::Ask(
                    request,
                    SessionV { world: w, phase: PhaseV::Restoring(after) },
                ),
                StepV::Done(Ok(v)) => turned(s, reply, now) == TurnV::Exit(
                    finished("db restore"@, Ok(v)),
                ),
                StepV::Done(Err(RepositoryErrorV::Kb(e))) => turned(s, reply, now) == TurnV::Exit(
                    finished("db restore"@, Err(ServiceErrorV::Kb(e))),
                ),
                StepV::Done(Err(_)) => turned(s, reply, now) matches TurnV::Exit(o)
                    && o.stdout is None,
            }
        }),
{
}

} // verus!
