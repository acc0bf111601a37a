//! When migrations, backups and restores succeed, and how they are refused.

use vstd::prelude::*;

use crate::config::path_detail;
use crate::errors::{and_detail, detail, ErrorCode};
use crate::json::{field, JsonV};
use crate::json_laws::{lemma_and_detail, lemma_detail};
use crate::maintenance::{
    backup_next, backup_start, file_settings, findings_upto, is_applied, is_version_row,
    migrate_next, migrate_start, migrations_table, newest, pending, restore_next, restore_result,
    restore_start, version_insert, versions_query, BackupV, MigrationV, RestorePathsV,
    RestoreStageV, RestoreV, MIGRATION_001, MIGRATION_002,
};
use crate::maintenance_laws::newest_is_the_greatest;
use crate::path_util::{expanded, parent_path, resolved};
use crate::protocol::{CellV, Handle, ReplyV, RequestV, RowV, StepV};
use crate::repository::{integrity_query, schema_query, RepositoryErrorV};

verus! {

// ---- migration ----

/// Where a migration stands after one more reply.
pub open spec fn migration_on(
    step: StepV<MigrationV, RepositoryErrorV>,
    reply: ReplyV,
    now: Seq<char>,
) -> StepV<MigrationV, RepositoryErrorV> {
    match step {
        StepV::Ask(_, m) => migrate_next(m, reply, now),
        StepV::Done(result) => StepV::Done(result),
    }
}

/// Whether a version is among the rows of those that are applied.
pub open spec fn has_version(rows: Seq<RowV>, version: int) -> bool {
    exists|i: int|
        0 <= i < rows.len() && (#[trigger] rows[i]).len() > 0 && rows[i][0].1 == CellV::Integer(
            version,
        )
}

proof fn lemma_has_version(rows: Seq<RowV>, version: int)
    ensures
        is_applied(rows, version) <==> has_version(rows, version),
{
    if is_applied(rows, version) {
        let i = choose|i: int| 0 <= i < rows.len() && #[trigger] is_version_row(rows[i], version);
        assert(rows[i].len() > 0);
    }
    if has_version(rows, version) {
        let i = choose|i: int|
            0 <= i < rows.len() && (#[trigger] rows[i]).len() > 0 && rows[i][0].1 == CellV::Integer(
                version,
            );
        assert(is_version_row(rows[i], version));
    }
}

/// Whether a step applies a version: its script runs, and once that is done the version is
/// recorded.
pub open spec fn applies(
    step: StepV<MigrationV, RepositoryErrorV>,
    script: Seq<char>,
    version: int,
    now: Seq<char>,
) -> bool {
    &&& step matches StepV::Ask(request, _) && request == RequestV::Script(Handle::Main, script)
    &&& migration_on(step, ReplyV::Done, now) matches StepV::Ask(request, _) && request
        == RequestV::Execute(version_insert(version, now))
}

/// A migration makes sure that the table of versions is there and reads it. A version that it does
/// not know is refused. Otherwise it applies what is missing, the older version first, and then
/// succeeds.
#[verifier::spinoff_prover]
#[verifier::rlimit(50)]
pub proof fn a_migration_applies_what_is_missing(path: Seq<char>, rows: Seq<RowV>, now: Seq<char>)
    ensures
        ({
            let first = migrate_start(path);
            let made = migration_on(first, ReplyV::Done, now);
            let step = migration_on(made, ReplyV::Rows(rows), now);
            let later = migration_on(migration_on(step, ReplyV::Done, now), ReplyV::Done, now);
            let last = migration_on(migration_on(later, ReplyV::Done, now), ReplyV::Done, now);
            &&& first matches StepV::Ask(request, _) && request == RequestV::Script(
                Handle::Main,
                migrations_table(),
            )
            &&& made matches StepV::Ask(request, _) && request == RequestV::Query(
                Handle::Main,
                versions_query(),
            )
            &&& if exists|version: int| version > 2 && #[trigger] has_version(rows, version) {
                step matches StepV::Done(Err(RepositoryErrorV::Kb(e))) && e.code
                    == ErrorCode::DbSchemaUnsupported
            } else if has_version(rows, 1) && has_version(rows, 2) {
                step matches StepV::Done(Ok(_))
            } else if has_version(rows, 1) {
                applies(step, MIGRATION_002@, 2, now) && (later matches StepV::Done(Ok(_)))
            } else if has_version(rows, 2) {
                applies(step, MIGRATION_001@, 1, now) && (later matches StepV::Done(Ok(_)))
            } else {
                &&& applies(step, MIGRATION_001@, 1, now)
                &&& applies(later, MIGRATION_002@, 2, now)
                &&& last matches StepV::Done(Ok(_))
            }
        }),
{
    lemma_has_version(rows, 1);
    lemma_has_version(rows, 2);
    newest_is_the_greatest(rows);
    lemma_has_version(rows, newest(rows));
    if exists|version: int| version > 2 && #[trigger] has_version(rows, version) {
        let version = choose|version: int| version > 2 && #[trigger] has_version(rows, version);
        lemma_has_version(rows, version);
        assert(is_applied(rows, version));
    } else {
        assert(newest(rows) <= 2) by {
            if newest(rows) > 2 {
                assert(has_version(rows, newest(rows)));
            }
        }
        let left = pending(rows);
        if is_applied(rows, 1) && is_applied(rows, 2) {
            assert(left.len() == 0);
        } else if is_applied(rows, 1) {
            assert(left =~= seq![2int]);
            assert(left.skip(1).len() == 0);
        } else if is_applied(rows, 2) {
            assert(left =~= seq![1int]);
            assert(left.skip(1).len() == 0);
        } else {
            assert(left =~= seq![1int, 2int]);
            assert(left.skip(1) =~= seq![2int]);
            assert(left.skip(1).skip(1).len() == 0);
        }
    }
}

/// A migration whose script or record fails is refused as a fault of the database.
pub proof fn a_failed_migration_is_refused(m: MigrationV, reply: ReplyV, now: Seq<char>)
    requires
        m.stage is Script || m.stage is Record,
        reply is Failed,
    ensures
        migrate_next(m, reply, now) matches StepV::Done(Err(RepositoryErrorV::Kb(e))) && e.code
            == ErrorCode::DbIntegrityError,
{
}

// ---- backup ----

/// Where a backup stands after one more reply.
pub open spec fn backup_on(step: StepV<BackupV, RepositoryErrorV>, reply: ReplyV) -> StepV<
    BackupV,
    RepositoryErrorV,
> {
    match step {
        StepV::Ask(_, b) => backup_next(b, reply),
        StepV::Done(result) => StepV::Done(result),
    }
}

/// Whether a step of a backup asks for something.
pub open spec fn backup_asks(step: StepV<BackupV, RepositoryErrorV>, request: RequestV) -> bool {
    step matches StepV::Ask(r, _) && r == request
}

/// Whether a step of a backup refuses it.
pub open spec fn backup_refuses(step: StepV<BackupV, RepositoryErrorV>, code: ErrorCode) -> bool {
    step matches StepV::Done(Err(RepositoryErrorV::Kb(e))) && e.code == code
}

/// Whether rows are those of an integrity check that found `given`.
pub open spec fn finds(rows: Seq<RowV>, given: Seq<Seq<char>>) -> bool {
    &&& rows.len() == given.len()
    &&& forall|i: int|
        0 <= i < rows.len() ==> (#[trigger] rows[i]).len() > 0 && rows[i][0].1 == CellV::Text(
            given[i],
        )
}

proof fn lemma_finds(rows: Seq<RowV>, given: Seq<Seq<char>>, n: int)
    requires
        finds(rows, given),
        0 <= n <= rows.len(),
    ensures
        findings_upto(rows, n) == Ok::<Seq<Seq<char>>, Seq<char>>(given.take(n)),
    decreases n,
{
    if n > 0 {
        lemma_finds(rows, given, n - 1);
        assert(rows[n - 1].len() > 0);
        assert(given.take(n) =~= given.take(n - 1).push(given[n - 1]));
    } else {
        assert(given.take(0) =~= Seq::empty());
    }
}

/// A step that is reached once the directory of a backup is there.
pub open spec fn with_directory(step: StepV<BackupV, RepositoryErrorV>, target: Seq<char>) -> StepV<
    BackupV,
    RepositoryErrorV,
> {
    if parent_path(target) is Some {
        backup_on(step, ReplyV::Done)
    } else {
        step
    }
}

/// A backup is refused where its output is there already or is the database itself. Otherwise it
/// makes the directory, copies the database and checks the copy. A copy that is sound is reported
/// with its path and the schema version; one that is not is removed, and the backup refused.
#[verifier::spinoff_prover]
#[verifier::rlimit(50)]
pub proof fn a_backup_copies_and_checks(
    path: Seq<char>,
    from: Handle,
    output: Seq<char>,
    home: Option<Seq<char>>,
    cwd: Seq<char>,
    rows: Seq<RowV>,
    given: Seq<Seq<char>>,
    version: Seq<RowV>,
    n: int,
)
    requires
        finds(rows, given),
        version.len() > 0,
        version[0].len() > 0,
        version[0][0].1 == CellV::Integer(n),
    ensures
        ({
            let target = expanded(output, home);
            let itself = path != ":memory:"@ && resolved(target, home, cwd) == resolved(
                path,
                home,
                cwd,
            );
            let first = backup_start(path, from, output, home, cwd);
            let step = backup_on(first, ReplyV::Flag(false));
            let opening = with_directory(step, target);
            let copying = backup_on(opening, ReplyV::Done);
            let checking = backup_on(copying, ReplyV::Done);
            let checked = backup_on(checking, ReplyV::Rows(rows));
            &&& backup_asks(first, RequestV::Exists(target))
            &&& backup_refuses(backup_on(first, ReplyV::Flag(true)), ErrorCode::InvalidArgument)
            &&& itself ==> backup_refuses(step, ErrorCode::InvalidArgument)
            &&& !itself ==> {
                &&& parent_path(target) matches Some(p) ==> backup_asks(
                    step,
                    RequestV::CreateDirs(p),
                )
                &&& backup_asks(opening, RequestV::OpenFile(Handle::Copy, target))
                &&& backup_asks(copying, RequestV::Copy(from, Handle::Copy))
                &&& backup_asks(checking, RequestV::Query(Handle::Copy, integrity_query()))
                &&& if given == seq!["ok"@] {
                    &&& backup_asks(checked, RequestV::Query(from, schema_query()))
                    &&& backup_on(checked, ReplyV::Rows(version)) matches StepV::Done(Ok(v)) && {
                        &&& field(v, "path"@) == Some(JsonV::Text(target))
                        &&& field(v, "schema_version"@) == Some(JsonV::Int(n))
                    }
                } else {
                    &&& backup_asks(checked, RequestV::Remove(target))
                    &&& backup_refuses(backup_on(checked, ReplyV::Done), ErrorCode::BackupInvalid)
                }
            }
        }),
{
    lemma_finds(rows, given, rows.len() as int);
    assert(given.take(given.len() as int) =~= given);
    let target = expanded(output, home);
    reveal_strlit("path");
    reveal_strlit("schema_version");
    assert("path"@.len() == 4 && "schema_version"@.len() == 14);
    lemma_detail("path"@, JsonV::Text(target));
    lemma_and_detail(path_detail(target), "schema_version"@, JsonV::Int(n));
}

// ---- restore ----

/// Where a restore stands after one more reply.
pub open spec fn restore_on(step: StepV<RestoreV, RepositoryErrorV>, reply: ReplyV) -> StepV<
    RestoreV,
    RepositoryErrorV,
> {
    match step {
        StepV::Ask(_, r) => restore_next(r, reply),
        StepV::Done(result) => StepV::Done(result),
    }
}

/// Whether a step of a restore asks for something.
pub open spec fn restore_asks(step: StepV<RestoreV, RepositoryErrorV>, request: RequestV) -> bool {
    step matches StepV::Ask(r, _) && r == request
}

/// Whether a step of a restore refuses it.
pub open spec fn restore_refuses(step: StepV<RestoreV, RepositoryErrorV>, code: ErrorCode) -> bool {
    step matches StepV::Done(Err(RepositoryErrorV::Kb(e))) && e.code == code
}

/// A restore is refused where the backup is the destination, is not there, is not sound, or has a
/// schema that is not known; otherwise it goes on and asks whether there is a database to save.
#[verifier::spinoff_prover]
#[verifier::rlimit(50)]
pub proof fn a_restore_checks_the_backup(
    paths: RestorePathsV,
    rows: Seq<RowV>,
    given: Seq<Seq<char>>,
    version: Seq<RowV>,
    n: int,
)
    requires
        finds(rows, given),
        version.len() > 0,
        version[0].len() > 0,
        version[0][0].1 == CellV::Integer(n),
    ensures
        ({
            let itself = resolved(paths.source, paths.home, paths.cwd) == resolved(
                paths.destination,
                paths.home,
                paths.cwd,
            );
            let first = restore_start(paths);
            let found = restore_on(first, ReplyV::Flag(true));
            let opening = if parent_path(paths.destination) is Some {
                restore_on(found, ReplyV::Done)
            } else {
                found
            };
            let checking = restore_on(opening, ReplyV::Done);
            let checked = restore_on(checking, ReplyV::Rows(rows));
            let known = restore_on(checked, ReplyV::Rows(version));
            if itself {
                restore_refuses(first, ErrorCode::InvalidArgument)
            } else {
                &&& restore_asks(first, RequestV::IsFile(paths.source))
                &&& restore_refuses(
                    restore_on(first, ReplyV::Flag(false)),
                    ErrorCode::BackupInvalid,
                )
                &&& parent_path(paths.destination) matches Some(p) ==> restore_asks(
                    found,
                    RequestV::CreateDirs(p),
                )
                &&& restore_asks(opening, RequestV::OpenReadOnly(Handle::Source, paths.uri))
                &&& restore_asks(checking, RequestV::Query(Handle::Source, integrity_query()))
                &&& if given != seq!["ok"@] {
                    restore_refuses(checked, ErrorCode::BackupInvalid)
                } else {
                    &&& restore_asks(checked, RequestV::Query(Handle::Source, schema_query()))
                    &&& if n > 2 {
                        restore_refuses(known, ErrorCode::DbSchemaUnsupported)
                    } else {
                        known == StepV::<RestoreV, RepositoryErrorV>::Ask(
                            RequestV::Exists(paths.destination),
                            RestoreV { paths, stage: RestoreStageV::Present(n) },
                        )
                    }
                }
            }
        }),
{
    lemma_finds(rows, given, rows.len() as int);
    assert(given.take(given.len() as int) =~= given);
}

/// What a restore does once an existing database is saved or there is none: it fills the temporary
/// file from the backup, removes what is left of the old database's log, and renames the file; then
/// it reports.
pub open spec fn brings_back(
    step: StepV<RestoreV, RepositoryErrorV>,
    paths: RestorePathsV,
    n: int,
    saved: JsonV,
) -> bool {
    let filling = restore_on(step, ReplyV::Done);
    let filled = restore_on(filling, ReplyV::Done);
    let closed = restore_on(filled, ReplyV::Done);
    let logless = restore_on(closed, ReplyV::Done);
    let bare = restore_on(logless, ReplyV::Done);
    let last = restore_on(bare, ReplyV::Done);
    &&& restore_asks(step, RequestV::OpenFile(Handle::Copy, paths.temporary))
    &&& restore_asks(filling, RequestV::Copy(Handle::Source, Handle::Copy))
    &&& restore_asks(filled, RequestV::Close(Handle::Copy))
    &&& restore_asks(closed, RequestV::Remove(paths.destination + "-wal"@))
    &&& restore_asks(logless, RequestV::Remove(paths.destination + "-shm"@))
    &&& restore_asks(bare, RequestV::Rename(paths.temporary, paths.destination))
    &&& last matches StepV::Done(Ok(v)) && {
        &&& field(v, "path"@) == Some(JsonV::Text(paths.destination))
        &&& field(v, "source"@) == Some(JsonV::Text(paths.source))
        &&& field(v, "schema_version"@) == Some(JsonV::Int(n))
        &&& field(v, "safety_backup"@) == Some(saved)
    }
}

proof fn lemma_brings_back(paths: RestorePathsV, n: int, saved: bool)
    ensures
        brings_back(
            StepV::Ask(
                RequestV::OpenFile(Handle::Copy, paths.temporary),
                RestoreV { paths, stage: RestoreStageV::TempOpened(n, saved) },
            ),
            paths,
            n,
            if saved {
                JsonV::Text(paths.safety)
            } else {
                JsonV::Null
            },
        ),
{
    reveal_strlit("path");
    reveal_strlit("source");
    reveal_strlit("schema_version");
    reveal_strlit("safety_backup");
    assert("path"@.len() == 4 && "source"@.len() == 6 && "schema_version"@.len() == 14
        && "safety_backup"@.len() == 13);
    let kept = if saved {
        JsonV::Text(paths.safety)
    } else {
        JsonV::Null
    };
    let a = detail("path"@, JsonV::Text(paths.destination));
    let b = and_detail(a, "source"@, JsonV::Text(paths.source));
    let c = and_detail(b, "schema_version"@, JsonV::Int(n));
    lemma_detail("path"@, JsonV::Text(paths.destination));
    lemma_and_detail(a, "source"@, JsonV::Text(paths.source));
    lemma_and_detail(b, "schema_version"@, JsonV::Int(n));
    lemma_and_detail(c, "safety_backup"@, kept);
    assert(restore_result(paths, n, saved) == and_detail(c, "safety_backup"@, kept));
}

/// Where there is no database at the destination, a restore brings the backup there at once. Where
/// there is one, it is opened and backed up into the safety file first, step by step as any backup
/// is; once that succeeds it is closed, and the backup is brought.
#[verifier::spinoff_prover]
#[verifier::rlimit(50)]
pub proof fn a_restore_saves_and_replaces(
    paths: RestorePathsV,
    n: int,
    b: BackupV,
    reply: ReplyV,
)
    ensures
        ({
            let asked = StepV::<RestoreV, RepositoryErrorV>::Ask(
                RequestV::Exists(paths.destination),
                RestoreV { paths, stage: RestoreStageV::Present(n) },
            );
            let present = restore_on(asked, ReplyV::Flag(true));
            let ready = restore_on(present, ReplyV::Done);
            let saving = restore_on(ready, ReplyV::Done);
            let during = StepV::<RestoreV, RepositoryErrorV>::Ask(
                RequestV::BeginRead,
                RestoreV { paths, stage: RestoreStageV::Saving(n, b) },
            );
            let on = restore_on(during, reply);
            &&& brings_back(restore_on(asked, ReplyV::Flag(false)), paths, n, JsonV::Null)
            &&& restore_asks(present, RequestV::OpenFile(Handle::Existing, paths.destination))
            &&& restore_asks(ready, RequestV::Script(Handle::Existing, file_settings()))
            &&& backup_start(
                paths.destination,
                Handle::Existing,
                paths.safety,
                paths.home,
                paths.cwd,
            ) matches StepV::Ask(request, start) ==> saving == StepV::<
                RestoreV,
                RepositoryErrorV,
            >::Ask(request, RestoreV { paths, stage: RestoreStageV::Saving(n, start) })
            &&& match backup_next(b, reply) {
                StepV::Ask(request, after) => on == StepV::<RestoreV, RepositoryErrorV>::Ask(
                    request,
                    RestoreV { paths, stage: RestoreStageV::Saving(n, after) },
                ),
                StepV::Done(Ok(_)) => {
                    &&& restore_asks(on, RequestV::Close(Handle::Existing))
                    &&& brings_back(
                        restore_on(on, ReplyV::Done),
                        paths,
                        n,
                        JsonV::Text(paths.safety),
                    )
                },
                StepV::Done(Err(_)) => on matches StepV::Done(Err(_)),
            }
        }),
{
    lemma_brings_back(paths, n, false);
    lemma_brings_back(paths, n, true);
}

} // verus!
