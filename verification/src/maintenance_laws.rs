//! What holds of whole migrations, backups and restores.

use vstd::prelude::*;

use crate::errors::ErrorCode;
use crate::maintenance::{
    backup_next, backup_start, findings, is_applied, is_sound, is_version_row, migrate_next, newest,
    pending, restore_next, restore_start, BackupV, MigrateStageV, MigrationV, RestorePathsV,
    RestoreStageV, RestoreV,
};
use crate::path_util::{expanded, resolved};
use crate::protocol::{Handle, ReplyV, RequestV, RowV, StepV};
use crate::repository::{
    first_integer, integrity_query, schema_query, RepositoryErrorV, LATEST_SCHEMA_VERSION,
};

verus! {

// ---- migration ----

/// What a migration still applies is exactly what it knows and does not find applied, oldest
/// first.
pub proof fn pending_is_what_is_missing(rows: Seq<RowV>, version: int)
    ensures
        pending(rows).contains(version) <==> 1 <= version <= LATEST_SCHEMA_VERSION && !is_applied(
            rows,
            version,
        ),
        forall|i: int, j: int|
            0 <= i < j < pending(rows).len() ==> #[trigger] pending(rows)[i]
                < #[trigger] pending(rows)[j],
{
    let list = pending(rows);
    if !is_applied(rows, 1) {
        assert(list[0] == 1);
        if !is_applied(rows, 2) {
            assert(list[1] == 2);
        }
    } else if !is_applied(rows, 2) {
        assert(list[0] == 2);
    }
}

/// The newest version is the greatest of those that are applied.
pub proof fn newest_is_the_greatest(rows: Seq<RowV>)
    ensures
        newest(rows) >= 0,
        newest(rows) == 0 || is_applied(rows, newest(rows)),
        forall|version: int| #[trigger] is_applied(rows, version) ==> version <= newest(rows),
    decreases rows.len(),
{
    if rows.len() > 0 {
        let front = rows.drop_last();
        let row = rows.last();
        newest_is_the_greatest(front);
        if newest(front) > 0 && newest(rows) == newest(front) {
            let v = newest(front);
            let i = choose|i: int| 0 <= i < front.len() && #[trigger] is_version_row(front[i], v);
            assert(is_version_row(rows[i], v));
        }
        if newest(rows) != newest(front) {
            assert(is_version_row(rows[rows.len() - 1], newest(rows)));
        }
        assert forall|version: int| #[trigger] is_applied(rows, version) implies version <= newest(
            rows,
        ) by {
            let i = choose|i: int|
                0 <= i < rows.len() && #[trigger] is_version_row(rows[i], version);
            if i < front.len() {
                assert(is_version_row(front[i], version));
                assert(is_applied(front, version));
            }
        }
    }
}

/// A database that a newer library migrated is refused before any of its tables is touched.
pub proof fn a_newer_schema_is_refused(
    path: Seq<char>,
    rows: Seq<RowV>,
    version: int,
    now: Seq<char>,
)
    requires
        is_applied(rows, version),
        version > LATEST_SCHEMA_VERSION,
    ensures
        ({
            let m = MigrationV { path, stage: MigrateStageV::Versions };
            &&& migrate_next(m, ReplyV::Rows(rows), now) matches StepV::Done(
                Err(RepositoryErrorV::Kb(e)),
            )
            &&& e.code == ErrorCode::DbSchemaUnsupported
        }),
{
    newest_is_the_greatest(rows);
}

/// A database that is migrated already is left alone.
pub proof fn a_migrated_database_is_left_alone(path: Seq<char>, rows: Seq<RowV>, now: Seq<char>)
    requires
        newest(rows) <= LATEST_SCHEMA_VERSION,
        forall|version: int|
            1 <= version <= LATEST_SCHEMA_VERSION ==> #[trigger] is_applied(rows, version),
    ensures
        ({
            let m = MigrationV { path, stage: MigrateStageV::Versions };
            migrate_next(m, ReplyV::Rows(rows), now) is Done
        }),
        ({
            let m = MigrationV { path, stage: MigrateStageV::Versions };
            migrate_next(m, ReplyV::Rows(rows), now)->Done_0 is Ok
        }),
{
    assert(is_applied(rows, 1) && is_applied(rows, 2));
    assert(pending(rows).len() == 0);
}

// ---- backup ----

/// Where a backup stands after some replies.
pub open spec fn backup_after(first: StepV<BackupV, RepositoryErrorV>, replies: Seq<ReplyV>) -> StepV<
    BackupV,
    RepositoryErrorV,
>
    decreases replies.len(),
{
    if replies.len() == 0 {
        first
    } else {
        match backup_after(first, replies.drop_last()) {
            StepV::Ask(_, b) => backup_next(b, replies.last()),
            StepV::Done(result) => StepV::Done(result),
        }
    }
}

/// What a backup asks for after the first `k` replies.
pub open spec fn backup_asked(
    first: StepV<BackupV, RepositoryErrorV>,
    replies: Seq<ReplyV>,
    k: int,
) -> Option<RequestV> {
    match backup_after(first, replies.take(k)) {
        StepV::Ask(request, _) => Some(request),
        StepV::Done(_) => None,
    }
}

/// Whether a reply holds the findings of a check that found nothing.
pub open spec fn reports_sound(reply: ReplyV) -> bool {
    &&& reply matches ReplyV::Rows(rows)
    &&& findings(rows) matches Ok(list)
    &&& is_sound(list)
}

/// Whether a backup has heard that its copy is sound.
pub open spec fn copy_is_sound(
    first: StepV<BackupV, RepositoryErrorV>,
    replies: Seq<ReplyV>,
) -> bool {
    exists|k: int|
        {
            &&& 0 <= k < replies.len()
            &&& #[trigger] backup_asked(first, replies, k) == Some(
                RequestV::Query(Handle::Copy, integrity_query()),
            )
            &&& reports_sound(replies[k])
        }
}

proof fn lemma_copy_is_sound(first: StepV<BackupV, RepositoryErrorV>, replies: Seq<ReplyV>)
    requires
        replies.len() > 0,
    ensures
        copy_is_sound(first, replies.drop_last()) ==> copy_is_sound(first, replies),
        reports_sound(replies.last()) && (backup_after(first, replies.drop_last()) matches StepV::Ask(
            request,
            _,
        ) && request == RequestV::Query(Handle::Copy, integrity_query())) ==> copy_is_sound(
            first,
            replies,
        ),
{
    let front = replies.drop_last();
    if copy_is_sound(first, front) {
        let k = choose|k: int|
            {
                &&& 0 <= k < front.len()
                &&& #[trigger] backup_asked(first, front, k) == Some(
                    RequestV::Query(Handle::Copy, integrity_query()),
                )
                &&& reports_sound(front[k])
            };
        assert(front.take(k) =~= replies.take(k));
        assert(backup_asked(first, replies, k) == backup_asked(first, front, k));
    }
    let n = replies.len() - 1;
    assert(replies.take(n) =~= front);
    if backup_asked(first, replies, n) == Some(RequestV::Query(Handle::Copy, integrity_query()))
        && reports_sound(replies[n]) {
        assert(copy_is_sound(first, replies));
    }
}

/// What holds of a backup that goes on.
spec fn backing_up(
    first: StepV<BackupV, RepositoryErrorV>,
    replies: Seq<ReplyV>,
    request: RequestV,
    b: BackupV,
) -> bool {
    let start = first->Ask_1;
    &&& b.target == start.target && b.from == start.from && b.onto_itself == start.onto_itself
    &&& b.stage is Exists <==> replies.len() == 0
    &&& replies.len() == 0 ==> request == first->Ask_0
    &&& replies.len() > 0 ==> replies[0] == ReplyV::Flag(false) && !b.onto_itself
    &&& b.stage is Checked ==> request == RequestV::Query(Handle::Copy, integrity_query())
    &&& b.stage is Version ==> copy_is_sound(first, replies)
    &&& !(request is Rename)
}

proof fn lemma_backup(first: StepV<BackupV, RepositoryErrorV>, replies: Seq<ReplyV>)
    requires
        first matches StepV::Ask(request, b) && b.stage is Exists && request is Exists,
    ensures
        match backup_after(first, replies) {
            StepV::Ask(request, b) => backing_up(first, replies, request, b),
            StepV::Done(Ok(_)) => {
                &&& replies.len() > 0 && replies[0] == ReplyV::Flag(false)
                &&& !first->Ask_1.onto_itself
                &&& copy_is_sound(first, replies)
            },
            StepV::Done(Err(_)) => true,
        },
    decreases replies.len(),
{
    if replies.len() > 0 {
        lemma_backup(first, replies.drop_last());
        lemma_copy_is_sound(first, replies);
    }
}

/// A backup asks first whether its target exists, and asks for anything else only where it does
/// not and is not the database itself; one that succeeds has checked its copy.
pub proof fn a_backup_overwrites_nothing(
    path: Seq<char>,
    from: Handle,
    output: Seq<char>,
    home: Option<Seq<char>>,
    cwd: Seq<char>,
    replies: Seq<ReplyV>,
)
    ensures
        ({
            let first = backup_start(path, from, output, home, cwd);
            let target = expanded(output, home);
            let itself = path != ":memory:"@ && resolved(target, home, cwd) == resolved(
                path,
                home,
                cwd,
            );
            match backup_after(first, replies) {
                StepV::Ask(request, _) => request == RequestV::Exists(target) || (replies.len() > 0
                    && replies[0] == ReplyV::Flag(false) && !itself),
                StepV::Done(Ok(_)) => replies.len() > 0 && replies[0] == ReplyV::Flag(false)
                    && !itself && copy_is_sound(first, replies),
                StepV::Done(Err(_)) => true,
            }
        }),
{
    lemma_backup(backup_start(path, from, output, home, cwd), replies);
}

// ---- restore ----

/// Where a restore stands after some replies.
pub open spec fn restore_after(paths: RestorePathsV, replies: Seq<ReplyV>) -> StepV<
    RestoreV,
    RepositoryErrorV,
>
    decreases replies.len(),
{
    if replies.len() == 0 {
        restore_start(paths)
    } else {
        match restore_after(paths, replies.drop_last()) {
            StepV::Ask(_, r) => restore_next(r, replies.last()),
            StepV::Done(result) => StepV::Done(result),
        }
    }
}

/// What a restore asks for after the first `k` replies.
pub open spec fn restore_asked(paths: RestorePathsV, replies: Seq<ReplyV>, k: int) -> Option<
    RequestV,
> {
    match restore_after(paths, replies.take(k)) {
        StepV::Ask(request, _) => Some(request),
        StepV::Done(_) => None,
    }
}

/// Whether a restore has asked for `request` and heard `reply`.
pub open spec fn heard(
    paths: RestorePathsV,
    replies: Seq<ReplyV>,
    request: RequestV,
    reply: ReplyV,
) -> bool {
    exists|k: int|
        {
            &&& 0 <= k < replies.len()
            &&& #[trigger] restore_asked(paths, replies, k) == Some(request)
            &&& replies[k] == reply
        }
}

/// Whether a restore has heard that the backup is sound.
pub open spec fn source_is_sound(paths: RestorePathsV, replies: Seq<ReplyV>) -> bool {
    exists|reply: ReplyV|
        #[trigger] heard(
            paths,
            replies,
            RequestV::Query(Handle::Source, integrity_query()),
            reply,
        ) && reports_sound(reply)
}

/// Whether a restore has heard that the backup has schema `version`.
pub open spec fn source_has_version(
    paths: RestorePathsV,
    replies: Seq<ReplyV>,
    version: int,
) -> bool {
    exists|rows: Seq<RowV>|
        #[trigger] heard(
            paths,
            replies,
            RequestV::Query(Handle::Source, schema_query()),
            ReplyV::Rows(rows),
        ) && first_integer(rows) == Some(version)
}

/// Whether the reply `k` completes the backup of the existing database.
pub open spec fn completes_saving(paths: RestorePathsV, replies: Seq<ReplyV>, k: int) -> bool {
    &&& restore_after(paths, replies.take(k)) matches StepV::Ask(_, r)
    &&& r.stage matches RestoreStageV::Saving(_, b)
    &&& b.from == Handle::Existing
    &&& b.target == expanded(paths.safety, paths.home)
    &&& backup_next(b, replies[k]) matches StepV::Done(Ok(_))
}

/// Whether a restore has saved the existing database.
pub open spec fn existing_is_saved(paths: RestorePathsV, replies: Seq<ReplyV>) -> bool {
    exists|k: int| 0 <= k < replies.len() && #[trigger] completes_saving(paths, replies, k)
}

proof fn lemma_heard(
    paths: RestorePathsV,
    replies: Seq<ReplyV>,
    request: RequestV,
    reply: ReplyV,
)
    requires
        replies.len() > 0,
        heard(paths, replies.drop_last(), request, reply) || (restore_after(
            paths,
            replies.drop_last(),
        ) matches StepV::Ask(q, _) && q == request && replies.last() == reply),
    ensures
        heard(paths, replies, request, reply),
{
    let front = replies.drop_last();
    if heard(paths, front, request, reply) {
        let k = choose|k: int|
            {
                &&& 0 <= k < front.len()
                &&& #[trigger] restore_asked(paths, front, k) == Some(request)
                &&& front[k] == reply
            };
        assert(front.take(k) =~= replies.take(k));
        assert(restore_asked(paths, replies, k) == Some(request));
    } else {
        let n = replies.len() - 1;
        assert(replies.take(n) =~= front);
        assert(restore_asked(paths, replies, n) == Some(request));
    }
}

proof fn lemma_memory(paths: RestorePathsV, replies: Seq<ReplyV>)
    requires
        replies.len() > 0,
    ensures
        source_is_sound(paths, replies.drop_last()) ==> source_is_sound(paths, replies),
        forall|version: int| #[trigger]
            source_has_version(paths, replies.drop_last(), version) ==> source_has_version(
                paths,
                replies,
                version,
            ),
        existing_is_saved(paths, replies.drop_last()) ==> existing_is_saved(paths, replies),
        forall|request: RequestV, reply: ReplyV| #[trigger]
            heard(paths, replies.drop_last(), request, reply) ==> heard(
                paths,
                replies,
                request,
                reply,
            ),
{
    let front = replies.drop_last();
    assert forall|request: RequestV, reply: ReplyV| #[trigger]
        heard(paths, front, request, reply) implies heard(paths, replies, request, reply) by {
        lemma_heard(paths, replies, request, reply);
    }
    let check = RequestV::Query(Handle::Source, integrity_query());
    let ask = RequestV::Query(Handle::Source, schema_query());
    if source_is_sound(paths, front) {
        let reply = choose|reply: ReplyV|
            #[trigger] heard(paths, front, check, reply) && reports_sound(reply);
        assert(heard(paths, replies, check, reply));
    }
    assert forall|version: int| #[trigger] source_has_version(paths, front, version) implies
        source_has_version(paths, replies, version) by {
        let rows = choose|rows: Seq<RowV>|
            #[trigger] heard(paths, front, ask, ReplyV::Rows(rows)) && first_integer(rows) == Some(
                version,
            );
        assert(heard(paths, replies, ask, ReplyV::Rows(rows)));
    }
    if existing_is_saved(paths, front) {
        let k = choose|k: int|
            0 <= k < front.len() && #[trigger] completes_saving(paths, front, k);
        assert(front.take(k) =~= replies.take(k));
        assert(completes_saving(paths, replies, k));
    }
}

/// The schema version that a stage carries.
spec fn stage_version(stage: RestoreStageV) -> Option<int> {
    match stage {
        RestoreStageV::Present(v) => Some(v),
        RestoreStageV::ExistingOpened(v) => Some(v),
        RestoreStageV::ExistingReady(v) => Some(v),
        RestoreStageV::Saving(v, _) => Some(v),
        RestoreStageV::Saved(v) => Some(v),
        RestoreStageV::TempOpened(v, _) => Some(v),
        RestoreStageV::TempFilled(v, _) => Some(v),
        RestoreStageV::TempClosed(v, _) => Some(v),
        RestoreStageV::LogGone(v, _) => Some(v),
        RestoreStageV::MemoryGone(v, _) => Some(v),
        RestoreStageV::Renamed(v, _) => Some(v),
        _ => None,
    }
}

/// Whether a stage knows of a safety backup.
spec fn stage_saved(stage: RestoreStageV) -> Option<bool> {
    match stage {
        RestoreStageV::Saved(_) => Some(true),
        RestoreStageV::TempOpened(_, s) => Some(s),
        RestoreStageV::TempFilled(_, s) => Some(s),
        RestoreStageV::TempClosed(_, s) => Some(s),
        RestoreStageV::LogGone(_, s) => Some(s),
        RestoreStageV::MemoryGone(_, s) => Some(s),
        RestoreStageV::Renamed(_, s) => Some(s),
        _ => None,
    }
}

/// Whether the temporary file holds the backup.
spec fn stage_filled(stage: RestoreStageV) -> bool {
    match stage {
        RestoreStageV::TempClosed(_, _) => true,
        RestoreStageV::LogGone(_, _) => true,
        RestoreStageV::MemoryGone(_, _) => true,
        RestoreStageV::Renamed(_, _) => true,
        _ => false,
    }
}

/// The request that a stage waits for, where it matters later.
spec fn stage_request(paths: RestorePathsV, stage: RestoreStageV, request: RequestV) -> bool {
    match stage {
        RestoreStageV::Checked => request == RequestV::Query(Handle::Source, integrity_query()),
        RestoreStageV::Version => request == RequestV::Query(Handle::Source, schema_query()),
        RestoreStageV::Present(_) => request == RequestV::Exists(paths.destination),
        RestoreStageV::TempFilled(_, _) => request == RequestV::Copy(Handle::Source, Handle::Copy),
        RestoreStageV::Renamed(_, _) => request == RequestV::Rename(
            paths.temporary,
            paths.destination,
        ),
        _ => !(request is Rename),
    }
}

/// What holds of a restore that goes on.
spec fn restoring(
    paths: RestorePathsV,
    replies: Seq<ReplyV>,
    request: RequestV,
    r: RestoreV,
) -> bool {
    &&& r.paths == paths
    &&& stage_request(paths, r.stage, request)
    &&& r.stage is Version || stage_version(r.stage) is Some ==> source_is_sound(paths, replies)
    &&& stage_version(r.stage) matches Some(v) ==> v <= LATEST_SCHEMA_VERSION
        && source_has_version(paths, replies, v)
    &&& r.stage matches RestoreStageV::Saving(_, b) ==> b.from == Handle::Existing && b.target
        == expanded(paths.safety, paths.home)
    &&& stage_saved(r.stage) == Some(true) ==> existing_is_saved(paths, replies)
    &&& stage_saved(r.stage) == Some(false) ==> heard(
        paths,
        replies,
        RequestV::Exists(paths.destination),
        ReplyV::Flag(false),
    )
    &&& stage_filled(r.stage) ==> heard(
        paths,
        replies,
        RequestV::Copy(Handle::Source, Handle::Copy),
        ReplyV::Done,
    )
}

/// A step of a backup keeps what it copies from and to, and renames nothing.
proof fn lemma_backup_step(b: BackupV, reply: ReplyV)
    ensures
        backup_next(b, reply) matches StepV::Ask(request, c) ==> c.from == b.from && c.target
            == b.target && !(request is Rename),
{
}

proof fn lemma_saving_step(paths: RestorePathsV, replies: Seq<ReplyV>)
    requires
        replies.len() > 0,
        restore_after(paths, replies.drop_last()) matches StepV::Ask(request, r) && restoring(
            paths,
            replies.drop_last(),
            request,
            r,
        ) && r.stage is Saving,
    ensures
        restore_after(paths, replies) matches StepV::Ask(request, r) ==> restoring(
            paths,
            replies,
            request,
            r,
        ),
        !(restore_after(paths, replies) matches StepV::Done(Ok(_))),
{
    let front = replies.drop_last();
    let r = restore_after(paths, front)->Ask_1;
    lemma_memory(paths, replies);
    let n = replies.len() - 1;
    assert(replies.take(n) =~= front);
    if let RestoreStageV::Saving(v, b) = r.stage {
        lemma_backup_step(b, replies.last());
        if backup_next(b, replies.last()) matches StepV::Done(Ok(_)) {
            assert(completes_saving(paths, replies, n));
        }
    }
}

proof fn lemma_early_step(paths: RestorePathsV, replies: Seq<ReplyV>)
    requires
        replies.len() > 0,
        restore_after(paths, replies.drop_last()) matches StepV::Ask(request, r) && restoring(
            paths,
            replies.drop_last(),
            request,
            r,
        ) && stage_saved(r.stage) is None && !(r.stage is Saving),
    ensures
        restore_after(paths, replies) matches StepV::Ask(request, r) ==> restoring(
            paths,
            replies,
            request,
            r,
        ),
        !(restore_after(paths, replies) matches StepV::Done(Ok(_))),
{
    let front = replies.drop_last();
    let r = restore_after(paths, front)->Ask_1;
    let request = restore_after(paths, front)->Ask_0;
    lemma_memory(paths, replies);
    lemma_heard(paths, replies, request, replies.last());
}

proof fn lemma_late_step(paths: RestorePathsV, replies: Seq<ReplyV>)
    requires
        replies.len() > 0,
        restore_after(paths, replies.drop_last()) matches StepV::Ask(request, r) && restoring(
            paths,
            replies.drop_last(),
            request,
            r,
        ) && stage_saved(r.stage) is Some,
    ensures
        restore_after(paths, replies) matches StepV::Ask(request, r) ==> restoring(
            paths,
            replies,
            request,
            r,
        ),
        restore_after(paths, replies) matches StepV::Done(Ok(_)) ==> heard(
            paths,
            replies,
            RequestV::Rename(paths.temporary, paths.destination),
            ReplyV::Done,
        ),
{
    let front = replies.drop_last();
    let r = restore_after(paths, front)->Ask_1;
    let request = restore_after(paths, front)->Ask_0;
    lemma_memory(paths, replies);
    lemma_heard(paths, replies, request, replies.last());
}

proof fn lemma_restore(paths: RestorePathsV, replies: Seq<ReplyV>)
    ensures
        restore_after(paths, replies) matches StepV::Ask(request, r) ==> restoring(
            paths,
            replies,
            request,
            r,
        ),
        restore_after(paths, replies) matches StepV::Done(Ok(_)) ==> heard(
            paths,
            replies,
            RequestV::Rename(paths.temporary, paths.destination),
            ReplyV::Done,
        ),
    decreases replies.len(),
{
    if replies.len() > 0 {
        let front = replies.drop_last();
        lemma_restore(paths, front);
        match restore_after(paths, front) {
            StepV::Ask(_, r) => {
                if r.stage is Saving {
                    lemma_saving_step(paths, replies);
                } else if stage_saved(r.stage) is Some {
                    lemma_late_step(paths, replies);
                } else {
                    lemma_early_step(paths, replies);
                }
            },
            StepV::Done(_) => {
                lemma_memory(paths, replies);
            },
        }
    }
}

/// A restore replaces the destination only by the temporary file, and only once the backup has
/// been found sound and of a known schema, has been copied whole, and an existing database has
/// been saved.
pub proof fn a_restore_replaces_last(
    paths: RestorePathsV,
    replies: Seq<ReplyV>,
    from: Seq<char>,
    to: Seq<char>,
)
    requires
        restore_after(paths, replies) matches StepV::Ask(request, _) && request
            == RequestV::Rename(from, to),
    ensures
        from == paths.temporary,
        to == paths.destination,
        source_is_sound(paths, replies),
        exists|version: int| #[trigger]
            source_has_version(paths, replies, version) && version <= LATEST_SCHEMA_VERSION,
        heard(
            paths,
            replies,
            RequestV::Copy(Handle::Source, Handle::Copy),
            ReplyV::Done,
        ),
        existing_is_saved(paths, replies) || heard(
            paths,
            replies,
            RequestV::Exists(paths.destination),
            ReplyV::Flag(false),
        ),
{
    lemma_restore(paths, replies);
}

/// A restore that succeeds has replaced the destination.
pub proof fn a_successful_restore_replaced(paths: RestorePathsV, replies: Seq<ReplyV>)
    requires
        restore_after(paths, replies) matches StepV::Done(Ok(_)),
    ensures
        heard(
            paths,
            replies,
            RequestV::Rename(paths.temporary, paths.destination),
            ReplyV::Done,
        ),
{
    lemma_restore(paths, replies);
}

} // verus!
