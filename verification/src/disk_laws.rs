//! What backups and restores leave on the disk: the effect of their requests on files.

use vstd::prelude::*;

use crate::config::path_detail;
use crate::errors::{and_detail, detail};
use crate::json::{field, JsonV};
use crate::json_laws::{lemma_and_detail, lemma_detail};
use crate::maintenance::{
    backup_next, backup_start, file_settings, restore_next, restore_paths, restore_result, uri_of,
    BackupStageV, BackupV, RestorePathsV, RestoreStageV, RestoreV,
};
use crate::maintenance_laws::{backup_after, restore_after};
use crate::path_util::{
    a_resolved_path_is_final, expanded, final_name, is_absolute, last_name, lemma_beside,
    lemma_expanded, lemma_extended_name, lemma_joined_name, lemma_resolved_last,
    lemma_resolved_name, parent_path, path_joined, plain, resolved,
};
use crate::protocol::{Handle, ReplyV, RequestV, StepV};
use crate::repository::{first_integer, schema_query, RepositoryErrorV};
use crate::tables::Tables;

verus! {

/// What a database holds.
pub struct DatabaseV {
    pub tables: Tables,
    /// The schema version that its migrations have brought it to.
    pub version: int,
}

/// The files of a disk, by their places, and the places that the connections are open on.
pub struct Disk {
    pub files: Map<int, DatabaseV>,
    pub open: Map<Handle, int>,
}

/// A database file that has just been made.
pub open spec fn new_database() -> DatabaseV {
    DatabaseV {
        tables: Tables {
            projects: Seq::empty(),
            rules: Seq::empty(),
            overrides: Seq::empty(),
            history: Seq::empty(),
            audit: Seq::empty(),
        },
        version: 0,
    }
}

/// Whether a request that is answered by `reply` takes the disk from `d` to `e`, where `place` says
/// which place a path names. Of requests that failed, and of those that neither a backup nor a
/// restore makes, nothing is said.
pub open spec fn takes(
    place: spec_fn(Seq<char>) -> int,
    d: Disk,
    request: RequestV,
    reply: ReplyV,
    e: Disk,
) -> bool {
    match (request, reply) {
        (RequestV::Exists(p), ReplyV::Flag(found)) => e == d && found == d.files.contains_key(
            place(p),
        ),
        (RequestV::IsFile(p), ReplyV::Flag(found)) => e == d && (found ==> d.files.contains_key(
            place(p),
        )),
        (RequestV::CreateDirs(_), ReplyV::Done) => e == d,
        (RequestV::OpenFile(h, p), ReplyV::Done) => e == (Disk {
            files: if d.files.contains_key(place(p)) {
                d.files
            } else {
                d.files.insert(place(p), new_database())
            },
            open: d.open.insert(h, place(p)),
        }),
        (RequestV::OpenReadOnly(h, uri), ReplyV::Done) => {
            &&& e.files == d.files
            &&& forall|p: Seq<char>|
                uri == #[trigger] uri_of(p) + "?mode=ro"@ ==> e.open == d.open.insert(h, place(p))
        },
        (RequestV::Close(h), ReplyV::Done) => e == (Disk { open: d.open.remove(h), ..d }),
        (RequestV::Script(_, script), ReplyV::Done) => script == file_settings() ==> e == d,
        (RequestV::Query(h, query), ReplyV::Rows(rows)) => {
            &&& e == d
            &&& query == schema_query() ==> (first_integer(rows) matches Some(n) ==> n
                == d.files[d.open[h]].version)
        },
        (RequestV::Copy(from, to), ReplyV::Done) => e == (Disk {
            files: d.files.insert(d.open[to], d.files[d.open[from]]),
            ..d
        }),
        (RequestV::Remove(p), ReplyV::Done) => e == (Disk { files: d.files.remove(place(p)), ..d }),
        (RequestV::Rename(p, q), ReplyV::Done) => e == (Disk {
            files: d.files.remove(place(p)).insert(place(q), d.files[place(p)]),
            ..d
        }),
        _ => true,
    }
}

// ---- backup ----

/// Whether `disks` are the disks before and after each reply to a backup.
pub open spec fn backup_ran(
    place: spec_fn(Seq<char>) -> int,
    first: StepV<BackupV, RepositoryErrorV>,
    replies: Seq<ReplyV>,
    disks: Seq<Disk>,
) -> bool
    decreases replies.len(),
{
    &&& disks.len() == replies.len() + 1
    &&& replies.len() > 0 ==> {
        &&& backup_ran(place, first, replies.drop_last(), disks.drop_last())
        &&& backup_after(first, replies.drop_last()) matches StepV::Ask(request, _) ==> takes(
            place,
            disks[disks.len() - 2],
            request,
            replies.last(),
            disks.last(),
        )
    }
}

/// What a backup says that it made.
pub open spec fn backup_report(target: Seq<char>, version: int) -> JsonV {
    and_detail(path_detail(target), "schema_version"@, JsonV::Int(version))
}

/// What holds of the disk while a backup goes on, with `d` the disk that it began with.
spec fn backing(
    place: spec_fn(Seq<char>) -> int,
    d: Disk,
    e: Disk,
    request: RequestV,
    b: BackupV,
) -> bool {
    let to = place(b.target);
    let copied = d.files[d.open[b.from]];
    &&& e.files.remove(to) == d.files.remove(to)
    &&& e.open.remove(Handle::Copy) == d.open.remove(Handle::Copy)
    &&& match b.stage {
        BackupStageV::Exists => request == RequestV::Exists(b.target) && e == d,
        BackupStageV::Dirs => request is CreateDirs && !d.files.contains_key(to) && e == d,
        BackupStageV::Opened => request == RequestV::OpenFile(Handle::Copy, b.target)
            && !d.files.contains_key(to) && e == d,
        BackupStageV::Copied => request == RequestV::Copy(b.from, Handle::Copy)
            && !d.files.contains_key(to) && e.open[Handle::Copy] == to,
        BackupStageV::Checked => request is Query && !d.files.contains_key(to) && e.files
            == d.files.insert(to, copied),
        BackupStageV::Version => request == RequestV::Query(b.from, schema_query())
            && !d.files.contains_key(to) && e.files == d.files.insert(to, copied),
        BackupStageV::Discarded(_) => true,
    }
}

proof fn lemma_backing(
    place: spec_fn(Seq<char>) -> int,
    d: Disk,
    e: Disk,
    after: Disk,
    request: RequestV,
    b: BackupV,
    reply: ReplyV,
)
    requires
        backing(place, d, e, request, b),
        takes(place, e, request, reply, after),
        b.from != Handle::Copy,
        d.open.contains_key(b.from),
        d.files.contains_key(d.open[b.from]),
    ensures
        match backup_next(b, reply) {
            StepV::Ask(q, c) => c.from == b.from && c.target == b.target && (c.stage is Discarded
                || backing(place, d, after, q, c)),
            StepV::Done(Ok(v)) => {
                &&& !d.files.contains_key(place(b.target))
                &&& after.files == d.files.insert(place(b.target), d.files[d.open[b.from]])
                &&& after.open.remove(Handle::Copy) == d.open.remove(Handle::Copy)
                &&& v == backup_report(b.target, d.files[d.open[b.from]].version)
            },
            StepV::Done(Err(_)) => true,
        },
{
    let to = place(b.target);
    assert(e.open[b.from] == d.open[b.from]) by {
        assert(e.open.remove(Handle::Copy)[b.from] == d.open.remove(Handle::Copy)[b.from]);
    }
    if d.open[b.from] != to {
        assert(e.files.remove(to)[d.open[b.from]] == d.files.remove(to)[d.open[b.from]]);
    }
    if after.files == e.files.insert(to, d.files[d.open[b.from]]) {
        assert(after.files.remove(to) =~= e.files.remove(to));
        assert(after.files =~= d.files.insert(to, d.files[d.open[b.from]])) by {
            assert(after.files =~= after.files.remove(to).insert(to, after.files[to]));
            assert(d.files.insert(to, d.files[d.open[b.from]]) =~= d.files.remove(to).insert(
                to,
                d.files[d.open[b.from]],
            ));
        }
    }
    assert(e.files.insert(to, new_database()).remove(to) =~= e.files.remove(to));
    assert(e.open.insert(Handle::Copy, to).remove(Handle::Copy) =~= e.open.remove(Handle::Copy));
    assert(d.files.insert(to, d.files[d.open[b.from]]).remove(to) =~= d.files.remove(to));
}

/// A discarded backup ends with an error.
proof fn lemma_discarded(b: BackupV, reply: ReplyV)
    requires
        b.stage is Discarded,
    ensures
        backup_next(b, reply) matches StepV::Done(Err(_)),
{
}

proof fn lemma_backup_ran(
    place: spec_fn(Seq<char>) -> int,
    first: StepV<BackupV, RepositoryErrorV>,
    replies: Seq<ReplyV>,
    disks: Seq<Disk>,
)
    requires
        first matches StepV::Ask(request, b) && b.stage is Exists && request == RequestV::Exists(
            b.target,
        ) && b.from != Handle::Copy && disks[0].open.contains_key(b.from)
            && disks[0].files.contains_key(disks[0].open[b.from]),
        backup_ran(place, first, replies, disks),
    ensures
        backup_after(first, replies) matches StepV::Ask(request, b) ==> b.from
            == first->Ask_1.from && b.target == first->Ask_1.target && (b.stage is Discarded
            || backing(place, disks[0], disks.last(), request, b)),
        replies.len() > 0 && (backup_after(first, replies.drop_last()) is Ask) ==> (backup_after(
            first,
            replies,
        ) matches StepV::Done(Ok(v)) ==> {
            let b = first->Ask_1;
            let d = disks[0];
            &&& !d.files.contains_key(place(b.target))
            &&& disks.last().files == d.files.insert(place(b.target), d.files[d.open[b.from]])
            &&& v == backup_report(b.target, d.files[d.open[b.from]].version)
        }),
    decreases replies.len(),
{
    if replies.len() > 0 {
        let front = replies.drop_last();
        lemma_backup_ran(place, first, front, disks.drop_last());
        if let StepV::Ask(request, b) = backup_after(first, front) {
            if b.stage is Discarded {
                lemma_discarded(b, replies.last());
            } else {
                lemma_backing(
                    place,
                    disks[0],
                    disks[disks.len() - 2],
                    disks.last(),
                    request,
                    b,
                    replies.last(),
                );
            }
        }
    }
}

/// A backup that succeeds has made a file that was not there before, which holds what the database
/// held, has changed no other file, and reports the schema version of the database. Its last
/// reply is the one that it succeeds with.
pub proof fn a_backup_holds_the_database(
    place: spec_fn(Seq<char>) -> int,
    path: Seq<char>,
    from: Handle,
    output: Seq<char>,
    home: Option<Seq<char>>,
    cwd: Seq<char>,
    replies: Seq<ReplyV>,
    disks: Seq<Disk>,
)
    requires
        from != Handle::Copy,
        disks[0].open.contains_key(from),
        disks[0].files.contains_key(disks[0].open[from]),
        backup_ran(place, backup_start(path, from, output, home, cwd), replies, disks),
        replies.len() > 0,
        backup_after(backup_start(path, from, output, home, cwd), replies.drop_last()) is Ask,
        backup_after(backup_start(path, from, output, home, cwd), replies) matches StepV::Done(
            Ok(_),
        ),
    ensures
        ({
            let target = expanded(output, home);
            let held = disks[0].files[disks[0].open[from]];
            let v = backup_report(target, held.version);
            &&& !disks[0].files.contains_key(place(target))
            &&& disks.last().files == disks[0].files.insert(place(target), held)
            &&& backup_after(backup_start(path, from, output, home, cwd), replies)
                == StepV::<BackupV, RepositoryErrorV>::Done(Ok(v))
            &&& field(v, "path"@) == Some(JsonV::Text(target))
            &&& field(v, "schema_version"@) == Some(JsonV::Int(held.version))
        }),
{
    let target = expanded(output, home);
    lemma_backup_ran(place, backup_start(path, from, output, home, cwd), replies, disks);
    reveal_strlit("path");
    reveal_strlit("schema_version");
    assert("path"@.len() == 4 && "schema_version"@.len() == 14);
    lemma_detail("path"@, JsonV::Text(target));
    lemma_and_detail(
        path_detail(target),
        "schema_version"@,
        JsonV::Int(disks[0].files[disks[0].open[from]].version),
    );
}

// ---- restore ----

/// Whether `disks` are the disks before and after each reply to a restore.
pub open spec fn restore_ran(
    place: spec_fn(Seq<char>) -> int,
    paths: RestorePathsV,
    replies: Seq<ReplyV>,
    disks: Seq<Disk>,
) -> bool
    decreases replies.len(),
{
    &&& disks.len() == replies.len() + 1
    &&& replies.len() > 0 ==> {
        &&& restore_ran(place, paths, replies.drop_last(), disks.drop_last())
        &&& restore_after(paths, replies.drop_last()) matches StepV::Ask(request, _) ==> takes(
            place,
            disks[disks.len() - 2],
            request,
            replies.last(),
            disks.last(),
        )
    }
}

/// Whether the files that a restore makes are apart from each other and from those that it reads
/// and removes, and the backup is read where it lies. [`the_files_of_a_restore_are_apart`] says
/// when they are.
pub open spec fn apart(place: spec_fn(Seq<char>) -> int, paths: RestorePathsV) -> bool {
    let made = place(paths.temporary);
    let saved = place(expanded(paths.safety, paths.home));
    let read = resolved(paths.source, paths.home, paths.cwd);
    &&& made != saved && made != place(paths.source) && made != place(paths.destination)
    &&& made != place(paths.destination + "-wal"@) && made != place(paths.destination + "-shm"@)
    &&& saved != place(paths.destination + "-wal"@) && saved != place(
        paths.destination + "-shm"@,
    )
    &&& paths.uri == uri_of(read) + "?mode=ro"@
    &&& place(read) == place(paths.source)
}

/// The disk when a restore begins to save the existing database.
spec fn both_open(place: spec_fn(Seq<char>) -> int, paths: RestorePathsV, d: Disk) -> Disk {
    Disk {
        open: d.open.insert(Handle::Source, place(paths.source)).insert(
            Handle::Existing,
            place(paths.destination),
        ),
        ..d
    }
}

/// Whether the existing database is saved, or there is none.
spec fn safe(
    place: spec_fn(Seq<char>) -> int,
    paths: RestorePathsV,
    d: Disk,
    e: Disk,
    saved: bool,
) -> bool {
    let to = place(expanded(paths.safety, paths.home));
    &&& saved == d.files.contains_key(place(paths.destination))
    &&& saved ==> {
        &&& !d.files.contains_key(to)
        &&& e.files.contains_key(to)
        &&& e.files[to] == d.files[place(paths.destination)]
    }
}

/// Whether the connection to the backup is open on it, and the backup holds what it held.
spec fn readable(
    place: spec_fn(Seq<char>) -> int,
    paths: RestorePathsV,
    d: Disk,
    e: Disk,
    version: int,
) -> bool {
    let from = place(paths.source);
    &&& d.files.contains_key(from) && version == d.files[from].version
    &&& e.open.contains_key(Handle::Source) && e.open[Handle::Source] == from
    &&& e.files.contains_key(from) && e.files[from] == d.files[from]
}

/// Whether the temporary file holds what the backup held.
spec fn filled(
    place: spec_fn(Seq<char>) -> int,
    paths: RestorePathsV,
    d: Disk,
    e: Disk,
    version: int,
) -> bool {
    let from = place(paths.source);
    let made = place(paths.temporary);
    &&& d.files.contains_key(from) && version == d.files[from].version
    &&& e.files.contains_key(made) && e.files[made] == d.files[from]
}

/// What holds of the disk while a restore goes on, with `d` the disk that it began with.
spec fn restores(
    place: spec_fn(Seq<char>) -> int,
    d: Disk,
    e: Disk,
    request: RequestV,
    r: RestoreV,
) -> bool {
    let paths = r.paths;
    let from = place(paths.source);
    let to = place(paths.destination);
    let begun = Disk { open: d.open.insert(Handle::Source, from), ..d };
    match r.stage {
        RestoreStageV::Found => request == RequestV::IsFile(paths.source) && e == d,
        RestoreStageV::Dirs => request is CreateDirs && e == d && d.files.contains_key(from),
        RestoreStageV::Opened => request == RequestV::OpenReadOnly(Handle::Source, paths.uri) && e
            == d && d.files.contains_key(from),
        RestoreStageV::Checked => request is Query && e == begun && d.files.contains_key(from),
        RestoreStageV::Version => request == RequestV::Query(Handle::Source, schema_query()) && e
            == begun && d.files.contains_key(from),
        RestoreStageV::Present(v) => {
            &&& request == RequestV::Exists(paths.destination)
            &&& e == begun
            &&& readable(place, paths, d, e, v)
        },
        RestoreStageV::ExistingOpened(v) => {
            &&& request == RequestV::OpenFile(Handle::Existing, paths.destination)
            &&& e == begun
            &&& d.files.contains_key(to)
            &&& readable(place, paths, d, e, v)
        },
        RestoreStageV::ExistingReady(v) => {
            &&& request == RequestV::Script(Handle::Existing, file_settings())
            &&& e == both_open(place, paths, d)
            &&& d.files.contains_key(to)
            &&& readable(place, paths, d, e, v)
        },
        RestoreStageV::Saving(v, b) => {
            &&& b.from == Handle::Existing && b.target == expanded(paths.safety, paths.home)
            &&& d.files.contains_key(to)
            &&& d.files.contains_key(from) && v == d.files[from].version
            &&& b.stage is Discarded || backing(place, both_open(place, paths, d), e, request, b)
        },
        RestoreStageV::Saved(v) => {
            &&& request == RequestV::Close(Handle::Existing)
            &&& safe(place, paths, d, e, true)
            &&& readable(place, paths, d, e, v)
        },
        RestoreStageV::TempOpened(v, saved) => {
            &&& request == RequestV::OpenFile(Handle::Copy, paths.temporary)
            &&& safe(place, paths, d, e, saved)
            &&& readable(place, paths, d, e, v)
        },
        RestoreStageV::TempFilled(v, saved) => {
            &&& request == RequestV::Copy(Handle::Source, Handle::Copy)
            &&& e.open[Handle::Copy] == place(paths.temporary)
            &&& safe(place, paths, d, e, saved)
            &&& readable(place, paths, d, e, v)
        },
        RestoreStageV::TempClosed(v, saved) => {
            &&& request == RequestV::Close(Handle::Copy)
            &&& safe(place, paths, d, e, saved)
            &&& filled(place, paths, d, e, v)
        },
        RestoreStageV::LogGone(v, saved) => {
            &&& request == RequestV::Remove(paths.destination + "-wal"@)
            &&& safe(place, paths, d, e, saved)
            &&& filled(place, paths, d, e, v)
        },
        RestoreStageV::MemoryGone(v, saved) => {
            &&& request == RequestV::Remove(paths.destination + "-shm"@)
            &&& safe(place, paths, d, e, saved)
            &&& filled(place, paths, d, e, v)
        },
        RestoreStageV::Renamed(v, saved) => {
            &&& request == RequestV::Rename(paths.temporary, paths.destination)
            &&& safe(place, paths, d, e, saved)
            &&& filled(place, paths, d, e, v)
        },
        RestoreStageV::Abandoned(_) => true,
    }
}

/// What a restore that succeeds leaves and reports.
pub open spec fn restored(
    place: spec_fn(Seq<char>) -> int,
    paths: RestorePathsV,
    d: Disk,
    e: Disk,
    v: JsonV,
) -> bool {
    let from = place(paths.source);
    let to = place(paths.destination);
    let kept = place(expanded(paths.safety, paths.home));
    let existed = d.files.contains_key(to);
    &&& d.files.contains_key(from)
    &&& e.files.contains_key(to) && e.files[to] == d.files[from]
    &&& existed ==> !d.files.contains_key(kept) && e.files.contains_key(kept) && e.files[kept]
        == d.files[to]
    &&& v == restore_result(paths, d.files[from].version, existed)
}

proof fn lemma_restores_early(
    place: spec_fn(Seq<char>) -> int,
    d: Disk,
    e: Disk,
    after: Disk,
    request: RequestV,
    r: RestoreV,
    reply: ReplyV,
)
    requires
        apart(place, r.paths),
        restores(place, d, e, request, r),
        takes(place, e, request, reply, after),
        match r.stage {
            RestoreStageV::Found => true,
            RestoreStageV::Dirs => true,
            RestoreStageV::Opened => true,
            RestoreStageV::Checked => true,
            RestoreStageV::Version => true,
            RestoreStageV::Present(_) => true,
            RestoreStageV::ExistingOpened(_) => true,
            RestoreStageV::ExistingReady(_) => true,
            _ => false,
        },
    ensures
        match restore_next(r, reply) {
            StepV::Ask(q, s) => s.paths == r.paths && restores(place, d, after, q, s),
            StepV::Done(Ok(_)) => false,
            StepV::Done(Err(_)) => true,
        },
{
}

proof fn lemma_restores_saving(
    place: spec_fn(Seq<char>) -> int,
    d: Disk,
    e: Disk,
    after: Disk,
    request: RequestV,
    r: RestoreV,
    reply: ReplyV,
)
    requires
        apart(place, r.paths),
        restores(place, d, e, request, r),
        takes(place, e, request, reply, after),
        r.stage is Saving,
    ensures
        match restore_next(r, reply) {
            StepV::Ask(q, s) => s.paths == r.paths && restores(place, d, after, q, s),
            StepV::Done(Ok(_)) => false,
            StepV::Done(Err(_)) => true,
        },
{
    let open = both_open(place, r.paths, d);
    if let RestoreStageV::Saving(v, b) = r.stage {
        if b.stage is Discarded {
            lemma_discarded(b, reply);
        } else {
            lemma_backing(place, open, e, after, request, b, reply);
            assert(open.open.remove(Handle::Copy).contains_key(Handle::Source));
            assert(open.open.remove(Handle::Copy)[Handle::Source] == place(r.paths.source));
        }
    }
}

proof fn lemma_restores_late(
    place: spec_fn(Seq<char>) -> int,
    d: Disk,
    e: Disk,
    after: Disk,
    request: RequestV,
    r: RestoreV,
    reply: ReplyV,
)
    requires
        apart(place, r.paths),
        restores(place, d, e, request, r),
        takes(place, e, request, reply, after),
        match r.stage {
            RestoreStageV::Saved(_) => true,
            RestoreStageV::TempOpened(_, _) => true,
            RestoreStageV::TempFilled(_, _) => true,
            RestoreStageV::TempClosed(_, _) => true,
            RestoreStageV::LogGone(_, _) => true,
            RestoreStageV::MemoryGone(_, _) => true,
            RestoreStageV::Renamed(_, _) => true,
            RestoreStageV::Abandoned(_) => true,
            _ => false,
        },
    ensures
        match restore_next(r, reply) {
            StepV::Ask(q, s) => s.paths == r.paths && restores(place, d, after, q, s),
            StepV::Done(Ok(v)) => restored(place, r.paths, d, after, v),
            StepV::Done(Err(_)) => true,
        },
{
}

proof fn lemma_restore_ran(
    place: spec_fn(Seq<char>) -> int,
    paths: RestorePathsV,
    replies: Seq<ReplyV>,
    disks: Seq<Disk>,
)
    requires
        apart(place, paths),
        restore_ran(place, paths, replies, disks),
    ensures
        restore_after(paths, replies) matches StepV::Ask(request, r) ==> r.paths == paths
            && restores(place, disks[0], disks.last(), request, r),
        replies.len() > 0 && (restore_after(paths, replies.drop_last()) is Ask) ==> (restore_after(
            paths,
            replies,
        ) matches StepV::Done(Ok(v)) ==> restored(place, paths, disks[0], disks.last(), v)),
    decreases replies.len(),
{
    if replies.len() > 0 {
        let front = replies.drop_last();
        lemma_restore_ran(place, paths, front, disks.drop_last());
        if let StepV::Ask(request, r) = restore_after(paths, front) {
            let e = disks[disks.len() - 2];
            let after = disks.last();
            let reply = replies.last();
            if r.stage is Saving {
                lemma_restores_saving(place, disks[0], e, after, request, r, reply);
            } else if let RestoreStageV::Found
                | RestoreStageV::Dirs
                | RestoreStageV::Opened
                | RestoreStageV::Checked
                | RestoreStageV::Version
                | RestoreStageV::Present(_)
                | RestoreStageV::ExistingOpened(_)
                | RestoreStageV::ExistingReady(_) = r.stage {
                lemma_restores_early(place, disks[0], e, after, request, r, reply);
            } else {
                lemma_restores_late(place, disks[0], e, after, request, r, reply);
            }
        }
    }
}

/// After a restore that succeeds the destination holds what the backup held, and a database that
/// was there before is held by the safety file, which was not there before. The report names the
/// schema version of the backup, and the safety file where there is one. The last reply is the
/// one that the restore succeeds with.
pub proof fn a_restore_brings_the_backup_back(
    place: spec_fn(Seq<char>) -> int,
    paths: RestorePathsV,
    replies: Seq<ReplyV>,
    disks: Seq<Disk>,
)
    requires
        apart(place, paths),
        restore_ran(place, paths, replies, disks),
        replies.len() > 0,
        restore_after(paths, replies.drop_last()) is Ask,
        restore_after(paths, replies) matches StepV::Done(Ok(_)),
    ensures
        ({
            let v = restore_after(paths, replies)->Done_0->Ok_0;
            let existed = disks[0].files.contains_key(place(paths.destination));
            &&& restored(place, paths, disks[0], disks.last(), v)
            &&& field(v, "path"@) == Some(JsonV::Text(paths.destination))
            &&& field(v, "source"@) == Some(JsonV::Text(paths.source))
            &&& field(v, "schema_version"@) == Some(
                JsonV::Int(disks[0].files[place(paths.source)].version),
            )
            &&& field(v, "safety_backup"@) == Some(
                if existed {
                    JsonV::Text(paths.safety)
                } else {
                    JsonV::Null
                },
            )
        }),
{
    lemma_restore_ran(place, paths, replies, disks);
    let version = JsonV::Int(disks[0].files[place(paths.source)].version);
    let kept = if disks[0].files.contains_key(place(paths.destination)) {
        JsonV::Text(paths.safety)
    } else {
        JsonV::Null
    };
    reveal_strlit("path");
    reveal_strlit("source");
    reveal_strlit("schema_version");
    reveal_strlit("safety_backup");
    assert("path"@.len() == 4 && "source"@.len() == 6 && "schema_version"@.len() == 14
        && "safety_backup"@.len() == 13);
    let a = detail("path"@, JsonV::Text(paths.destination));
    let b = and_detail(a, "source"@, JsonV::Text(paths.source));
    let c = and_detail(b, "schema_version"@, version);
    lemma_detail("path"@, JsonV::Text(paths.destination));
    lemma_and_detail(a, "source"@, JsonV::Text(paths.source));
    lemma_and_detail(b, "schema_version"@, version);
    lemma_and_detail(c, "safety_backup"@, kept);
}

/// A restored backup holds what the database held when it was backed up, and the restore reports
/// the schema version that the database had then.
pub proof fn a_restored_backup_holds_the_database(
    place: spec_fn(Seq<char>) -> int,
    path: Seq<char>,
    output: Seq<char>,
    home: Option<Seq<char>>,
    cwd: Seq<char>,
    saving: Seq<ReplyV>,
    before: Seq<Disk>,
    paths: RestorePathsV,
    replies: Seq<ReplyV>,
    after: Seq<Disk>,
)
    requires
        before[0].open.contains_key(Handle::Main),
        before[0].files.contains_key(before[0].open[Handle::Main]),
        backup_ran(place, backup_start(path, Handle::Main, output, home, cwd), saving, before),
        saving.len() > 0,
        backup_after(backup_start(path, Handle::Main, output, home, cwd), saving.drop_last()) is Ask,
        backup_after(backup_start(path, Handle::Main, output, home, cwd), saving) matches StepV::Done(
            Ok(_),
        ),
        paths.source == expanded(output, home),
        apart(place, paths),
        after[0].files.contains_key(place(paths.source)),
        after[0].files[place(paths.source)] == before.last().files[place(paths.source)],
        restore_ran(place, paths, replies, after),
        replies.len() > 0,
        restore_after(paths, replies.drop_last()) is Ask,
        restore_after(paths, replies) matches StepV::Done(Ok(_)),
    ensures
        ({
            let held = before[0].files[before[0].open[Handle::Main]];
            let v = restore_after(paths, replies)->Done_0->Ok_0;
            &&& after.last().files[place(paths.destination)] == held
            &&& field(v, "schema_version"@) == Some(JsonV::Int(held.version))
        }),
{
    a_backup_holds_the_database(place, path, Handle::Main, output, home, cwd, saving, before);
    a_restore_brings_the_backup_back(place, paths, replies, after);
}

/// Whether the paths that resolve to one text are those of one place: no links are among them.
pub open spec fn placed_by_text(place: spec_fn(Seq<char>) -> int, cwd: Seq<char>) -> bool {
    forall|p: Seq<char>, q: Seq<char>|
        #![trigger place(p), place(q)]
        place(p) == place(q) <==> resolved(p, None, cwd) == resolved(q, None, cwd)
}

/// A file that is named `name` below `lead` keeps that name when its path is resolved.
proof fn lemma_made(lead: Seq<char>, name: Seq<char>, cwd: Seq<char>)
    requires
        plain(name),
        name.len() > 2,
    ensures
        final_name(resolved(path_joined(lead, name), None, cwd)) == name,
{
    reveal_strlit("..");
    lemma_joined_name(lead, name);
    lemma_resolved_name(path_joined(lead, name), None, cwd);
}

/// A path with four more characters resolves to a name that is at most four characters longer.
proof fn lemma_suffixed(path: Seq<char>, suffix: Seq<char>, cwd: Seq<char>)
    requires
        last_name(path) is Some,
        !suffix.contains('/'),
        suffix.len() == 4,
    ensures
        final_name(resolved(path + suffix, None, cwd)).len() <= last_name(path)->0.len() + 4,
{
    reveal_strlit(".");
    reveal_strlit("..");
    lemma_resolved_last(path, None, cwd);
    lemma_extended_name(path, suffix);
    let name = final_name(path) + suffix;
    assert(!name.contains('/')) by {
        if name.contains('/') {
            let i = name.index_of('/');
            assert(name[i] == '/');
            if i < final_name(path).len() {
                assert(final_name(path)[i] == '/');
            } else {
                assert(suffix[i - final_name(path).len()] == '/');
            }
        }
    }
    lemma_resolved_name(path + suffix, None, cwd);
}

/// The names that a restore makes hold no separator.
proof fn lemma_names(name: Seq<char>, stamp: Seq<char>)
    requires
        !name.contains('/'),
        !stamp.contains('/'),
    ensures
        ({
            let made = "."@ + name + ".restore-"@ + stamp;
            let saved = name + ".safety-"@ + stamp + ".db"@;
            &&& plain(made) && made.len() == name.len() + stamp.len() + 10
            &&& plain(saved) && saved.len() == name.len() + stamp.len() + 11
        }),
{
    reveal_strlit(".");
    reveal_strlit(".restore-");
    reveal_strlit(".safety-");
    reveal_strlit(".db");
    let made = "."@ + name + ".restore-"@ + stamp;
    let saved = name + ".safety-"@ + stamp + ".db"@;
    let n = name.len() as int;
    let t = stamp.len() as int;
    assert forall|i: int| 0 <= i < made.len() implies made[i] != '/' by {
        if 1 <= i < n + 1 {
            assert(made[i] == name[i - 1]);
        } else if i >= n + 10 {
            assert(made[i] == stamp[i - n - 10]);
        }
    }
    assert forall|i: int| 0 <= i < saved.len() implies saved[i] != '/' by {
        if i < n {
            assert(saved[i] == name[i]);
        } else if n + 8 <= i < n + 8 + t {
            assert(saved[i] == stamp[i - n - 8]);
        }
    }
}

/// The files that a restore makes are apart from each other and from those that it reads and
/// removes, whatever the names of the backup and of the destination, unless the backup is itself
/// the temporary file. The places of files go by their paths, the working directory and the home
/// start at the root, the destination has a last name, and the stamp holds no separator.
pub proof fn the_files_of_a_restore_are_apart(
    place: spec_fn(Seq<char>) -> int,
    source: Seq<char>,
    destination: Seq<char>,
    home: Option<Seq<char>>,
    cwd: Seq<char>,
    stamp: Seq<char>,
)
    requires
        placed_by_text(place, cwd),
        is_absolute(cwd),
        home matches Some(h) ==> is_absolute(h),
        !stamp.contains('/'),
        last_name(expanded(destination, home)) is Some,
        ({
            let paths = restore_paths(source, destination, home, cwd, stamp);
            place(paths.source) != place(paths.temporary)
        }),
    ensures
        apart(place, restore_paths(source, destination, home, cwd, stamp)),
{
    let paths = restore_paths(source, destination, home, cwd, stamp);
    let to = paths.destination;
    let name = last_name(to)->0;
    let parent = parent_path(to)->0;
    let made = "."@ + name + ".restore-"@ + stamp;
    let saved = name + ".safety-"@ + stamp + ".db"@;
    reveal_strlit("/");
    reveal_strlit("-wal");
    reveal_strlit("-shm");
    lemma_expanded(source, home);
    lemma_expanded(destination, home);
    lemma_resolved_last(to, None, cwd);
    assert(parent_path(to) is Some);
    lemma_names(name, stamp);
    lemma_made(parent, made, cwd);
    lemma_made(parent, saved, cwd);
    lemma_beside(to, saved, home);
    lemma_suffixed(to, "-wal"@, cwd);
    lemma_suffixed(to, "-shm"@, cwd);
    assert(paths.temporary == path_joined(parent, made));
    assert(paths.safety == path_joined(parent, saved));
    let read = resolved(paths.source, home, cwd);
    a_resolved_path_is_final(paths.source, home, cwd, None, cwd);
    assert(resolved(paths.source, None, cwd) == read);
}

} // verus!
