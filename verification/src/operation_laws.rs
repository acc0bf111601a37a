//! What whole operations of the service ask for and answer.

use vstd::prelude::*;

use crate::checklist::{an_accepted_checklist_is_proper, checklist_of};
use crate::config::LocationV;
use crate::description::{
    carried_revision, description_value, effective_value, knowledge_value, revision_of,
    summary_value,
};
use crate::errors::{and_detail, detail, ErrorCode, ErrorV};
use crate::json::{field, lookup, put_is_found, text_field, texts, JsonV};
use crate::json_laws::{lemma_and_detail, lemma_detail, tidy};
use crate::json_util::{canonical, text_digest};
use crate::laws::lemma_overlay;
use crate::models::{validated_selection, ChecklistV, RuleV, SelectionErrorV, SelectionV};
use crate::override_laws::{
    conflicts_are_the_misfits, distinct_keys, last_for, lemma_found, listed_texts, misfits,
    none_for, overrides_take_effect, rules_under, still_fits,
};
use crate::overrides::{conflicts, effective_checklist, text_or_empty};
use crate::path_util::{expanded, resolved};
use crate::protocol::{CellV, FailureV, Handle, ReplyV, RequestV, RowV, StatementV, StepV};
use crate::record_laws::{
    a_rule_record_shows_its_row, an_override_record_shows_its_row, lemma_names_differ, override_row,
    records_stand_for_their_rows, rule_row, shows_override_row, shows_rule_row, text_in,
    text_value_in, value_in,
};
use crate::repository::{
    conflicts_marking, description_writes, keyed_rules_query, metadata_update, overrides_query,
    project_query, replacement, rules_query,
};
use crate::rows::{column, record, records, row_object, Shape};
use crate::selection::{
    a_selection_is_all_or_nothing, effective_record, effective_records, hints_upto, keys_upto,
    missing_keys, missing_upto, overlaid, overlaid_field, picked, picked_upto, record_for,
    record_keys, revision_error, selection_value, the_missing_keys_are_reported, unknown_keys_error,
};
use crate::service::{
    contested, counting, next, prepare_replace, prepare_value, reuse_writes, status_value,
    status_word, stored_field, PrepareJobV, RefreshV, ServiceErrorV, ServiceStepV, StageV,
};
use crate::session::{operation_start, OperationV};
use crate::suggestions::suggested;
use crate::text::{begins, is_blank, lowercase, occurs};

verus! {

/// Where an operation stands after one more reply.
pub open spec fn after_reply(
    db: Seq<char>,
    step: ServiceStepV,
    reply: ReplyV,
    now: Seq<char>,
) -> ServiceStepV {
    match step {
        StepV::Ask(_, stage) => next(db, stage, reply, now),
        StepV::Done(result) => StepV::Done(result),
    }
}

/// Whether a step asks for the rows of a query.
pub open spec fn queries(step: ServiceStepV, query: StatementV) -> bool {
    step matches StepV::Ask(request, _) && request == RequestV::Query(Handle::Main, query)
}

/// Whether a step refuses the operation with a domain error of some kind.
pub open spec fn refuses(step: ServiceStepV, code: ErrorCode) -> bool {
    step matches StepV::Done(Err(ServiceErrorV::Kb(e))) && e.code == code
}

/// Whether every row has the columns of an override.
pub open spec fn override_rows(rows: Seq<RowV>) -> bool {
    forall|i: int| 0 <= i < rows.len() ==> override_row(#[trigger] rows[i])
}

/// Whether a stored project comes from a checklist of that version and that content.
pub open spec fn comes_from(project: JsonV, c: ChecklistV) -> bool {
    &&& text_field(project, "checklist_version"@) == Some(c.checklist_version)
    &&& text_field(project, "content_hash"@) == Some(c.content_hash)
}

/// The names of fields differ: by their lengths, or by their first characters.
proof fn lemma_names()
    ensures
        "id"@.len() == 2 && "id"@[0] == 'i' && "id"@[1] == 'd',
        "name"@.len() == 4 && "name"@[0] == 'n' && "name"@[1] == 'a',
        "rules"@.len() == 5 && "rules"@[0] == 'r' && "rules"@[1] == 'u',
        "project"@.len() == 7 && "project"@[0] == 'p' && "project"@[1] == 'r',
        "version"@.len() == 7 && "version"@[0] == 'v' && "version"@[1] == 'e',
        "project_id"@.len() == 10 && "project_id"@[0] == 'p' && "project_id"@[1] == 'r',
        "status"@.len() == 6 && "status"@[0] == 's' && "status"@[1] == 't',
        "source_version"@.len() == 14 && "source_version"@[0] == 's' && "source_version"@[1] == 'o',
        "source_hash"@.len() == 11 && "source_hash"@[0] == 's' && "source_hash"@[1] == 'o',
        "stored_version"@.len() == 14 && "stored_version"@[0] == 's' && "stored_version"@[1] == 't',
        "stored_hash"@.len() == 11 && "stored_hash"@[0] == 's' && "stored_hash"@[1] == 't',
        "conflict_keys"@.len() == 13 && "conflict_keys"@[0] == 'c' && "conflict_keys"@[1] == 'o',
        "description"@.len() == 11 && "description"@[0] == 'd' && "description"@[1] == 'e',
        "selection_context"@.len() == 17 && "selection_context"@[0] == 's' && "selection_context"@[1] == 'e',
        "knowledge_status"@.len() == 16 && "knowledge_status"@[0] == 'k' && "knowledge_status"@[1] == 'n',
        "checklist_version"@.len() == 17 && "checklist_version"@[0] == 'c' && "checklist_version"@[1] == 'h',
        "content_hash"@.len() == 12 && "content_hash"@[0] == 'c' && "content_hash"@[1] == 'o',
        "rule_count"@.len() == 10 && "rule_count"@[0] == 'r' && "rule_count"@[1] == 'u',
        "warnings"@.len() == 8 && "warnings"@[0] == 'w' && "warnings"@[1] == 'a',
        "override_resolution"@.len() == 19 && "override_resolution"@[0] == 'o' && "override_resolution"@[1] == 'v',
        "knowledge_revision"@.len() == 18 && "knowledge_revision"@[0] == 'k' && "knowledge_revision"@[1] == 'n',
        "checklist"@.len() == 9 && "checklist"@[0] == 'c' && "checklist"@[1] == 'h',
        "schema_version"@.len() == 14 && "schema_version"@[0] == 's' && "schema_version"@[1] == 'c',
        "global_description"@.len() == 18 && "global_description"@[0] == 'g' && "global_description"@[1] == 'l',
        "key"@.len() == 3 && "key"@[0] == 'k' && "key"@[1] == 'e',
        "strategy"@.len() == 8 && "strategy"@[0] == 's' && "strategy"@[1] == 't',
        "summary"@.len() == 7 && "summary"@[0] == 's' && "summary"@[1] == 'u',
        "content"@.len() == 7 && "content"@[0] == 'c' && "content"@[1] == 'o',
        "tags"@.len() == 4 && "tags"@[0] == 't' && "tags"@[1] == 'a',
        "paths"@.len() == 5 && "paths"@[0] == 'p' && "paths"@[1] == 'a',
        "languages"@.len() == 9 && "languages"@[0] == 'l' && "languages"@[1] == 'a',
        "keys"@.len() == 4 && "keys"@[0] == 'k' && "keys"@[1] == 'e',
{
    reveal_strlit("id");
    reveal_strlit("name");
    reveal_strlit("rules");
    reveal_strlit("project");
    reveal_strlit("version");
    reveal_strlit("project_id");
    reveal_strlit("status");
    reveal_strlit("source_version");
    reveal_strlit("source_hash");
    reveal_strlit("stored_version");
    reveal_strlit("stored_hash");
    reveal_strlit("conflict_keys");
    reveal_strlit("description");
    reveal_strlit("selection_context");
    reveal_strlit("knowledge_status");
    reveal_strlit("checklist_version");
    reveal_strlit("content_hash");
    reveal_strlit("rule_count");
    reveal_strlit("warnings");
    reveal_strlit("override_resolution");
    reveal_strlit("knowledge_revision");
    reveal_strlit("checklist");
    reveal_strlit("schema_version");
    reveal_strlit("global_description");
    reveal_strlit("key");
    reveal_strlit("strategy");
    reveal_strlit("summary");
    reveal_strlit("content");
    reveal_strlit("tags");
    reveal_strlit("paths");
    reveal_strlit("languages");
    reveal_strlit("keys");
}

/// Override rows are read as a whole exactly where each of them has its columns.
proof fn lemma_override_rows(rows: Seq<RowV>)
    ensures
        records(Shape::Override, rows) is Ok <==> override_rows(rows),
{
    records_stand_for_their_rows(Shape::Override, rows);
    if override_rows(rows) {
        assert forall|i: int| 0 <= i < rows.len() implies record(
            Shape::Override,
            #[trigger] rows[i],
        ) is Ok by {
            an_override_record_shows_its_row(rows[i]);
        }
    }
    if records(Shape::Override, rows) is Ok {
        assert forall|i: int| 0 <= i < rows.len() implies override_row(#[trigger] rows[i]) by {
            assert(record(Shape::Override, rows[i]) is Ok);
            an_override_record_shows_its_row(rows[i]);
        }
    }
}

/// No two rules of a checklist share their key.
proof fn lemma_distinct(path: Seq<char>, file: Option<Seq<u8>>)
    requires
        checklist_of(path, file) is Ok,
    ensures
        distinct_keys(checklist_of(path, file)->Ok_0.rules),
{
    let raw = file->0;
    an_accepted_checklist_is_proper(path, raw);
    let rules = checklist_of(path, file)->Ok_0.rules;
    assert forall|i: int, j: int| 0 <= i < j < rules.len() implies (#[trigger] rules[i]).key != (
    #[trigger] rules[j]).key by {}
}

// ---- status ----

/// Whether a value reports how a checklist stands to what is stored.
pub open spec fn reports_status(
    v: JsonV,
    project_id: Seq<char>,
    status: Seq<char>,
    c: ChecklistV,
    stored_version: JsonV,
    stored_hash: JsonV,
    keys: Seq<Seq<char>>,
) -> bool {
    &&& field(v, "project_id"@) == Some(JsonV::Text(project_id))
    &&& field(v, "status"@) == Some(JsonV::Text(status))
    &&& field(v, "source_version"@) == Some(JsonV::Text(c.checklist_version))
    &&& field(v, "source_hash"@) == Some(JsonV::Text(c.content_hash))
    &&& field(v, "stored_version"@) == Some(stored_version)
    &&& field(v, "stored_hash"@) == Some(stored_hash)
    &&& field(v, "conflict_keys"@) == Some(listed_texts(keys))
}

/// A field of a stored project; null where it has none of that name.
pub open spec fn stored_in(project: JsonV, name: Seq<char>) -> JsonV {
    match field(project, name) {
        Some(v) => v,
        None => JsonV::Null,
    }
}

/// A `status` reads the checklist as its path was given, and reports a project that is not stored
/// as missing. Of a stored one it reads the overrides that are active or in conflict; where one of
/// them does not fit the checklist, the status is conflict, with the keys of those that do not.
/// Otherwise it is current exactly where version and content hash of the checklist are the stored
/// ones, and stale where one of them is not.
#[verifier::spinoff_prover]
#[verifier::rlimit(50)]
pub proof fn a_status_tells_how_the_checklist_stands(
    project_id: Seq<char>,
    checklist: Seq<char>,
    l: LocationV,
    home: Option<Seq<char>>,
    cwd: Seq<char>,
    db: Seq<char>,
    file: Option<Seq<u8>>,
    rows: Seq<RowV>,
    overrides: Seq<RowV>,
    now: Seq<char>,
)
    ensures
        ({
            let first = operation_start(OperationV::Status { project_id, checklist }, l, home, cwd);
            let read = after_reply(db, first, ReplyV::File(file), now);
            let looked = after_reply(db, read, ReplyV::Rows(rows), now);
            let last = after_reply(db, looked, ReplyV::Rows(overrides), now);
            if is_blank(project_id) {
                refuses(first, ErrorCode::InvalidArgument)
            } else {
                &&& first matches StepV::Ask(request, _) && request == RequestV::ReadFile(checklist)
                &&& match checklist_of(checklist, file) {
                    Err(e) => read == StepV::<StageV, ServiceErrorV>::Done(
                        Err(ServiceErrorV::Kb(e)),
                    ),
                    Ok(c) => {
                        &&& queries(read, project_query(project_id))
                        &&& rows.len() == 0 ==> (looked matches StepV::Done(Ok(v))
                            && reports_status(
                            v,
                            project_id,
                            "missing"@,
                            c,
                            JsonV::Null,
                            JsonV::Null,
                            Seq::empty(),
                        ))
                        &&& rows.len() > 0 ==> {
                            let project = row_object(rows[0]);
                            &&& queries(
                                looked,
                                overrides_query(project_id, seq!["active"@, "conflict"@]),
                            )
                            &&& override_rows(overrides) ==> (last matches StepV::Done(Ok(v))
                                && reports_status(
                                v,
                                project_id,
                                if exists|i: int|
                                    0 <= i < overrides.len() && !still_fits(
                                        #[trigger] overrides[i],
                                        c.rules,
                                    ) {
                                    "conflict"@
                                } else if comes_from(project, c) {
                                    "current"@
                                } else {
                                    "stale"@
                                },
                                c,
                                stored_in(project, "checklist_version"@),
                                stored_in(project, "content_hash"@),
                                misfits(overrides, c.rules),
                            ))
                        }
                    },
                }
            }
        }),
{
    let statuses = seq!["active"@, "conflict"@];
    assert(contested() =~= statuses);
    if !is_blank(project_id) && checklist_of(checklist, file) is Ok {
        let c = checklist_of(checklist, file)->Ok_0;
        lemma_distinct(checklist, file);
        if rows.len() == 0 {
            assert(conflicts(Seq::empty(), c.rules) =~= Seq::empty());
            lemma_status_value(project_id, c, None, Seq::empty());
            assert(texts(Seq::empty()) == listed_texts(Seq::empty()));
        } else {
            lemma_override_rows(overrides);
            if override_rows(overrides) {
                let list = records(Shape::Override, overrides)->Ok_0;
                conflicts_are_the_misfits(overrides, list, c.rules);
                lemma_status_value(project_id, c, Some(row_object(rows[0])), list);
                assert(texts(conflicts(list, c.rules)) == listed_texts(conflicts(list, c.rules)));
            }
        }
    }
}

proof fn lemma_status_value(
    project_id: Seq<char>,
    c: ChecklistV,
    current: Option<JsonV>,
    overrides: Seq<JsonV>,
)
    ensures
        ({
            let keys = conflicts(overrides, c.rules);
            let v = status_value(project_id, c, current, overrides);
            &&& field(v, "project_id"@) == Some(JsonV::Text(project_id))
            &&& field(v, "status"@) == Some(JsonV::Text(status_word(current, c, keys)))
            &&& field(v, "source_version"@) == Some(JsonV::Text(c.checklist_version))
            &&& field(v, "source_hash"@) == Some(JsonV::Text(c.content_hash))
            &&& field(v, "stored_version"@) == Some(stored_field(current, "checklist_version"@))
            &&& field(v, "stored_hash"@) == Some(stored_field(current, "content_hash"@))
            &&& field(v, "conflict_keys"@) == Some(texts(keys))
        }),
{
    let keys = conflicts(overrides, c.rules);
    lemma_names();
    lemma_detail("project_id"@, JsonV::Text(project_id));
    let v0 = detail("project_id"@, JsonV::Text(project_id));
    lemma_and_detail(v0, "status"@, JsonV::Text(status_word(current, c, keys)));
    let v1 = and_detail(v0, "status"@, JsonV::Text(status_word(current, c, keys)));
    lemma_and_detail(v1, "source_version"@, JsonV::Text(c.checklist_version));
    let v2 = and_detail(v1, "source_version"@, JsonV::Text(c.checklist_version));
    lemma_and_detail(v2, "source_hash"@, JsonV::Text(c.content_hash));
    let v3 = and_detail(v2, "source_hash"@, JsonV::Text(c.content_hash));
    lemma_and_detail(v3, "stored_version"@, stored_field(current, "checklist_version"@));
    let v4 = and_detail(v3, "stored_version"@, stored_field(current, "checklist_version"@));
    lemma_and_detail(v4, "stored_hash"@, stored_field(current, "content_hash"@));
    let v5 = and_detail(v4, "stored_hash"@, stored_field(current, "content_hash"@));
    lemma_and_detail(v5, "conflict_keys"@, texts(keys));
    let v6 = and_detail(v5, "conflict_keys"@, texts(keys));
    assert(status_value(project_id, c, current, overrides) == v6);
}

/// Of a stored project without an override in conflict, the status is current where version and
/// content hash of the checklist are the stored ones, else stale.
pub proof fn a_status_without_conflict_compares_the_source(
    project_id: Seq<char>,
    c: ChecklistV,
    project: JsonV,
    overrides: Seq<JsonV>,
)
    requires
        conflicts(overrides, c.rules).len() == 0,
    ensures
        ({
            let v = status_value(project_id, c, Some(project), overrides);
            field(v, "status"@) == Some(
                JsonV::Text(
                    if comes_from(project, c) {
                        "current"@
                    } else {
                        "stale"@
                    },
                ),
            )
        }),
{
    lemma_status_value(project_id, c, Some(project), overrides);
}

proof fn lemma_looked(job: PrepareJobV, c: ChecklistV, db: Seq<char>, rows: Seq<RowV>, now: Seq<char>)
    requires
        rows.len() > 0,
        !job.force,
    ensures
        queries(
            next(db, StageV::PrepareProject(job, c), ReplyV::Rows(rows), now),
            overrides_query(job.project_id, seq!["active"@]),
        ) <==> comes_from(row_object(rows[0]), c),
{
    assert(counting() =~= seq!["active"@]);
    let a = overrides_query(job.project_id, counting());
    let b = overrides_query(job.project_id, contested());
    assert(a.params.len() == 2);
    assert(b.params.len() == 3);
}

proof fn lemma_status_last(
    project_id: Seq<char>,
    c: ChecklistV,
    project: JsonV,
    db: Seq<char>,
    overrides: Seq<RowV>,
    now: Seq<char>,
)
    requires
        distinct_keys(c.rules),
        override_rows(overrides),
        forall|i: int| 0 <= i < overrides.len() ==> still_fits(#[trigger] overrides[i], c.rules),
    ensures
        next(
            db,
            StageV::StatusOverrides(project_id, c, project),
            ReplyV::Rows(overrides),
            now,
        ) matches StepV::Done(Ok(v)) && field(v, "status"@) == Some(
            JsonV::Text(
                if comes_from(project, c) {
                    "current"@
                } else {
                    "stale"@
                },
            ),
        ),
{
    lemma_override_rows(overrides);
    let list = records(Shape::Override, overrides)->Ok_0;
    conflicts_are_the_misfits(overrides, list, c.rules);
    a_status_without_conflict_compares_the_source(project_id, c, project, list);
}

/// Whether an operation ends with a status.
#[verifier::opaque]
pub open spec fn ends_in_status(step: ServiceStepV, status: Seq<char>) -> bool {
    step matches StepV::Done(Ok(v)) && field(v, "status"@) == Some(JsonV::Text(status))
}

/// Whether a `prepare` that has looked up a project reuses it: it asks for nothing but its active
/// overrides.
#[verifier::opaque]
pub open spec fn reuses(
    db: Seq<char>,
    job: PrepareJobV,
    c: ChecklistV,
    rows: Seq<RowV>,
    now: Seq<char>,
) -> bool {
    queries(
        next(db, StageV::PrepareProject(job, c), ReplyV::Rows(rows), now),
        overrides_query(job.project_id, seq!["active"@]),
    )
}

/// What a `status` that has read the overrides answers.
#[verifier::opaque]
pub open spec fn status_step(
    db: Seq<char>,
    project_id: Seq<char>,
    c: ChecklistV,
    project: JsonV,
    overrides: Seq<RowV>,
    now: Seq<char>,
) -> ServiceStepV {
    next(db, StageV::StatusOverrides(project_id, c, project), ReplyV::Rows(overrides), now)
}

/// Of a stored project whose overrides all fit the checklist, the status is current exactly where a
/// `prepare` without force would reuse what is stored and look at nothing but its active overrides,
/// and stale exactly where it would not.
pub proof fn a_status_is_current_where_a_prepare_reuses(
    project_id: Seq<char>,
    job: PrepareJobV,
    path: Seq<char>,
    file: Option<Seq<u8>>,
    c: ChecklistV,
    db: Seq<char>,
    rows: Seq<RowV>,
    overrides: Seq<RowV>,
    now: Seq<char>,
)
    requires
        checklist_of(path, file) == Ok::<ChecklistV, ErrorV>(c),
        rows.len() > 0,
        override_rows(overrides),
        forall|i: int| 0 <= i < overrides.len() ==> still_fits(#[trigger] overrides[i], c.rules),
        !job.force,
    ensures
        ({
            let status = status_step(db, project_id, c, row_object(rows[0]), overrides, now);
            &&& ends_in_status(status, "current"@) <==> reuses(db, job, c, rows, now)
            &&& ends_in_status(status, "stale"@) <==> !reuses(db, job, c, rows, now)
            &&& reuses(db, job, c, rows, now) <==> comes_from(row_object(rows[0]), c)
        }),
{
    let project = row_object(rows[0]);
    assert(distinct_keys(c.rules)) by {
        lemma_distinct(path, file);
    }
    assert(reuses(db, job, c, rows, now) <==> comes_from(project, c)) by {
        lemma_looked(job, c, db, rows, now);
        reveal(reuses);
    }
    let word = if comes_from(project, c) {
        "current"@
    } else {
        "stale"@
    };
    assert("current"@ != "stale"@) by {
        reveal_strlit("current");
        reveal_strlit("stale");
        assert("current"@.len() == 7 && "stale"@.len() == 5);
    }
    let status = status_step(db, project_id, c, project, overrides, now);
    assert(status matches StepV::Done(Ok(v)) && field(v, "status"@) == Some(JsonV::Text(word))) by {
        lemma_status_last(project_id, c, project, db, overrides, now);
        reveal(status_step);
    }
    reveal(ends_in_status);
}

// ---- descriptions ----

/// Whether a value shows a rule without its content.
pub open spec fn outlines(v: JsonV, rule: RuleV) -> bool {
    &&& tidy(v)
    &&& field(v, "key"@) == Some(JsonV::Text(rule.key))
    &&& field(v, "summary"@) == Some(JsonV::Text(rule.summary))
    &&& field(v, "tags"@) == Some(listed_texts(rule.tags))
    &&& field(v, "paths"@) == Some(listed_texts(rule.paths))
    &&& field(v, "languages"@) == Some(listed_texts(rule.languages))
    &&& forall|name: Seq<char>| #[trigger]
        field(v, name) is Some ==> name == "key"@ || name == "summary"@ || name == "tags"@ || name
            == "paths"@ || name == "languages"@
}

/// Whether a value shows a rule with its content.
pub open spec fn tells(v: JsonV, rule: RuleV) -> bool {
    &&& tidy(v)
    &&& field(v, "key"@) == Some(JsonV::Text(rule.key))
    &&& field(v, "summary"@) == Some(JsonV::Text(rule.summary))
    &&& field(v, "content"@) == Some(JsonV::Text(rule.content))
    &&& field(v, "tags"@) == Some(listed_texts(rule.tags))
    &&& field(v, "paths"@) == Some(listed_texts(rule.paths))
    &&& field(v, "languages"@) == Some(listed_texts(rule.languages))
    &&& forall|name: Seq<char>| #[trigger]
        field(v, name) is Some ==> name == "key"@ || name == "summary"@ || name == "content"@ || name
            == "tags"@ || name == "paths"@ || name == "languages"@
}

/// Whether a value shows what a knowledge revision is the digest of: the description of a
/// checklist and its rules, in their order.
pub open spec fn tells_all(v: JsonV, c: ChecklistV) -> bool {
    &&& tidy(v)
    &&& field(v, "global_description"@) == Some(JsonV::Text(c.global_description))
    &&& field(v, "rules"@) matches Some(JsonV::Array(items)) && {
        &&& items.len() == c.rules.len()
        &&& forall|i: int| 0 <= i < items.len() ==> tells(#[trigger] items[i], c.rules[i])
    }
    &&& forall|name: Seq<char>| #[trigger]
        field(v, name) is Some ==> name == "global_description"@ || name == "rules"@
}

/// Whether a text is the revision of a checklist.
pub open spec fn is_revision(revision: Seq<char>, c: ChecklistV) -> bool {
    exists|v: JsonV| #[trigger] tells_all(v, c) && revision == text_digest(canonical(v))
}

/// Whether a value is the description of a project with a checklist.
pub open spec fn describes(
    v: JsonV,
    project_id: Seq<char>,
    project_name: Seq<char>,
    c: ChecklistV,
    revision: Seq<char>,
) -> bool {
    &&& field(v, "project"@) matches Some(project) && {
        &&& field(project, "id"@) == Some(JsonV::Text(project_id))
        &&& field(project, "name"@) == Some(JsonV::Text(project_name))
    }
    &&& field(v, "checklist"@) matches Some(checklist) && {
        &&& field(checklist, "schema_version"@) == Some(JsonV::Int(c.schema_version))
        &&& field(checklist, "version"@) == Some(JsonV::Text(c.checklist_version))
        &&& field(checklist, "content_hash"@) == Some(JsonV::Text(c.content_hash))
        &&& field(checklist, "knowledge_revision"@) == Some(JsonV::Text(revision))
    }
    &&& field(v, "global_description"@) == Some(JsonV::Text(c.global_description))
    &&& field(v, "rules"@) matches Some(JsonV::Array(items)) && {
        &&& items.len() == c.rules.len()
        &&& forall|i: int| 0 <= i < items.len() ==> outlines(#[trigger] items[i], c.rules[i])
    }
    &&& forall|name: Seq<char>| #[trigger]
        field(v, name) is Some ==> name == "project"@ || name == "checklist"@ || name
            == "global_description"@ || name == "rules"@
}

proof fn lemma_outlines(rule: RuleV)
    ensures
        outlines(summary_value(rule), rule),
        tells(effective_value(rule), rule),
{
    lemma_names();
    assert(texts(rule.tags) == listed_texts(rule.tags));
    assert(texts(rule.paths) == listed_texts(rule.paths));
    assert(texts(rule.languages) == listed_texts(rule.languages));
    lemma_detail("key"@, JsonV::Text(rule.key));
    let v0 = detail("key"@, JsonV::Text(rule.key));
    lemma_and_detail(v0, "summary"@, JsonV::Text(rule.summary));
    let v1 = and_detail(v0, "summary"@, JsonV::Text(rule.summary));
    lemma_and_detail(v1, "tags"@, texts(rule.tags));
    let v2 = and_detail(v1, "tags"@, texts(rule.tags));
    lemma_and_detail(v2, "paths"@, texts(rule.paths));
    let v3 = and_detail(v2, "paths"@, texts(rule.paths));
    lemma_and_detail(v3, "languages"@, texts(rule.languages));
    let v4 = and_detail(v3, "languages"@, texts(rule.languages));
    assert(summary_value(rule) == v4);
    lemma_and_detail(v4, "content"@, JsonV::Text(rule.content));
}

/// The knowledge revision of a checklist is the digest of its description and its rules, and the
/// description of a project shows its checklist rule by rule, without the contents.
#[verifier::spinoff_prover]
#[verifier::rlimit(50)]
pub proof fn a_description_shows_the_checklist(
    project_id: Seq<char>,
    project_name: Seq<char>,
    c: ChecklistV,
)
    ensures
        is_revision(revision_of(c), c),
        describes(
            description_value(project_id, project_name, c),
            project_id,
            project_name,
            c,
            revision_of(c),
        ),
        carried_revision(description_value(project_id, project_name, c)) == Some(revision_of(c)),
{
    lemma_names();
    let full = c.rules.map_values(|r: RuleV| effective_value(r));
    let brief = c.rules.map_values(|r: RuleV| summary_value(r));
    assert forall|i: int| 0 <= i < full.len() implies tells(#[trigger] full[i], c.rules[i]) by {
        lemma_outlines(c.rules[i]);
    }
    assert forall|i: int| 0 <= i < brief.len() implies outlines(
        #[trigger] brief[i],
        c.rules[i],
    ) by {
        lemma_outlines(c.rules[i]);
    }
    lemma_detail("global_description"@, JsonV::Text(c.global_description));
    lemma_and_detail(
        detail("global_description"@, JsonV::Text(c.global_description)),
        "rules"@,
        JsonV::Array(full),
    );
    assert(tells_all(knowledge_value(c), c));
    lemma_detail("id"@, JsonV::Text(project_id));
    lemma_and_detail(detail("id"@, JsonV::Text(project_id)), "name"@, JsonV::Text(project_name));
    let project = and_detail(
        detail("id"@, JsonV::Text(project_id)),
        "name"@,
        JsonV::Text(project_name),
    );
    let checklist = lemma_checklist_part(c);
    lemma_detail("project"@, project);
    let v0 = detail("project"@, project);
    lemma_and_detail(v0, "checklist"@, checklist);
    let v1 = and_detail(v0, "checklist"@, checklist);
    lemma_and_detail(v1, "global_description"@, JsonV::Text(c.global_description));
    let v2 = and_detail(v1, "global_description"@, JsonV::Text(c.global_description));
    lemma_and_detail(v2, "rules"@, JsonV::Array(brief));
    let v3 = and_detail(v2, "rules"@, JsonV::Array(brief));
    assert(description_value(project_id, project_name, c) == v3);
}

proof fn lemma_checklist_part(c: ChecklistV) -> (v: JsonV)
    ensures
        v == and_detail(
            and_detail(
                and_detail(
                    detail("schema_version"@, JsonV::Int(c.schema_version)),
                    "version"@,
                    JsonV::Text(c.checklist_version),
                ),
                "content_hash"@,
                JsonV::Text(c.content_hash),
            ),
            "knowledge_revision"@,
            JsonV::Text(revision_of(c)),
        ),
        field(v, "schema_version"@) == Some(JsonV::Int(c.schema_version)),
        field(v, "version"@) == Some(JsonV::Text(c.checklist_version)),
        field(v, "content_hash"@) == Some(JsonV::Text(c.content_hash)),
        field(v, "knowledge_revision"@) == Some(JsonV::Text(revision_of(c))),
{
    lemma_names();
    lemma_detail("schema_version"@, JsonV::Int(c.schema_version));
    let v0 = detail("schema_version"@, JsonV::Int(c.schema_version));
    lemma_and_detail(v0, "version"@, JsonV::Text(c.checklist_version));
    let v1 = and_detail(v0, "version"@, JsonV::Text(c.checklist_version));
    lemma_and_detail(v1, "content_hash"@, JsonV::Text(c.content_hash));
    let v2 = and_detail(v1, "content_hash"@, JsonV::Text(c.content_hash));
    lemma_and_detail(v2, "knowledge_revision"@, JsonV::Text(revision_of(c)));
    let v3 = and_detail(v2, "knowledge_revision"@, JsonV::Text(revision_of(c)));
    v3
}

// ---- prepare ----

/// Whether a value reports a project that was prepared: `c` is the checklist, `made` how it counts
/// under the overrides.
pub open spec fn reports_prepared(
    v: JsonV,
    project_id: Seq<char>,
    project_name: Seq<char>,
    c: ChecklistV,
    made: ChecklistV,
    status: Seq<char>,
    warnings: Seq<Seq<char>>,
) -> bool {
    &&& field(v, "description"@) matches Some(d) && field(v, "selection_context"@) matches Some(
        context,
    ) && field(context, "knowledge_revision"@) matches Some(JsonV::Text(revision)) && {
        &&& is_revision(revision, made)
        &&& describes(d, project_id, project_name, made, revision)
        &&& field(context, "project_id"@) == Some(JsonV::Text(project_id))
    }
    &&& field(v, "knowledge_status"@) == Some(JsonV::Text(status))
    &&& field(v, "checklist_version"@) == Some(JsonV::Text(c.checklist_version))
    &&& field(v, "content_hash"@) == Some(JsonV::Text(c.content_hash))
    &&& field(v, "rule_count"@) == Some(JsonV::Int(c.rules.len() as int))
    &&& field(v, "warnings"@) == Some(listed_texts(warnings))
}

/// Whether a value reports, beyond that, which conflict the preparation completes the resolution
/// of.
pub open spec fn reports_resolution(v: JsonV, completes: Option<(Seq<char>, Seq<char>)>) -> bool {
    match completes {
        None => field(v, "override_resolution"@) is None,
        Some((key, strategy)) => field(v, "override_resolution"@) matches Some(r) && {
            &&& field(r, "key"@) == Some(JsonV::Text(key))
            &&& field(r, "strategy"@) == Some(JsonV::Text(strategy))
        },
    }
}

proof fn lemma_prepared(
    job: PrepareJobV,
    c: ChecklistV,
    made: ChecklistV,
    status: Seq<char>,
    warnings: Seq<Seq<char>>,
)
    ensures
        ({
            let d = description_value(job.project_id, job.project_name, made);
            let v = prepare_value(job, c, d, status, warnings);
            &&& reports_prepared(v, job.project_id, job.project_name, c, made, status, warnings)
            &&& reports_resolution(v, job.completes)
        }),
{
    a_description_shows_the_checklist(job.project_id, job.project_name, made);
    lemma_names();
    assert(texts(warnings) == listed_texts(warnings));
    let revision = revision_of(made);
    let d = description_value(job.project_id, job.project_name, made);
    lemma_detail("project_id"@, JsonV::Text(job.project_id));
    let c0 = detail("project_id"@, JsonV::Text(job.project_id));
    lemma_and_detail(c0, "knowledge_revision"@, JsonV::Text(revision));
    let context = and_detail(c0, "knowledge_revision"@, JsonV::Text(revision));
    lemma_detail("description"@, d);
    let v0 = detail("description"@, d);
    lemma_and_detail(v0, "selection_context"@, context);
    let v1 = and_detail(v0, "selection_context"@, context);
    lemma_and_detail(v1, "knowledge_status"@, JsonV::Text(status));
    let v2 = and_detail(v1, "knowledge_status"@, JsonV::Text(status));
    lemma_and_detail(v2, "checklist_version"@, JsonV::Text(c.checklist_version));
    let v3 = and_detail(v2, "checklist_version"@, JsonV::Text(c.checklist_version));
    lemma_and_detail(v3, "content_hash"@, JsonV::Text(c.content_hash));
    let v4 = and_detail(v3, "content_hash"@, JsonV::Text(c.content_hash));
    lemma_and_detail(v4, "rule_count"@, JsonV::Int(c.rules.len() as int));
    let v5 = and_detail(v4, "rule_count"@, JsonV::Int(c.rules.len() as int));
    lemma_and_detail(v5, "warnings"@, texts(warnings));
    let v6 = and_detail(v5, "warnings"@, texts(warnings));
    if let Some((key, strategy)) = job.completes {
        lemma_detail("key"@, JsonV::Text(key));
        let r0 = detail("key"@, JsonV::Text(key));
        lemma_and_detail(r0, "strategy"@, JsonV::Text(strategy));
        let r1 = and_detail(r0, "strategy"@, JsonV::Text(strategy));
        lemma_and_detail(v6, "override_resolution"@, r1);
    }
}

/// The job of a `prepare`.
pub open spec fn preparing(
    project_id: Seq<char>,
    project_name: Seq<char>,
    path: Seq<char>,
    force: bool,
) -> PrepareJobV {
    PrepareJobV { project_id, project_name, path, force, completes: None }
}

/// Whether checklist `made` is how `c` counts under override rows.
pub open spec fn counts_under(rows: Seq<RowV>, c: ChecklistV, made: ChecklistV) -> bool {
    &&& rules_under(rows, c.rules, made.rules)
    &&& made.schema_version == c.schema_version
    &&& made.checklist_version == c.checklist_version
    &&& made.global_description == c.global_description
    &&& made.content_hash == c.content_hash
}

/// Whether the last reply to a step that replaces a project completes it: the step writes the
/// project, the checklist's rules as they are in the source, and an entry of the history, and then
/// the result is reported.
pub open spec fn replaces(
    db: Seq<char>,
    step: ServiceStepV,
    current: Option<JsonV>,
    job: PrepareJobV,
    c: ChecklistV,
    made: ChecklistV,
    status: Seq<char>,
    action: Seq<char>,
    warnings: Seq<Seq<char>>,
    now: Seq<char>,
) -> bool {
    &&& exists|d: JsonV, revision: Seq<char>|
        {
            &&& step matches StepV::Ask(request, _) && request == RequestV::Write(
                #[trigger] replacement(
                    current,
                    job.project_id,
                    job.project_name,
                    job.path,
                    c,
                    revision,
                    d,
                    action,
                    warnings,
                    now,
                ),
            )
            &&& is_revision(revision, made)
            &&& describes(d, job.project_id, job.project_name, made, revision)
        }
    &&& after_reply(db, step, ReplyV::Done, now) matches StepV::Done(Ok(v)) && {
        &&& reports_prepared(v, job.project_id, job.project_name, c, made, status, warnings)
        &&& reports_resolution(v, job.completes)
    }
}

proof fn lemma_replaces(
    db: Seq<char>,
    current: Option<JsonV>,
    job: PrepareJobV,
    c: ChecklistV,
    made: ChecklistV,
    status: Seq<char>,
    action: Seq<char>,
    warnings: Seq<Seq<char>>,
    now: Seq<char>,
)
    ensures
        ({
            let d = description_value(job.project_id, job.project_name, made);
            let r = RefreshV { job, checklist: c, description: d, status, action, warnings };
            let step = prepare_replace(r, current, now);
            replaces(db, step, current, job, c, made, status, action, warnings, now)
        }),
{
    a_description_shows_the_checklist(job.project_id, job.project_name, made);
    lemma_prepared(job, c, made, status, warnings);
    let d = description_value(job.project_id, job.project_name, made);
    let revision = revision_of(made);
    let list = replacement(
        current,
        job.project_id,
        job.project_name,
        job.path,
        c,
        revision,
        d,
        action,
        warnings,
        now,
    );
    assert(describes(d, job.project_id, job.project_name, made, revision));
}

/// A `prepare` needs a project id and a project name, and reads the checklist at its path, made
/// absolute. A checklist that is refused ends it; with one that is accepted it looks up the
/// project.
pub proof fn a_prepare_reads_the_checklist(
    project_id: Seq<char>,
    project_name: Seq<char>,
    checklist: Seq<char>,
    force: bool,
    l: LocationV,
    home: Option<Seq<char>>,
    cwd: Seq<char>,
    db: Seq<char>,
    file: Option<Seq<u8>>,
    now: Seq<char>,
)
    ensures
        ({
            let op = OperationV::Prepare { project_id, project_name, checklist, force };
            let path = resolved(expanded(checklist, home), home, cwd);
            let first = operation_start(op, l, home, cwd);
            let read = after_reply(db, first, ReplyV::File(file), now);
            if is_blank(project_id) || is_blank(project_name) {
                refuses(first, ErrorCode::InvalidArgument)
            } else {
                &&& first matches StepV::Ask(request, _) && request == RequestV::ReadFile(path)
                &&& match checklist_of(path, file) {
                    Err(e) => read == StepV::<StageV, ServiceErrorV>::Done(
                        Err(ServiceErrorV::Kb(e)),
                    ),
                    Ok(c) => read == StepV::<StageV, ServiceErrorV>::Ask(
                        RequestV::Query(Handle::Main, project_query(project_id)),
                        StageV::PrepareProject(
                            preparing(project_id, project_name, path, force),
                            c,
                        ),
                    ),
                }
            }
        }),
{
}

/// A `prepare` of a project that is not stored creates it: it looks once more, and writes the
/// checklist without any override.
#[verifier::spinoff_prover]
#[verifier::rlimit(50)]
pub proof fn a_new_project_is_created(
    job: PrepareJobV,
    c: ChecklistV,
    db: Seq<char>,
    rows: Seq<RowV>,
    again: Seq<RowV>,
    now: Seq<char>,
)
    requires
        rows.len() == 0,
    ensures
        ({
            let looked = next(db, StageV::PrepareProject(job, c), ReplyV::Rows(rows), now);
            let step = after_reply(db, looked, ReplyV::Rows(again), now);
            let current = if again.len() > 0 {
                Some(row_object(again[0]))
            } else {
                None
            };
            &&& queries(looked, project_query(job.project_id))
            &&& replaces(db, step, current, job, c, c, "created"@, "create"@, Seq::empty(), now)
        }),
{
    let none = Seq::<JsonV>::empty();
    let made = effective_checklist(c, none);
    lemma_no_overrides(c);
    let current = if again.len() > 0 {
        Some(row_object(again[0]))
    } else {
        None
    };
    lemma_replaces(db, current, job, c, c, "created"@, "create"@, Seq::empty(), now);
}

proof fn lemma_no_overrides(c: ChecklistV)
    ensures
        effective_checklist(c, Seq::empty()) == c,
{
    let none = Seq::<RowV>::empty();
    records_stand_for_their_rows(Shape::Override, none);
    let list = records(Shape::Override, none)->Ok_0;
    assert(list =~= Seq::empty());
    overrides_take_effect(c, none, list);
    let made = effective_checklist(c, list);
    assert forall|i: int| 0 <= i < c.rules.len() implies made.rules[i] == c.rules[i] by {
        assert(none_for(none, c.rules[i].key));
    }
    assert(made.rules =~= c.rules);
}

/// A `prepare` without force of what is stored reuses it: it reads the active overrides and
/// nothing else, reports the checklist as it counts under them, and writes only where the name,
/// the path or the revision is not the stored one. A warning tells exactly where name or path is
/// not.
#[verifier::spinoff_prover]
#[verifier::rlimit(50)]
pub proof fn a_stored_source_is_reused(
    job: PrepareJobV,
    c: ChecklistV,
    db: Seq<char>,
    rows: Seq<RowV>,
    active: Seq<RowV>,
    now: Seq<char>,
)
    requires
        rows.len() > 0,
        comes_from(row_object(rows[0]), c),
        !job.force,
        override_rows(active),
    ensures
        ({
            let project = row_object(rows[0]);
            let looked = next(db, StageV::PrepareProject(job, c), ReplyV::Rows(rows), now);
            let step = after_reply(db, looked, ReplyV::Rows(active), now);
            let last = after_reply(db, step, ReplyV::Done, now);
            let named = text_field(project, "project_name"@) == Some(job.project_name) && text_field(
                project,
                "checklist_path"@,
            ) == Some(job.path);
            &&& queries(looked, overrides_query(job.project_id, seq!["active"@]))
            &&& exists|made: ChecklistV, d: JsonV, revision: Seq<char>|
                {
                    let kept = text_field(project, "knowledge_revision"@) == Some(revision);
                    let naming = metadata_update(
                        job.project_id,
                        job.project_name,
                        job.path,
                        d,
                        now,
                    );
                    let renewing = description_writes(job.project_id, revision, d, now);
                    &&& #[trigger] counts_under(active, c, made)
                    &&& is_revision(revision, made)
                    &&& #[trigger] describes(
                        d,
                        job.project_id,
                        job.project_name,
                        made,
                        revision,
                    )
                    &&& if named && kept {
                        step is Done
                    } else {
                        step matches StepV::Ask(request, _) && request == RequestV::Write(
                            if kept {
                                seq![naming]
                            } else if named {
                                renewing
                            } else {
                                seq![naming] + renewing
                            },
                        )
                    }
                    &&& last matches StepV::Done(Ok(v)) && reports_prepared(
                        v,
                        job.project_id,
                        job.project_name,
                        c,
                        made,
                        "reused"@,
                        if named {
                            Seq::empty()
                        } else {
                            seq!["PROJECT_METADATA_UPDATED"@]
                        },
                    ) && reports_resolution(v, job.completes)
                }
        }),
{
    assert(counting() =~= seq!["active"@]);
    let project = row_object(rows[0]);
    lemma_override_rows(active);
    let list = records(Shape::Override, active)->Ok_0;
    overrides_take_effect(c, active, list);
    let made = effective_checklist(c, list);
    let d = description_value(job.project_id, job.project_name, made);
    let revision = revision_of(made);
    a_description_shows_the_checklist(job.project_id, job.project_name, made);
    let named = text_field(project, "project_name"@) == Some(job.project_name) && text_field(
        project,
        "checklist_path"@,
    ) == Some(job.path);
    let warnings = if named {
        Seq::empty()
    } else {
        seq!["PROJECT_METADATA_UPDATED"@]
    };
    lemma_prepared(job, c, made, "reused"@, warnings);
    assert(counts_under(active, c, made));
    assert(describes(d, job.project_id, job.project_name, made, revision));
    let naming = metadata_update(job.project_id, job.project_name, job.path, d, now);
    let renewing = description_writes(job.project_id, revision, d, now);
    let writes = reuse_writes(project, job, d, now);
    let kept = text_field(project, "knowledge_revision"@) == Some(revision);
    assert(renewing.len() == 2);
    if named && kept {
        assert(writes.len() == 0);
    } else if kept {
        assert(writes =~= seq![naming]);
        assert(writes.len() == 1);
    } else if named {
        assert(writes =~= renewing);
    } else {
        assert(writes =~= seq![naming] + renewing);
        assert(writes.len() == 3);
    }
}

/// A `prepare` with force, or of a checklist whose version or content is not the stored one, reads
/// the overrides that are active or in conflict. Where every one of them fits the checklist, it
/// goes on and reads the active ones. Where one does not, the overrides that do not are marked and
/// the operation is refused with exactly their keys: nothing else is written.
#[verifier::spinoff_prover]
#[verifier::rlimit(50)]
pub proof fn a_refresh_stops_at_a_conflict(
    job: PrepareJobV,
    path: Seq<char>,
    file: Option<Seq<u8>>,
    c: ChecklistV,
    db: Seq<char>,
    rows: Seq<RowV>,
    overrides: Seq<RowV>,
    now: Seq<char>,
)
    requires
        checklist_of(path, file) == Ok::<ChecklistV, ErrorV>(c),
        rows.len() > 0,
        job.force || !comes_from(row_object(rows[0]), c),
        override_rows(overrides),
    ensures
        ({
            let looked = next(db, StageV::PrepareProject(job, c), ReplyV::Rows(rows), now);
            let step = after_reply(db, looked, ReplyV::Rows(overrides), now);
            let last = after_reply(db, step, ReplyV::Done, now);
            let keys = misfits(overrides, c.rules);
            &&& queries(looked, overrides_query(job.project_id, seq!["active"@, "conflict"@]))
            &&& if forall|i: int|
                0 <= i < overrides.len() ==> still_fits(#[trigger] overrides[i], c.rules) {
                step == StepV::<StageV, ServiceErrorV>::Ask(
                    RequestV::Query(
                        Handle::Main,
                        overrides_query(job.project_id, seq!["active"@]),
                    ),
                    StageV::PrepareActive(job, c, row_object(rows[0])),
                )
            } else {
                &&& keys.len() > 0
                &&& step matches StepV::Ask(request, _) && request == RequestV::Write(
                    conflicts_marking(job.project_id, keys, now),
                )
                &&& last matches StepV::Done(Err(ServiceErrorV::Kb(e))) && {
                    &&& e.code == ErrorCode::OverrideConflict
                    &&& field(e.details, "project_id"@) == Some(JsonV::Text(job.project_id))
                    &&& field(e.details, "keys"@) == Some(listed_texts(keys))
                }
            }
        }),
{
    assert(contested() =~= seq!["active"@, "conflict"@]);
    assert(counting() =~= seq!["active"@]);
    lemma_distinct(path, file);
    lemma_override_rows(overrides);
    let list = records(Shape::Override, overrides)->Ok_0;
    conflicts_are_the_misfits(overrides, list, c.rules);
    let keys = misfits(overrides, c.rules);
    lemma_names();
    assert(texts(keys) == listed_texts(keys));
    lemma_detail("project_id"@, JsonV::Text(job.project_id));
    lemma_and_detail(detail("project_id"@, JsonV::Text(job.project_id)), "keys"@, texts(keys));
}

/// A refresh that no conflict stops looks up the project once more and replaces it: with force as
/// a rebuild, otherwise as a refresh. A warning tells exactly where the content changed and the
/// version did not.
#[verifier::spinoff_prover]
#[verifier::rlimit(50)]
pub proof fn a_changed_source_replaces_the_project(
    job: PrepareJobV,
    c: ChecklistV,
    project: JsonV,
    db: Seq<char>,
    active: Seq<RowV>,
    again: Seq<RowV>,
    now: Seq<char>,
)
    requires
        job.force || !comes_from(project, c),
        override_rows(active),
    ensures
        ({
            let looked = next(
                db,
                StageV::PrepareActive(job, c, project),
                ReplyV::Rows(active),
                now,
            );
            let step = after_reply(db, looked, ReplyV::Rows(again), now);
            let current = if again.len() > 0 {
                Some(row_object(again[0]))
            } else {
                None
            };
            let unbumped = text_field(project, "checklist_version"@) == Some(c.checklist_version)
                && text_field(project, "content_hash"@) != Some(c.content_hash);
            &&& queries(looked, project_query(job.project_id))
            &&& exists|made: ChecklistV|
                {
                    &&& #[trigger] counts_under(active, c, made)
                    &&& replaces(
                        db,
                        step,
                        current,
                        job,
                        c,
                        made,
                        if job.force {
                            "rebuilt"@
                        } else {
                            "refreshed"@
                        },
                        if job.force {
                            "rebuild"@
                        } else {
                            "refresh"@
                        },
                        if unbumped {
                            seq!["CONTENT_CHANGED_WITHOUT_VERSION_BUMP"@]
                        } else {
                            Seq::empty()
                        },
                        now,
                    )
                }
        }),
{
    lemma_override_rows(active);
    let list = records(Shape::Override, active)->Ok_0;
    overrides_take_effect(c, active, list);
    let made = effective_checklist(c, list);
    assert(counts_under(active, c, made));
    let current = if again.len() > 0 {
        Some(row_object(again[0]))
    } else {
        None
    };
    let unbumped = text_field(project, "checklist_version"@) == Some(c.checklist_version)
        && text_field(project, "content_hash"@) != Some(c.content_hash);
    let warnings = if unbumped {
        seq!["CONTENT_CHANGED_WITHOUT_VERSION_BUMP"@]
    } else {
        Seq::empty()
    };
    let status = if job.force {
        "rebuilt"@
    } else {
        "refreshed"@
    };
    let action = if job.force {
        "rebuild"@
    } else {
        "refresh"@
    };
    lemma_replaces(db, current, job, c, made, status, action, warnings, now);
}

// ---- selections ----

/// What a field of a rule is under an override row: the override's value, unless that is null.
pub open spec fn value_under(set: JsonV, own: JsonV) -> JsonV {
    if set == JsonV::Null {
        own
    } else {
        set
    }
}

/// Whether a value shows a rule row with an override row on it, and nothing else.
pub open spec fn shows_under(v: JsonV, row: RowV, o: RowV) -> bool {
    &&& tidy(v)
    &&& field(v, "key"@) == Some(text_value_in(row, "rule_key"@))
    &&& field(v, "source_rule_hash"@) == Some(text_value_in(row, "source_rule_hash"@))
    &&& column(row, "ordinal"@) matches Some(CellV::Integer(n)) && field(v, "ordinal"@) == Some(
        JsonV::Int(n),
    )
    &&& field(v, "summary"@) == Some(
        value_under(text_value_in(o, "summary"@), text_value_in(row, "summary"@)),
    )
    &&& field(v, "content"@) == Some(
        value_under(text_value_in(o, "content"@), text_value_in(row, "content"@)),
    )
    &&& field(v, "tags"@) == Some(
        value_under(value_in(o, "tags_json"@), value_in(row, "tags_json"@)),
    )
    &&& field(v, "paths"@) == Some(
        value_under(value_in(o, "paths_json"@), value_in(row, "paths_json"@)),
    )
    &&& field(v, "languages"@) == Some(
        value_under(value_in(o, "languages_json"@), value_in(row, "languages_json"@)),
    )
    &&& forall|name: Seq<char>| #[trigger]
        field(v, name) is Some ==> name == "key"@ || name == "summary"@ || name == "content"@ || name
            == "tags"@ || name == "paths"@ || name == "languages"@ || name == "source_rule_hash"@
            || name == "ordinal"@
}

/// Whether a value is how a rule row is shown while override rows are active: as it is stored
/// where no override is for its key, else with the last one that is.
pub open spec fn shows_effective(v: JsonV, row: RowV, key: Seq<char>, active: Seq<RowV>) -> bool {
    &&& none_for(active, key) ==> shows_rule_row(v, row) && record(Shape::Rule, row) == Ok::<
        JsonV,
        Seq<char>,
    >(v)
    &&& forall|k: int| #[trigger] last_for(active, key, k) ==> shows_under(v, row, active[k])
}

/// Whether every row has the columns of a rule.
pub open spec fn rule_rows(rows: Seq<RowV>) -> bool {
    forall|i: int| 0 <= i < rows.len() ==> rule_row(#[trigger] rows[i])
}

/// Whether a row is under a key.
pub open spec fn has_key(rows: Seq<RowV>, key: Seq<char>) -> bool {
    exists|i: int| 0 <= i < rows.len() && text_in(#[trigger] rows[i], "rule_key"@) == Some(key)
}

proof fn lemma_rule_rows(rows: Seq<RowV>)
    ensures
        records(Shape::Rule, rows) is Ok <==> rule_rows(rows),
        records(Shape::Rule, rows) matches Ok(list) ==> list.len() == rows.len() && forall|i: int|
            0 <= i < rows.len() ==> shows_rule_row(list[i], #[trigger] rows[i]) && record(
                Shape::Rule,
                rows[i],
            ) == Ok::<JsonV, Seq<char>>(list[i]),
{
    records_stand_for_their_rows(Shape::Rule, rows);
    if rule_rows(rows) {
        assert forall|i: int| 0 <= i < rows.len() implies record(Shape::Rule, #[trigger] rows[i])
            is Ok by {
            a_rule_record_shows_its_row(rows[i]);
        }
    }
    if let Ok(list) = records(Shape::Rule, rows) {
        assert forall|i: int| 0 <= i < rows.len() implies shows_rule_row(
            list[i],
            #[trigger] rows[i],
        ) && rule_row(rows[i]) && record(Shape::Rule, rows[i]) == Ok::<JsonV, Seq<char>>(
            list[i],
        ) by {
            assert(record(Shape::Rule, rows[i]) == Ok::<JsonV, Seq<char>>(list[i]));
            a_rule_record_shows_its_row(rows[i]);
        }
    }
}

/// The keys of rule records are those in their rows.
proof fn lemma_record_keys(rows: Seq<RowV>, list: Seq<JsonV>, n: int, key: Seq<char>)
    requires
        records(Shape::Rule, rows) == Ok::<Seq<JsonV>, Seq<char>>(list),
        0 <= n <= rows.len(),
    ensures
        keys_upto(list, n).contains(key) <==> has_key(rows.take(n), key),
    decreases n,
{
    lemma_rule_rows(rows);
    if n > 0 {
        lemma_record_keys(rows, list, n - 1, key);
        assert(shows_rule_row(list[n - 1], rows[n - 1]) && rule_row(rows[n - 1]));
        let k = text_in(rows[n - 1], "rule_key"@)->0;
        let before = keys_upto(list, n - 1);
        assert(text_field(list[n - 1], "key"@) == Some(k));
        assert(keys_upto(list, n) == before.push(k));
        if before.contains(key) {
            let i = before.index_of(key);
            assert(before.push(k)[i] == key);
        }
        if k == key {
            assert(before.push(k)[before.len() as int] == key);
            assert(rows.take(n)[n - 1] == rows[n - 1]);
        }
        if before.push(k).contains(key) && k != key {
            let i = before.push(k).index_of(key);
            assert(before[i] == key);
        }
        if has_key(rows.take(n - 1), key) {
            let i = choose|i: int|
                0 <= i < n - 1 && text_in(#[trigger] rows.take(n - 1)[i], "rule_key"@) == Some(key);
            assert(rows.take(n)[i] == rows.take(n - 1)[i]);
        }
        if has_key(rows.take(n), key) && k != key {
            let i = choose|i: int|
                0 <= i < n && text_in(#[trigger] rows.take(n)[i], "rule_key"@) == Some(key);
            assert(rows.take(n - 1)[i] == rows.take(n)[i]);
        }
    } else {
        assert(keys_upto(list, 0) =~= Seq::empty());
    }
}

/// The record that is found for a key is that of the last row under it.
proof fn lemma_record_for(rows: Seq<RowV>, list: Seq<JsonV>, key: Seq<char>, n: int, i: int)
    requires
        records(Shape::Rule, rows) == Ok::<Seq<JsonV>, Seq<char>>(list),
        0 <= n <= rows.len(),
        last_for(rows.take(n), key, i),
    ensures
        record_for(list.take(n), key) == Some(list[i]),
    decreases n,
{
    lemma_rule_rows(rows);
    let a = rows.take(n);
    let b = list.take(n);
    assert(a[i] == rows[i]);
    assert(n > 0);
    assert(shows_rule_row(list[n - 1], rows[n - 1]) && rule_row(rows[n - 1]));
    assert(b.last() == list[n - 1]);
    assert(b.drop_last() =~= list.take(n - 1));
    assert(a[n - 1] == rows[n - 1]);
    if i < n - 1 {
        assert(text_in(a[n - 1], "rule_key"@) != Some(key));
        let front = rows.take(n - 1);
        assert forall|j: int| i < j < front.len() implies text_in(#[trigger] front[j], "rule_key"@)
            != Some(key) by {
            assert(front[j] == a[j]);
        }
        assert(front[i] == a[i]);
        lemma_record_for(rows, list, key, n - 1, i);
    }
}

proof fn lemma_last_exists(rows: Seq<RowV>, key: Seq<char>, n: int)
    requires
        0 <= n <= rows.len(),
        has_key(rows.take(n), key),
    ensures
        exists|i: int| #[trigger] last_for(rows.take(n), key, i),
    decreases n,
{
    let a = rows.take(n);
    let i = choose|i: int| 0 <= i < a.len() && text_in(#[trigger] a[i], "rule_key"@) == Some(key);
    if text_in(a[n - 1], "rule_key"@) == Some(key) {
        assert(last_for(a, key, n - 1));
    } else {
        let front = rows.take(n - 1);
        assert(front[i] == a[i]);
        lemma_last_exists(rows, key, n - 1);
        let k = choose|k: int| #[trigger] last_for(front, key, k);
        assert forall|j: int| k < j < a.len() implies text_in(#[trigger] a[j], "rule_key"@) != Some(
            key,
        ) by {
            if j < n - 1 {
                assert(front[j] == a[j]);
            }
        }
        assert(front[k] == a[k]);
        assert(last_for(a, key, k));
    }
}

proof fn lemma_picked_at(
    rows: Seq<RowV>,
    list: Seq<JsonV>,
    keys: Seq<Seq<char>>,
    n: int,
)
    requires
        records(Shape::Rule, rows) == Ok::<Seq<JsonV>, Seq<char>>(list),
        0 <= n <= keys.len(),
        forall|k: int| 0 <= k < keys.len() ==> has_key(rows, #[trigger] keys[k]),
    ensures
        picked_upto(list, keys, n).len() == n,
        forall|k: int, i: int|
            0 <= k < n && #[trigger] last_for(rows, #[trigger] keys[k], i) ==> picked_upto(
                list,
                keys,
                n,
            )[k] == list[i],
    decreases n,
{
    if n > 0 {
        lemma_picked_at(rows, list, keys, n - 1);
        let key = keys[n - 1];
        assert(has_key(rows, key));
        assert(rows.take(rows.len() as int) =~= rows);
        lemma_last_exists(rows, key, rows.len() as int);
        let at = choose|at: int| #[trigger] last_for(rows, key, at);
        lemma_rule_rows(rows);
        assert(list.take(rows.len() as int) =~= list);
        lemma_record_for(rows, list, key, rows.len() as int, at);
        assert forall|i: int| #[trigger] last_for(rows, key, i) implies i == at by {
            if i < at {
                assert(text_in(rows[at], "rule_key"@) != Some(key));
            }
            if at < i {
                assert(text_in(rows[i], "rule_key"@) != Some(key));
            }
        }
    }
}

proof fn lemma_shows_under(rule: JsonV, row: RowV, o: JsonV, orow: RowV)
    requires
        shows_rule_row(rule, row),
        shows_override_row(o, orow),
    ensures
        shows_under(overlaid(rule, o), row, orow),
{
    lemma_names_differ();
    let b = overlaid_field(rule, o, "summary"@);
    let c = overlaid_field(b, o, "content"@);
    let d = overlaid_field(c, o, "tags"@);
    let e = overlaid_field(d, o, "paths"@);
    lemma_overlay(rule, o, "summary"@);
    lemma_overlay(b, o, "content"@);
    lemma_overlay(c, o, "tags"@);
    lemma_overlay(d, o, "paths"@);
    lemma_overlay(e, o, "languages"@);
    let v = overlaid(rule, o);
    assert forall|name: Seq<char>| #[trigger] field(v, name) is Some implies name == "key"@ || name
        == "summary"@ || name == "content"@ || name == "tags"@ || name == "paths"@ || name
        == "languages"@ || name == "source_rule_hash"@ || name == "ordinal"@ by {
        if name != "summary"@ && name != "content"@ && name != "tags"@ && name != "paths"@ && name
            != "languages"@ {
            assert(field(v, name) == field(e, name));
            assert(field(e, name) == field(d, name));
            assert(field(d, name) == field(c, name));
            assert(field(c, name) == field(b, name));
            assert(field(b, name) == field(rule, name));
        }
    }
}

/// A selection is answered from one snapshot. It is refused where the project is not stored or its
/// knowledge revision is another one, and as a whole, with the keys that are missing, where a key
/// is not that of a rule.
#[verifier::spinoff_prover]
#[verifier::rlimit(50)]
pub proof fn a_selection_is_checked(
    payload: JsonV,
    s: SelectionV,
    l: LocationV,
    home: Option<Seq<char>>,
    cwd: Seq<char>,
    db: Seq<char>,
    project: Seq<RowV>,
    rules: Seq<RowV>,
    now: Seq<char>,
)
    requires
        validated_selection(payload) == Ok::<SelectionV, SelectionErrorV>(s),
    ensures
        ({
            let first = operation_start(OperationV::Selection { payload }, l, home, cwd);
            let begun = after_reply(db, first, ReplyV::Done, now);
            let looked = after_reply(db, begun, ReplyV::Rows(project), now);
            let last = after_reply(db, looked, ReplyV::Rows(rules), now);
            &&& first matches StepV::Ask(request, _) && request == RequestV::BeginRead
            &&& queries(begun, project_query(s.project_id))
            &&& project.len() == 0 ==> refuses(looked, ErrorCode::ProjectNotFound)
            &&& project.len() > 0 ==> {
                let stored = text_field(row_object(project[0]), "knowledge_revision"@);
                &&& stored == Some(s.knowledge_revision) ==> {
                    &&& queries(looked, rules_query(s.project_id))
                    &&& rule_rows(rules) ==> if forall|k: int|
                        0 <= k < s.keys.len() ==> has_key(rules, #[trigger] s.keys[k]) {
                        last == StepV::<StageV, ServiceErrorV>::Ask(
                            RequestV::Query(
                                Handle::Main,
                                keyed_rules_query(s.project_id, s.keys),
                            ),
                            StageV::SelectRules(s),
                        )
                    } else {
                        &&& refuses(last, ErrorCode::RuleNotFound)
                        &&& field(last->Done_0->Err_0->Kb_0.details, "not_found"@) == Some(
                            listed_texts(s.keys.filter(|k: Seq<char>| !has_key(rules, k))),
                        )
                    }
                }
                &&& stored != Some(s.knowledge_revision) && s.knowledge_revision.len() > 0 ==> {
                    &&& refuses(looked, ErrorCode::KnowledgeRevisionMismatch)
                    &&& field(
                        looked->Done_0->Err_0->Kb_0.details,
                        "requested_revision"@,
                    ) == Some(JsonV::Text(s.knowledge_revision))
                    &&& stored matches Some(t) ==> field(
                        looked->Done_0->Err_0->Kb_0.details,
                        "current_revision"@,
                    ) == Some(JsonV::Text(t))
                }
            }
        }),
{
    if project.len() > 0 {
        let current = text_or_empty(row_object(project[0]), "knowledge_revision"@);
        if current != s.knowledge_revision {
            lemma_revision_error(s, current);
        } else {
            lemma_rule_rows(rules);
            if rule_rows(rules) {
                let list = records(Shape::Rule, rules)->Ok_0;
                let available = record_keys(list);
                assert forall|key: Seq<char>| #[trigger] available.contains(key) <==> has_key(
                    rules,
                    key,
                ) by {
                    lemma_record_keys(rules, list, rules.len() as int, key);
                    assert(rules.take(rules.len() as int) =~= rules);
                }
                a_selection_is_all_or_nothing(s.keys, available);
                lemma_missing(s.keys, s.keys.len() as int, available, rules);
                assert(s.keys.take(s.keys.len() as int) =~= s.keys);
                let missing = missing_keys(s.keys, available);
                lemma_missing_error(missing, available);
                if forall|k: int| 0 <= k < s.keys.len() ==> has_key(rules, #[trigger] s.keys[k]) {
                    assert forall|k: int| 0 <= k < s.keys.len() implies available.contains(
                        #[trigger] s.keys[k],
                    ) by {
                        assert(has_key(rules, s.keys[k]));
                    }
                } else {
                    let k = choose|k: int|
                        0 <= k < s.keys.len() && !has_key(rules, #[trigger] s.keys[k]);
                    assert(!available.contains(s.keys[k]));
                }
            }
        }
    }
}

proof fn lemma_missing(
    keys: Seq<Seq<char>>,
    n: int,
    available: Seq<Seq<char>>,
    rules: Seq<RowV>,
)
    requires
        0 <= n <= keys.len(),
        forall|key: Seq<char>| #[trigger] available.contains(key) <==> has_key(rules, key),
    ensures
        missing_upto(keys, n, available) == keys.take(n).filter(
            |k: Seq<char>| !has_key(rules, k),
        ),
    decreases n,
{
    reveal(Seq::filter);
    let p = |k: Seq<char>| !has_key(rules, k);
    if n > 0 {
        lemma_missing(keys, n - 1, available, rules);
        let all = keys.take(n);
        assert(all.drop_last() =~= keys.take(n - 1));
        assert(all.last() == keys[n - 1]);
        assert(available.contains(keys[n - 1]) <==> has_key(rules, keys[n - 1]));
        if p(keys[n - 1]) {
            assert(all.filter(p) == keys.take(n - 1).filter(p).push(keys[n - 1]));
        } else {
            assert(all.filter(p) == keys.take(n - 1).filter(p));
        }
    } else {
        assert(keys.take(0).filter(p) =~= Seq::empty());
    }
}

proof fn lemma_missing_error(missing: Seq<Seq<char>>, available: Seq<Seq<char>>)
    ensures
        unknown_keys_error(missing, available).code == ErrorCode::RuleNotFound,
        field(unknown_keys_error(missing, available).details, "not_found"@) == Some(
            listed_texts(missing),
        ),
{
    reveal_strlit("not_found");
    reveal_strlit("suggestions");
    assert("not_found"@.len() == 9 && "suggestions"@.len() == 11);
    assert(texts(missing) == listed_texts(missing));
    lemma_detail("not_found"@, texts(missing));
    lemma_and_detail(
        detail("not_found"@, texts(missing)),
        "suggestions"@,
        JsonV::Object(hints_upto(missing, missing.len() as int, available)),
    );
}

proof fn lemma_revision_error(s: SelectionV, current: Seq<char>)
    ensures
        ({
            let e = revision_error(s, current);
            &&& e.code == ErrorCode::KnowledgeRevisionMismatch
            &&& field(e.details, "project_id"@) == Some(JsonV::Text(s.project_id))
            &&& field(e.details, "requested_revision"@) == Some(JsonV::Text(s.knowledge_revision))
            &&& field(e.details, "current_revision"@) == Some(JsonV::Text(current))
        }),
{
    reveal_strlit("project_id");
    reveal_strlit("requested_revision");
    reveal_strlit("current_revision");
    assert("project_id"@.len() == 10 && "requested_revision"@.len() == 18
        && "current_revision"@.len() == 16);
    lemma_detail("project_id"@, JsonV::Text(s.project_id));
    let v0 = detail("project_id"@, JsonV::Text(s.project_id));
    lemma_and_detail(v0, "requested_revision"@, JsonV::Text(s.knowledge_revision));
    let v1 = and_detail(v0, "requested_revision"@, JsonV::Text(s.knowledge_revision));
    lemma_and_detail(v1, "current_revision"@, JsonV::Text(current));
    let v2 = and_detail(v1, "current_revision"@, JsonV::Text(current));
}

/// Whether items are, for each key in their order, how the last row under it is shown while
/// override rows are active.
pub open spec fn brings_effective(
    items: Seq<JsonV>,
    keys: Seq<Seq<char>>,
    rows: Seq<RowV>,
    active: Seq<RowV>,
) -> bool {
    &&& items.len() == keys.len()
    &&& forall|k: int| 0 <= k < keys.len() ==> brings_one(#[trigger] items[k], keys[k], rows, active)
}

/// Whether an item is how the last row under a key is shown while override rows are active.
pub open spec fn brings_one(
    item: JsonV,
    key: Seq<char>,
    rows: Seq<RowV>,
    active: Seq<RowV>,
) -> bool {
    exists|i: int| #[trigger] last_for(rows, key, i) && shows_effective(item, rows[i], key, active)
}

proof fn lemma_brings_one(
    key: Seq<char>,
    rows: Seq<RowV>,
    list: Seq<JsonV>,
    active: Seq<RowV>,
    overrides: Seq<JsonV>,
    i: int,
)
    requires
        records(Shape::Rule, rows) == Ok::<Seq<JsonV>, Seq<char>>(list),
        records(Shape::Override, active) == Ok::<Seq<JsonV>, Seq<char>>(overrides),
        last_for(rows, key, i),
    ensures
        brings_one(effective_record(list[i], overrides), key, rows, active),
{
    lemma_rule_rows(rows);
    let item = effective_record(list[i], overrides);
    assert(shows_rule_row(list[i], rows[i]) && record(Shape::Rule, rows[i]) == Ok::<
        JsonV,
        Seq<char>,
    >(list[i]));
    lemma_found(active, overrides, key);
    assert(text_field(list[i], "key"@) == Some(key));
    assert forall|j: int| #[trigger] last_for(active, key, j) implies shows_under(
        item,
        rows[i],
        active[j],
    ) by {
        lemma_shows_under(list[i], rows[i], overrides[j], active[j]);
    }
    assert(shows_effective(item, rows[i], key, active));
}

proof fn lemma_brings(
    keys: Seq<Seq<char>>,
    rows: Seq<RowV>,
    list: Seq<JsonV>,
    active: Seq<RowV>,
    overrides: Seq<JsonV>,
)
    requires
        records(Shape::Rule, rows) == Ok::<Seq<JsonV>, Seq<char>>(list),
        records(Shape::Override, active) == Ok::<Seq<JsonV>, Seq<char>>(overrides),
        forall|k: int| 0 <= k < keys.len() ==> has_key(rows, #[trigger] keys[k]),
    ensures
        brings_effective(effective_records(picked(list, keys), overrides), keys, rows, active),
{
    lemma_picked_at(rows, list, keys, keys.len() as int);
    let found = picked(list, keys);
    let items = effective_records(found, overrides);
    assert forall|k: int| 0 <= k < keys.len() implies brings_one(
        #[trigger] items[k],
        keys[k],
        rows,
        active,
    ) by {
        assert(has_key(rows, keys[k]));
        assert(rows.take(rows.len() as int) =~= rows);
        lemma_last_exists(rows, keys[k], rows.len() as int);
        let i = choose|i: int| #[trigger] last_for(rows, keys[k], i);
        assert(found[k] == list[i]);
        assert(items[k] == effective_record(found[k], overrides));
        lemma_brings_one(keys[k], rows, list, active, overrides, i);
    }
}

/// The answer to a selection has, for each key in the order of the selection, the stored rule under
/// it: exactly as it is stored where no active override is for the key, else with the fields that
/// the override sets and all others as they are stored.
#[verifier::spinoff_prover]
#[verifier::rlimit(50)]
pub proof fn a_selection_brings_the_rules_in_full(
    s: SelectionV,
    db: Seq<char>,
    rows: Seq<RowV>,
    active: Seq<RowV>,
    now: Seq<char>,
)
    requires
        rule_rows(rows),
        override_rows(active),
        forall|k: int| 0 <= k < s.keys.len() ==> has_key(rows, #[trigger] s.keys[k]),
    ensures
        ({
            let read = next(db, StageV::SelectRules(s), ReplyV::Rows(rows), now);
            let last = after_reply(db, read, ReplyV::Rows(active), now);
            &&& queries(read, overrides_query(s.project_id, seq!["active"@]))
            &&& last matches StepV::Done(Ok(v)) && {
                &&& field(v, "project_id"@) == Some(JsonV::Text(s.project_id))
                &&& field(v, "knowledge_revision"@) == Some(JsonV::Text(s.knowledge_revision))
                &&& field(v, "rules"@) matches Some(JsonV::Array(items)) && brings_effective(
                    items,
                    s.keys,
                    rows,
                    active,
                )
            }
        }),
{
    assert(counting() =~= seq!["active"@]);
    lemma_rule_rows(rows);
    lemma_override_rows(active);
    let list = records(Shape::Rule, rows)->Ok_0;
    let overrides = records(Shape::Override, active)->Ok_0;
    lemma_brings(s.keys, rows, list, active, overrides);
    let items = effective_records(picked(list, s.keys), overrides);
    lemma_names();
    lemma_detail("project_id"@, JsonV::Text(s.project_id));
    let v0 = detail("project_id"@, JsonV::Text(s.project_id));
    lemma_and_detail(v0, "knowledge_revision"@, JsonV::Text(s.knowledge_revision));
    let v1 = and_detail(v0, "knowledge_revision"@, JsonV::Text(s.knowledge_revision));
    lemma_and_detail(v1, "rules"@, JsonV::Array(items));
    let v2 = and_detail(v1, "rules"@, JsonV::Array(items));
    assert(selection_value(s, picked(list, s.keys), overrides) == v2);
}

proof fn lemma_hints(missing: Seq<Seq<char>>, n: int, available: Seq<Seq<char>>, key: Seq<char>)
    requires
        0 <= n <= missing.len(),
    ensures
        lookup(hints_upto(missing, n, available), key) == (if missing.take(n).contains(key) {
            Some(listed_texts(suggested(key, available, 3)))
        } else {
            None
        }),
    decreases n,
{
    if n > 0 {
        lemma_hints(missing, n - 1, available, key);
        let last = missing[n - 1];
        put_is_found(
            hints_upto(missing, n - 1, available),
            last,
            texts(suggested(last, available, 3)),
            key,
        );
        assert(texts(suggested(last, available, 3)) == listed_texts(suggested(last, available, 3)));
        let all = missing.take(n);
        let front = missing.take(n - 1);
        assert(all[n - 1] == last);
        if front.contains(key) {
            let i = front.index_of(key);
            assert(all[i] == key);
        }
        if all.contains(key) && key != last {
            let i = all.index_of(key);
            assert(front[i] == key);
        }
    } else {
        assert(lookup(Seq::<(Seq<char>, JsonV)>::empty(), key) is None);
    }
}

proof fn lemma_keys_of_rows(rows: Seq<RowV>, list: Seq<JsonV>, n: int)
    requires
        records(Shape::Rule, rows) == Ok::<Seq<JsonV>, Seq<char>>(list),
        0 <= n <= rows.len(),
    ensures
        keys_upto(list, n) == rows.take(n).map_values(|row: RowV| text_in(row, "rule_key"@)->0),
    decreases n,
{
    lemma_rule_rows(rows);
    let key = |row: RowV| text_in(row, "rule_key"@)->0;
    if n > 0 {
        lemma_keys_of_rows(rows, list, n - 1);
        assert(shows_rule_row(list[n - 1], rows[n - 1]) && rule_row(rows[n - 1]));
        assert(text_field(list[n - 1], "key"@) == Some(key(rows[n - 1])));
        assert(rows.take(n).map_values(key) =~= rows.take(n - 1).map_values(key).push(
            key(rows[n - 1]),
        ));
    } else {
        assert(rows.take(0).map_values(key) =~= Seq::empty());
    }
}

/// A selection that is refused for its keys is told, for each that is missing, up to three of the
/// keys that there are.
#[verifier::spinoff_prover]
#[verifier::rlimit(50)]
pub proof fn missing_keys_come_with_suggestions(
    s: SelectionV,
    db: Seq<char>,
    rules: Seq<RowV>,
    key: Seq<char>,
    now: Seq<char>,
)
    requires
        rule_rows(rules),
        s.keys.contains(key),
        !has_key(rules, key),
    ensures
        ({
            let last = next(db, StageV::SelectAvailable(s), ReplyV::Rows(rules), now);
            let known = rules.map_values(|row: RowV| text_in(row, "rule_key"@)->0);
            &&& refuses(last, ErrorCode::RuleNotFound)
            &&& field(
                last->Done_0->Err_0->Kb_0.details,
                "suggestions"@,
            ) matches Some(hints) && field(hints, key) == Some(
                listed_texts(suggested(key, known, 3)),
            )
        }),
{
    lemma_rule_rows(rules);
    let list = records(Shape::Rule, rules)->Ok_0;
    let available = record_keys(list);
    lemma_keys_of_rows(rules, list, rules.len() as int);
    assert(rules.take(rules.len() as int) =~= rules);
    lemma_record_keys(rules, list, rules.len() as int, key);
    let missing = missing_keys(s.keys, available);
    the_missing_keys_are_reported(s.keys, available, key);
    assert(missing.contains(key));
    assert(missing.len() > 0) by {
        let i = missing.index_of(key);
        assert(missing[i] == key);
    }
    lemma_hints(missing, missing.len() as int, available, key);
    assert(missing.take(missing.len() as int) =~= missing);
    let hints = JsonV::Object(hints_upto(missing, missing.len() as int, available));
    reveal_strlit("not_found");
    reveal_strlit("suggestions");
    assert("not_found"@.len() == 9 && "suggestions"@.len() == 11);
    lemma_detail("not_found"@, texts(missing));
    lemma_and_detail(detail("not_found"@, texts(missing)), "suggestions"@, hints);
}

// ---- refusals and failures ----

/// A payload that is no selection is refused before anything is read: with its faults in an
/// envelope, or without one.
pub proof fn a_bad_selection_is_refused(
    payload: JsonV,
    l: LocationV,
    home: Option<Seq<char>>,
    cwd: Seq<char>,
)
    ensures
        ({
            let first = operation_start(OperationV::Selection { payload }, l, home, cwd);
            match validated_selection(payload) {
                Ok(_) => first is Ask,
                Err(SelectionErrorV::Envelope(errors)) => {
                    &&& refuses(first, ErrorCode::InvalidSelection)
                    &&& field(first->Done_0->Err_0->Kb_0.details, "validation_errors"@) == Some(
                        JsonV::Array(errors),
                    )
                },
                Err(SelectionErrorV::Raw) => first matches StepV::Done(Err(ServiceErrorV::Raw(_))),
            }
        }),
{
    if let Err(SelectionErrorV::Envelope(errors)) = validated_selection(payload) {
        lemma_detail("validation_errors"@, JsonV::Array(errors));
    }
}

/// A refresh that cannot be written is refused as a locked database where the database is busy or
/// says that it is locked, else as a fault of the database. A source hash that cannot be read counts
/// as that of no rule. Any other failure ends the operation with its own words.
pub proof fn a_failure_of_the_database_ends_the_operation(
    db: Seq<char>,
    stage: StageV,
    f: FailureV,
    now: Seq<char>,
)
    ensures
        ({
            let last = next(db, stage, ReplyV::Failed(f), now);
            if stage is PrepareWritten {
                &&& refuses(
                    last,
                    if f.busy || (f.engine matches Some(m) && holds(lowercase(m), "locked"@)) {
                        ErrorCode::DbLocked
                    } else {
                        ErrorCode::DbIntegrityError
                    },
                )
                &&& field(last->Done_0->Err_0->Kb_0.details, "path"@) == Some(JsonV::Text(db))
            } else if stage is SetSource {
                refuses(last, ErrorCode::RuleNotFound)
            } else {
                last == StepV::<StageV, ServiceErrorV>::Done(Err(ServiceErrorV::Raw(f.text)))
            }
        }),
{
    lemma_detail("path"@, JsonV::Text(db));
    if let Some(m) = f.engine {
        lemma_holds(lowercase(m), "locked"@);
    }
}

/// Whether a text holds another.
pub open spec fn holds(t: Seq<char>, needle: Seq<char>) -> bool {
    exists|at: int|
        0 <= at <= at + needle.len() <= t.len() && #[trigger] t.subrange(at, at + needle.len())
            == needle
}

/// A text occurs in another exactly where it is held by it.
pub proof fn lemma_holds(t: Seq<char>, needle: Seq<char>)
    ensures
        occurs(t, needle) <==> holds(t, needle),
{
    if occurs(t, needle) {
        let at = choose|at: int| 0 <= at <= t.len() && #[trigger] begins(t.skip(at), needle);
        assert(t.subrange(at, at + needle.len()) =~= t.skip(at).take(needle.len() as int));
    }
    if holds(t, needle) {
        let at = choose|at: int|
            0 <= at <= at + needle.len() <= t.len() && #[trigger] t.subrange(at, at + needle.len())
                == needle;
        assert(t.skip(at).take(needle.len() as int) =~= t.subrange(at, at + needle.len()));
        assert(begins(t.skip(at), needle));
    }
}

} // verus!
