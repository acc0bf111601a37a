//! What holds across the operations of the service and the runs of the program.

use vstd::prelude::*;

use crate::cli::{failure_value, finished, payload_of, printed, success_value, TopCommand};
use crate::config::LocationV;
use crate::description::{
    a_revision_covers_every_field, carried_revision, description_carries_revision,
    description_value, knowledge_value, revision_of, same_rule,
};
use crate::errors::{and_detail, detail, error_value, ErrorCode, ErrorV};
use crate::json::{field, text_field, texts, JsonV};
use crate::json_laws::{
    a_canonical_text_is_one_line, lemma_and_detail, lemma_detail, lemma_texts_sorted, tidy,
    unbroken,
};
use crate::json_util::{canonical, json_text, lemma_items_text, lemma_json_text};
use crate::maintenance::{migrate_next, MigrationV};
use crate::models::{ChecklistV, RuleV, SelectionV};
use crate::overrides::{
    conflicts, effective_checklist, effective_rule, overridden, override_for, text_items,
    text_or_empty, texts_upto,
};
use crate::protocol::{ReplyV, RequestV, RowV, StepV};
use crate::repository::{a_pattern_is_literal, conflicts_marking, like, overrides_query, pattern};
use crate::rows::{
    maybe_list, maybe_text, mentioning, override_shown, rule_mentions, rule_shown, KeptV,
};
use crate::selection::{
    a_selection_is_all_or_nothing, overlaid, overlaid_field, record_keys, revision_error,
};
use crate::service::{
    ask, conflict_error, counting, database_rows, done_next, end, fail, failed_next, file_next,
    knowledge_rows, next, override_rows, prepare_conflicts, prepare_decide, prepare_project,
    prepare_rows, prepare_value, rows_next, select_available, select_project, source_changed,
    stored_rule, PrepareJobV, ServiceErrorV, ServiceStepV, StageV,
};
use crate::session::{
    changing, launched, operation_start, planned, selecting, turned, wait, OperationV, PhaseV,
    PlanV, RunV, SessionV, TurnV, WorldV,
};

verus! {

broadcast use crate::json::group_json;

// ---- reading ----

/// Whether a request changes the database.
pub open spec fn writes(request: RequestV) -> bool {
    match request {
        RequestV::Script(..) => true,
        RequestV::Execute(_) => true,
        RequestV::Write(_) => true,
        RequestV::Copy(..) => true,
        RequestV::Remove(_) => true,
        RequestV::Rename(..) => true,
        RequestV::WriteText(..) => true,
        RequestV::CreateDirs(_) => true,
        RequestV::OpenFile(..) => true,
        _ => false,
    }
}

/// The stages of the operations that only look: `status`, the lists, the searches, the selection,
/// the queries on the database as such.
pub open spec fn looks(stage: StageV) -> bool {
    match stage {
        StageV::StatusRead(..) => true,
        StageV::StatusProject(..) => true,
        StageV::StatusOverrides(..) => true,
        StageV::ShowProject(_) => true,
        StageV::Description(_) => true,
        StageV::Projects => true,
        StageV::RulesProject(_) => true,
        StageV::Rules => true,
        StageV::SearchProject(..) => true,
        StageV::SearchRules(_) => true,
        StageV::Snapshot(_) => true,
        StageV::SelectProject(_) => true,
        StageV::SelectAvailable(_) => true,
        StageV::SelectRules(_) => true,
        StageV::SelectOverrides(..) => true,
        StageV::OverridesProject(_) => true,
        StageV::Overrides => true,
        StageV::ShowOverrideProject(..) => true,
        StageV::ShowOverride(..) => true,
        StageV::ShowSource(..) => true,
        StageV::InfoProjects(..) => true,
        StageV::InfoVersion(..) => true,
        StageV::Check => true,
        StageV::View(..) => true,
        StageV::Schema => true,
        _ => false,
    }
}

/// An operation that only looks never writes, whatever it is answered.
pub proof fn looking_never_writes(db: Seq<char>, stage: StageV, reply: ReplyV, now: Seq<char>)
    requires
        looks(stage),
    ensures
        next(db, stage, reply, now) matches StepV::Ask(request, after) ==> !writes(request)
            && looks(after),
{
}

// ---- preparing ----

/// Whether a stored project is the one that preparing `checklist` as `job` stored.
pub open spec fn stored_as(project: JsonV, job: PrepareJobV, checklist: ChecklistV) -> bool {
    &&& text_field(project, "project_name"@) == Some(job.project_name)
    &&& text_field(project, "checklist_path"@) == Some(job.path)
    &&& text_field(project, "checklist_version"@) == Some(checklist.checklist_version)
    &&& text_field(project, "content_hash"@) == Some(checklist.content_hash)
}

/// Preparing what is stored already reuses it: only the active overrides are read, nothing is
/// written, and there is no warning.
pub proof fn preparing_again_reuses(
    job: PrepareJobV,
    checklist: ChecklistV,
    project: JsonV,
    overrides: Seq<JsonV>,
    now: Seq<char>,
)
    requires
        stored_as(project, job, checklist),
        text_field(project, "knowledge_revision"@) == Some(
            revision_of(effective_checklist(checklist, overrides)),
        ),
        !job.force,
    ensures
        prepare_project(job, checklist, Some(project), now) == ask(
            overrides_query(job.project_id, counting()),
            StageV::PrepareActive(job, checklist, project),
        ),
        prepare_decide(job, checklist, Some(project), overrides, now) == end(
            prepare_value(
                job,
                checklist,
                description_value(
                    job.project_id,
                    job.project_name,
                    effective_checklist(checklist, overrides),
                ),
                "reused"@,
                Seq::empty(),
            ),
        ),
{
    description_carries_revision(
        job.project_id,
        job.project_name,
        effective_checklist(checklist, overrides),
    );
}

/// A project whose version or content changed is refreshed, with a warning exactly where the
/// content changed and the version did not.
pub proof fn a_changed_source_is_refreshed(
    job: PrepareJobV,
    checklist: ChecklistV,
    project: JsonV,
    overrides: Seq<JsonV>,
    now: Seq<char>,
)
    requires
        source_changed(project, checklist),
        !job.force,
    ensures
        prepare_decide(job, checklist, Some(project), overrides, now) matches StepV::Ask(
            request,
            StageV::PrepareRecheck(refresh),
        ) && !writes(request) && refresh.status == "refreshed"@ && refresh.job == job
            && refresh.checklist == checklist && (refresh.warnings
            == seq!["CONTENT_CHANGED_WITHOUT_VERSION_BUMP"@] <==> text_field(
            project,
            "checklist_version"@,
        ) == Some(checklist.checklist_version)) && (refresh.warnings.len() == 0 <==> text_field(
            project,
            "checklist_version"@,
        ) != Some(checklist.checklist_version)),
{
    assert(seq!["CONTENT_CHANGED_WITHOUT_VERSION_BUMP"@].len() == 1);
    assert(Seq::<Seq<char>>::empty().len() == 0);
}

/// A conflict is marked and refused: the marks on the overrides, each with its entry in the audit
/// log and all in one transaction, are the only change, and whatever the database answers, the
/// operation ends there with a failure.
pub proof fn a_conflict_only_marks(
    job: PrepareJobV,
    checklist: ChecklistV,
    project: JsonV,
    overrides: Seq<JsonV>,
    db: Seq<char>,
    reply: ReplyV,
    now: Seq<char>,
)
    requires
        conflicts(overrides, checklist.rules).len() > 0,
    ensures
        ({
            let keys = conflicts(overrides, checklist.rules);
            let stage = StageV::PrepareMarked(job.project_id, keys);
            &&& prepare_conflicts(job, checklist, project, overrides, now) == StepV::<
                StageV,
                ServiceErrorV,
            >::Ask(RequestV::Write(conflicts_marking(job.project_id, keys, now)), stage)
            &&& next(db, stage, ReplyV::Done, now) == fail(conflict_error(job.project_id, keys))
            &&& next(db, stage, reply, now) matches StepV::Done(Err(_))
        }),
{
}

/// The stages of a `prepare`.
pub open spec fn prepares(stage: StageV) -> bool {
    match stage {
        StageV::PrepareRead(_) => true,
        StageV::PrepareProject(..) => true,
        StageV::PrepareConflicts(..) => true,
        StageV::PrepareMarked(..) => true,
        StageV::PrepareActive(..) => true,
        StageV::PrepareRecheck(_) => true,
        StageV::PrepareWritten(_) => true,
        StageV::Completed(_) => true,
        _ => false,
    }
}

/// The stages of a `prepare` after it has changed the database.
spec fn has_written(stage: StageV) -> bool {
    stage is PrepareMarked || stage is PrepareWritten || stage is Completed
}

proof fn lemma_prepare_step(db: Seq<char>, stage: StageV, reply: ReplyV, now: Seq<char>)
    requires
        prepares(stage),
    ensures
        next(db, stage, reply, now) matches StepV::Ask(request, after) ==> prepares(after) && (
        writes(request) ==> has_written(after)),
{
}

proof fn lemma_written(db: Seq<char>, stage: StageV, reply: ReplyV, now: Seq<char>)
    requires
        has_written(stage),
    ensures
        next(db, stage, reply, now) is Done,
{
}

/// A `prepare` changes the database with one request at most: after it, whatever the answer, the
/// operation is over. So a failure at any point leaves either the old knowledge or the new, never
/// a mixture.
pub proof fn a_prepare_writes_once(
    db: Seq<char>,
    stage: StageV,
    reply: ReplyV,
    later: ReplyV,
    now: Seq<char>,
)
    requires
        prepares(stage),
    ensures
        next(db, stage, reply, now) matches StepV::Ask(request, after) ==> prepares(after) && (
        writes(request) ==> next(db, after, later, now) is Done),
{
    lemma_prepare_step(db, stage, reply, now);
    if let StepV::Ask(request, after) = next(db, stage, reply, now) {
        if writes(request) {
            lemma_written(db, after, later, now);
        }
    }
}

/// Renaming a project does not change its knowledge revision.
pub proof fn renaming_keeps_the_revision(
    project_id: Seq<char>,
    old_name: Seq<char>,
    new_name: Seq<char>,
    checklist: ChecklistV,
)
    ensures
        carried_revision(description_value(project_id, old_name, checklist)) == carried_revision(
            description_value(project_id, new_name, checklist),
        ),
{
    description_carries_revision(project_id, old_name, checklist);
    description_carries_revision(project_id, new_name, checklist);
}

// ---- overrides ----

/// A rule that no override is about counts as the checklist states it.
pub proof fn a_rule_without_override_is_its_source(rule: RuleV, overrides: Seq<JsonV>)
    requires
        forall|i: int|
            0 <= i < overrides.len() ==> text_field(#[trigger] overrides[i], "rule_key"@) != Some(
                rule.key,
            ),
    ensures
        effective_rule(rule, overrides) == rule,
    decreases overrides.len(),
{
    lemma_no_override(overrides, rule.key);
}

proof fn lemma_no_override(overrides: Seq<JsonV>, key: Seq<char>)
    requires
        forall|i: int|
            0 <= i < overrides.len() ==> text_field(#[trigger] overrides[i], "rule_key"@) != Some(
                key,
            ),
    ensures
        override_for(overrides, key) is None,
    decreases overrides.len(),
{
    if overrides.len() > 0 {
        lemma_no_override(overrides.drop_last(), key);
    }
}

/// Without active overrides the source counts, rule by rule.
pub proof fn without_overrides_the_source_counts(checklist: ChecklistV)
    ensures
        effective_checklist(checklist, Seq::empty()) == checklist,
{
    assert forall|i: int| 0 <= i < checklist.rules.len() implies #[trigger] effective_checklist(
        checklist,
        Seq::empty(),
    ).rules[i] == checklist.rules[i] by {
        a_rule_without_override_is_its_source(checklist.rules[i], Seq::empty());
    }
    assert(effective_checklist(checklist, Seq::empty()).rules =~= checklist.rules);
}

/// Overrides never change which rules there are, nor their order.
pub proof fn overrides_keep_the_keys(checklist: ChecklistV, overrides: Seq<JsonV>, i: int)
    requires
        0 <= i < checklist.rules.len(),
    ensures
        effective_checklist(checklist, overrides).rules.len() == checklist.rules.len(),
        effective_checklist(checklist, overrides).rules[i].key == checklist.rules[i].key,
        effective_checklist(checklist, overrides).rules[i].source_rule_hash
            == checklist.rules[i].source_rule_hash,
{
}

/// An override that changes a field of a rule changes the text that the knowledge revision is the
/// digest of.
pub proof fn an_override_changes_what_is_digested(
    checklist: ChecklistV,
    overrides: Seq<JsonV>,
    i: int,
)
    requires
        0 <= i < checklist.rules.len(),
        !same_rule(effective_rule(checklist.rules[i], overrides), checklist.rules[i]),
    ensures
        canonical(knowledge_value(effective_checklist(checklist, overrides))) != canonical(
            knowledge_value(checklist),
        ),
{
    let changed = effective_checklist(checklist, overrides);
    if canonical(knowledge_value(changed)) == canonical(knowledge_value(checklist)) {
        a_revision_covers_every_field(changed, checklist);
        assert(same_rule(changed.rules[i], checklist.rules[i]));
    }
}

// ---- storing ----

/// The rule that is read out of the record of a rule is that rule.
pub proof fn a_stored_rule_is_read_back(rule: RuleV, ordinal: int)
    ensures
        stored_rule(rule_shown(rule, ordinal)) == rule,
{
    lemma_rule_shown(rule, ordinal);
    lemma_text_items(rule.tags);
    lemma_text_items(rule.paths);
    lemma_text_items(rule.languages);
}

proof fn lemma_text_items(list: Seq<Seq<char>>)
    ensures
        text_items(Some(texts(list))) == list,
{
    let items = list.map_values(|t: Seq<char>| JsonV::Text(t));
    lemma_texts_upto(list, items, list.len() as int);
    assert(list.take(list.len() as int) =~= list);
}

proof fn lemma_texts_upto(list: Seq<Seq<char>>, items: Seq<JsonV>, n: int)
    requires
        0 <= n <= list.len(),
        items == list.map_values(|t: Seq<char>| JsonV::Text(t)),
    ensures
        texts_upto(items, n) == list.take(n),
    decreases n,
{
    if n > 0 {
        lemma_texts_upto(list, items, n - 1);
        assert(items[n - 1] == JsonV::Text(list[n - 1]));
        assert(list.take(n) =~= list.take(n - 1).push(list[n - 1]));
    } else {
        assert(list.take(0) =~= Seq::empty());
    }
}

/// What the record of an override says of each field that it can change.
proof fn lemma_override_fields(o: KeptV)
    ensures
        field(override_shown(o), "summary"@) == Some(maybe_text(o.summary)),
        field(override_shown(o), "content"@) == Some(maybe_text(o.content)),
        field(override_shown(o), "tags"@) == Some(maybe_list(o.tags)),
        field(override_shown(o), "paths"@) == Some(maybe_list(o.paths)),
        field(override_shown(o), "languages"@) == Some(maybe_list(o.languages)),
        field(override_shown(o), "rule_key"@) == Some(JsonV::Text(o.rule_key)),
        field(override_shown(o), "status"@) == Some(JsonV::Text(o.status)),
{
    lemma_field_names();
    let a = detail("project_id"@, JsonV::Text(o.project_id));
    lemma_detail("project_id"@, JsonV::Text(o.project_id));
    let b = and_detail(a, "rule_key"@, JsonV::Text(o.rule_key));
    lemma_and_detail(a, "rule_key"@, JsonV::Text(o.rule_key));
    let c = and_detail(b, "summary"@, maybe_text(o.summary));
    lemma_and_detail(b, "summary"@, maybe_text(o.summary));
    let d = and_detail(c, "content"@, maybe_text(o.content));
    lemma_and_detail(c, "content"@, maybe_text(o.content));
    let e = and_detail(d, "base_source_rule_hash"@, JsonV::Text(o.base));
    lemma_and_detail(d, "base_source_rule_hash"@, JsonV::Text(o.base));
    let f = and_detail(e, "status"@, JsonV::Text(o.status));
    lemma_and_detail(e, "status"@, JsonV::Text(o.status));
    let g = and_detail(f, "reason"@, JsonV::Text(o.reason));
    lemma_and_detail(f, "reason"@, JsonV::Text(o.reason));
    let h = and_detail(g, "created_at"@, JsonV::Text(o.created_at));
    lemma_and_detail(g, "created_at"@, JsonV::Text(o.created_at));
    let i = and_detail(h, "updated_at"@, JsonV::Text(o.updated_at));
    lemma_and_detail(h, "updated_at"@, JsonV::Text(o.updated_at));
    let j = and_detail(i, "tags"@, maybe_list(o.tags));
    lemma_and_detail(i, "tags"@, maybe_list(o.tags));
    let k = and_detail(j, "paths"@, maybe_list(o.paths));
    lemma_and_detail(j, "paths"@, maybe_list(o.paths));
    lemma_and_detail(k, "languages"@, maybe_list(o.languages));
}

/// The names of fields differ: by their lengths, or by their first characters.
proof fn lemma_field_names()
    ensures
        "project_id"@.len() == 10 && "rule_key"@.len() == 8 && "summary"@.len() == 7
            && "content"@.len() == 7 && "base_source_rule_hash"@.len() == 21 && "status"@.len() == 6
            && "reason"@.len() == 6 && "created_at"@.len() == 10 && "updated_at"@.len() == 10,
        "tags"@.len() == 4 && "paths"@.len() == 5 && "languages"@.len() == 9 && "key"@.len() == 3
            && "source_rule_hash"@.len() == 16 && "ordinal"@.len() == 7,
        "summary"@[0] == 's' && "content"@[0] == 'c' && "ordinal"@[0] == 'o',
        "status"@[0] == 's' && "reason"@[0] == 'r',
{
    reveal_strlit("project_id");
    reveal_strlit("rule_key");
    reveal_strlit("summary");
    reveal_strlit("content");
    reveal_strlit("base_source_rule_hash");
    reveal_strlit("status");
    reveal_strlit("reason");
    reveal_strlit("created_at");
    reveal_strlit("updated_at");
    reveal_strlit("tags");
    reveal_strlit("paths");
    reveal_strlit("languages");
    reveal_strlit("key");
    reveal_strlit("source_rule_hash");
    reveal_strlit("ordinal");
}

/// A rule with the fields that an override changes.
pub open spec fn changed_rule(rule: RuleV, o: KeptV) -> RuleV {
    RuleV {
        summary: match o.summary {
            Some(t) => t,
            None => rule.summary,
        },
        content: match o.content {
            Some(t) => t,
            None => rule.content,
        },
        tags: match o.tags {
            Some(l) => l,
            None => rule.tags,
        },
        paths: match o.paths {
            Some(l) => l,
            None => rule.paths,
        },
        languages: match o.languages {
            Some(l) => l,
            None => rule.languages,
        },
        ..rule
    }
}

/// What a field of a record is after an override has been laid on it.
pub proof fn lemma_overlay(rule: JsonV, o: JsonV, name: Seq<char>)
    requires
        tidy(rule),
    ensures
        tidy(overlaid_field(rule, o, name)),
        forall|other: Seq<char>|
            other != name ==> #[trigger] field(overlaid_field(rule, o, name), other) == field(
                rule,
                other,
            ),
        field(overlaid_field(rule, o, name), name) == (match field(o, name) {
            None => field(rule, name),
            Some(JsonV::Null) => field(rule, name),
            Some(v) => Some(v),
        }),
{
    if let Some(v) = field(o, name) {
        lemma_and_detail(rule, name, v);
    }
}

/// What the record of a rule says of each field.
proof fn lemma_rule_shown(rule: RuleV, ordinal: int)
    ensures
        tidy(rule_shown(rule, ordinal)),
        field(rule_shown(rule, ordinal), "key"@) == Some(JsonV::Text(rule.key)),
        field(rule_shown(rule, ordinal), "summary"@) == Some(JsonV::Text(rule.summary)),
        field(rule_shown(rule, ordinal), "content"@) == Some(JsonV::Text(rule.content)),
        field(rule_shown(rule, ordinal), "tags"@) == Some(texts(rule.tags)),
        field(rule_shown(rule, ordinal), "paths"@) == Some(texts(rule.paths)),
        field(rule_shown(rule, ordinal), "languages"@) == Some(texts(rule.languages)),
        field(rule_shown(rule, ordinal), "source_rule_hash"@) == Some(
            JsonV::Text(rule.source_rule_hash),
        ),
{
    lemma_field_names();
    let a = detail("key"@, JsonV::Text(rule.key));
    lemma_detail("key"@, JsonV::Text(rule.key));
    let b = and_detail(a, "summary"@, JsonV::Text(rule.summary));
    lemma_and_detail(a, "summary"@, JsonV::Text(rule.summary));
    let c = and_detail(b, "content"@, JsonV::Text(rule.content));
    lemma_and_detail(b, "content"@, JsonV::Text(rule.content));
    let d = and_detail(c, "tags"@, texts(rule.tags));
    lemma_and_detail(c, "tags"@, texts(rule.tags));
    let e = and_detail(d, "paths"@, texts(rule.paths));
    lemma_and_detail(d, "paths"@, texts(rule.paths));
    let f = and_detail(e, "languages"@, texts(rule.languages));
    lemma_and_detail(e, "languages"@, texts(rule.languages));
    let g = and_detail(f, "source_rule_hash"@, JsonV::Text(rule.source_rule_hash));
    lemma_and_detail(f, "source_rule_hash"@, JsonV::Text(rule.source_rule_hash));
    lemma_and_detail(g, "ordinal"@, JsonV::Int(ordinal));
}

/// An override takes effect field by field, and in the same way for the description and for the
/// rules that a selection brings.
pub proof fn an_override_takes_effect(rule: RuleV, ordinal: int, o: KeptV)
    ensures
        overridden(rule, override_shown(o)) == changed_rule(rule, o),
        stored_rule(overlaid(rule_shown(rule, ordinal), override_shown(o))) == changed_rule(rule, o),
{
    let shown = override_shown(o);
    lemma_override_fields(o);
    lemma_list_items(o.tags);
    lemma_list_items(o.paths);
    lemma_list_items(o.languages);
    lemma_text_items(rule.tags);
    lemma_text_items(rule.paths);
    lemma_text_items(rule.languages);
    lemma_field_names();
    lemma_rule_shown(rule, ordinal);
    let a = rule_shown(rule, ordinal);
    let b = overlaid_field(a, shown, "summary"@);
    let c = overlaid_field(b, shown, "content"@);
    let d = overlaid_field(c, shown, "tags"@);
    let e = overlaid_field(d, shown, "paths"@);
    lemma_overlay(a, shown, "summary"@);
    lemma_overlay(b, shown, "content"@);
    lemma_overlay(c, shown, "tags"@);
    lemma_overlay(d, shown, "paths"@);
    lemma_overlay(e, shown, "languages"@);
}

proof fn lemma_list_items(list: Option<Seq<Seq<char>>>)
    ensures
        list matches Some(l) ==> text_items(Some(texts(l))) == l,
{
    if let Some(l) = list {
        lemma_text_items(l);
    }
}

// ---- searching ----

/// Whether the condition of [`crate::repository::search_query`] holds of the stored row of a rule.
pub open spec fn passes_search(rule: RuleV, query: Seq<char>) -> bool {
    ||| like(pattern(query), rule.key)
    ||| like(pattern(query), rule.summary)
    ||| like(pattern(query), rule.content)
    ||| canonical(texts(rule.tags)) != "[]"@
    ||| canonical(texts(rule.paths)) != "[]"@
    ||| canonical(texts(rule.languages)) != "[]"@
}

proof fn lemma_list_text(list: Seq<Seq<char>>)
    requires
        list.len() > 0,
    ensures
        canonical(texts(list)) != "[]"@,
{
    lemma_texts_sorted(list);
    let items = list.map_values(|t: Seq<char>| JsonV::Text(t));
    lemma_json_text(JsonV::Array(items));
    lemma_items_text(items, true);
    lemma_json_text(items[0]);
    reveal_strlit("[");
    reveal_strlit("]");
    reveal_strlit("[]");
    assert(items[0] == JsonV::Text(list[0]));
    assert(json_text(items[0]).len() >= 2);
    assert(canonical(texts(list)).len() > 2);
}

/// The query of a search leaves out no rule that mentions what is searched; what it brings beyond
/// them is filtered out.
pub proof fn a_search_misses_no_rule(rule: RuleV, ordinal: int, query: Seq<char>)
    requires
        rule_mentions(rule_shown(rule, ordinal), query),
    ensures
        passes_search(rule, query),
{
    lemma_rule_shown(rule, ordinal);
    a_pattern_is_literal(query, rule.key);
    a_pattern_is_literal(query, rule.summary);
    a_pattern_is_literal(query, rule.content);
    if rule.tags.len() > 0 {
        lemma_list_text(rule.tags);
    }
    if rule.paths.len() > 0 {
        lemma_list_text(rule.paths);
    }
    if rule.languages.len() > 0 {
        lemma_list_text(rule.languages);
    }
}

/// A search brings exactly the rules that mention what is searched, and each of them as often as
/// it is there.
pub proof fn a_search_brings_what_mentions(list: Seq<JsonV>, query: Seq<char>, record: JsonV)
    ensures
        mentioning(list, query).contains(record) <==> list.contains(record) && rule_mentions(
            record,
            query,
        ),
    decreases list.len(),
{
    reveal(Seq::filter);
    let p = |r: JsonV| rule_mentions(r, query);
    if list.len() > 0 {
        let front = list.drop_last();
        a_search_brings_what_mentions(front, query, record);
        let found = mentioning(front, query);
        assert(list =~= front.push(list.last()));
        if front.contains(record) {
            let i = front.index_of(record);
            assert(list[i] == record);
        }
        if list.contains(record) && !front.contains(record) {
            let i = list.index_of(record);
            assert(i < front.len() ==> front[i] == record);
            assert(list.last() == record);
        }
        if p(list.last()) {
            assert(mentioning(list, query) == found.push(list.last()));
            assert(mentioning(list, query)[found.len() as int] == list.last());
            if found.contains(record) {
                let i = found.index_of(record);
                assert(mentioning(list, query)[i] == record);
            }
            if mentioning(list, query).contains(record) {
                let i = mentioning(list, query).index_of(record);
                assert(i < found.len() ==> found[i] == record);
            }
            assert(list[list.len() - 1] == list.last());
        } else {
            assert(mentioning(list, query) == found);
        }
    }
}

// ---- selecting ----

/// A selection that was made against another knowledge revision is refused.
pub proof fn a_stale_selection_is_refused(s: SelectionV, project: JsonV)
    requires
        text_or_empty(project, "knowledge_revision"@) != s.knowledge_revision,
    ensures
        select_project(s, Some(project)) == fail(
            revision_error(s, text_or_empty(project, "knowledge_revision"@)),
        ),
        revision_error(s, text_or_empty(project, "knowledge_revision"@)).code
            == ErrorCode::KnowledgeRevisionMismatch,
{
}

/// A selection goes on to its rules exactly where every key is that of a rule; else it is refused
/// as a whole.
pub proof fn only_a_whole_selection_goes_on(s: SelectionV, rules: Seq<JsonV>)
    ensures
        (select_available(s, rules) is Ask) <==> (forall|i: int|
            0 <= i < s.keys.len() ==> record_keys(rules).contains(#[trigger] s.keys[i])),
        select_available(s, rules) matches StepV::Done(r) ==> (r matches Err(ServiceErrorV::Kb(e))
            && e.code == ErrorCode::RuleNotFound),
{
    a_selection_is_all_or_nothing(s.keys, record_keys(rules));
}

// ---- outcomes ----

/// The exit status is zero exactly where the operation succeeded. A failure with an envelope has
/// one of the statuses 1 to 5; one without has the status 1 and leaves standard output empty.
pub proof fn the_status_tells_success(command: Seq<char>, result: Result<JsonV, ServiceErrorV>)
    ensures
        finished(command, result).code == 0 <==> result is Ok,
        0 <= finished(command, result).code <= 5,
        finished(command, result).stdout is None <==> (result matches Err(ServiceErrorV::Raw(_))),
        finished(command, result).stdout is None ==> finished(command, result).code == 1,
{
}

/// Whether the envelope on standard output says that the operation succeeded.
pub open spec fn says_ok(envelope: JsonV) -> bool {
    field(envelope, "ok"@) == Some(JsonV::Bool(true))
}

/// The envelope agrees with the exit status.
pub proof fn the_envelope_agrees(command: Seq<char>, data: JsonV, warnings: JsonV, e: ErrorV)
    ensures
        says_ok(success_value(command, data, warnings)),
        !says_ok(failure_value(command, e)),
        field(failure_value(command, e), "error"@) == Some(error_value(e)),
        field(success_value(command, data, warnings), "data"@) == Some(data),
        field(success_value(command, data, warnings), "warnings"@) == Some(warnings),
{
    reveal_strlit("ok");
    reveal_strlit("data");
    reveal_strlit("error");
    reveal_strlit("warnings");
    reveal_strlit("meta");
    reveal_with_fuel(crate::json::position, 5);
    assert("ok"@.len() == 2 && "data"@.len() == 4 && "error"@.len() == 5 && "warnings"@.len() == 8
        && "meta"@.len() == 4);
    assert("data"@[0] == 'd' && "meta"@[0] == 'm');
}

/// What is printed is one line.
pub proof fn an_envelope_is_one_line(envelope: JsonV, code: int)
    requires
        unbroken(envelope),
    ensures
        ({
            let out = printed(envelope, code).stdout;
            &&& out is Some
            &&& out->0.len() > 0
            &&& out->0.last() == '\n'
            &&& !out->0.drop_last().contains('\n')
        }),
{
    a_canonical_text_is_one_line(envelope);
    reveal_strlit("\n");
    assert((canonical(envelope) + "\n"@).drop_last() =~= canonical(envelope));
}

// ---- databases that are not there ----

/// Only what brings knowledge in, and a migration, may create a database.
pub proof fn only_writers_create(command: TopCommand)
    ensures
        planned(command) matches PlanV::Run(_, create, operation) ==> (create <==> operation is Prepare
            || operation is Schema),
{
}

/// Whether a request can make a file.
pub open spec fn makes_a_file(request: RequestV) -> bool {
    match request {
        RequestV::OpenFile(..) => true,
        RequestV::CreateDirs(_) => true,
        RequestV::WriteText(..) => true,
        RequestV::Rename(..) => true,
        RequestV::Copy(..) => true,
        _ => false,
    }
}

/// The phases of a run that found no database and may not create one.
pub open spec fn without_file(phase: PhaseV) -> bool {
    match phase {
        PhaseV::Opened(run, _, file) => !file && !(run.operation is Backup),
        PhaseV::Settled(run, _) => !(run.operation is Backup),
        PhaseV::Migrating(run, _, _) => !(run.operation is Backup),
        PhaseV::Operating(..) => true,
        _ => false,
    }
}

/// Whether a step asks for something that can make a file.
spec fn step_makes_a_file(step: ServiceStepV) -> bool {
    step matches StepV::Ask(request, _) && makes_a_file(request)
}

proof fn lemma_prepare_rows_make_no_file(stage: StageV, rows: Seq<RowV>, now: Seq<char>)
    ensures
        !step_makes_a_file(prepare_rows(stage, rows, now)),
{
}

proof fn lemma_knowledge_rows_make_no_file(stage: StageV, rows: Seq<RowV>, now: Seq<char>)
    ensures
        !step_makes_a_file(knowledge_rows(stage, rows, now)),
{
}

proof fn lemma_override_rows_make_no_file(stage: StageV, rows: Seq<RowV>, now: Seq<char>)
    ensures
        !step_makes_a_file(override_rows(stage, rows, now)),
{
}

proof fn lemma_database_rows_make_no_file(stage: StageV, rows: Seq<RowV>, now: Seq<char>)
    ensures
        !step_makes_a_file(database_rows(stage, rows, now)),
{
}

proof fn lemma_next_makes_no_file(db: Seq<char>, stage: StageV, reply: ReplyV, now: Seq<char>)
    ensures
        !step_makes_a_file(next(db, stage, reply, now)),
{
    match reply {
        ReplyV::Rows(rows) => {
            lemma_prepare_rows_make_no_file(stage, rows, now);
            lemma_knowledge_rows_make_no_file(stage, rows, now);
            lemma_override_rows_make_no_file(stage, rows, now);
            lemma_database_rows_make_no_file(stage, rows, now);
            assert(!step_makes_a_file(rows_next(stage, rows, now)));
        },
        ReplyV::Done => {
            assert(!step_makes_a_file(done_next(stage)));
        },
        ReplyV::File(f) => {
            assert(!step_makes_a_file(file_next(stage, f)));
        },
        ReplyV::Failed(f) => {
            assert(!step_makes_a_file(failed_next(db, stage, f, now)));
        },
        _ => {},
    }
}

proof fn lemma_start_makes_no_file(
    operation: OperationV,
    l: LocationV,
    home: Option<Seq<char>>,
    cwd: Seq<char>,
)
    ensures
        operation_start(operation, l, home, cwd) matches StepV::Ask(request, _) ==> !makes_a_file(
            request,
        ),
{
}

proof fn lemma_migration_makes_no_file(m: MigrationV, reply: ReplyV, now: Seq<char>)
    ensures
        migrate_next(m, reply, now) matches StepV::Ask(request, _) ==> !makes_a_file(request),
{
}

/// A run that may not create a database asks first whether there is one; where there is none it
/// works in memory.
pub proof fn a_missing_database_is_not_opened(w: WorldV, run: RunV, now: Seq<char>)
    ensures
        launched(w, false, run) == wait(
            w,
            RequestV::Exists(run.location.path),
            PhaseV::Existing(run),
        ),
        turned(SessionV { world: w, phase: PhaseV::Existing(run) }, ReplyV::Flag(false), now) == wait(
            w,
            RequestV::OpenMemory,
            PhaseV::Opened(run, ":memory:"@, false),
        ),
{
}

/// A run that works in memory makes no file to its end, whatever it is answered.
pub proof fn a_missing_database_stays_missing(s: SessionV, reply: ReplyV, now: Seq<char>)
    requires
        without_file(s.phase),
    ensures
        turned(s, reply, now) matches TurnV::Ask(request, after) ==> !makes_a_file(request)
            && without_file(after.phase),
{
    match s.phase {
        PhaseV::Settled(run, path) => {
            lemma_start_makes_no_file(run.operation, run.location, s.world.home(), s.world.cwd);
        },
        PhaseV::Migrating(run, path, m) => {
            lemma_migration_makes_no_file(m, reply, now);
            lemma_start_makes_no_file(run.operation, run.location, s.world.home(), s.world.cwd);
        },
        PhaseV::Operating(run, path, stage) => {
            lemma_next_makes_no_file(path, stage, reply, now);
        },
        _ => {},
    }
}

/// Input that cannot be used ends the run before any database is looked for.
pub proof fn bad_input_touches_nothing(
    w: WorldV,
    input: Seq<char>,
    l: LocationV,
    source: Seq<char>,
)
    requires
        payload_of(input, source) is Err,
    ensures
        selecting(w, input, l, ReplyV::Text(source)) is Exit,
        changing(w, input, l, ReplyV::Text(source)) is Exit,
{
}

} // verus!
