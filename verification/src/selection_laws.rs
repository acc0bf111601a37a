//! What a selection is answered after a project was prepared.

use vstd::prelude::*;

use crate::config::LocationV;
use crate::errors::{and_detail, detail};
use crate::json::{field, text_field, JsonV};
use crate::json_laws::{lemma_and_detail, lemma_detail};
use crate::models::{validated_selection, RuleV, SelectionErrorV, SelectionV};
use crate::overrides::text_or_empty;
use crate::protocol::{CellV, Handle, ReplyV, RequestV, RowV, StepV};
use crate::repository::{keyed_rules_query, overrides_query, project_query, rules_query};
use crate::revision_laws::{
    a_completed_operation_leaves_revisions_current, counting_rows, current, files_fit, keyed,
    project_shown, reads_back, reported_revision, revision_in, rule_rows, serves, service_after,
    service_ran, sound, source_of,
};
use crate::rows::{
    column, maybe_text, record, records_upto, rule_columns, stored_value, text_column, text_columns,
    Shape,
};
use crate::selection::{
    a_selection_is_all_or_nothing, effective_records, keys_upto, missing_keys, picked, record_keys,
    revision_error, selected_rules_come_in_order, unknown_keys_error,
};
use crate::service::{
    counting, next, overrides_in, rules_in, stored_rules, ServiceErrorV, ServiceStepV, StageV,
};
use crate::session::{operation_start, OperationV};
use crate::tables::Tables;

verus! {

// ---- records ----

/// Rows are read one by one.
proof fn lemma_records(rows: Seq<RowV>, n: int)
    requires
        0 <= n <= rows.len(),
    ensures
        (forall|i: int| 0 <= i < n ==> record(Shape::Rule, #[trigger] rows[i]) is Ok)
            <==> records_upto(Shape::Rule, rows, n) is Ok,
        records_upto(Shape::Rule, rows, n) matches Ok(list) ==> list.len() == n && forall|i: int|
            0 <= i < n ==> record(Shape::Rule, #[trigger] rows[i]) == Ok::<JsonV, Seq<char>>(
                list[i],
            ),
    decreases n,
{
    if n > 0 {
        lemma_records(rows, n - 1);
        if records_upto(Shape::Rule, rows, n) is Ok {
            assert forall|i: int| 0 <= i < n implies record(Shape::Rule, #[trigger] rows[i])
                is Ok by {}
        }
        if forall|i: int| 0 <= i < n ==> record(Shape::Rule, #[trigger] rows[i]) is Ok {
            assert(record(Shape::Rule, rows[n - 1]) is Ok);
        }
    }
}

proof fn lemma_text_columns(row: RowV, names: Seq<(Seq<char>, bool)>)
    requires
        text_columns(row, names) is Ok,
    ensures
        ({
            let list = text_columns(row, names)->Ok_0;
            &&& list.len() == names.len()
            &&& forall|i: int|
                0 <= i < names.len() ==> text_column(row, (#[trigger] names[i]).0, names[i].1)
                    == Ok::<Option<Seq<char>>, Seq<char>>(list[i])
        }),
    decreases names.len(),
{
    if names.len() > 0 {
        lemma_text_columns(row, names.drop_last());
        assert forall|i: int| 0 <= i < names.len() implies text_column(
            row,
            (#[trigger] names[i]).0,
            names[i].1,
        ) == Ok::<Option<Seq<char>>, Seq<char>>(text_columns(row, names)->Ok_0[i]) by {
            if i < names.len() - 1 {
                assert(names.drop_last()[i] == names[i]);
            }
        }
    }
}

/// The key of a rule record is the key in its row.
proof fn lemma_record_key(row: RowV)
    requires
        record(Shape::Rule, row) is Ok,
    ensures
        ({
            let v = record(Shape::Rule, row)->Ok_0;
            &&& text_field(v, "key"@) is Some
            &&& column(row, "rule_key"@) == Some(CellV::Text(text_field(v, "key"@)->0))
        }),
{
    let t = text_columns(row, rule_columns())->Ok_0;
    lemma_text_columns(row, rule_columns());
    assert(rule_columns()[3] == ("rule_key"@, false));
    let n = column(row, "ordinal"@)->0->Integer_0;
    reveal_strlit("key");
    reveal_strlit("summary");
    reveal_strlit("content");
    reveal_strlit("tags");
    reveal_strlit("paths");
    reveal_strlit("languages");
    reveal_strlit("source_rule_hash");
    reveal_strlit("ordinal");
    assert("key"@.len() == 3 && "summary"@.len() == 7 && "content"@.len() == 7 && "tags"@.len()
        == 4 && "paths"@.len() == 5 && "languages"@.len() == 9 && "source_rule_hash"@.len() == 16
        && "ordinal"@.len() == 7);
    let a = detail("key"@, maybe_text(t[3]));
    lemma_detail("key"@, maybe_text(t[3]));
    let b = and_detail(a, "summary"@, maybe_text(t[4]));
    lemma_and_detail(a, "summary"@, maybe_text(t[4]));
    let c = and_detail(b, "content"@, maybe_text(t[5]));
    lemma_and_detail(b, "content"@, maybe_text(t[5]));
    let d = and_detail(c, "tags"@, stored_value(t[0]));
    lemma_and_detail(c, "tags"@, stored_value(t[0]));
    let e = and_detail(d, "paths"@, stored_value(t[1]));
    lemma_and_detail(d, "paths"@, stored_value(t[1]));
    let f = and_detail(e, "languages"@, stored_value(t[2]));
    lemma_and_detail(e, "languages"@, stored_value(t[2]));
    let g = and_detail(f, "source_rule_hash"@, maybe_text(t[6]));
    lemma_and_detail(f, "source_rule_hash"@, maybe_text(t[6]));
    lemma_and_detail(g, "ordinal"@, JsonV::Int(n));
    assert(record(Shape::Rule, row)->Ok_0 == and_detail(g, "ordinal"@, JsonV::Int(n)));
}

/// The keys of records that all have one.
proof fn lemma_keys(list: Seq<JsonV>, n: int)
    requires
        0 <= n <= list.len(),
        forall|i: int| 0 <= i < list.len() ==> text_field(#[trigger] list[i], "key"@) is Some,
    ensures
        keys_upto(list, n) == Seq::new(n as nat, |i: int| text_field(list[i], "key"@)->0),
    decreases n,
{
    if n > 0 {
        lemma_keys(list, n - 1);
        assert(text_field(list[n - 1], "key"@) is Some);
    }
    assert(keys_upto(list, n) =~= Seq::new(n as nat, |i: int| text_field(list[i], "key"@)->0));
}

/// Rules that can be read: their keys are those in the rows.
proof fn lemma_rule_keys(rows: Seq<RowV>)
    requires
        rules_in(rows) is Ok,
    ensures
        ({
            let list = rules_in(rows)->Ok_0;
            &&& list.len() == rows.len()
            &&& record_keys(list).len() == rows.len()
            &&& forall|i: int|
                0 <= i < rows.len() ==> column(#[trigger] rows[i], "rule_key"@) == Some(
                    CellV::Text(record_keys(list)[i]),
                ) && text_or_empty(list[i], "key"@) == record_keys(list)[i]
        }),
{
    let list = rules_in(rows)->Ok_0;
    lemma_records(rows, rows.len() as int);
    assert forall|i: int| 0 <= i < list.len() implies text_field(
        #[trigger] list[i],
        "key"@,
    ) is Some by {
        assert(record(Shape::Rule, rows[i]) is Ok);
        lemma_record_key(rows[i]);
    }
    lemma_keys(list, list.len() as int);
    assert forall|i: int| 0 <= i < rows.len() implies column(#[trigger] rows[i], "rule_key"@)
        == Some(CellV::Text(record_keys(list)[i])) && text_or_empty(list[i], "key"@) == record_keys(
        list,
    )[i] by {
        assert(record(Shape::Rule, rows[i]) is Ok);
        lemma_record_key(rows[i]);
    }
}

/// The rules under some keys can be read where all rules can, and are there where the keys are.
proof fn lemma_keyed(all: Seq<RowV>, rows: Seq<RowV>, keys: Seq<Seq<char>>)
    requires
        rules_in(all) is Ok,
        forall|row: RowV| #[trigger] rows.contains(row) <==> all.contains(row) && keyed(row, keys),
        forall|k: int|
            0 <= k < keys.len() ==> record_keys(rules_in(all)->Ok_0).contains(#[trigger] keys[k]),
    ensures
        rules_in(rows) is Ok,
        forall|k: int|
            0 <= k < keys.len() ==> record_keys(rules_in(rows)->Ok_0).contains(#[trigger] keys[k]),
{
    lemma_records(all, all.len() as int);
    lemma_rule_keys(all);
    assert forall|i: int| 0 <= i < rows.len() implies record(Shape::Rule, #[trigger] rows[i])
        is Ok by {
        assert(rows.contains(rows[i]));
        let j = all.index_of(rows[i]);
        assert(record(Shape::Rule, all[j]) is Ok);
    }
    lemma_records(rows, rows.len() as int);
    lemma_rule_keys(rows);
    let known = record_keys(rules_in(all)->Ok_0);
    let found = record_keys(rules_in(rows)->Ok_0);
    assert forall|k: int| 0 <= k < keys.len() implies found.contains(#[trigger] keys[k]) by {
        let i = known.index_of(keys[k]);
        assert(column(all[i], "rule_key"@) == Some(CellV::Text(keys[k])));
        assert(all.contains(all[i]));
        assert(keyed(all[i], keys));
        assert(rows.contains(all[i]));
        let j = rows.index_of(all[i]);
        assert(column(rows[j], "rule_key"@) == Some(CellV::Text(found[j])));
    }
}

// ---- a selection ----

/// Whether every selected key is that of a stored rule.
pub open spec fn selects_rules(t: Tables, s: SelectionV) -> bool {
    forall|k: int|
        0 <= k < s.keys.len() ==> stored_keys(t, s.project_id).contains(#[trigger] s.keys[k])
}

/// The keys of the stored rules of a project.
pub open spec fn stored_keys(t: Tables, project_id: Seq<char>) -> Seq<Seq<char>> {
    match source_of(t, project_id) {
        Some(source) => source.rules.map_values(|r: RuleV| r.key),
        None => Seq::empty(),
    }
}

/// Whether a value carries one rule for each key, in the order of the keys.
pub open spec fn brings(value: JsonV, keys: Seq<Seq<char>>) -> bool {
    &&& field(value, "rules"@) matches Some(JsonV::Array(rules))
    &&& rules.len() == keys.len()
    &&& forall|k: int|
        0 <= k < keys.len() ==> text_field(#[trigger] rules[k], "key"@) == Some(keys[k])
}

/// What a selection is answered where `revision` is stored: with another revision it is refused,
/// and told which one it had; with an unknown key it is refused as a whole; otherwise it brings one
/// rule for each key, in order.
pub open spec fn selection_answer(
    t: Tables,
    s: SelectionV,
    revision: Seq<char>,
    result: Result<JsonV, ServiceErrorV>,
) -> bool {
    let refusal = revision_error(s, revision);
    let missing = missing_keys(s.keys, stored_keys(t, s.project_id));
    if s.knowledge_revision != revision {
        &&& result == Err::<JsonV, ServiceErrorV>(ServiceErrorV::Kb(refusal))
        &&& field(refusal.details, "requested_revision"@) == Some(
            JsonV::Text(s.knowledge_revision),
        )
    } else if selects_rules(t, s) {
        result matches Ok(value) && brings(value, s.keys)
    } else {
        result == Err::<JsonV, ServiceErrorV>(
            ServiceErrorV::Kb(unknown_keys_error(missing, stored_keys(t, s.project_id))),
        )
    }
}

/// Whether a request got the kind of reply that it asked for.
pub open spec fn answers(request: RequestV, reply: ReplyV) -> bool {
    match request {
        RequestV::Query(..) => reply is Rows,
        RequestV::BeginRead => reply is Done,
        _ => true,
    }
}

/// Whether every request of an operation got the kind of reply that it asked for.
pub open spec fn all_answered(
    db: Seq<char>,
    first: ServiceStepV,
    replies: Seq<(ReplyV, Seq<char>)>,
) -> bool
    decreases replies.len(),
{
    replies.len() > 0 ==> {
        &&& all_answered(db, first, replies.drop_last())
        &&& service_after(db, first, replies.drop_last()) matches StepV::Ask(request, _) ==> answers(
            request,
            replies.last().0,
        )
    }
}

/// What holds of a selection that goes on.
#[verifier::opaque]
spec fn on_selection(
    t: Tables,
    s: SelectionV,
    revision: Seq<char>,
    request: RequestV,
    stage: StageV,
) -> bool {
    let id = s.project_id;
    match stage {
        StageV::Snapshot(x) => x == s && request == RequestV::BeginRead,
        StageV::SelectProject(x) => x == s && request == RequestV::Query(
            Handle::Main,
            project_query(id),
        ),
        StageV::SelectAvailable(x) => {
            &&& x == s && s.knowledge_revision == revision
            &&& request == RequestV::Query(Handle::Main, rules_query(id))
        },
        StageV::SelectRules(x) => {
            &&& x == s && s.knowledge_revision == revision && selects_rules(t, s)
            &&& request == RequestV::Query(Handle::Main, keyed_rules_query(id, s.keys))
        },
        StageV::SelectOverrides(x, rules) => {
            &&& x == s && s.knowledge_revision == revision && selects_rules(t, s)
            &&& request == RequestV::Query(Handle::Main, overrides_query(id, counting()))
            &&& exists|found: Seq<JsonV>|
                {
                    &&& rules == #[trigger] picked(found, s.keys)
                    &&& forall|k: int|
                        0 <= k < s.keys.len() ==> record_keys(found).contains(#[trigger] s.keys[k])
                }
        },
        _ => false,
    }
}

proof fn lemma_stored_keys(t: Tables, id: Seq<char>)
    requires
        current(t, id),
    ensures
        rules_in(rule_rows(t, id)) is Ok,
        stored_keys(t, id) == record_keys(rules_in(rule_rows(t, id))->Ok_0),
{
    let list = rules_in(rule_rows(t, id))->Ok_0;
    lemma_rule_keys(rule_rows(t, id));
    let rules = source_of(t, id)->0.rules;
    assert(rules == stored_rules(list));
    assert(stored_keys(t, id) =~= record_keys(list)) by {
        assert forall|i: int| 0 <= i < list.len() implies #[trigger] stored_keys(t, id)[i]
            == record_keys(list)[i] by {
            assert(rule_rows(t, id)[i] == rule_rows(t, id)[i]);
            assert(rules[i].key == text_or_empty(list[i], "key"@));
        }
    }
}

proof fn lemma_answer_fields(s: SelectionV, revision: Seq<char>, brought: Seq<JsonV>)
    ensures
        field(revision_error(s, revision).details, "requested_revision"@) == Some(
            JsonV::Text(s.knowledge_revision),
        ),
        field(
            and_detail(
                and_detail(
                    detail("project_id"@, JsonV::Text(s.project_id)),
                    "knowledge_revision"@,
                    JsonV::Text(s.knowledge_revision),
                ),
                "rules"@,
                JsonV::Array(brought),
            ),
            "rules"@,
        ) == Some(JsonV::Array(brought)),
{
    reveal_strlit("requested_revision");
    reveal_strlit("current_revision");
    assert("requested_revision"@.len() == 18 && "current_revision"@.len() == 16);
    let a = detail("project_id"@, JsonV::Text(s.project_id));
    let b = and_detail(a, "requested_revision"@, JsonV::Text(s.knowledge_revision));
    let c = and_detail(a, "knowledge_revision"@, JsonV::Text(s.knowledge_revision));
    lemma_detail("project_id"@, JsonV::Text(s.project_id));
    lemma_and_detail(a, "requested_revision"@, JsonV::Text(s.knowledge_revision));
    lemma_and_detail(b, "current_revision"@, JsonV::Text(revision));
    lemma_and_detail(a, "knowledge_revision"@, JsonV::Text(s.knowledge_revision));
    lemma_and_detail(c, "rules"@, JsonV::Array(brought));
}

/// A step of a selection.
proof fn lemma_selection_step(
    t: Tables,
    u: Tables,
    s: SelectionV,
    revision: Seq<char>,
    request: RequestV,
    stage: StageV,
    db: Seq<char>,
    reply: ReplyV,
    now: Seq<char>,
)
    requires
        current(t, s.project_id),
        revision_in(t, s.project_id) == Some(revision),
        on_selection(t, s, revision, request, stage),
        serves(t, request, reply, u),
        answers(request, reply),
    ensures
        u == t,
        selection_goes_on(t, s, revision, next(db, stage, reply, now)),
{
    reveal(on_selection);
    reveal(selection_goes_on);
    let id = s.project_id;
    lemma_stored_keys(t, id);
    a_selection_is_all_or_nothing(s.keys, stored_keys(t, id));
    let all = rule_rows(t, id);
    match stage {
        StageV::SelectProject(_) => {
            let rows = reply->Rows_0;
            assert(rows == project_shown(t, id));
            lemma_answer_fields(s, revision, Seq::empty());
        },
        StageV::SelectAvailable(_) => {
            let rows = reply->Rows_0;
            assert(rows == all);
        },
        StageV::SelectRules(_) => {
            let rows = reply->Rows_0;
            assert forall|row: RowV| #[trigger]
                rows.contains(row) <==> all.contains(row) && keyed(row, s.keys) by {
                assert(request->Query_1 == keyed_rules_query(id, s.keys));
            }
            lemma_keyed(all, rows, s.keys);
            let found = rules_in(rows)->Ok_0;
            assert(picked(found, s.keys) == picked(found, s.keys));
        },
        StageV::SelectOverrides(_, rules) => {
            let rows = reply->Rows_0;
            assert(rows == counting_rows(t, id));
            let overrides = overrides_in(rows)->Ok_0;
            let found = choose|found: Seq<JsonV>|
                {
                    &&& rules == #[trigger] picked(found, s.keys)
                    &&& forall|k: int|
                        0 <= k < s.keys.len() ==> record_keys(found).contains(#[trigger] s.keys[k])
                };
            selected_rules_come_in_order(found, s.keys, overrides);
            lemma_answer_fields(s, revision, effective_records(rules, overrides));
        },
        _ => {},
    }
}

/// A selection from a project that is current is answered by its revision and its keys, and leaves
/// the tables as they are.
pub proof fn a_selection_is_answered(
    payload: JsonV,
    s: SelectionV,
    revision: Seq<char>,
    l: LocationV,
    home: Option<Seq<char>>,
    cwd: Seq<char>,
    db: Seq<char>,
    replies: Seq<(ReplyV, Seq<char>)>,
    tables: Seq<Tables>,
)
    requires
        validated_selection(payload) == Ok::<SelectionV, SelectionErrorV>(s),
        current(tables[0], s.project_id),
        revision_in(tables[0], s.project_id) == Some(revision),
        service_ran(
            db,
            operation_start(OperationV::Selection { payload }, l, home, cwd),
            replies,
            tables,
        ),
        all_answered(
            db,
            operation_start(OperationV::Selection { payload }, l, home, cwd),
            replies,
        ),
    ensures
        tables.last() == tables[0],
        service_after(
            db,
            operation_start(OperationV::Selection { payload }, l, home, cwd),
            replies,
        ) matches StepV::Done(result) ==> selection_answer(tables[0], s, revision, result),
{
    let first = operation_start(OperationV::Selection { payload }, l, home, cwd);
    reveal(selection_goes_on);
    assert(on_selection(tables[0], s, revision, first->Ask_0, first->Ask_1)) by {
        reveal(on_selection);
    }
    lemma_selection_ran(s, revision, first, db, replies, tables);
}

/// What holds of the next step of a selection.
#[verifier::opaque]
spec fn selection_goes_on(
    t: Tables,
    s: SelectionV,
    revision: Seq<char>,
    step: ServiceStepV,
) -> bool {
    match step {
        StepV::Ask(request, stage) => on_selection(t, s, revision, request, stage),
        StepV::Done(result) => selection_answer(t, s, revision, result),
    }
}

/// A run of a selection.
proof fn lemma_selection_ran(
    s: SelectionV,
    revision: Seq<char>,
    first: ServiceStepV,
    db: Seq<char>,
    replies: Seq<(ReplyV, Seq<char>)>,
    tables: Seq<Tables>,
)
    requires
        selection_goes_on(tables[0], s, revision, first),
        current(tables[0], s.project_id),
        revision_in(tables[0], s.project_id) == Some(revision),
        service_ran(db, first, replies, tables),
        all_answered(db, first, replies),
    ensures
        tables.last() == tables[0],
        selection_goes_on(tables[0], s, revision, service_after(db, first, replies)),
    decreases replies.len(),
{
    if replies.len() > 0 {
        let front = replies.drop_last();
        lemma_selection_ran(s, revision, first, db, front, tables.drop_last());
        if let StepV::Ask(request, stage) = service_after(db, first, front) {
            assert(on_selection(tables[0], s, revision, request, stage)) by {
                reveal(selection_goes_on);
            }
            lemma_selection_step(
                tables[0],
                tables.last(),
                s,
                revision,
                request,
                stage,
                db,
                replies.last().0,
                replies.last().1,
            );
        }
    }
}

/// The revision that a `prepare` returns is the one with which a selection from the project is
/// accepted: a selection made with it brings one rule for each key where every key is that of a
/// rule, one made with any other revision is refused.
pub proof fn a_prepared_revision_is_accepted(
    project_id: Seq<char>,
    project_name: Seq<char>,
    checklist: Seq<char>,
    force: bool,
    l: LocationV,
    home: Option<Seq<char>>,
    cwd: Seq<char>,
    db: Seq<char>,
    preparing: Seq<(ReplyV, Seq<char>)>,
    tables: Seq<Tables>,
    payload: JsonV,
    s: SelectionV,
    selecting: Seq<(ReplyV, Seq<char>)>,
    later: Seq<Tables>,
)
    requires
        reads_back(),
        sound(tables[0]),
        files_fit(tables[0], project_id, preparing),
        ({
            let op = OperationV::Prepare { project_id, project_name, checklist, force };
            let first = operation_start(op, l, home, cwd);
            &&& service_ran(db, first, preparing, tables)
            &&& service_after(db, first, preparing) matches StepV::Done(Ok(_))
        }),
        validated_selection(payload) == Ok::<SelectionV, SelectionErrorV>(s),
        s.project_id == project_id,
        later[0] == tables.last(),
        ({
            let first = operation_start(OperationV::Selection { payload }, l, home, cwd);
            &&& service_ran(db, first, selecting, later)
            &&& all_answered(db, first, selecting)
            &&& service_after(db, first, selecting) is Done
        }),
    ensures
        ({
            let op = OperationV::Prepare { project_id, project_name, checklist, force };
            let prepared = service_after(
                db,
                operation_start(op, l, home, cwd),
                preparing,
            )->Done_0->Ok_0;
            let result = service_after(
                db,
                operation_start(OperationV::Selection { payload }, l, home, cwd),
                selecting,
            )->Done_0;
            &&& reported_revision(prepared) matches Some(revision) && selection_answer(
                later[0],
                s,
                revision,
                result,
            )
            &&& later.last() == tables.last()
        }),
{
    let op = OperationV::Prepare { project_id, project_name, checklist, force };
    a_completed_operation_leaves_revisions_current(op, l, home, cwd, db, preparing, tables);
    let revision = revision_in(tables.last(), project_id)->0;
    a_selection_is_answered(payload, s, revision, l, home, cwd, db, selecting, later);
}

} // verus!
