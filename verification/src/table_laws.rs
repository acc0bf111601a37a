//! What holds of the tables after whole operations.

use vstd::prelude::*;

use crate::description::{
    carried_revision, description_carries_revision, description_value, revision_of, summary_value,
};
use crate::errors::{and_detail, detail};
use crate::json::{field, text_field, texts, JsonV};
use crate::json_laws::{lemma_and_detail, lemma_detail, lemma_sorted_field};
use crate::json_util::{canonical, lemma_sorted, sorted};
use crate::models::{ChecklistV, RuleV};
use crate::overrides::{effective_checklist, text_or_empty};
use crate::protocol::{CellV, RequestV, RowV, StatementV, StepV};
use crate::repository::{
    audit_insert, description_update, description_writes, history_insert, known_text,
    metadata_update, override_disable, override_upsert, project_upsert, replacement, rule_insert,
    rules_delete,
};
use crate::rows::{column, hold_rules, holds_rule, row_object};
use crate::service::{
    bindings, end, metadata_changed, prepare_decide, prepare_replace, prepare_value, renew_value,
    reuse_warnings, reuse_writes, revision_stored, source_changed, OverrideJobV, PrepareJobV,
    RefreshV, RenewJobV, ServiceErrorV, StageV,
};
use crate::storage_laws::{
    a_row_shows_its_columns, a_written_rule_is_held, distinct_columns, has_cells,
    written_override_columns, written_project_columns, written_rule_columns,
};
use crate::tables::{
    after, after_all, described, disabled, lemma_after_both, lemma_column_names, lemma_effects,
    lemma_row_of, lemma_with_cell, of_project, of_rule, override_at, project_at, project_row,
    project_written, relabelled, row_of, rows_of_project, with_cell, Tables,
};

verus! {

pub proof fn lemma_project_at(rows: Seq<RowV>, id: CellV)
    ensures
        0 <= project_at(rows, id) <= rows.len(),
        project_at(rows, id) < rows.len() ==> of_project(rows[project_at(rows, id)], id),
        forall|i: int| 0 <= i < project_at(rows, id) ==> !of_project(#[trigger] rows[i], id),
    decreases rows.len(),
{
    if rows.len() > 0 && !of_project(rows[0], id) {
        let rest = rows.drop_first();
        lemma_project_at(rest, id);
        assert forall|i: int| 0 <= i < project_at(rows, id) implies !of_project(
            #[trigger] rows[i],
            id,
        ) by {
            if i > 0 {
                assert(rest[i - 1] == rows[i]);
            }
        }
    }
}

proof fn lemma_project_at_is(rows: Seq<RowV>, id: CellV, at: int)
    requires
        0 <= at <= rows.len(),
        at < rows.len() ==> of_project(rows[at], id),
        forall|i: int| 0 <= i < at ==> !of_project(#[trigger] rows[i], id),
    ensures
        project_at(rows, id) == at,
{
    lemma_project_at(rows, id);
    let p = project_at(rows, id);
    if p < at {
        assert(!of_project(rows[p], id));
    }
}

/// Writing a project row leaves one row of that project, and those of others as they are.
pub proof fn lemma_names_kept(row: RowV, name: Seq<char>, cell: CellV)
    requires
        distinct_columns(row),
    ensures
        distinct_columns(with_cell(row, name, cell)),
{
    let after = with_cell(row, name, cell);
    assert forall|i: int, j: int| 0 <= i < j < after.len() implies (#[trigger] after[i]).0 != (
    #[trigger] after[j]).0 by {
        assert(row[i].0 != row[j].0);
    }
}

pub proof fn lemma_project_written(rows: Seq<RowV>, row: RowV, id: CellV, other: CellV)
    requires
        of_project(row, id),
    ensures
        ({
            let after = project_written(rows, row, id);
            &&& project_row(after, id) == Some(
                match project_row(rows, id) {
                    Some(old_row) => match column(old_row, "created_at"@) {
                        Some(c) => with_cell(row, "created_at"@, c),
                        None => row,
                    },
                    None => row,
                },
            )
            &&& other != id ==> project_row(after, other) == project_row(rows, other)
        }),
{
    let after = project_written(rows, row, id);
    let at = project_at(rows, id);
    lemma_project_at(rows, id);
    lemma_project_at(rows, other);
    reveal_strlit("project_id");
    reveal_strlit("created_at");
    assert("project_id"@[0] == 'p' && "created_at"@[0] == 'c');
    if at < rows.len() {
        if let Some(c) = column(rows[at], "created_at"@) {
            lemma_with_cell(row, "created_at"@, c, "project_id"@);
        }
        lemma_project_at_is(after, id, at);
    } else {
        lemma_project_at_is(after, id, at);
    }
    if other != id {
        let b = project_at(rows, other);
        if b < rows.len() {
            assert(b != at);
            assert(after[b] == rows[b]);
            assert forall|i: int| 0 <= i < b implies !of_project(#[trigger] after[i], other) by {
                if i != at {
                    assert(after[i] == rows[i]);
                }
            }
            lemma_project_at_is(after, other, b);
        } else {
            assert forall|i: int| 0 <= i < after.len() implies !of_project(
                #[trigger] after[i],
                other,
            ) by {
                if i < rows.len() && i != at {
                    assert(after[i] == rows[i]);
                }
            }
            lemma_project_at_is(after, other, after.len() as int);
        }
    }
}

/// The row that a rule is written as.
pub open spec fn rule_row(project_id: Seq<char>, rule: RuleV, ordinal: int) -> RowV {
    row_of(written_rule_columns(), rule_insert(project_id, rule, ordinal).params)
}

proof fn lemma_rule_row(project_id: Seq<char>, rule: RuleV, ordinal: int)
    requires
        0 <= ordinal <= i64::MAX,
    ensures
        holds_rule(rule_row(project_id, rule, ordinal), rule, ordinal),
        of_project(rule_row(project_id, rule, ordinal), CellV::Text(project_id)),
{
    let params = rule_insert(project_id, rule, ordinal).params;
    let columns = written_rule_columns();
    lemma_column_names();
    lemma_row_of(columns, params);
    a_written_rule_is_held(project_id, rule, ordinal, row_of(columns, params));
    assert(columns[0] == "project_id"@);
}

proof fn lemma_inserts(t: Tables, project_id: Seq<char>, rules: Seq<RuleV>, n: nat)
    requires
        n <= rules.len(),
    ensures
        after_all(t, Seq::new(n, |i: int| rule_insert(project_id, rules[i], i))) == (Tables {
            rules: t.rules + Seq::new(n, |i: int| rule_row(project_id, rules[i], i)),
            ..t
        }),
    decreases n,
{
    let list = Seq::new(n, |i: int| rule_insert(project_id, rules[i], i));
    if n == 0 {
        assert(t.rules + Seq::new(0, |i: int| rule_row(project_id, rules[i], i)) =~= t.rules);
    } else {
        let m = (n - 1) as nat;
        lemma_inserts(t, project_id, rules, m);
        lemma_effects();
        assert(list.drop_last() =~= Seq::new(m, |i: int| rule_insert(project_id, rules[i], i)));
        assert((t.rules + Seq::new(m, |i: int| rule_row(project_id, rules[i], i))).push(
            rule_row(project_id, rules[n - 1], n - 1),
        ) =~= t.rules + Seq::new(n, |i: int| rule_row(project_id, rules[i], i)));
    }
}

proof fn lemma_filter_all(rows: Seq<RowV>, p: spec_fn(RowV) -> bool)
    requires
        forall|i: int| 0 <= i < rows.len() ==> p(#[trigger] rows[i]),
    ensures
        rows.filter(p) == rows,
    decreases rows.len(),
{
    reveal(Seq::filter);
    if rows.len() > 0 {
        let front = rows.drop_last();
        assert forall|i: int| 0 <= i < front.len() implies p(#[trigger] front[i]) by {
            assert(p(rows[i]));
        }
        lemma_filter_all(front, p);
        assert(p(rows[rows.len() - 1]));
        assert(front.push(rows.last()) =~= rows);
    }
}

proof fn lemma_filter_none(rows: Seq<RowV>, p: spec_fn(RowV) -> bool)
    requires
        forall|i: int| 0 <= i < rows.len() ==> !p(#[trigger] rows[i]),
    ensures
        rows.filter(p).len() == 0,
    decreases rows.len(),
{
    reveal(Seq::filter);
    if rows.len() > 0 {
        let front = rows.drop_last();
        assert forall|i: int| 0 <= i < front.len() implies !p(#[trigger] front[i]) by {
            assert(!p(rows[i]));
        }
        lemma_filter_none(front, p);
        assert(!p(rows[rows.len() - 1]));
    }
}

/// Clearing the rules of one project leaves none of them and all others.
pub proof fn lemma_cleared(rows: Seq<RowV>, id: CellV, other: CellV)
    ensures
        rows_of_project(rows.filter(|r: RowV| !of_project(r, id)), other) == (if other == id {
            Seq::empty()
        } else {
            rows_of_project(rows, other)
        }),
    decreases rows.len(),
{
    reveal(Seq::filter);
    let p = |r: RowV| !of_project(r, id);
    let q = |r: RowV| of_project(r, other);
    if rows.len() > 0 {
        let front = rows.drop_last();
        let last = rows.last();
        lemma_cleared(front, id, other);
        if p(last) {
            assert(rows.filter(p).drop_last() =~= front.filter(p));
            assert(rows.filter(p).last() == last);
        }
    } else {
        assert(rows.filter(p).filter(q) =~= Seq::empty());
        assert(rows.filter(q) =~= Seq::empty());
    }
}

/// A full refresh leaves, of the project, exactly the rules of the checklist, in order, each with
/// its ordinal and all its fields; a project row with what was given, whose time of creation stays
/// where there was one; and one more row of the history. Everything of other projects stays.
pub proof fn a_refresh_is_read_back(
    t: Tables,
    current: Option<JsonV>,
    project_id: Seq<char>,
    project_name: Seq<char>,
    checklist_path: Seq<char>,
    checklist: ChecklistV,
    revision: Seq<char>,
    description: JsonV,
    action: Seq<char>,
    warnings: Seq<Seq<char>>,
    now: Seq<char>,
    other: Seq<char>,
)
    requires
        checklist.rules.len() <= i64::MAX,
    ensures
        ({
            let u = after_all(
                t,
                replacement(
                    current,
                    project_id,
                    project_name,
                    checklist_path,
                    checklist,
                    revision,
                    description,
                    action,
                    warnings,
                    now,
                ),
            );
            let id = CellV::Text(project_id);
            let rows = rows_of_project(u.rules, id);
            let created = match project_row(t.projects, id) {
                Some(old_row) => match column(old_row, "created_at"@) {
                    Some(c) => c,
                    None => CellV::Text(now),
                },
                None => CellV::Text(now),
            };
            &&& hold_rules(rows, checklist.rules)
            &&& project_row(u.projects, id) matches Some(row) && distinct_columns(row)
                && has_cells(
                row,
                written_project_columns(),
                project_upsert(
                    project_id,
                    project_name,
                    checklist_path,
                    checklist,
                    revision,
                    description,
                    now,
                ).params.update(8, created),
            )
            &&& u.history.len() == t.history.len() + 1 && u.history.drop_last() == t.history
            &&& u.overrides == t.overrides
            &&& other != project_id ==> rows_of_project(u.rules, CellV::Text(other))
                == rows_of_project(t.rules, CellV::Text(other)) && project_row(
                u.projects,
                CellV::Text(other),
            ) == project_row(t.projects, CellV::Text(other))
        }),
{
    let id = CellV::Text(project_id);
    let upsert = project_upsert(
        project_id,
        project_name,
        checklist_path,
        checklist,
        revision,
        description,
        now,
    );
    let head = seq![upsert, rules_delete(project_id)];
    let n = checklist.rules.len();
    let inserts = Seq::new(n, |i: int| rule_insert(project_id, checklist.rules[i], i));
    let entry = history_insert(
        project_id,
        action,
        known_text(current, "checklist_version"@),
        checklist.checklist_version,
        known_text(current, "content_hash"@),
        checklist.content_hash,
        warnings,
        now,
    );
    let list = head + inserts + seq![entry];
    lemma_effects();
    lemma_after_both(t, head + inserts, seq![entry]);
    lemma_after_both(t, head, inserts);
    let t0 = after(t, upsert);
    let t1 = after(t0, rules_delete(project_id));
    assert(head.drop_last() =~= seq![upsert]);
    assert(head.drop_last().drop_last() =~= Seq::empty());
    assert(after_all(t, Seq::empty()) == t);
    assert(after_all(t, head.drop_last()) == t0);
    assert(after_all(t, head) == t1);
    lemma_inserts(t1, project_id, checklist.rules, n);
    let t2 = after_all(t1, inserts);
    assert(seq![entry].drop_last() =~= Seq::empty());
    assert(after_all(t2, Seq::empty()) == t2);
    let u = after(t2, entry);
    assert(after_all(t2, seq![entry]) == u);
    assert(u.history.drop_last() =~= t.history);

    let added = Seq::new(n, |i: int| rule_row(project_id, checklist.rules[i], i));
    assert forall|i: int| 0 <= i < n implies holds_rule(
        #[trigger] added[i],
        checklist.rules[i],
        i,
    ) && of_project(added[i], id) by {
        lemma_rule_row(project_id, checklist.rules[i], i);
    }
    let mine = |r: RowV| of_project(r, id);
    Seq::filter_distributes_over_add(t1.rules, added, mine);
    lemma_cleared(t.rules, id, id);
    lemma_filter_all(added, mine);
    assert(rows_of_project(u.rules, id) =~= added);
    if other != project_id {
        let oid = CellV::Text(other);
        let theirs = |r: RowV| of_project(r, oid);
        Seq::filter_distributes_over_add(t1.rules, added, theirs);
        lemma_cleared(t.rules, id, oid);
        assert forall|i: int| 0 <= i < added.len() implies !theirs(#[trigger] added[i]) by {
            assert(of_project(added[i], id));
        }
        lemma_filter_none(added, theirs);
        assert(rows_of_project(u.rules, oid) =~= rows_of_project(t.rules, oid));
    }

    let columns = written_project_columns();
    let row = row_of(columns, upsert.params);
    lemma_column_names();
    lemma_row_of(columns, upsert.params);
    assert(columns[0] == "project_id"@ && columns[8] == "created_at"@);
    lemma_project_written(t.projects, row, id, CellV::Text(other));
    let created = match project_row(t.projects, id) {
        Some(old_row) => match column(old_row, "created_at"@) {
            Some(c) => c,
            None => CellV::Text(now),
        },
        None => CellV::Text(now),
    };
    let cells = upsert.params.update(8, created);
    let stored = project_row(u.projects, id)->0;
    lemma_names_kept(row, "created_at"@, created);
    assert forall|i: int| 0 <= i < columns.len() implies column(stored, #[trigger] columns[i])
        == Some(cells[i]) by {
        assert(column(row, columns[i]) == Some(upsert.params[i]));
        lemma_with_cell(row, "created_at"@, created, columns[i]);
        assert(i != 8 ==> columns[i] != columns[8]);
    }
}

// ---- one revision ----

/// Renewing project rows keeps where the row of each project stands.
pub proof fn lemma_renewed(rows: Seq<RowV>, f: spec_fn(RowV) -> RowV, id: CellV)
    requires
        forall|r: RowV| column(#[trigger] f(r), "project_id"@) == column(r, "project_id"@),
    ensures
        project_row(rows.map_values(f), id) == (match project_row(rows, id) {
            Some(r) => Some(f(r)),
            None => None,
        }),
{
    let after = rows.map_values(f);
    lemma_project_at(rows, id);
    let at = project_at(rows, id);
    assert forall|i: int| 0 <= i < at implies !of_project(#[trigger] after[i], id) by {
        assert(after[i] == f(rows[i]));
        assert(!of_project(rows[i], id));
    }
    if at < rows.len() {
        assert(after[at] == f(rows[at]));
    }
    lemma_project_at_is(after, id, at);
}

/// What the columns of a project row hold after its description was renewed.
pub proof fn lemma_renewals_keep_names(row: RowV, described_as: Seq<CellV>, relabelled_as: Seq<CellV>)
    requires
        distinct_columns(row),
    ensures
        distinct_columns(described(row, described_as)),
        distinct_columns(relabelled(row, relabelled_as)),
{
    let a = with_cell(row, "knowledge_revision"@, described_as[0]);
    let b = with_cell(a, "description_json"@, described_as[1]);
    lemma_names_kept(row, "knowledge_revision"@, described_as[0]);
    lemma_names_kept(a, "description_json"@, described_as[1]);
    lemma_names_kept(b, "updated_at"@, described_as[2]);
    let c = with_cell(row, "project_name"@, relabelled_as[0]);
    let d = with_cell(c, "checklist_path"@, relabelled_as[1]);
    let e = with_cell(d, "description_json"@, relabelled_as[2]);
    lemma_names_kept(row, "project_name"@, relabelled_as[0]);
    lemma_names_kept(c, "checklist_path"@, relabelled_as[1]);
    lemma_names_kept(d, "description_json"@, relabelled_as[2]);
    lemma_names_kept(e, "updated_at"@, relabelled_as[3]);
}

pub proof fn lemma_described(row: RowV, params: Seq<CellV>, name: Seq<char>)
    ensures
        column(described(row, params), name) == (if of_project(row, params[3]) && column(row, name) is Some {
            if name == "updated_at"@ {
                Some(params[2])
            } else if name == "description_json"@ {
                Some(params[1])
            } else if name == "knowledge_revision"@ {
                Some(params[0])
            } else {
                column(row, name)
            }
        } else {
            column(row, name)
        }),
{
    let a = with_cell(row, "knowledge_revision"@, params[0]);
    let b = with_cell(a, "description_json"@, params[1]);
    lemma_with_cell(row, "knowledge_revision"@, params[0], name);
    lemma_with_cell(a, "description_json"@, params[1], name);
    lemma_with_cell(b, "updated_at"@, params[2], name);
    lemma_renewal_names();
}

pub proof fn lemma_relabelled(row: RowV, params: Seq<CellV>, name: Seq<char>)
    requires
        name != "project_name"@,
        name != "checklist_path"@,
        name != "description_json"@,
        name != "updated_at"@,
    ensures
        column(relabelled(row, params), name) == column(row, name),
{
    let a = with_cell(row, "project_name"@, params[0]);
    let b = with_cell(a, "checklist_path"@, params[1]);
    let c = with_cell(b, "description_json"@, params[2]);
    lemma_with_cell(row, "project_name"@, params[0], name);
    lemma_with_cell(a, "checklist_path"@, params[1], name);
    lemma_with_cell(b, "description_json"@, params[2], name);
    lemma_with_cell(c, "updated_at"@, params[3], name);
}

pub proof fn lemma_renewal_names()
    ensures
        "knowledge_revision"@.len() == 18,
        "description_json"@.len() == 16,
        "updated_at"@.len() == 10 && "updated_at"@[0] == 'u',
        "project_id"@.len() == 10 && "project_id"@[0] == 'p',
        "project_name"@.len() == 12 && "project_name"@[0] == 'p',
        "checklist_path"@.len() == 14 && "checklist_path"@[0] == 'c',
        "schema_version"@.len() == 14 && "schema_version"@[0] == 's',
        "checklist_version"@.len() == 17,
        "content_hash"@.len() == 12 && "content_hash"@[0] == 'c',
{
    reveal_strlit("knowledge_revision");
    reveal_strlit("description_json");
    reveal_strlit("updated_at");
    reveal_strlit("project_id");
    reveal_strlit("project_name");
    reveal_strlit("checklist_path");
    reveal_strlit("schema_version");
    reveal_strlit("checklist_version");
    reveal_strlit("content_hash");
}

/// The revision that is stored for a project.
pub open spec fn stored_revision(t: Tables, project_id: Seq<char>) -> Option<CellV> {
    match project_row(t.projects, CellV::Text(project_id)) {
        Some(row) => column(row, "knowledge_revision"@),
        None => None,
    }
}

/// The tables after the description of a project was renewed.
pub proof fn lemma_description_written(
    t: Tables,
    project_id: Seq<char>,
    revision: Seq<char>,
    description: JsonV,
    now: Seq<char>,
)
    ensures
        ({
            let u = after_all(t, description_writes(project_id, revision, description, now));
            let id = CellV::Text(project_id);
            let params = description_update(project_id, revision, description, now).params;
            &&& u.rules == t.rules && u.overrides == t.overrides && u.history == t.history
            &&& u.projects == t.projects.map_values(|r: RowV| described(r, params))
            &&& project_row(u.projects, id) == (match project_row(t.projects, id) {
                Some(r) => Some(described(r, params)),
                None => None,
            })
            &&& params[3] == id && params[0] == CellV::Text(revision) && params[1] == CellV::Text(
                canonical(description),
            )
        }),
{
    let update = description_update(project_id, revision, description, now);
    let list = description_writes(project_id, revision, description, now);
    lemma_effects();
    assert(list.drop_last() =~= seq![update]);
    assert(seq![update].drop_last() =~= Seq::empty());
    assert(after_all(t, Seq::empty()) == t);
    assert(after_all(t, seq![update]) == after(t, update));
    assert(after_all(t, list) == after(after(t, update), list.last()));
    let f = |r: RowV| described(r, update.params);
    lemma_renewal_names();
    assert forall|r: RowV| column(#[trigger] f(r), "project_id"@) == column(r, "project_id"@) by {
        lemma_described(r, update.params, "project_id"@);
    }
    lemma_renewed(t.projects, f, CellV::Text(project_id));
}

/// The revision in what a `prepare` returns.
pub open spec fn returned_revision(value: JsonV) -> Option<Seq<char>> {
    match field(value, "selection_context"@) {
        Some(c) => text_field(c, "knowledge_revision"@),
        None => None,
    }
}

pub proof fn lemma_returned(
    job: PrepareJobV,
    checklist: ChecklistV,
    description: JsonV,
    status: Seq<char>,
    warnings: Seq<Seq<char>>,
)
    requires
        carried_revision(description) is Some,
    ensures
        returned_revision(prepare_value(job, checklist, description, status, warnings))
            == carried_revision(description),
{
    let revision = carried_revision(description)->0;
    reveal_strlit("description");
    reveal_strlit("selection_context");
    reveal_strlit("knowledge_status");
    reveal_strlit("checklist_version");
    reveal_strlit("content_hash");
    reveal_strlit("rule_count");
    reveal_strlit("warnings");
    reveal_strlit("override_resolution");
    reveal_strlit("project_id");
    reveal_strlit("knowledge_revision");
    assert("selection_context"@.len() == 17 && "selection_context"@[0] == 's');
    assert("checklist_version"@.len() == 17 && "checklist_version"@[0] == 'c');
    assert("description"@.len() == 11 && "knowledge_status"@.len() == 16 && "content_hash"@.len()
        == 12 && "rule_count"@.len() == 10 && "warnings"@.len() == 8 && "override_resolution"@.len()
        == 19);
    let p = detail("project_id"@, JsonV::Text(job.project_id));
    lemma_detail("project_id"@, JsonV::Text(job.project_id));
    let context = and_detail(p, "knowledge_revision"@, JsonV::Text(revision));
    lemma_and_detail(p, "knowledge_revision"@, JsonV::Text(revision));
    let a = detail("description"@, description);
    lemma_detail("description"@, description);
    let b = and_detail(a, "selection_context"@, context);
    lemma_and_detail(a, "selection_context"@, context);
    let c = and_detail(b, "knowledge_status"@, JsonV::Text(status));
    lemma_and_detail(b, "knowledge_status"@, JsonV::Text(status));
    let d = and_detail(c, "checklist_version"@, JsonV::Text(checklist.checklist_version));
    lemma_and_detail(c, "checklist_version"@, JsonV::Text(checklist.checklist_version));
    let e = and_detail(d, "content_hash"@, JsonV::Text(checklist.content_hash));
    lemma_and_detail(d, "content_hash"@, JsonV::Text(checklist.content_hash));
    let f = and_detail(e, "rule_count"@, JsonV::Int(checklist.rules.len() as int));
    lemma_and_detail(e, "rule_count"@, JsonV::Int(checklist.rules.len() as int));
    let g = and_detail(f, "warnings"@, texts(warnings));
    lemma_and_detail(f, "warnings"@, texts(warnings));
    if let Some((key, strategy)) = job.completes {
        lemma_and_detail(
            g,
            "override_resolution"@,
            and_detail(
                detail("key"@, JsonV::Text(key)),
                "strategy"@,
                JsonV::Text(strategy),
            ),
        );
    }
}

/// The revision that a `prepare` returns when it reuses a project is the one that is stored for
/// the project when it ends, also where it was another before.
pub proof fn a_reused_revision_is_stored(
    t: Tables,
    job: PrepareJobV,
    checklist: ChecklistV,
    overrides: Seq<JsonV>,
    row: RowV,
    now: Seq<char>,
)
    requires
        project_row(t.projects, CellV::Text(job.project_id)) == Some(row),
        distinct_columns(row),
        column(row, "knowledge_revision"@) matches Some(CellV::Text(_)),
        !source_changed(row_object(row), checklist),
        !job.force,
    ensures
        ({
            let description = description_value(
                job.project_id,
                job.project_name,
                effective_checklist(checklist, overrides),
            );
            let writes = reuse_writes(row_object(row), job, description, now);
            let value = prepare_value(
                job,
                checklist,
                description,
                "reused"@,
                reuse_warnings(row_object(row), job),
            );
            &&& prepare_decide(job, checklist, Some(row_object(row)), overrides, now) == (
            if writes.len() == 0 {
                end(value)
            } else {
                StepV::<StageV, ServiceErrorV>::Ask(
                    RequestV::Write(writes),
                    StageV::Completed(value),
                )
            })
            &&& returned_revision(value) matches Some(revision) && stored_revision(
                after_all(t, writes),
                job.project_id,
            ) == Some(CellV::Text(revision))
            &&& project_row(after_all(t, writes).projects, CellV::Text(job.project_id)) matches Some(
                stored,
            ) && distinct_columns(stored)
            &&& after_all(t, writes).rules == t.rules
        }),
{
    let id = CellV::Text(job.project_id);
    let effective = effective_checklist(checklist, overrides);
    let description = description_value(job.project_id, job.project_name, effective);
    let project = row_object(row);
    let revision = revision_of(effective);
    description_carries_revision(job.project_id, job.project_name, effective);
    lemma_returned(job, checklist, description, "reused"@, reuse_warnings(project, job));
    let rename = metadata_update(job.project_id, job.project_name, job.path, description, now);
    let naming = if metadata_changed(project, job) {
        seq![rename]
    } else {
        Seq::<StatementV>::empty()
    };
    let t1 = after_all(t, naming);
    lemma_effects();
    lemma_renewal_names();
    assert(after_all(t, Seq::empty()) == t);
    assert(seq![rename].drop_last() =~= Seq::empty());
    assert(after_all(t, seq![rename]) == after(t, rename));
    let f = |r: RowV| relabelled(r, rename.params);
    assert forall|r: RowV| column(#[trigger] f(r), "project_id"@) == column(r, "project_id"@) by {
        lemma_relabelled(r, rename.params, "project_id"@);
    }
    lemma_renewed(t.projects, f, id);
    lemma_relabelled(row, rename.params, "knowledge_revision"@);
    lemma_relabelled(row, rename.params, "project_id"@);
    lemma_project_at(t.projects, id);
    assert(of_project(row, id));
    let row1 = project_row(t1.projects, id)->0;
    lemma_renewals_keep_names(row, rename.params, rename.params);
    lemma_renewals_keep_names(
        row1,
        description_update(job.project_id, revision, description, now).params,
        rename.params,
    );
    assert(column(row1, "knowledge_revision"@) == column(row, "knowledge_revision"@));
    assert(of_project(row1, id));
    a_row_shows_its_columns(row, "knowledge_revision"@);
    if revision_stored(project, description) {
        assert(reuse_writes(project, job, description, now) == naming);
        assert(column(row, "knowledge_revision"@) == Some(CellV::Text(revision)));
    } else {
        let more = description_writes(job.project_id, revision, description, now);
        lemma_after_both(t, naming, more);
        lemma_description_written(t1, job.project_id, revision, description, now);
        lemma_described(
            row1,
            description_update(job.project_id, revision, description, now).params,
            "knowledge_revision"@,
        );
    }
}

/// The revision that a `prepare` returns when it creates, refreshes or rebuilds a project is the
/// one that is stored for the project when it ends.
pub proof fn a_refreshed_revision_is_stored(
    t: Tables,
    r: RefreshV,
    current: Option<JsonV>,
    now: Seq<char>,
    writes: Seq<StatementV>,
    value: JsonV,
)
    requires
        r.checklist.rules.len() <= i64::MAX,
        prepare_replace(r, current, now) == (StepV::<StageV, ServiceErrorV>::Ask(
            RequestV::Write(writes),
            StageV::PrepareWritten(value),
        )),
    ensures
        returned_revision(value) matches Some(revision) && stored_revision(
            after_all(t, writes),
            r.job.project_id,
        ) == Some(CellV::Text(revision)),
        project_row(after_all(t, writes).projects, CellV::Text(r.job.project_id)) matches Some(
            stored,
        ) && distinct_columns(stored),
        hold_rules(
            rows_of_project(after_all(t, writes).rules, CellV::Text(r.job.project_id)),
            r.checklist.rules,
        ),
{
    let revision = carried_revision(r.description)->0;
    lemma_returned(r.job, r.checklist, r.description, r.status, r.warnings);
    a_refresh_is_read_back(
        t,
        current,
        r.job.project_id,
        r.job.project_name,
        r.job.path,
        r.checklist,
        revision,
        r.description,
        r.action,
        r.warnings,
        now,
        r.job.project_id,
    );
    assert(written_project_columns()[6] == "knowledge_revision"@);
}

// ---- setting and unsetting ----

/// The override rows of a project that count, in order.
pub open spec fn active_rows(rows: Seq<RowV>, project_id: CellV) -> Seq<RowV> {
    rows.filter(|r: RowV| counts(r, project_id))
}

/// Whether an override row is about a project and counts.
pub open spec fn counts(row: RowV, project_id: CellV) -> bool {
    of_project(row, project_id) && column(row, "status"@) == Some(CellV::Text("active"@))
}

/// Whether no override of a rule counts.
pub open spec fn none_counts(rows: Seq<RowV>, project_id: CellV, rule_key: CellV) -> bool {
    forall|i: int|
        0 <= i < rows.len() && of_rule(#[trigger] rows[i], project_id, rule_key) ==> !counts(
            rows[i],
            project_id,
        )
}

pub proof fn lemma_override_at(rows: Seq<RowV>, id: CellV, key: CellV)
    ensures
        0 <= override_at(rows, id, key) <= rows.len(),
        override_at(rows, id, key) < rows.len() ==> of_rule(
            rows[override_at(rows, id, key)],
            id,
            key,
        ),
    decreases rows.len(),
{
    if rows.len() > 0 && !of_rule(rows[0], id, key) {
        let rest = rows.drop_first();
        lemma_override_at(rest, id, key);
        if override_at(rest, id, key) < rest.len() {
            assert(rest[override_at(rest, id, key)] == rows[override_at(rows, id, key)]);
        }
    }
}

pub proof fn lemma_active_kept(a: Seq<RowV>, b: Seq<RowV>, id: CellV)
    requires
        a.len() == b.len(),
        forall|i: int|
            0 <= i < a.len() ==> a[i] == b[i] || (!counts(#[trigger] a[i], id) && !counts(
                #[trigger] b[i],
                id,
            )),
    ensures
        active_rows(a, id) == active_rows(b, id),
    decreases a.len(),
{
    reveal(Seq::filter);
    if a.len() > 0 {
        lemma_active_kept(a.drop_last(), b.drop_last(), id);
        let n = a.len() - 1;
        assert(a[n] == b[n] || (!counts(a[n], id) && !counts(b[n], id)));
    }
}

proof fn lemma_disabled(row: RowV, params: Seq<CellV>, id: CellV, key: CellV)
    requires
        of_rule(row, id, key),
        params[2] == id,
        params[3] == key,
    ensures
        !counts(disabled(row, params), id),
{
    let a = with_cell(row, "status"@, CellV::Text("disabled"@));
    let b = with_cell(a, "reason"@, params[0]);
    lemma_with_cell(row, "status"@, CellV::Text("disabled"@), "status"@);
    lemma_with_cell(a, "reason"@, params[0], "status"@);
    lemma_with_cell(b, "updated_at"@, params[1], "status"@);
    reveal_strlit("active");
    reveal_strlit("disabled");
    reveal_strlit("status");
    reveal_strlit("reason");
    reveal_strlit("updated_at");
    assert("active"@.len() == 6 && "disabled"@.len() == 8);
    assert("status"@[0] == 's' && "reason"@[0] == 'r' && "updated_at"@[0] == 'u');
}

pub proof fn lemma_two(t: Tables, a: StatementV, b: StatementV)
    ensures
        after_all(t, seq![a, b]) == after(after(t, a), b),
{
    let list = seq![a, b];
    assert(list.drop_last() =~= seq![a]);
    assert(seq![a].drop_last() =~= Seq::empty());
    assert(after_all(t, Seq::empty()) == t);
    assert(after_all(t, seq![a]) == after(t, a));
}

/// An override that was set where none counted and unset again counts no more, and everything that
/// counted before counts still.
pub proof fn lemma_set_and_unset(
    t: Tables,
    job: OverrideJobV,
    unset: OverrideJobV,
    hash: Seq<char>,
    now: Seq<char>,
    later: Seq<char>,
)
    requires
        unset.project_id == job.project_id,
        unset.key == job.key,
        none_counts(t.overrides, CellV::Text(job.project_id), CellV::Text(job.key)),
    ensures
        ({
            let u = after_all(t, set_writes(job, hash, now));
            let v = after_all(u, unset_writes(unset, later));
            let id = CellV::Text(job.project_id);
            &&& v == (Tables { overrides: v.overrides, audit: v.audit, ..t })
            &&& u.projects == t.projects && u.rules == t.rules && u.history == t.history
            &&& active_rows(v.overrides, id) == active_rows(t.overrides, id)
        }),
{
    let id = CellV::Text(job.project_id);
    let key = CellV::Text(job.key);
    lemma_effects();
    let upsert = override_upsert(
        job.project_id,
        job.key,
        bindings(job.fields),
        hash,
        job.reason,
        now,
    );
    let disable = override_disable(unset.project_id, unset.key, unset.reason, later);
    let first = set_writes(job, hash, now);
    let second = unset_writes(unset, later);
    lemma_two(t, first[0], first[1]);
    assert(first =~= seq![first[0], first[1]]);
    let u = after_all(t, first);
    lemma_two(u, second[0], second[1]);
    assert(second =~= seq![second[0], second[1]]);
    let v = after_all(u, second);
    let columns = written_override_columns();
    let cells = upsert.params.insert(8, CellV::Text("active"@));
    let row = row_of(columns, cells);
    lemma_column_names();
    lemma_row_of(columns, cells);
    assert(columns[0] == "project_id"@ && columns[1] == "rule_key"@ && columns[10]
        == "created_at"@);
    assert(upsert.params[0] == id && upsert.params[1] == key);
    assert(disable.params[2] == id && disable.params[3] == key);
    assert(of_rule(row, id, key));
    let at = override_at(t.overrides, id, key);
    lemma_override_at(t.overrides, id, key);
    if at < t.overrides.len() {
        let written = u.overrides[at];
        if let Some(c) = column(t.overrides[at], "created_at"@) {
            lemma_with_cell(row, "created_at"@, c, "project_id"@);
            lemma_with_cell(row, "created_at"@, c, "rule_key"@);
        }
        assert(of_rule(written, id, key));
        assert(v.overrides.len() == t.overrides.len());
        assert forall|i: int| 0 <= i < t.overrides.len() implies t.overrides[i] == v.overrides[i]
            || (!counts(#[trigger] t.overrides[i], id) && !counts(#[trigger] v.overrides[i], id)) by {
            assert(v.overrides[i] == disabled(u.overrides[i], disable.params));
            if of_rule(u.overrides[i], id, key) {
                lemma_disabled(u.overrides[i], disable.params, id, key);
            }
        }
        lemma_active_kept(t.overrides, v.overrides, id);
    } else {
        let grown = t.overrides.push(disabled(row, disable.params));
        lemma_disabled(row, disable.params, id, key);
        assert(v.overrides.len() == grown.len());
        assert forall|i: int| 0 <= i < grown.len() implies grown[i] == v.overrides[i] || (!counts(
            #[trigger] grown[i],
            id,
        ) && !counts(#[trigger] v.overrides[i], id)) by {
            assert(v.overrides[i] == disabled(u.overrides[i], disable.params));
            if i < t.overrides.len() {
                assert(u.overrides[i] == t.overrides[i]);
                if of_rule(u.overrides[i], id, key) {
                    lemma_disabled(u.overrides[i], disable.params, id, key);
                }
            }
        }
        lemma_active_kept(grown, v.overrides, id);
        reveal(Seq::filter);
        assert(grown.drop_last() =~= t.overrides);
    }
}

/// The statements that set an override.
pub open spec fn set_writes(job: OverrideJobV, hash: Seq<char>, now: Seq<char>) -> Seq<StatementV> {
    seq![
        override_upsert(
            job.project_id,
            job.key,
            bindings(job.fields),
            hash,
            job.reason,
            now,
        ),
        audit_insert(
            job.project_id,
            job.key,
            "override.set"@,
            job.reason,
            JsonV::Object(bindings(job.fields)),
            now,
        ),
    ]
}

/// The statements that unset an override.
pub open spec fn unset_writes(job: OverrideJobV, now: Seq<char>) -> Seq<StatementV> {
    seq![
        override_disable(job.project_id, job.key, job.reason, now),
        audit_insert(
            job.project_id,
            job.key,
            "override.unset"@,
            job.reason,
            JsonV::Object(Seq::empty()),
            now,
        ),
    ]
}

pub proof fn lemma_global_description(project_id: Seq<char>, name: Seq<char>, checklist: ChecklistV)
    ensures
        text_or_empty(sorted(description_value(project_id, name, checklist)), "global_description"@)
            == checklist.global_description,
{
    reveal_strlit("project");
    reveal_strlit("checklist");
    reveal_strlit("global_description");
    reveal_strlit("rules");
    assert("global_description"@.len() == 18 && "rules"@.len() == 5);
    let project = and_detail(detail("id"@, JsonV::Text(project_id)), "name"@, JsonV::Text(name));
    let d = description_value(project_id, name, checklist);
    let a = detail("project"@, project);
    lemma_detail("project"@, project);
    let head = field(d, "checklist"@);
    let inner = and_detail(
        and_detail(
            and_detail(
                detail("schema_version"@, JsonV::Int(checklist.schema_version)),
                "version"@,
                JsonV::Text(checklist.checklist_version),
            ),
            "content_hash"@,
            JsonV::Text(checklist.content_hash),
        ),
        "knowledge_revision"@,
        JsonV::Text(revision_of(checklist)),
    );
    let b = and_detail(a, "checklist"@, inner);
    lemma_and_detail(a, "checklist"@, inner);
    let text = JsonV::Text(checklist.global_description);
    let c = and_detail(b, "global_description"@, text);
    lemma_and_detail(b, "global_description"@, text);
    let items = JsonV::Array(checklist.rules.map_values(|r: RuleV| summary_value(r)));
    lemma_and_detail(c, "rules"@, items);
    lemma_sorted_field(d, "global_description"@);
    lemma_sorted(text);
}

pub proof fn lemma_renew_value(job: RenewJobV, revision: Seq<char>)
    ensures
        field(renew_value(job, revision), "status"@) == Some(JsonV::Text(job.status)),
        field(renew_value(job, revision), "knowledge_revision"@) == Some(JsonV::Text(revision)),
{
    reveal_strlit("status");
    reveal_strlit("knowledge_revision");
    assert("status"@.len() == 6 && "knowledge_revision"@.len() == 18);
    let a = detail("project_id"@, JsonV::Text(job.project_id));
    let b = and_detail(a, "key"@, JsonV::Text(job.key));
    let c = and_detail(b, "status"@, JsonV::Text(job.status));
    lemma_detail("project_id"@, JsonV::Text(job.project_id));
    lemma_and_detail(a, "key"@, JsonV::Text(job.key));
    lemma_and_detail(b, "status"@, JsonV::Text(job.status));
    lemma_and_detail(c, "knowledge_revision"@, JsonV::Text(revision));
}

} // verus!
