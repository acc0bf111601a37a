//! What the transactions of the operations leave in the tables, column by column.

use vstd::prelude::*;

use crate::json::{lookup, texts, Entries, JsonV};
use crate::json_util::canonical;
use crate::models::ChecklistV;
use crate::protocol::{CellV, RowV, StatementV};
use crate::repository::{
    audit_insert, conflict_entry, conflicts_marking, conflicts_update, description_update,
    description_writes, history_insert, known_text, metadata_update, override_disable,
    override_keep, override_upsert, project_audit_insert, replacement,
};
use crate::rows::{column, hold_rules};
use crate::storage_laws::{written_override_columns, written_project_columns};
use crate::table_laws::{a_refresh_is_read_back, lemma_override_at, lemma_two};
use crate::tables::{
    after, after_all, conflicting, described, disabled, effect_of, kept, lemma_after_both,
    lemma_column_names, lemma_effects, lemma_row_of, lemma_with_cell, of_project, of_rule,
    override_at, override_written, project_row, relabelled, row_of, rows_of_project, with_cell,
    written_audit_columns, written_history_columns, Tables,
};

verus! {

/// Whether a column of a row that has it holds a cell.
pub open spec fn replaced(before: RowV, after: RowV, name: Seq<char>, cell: CellV) -> bool {
    column(before, name) is Some ==> column(after, name) == Some(cell)
}

/// Whether the audit log has one more entry, and which.
pub open spec fn audited(
    t: Tables,
    u: Tables,
    project_id: Seq<char>,
    rule_key: CellV,
    action: Seq<char>,
    reason: Seq<char>,
    change: JsonV,
    now: Seq<char>,
) -> bool {
    &&& u.audit.len() == t.audit.len() + 1
    &&& u.audit.drop_last() == t.audit
    &&& audit_row(u.audit.last(), project_id, rule_key, action, reason, change, now)
}

/// Whether a row of the audit log tells of a change.
pub open spec fn audit_row(
    row: RowV,
    project_id: Seq<char>,
    rule_key: CellV,
    action: Seq<char>,
    reason: Seq<char>,
    change: JsonV,
    now: Seq<char>,
) -> bool {
    &&& column(row, "project_id"@) == Some(CellV::Text(project_id))
    &&& column(row, "rule_key"@) == Some(rule_key)
    &&& column(row, "action"@) == Some(CellV::Text(action))
    &&& column(row, "reason"@) == Some(CellV::Text(reason))
    &&& column(row, "change_json"@) == Some(CellV::Text(canonical(change)))
    &&& column(row, "created_at"@) == Some(CellV::Text(now))
}

proof fn lemma_other_names()
    ensures
        written_audit_columns().no_duplicates(),
        written_history_columns().no_duplicates(),
{
    reveal_strlit("project_id");
    reveal_strlit("rule_key");
    reveal_strlit("action");
    reveal_strlit("reason");
    reveal_strlit("change_json");
    reveal_strlit("created_at");
    reveal_strlit("old_version");
    reveal_strlit("new_version");
    reveal_strlit("old_hash");
    reveal_strlit("new_hash");
    reveal_strlit("result");
    reveal_strlit("warnings_json");
    assert("project_id"@.len() == 10 && "project_id"@[0] == 'p' && "rule_key"@.len() == 8);
    assert("action"@.len() == 6 && "action"@[0] == 'a' && "reason"@.len() == 6 && "reason"@[0]
        == 'r');
    assert("change_json"@.len() == 11 && "created_at"@.len() == 10 && "created_at"@[0] == 'c');
    assert("old_version"@.len() == 11 && "old_version"@[0] == 'o' && "new_version"@.len() == 11
        && "new_version"@[0] == 'n');
    assert("old_hash"@.len() == 8 && "old_hash"@[0] == 'o' && "new_hash"@.len() == 8
        && "new_hash"@[0] == 'n');
    assert("result"@.len() == 6 && "result"@[0] == 'r' && "warnings_json"@.len() == 13);
}

proof fn lemma_audit_row(
    project_id: Seq<char>,
    rule_key: CellV,
    action: Seq<char>,
    reason: Seq<char>,
    change: JsonV,
    now: Seq<char>,
    params: Seq<CellV>,
)
    requires
        params == seq![
            CellV::Text(project_id),
            rule_key,
            CellV::Text(action),
            CellV::Text(reason),
            CellV::Text(canonical(change)),
            CellV::Text(now),
        ],
    ensures
        audit_row(
            row_of(written_audit_columns(), params),
            project_id,
            rule_key,
            action,
            reason,
            change,
            now,
        ),
{
    let columns = written_audit_columns();
    lemma_other_names();
    lemma_row_of(columns, params);
    let row = row_of(columns, params);
    assert(columns[0] == "project_id"@ && columns[1] == "rule_key"@ && columns[2] == "action"@);
    assert(columns[3] == "reason"@ && columns[4] == "change_json"@ && columns[5] == "created_at"@);
}

/// An entry of the audit log is one more row of it.
pub proof fn an_audit_entry_is_added(
    t: Tables,
    project_id: Seq<char>,
    rule_key: Seq<char>,
    action: Seq<char>,
    reason: Seq<char>,
    change: JsonV,
    now: Seq<char>,
)
    ensures
        ({
            let u = after(t, audit_insert(project_id, rule_key, action, reason, change, now));
            &&& audited(t, u, project_id, CellV::Text(rule_key), action, reason, change, now)
            &&& u == (Tables { audit: u.audit, ..t })
        }),
        ({
            let u = after(t, project_audit_insert(project_id, action, reason, change, now));
            &&& audited(t, u, project_id, CellV::Null, action, reason, change, now)
            &&& u == (Tables { audit: u.audit, ..t })
        }),
{
    lemma_effects();
    let a = audit_insert(project_id, rule_key, action, reason, change, now);
    let b = project_audit_insert(project_id, action, reason, change, now);
    assert(a.params =~= seq![
        CellV::Text(project_id),
        CellV::Text(rule_key),
        CellV::Text(action),
        CellV::Text(reason),
        CellV::Text(canonical(change)),
        CellV::Text(now),
    ]);
    assert(b.params =~= seq![
        CellV::Text(project_id),
        CellV::Null,
        CellV::Text(action),
        CellV::Text(reason),
        CellV::Text(canonical(change)),
        CellV::Text(now),
    ]);
    lemma_audit_row(project_id, CellV::Text(rule_key), action, reason, change, now, a.params);
    lemma_audit_row(project_id, CellV::Null, action, reason, change, now, b.params);
    assert(after(t, a).audit.drop_last() =~= t.audit);
    assert(after(t, b).audit.drop_last() =~= t.audit);
}

// ---- overrides ----

/// The cell of a text field of an override: the text, or null where the field is not set.
pub open spec fn text_cell(fields: Entries, name: Seq<char>) -> CellV {
    match lookup(fields, name) {
        Some(JsonV::Text(t)) => CellV::Text(t),
        _ => CellV::Null,
    }
}

/// The cell of a list field of an override: its JSON text, or null where the field is not set.
pub open spec fn list_cell(fields: Entries, name: Seq<char>) -> CellV {
    match lookup(fields, name) {
        Some(v) => CellV::Text(canonical(v)),
        None => CellV::Null,
    }
}

/// Whether a row is that of an override with some fields.
pub open spec fn keeps_override(
    row: RowV,
    project_id: Seq<char>,
    rule_key: Seq<char>,
    fields: Entries,
    base: Seq<char>,
    reason: Seq<char>,
    created: CellV,
    now: Seq<char>,
) -> bool {
    &&& column(row, "project_id"@) == Some(CellV::Text(project_id))
    &&& column(row, "rule_key"@) == Some(CellV::Text(rule_key))
    &&& column(row, "summary"@) == Some(text_cell(fields, "summary"@))
    &&& column(row, "content"@) == Some(text_cell(fields, "content"@))
    &&& column(row, "tags_json"@) == Some(list_cell(fields, "tags"@))
    &&& column(row, "paths_json"@) == Some(list_cell(fields, "paths"@))
    &&& column(row, "languages_json"@) == Some(list_cell(fields, "languages"@))
    &&& column(row, "base_source_rule_hash"@) == Some(CellV::Text(base))
    &&& column(row, "status"@) == Some(CellV::Text("active"@))
    &&& column(row, "reason"@) == Some(CellV::Text(reason))
    &&& column(row, "created_at"@) == Some(created)
    &&& column(row, "updated_at"@) == Some(CellV::Text(now))
}

/// Whether override rows have one more row, or one in place of the row of that rule.
pub open spec fn takes_place(
    before: Seq<RowV>,
    after: Seq<RowV>,
    project_id: Seq<char>,
    rule_key: Seq<char>,
    row: RowV,
) -> bool {
    let id = CellV::Text(project_id);
    let key = CellV::Text(rule_key);
    ||| after == before.push(row) && forall|i: int|
        0 <= i < before.len() ==> !of_rule(#[trigger] before[i], id, key)
    ||| exists|i: int|
        0 <= i < before.len() && of_rule(#[trigger] before[i], id, key) && after == before.update(
            i,
            row,
        )
}

proof fn lemma_no_override_before(rows: Seq<RowV>, id: CellV, key: CellV)
    ensures
        forall|i: int|
            0 <= i < override_at(rows, id, key) && i < rows.len() ==> !of_rule(
                #[trigger] rows[i],
                id,
                key,
            ),
    decreases rows.len(),
{
    if rows.len() > 0 && !of_rule(rows[0], id, key) {
        let rest = rows.drop_first();
        lemma_no_override_before(rest, id, key);
        assert forall|i: int|
            0 <= i < override_at(rows, id, key) && i < rows.len() implies !of_rule(
            #[trigger] rows[i],
            id,
            key,
        ) by {
            if i > 0 {
                assert(rest[i - 1] == rows[i]);
            }
        }
    }
}

proof fn lemma_kept_row(
    project_id: Seq<char>,
    rule_key: Seq<char>,
    fields: Entries,
    base: Seq<char>,
    reason: Seq<char>,
    now: Seq<char>,
) -> (row: RowV)
    ensures
        row == row_of(
            written_override_columns(),
            override_upsert(project_id, rule_key, fields, base, reason, now).params.insert(
                8,
                CellV::Text("active"@),
            ),
        ),
        keeps_override(
            row,
            project_id,
            rule_key,
            fields,
            base,
            reason,
            CellV::Text(now),
            now,
        ),
{
    let columns = written_override_columns();
    let params = override_upsert(project_id, rule_key, fields, base, reason, now).params;
    assert(params =~= seq![
        CellV::Text(project_id),
        CellV::Text(rule_key),
        text_cell(fields, "summary"@),
        text_cell(fields, "content"@),
        list_cell(fields, "tags"@),
        list_cell(fields, "paths"@),
        list_cell(fields, "languages"@),
        CellV::Text(base),
        CellV::Text(reason),
        CellV::Text(now),
        CellV::Text(now),
    ]);
    let cells = params.insert(8, CellV::Text("active"@));
    lemma_column_names();
    lemma_row_of(columns, cells);
    let row = row_of(columns, cells);
    assert(columns[0] == "project_id"@ && columns[1] == "rule_key"@ && columns[2] == "summary"@);
    assert(columns[3] == "content"@ && columns[4] == "tags_json"@ && columns[5] == "paths_json"@);
    assert(columns[6] == "languages_json"@ && columns[7] == "base_source_rule_hash"@);
    assert(columns[8] == "status"@ && columns[9] == "reason"@ && columns[10] == "created_at"@);
    assert(columns[11] == "updated_at"@);
    row
}

/// Setting an override writes its row, active and with the given fields and nothing in the others,
/// in place of the one that there is for the rule; the time of creation of that one stays. All
/// other rows of all tables stay as they are.
#[verifier::spinoff_prover]
#[verifier::rlimit(50)]
pub proof fn a_set_override_is_written(
    t: Tables,
    project_id: Seq<char>,
    rule_key: Seq<char>,
    fields: Entries,
    base: Seq<char>,
    reason: Seq<char>,
    now: Seq<char>,
)
    ensures
        ({
            let u = after(t, override_upsert(project_id, rule_key, fields, base, reason, now));
            let id = CellV::Text(project_id);
            let key = CellV::Text(rule_key);
            &&& u == (Tables { overrides: u.overrides, ..t })
            &&& exists|row: RowV, created: CellV|
                {
                    &&& #[trigger] takes_place(
                        t.overrides,
                        u.overrides,
                        project_id,
                        rule_key,
                        row,
                    )
                    &&& #[trigger] keeps_override(
                        row,
                        project_id,
                        rule_key,
                        fields,
                        base,
                        reason,
                        created,
                        now,
                    )
                    &&& created == CellV::Text(now) || exists|i: int|
                        0 <= i < t.overrides.len() && of_rule(#[trigger] t.overrides[i], id, key)
                            && column(t.overrides[i], "created_at"@) == Some(created)
                }
        }),
{
    lemma_effects();
    let s = override_upsert(project_id, rule_key, fields, base, reason, now);
    let id = CellV::Text(project_id);
    let key = CellV::Text(rule_key);
    let row = lemma_kept_row(project_id, rule_key, fields, base, reason, now);
    let at = override_at(t.overrides, id, key);
    let u = after(t, s);
    assert(s.params[0] == id && s.params[1] == key);
    assert(u.overrides == override_written(t.overrides, s.params));
    lemma_override_at(t.overrides, id, key);
    lemma_no_override_before(t.overrides, id, key);
    if at < t.overrides.len() {
        if let Some(c) = column(t.overrides[at], "created_at"@) {
            let made = with_cell(row, "created_at"@, c);
            lemma_recreated(row, project_id, rule_key, fields, base, reason, CellV::Text(now), c, now);
            assert(takes_place(t.overrides, u.overrides, project_id, rule_key, made));
            assert(keeps_override(made, project_id, rule_key, fields, base, reason, c, now));
        } else {
            assert(takes_place(t.overrides, u.overrides, project_id, rule_key, row));
        }
    } else {
        assert(takes_place(t.overrides, u.overrides, project_id, rule_key, row));
    }
}

proof fn lemma_recreated(
    row: RowV,
    project_id: Seq<char>,
    rule_key: Seq<char>,
    fields: Entries,
    base: Seq<char>,
    reason: Seq<char>,
    old: CellV,
    created: CellV,
    now: Seq<char>,
)
    requires
        keeps_override(row, project_id, rule_key, fields, base, reason, old, now),
    ensures
        keeps_override(
            with_cell(row, "created_at"@, created),
            project_id,
            rule_key,
            fields,
            base,
            reason,
            created,
            now,
        ),
{
    let columns = written_override_columns();
    lemma_column_names();
    assert(columns[0] == "project_id"@ && columns[1] == "rule_key"@ && columns[2] == "summary"@);
    assert(columns[3] == "content"@ && columns[4] == "tags_json"@ && columns[5] == "paths_json"@);
    assert(columns[6] == "languages_json"@ && columns[7] == "base_source_rule_hash"@);
    assert(columns[8] == "status"@ && columns[9] == "reason"@ && columns[10] == "created_at"@);
    assert(columns[11] == "updated_at"@);
    assert forall|i: int| 0 <= i < columns.len() implies #[trigger] column(
        with_cell(row, "created_at"@, created),
        columns[i],
    ) == (if i == 10 {
        Some(created)
    } else {
        column(row, columns[i])
    }) by {
        lemma_with_cell(row, "created_at"@, created, columns[i]);
        if i != 10 {
            assert(columns[i] != columns[10]);
        }
    }
    assert(column(with_cell(row, "created_at"@, created), columns[0]) == column(row, columns[0]));
    assert(column(with_cell(row, "created_at"@, created), columns[1]) == column(row, columns[1]));
    assert(column(with_cell(row, "created_at"@, created), columns[2]) == column(row, columns[2]));
    assert(column(with_cell(row, "created_at"@, created), columns[3]) == column(row, columns[3]));
    assert(column(with_cell(row, "created_at"@, created), columns[4]) == column(row, columns[4]));
    assert(column(with_cell(row, "created_at"@, created), columns[5]) == column(row, columns[5]));
    assert(column(with_cell(row, "created_at"@, created), columns[6]) == column(row, columns[6]));
    assert(column(with_cell(row, "created_at"@, created), columns[7]) == column(row, columns[7]));
    assert(column(with_cell(row, "created_at"@, created), columns[8]) == column(row, columns[8]));
    assert(column(with_cell(row, "created_at"@, created), columns[9]) == column(row, columns[9]));
    assert(column(with_cell(row, "created_at"@, created), columns[10]) == Some(created));
    assert(column(with_cell(row, "created_at"@, created), columns[11]) == column(row, columns[11]));
}

/// Whether an override row is another one whose status, reason and time of change were replaced.
pub open spec fn restated(
    before: RowV,
    after: RowV,
    status: Seq<char>,
    reason: Seq<char>,
    now: Seq<char>,
) -> bool {
    &&& replaced(before, after, "status"@, CellV::Text(status))
    &&& replaced(before, after, "reason"@, CellV::Text(reason))
    &&& replaced(before, after, "updated_at"@, CellV::Text(now))
    &&& forall|name: Seq<char>|
        name != "status"@ && name != "reason"@ && name != "updated_at"@ ==> #[trigger] column(
            after,
            name,
        ) == column(before, name)
}

proof fn lemma_apart()
    ensures
        "status"@ != "reason"@ && "status"@ != "updated_at"@ && "reason"@ != "updated_at"@,
        "base_source_rule_hash"@ != "status"@ && "base_source_rule_hash"@ != "reason"@
            && "base_source_rule_hash"@ != "updated_at"@,
        "knowledge_revision"@ != "description_json"@ && "knowledge_revision"@ != "updated_at"@
            && "description_json"@ != "updated_at"@,
        "project_name"@ != "checklist_path"@ && "project_name"@ != "description_json"@
            && "project_name"@ != "updated_at"@,
        "checklist_path"@ != "description_json"@ && "checklist_path"@ != "updated_at"@,
{
    reveal_strlit("status");
    reveal_strlit("reason");
    reveal_strlit("updated_at");
    reveal_strlit("base_source_rule_hash");
    reveal_strlit("knowledge_revision");
    reveal_strlit("description_json");
    reveal_strlit("project_name");
    reveal_strlit("checklist_path");
    assert("status"@[0] == 's' && "reason"@[0] == 'r' && "updated_at"@[0] == 'u');
    assert("base_source_rule_hash"@[0] == 'b' && "knowledge_revision"@[0] == 'k');
    assert("description_json"@[0] == 'd' && "project_name"@[0] == 'p' && "checklist_path"@[0]
        == 'c');
}

proof fn lemma_three(row: RowV, a: Seq<char>, x: CellV, b: Seq<char>, y: CellV, c: Seq<char>, z: CellV)
    requires
        a != b,
        a != c,
        b != c,
    ensures
        ({
            let made = with_cell(with_cell(with_cell(row, a, x), b, y), c, z);
            &&& replaced(row, made, a, x)
            &&& replaced(row, made, b, y)
            &&& replaced(row, made, c, z)
            &&& forall|name: Seq<char>|
                name != a && name != b && name != c ==> #[trigger] column(made, name) == column(
                    row,
                    name,
                )
            &&& forall|name: Seq<char>| (#[trigger] column(made, name) is Some) == (column(row, name)
                is Some)
        }),
{
    let one = with_cell(row, a, x);
    let two = with_cell(one, b, y);
    let made = with_cell(two, c, z);
    assert forall|name: Seq<char>| #[trigger] column(made, name) == (if name == c && column(row, c)
        is Some {
        Some(z)
    } else if name == b && column(row, b) is Some {
        Some(y)
    } else if name == a && column(row, a) is Some {
        Some(x)
    } else {
        column(row, name)
    }) by {
        lemma_with_cell(row, a, x, name);
        lemma_with_cell(one, b, y, name);
        lemma_with_cell(two, c, z, name);
    }
    assert(replaced(row, made, a, x) && replaced(row, made, b, y) && replaced(row, made, c, z)) by {
        assert(column(made, a) == column(made, a));
        assert(column(made, b) == column(made, b));
        assert(column(made, c) == column(made, c));
    }
}

/// Unsetting an override disables its row, and keeps everything that the row holds but the reason
/// and the time of change. All other rows of all tables stay as they are.
pub proof fn an_unset_override_is_disabled(
    t: Tables,
    project_id: Seq<char>,
    rule_key: Seq<char>,
    reason: Seq<char>,
    now: Seq<char>,
)
    ensures
        ({
            let u = after(t, override_disable(project_id, rule_key, reason, now));
            let id = CellV::Text(project_id);
            let key = CellV::Text(rule_key);
            &&& u == (Tables { overrides: u.overrides, ..t })
            &&& u.overrides.len() == t.overrides.len()
            &&& forall|i: int|
                0 <= i < t.overrides.len() ==> if of_rule(#[trigger] t.overrides[i], id, key) {
                    restated(t.overrides[i], u.overrides[i], "disabled"@, reason, now)
                } else {
                    u.overrides[i] == t.overrides[i]
                }
        }),
{
    lemma_effects();
    lemma_apart();
    let s = override_disable(project_id, rule_key, reason, now);
    let id = CellV::Text(project_id);
    let key = CellV::Text(rule_key);
    assert(s.params =~= seq![CellV::Text(reason), CellV::Text(now), id, key]);
    let u = after(t, s);
    assert forall|i: int| 0 <= i < t.overrides.len() implies if of_rule(
        #[trigger] t.overrides[i],
        id,
        key,
    ) {
        restated(t.overrides[i], u.overrides[i], "disabled"@, reason, now)
    } else {
        u.overrides[i] == t.overrides[i]
    } by {
        assert(u.overrides[i] == disabled(t.overrides[i], s.params));
        lemma_three(
            t.overrides[i],
            "status"@,
            CellV::Text("disabled"@),
            "reason"@,
            CellV::Text(reason),
            "updated_at"@,
            CellV::Text(now),
        );
    }
}

/// Keeping an override in conflict makes its row active again, for the new source hash, and keeps
/// everything else that the row holds but the reason and the time of change. All other rows of all
/// tables stay as they are.
pub proof fn a_kept_override_counts_again(
    t: Tables,
    project_id: Seq<char>,
    rule_key: Seq<char>,
    base: Seq<char>,
    reason: Seq<char>,
    now: Seq<char>,
)
    ensures
        ({
            let u = after(t, override_keep(project_id, rule_key, base, reason, now));
            let id = CellV::Text(project_id);
            let key = CellV::Text(rule_key);
            &&& u == (Tables { overrides: u.overrides, ..t })
            &&& u.overrides.len() == t.overrides.len()
            &&& forall|i: int|
                0 <= i < t.overrides.len() ==> if of_rule(#[trigger] t.overrides[i], id, key) {
                    rebased(t.overrides[i], u.overrides[i], base, reason, now)
                } else {
                    u.overrides[i] == t.overrides[i]
                }
        }),
{
    lemma_effects();
    lemma_apart();
    let s = override_keep(project_id, rule_key, base, reason, now);
    let id = CellV::Text(project_id);
    let key = CellV::Text(rule_key);
    assert(s.params =~= seq![CellV::Text(base), CellV::Text(reason), CellV::Text(now), id, key]);
    let u = after(t, s);
    assert forall|i: int| 0 <= i < t.overrides.len() implies if of_rule(
        #[trigger] t.overrides[i],
        id,
        key,
    ) {
        rebased(t.overrides[i], u.overrides[i], base, reason, now)
    } else {
        u.overrides[i] == t.overrides[i]
    } by {
        let row = t.overrides[i];
        assert(u.overrides[i] == kept(row, s.params));
        if of_rule(row, id, key) {
            let one = with_cell(row, "base_source_rule_hash"@, CellV::Text(base));
            lemma_three(
                one,
                "status"@,
                CellV::Text("active"@),
                "reason"@,
                CellV::Text(reason),
                "updated_at"@,
                CellV::Text(now),
            );
            lemma_rebased(row, u.overrides[i], base, reason, now);
        }
    }
}

/// Whether an override row is another one that was made active again for another source hash.
pub open spec fn rebased(
    before: RowV,
    after: RowV,
    base: Seq<char>,
    reason: Seq<char>,
    now: Seq<char>,
) -> bool {
    &&& replaced(before, after, "base_source_rule_hash"@, CellV::Text(base))
    &&& replaced(before, after, "status"@, CellV::Text("active"@))
    &&& replaced(before, after, "reason"@, CellV::Text(reason))
    &&& replaced(before, after, "updated_at"@, CellV::Text(now))
    &&& forall|name: Seq<char>|
        name != "base_source_rule_hash"@ && name != "status"@ && name != "reason"@ && name
            != "updated_at"@ ==> #[trigger] column(after, name) == column(before, name)
}

proof fn lemma_rebased(row: RowV, made: RowV, base: Seq<char>, reason: Seq<char>, now: Seq<char>)
    requires
        ({
            let one = with_cell(row, "base_source_rule_hash"@, CellV::Text(base));
            &&& replaced(one, made, "status"@, CellV::Text("active"@))
            &&& replaced(one, made, "reason"@, CellV::Text(reason))
            &&& replaced(one, made, "updated_at"@, CellV::Text(now))
            &&& forall|name: Seq<char>|
                name != "status"@ && name != "reason"@ && name != "updated_at"@ ==> #[trigger] column(
                    made,
                    name,
                ) == column(one, name)
        }),
    ensures
        rebased(row, made, base, reason, now),
{
    lemma_apart();
    let one = with_cell(row, "base_source_rule_hash"@, CellV::Text(base));
    let name = "base_source_rule_hash"@;
    assert forall|other: Seq<char>| #[trigger] column(one, other) == (if other == name && column(
        row,
        name,
    ) is Some {
        Some(CellV::Text(base))
    } else {
        column(row, other)
    }) by {
        lemma_with_cell(row, name, CellV::Text(base), other);
    }
    assert(column(made, name) == column(one, name));
    assert(column(one, "status"@) == column(row, "status"@));
    assert(column(one, "reason"@) == column(row, "reason"@));
    assert(column(one, "updated_at"@) == column(row, "updated_at"@));
}

/// Whether an override row is another one that was marked as in conflict.
pub open spec fn marked(before: RowV, after: RowV, now: Seq<char>) -> bool {
    &&& replaced(before, after, "status"@, CellV::Text("conflict"@))
    &&& replaced(before, after, "updated_at"@, CellV::Text(now))
    &&& forall|name: Seq<char>|
        name != "status"@ && name != "updated_at"@ ==> #[trigger] column(after, name) == column(
            before,
            name,
        )
}

proof fn lemma_marked(row: RowV, now: Seq<char>)
    ensures
        marked(
            row,
            with_cell(
                with_cell(row, "status"@, CellV::Text("conflict"@)),
                "updated_at"@,
                CellV::Text(now),
            ),
            now,
        ),
{
    lemma_apart();
    let one = with_cell(row, "status"@, CellV::Text("conflict"@));
    let made = with_cell(one, "updated_at"@, CellV::Text(now));
    assert forall|name: Seq<char>| #[trigger] column(made, name) == (if name == "updated_at"@
        && column(row, name) is Some {
        Some(CellV::Text(now))
    } else if name == "status"@ && column(row, name) is Some {
        Some(CellV::Text("conflict"@))
    } else {
        column(row, name)
    }) by {
        lemma_with_cell(row, "status"@, CellV::Text("conflict"@), name);
        lemma_with_cell(one, "updated_at"@, CellV::Text(now), name);
    }
    assert(column(made, "status"@) == column(made, "status"@));
    assert(column(made, "updated_at"@) == column(made, "updated_at"@));
}

proof fn lemma_entries(t: Tables, project_id: Seq<char>, keys: Seq<Seq<char>>, now: Seq<char>, n: nat)
    requires
        n <= keys.len(),
    ensures
        ({
            let u = after_all(t, Seq::new(n, |i: int| conflict_entry(project_id, keys[i], now)));
            &&& u == (Tables { audit: u.audit, ..t })
            &&& u.audit.len() == t.audit.len() + n
            &&& u.audit.take(t.audit.len() as int) == t.audit
            &&& forall|i: int|
                0 <= i < n ==> audit_row(
                    #[trigger] u.audit[t.audit.len() + i],
                    project_id,
                    CellV::Text(keys[i]),
                    "override.conflict"@,
                    "source rule changed"@,
                    JsonV::Object(Seq::empty()),
                    now,
                )
        }),
    decreases n,
{
    let list = Seq::new(n, |i: int| conflict_entry(project_id, keys[i], now));
    if n > 0 {
        let m = (n - 1) as nat;
        lemma_entries(t, project_id, keys, now, m);
        let front = Seq::new(m, |i: int| conflict_entry(project_id, keys[i], now));
        assert(list.drop_last() =~= front);
        let w = after_all(t, front);
        let u = after_all(t, list);
        an_audit_entry_is_added(
            w,
            project_id,
            keys[n - 1],
            "override.conflict"@,
            "source rule changed"@,
            JsonV::Object(Seq::empty()),
            now,
        );
        assert(u == after(w, list.last()));
        assert(u.audit.take(t.audit.len() as int) =~= w.audit.take(t.audit.len() as int)) by {
            assert(u.audit.drop_last() == w.audit);
            assert forall|i: int| 0 <= i < t.audit.len() implies u.audit[i] == w.audit[i] by {
                assert(u.audit.drop_last()[i] == u.audit[i]);
            }
        }
        assert forall|i: int| 0 <= i < n implies audit_row(
            #[trigger] u.audit[t.audit.len() + i],
            project_id,
            CellV::Text(keys[i]),
            "override.conflict"@,
            "source rule changed"@,
            JsonV::Object(Seq::empty()),
            now,
        ) by {
            if i < m {
                assert(u.audit.drop_last()[t.audit.len() + i] == u.audit[t.audit.len() + i]);
                assert(w.audit[t.audit.len() + i] == u.audit[t.audit.len() + i]);
            } else {
                assert(u.audit.last() == u.audit[t.audit.len() + i]);
            }
        }
    } else {
        assert(list =~= Seq::empty());
        assert(t.audit.take(t.audit.len() as int) =~= t.audit);
    }
}

/// Marking conflicts marks exactly the override rows of the project under the keys, and adds an
/// entry to the audit log for each key. Projects, rules and history stay as they are.
#[verifier::spinoff_prover]
#[verifier::rlimit(50)]
pub proof fn conflicts_are_marked(
    t: Tables,
    project_id: Seq<char>,
    keys: Seq<Seq<char>>,
    now: Seq<char>,
)
    requires
        keys.len() > 0,
    ensures
        ({
            let u = after_all(t, conflicts_marking(project_id, keys, now));
            &&& u == (Tables { overrides: u.overrides, audit: u.audit, ..t })
            &&& u.overrides.len() == t.overrides.len()
            &&& forall|i: int|
                0 <= i < t.overrides.len() ==> if of_project(
                    #[trigger] t.overrides[i],
                    CellV::Text(project_id),
                ) && (column(t.overrides[i], "rule_key"@) matches Some(CellV::Text(k))
                    && keys.contains(k)) {
                    marked(t.overrides[i], u.overrides[i], now)
                } else {
                    u.overrides[i] == t.overrides[i]
                }
            &&& u.audit.len() == t.audit.len() + keys.len()
            &&& u.audit.take(t.audit.len() as int) == t.audit
            &&& forall|i: int|
                0 <= i < keys.len() ==> audit_row(
                    #[trigger] u.audit[t.audit.len() + i],
                    project_id,
                    CellV::Text(keys[i]),
                    "override.conflict"@,
                    "source rule changed"@,
                    JsonV::Object(Seq::empty()),
                    now,
                )
        }),
{
    lemma_effects();
    let s = conflicts_update(project_id, keys, now);
    let id = CellV::Text(project_id);
    let entries = Seq::new(keys.len(), |i: int| conflict_entry(project_id, keys[i], now));
    lemma_after_both(t, seq![s], entries);
    let w = after(t, s);
    assert(seq![s].drop_last() =~= Seq::empty());
    assert(after_all(t, Seq::empty()) == t);
    assert(after_all(t, seq![s]) == w);
    lemma_entries(w, project_id, keys, now, keys.len());
    assert(s.params =~= seq![CellV::Text(now), id] + keys.map_values(
        |k: Seq<char>| CellV::Text(k),
    ));
    assert forall|i: int| 0 <= i < t.overrides.len() implies if of_project(
        #[trigger] t.overrides[i],
        id,
    ) && (column(t.overrides[i], "rule_key"@) matches Some(CellV::Text(k)) && keys.contains(k)) {
        marked(t.overrides[i], w.overrides[i], now)
    } else {
        w.overrides[i] == t.overrides[i]
    } by {
        let row = t.overrides[i];
        assert(w.overrides[i] == conflicting(row, s.params));
        lemma_marked(row, now);
        if exists|k: int| 2 <= k < s.params.len() && of_rule(row, id, #[trigger] s.params[k]) {
            let k = choose|k: int| 2 <= k < s.params.len() && of_rule(row, id, #[trigger] s.params[k]);
            assert(s.params[k] == CellV::Text(keys[k - 2]));
            assert(keys.contains(keys[k - 2]));
        } else if of_project(row, id) && (column(row, "rule_key"@) matches Some(CellV::Text(k))
            && keys.contains(k)) {
            let key = column(row, "rule_key"@)->0->Text_0;
            let k = keys.index_of(key);
            assert(s.params[k + 2] == CellV::Text(key));
            assert(of_rule(row, id, s.params[k + 2]));
        }
    }
}

// ---- projects ----

/// Whether a project row is another one with a new revision and description.
pub open spec fn renewed(
    before: RowV,
    after: RowV,
    revision: Seq<char>,
    description: JsonV,
    now: Seq<char>,
) -> bool {
    &&& replaced(before, after, "knowledge_revision"@, CellV::Text(revision))
    &&& replaced(before, after, "description_json"@, CellV::Text(canonical(description)))
    &&& replaced(before, after, "updated_at"@, CellV::Text(now))
    &&& forall|name: Seq<char>|
        name != "knowledge_revision"@ && name != "description_json"@ && name != "updated_at"@
            ==> #[trigger] column(after, name) == column(before, name)
}

/// Renewing the description of a project writes its revision and its description, and an entry of
/// the audit log that tells the revision; everything else stays as it is.
pub proof fn a_description_is_renewed(
    t: Tables,
    project_id: Seq<char>,
    revision: Seq<char>,
    description: JsonV,
    now: Seq<char>,
)
    ensures
        ({
            let u = after_all(t, description_writes(project_id, revision, description, now));
            let id = CellV::Text(project_id);
            &&& u == (Tables { projects: u.projects, audit: u.audit, ..t })
            &&& audited(
                t,
                u,
                project_id,
                CellV::Null,
                "description.update"@,
                "effective rules changed"@,
                JsonV::Object(seq![("knowledge_revision"@, JsonV::Text(revision))]),
                now,
            )
            &&& u.projects.len() == t.projects.len()
            &&& forall|i: int|
                0 <= i < t.projects.len() ==> if of_project(#[trigger] t.projects[i], id) {
                    renewed(t.projects[i], u.projects[i], revision, description, now)
                } else {
                    u.projects[i] == t.projects[i]
                }
        }),
{
    lemma_effects();
    lemma_apart();
    let s = description_update(project_id, revision, description, now);
    let change = crate::errors::detail("knowledge_revision"@, JsonV::Text(revision));
    assert(change->Object_0 =~= seq![("knowledge_revision"@, JsonV::Text(revision))]);
    let id = CellV::Text(project_id);
    let e = project_audit_insert(
        project_id,
        "description.update"@,
        "effective rules changed"@,
        change,
        now,
    );
    lemma_two(t, s, e);
    let w = after(t, s);
    an_audit_entry_is_added(
        w,
        project_id,
        Seq::empty(),
        "description.update"@,
        "effective rules changed"@,
        change,
        now,
    );
    assert(s.params =~= seq![
        CellV::Text(revision),
        CellV::Text(canonical(description)),
        CellV::Text(now),
        id,
    ]);
    assert forall|i: int| 0 <= i < t.projects.len() implies if of_project(
        #[trigger] t.projects[i],
        id,
    ) {
        renewed(t.projects[i], w.projects[i], revision, description, now)
    } else {
        w.projects[i] == t.projects[i]
    } by {
        assert(w.projects[i] == described(t.projects[i], s.params));
        lemma_three(
            t.projects[i],
            "knowledge_revision"@,
            CellV::Text(revision),
            "description_json"@,
            CellV::Text(canonical(description)),
            "updated_at"@,
            CellV::Text(now),
        );
    }
}

/// Whether a project row is another one with a new name, path and description.
pub open spec fn renamed(
    before: RowV,
    after: RowV,
    name: Seq<char>,
    path: Seq<char>,
    description: JsonV,
    now: Seq<char>,
) -> bool {
    &&& replaced(before, after, "project_name"@, CellV::Text(name))
    &&& replaced(before, after, "checklist_path"@, CellV::Text(path))
    &&& replaced(before, after, "description_json"@, CellV::Text(canonical(description)))
    &&& replaced(before, after, "updated_at"@, CellV::Text(now))
    &&& forall|other: Seq<char>|
        other != "project_name"@ && other != "checklist_path"@ && other != "description_json"@
            && other != "updated_at"@ ==> #[trigger] column(after, other) == column(before, other)
}

/// Bringing name and path of a project up to date writes these and the description; everything
/// else stays as it is.
pub proof fn a_project_is_renamed(
    t: Tables,
    project_id: Seq<char>,
    name: Seq<char>,
    path: Seq<char>,
    description: JsonV,
    now: Seq<char>,
)
    ensures
        ({
            let u = after(t, metadata_update(project_id, name, path, description, now));
            let id = CellV::Text(project_id);
            &&& u == (Tables { projects: u.projects, ..t })
            &&& u.projects.len() == t.projects.len()
            &&& forall|i: int|
                0 <= i < t.projects.len() ==> if of_project(#[trigger] t.projects[i], id) {
                    renamed(t.projects[i], u.projects[i], name, path, description, now)
                } else {
                    u.projects[i] == t.projects[i]
                }
        }),
{
    lemma_effects();
    lemma_apart();
    let s = metadata_update(project_id, name, path, description, now);
    let id = CellV::Text(project_id);
    assert(s.params =~= seq![
        CellV::Text(name),
        CellV::Text(path),
        CellV::Text(canonical(description)),
        CellV::Text(now),
        id,
    ]);
    let u = after(t, s);
    assert forall|i: int| 0 <= i < t.projects.len() implies if of_project(
        #[trigger] t.projects[i],
        id,
    ) {
        renamed(t.projects[i], u.projects[i], name, path, description, now)
    } else {
        u.projects[i] == t.projects[i]
    } by {
        let row = t.projects[i];
        assert(u.projects[i] == relabelled(row, s.params));
        let one = with_cell(row, "project_name"@, CellV::Text(name));
        lemma_three(
            one,
            "checklist_path"@,
            CellV::Text(path),
            "description_json"@,
            CellV::Text(canonical(description)),
            "updated_at"@,
            CellV::Text(now),
        );
        if of_project(row, id) {
            assert forall|other: Seq<char>| #[trigger] column(one, other) == (if other
                == "project_name"@ && column(row, other) is Some {
                Some(CellV::Text(name))
            } else {
                column(row, other)
            }) by {
                lemma_with_cell(row, "project_name"@, CellV::Text(name), other);
            }
            let made = u.projects[i];
            assert(column(made, "project_name"@) == column(one, "project_name"@));
            assert(column(one, "checklist_path"@) == column(row, "checklist_path"@));
            assert(column(one, "description_json"@) == column(row, "description_json"@));
            assert(column(one, "updated_at"@) == column(row, "updated_at"@));
        }
    }
}

/// Whether a project row is that of a checklist.
pub open spec fn keeps_project(
    row: RowV,
    project_id: Seq<char>,
    name: Seq<char>,
    path: Seq<char>,
    c: ChecklistV,
    revision: Seq<char>,
    description: JsonV,
    now: Seq<char>,
) -> bool {
    &&& column(row, "project_id"@) == Some(CellV::Text(project_id))
    &&& column(row, "project_name"@) == Some(CellV::Text(name))
    &&& column(row, "checklist_path"@) == Some(CellV::Text(path))
    &&& column(row, "schema_version"@) == Some(CellV::Integer(c.schema_version))
    &&& column(row, "checklist_version"@) == Some(CellV::Text(c.checklist_version))
    &&& column(row, "content_hash"@) == Some(CellV::Text(c.content_hash))
    &&& column(row, "knowledge_revision"@) == Some(CellV::Text(revision))
    &&& column(row, "description_json"@) == Some(CellV::Text(canonical(description)))
    &&& column(row, "updated_at"@) == Some(CellV::Text(now))
}

/// The cell of a text of the project before; null where there was none.
pub open spec fn old_cell(current: Option<JsonV>, name: Seq<char>) -> CellV {
    match current {
        Some(c) => match crate::json::text_field(c, name) {
            Some(t) => CellV::Text(t),
            None => CellV::Null,
        },
        None => CellV::Null,
    }
}

/// Whether a row of the history tells of a synchronisation.
pub open spec fn history_row(
    row: RowV,
    project_id: Seq<char>,
    action: Seq<char>,
    current: Option<JsonV>,
    c: ChecklistV,
    warnings: Seq<Seq<char>>,
    now: Seq<char>,
) -> bool {
    &&& column(row, "project_id"@) == Some(CellV::Text(project_id))
    &&& column(row, "action"@) == Some(CellV::Text(action))
    &&& column(row, "old_version"@) == Some(old_cell(current, "checklist_version"@))
    &&& column(row, "new_version"@) == Some(CellV::Text(c.checklist_version))
    &&& column(row, "old_hash"@) == Some(old_cell(current, "content_hash"@))
    &&& column(row, "new_hash"@) == Some(CellV::Text(c.content_hash))
    &&& column(row, "result"@) == Some(CellV::Text("success"@))
    &&& column(row, "warnings_json"@) == Some(CellV::Text(canonical(texts(warnings))))
    &&& column(row, "created_at"@) == Some(CellV::Text(now))
}

/// Replacing a project writes its row, its rules as the checklist has them, in order and without
/// anything that was there before, and one row of the history. Overrides and audit log stay.
#[verifier::spinoff_prover]
#[verifier::rlimit(50)]
pub proof fn a_replacement_is_written(
    t: Tables,
    current: Option<JsonV>,
    project_id: Seq<char>,
    name: Seq<char>,
    path: Seq<char>,
    c: ChecklistV,
    revision: Seq<char>,
    description: JsonV,
    action: Seq<char>,
    warnings: Seq<Seq<char>>,
    now: Seq<char>,
)
    requires
        c.rules.len() <= i64::MAX,
    ensures
        ({
            let u = after_all(
                t,
                replacement(
                    current,
                    project_id,
                    name,
                    path,
                    c,
                    revision,
                    description,
                    action,
                    warnings,
                    now,
                ),
            );
            let id = CellV::Text(project_id);
            &&& project_row(u.projects, id) matches Some(row) && keeps_project(
                row,
                project_id,
                name,
                path,
                c,
                revision,
                description,
                now,
            )
            &&& hold_rules(rows_of_project(u.rules, id), c.rules)
            &&& u.history.len() == t.history.len() + 1
            &&& u.history.drop_last() == t.history
            &&& history_row(u.history.last(), project_id, action, current, c, warnings, now)
            &&& u.overrides == t.overrides
            &&& u.audit == t.audit
        }),
{
    a_refresh_is_read_back(
        t,
        current,
        project_id,
        name,
        path,
        c,
        revision,
        description,
        action,
        warnings,
        now,
        project_id,
    );
    let columns = written_project_columns();
    assert(columns[0] == "project_id"@ && columns[1] == "project_name"@ && columns[2]
        == "checklist_path"@);
    assert(columns[3] == "schema_version"@ && columns[4] == "checklist_version"@ && columns[5]
        == "content_hash"@);
    assert(columns[6] == "knowledge_revision"@ && columns[7] == "description_json"@ && columns[9]
        == "updated_at"@);
    let list = replacement(
        current,
        project_id,
        name,
        path,
        c,
        revision,
        description,
        action,
        warnings,
        now,
    );
    let e = history_insert(
        project_id,
        action,
        known_text(current, "checklist_version"@),
        c.checklist_version,
        known_text(current, "content_hash"@),
        c.content_hash,
        warnings,
        now,
    );
    assert(list.last() == e);
    lemma_effects();
    let w = after_all(t, list.drop_last());
    let u = after_all(t, list);
    assert(u == after(w, e));
    lemma_history_row(project_id, action, current, c, warnings, now);
    assert(u.history.last() == row_of(
        written_history_columns(),
        e.params.insert(6, CellV::Text("success"@)),
    ));
    lemma_audit_stays(t, list);
}

proof fn lemma_history_row(
    project_id: Seq<char>,
    action: Seq<char>,
    current: Option<JsonV>,
    c: ChecklistV,
    warnings: Seq<Seq<char>>,
    now: Seq<char>,
)
    ensures
        ({
            let e = history_insert(
                project_id,
                action,
                known_text(current, "checklist_version"@),
                c.checklist_version,
                known_text(current, "content_hash"@),
                c.content_hash,
                warnings,
                now,
            );
            history_row(
                row_of(written_history_columns(), e.params.insert(6, CellV::Text("success"@))),
                project_id,
                action,
                current,
                c,
                warnings,
                now,
            )
        }),
{
    let columns = written_history_columns();
    let e = history_insert(
        project_id,
        action,
        known_text(current, "checklist_version"@),
        c.checklist_version,
        known_text(current, "content_hash"@),
        c.content_hash,
        warnings,
        now,
    );
    assert(e.params =~= seq![
        CellV::Text(project_id),
        CellV::Text(action),
        old_cell(current, "checklist_version"@),
        CellV::Text(c.checklist_version),
        old_cell(current, "content_hash"@),
        CellV::Text(c.content_hash),
        CellV::Text(canonical(texts(warnings))),
        CellV::Text(now),
    ]);
    let cells = e.params.insert(6, CellV::Text("success"@));
    lemma_other_names();
    lemma_row_of(columns, cells);
    assert(columns[0] == "project_id"@ && columns[1] == "action"@ && columns[2] == "old_version"@);
    assert(columns[3] == "new_version"@ && columns[4] == "old_hash"@ && columns[5] == "new_hash"@);
    assert(columns[6] == "result"@ && columns[7] == "warnings_json"@ && columns[8]
        == "created_at"@);
}

/// Statements that are no entries of the audit log leave it alone.
proof fn lemma_audit_stays(t: Tables, list: Seq<StatementV>)
    requires
        forall|i: int| 0 <= i < list.len() ==> !(effect_of((#[trigger] list[i]).sql) is Audit),
    ensures
        after_all(t, list).audit == t.audit,
    decreases list.len(),
{
    if list.len() > 0 {
        let front = list.drop_last();
        assert forall|i: int| 0 <= i < front.len() implies !(effect_of(
            (#[trigger] front[i]).sql,
        ) is Audit) by {
            assert(front[i] == list[i]);
        }
        lemma_audit_stays(t, front);
        assert(!(effect_of(list[list.len() - 1].sql) is Audit));
    }
}

} // verus!
