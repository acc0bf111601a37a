//! What operations leave in the tables: the effect of their statements on rows.

use vstd::prelude::*;

use crate::json::{Entries, JsonV};
use crate::models::{ChecklistV, RuleV};
use crate::protocol::{CellV, RowV, StatementV};
use crate::repository::{
    audit_insert, conflicts_update, description_update, history_insert, marks, metadata_update,
    override_disable, override_keep, override_upsert, project_audit_insert, project_upsert,
    rule_insert, rules_delete,
};
use crate::rows::column;
use crate::storage_laws::{
    distinct_columns, has_cells, written_override_columns, written_project_columns,
    written_rule_columns,
};
use crate::text::begins;

verus! {

/// What a statement does.
pub enum Effect {
    /// Writes a project row, in place of the one that there is.
    Project,
    /// Writes a rule row.
    Rule,
    /// Writes a row of the synchronisation history.
    History,
    /// Writes a row of the audit log.
    Audit,
    /// Writes an override row, in place of the one that there is.
    Override,
    /// Deletes the rules of a project.
    ClearRules,
    /// Renews the description and the revision of a project.
    Describe,
    /// Renews the name, the path and the description of a project.
    Rename,
    /// Disables an override.
    Disable,
    /// Lets an override count again, with another base.
    Keep,
    /// Marks overrides as in conflict.
    Conflict,
    /// Something that is not followed here.
    Other,
}

/// What a statement does, by how its text begins.
#[verifier::opaque]
pub open spec fn effect_of(sql: Seq<char>) -> Effect {
    if begins(sql, "INSERT INTO projects("@) {
        Effect::Project
    } else if begins(sql, "INSERT INTO rules("@) {
        Effect::Rule
    } else if begins(sql, "INSERT INTO sync_history("@) {
        Effect::History
    } else if begins(sql, "INSERT INTO audit_log("@) {
        Effect::Audit
    } else if begins(sql, "INSERT INTO rule_overrides("@) {
        Effect::Override
    } else if begins(sql, "DELETE FROM rules WHERE"@) {
        Effect::ClearRules
    } else if begins(sql, "UPDATE projects SET knowledge_revision"@) {
        Effect::Describe
    } else if begins(sql, "UPDATE projects SET project_name"@) {
        Effect::Rename
    } else if begins(sql, "UPDATE rule_overrides SET status = 'disabled'"@) {
        Effect::Disable
    } else if begins(sql, "UPDATE rule_overrides SET base_source_rule_hash"@) {
        Effect::Keep
    } else if begins(sql, "UPDATE rule_overrides SET status = 'conflict'"@) {
        Effect::Conflict
    } else {
        Effect::Other
    }
}

// ---- effects ----

proof fn lemma_unlike(s: Seq<char>, p: Seq<char>, k: int)
    requires
        0 <= k < p.len(),
        k < s.len(),
        s[k] != p[k],
    ensures
        !begins(s, p),
{
    if begins(s, p) {
        assert(s.take(p.len() as int)[k] == p[k]);
    }
}

proof fn lemma_project_upsert_text()
    ensures
        effect_of(
            "INSERT INTO projects(project_id, project_name, checklist_path, schema_version, checklist_version, content_hash, knowledge_revision, description_json, created_at, updated_at) VALUES (?, ?, ?, ?, ?, ?, ?, ?, ?, ?) ON CONFLICT(project_id) DO UPDATE SET project_name=excluded.project_name, checklist_path=excluded.checklist_path, schema_version=excluded.schema_version, checklist_version=excluded.checklist_version, content_hash=excluded.content_hash, knowledge_revision=excluded.knowledge_revision, description_json=excluded.description_json, updated_at=excluded.updated_at"@,
        ) is Project,
{
    reveal(effect_of);
    reveal_strlit(
        "INSERT INTO projects(project_id, project_name, checklist_path, schema_version, checklist_version, content_hash, knowledge_revision, description_json, created_at, updated_at) VALUES (?, ?, ?, ?, ?, ?, ?, ?, ?, ?) ON CONFLICT(project_id) DO UPDATE SET project_name=excluded.project_name, checklist_path=excluded.checklist_path, schema_version=excluded.schema_version, checklist_version=excluded.checklist_version, content_hash=excluded.content_hash, knowledge_revision=excluded.knowledge_revision, description_json=excluded.description_json, updated_at=excluded.updated_at",
    );
    let s =
        "INSERT INTO projects(project_id, project_name, checklist_path, schema_version, checklist_version, content_hash, knowledge_revision, description_json, created_at, updated_at) VALUES (?, ?, ?, ?, ?, ?, ?, ?, ?, ?) ON CONFLICT(project_id) DO UPDATE SET project_name=excluded.project_name, checklist_path=excluded.checklist_path, schema_version=excluded.schema_version, checklist_version=excluded.checklist_version, content_hash=excluded.content_hash, knowledge_revision=excluded.knowledge_revision, description_json=excluded.description_json, updated_at=excluded.updated_at"@;
    reveal_strlit("INSERT INTO projects(");
    assert(s.take("INSERT INTO projects("@.len() as int) =~= "INSERT INTO projects("@);
}

proof fn lemma_rule_insert_text()
    ensures
        effect_of(
            "INSERT INTO rules(project_id, rule_key, ordinal, summary, content, tags_json, paths_json, languages_json, source_rule_hash) VALUES (?, ?, ?, ?, ?, ?, ?, ?, ?)"@,
        ) is Rule,
{
    reveal(effect_of);
    reveal_strlit(
        "INSERT INTO rules(project_id, rule_key, ordinal, summary, content, tags_json, paths_json, languages_json, source_rule_hash) VALUES (?, ?, ?, ?, ?, ?, ?, ?, ?)",
    );
    let s =
        "INSERT INTO rules(project_id, rule_key, ordinal, summary, content, tags_json, paths_json, languages_json, source_rule_hash) VALUES (?, ?, ?, ?, ?, ?, ?, ?, ?)"@;
    reveal_strlit("INSERT INTO projects(");
    lemma_unlike(s, "INSERT INTO projects("@, 12);
    reveal_strlit("INSERT INTO rules(");
    assert(s.take("INSERT INTO rules("@.len() as int) =~= "INSERT INTO rules("@);
}

proof fn lemma_history_insert_text()
    ensures
        effect_of(
            "INSERT INTO sync_history(project_id, action, old_version, new_version, old_hash, new_hash, result, warnings_json, created_at) VALUES (?, ?, ?, ?, ?, ?, 'success', ?, ?)"@,
        ) is History,
{
    reveal(effect_of);
    reveal_strlit(
        "INSERT INTO sync_history(project_id, action, old_version, new_version, old_hash, new_hash, result, warnings_json, created_at) VALUES (?, ?, ?, ?, ?, ?, 'success', ?, ?)",
    );
    let s =
        "INSERT INTO sync_history(project_id, action, old_version, new_version, old_hash, new_hash, result, warnings_json, created_at) VALUES (?, ?, ?, ?, ?, ?, 'success', ?, ?)"@;
    reveal_strlit("INSERT INTO projects(");
    lemma_unlike(s, "INSERT INTO projects("@, 12);
    reveal_strlit("INSERT INTO rules(");
    lemma_unlike(s, "INSERT INTO rules("@, 12);
    reveal_strlit("INSERT INTO sync_history(");
    assert(s.take("INSERT INTO sync_history("@.len() as int) =~= "INSERT INTO sync_history("@);
}

proof fn lemma_audit_insert_text()
    ensures
        effect_of(
            "INSERT INTO audit_log(project_id, rule_key, action, reason, change_json, created_at) VALUES (?, ?, ?, ?, ?, ?)"@,
        ) is Audit,
{
    reveal(effect_of);
    reveal_strlit(
        "INSERT INTO audit_log(project_id, rule_key, action, reason, change_json, created_at) VALUES (?, ?, ?, ?, ?, ?)",
    );
    let s =
        "INSERT INTO audit_log(project_id, rule_key, action, reason, change_json, created_at) VALUES (?, ?, ?, ?, ?, ?)"@;
    reveal_strlit("INSERT INTO projects(");
    lemma_unlike(s, "INSERT INTO projects("@, 12);
    reveal_strlit("INSERT INTO rules(");
    lemma_unlike(s, "INSERT INTO rules("@, 12);
    reveal_strlit("INSERT INTO sync_history(");
    lemma_unlike(s, "INSERT INTO sync_history("@, 12);
    reveal_strlit("INSERT INTO audit_log(");
    assert(s.take("INSERT INTO audit_log("@.len() as int) =~= "INSERT INTO audit_log("@);
}

proof fn lemma_override_upsert_text()
    ensures
        effect_of(
            "INSERT INTO rule_overrides(project_id, rule_key, summary, content, tags_json, paths_json, languages_json, base_source_rule_hash, status, reason, created_at, updated_at) VALUES (?, ?, ?, ?, ?, ?, ?, ?, 'active', ?, ?, ?) ON CONFLICT(project_id, rule_key) DO UPDATE SET summary=excluded.summary, content=excluded.content, tags_json=excluded.tags_json, paths_json=excluded.paths_json, languages_json=excluded.languages_json, base_source_rule_hash=excluded.base_source_rule_hash, status='active', reason=excluded.reason, updated_at=excluded.updated_at"@,
        ) is Override,
{
    reveal(effect_of);
    reveal_strlit(
        "INSERT INTO rule_overrides(project_id, rule_key, summary, content, tags_json, paths_json, languages_json, base_source_rule_hash, status, reason, created_at, updated_at) VALUES (?, ?, ?, ?, ?, ?, ?, ?, 'active', ?, ?, ?) ON CONFLICT(project_id, rule_key) DO UPDATE SET summary=excluded.summary, content=excluded.content, tags_json=excluded.tags_json, paths_json=excluded.paths_json, languages_json=excluded.languages_json, base_source_rule_hash=excluded.base_source_rule_hash, status='active', reason=excluded.reason, updated_at=excluded.updated_at",
    );
    let s =
        "INSERT INTO rule_overrides(project_id, rule_key, summary, content, tags_json, paths_json, languages_json, base_source_rule_hash, status, reason, created_at, updated_at) VALUES (?, ?, ?, ?, ?, ?, ?, ?, 'active', ?, ?, ?) ON CONFLICT(project_id, rule_key) DO UPDATE SET summary=excluded.summary, content=excluded.content, tags_json=excluded.tags_json, paths_json=excluded.paths_json, languages_json=excluded.languages_json, base_source_rule_hash=excluded.base_source_rule_hash, status='active', reason=excluded.reason, updated_at=excluded.updated_at"@;
    reveal_strlit("INSERT INTO projects(");
    lemma_unlike(s, "INSERT INTO projects("@, 12);
    reveal_strlit("INSERT INTO rules(");
    lemma_unlike(s, "INSERT INTO rules("@, 16);
    reveal_strlit("INSERT INTO sync_history(");
    lemma_unlike(s, "INSERT INTO sync_history("@, 12);
    reveal_strlit("INSERT INTO audit_log(");
    lemma_unlike(s, "INSERT INTO audit_log("@, 12);
    reveal_strlit("INSERT INTO rule_overrides(");
    assert(s.take("INSERT INTO rule_overrides("@.len() as int) =~= "INSERT INTO rule_overrides("@);
}

proof fn lemma_rules_delete_text()
    ensures
        effect_of(
            "DELETE FROM rules WHERE project_id = ?"@,
        ) is ClearRules,
{
    reveal(effect_of);
    reveal_strlit(
        "DELETE FROM rules WHERE project_id = ?",
    );
    let s =
        "DELETE FROM rules WHERE project_id = ?"@;
    reveal_strlit("INSERT INTO projects(");
    lemma_unlike(s, "INSERT INTO projects("@, 0);
    reveal_strlit("INSERT INTO rules(");
    lemma_unlike(s, "INSERT INTO rules("@, 0);
    reveal_strlit("INSERT INTO sync_history(");
    lemma_unlike(s, "INSERT INTO sync_history("@, 0);
    reveal_strlit("INSERT INTO audit_log(");
    lemma_unlike(s, "INSERT INTO audit_log("@, 0);
    reveal_strlit("INSERT INTO rule_overrides(");
    lemma_unlike(s, "INSERT INTO rule_overrides("@, 0);
    reveal_strlit("DELETE FROM rules WHERE");
    assert(s.take("DELETE FROM rules WHERE"@.len() as int) =~= "DELETE FROM rules WHERE"@);
}

proof fn lemma_description_update_text()
    ensures
        effect_of(
            "UPDATE projects SET knowledge_revision = ?, description_json = ?, updated_at = ? WHERE project_id = ?"@,
        ) is Describe,
{
    reveal(effect_of);
    reveal_strlit(
        "UPDATE projects SET knowledge_revision = ?, description_json = ?, updated_at = ? WHERE project_id = ?",
    );
    let s =
        "UPDATE projects SET knowledge_revision = ?, description_json = ?, updated_at = ? WHERE project_id = ?"@;
    reveal_strlit("INSERT INTO projects(");
    lemma_unlike(s, "INSERT INTO projects("@, 0);
    reveal_strlit("INSERT INTO rules(");
    lemma_unlike(s, "INSERT INTO rules("@, 0);
    reveal_strlit("INSERT INTO sync_history(");
    lemma_unlike(s, "INSERT INTO sync_history("@, 0);
    reveal_strlit("INSERT INTO audit_log(");
    lemma_unlike(s, "INSERT INTO audit_log("@, 0);
    reveal_strlit("INSERT INTO rule_overrides(");
    lemma_unlike(s, "INSERT INTO rule_overrides("@, 0);
    reveal_strlit("DELETE FROM rules WHERE");
    lemma_unlike(s, "DELETE FROM rules WHERE"@, 0);
    reveal_strlit("UPDATE projects SET knowledge_revision");
    assert(s.take("UPDATE projects SET knowledge_revision"@.len() as int) =~= "UPDATE projects SET knowledge_revision"@);
}

proof fn lemma_metadata_update_text()
    ensures
        effect_of(
            "UPDATE projects SET project_name = ?, checklist_path = ?, description_json = ?, updated_at = ? WHERE project_id = ?"@,
        ) is Rename,
{
    reveal(effect_of);
    reveal_strlit(
        "UPDATE projects SET project_name = ?, checklist_path = ?, description_json = ?, updated_at = ? WHERE project_id = ?",
    );
    let s =
        "UPDATE projects SET project_name = ?, checklist_path = ?, description_json = ?, updated_at = ? WHERE project_id = ?"@;
    reveal_strlit("INSERT INTO projects(");
    lemma_unlike(s, "INSERT INTO projects("@, 0);
    reveal_strlit("INSERT INTO rules(");
    lemma_unlike(s, "INSERT INTO rules("@, 0);
    reveal_strlit("INSERT INTO sync_history(");
    lemma_unlike(s, "INSERT INTO sync_history("@, 0);
    reveal_strlit("INSERT INTO audit_log(");
    lemma_unlike(s, "INSERT INTO audit_log("@, 0);
    reveal_strlit("INSERT INTO rule_overrides(");
    lemma_unlike(s, "INSERT INTO rule_overrides("@, 0);
    reveal_strlit("DELETE FROM rules WHERE");
    lemma_unlike(s, "DELETE FROM rules WHERE"@, 0);
    reveal_strlit("UPDATE projects SET knowledge_revision");
    lemma_unlike(s, "UPDATE projects SET knowledge_revision"@, 20);
    reveal_strlit("UPDATE projects SET project_name");
    assert(s.take("UPDATE projects SET project_name"@.len() as int) =~= "UPDATE projects SET project_name"@);
}

proof fn lemma_override_disable_text()
    ensures
        effect_of(
            "UPDATE rule_overrides SET status = 'disabled', reason = ?, updated_at = ? WHERE project_id = ? AND rule_key = ?"@,
        ) is Disable,
{
    reveal(effect_of);
    reveal_strlit(
        "UPDATE rule_overrides SET status = 'disabled', reason = ?, updated_at = ? WHERE project_id = ? AND rule_key = ?",
    );
    let s =
        "UPDATE rule_overrides SET status = 'disabled', reason = ?, updated_at = ? WHERE project_id = ? AND rule_key = ?"@;
    reveal_strlit("INSERT INTO projects(");
    lemma_unlike(s, "INSERT INTO projects("@, 0);
    reveal_strlit("INSERT INTO rules(");
    lemma_unlike(s, "INSERT INTO rules("@, 0);
    reveal_strlit("INSERT INTO sync_history(");
    lemma_unlike(s, "INSERT INTO sync_history("@, 0);
    reveal_strlit("INSERT INTO audit_log(");
    lemma_unlike(s, "INSERT INTO audit_log("@, 0);
    reveal_strlit("INSERT INTO rule_overrides(");
    lemma_unlike(s, "INSERT INTO rule_overrides("@, 0);
    reveal_strlit("DELETE FROM rules WHERE");
    lemma_unlike(s, "DELETE FROM rules WHERE"@, 0);
    reveal_strlit("UPDATE projects SET knowledge_revision");
    lemma_unlike(s, "UPDATE projects SET knowledge_revision"@, 7);
    reveal_strlit("UPDATE projects SET project_name");
    lemma_unlike(s, "UPDATE projects SET project_name"@, 7);
    reveal_strlit("UPDATE rule_overrides SET status = 'disabled'");
    assert(s.take("UPDATE rule_overrides SET status = 'disabled'"@.len() as int) =~= "UPDATE rule_overrides SET status = 'disabled'"@);
}

proof fn lemma_override_keep_text()
    ensures
        effect_of(
            "UPDATE rule_overrides SET base_source_rule_hash = ?, status = 'active', reason = ?, updated_at = ? WHERE project_id = ? AND rule_key = ?"@,
        ) is Keep,
{
    reveal(effect_of);
    reveal_strlit(
        "UPDATE rule_overrides SET base_source_rule_hash = ?, status = 'active', reason = ?, updated_at = ? WHERE project_id = ? AND rule_key = ?",
    );
    let s =
        "UPDATE rule_overrides SET base_source_rule_hash = ?, status = 'active', reason = ?, updated_at = ? WHERE project_id = ? AND rule_key = ?"@;
    reveal_strlit("INSERT INTO projects(");
    lemma_unlike(s, "INSERT INTO projects("@, 0);
    reveal_strlit("INSERT INTO rules(");
    lemma_unlike(s, "INSERT INTO rules("@, 0);
    reveal_strlit("INSERT INTO sync_history(");
    lemma_unlike(s, "INSERT INTO sync_history("@, 0);
    reveal_strlit("INSERT INTO audit_log(");
    lemma_unlike(s, "INSERT INTO audit_log("@, 0);
    reveal_strlit("INSERT INTO rule_overrides(");
    lemma_unlike(s, "INSERT INTO rule_overrides("@, 0);
    reveal_strlit("DELETE FROM rules WHERE");
    lemma_unlike(s, "DELETE FROM rules WHERE"@, 0);
    reveal_strlit("UPDATE projects SET knowledge_revision");
    lemma_unlike(s, "UPDATE projects SET knowledge_revision"@, 7);
    reveal_strlit("UPDATE projects SET project_name");
    lemma_unlike(s, "UPDATE projects SET project_name"@, 7);
    reveal_strlit("UPDATE rule_overrides SET status = 'disabled'");
    lemma_unlike(s, "UPDATE rule_overrides SET status = 'disabled'"@, 26);
    reveal_strlit("UPDATE rule_overrides SET base_source_rule_hash");
    assert(s.take("UPDATE rule_overrides SET base_source_rule_hash"@.len() as int)
        =~= "UPDATE rule_overrides SET base_source_rule_hash"@);
}

proof fn lemma_conflicts_update_text(rest: Seq<char>)
    ensures
        effect_of(
            "UPDATE rule_overrides SET status = 'conflict', updated_at = ? WHERE project_id = ? AND rule_key IN ("@
                + rest,
        ) is Conflict,
{
    reveal(effect_of);
    reveal_strlit(
        "UPDATE rule_overrides SET status = 'conflict', updated_at = ? WHERE project_id = ? AND rule_key IN (",
    );
    let s =
        "UPDATE rule_overrides SET status = 'conflict', updated_at = ? WHERE project_id = ? AND rule_key IN ("@
        + rest;
    reveal_strlit("INSERT INTO projects(");
    lemma_unlike(s, "INSERT INTO projects("@, 0);
    reveal_strlit("INSERT INTO rules(");
    lemma_unlike(s, "INSERT INTO rules("@, 0);
    reveal_strlit("INSERT INTO sync_history(");
    lemma_unlike(s, "INSERT INTO sync_history("@, 0);
    reveal_strlit("INSERT INTO audit_log(");
    lemma_unlike(s, "INSERT INTO audit_log("@, 0);
    reveal_strlit("INSERT INTO rule_overrides(");
    lemma_unlike(s, "INSERT INTO rule_overrides("@, 0);
    reveal_strlit("DELETE FROM rules WHERE");
    lemma_unlike(s, "DELETE FROM rules WHERE"@, 0);
    reveal_strlit("UPDATE projects SET knowledge_revision");
    lemma_unlike(s, "UPDATE projects SET knowledge_revision"@, 7);
    reveal_strlit("UPDATE projects SET project_name");
    lemma_unlike(s, "UPDATE projects SET project_name"@, 7);
    reveal_strlit("UPDATE rule_overrides SET status = 'disabled'");
    lemma_unlike(s, "UPDATE rule_overrides SET status = 'disabled'"@, 36);
    reveal_strlit("UPDATE rule_overrides SET base_source_rule_hash");
    lemma_unlike(s, "UPDATE rule_overrides SET base_source_rule_hash"@, 26);
    reveal_strlit("UPDATE rule_overrides SET status = 'conflict'");
    assert(s.take("UPDATE rule_overrides SET status = 'conflict'"@.len() as int)
        =~= "UPDATE rule_overrides SET status = 'conflict'"@);
}

/// The effects of the statements.
pub proof fn lemma_effects()
    ensures
        forall|a: Seq<char>, b: Seq<char>, c: Seq<char>, d: ChecklistV, e: Seq<char>, f: JsonV, g: Seq<char>|
            effect_of(#[trigger] project_upsert(a, b, c, d, e, f, g).sql) is Project,
        forall|a: Seq<char>, b: RuleV, c: int|
            effect_of(#[trigger] rule_insert(a, b, c).sql) is Rule,
        forall|
            a: Seq<char>,
            b: Seq<char>,
            c: Option<Seq<char>>,
            d: Seq<char>,
            e: Option<Seq<char>>,
            f: Seq<char>,
            g: Seq<Seq<char>>,
            h: Seq<char>,
        |
            effect_of(#[trigger] history_insert(a, b, c, d, e, f, g, h).sql) is History,
        forall|a: Seq<char>, b: Seq<char>, c: Seq<char>, d: Seq<char>, e: JsonV, f: Seq<char>|
            effect_of(#[trigger] audit_insert(a, b, c, d, e, f).sql) is Audit,
        forall|a: Seq<char>, b: Seq<char>, c: Seq<char>, d: JsonV, e: Seq<char>|
            effect_of(#[trigger] project_audit_insert(a, b, c, d, e).sql) is Audit,
        forall|a: Seq<char>, b: Seq<char>, c: Entries, d: Seq<char>, e: Seq<char>, f: Seq<char>|
            effect_of(#[trigger] override_upsert(a, b, c, d, e, f).sql) is Override,
        forall|a: Seq<char>| effect_of(#[trigger] rules_delete(a).sql) is ClearRules,
        forall|a: Seq<char>, b: Seq<char>, c: JsonV, d: Seq<char>|
            effect_of(#[trigger] description_update(a, b, c, d).sql) is Describe,
        forall|a: Seq<char>, b: Seq<char>, c: Seq<char>, d: JsonV, e: Seq<char>|
            effect_of(#[trigger] metadata_update(a, b, c, d, e).sql) is Rename,
        forall|a: Seq<char>, b: Seq<char>, c: Seq<char>, d: Seq<char>|
            effect_of(#[trigger] override_disable(a, b, c, d).sql) is Disable,
        forall|a: Seq<char>, b: Seq<char>, c: Seq<char>, d: Seq<char>, e: Seq<char>|
            effect_of(#[trigger] override_keep(a, b, c, d, e).sql) is Keep,
        forall|a: Seq<char>, b: Seq<Seq<char>>, c: Seq<char>|
            effect_of(#[trigger] conflicts_update(a, b, c).sql) is Conflict,
{
    lemma_project_upsert_text();
    lemma_rule_insert_text();
    lemma_history_insert_text();
    lemma_audit_insert_text();
    lemma_override_upsert_text();
    lemma_rules_delete_text();
    lemma_description_update_text();
    lemma_metadata_update_text();
    lemma_override_disable_text();
    lemma_override_keep_text();
    assert forall|a: Seq<char>, b: Seq<Seq<char>>, c: Seq<char>| effect_of(
        #[trigger] conflicts_update(a, b, c).sql,
    ) is Conflict by {
        let head =
            "UPDATE rule_overrides SET status = 'conflict', updated_at = ? WHERE project_id = ? AND rule_key IN ("@;
        lemma_conflicts_update_text(marks(b.len()) + ")"@);
        assert(head + marks(b.len()) + ")"@ =~= head + (marks(b.len()) + ")"@));
    }
}

// ---- tables ----

/// The tables that the operations write, with the columns that their statements name.
#[verifier::ext_equal]
pub struct Tables {
    pub projects: Seq<RowV>,
    pub rules: Seq<RowV>,
    pub overrides: Seq<RowV>,
    pub history: Seq<RowV>,
    pub audit: Seq<RowV>,
}

/// The row with `cells` in `columns`.
pub open spec fn row_of(columns: Seq<Seq<char>>, cells: Seq<CellV>) -> RowV {
    Seq::new(columns.len(), |i: int| (columns[i], cells[i]))
}

/// A row with another cell in a column.
pub open spec fn with_cell(row: RowV, name: Seq<char>, cell: CellV) -> RowV {
    row.map_values(
        |e: (Seq<char>, CellV)|
            if e.0 == name {
                (name, cell)
            } else {
                e
            },
    )
}

/// Whether a row is about a project.
pub open spec fn of_project(row: RowV, project_id: CellV) -> bool {
    column(row, "project_id"@) == Some(project_id)
}

/// Whether a row is about a rule of a project.
pub open spec fn of_rule(row: RowV, project_id: CellV, rule_key: CellV) -> bool {
    of_project(row, project_id) && column(row, "rule_key"@) == Some(rule_key)
}

/// Where the row of a project stands; the number of rows where there is none.
pub open spec fn project_at(rows: Seq<RowV>, project_id: CellV) -> int
    decreases rows.len(),
{
    if rows.len() == 0 || of_project(rows[0], project_id) {
        0
    } else {
        1 + project_at(rows.drop_first(), project_id)
    }
}

/// The row of a project.
pub open spec fn project_row(rows: Seq<RowV>, project_id: CellV) -> Option<RowV> {
    let at = project_at(rows, project_id);
    if at < rows.len() {
        Some(rows[at])
    } else {
        None
    }
}

/// The rows that are about a project, in order.
pub open spec fn rows_of_project(rows: Seq<RowV>, project_id: CellV) -> Seq<RowV> {
    rows.filter(|r: RowV| of_project(r, project_id))
}

/// Project rows with `row` in place of the one that there is; that one's time of creation stays.
pub open spec fn project_written(rows: Seq<RowV>, row: RowV, project_id: CellV) -> Seq<RowV> {
    let at = project_at(rows, project_id);
    if at < rows.len() {
        rows.update(
            at,
            match column(rows[at], "created_at"@) {
                Some(c) => with_cell(row, "created_at"@, c),
                None => row,
            },
        )
    } else {
        rows.push(row)
    }
}

/// The columns of a history row, in the order in which it is written.
pub open spec fn written_history_columns() -> Seq<Seq<char>> {
    seq![
        "project_id"@,
        "action"@,
        "old_version"@,
        "new_version"@,
        "old_hash"@,
        "new_hash"@,
        "result"@,
        "warnings_json"@,
        "created_at"@,
    ]
}

/// The columns of an audit row, in the order in which it is written.
pub open spec fn written_audit_columns() -> Seq<Seq<char>> {
    seq![
        "project_id"@,
        "rule_key"@,
        "action"@,
        "reason"@,
        "change_json"@,
        "created_at"@,
    ]
}

/// Where the override of a rule stands; the number of rows where there is none.
pub open spec fn override_at(rows: Seq<RowV>, project_id: CellV, rule_key: CellV) -> int
    decreases rows.len(),
{
    if rows.len() == 0 || of_rule(rows[0], project_id, rule_key) {
        0
    } else {
        1 + override_at(rows.drop_first(), project_id, rule_key)
    }
}

/// Override rows with a new one, in place of the one that there is; that one's time of creation
/// stays.
pub open spec fn override_written(rows: Seq<RowV>, params: Seq<CellV>) -> Seq<RowV> {
    let row = row_of(
        written_override_columns(),
        params.insert(8, CellV::Text("active"@)),
    );
    let at = override_at(rows, params[0], params[1]);
    if at < rows.len() {
        rows.update(
            at,
            match column(rows[at], "created_at"@) {
                Some(c) => with_cell(row, "created_at"@, c),
                None => row,
            },
        )
    } else {
        rows.push(row)
    }
}

/// The project row with another description and revision, where it is about the project.
pub open spec fn described(row: RowV, params: Seq<CellV>) -> RowV {
    if of_project(row, params[3]) {
        with_cell(
            with_cell(
                with_cell(row, "knowledge_revision"@, params[0]),
                "description_json"@,
                params[1],
            ),
            "updated_at"@,
            params[2],
        )
    } else {
        row
    }
}

/// The project row with another name, path and description, where it is about the project.
pub open spec fn relabelled(row: RowV, params: Seq<CellV>) -> RowV {
    if of_project(row, params[4]) {
        with_cell(
            with_cell(
                with_cell(
                    with_cell(row, "project_name"@, params[0]),
                    "checklist_path"@,
                    params[1],
                ),
                "description_json"@,
                params[2],
            ),
            "updated_at"@,
            params[3],
        )
    } else {
        row
    }
}

/// The override row, disabled where it is about the rule.
pub open spec fn disabled(row: RowV, params: Seq<CellV>) -> RowV {
    if of_rule(row, params[2], params[3]) {
        with_cell(
            with_cell(
                with_cell(row, "status"@, CellV::Text("disabled"@)),
                "reason"@,
                params[0],
            ),
            "updated_at"@,
            params[1],
        )
    } else {
        row
    }
}

/// The override row, counting again with another base where it is about the rule.
pub open spec fn kept(row: RowV, params: Seq<CellV>) -> RowV {
    if of_rule(row, params[3], params[4]) {
        with_cell(
            with_cell(
                with_cell(
                    with_cell(row, "base_source_rule_hash"@, params[0]),
                    "status"@,
                    CellV::Text("active"@),
                ),
                "reason"@,
                params[1],
            ),
            "updated_at"@,
            params[2],
        )
    } else {
        row
    }
}

/// The override row, marked as in conflict where it is about one of the rules.
pub open spec fn conflicting(row: RowV, params: Seq<CellV>) -> RowV {
    if exists|k: int| 2 <= k < params.len() && of_rule(row, params[1], #[trigger] params[k]) {
        with_cell(
            with_cell(row, "status"@, CellV::Text("conflict"@)),
            "updated_at"@,
            params[0],
        )
    } else {
        row
    }
}

/// The tables after a statement.
pub open spec fn after(t: Tables, s: StatementV) -> Tables {
    match effect_of(s.sql) {
        Effect::Project => Tables {
            projects: project_written(
                t.projects,
                row_of(written_project_columns(), s.params),
                s.params[0],
            ),
            ..t
        },
        Effect::Rule => Tables {
            rules: t.rules.push(row_of(written_rule_columns(), s.params)),
            ..t
        },
        Effect::History => Tables {
            history: t.history.push(
                row_of(
                    written_history_columns(),
                    s.params.insert(6, CellV::Text("success"@)),
                ),
            ),
            ..t
        },
        Effect::Audit => Tables {
            audit: t.audit.push(row_of(written_audit_columns(), s.params)),
            ..t
        },
        Effect::Override => Tables {
            overrides: override_written(t.overrides, s.params),
            ..t
        },
        Effect::ClearRules => Tables {
            rules: t.rules.filter(|r: RowV| !of_project(r, s.params[0])),
            ..t
        },
        Effect::Describe => Tables {
            projects: t.projects.map_values(|r: RowV| described(r, s.params)),
            ..t
        },
        Effect::Rename => Tables {
            projects: t.projects.map_values(|r: RowV| relabelled(r, s.params)),
            ..t
        },
        Effect::Disable => Tables {
            overrides: t.overrides.map_values(|r: RowV| disabled(r, s.params)),
            ..t
        },
        Effect::Keep => Tables {
            overrides: t.overrides.map_values(|r: RowV| kept(r, s.params)),
            ..t
        },
        Effect::Conflict => Tables {
            overrides: t.overrides.map_values(|r: RowV| conflicting(r, s.params)),
            ..t
        },
        Effect::Other => t,
    }
}

/// The tables after the statements of a transaction.
pub open spec fn after_all(t: Tables, list: Seq<StatementV>) -> Tables
    decreases list.len(),
{
    if list.len() == 0 {
        t
    } else {
        after(after_all(t, list.drop_last()), list.last())
    }
}

pub proof fn lemma_after_both(t: Tables, a: Seq<StatementV>, b: Seq<StatementV>)
    ensures
        after_all(t, a + b) == after_all(after_all(t, a), b),
    decreases b.len(),
{
    if b.len() == 0 {
        assert(a + b =~= a);
    } else {
        lemma_after_both(t, a, b.drop_last());
        assert((a + b).drop_last() =~= a + b.drop_last());
    }
}

/// What a column holds after a cell of a row was replaced.
pub proof fn lemma_with_cell(row: RowV, name: Seq<char>, cell: CellV, other: Seq<char>)
    ensures
        column(with_cell(row, name, cell), other) == (if other == name && column(row, name) is Some {
            Some(cell)
        } else {
            column(row, other)
        }),
    decreases row.len(),
{
    if row.len() > 0 {
        lemma_with_cell(row.drop_first(), name, cell, other);
        assert(with_cell(row, name, cell).drop_first() =~= with_cell(row.drop_first(), name, cell));
    }
}

/// A row holds its cells under its columns.
pub proof fn lemma_row_of(columns: Seq<Seq<char>>, cells: Seq<CellV>)
    requires
        columns.no_duplicates(),
        columns.len() == cells.len(),
    ensures
        has_cells(row_of(columns, cells), columns, cells),
        distinct_columns(row_of(columns, cells)),
    decreases columns.len(),
{
    let row = row_of(columns, cells);
    assert forall|i: int| 0 <= i < columns.len() implies column(row, #[trigger] columns[i]) == Some(
        cells[i],
    ) by {
        lemma_row_cell(columns, cells, i);
    }
    assert forall|i: int, j: int| 0 <= i < j < row.len() implies (#[trigger] row[i]).0 != (
    #[trigger] row[j]).0 by {
        assert(columns[i] != columns[j]);
    }
}

proof fn lemma_row_cell(columns: Seq<Seq<char>>, cells: Seq<CellV>, i: int)
    requires
        columns.no_duplicates(),
        columns.len() == cells.len(),
        0 <= i < columns.len(),
    ensures
        column(row_of(columns, cells), columns[i]) == Some(cells[i]),
    decreases columns.len(),
{
    let row = row_of(columns, cells);
    if i > 0 {
        assert(columns[0] != columns[i]);
        let rest = columns.drop_first();
        assert forall|a: int, b: int| 0 <= a < rest.len() && 0 <= b < rest.len() && a != b implies
            rest[a] != rest[b] by {
            assert(columns[a + 1] != columns[b + 1]);
        }
        lemma_row_cell(rest, cells.drop_first(), i - 1);
        assert(row.drop_first() =~= row_of(rest, cells.drop_first()));
    }
}

/// The names of the columns differ.
pub proof fn lemma_column_names()
    ensures
        written_rule_columns().no_duplicates(),
        written_project_columns().no_duplicates(),
        written_override_columns().no_duplicates(),
{
    reveal_strlit("project_id");
    reveal_strlit("rule_key");
    reveal_strlit("ordinal");
    reveal_strlit("summary");
    reveal_strlit("content");
    reveal_strlit("tags_json");
    reveal_strlit("paths_json");
    reveal_strlit("languages_json");
    reveal_strlit("source_rule_hash");
    reveal_strlit("project_name");
    reveal_strlit("checklist_path");
    reveal_strlit("schema_version");
    reveal_strlit("checklist_version");
    reveal_strlit("content_hash");
    reveal_strlit("knowledge_revision");
    reveal_strlit("description_json");
    reveal_strlit("created_at");
    reveal_strlit("updated_at");
    reveal_strlit("base_source_rule_hash");
    reveal_strlit("status");
    reveal_strlit("reason");
    assert("project_id"@.len() == 10 && "project_id"@[1] == 'r');
    assert("paths_json"@.len() == 10 && "paths_json"@[1] == 'a');
    assert("created_at"@.len() == 10 && "created_at"@[1] == 'r' && "created_at"@[0] == 'c');
    assert("updated_at"@.len() == 10 && "updated_at"@[1] == 'p');
    assert("project_id"@[0] == 'p');
    assert("rule_key"@.len() == 8 && "tags_json"@.len() == 9 && "source_rule_hash"@.len() == 16);
    assert("ordinal"@.len() == 7 && "ordinal"@[0] == 'o');
    assert("summary"@.len() == 7 && "summary"@[0] == 's');
    assert("content"@.len() == 7 && "content"@[0] == 'c');
    assert("languages_json"@.len() == 14 && "base_source_rule_hash"@.len() == 21);
    assert("project_name"@.len() == 12 && "project_name"@[0] == 'p');
    assert("content_hash"@.len() == 12 && "content_hash"@[0] == 'c');
    assert("checklist_path"@.len() == 14 && "checklist_path"@[0] == 'c');
    assert("schema_version"@.len() == 14 && "schema_version"@[0] == 's');
    assert("checklist_version"@.len() == 17 && "knowledge_revision"@.len() == 18);
    assert("description_json"@.len() == 16);
    assert("status"@.len() == 6 && "status"@[0] == 's');
    assert("reason"@.len() == 6 && "reason"@[0] == 'r');
}

} // verus!
