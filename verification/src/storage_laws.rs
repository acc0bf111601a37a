//! What is read of a row is what was written into it.

use vstd::prelude::*;

use crate::description::{description_value, revision_of};
use crate::json::{field, lookup, put_is_found, text_field, texts, Entries, JsonV};
use crate::json_laws::storable;
use crate::laws::preparing_again_reuses;
use crate::models::{ChecklistV, RuleV};
use crate::overrides::effective_checklist;
use crate::protocol::{CellV, RowV};
use crate::repository::{override_upsert, project_upsert, rule_insert};
use crate::rows::{cell_value, column, holds_override, holds_rule, row_entries, row_object, KeptV};
use crate::service::{end, holds_description, prepare_decide, prepare_value, PrepareJobV};
use crate::text::{begins, joined};

verus! {

/// The text of a statement that inserts a row with `values` in `columns`.
pub open spec fn insertion(
    table: Seq<char>,
    columns: Seq<Seq<char>>,
    values: Seq<Seq<char>>,
) -> Seq<char> {
    "INSERT INTO "@ + table + "("@ + joined(columns, ", "@) + ") VALUES ("@ + joined(values, ", "@)
        + ")"@
}

/// Whether a row has, in each of `columns`, the cell at the same place of `cells`.
pub open spec fn has_cells(row: RowV, columns: Seq<Seq<char>>, cells: Seq<CellV>) -> bool {
    &&& columns.len() == cells.len()
    &&& forall|i: int|
        0 <= i < columns.len() ==> column(row, #[trigger] columns[i]) == Some(cells[i])
}

/// The columns of a rule row, in the order in which it is written.
pub open spec fn written_rule_columns() -> Seq<Seq<char>> {
    seq![
        "project_id"@,
        "rule_key"@,
        "ordinal"@,
        "summary"@,
        "content"@,
        "tags_json"@,
        "paths_json"@,
        "languages_json"@,
        "source_rule_hash"@,
    ]
}

proof fn lemma_rule_text()
    ensures
        insertion(
            "rules"@,
            written_rule_columns(),
            Seq::new(9, |i: int| "?"@),
        )
            == "INSERT INTO rules(project_id, rule_key, ordinal, summary, content, tags_json, paths_json, languages_json, source_rule_hash) VALUES (?, ?, ?, ?, ?, ?, ?, ?, ?)"@,
{
    reveal_strlit("INSERT INTO ");
    reveal_strlit("rules");
    reveal_strlit("(");
    reveal_strlit(", ");
    reveal_strlit(") VALUES (");
    reveal_strlit(")");
    reveal_strlit("?");
    reveal_strlit("project_id");
    reveal_strlit("rule_key");
    reveal_strlit("ordinal");
    reveal_strlit("summary");
    reveal_strlit("content");
    reveal_strlit("tags_json");
    reveal_strlit("paths_json");
    reveal_strlit("languages_json");
    reveal_strlit("source_rule_hash");
    reveal_strlit(
        "INSERT INTO rules(project_id, rule_key, ordinal, summary, content, tags_json, paths_json, languages_json, source_rule_hash) VALUES (?, ?, ?, ?, ?, ?, ?, ?, ?)",
    );
    reveal_with_fuel(joined, 10);
    assert(insertion("rules"@, written_rule_columns(), Seq::new(9, |i: int| "?"@)) =~= "INSERT INTO rules(project_id, rule_key, ordinal, summary, content, tags_json, paths_json, languages_json, source_rule_hash) VALUES (?, ?, ?, ?, ?, ?, ?, ?, ?)"@);
}

/// The row that writing a rule makes holds that rule, and is read as its record.
pub proof fn a_written_rule_is_held(
    project_id: Seq<char>,
    rule: RuleV,
    ordinal: int,
    row: RowV,
)
    requires
        0 <= ordinal <= i64::MAX,
        has_cells(
            row,
            written_rule_columns(),
            rule_insert(project_id, rule, ordinal).params,
        ),
    ensures
        rule_insert(project_id, rule, ordinal).sql == insertion(
            "rules"@,
            written_rule_columns(),
            Seq::new(9, |i: int| "?"@),
        ),
        holds_rule(row, rule, ordinal),
{
    lemma_rule_text();
    let columns = written_rule_columns();
    assert(columns[1] == "rule_key"@ && columns[2] == "ordinal"@ && columns[3] == "summary"@);
    assert(columns[4] == "content"@ && columns[5] == "tags_json"@ && columns[6] == "paths_json"@);
    assert(columns[7] == "languages_json"@ && columns[8] == "source_rule_hash"@);
}

/// The columns of an override row, in the order in which it is written.
pub open spec fn written_override_columns() -> Seq<Seq<char>> {
    seq![
        "project_id"@,
        "rule_key"@,
        "summary"@,
        "content"@,
        "tags_json"@,
        "paths_json"@,
        "languages_json"@,
        "base_source_rule_hash"@,
        "status"@,
        "reason"@,
        "created_at"@,
        "updated_at"@,
    ]
}

/// The values of an override row: it is active, and everything else is a parameter.
pub open spec fn written_override_values() -> Seq<Seq<char>> {
    Seq::new(
        12,
        |i: int|
            if i == 8 {
                "'active'"@
            } else {
                "?"@
            },
    )
}

/// The cells of an override row that was first written at `created` and now takes `params`.
pub open spec fn override_cells(params: Seq<CellV>, created: Seq<char>) -> Seq<CellV> {
    params.insert(8, CellV::Text("active"@)).update(10, CellV::Text(created))
}

/// The list under `name`, where it is bound to a list of texts.
pub open spec fn binds(fields: Entries, name: Seq<char>, list: Option<Seq<Seq<char>>>) -> bool {
    lookup(fields, name) == (match list {
        Some(l) => Some(texts(l)),
        None => None,
    })
}

/// The text under `name`, where there is one.
pub open spec fn binds_text(fields: Entries, name: Seq<char>, text: Option<Seq<char>>) -> bool {
    lookup(fields, name) == (match text {
        Some(t) => Some(JsonV::Text(t)),
        None => None,
    })
}

proof fn lemma_override_text()
    ensures
        begins(
            "INSERT INTO rule_overrides(project_id, rule_key, summary, content, tags_json, paths_json, languages_json, base_source_rule_hash, status, reason, created_at, updated_at) VALUES (?, ?, ?, ?, ?, ?, ?, ?, 'active', ?, ?, ?) ON CONFLICT(project_id, rule_key) DO UPDATE SET summary=excluded.summary, content=excluded.content, tags_json=excluded.tags_json, paths_json=excluded.paths_json, languages_json=excluded.languages_json, base_source_rule_hash=excluded.base_source_rule_hash, status='active', reason=excluded.reason, updated_at=excluded.updated_at"@,
            insertion("rule_overrides"@, written_override_columns(), written_override_values()),
        ),
{
    reveal_strlit("INSERT INTO ");
    reveal_strlit("rule_overrides");
    reveal_strlit("(");
    reveal_strlit(", ");
    reveal_strlit(") VALUES (");
    reveal_strlit(")");
    reveal_strlit("?");
    reveal_strlit("'active'");
    reveal_strlit("project_id");
    reveal_strlit("rule_key");
    reveal_strlit("summary");
    reveal_strlit("content");
    reveal_strlit("tags_json");
    reveal_strlit("paths_json");
    reveal_strlit("languages_json");
    reveal_strlit("base_source_rule_hash");
    reveal_strlit("status");
    reveal_strlit("reason");
    reveal_strlit("created_at");
    reveal_strlit("updated_at");
    reveal_strlit(
        "INSERT INTO rule_overrides(project_id, rule_key, summary, content, tags_json, paths_json, languages_json, base_source_rule_hash, status, reason, created_at, updated_at) VALUES (?, ?, ?, ?, ?, ?, ?, ?, 'active', ?, ?, ?) ON CONFLICT(project_id, rule_key) DO UPDATE SET summary=excluded.summary, content=excluded.content, tags_json=excluded.tags_json, paths_json=excluded.paths_json, languages_json=excluded.languages_json, base_source_rule_hash=excluded.base_source_rule_hash, status='active', reason=excluded.reason, updated_at=excluded.updated_at",
    );
    reveal_with_fuel(joined, 13);
    let text =
        "INSERT INTO rule_overrides(project_id, rule_key, summary, content, tags_json, paths_json, languages_json, base_source_rule_hash, status, reason, created_at, updated_at) VALUES (?, ?, ?, ?, ?, ?, ?, ?, 'active', ?, ?, ?) ON CONFLICT(project_id, rule_key) DO UPDATE SET summary=excluded.summary, content=excluded.content, tags_json=excluded.tags_json, paths_json=excluded.paths_json, languages_json=excluded.languages_json, base_source_rule_hash=excluded.base_source_rule_hash, status='active', reason=excluded.reason, updated_at=excluded.updated_at"@;
    let front = insertion(
        "rule_overrides"@,
        written_override_columns(),
        written_override_values(),
    );
    assert(text.take(front.len() as int) =~= front);
}

/// The row that writing an override makes, or takes the place of one first written at `created`,
/// holds that override and is read as its record.
pub proof fn a_written_override_is_held(
    fields: Entries,
    o: KeptV,
    row: RowV,
)
    requires
        binds_text(fields, "summary"@, o.summary),
        binds_text(fields, "content"@, o.content),
        binds(fields, "tags"@, o.tags),
        binds(fields, "paths"@, o.paths),
        binds(fields, "languages"@, o.languages),
        o.status == "active"@,
        has_cells(
            row,
            written_override_columns(),
            override_cells(
                override_upsert(
                    o.project_id,
                    o.rule_key,
                    fields,
                    o.base,
                    o.reason,
                    o.updated_at,
                ).params,
                o.created_at,
            ),
        ),
    ensures
        begins(
            override_upsert(
                o.project_id,
                o.rule_key,
                fields,
                o.base,
                o.reason,
                o.updated_at,
            ).sql,
            insertion("rule_overrides"@, written_override_columns(), written_override_values()),
        ),
        holds_override(row, o),
{
    lemma_override_text();
    let columns = written_override_columns();
    assert(columns[0] == "project_id"@ && columns[1] == "rule_key"@ && columns[2] == "summary"@);
    assert(columns[3] == "content"@ && columns[4] == "tags_json"@ && columns[5] == "paths_json"@);
    assert(columns[6] == "languages_json"@ && columns[7] == "base_source_rule_hash"@);
    assert(columns[8] == "status"@ && columns[9] == "reason"@ && columns[10] == "created_at"@);
    assert(columns[11] == "updated_at"@);
}

// ---- projects ----

/// No two columns of a row share their name.
pub open spec fn distinct_columns(row: RowV) -> bool {
    forall|i: int, j: int|
        0 <= i < j < row.len() ==> (#[trigger] row[i]).0 != (#[trigger] row[j]).0
}

/// An object shows each column of its row under its name.
pub proof fn a_row_shows_its_columns(row: RowV, name: Seq<char>)
    requires
        distinct_columns(row),
    ensures
        field(row_object(row), name) == (match column(row, name) {
            Some(c) => Some(cell_value(c)),
            None => None,
        }),
    decreases row.len(),
{
    if row.len() > 0 {
        let front = row.drop_last();
        let last = row.last();
        a_row_shows_its_columns(front, name);
        put_is_found(row_entries(front), last.0, cell_value(last.1), name);
        lemma_last_column(row, name);
    }
}

proof fn lemma_last_column(row: RowV, name: Seq<char>)
    requires
        row.len() > 0,
        distinct_columns(row),
    ensures
        column(row, name) == (if row.last().0 == name {
            Some(row.last().1)
        } else {
            column(row.drop_last(), name)
        }),
    decreases row.len(),
{
    if row.len() > 1 {
        let rest = row.drop_first();
        assert(distinct_columns(rest)) by {
            assert forall|i: int, j: int| 0 <= i < j < rest.len() implies (#[trigger] rest[i]).0
                != (#[trigger] rest[j]).0 by {
                assert(row[i + 1].0 != row[j + 1].0);
            }
        }
        lemma_last_column(rest, name);
        assert(row.drop_last().drop_first() =~= rest.drop_last());
        assert(row[0].0 != row[row.len() - 1].0);
        assert(row.drop_last()[0] == row[0]);
        assert(rest.last() == row.last());
    } else {
        assert(column(row.drop_first(), name) is None);
        assert(column(row.drop_last(), name) is None);
    }
}

/// The columns of a project row, in the order in which it is written.
pub open spec fn written_project_columns() -> Seq<Seq<char>> {
    seq![
        "project_id"@,
        "project_name"@,
        "checklist_path"@,
        "schema_version"@,
        "checklist_version"@,
        "content_hash"@,
        "knowledge_revision"@,
        "description_json"@,
        "created_at"@,
        "updated_at"@,
    ]
}

proof fn lemma_project_text()
    ensures
        begins(
            "INSERT INTO projects(project_id, project_name, checklist_path, schema_version, checklist_version, content_hash, knowledge_revision, description_json, created_at, updated_at) VALUES (?, ?, ?, ?, ?, ?, ?, ?, ?, ?) ON CONFLICT(project_id) DO UPDATE SET project_name=excluded.project_name, checklist_path=excluded.checklist_path, schema_version=excluded.schema_version, checklist_version=excluded.checklist_version, content_hash=excluded.content_hash, knowledge_revision=excluded.knowledge_revision, description_json=excluded.description_json, updated_at=excluded.updated_at"@,
            insertion("projects"@, written_project_columns(), Seq::new(10, |i: int| "?"@)),
        ),
{
    reveal_strlit("INSERT INTO ");
    reveal_strlit("projects");
    reveal_strlit("(");
    reveal_strlit(", ");
    reveal_strlit(") VALUES (");
    reveal_strlit(")");
    reveal_strlit("?");
    reveal_strlit("project_id");
    reveal_strlit("project_name");
    reveal_strlit("checklist_path");
    reveal_strlit("schema_version");
    reveal_strlit("checklist_version");
    reveal_strlit("content_hash");
    reveal_strlit("knowledge_revision");
    reveal_strlit("description_json");
    reveal_strlit("created_at");
    reveal_strlit("updated_at");
    reveal_strlit(
        "INSERT INTO projects(project_id, project_name, checklist_path, schema_version, checklist_version, content_hash, knowledge_revision, description_json, created_at, updated_at) VALUES (?, ?, ?, ?, ?, ?, ?, ?, ?, ?) ON CONFLICT(project_id) DO UPDATE SET project_name=excluded.project_name, checklist_path=excluded.checklist_path, schema_version=excluded.schema_version, checklist_version=excluded.checklist_version, content_hash=excluded.content_hash, knowledge_revision=excluded.knowledge_revision, description_json=excluded.description_json, updated_at=excluded.updated_at",
    );
    reveal_with_fuel(joined, 11);
    let text =
        "INSERT INTO projects(project_id, project_name, checklist_path, schema_version, checklist_version, content_hash, knowledge_revision, description_json, created_at, updated_at) VALUES (?, ?, ?, ?, ?, ?, ?, ?, ?, ?) ON CONFLICT(project_id) DO UPDATE SET project_name=excluded.project_name, checklist_path=excluded.checklist_path, schema_version=excluded.schema_version, checklist_version=excluded.checklist_version, content_hash=excluded.content_hash, knowledge_revision=excluded.knowledge_revision, description_json=excluded.description_json, updated_at=excluded.updated_at"@;
    let front = insertion("projects"@, written_project_columns(), Seq::new(10, |i: int| "?"@));
    assert(text.take(front.len() as int) =~= front);
}

/// The row that a refresh makes of a project, or takes the place of one first written at
/// `created`, holds the description, and preparing the same checklist again reuses it.
pub proof fn a_written_project_is_reused(
    job: PrepareJobV,
    checklist: ChecklistV,
    description: JsonV,
    revision: Seq<char>,
    created: Seq<char>,
    overrides: Seq<JsonV>,
    row: RowV,
    now: Seq<char>,
    later: Seq<char>,
)
    requires
        !job.force,
        storable(description, 127),
        revision == revision_of(effective_checklist(checklist, overrides)),
        distinct_columns(row),
        has_cells(
            row,
            written_project_columns(),
            project_upsert(
                job.project_id,
                job.project_name,
                job.path,
                checklist,
                revision,
                description,
                now,
            ).params.update(8, CellV::Text(created)),
        ),
    ensures
        begins(
            project_upsert(
                job.project_id,
                job.project_name,
                job.path,
                checklist,
                revision,
                description,
                now,
            ).sql,
            insertion("projects"@, written_project_columns(), Seq::new(10, |i: int| "?"@)),
        ),
        holds_description(row_object(row), description),
        text_field(row_object(row), "knowledge_revision"@) == Some(revision),
        prepare_decide(job, checklist, Some(row_object(row)), overrides, later) == end(
            prepare_value(
                job,
                checklist,
                description_value(
                    job.project_id,
                    job.project_name,
                    effective_checklist(checklist, overrides),
                ),
                "reused"@,
                Seq::empty(),
            ),
        ),
{
    lemma_project_text();
    let columns = written_project_columns();
    assert(columns[1] == "project_name"@ && columns[2] == "checklist_path"@);
    assert(columns[4] == "checklist_version"@ && columns[5] == "content_hash"@);
    assert(columns[6] == "knowledge_revision"@ && columns[7] == "description_json"@);
    a_row_shows_its_columns(row, "project_name"@);
    a_row_shows_its_columns(row, "checklist_path"@);
    a_row_shows_its_columns(row, "checklist_version"@);
    a_row_shows_its_columns(row, "content_hash"@);
    a_row_shows_its_columns(row, "knowledge_revision"@);
    a_row_shows_its_columns(row, "description_json"@);
    preparing_again_reuses(job, checklist, row_object(row), overrides, later);
}

} // verus!
