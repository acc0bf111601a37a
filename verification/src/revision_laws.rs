//! What holds of the stored revisions after whole operations.

use vstd::prelude::*;

use crate::checklist::{an_accepted_checklist_is_proper, checklist_of};
use crate::config::LocationV;
use crate::description::{
    a_description_can_be_stored, carried_revision, description_carries_revision, description_value,
    revision_of,
};
use crate::errors::{and_detail, detail, ErrorV};
use crate::json::{field, put_is_found, text_field, Entries, JsonV};
use crate::json_laws::{lemma_and_detail, lemma_detail};
use crate::json_util::{before, canonical, sorted};
use crate::laws::{a_stored_rule_is_read_back, looking_never_writes, looks, writes};
use crate::models::{ChecklistV, RuleV};
use crate::overrides::{effective_checklist, text_or_empty};
use crate::protocol::{CellV, Handle, ReplyV, RequestV, RowV, StatementV, StepV};
use crate::repository::{
    description_update, description_writes, first_object, first_override, first_text,
    keyed_rules_query, metadata_update, overrides_query, project_query, project_upsert, replacement,
    resolution, rule_insert, rules_delete, rules_query,
};
use crate::rows::{
    cell_value, column, hold_rules, holds_rule, row_entries, row_object, rule_shown, rules_shown,
};
use crate::service::{
    counting, holds_description, metadata_changed, next, overrides_in, prepare_decide,
    prepare_replace, prepare_value, renew_description, renew_value, reuse_warnings, reuse_writes,
    revision_stored, rules_in, source_changed, stored_checklist, stored_description, stored_rules,
    OverrideJobV, PrepareJobV, RefreshV, RenewJobV, ServiceStepV, StageV,
};
use crate::session::{operation_start, OperationV};
use crate::storage_laws::{
    a_row_shows_its_columns, distinct_columns, written_override_columns, written_project_columns,
    written_rule_columns,
};
use crate::table_laws::{
    a_refresh_is_read_back, active_rows, counts, lemma_active_kept, lemma_cleared, lemma_described,
    lemma_description_written, lemma_global_description, lemma_names_kept, lemma_override_at,
    lemma_project_at, lemma_project_written, lemma_relabelled, lemma_renew_value,
    lemma_renewal_names, lemma_renewals_keep_names, lemma_renewed, lemma_returned,
    lemma_set_and_unset, lemma_two, none_counts, returned_revision, set_writes, unset_writes,
};
use crate::tables::{
    after, after_all, conflicting, described, disabled, effect_of, kept, lemma_after_both,
    lemma_column_names, lemma_effects, lemma_row_of, lemma_with_cell, of_project, override_at,
    override_written, project_at, project_row, relabelled, row_of, rows_of_project, with_cell,
    Effect, Tables,
};
use crate::text::trimmed;

verus! {

// ---- what queries bring ----

/// `rows`, which are in order, with another row in its place.
pub open spec fn placed(
    rows: Seq<RowV>,
    row: RowV,
    first: spec_fn(RowV, RowV) -> bool,
) -> Seq<RowV>
    decreases rows.len(),
{
    if rows.len() == 0 || !first(row, rows.last()) {
        rows.push(row)
    } else {
        placed(rows.drop_last(), row, first).push(rows.last())
    }
}

/// Rows in an order; rows of which none is first stay as they were.
pub open spec fn ordered(rows: Seq<RowV>, first: spec_fn(RowV, RowV) -> bool) -> Seq<RowV>
    decreases rows.len(),
{
    if rows.len() == 0 {
        rows
    } else {
        placed(ordered(rows.drop_last(), first), rows.last(), first)
    }
}

/// Whether the ordinal of a rule row is the smaller one.
pub open spec fn earlier(a: RowV, b: RowV) -> bool {
    match (column(a, "ordinal"@), column(b, "ordinal"@)) {
        (Some(CellV::Integer(m)), Some(CellV::Integer(n))) => m < n,
        _ => false,
    }
}

/// Whether the key of an override row comes first.
pub open spec fn sooner(a: RowV, b: RowV) -> bool {
    match (column(a, "rule_key"@), column(b, "rule_key"@)) {
        (Some(CellV::Text(s)), Some(CellV::Text(t))) => before(s, t),
        _ => false,
    }
}

/// What is read of a project: its row, with the number of its rules.
pub open spec fn project_shown(t: Tables, project_id: Seq<char>) -> Seq<RowV> {
    let id = CellV::Text(project_id);
    match project_row(t.projects, id) {
        Some(row) => seq![counted(row, rows_of_project(t.rules, id).len() as int)],
        None => Seq::empty(),
    }
}

/// A project row with the number of the rules.
pub open spec fn counted(row: RowV, rules: int) -> RowV {
    row.push(("rule_count"@, CellV::Integer(rules)))
}

/// What is read of the rules of a project: their rows, by their ordinals.
pub open spec fn rule_rows(t: Tables, project_id: Seq<char>) -> Seq<RowV> {
    ordered(
        rows_of_project(t.rules, CellV::Text(project_id)),
        |a: RowV, b: RowV| earlier(a, b),
    )
}

/// What is read of the overrides of a project that count: their rows, by their keys.
pub open spec fn counting_rows(t: Tables, project_id: Seq<char>) -> Seq<RowV> {
    ordered(
        active_rows(t.overrides, CellV::Text(project_id)),
        |a: RowV, b: RowV| sooner(a, b),
    )
}

// ---- the invariant ----

/// The checklist that is stored: that of a project, with its description and its rules.
pub open spec fn stored_source(project: JsonV, description: JsonV, rules: Seq<JsonV>) -> ChecklistV {
    ChecklistV { rules: stored_rules(rules), ..stored_checklist(project, description) }
}

/// The checklist that is stored for a project, where it can be read.
pub open spec fn source_of(t: Tables, project_id: Seq<char>) -> Option<ChecklistV> {
    match first_object(project_shown(t, project_id)) {
        Some(p) => match (stored_description(p), rules_in(rule_rows(t, project_id))) {
            (Ok(d), Ok(list)) => Some(stored_source(p, d, list)),
            _ => None,
        },
        None => None,
    }
}

/// The revision that is stored for a project.
pub open spec fn revision_in(t: Tables, project_id: Seq<char>) -> Option<Seq<char>> {
    match first_object(project_shown(t, project_id)) {
        Some(p) => text_field(p, "knowledge_revision"@),
        None => None,
    }
}

/// Whether the stored revision of a project is that of its effective rules: of the stored
/// checklist, with the overrides that count.
pub open spec fn current(t: Tables, project_id: Seq<char>) -> bool {
    &&& source_of(t, project_id) matches Some(source)
    &&& overrides_in(counting_rows(t, project_id)) matches Ok(overrides)
    &&& revision_in(t, project_id) == Some(revision_of(effective_checklist(source, overrides)))
}

/// Whether a project row has the columns of its table, each once, and a schema version of 64 bits.
pub open spec fn formed_row(row: RowV) -> bool {
    &&& distinct_columns(row)
    &&& column(row, "knowledge_revision"@) is Some
    &&& column(row, "description_json"@) is Some
    &&& column(row, "schema_version"@) matches Some(CellV::Integer(n)) ==> i64::MIN <= n
        <= i64::MAX
}

/// Whether the project rows have the columns of their table.
pub open spec fn formed(t: Tables) -> bool {
    forall|i: int| 0 <= i < t.projects.len() ==> formed_row(#[trigger] t.projects[i])
}

/// Whether stored descriptions and rules are read as they were written: what the functions that read
/// them promise of each call.
pub open spec fn reads_back() -> bool {
    &&& forall|p: JsonV, d: JsonV| #[trigger]
        holds_description(p, d) ==> stored_description(p) == Ok::<JsonV, Seq<char>>(sorted(d))
    &&& forall|rows: Seq<RowV>, rules: Seq<RuleV>| #[trigger]
        hold_rules(rows, rules) ==> rules_in(rows) == Ok::<Seq<JsonV>, Seq<char>>(
            rules_shown(rules),
        )
}

proof fn lemma_counted(row: RowV, n: int, name: Seq<char>)
    requires
        distinct_columns(row),
        name != "rule_count"@,
    ensures
        field(row_object(counted(row, n)), name) == (match column(row, name) {
            Some(c) => Some(cell_value(c)),
            None => None,
        }),
{
    a_row_shows_its_columns(row, name);
    let shown = counted(row, n);
    assert(shown.drop_last() =~= row);
    put_is_found(row_entries(row), "rule_count"@, JsonV::Int(n), name);
}

/// The fields of a project that a stored checklist is made of.
proof fn lemma_shown_fields(row: RowV, n: int)
    requires
        distinct_columns(row),
    ensures
        ({
            let p = row_object(counted(row, n));
            let shown = |name: Seq<char>|
                match column(row, name) {
                    Some(c) => Some(cell_value(c)),
                    None => None::<JsonV>,
                };
            &&& field(p, "schema_version"@) == shown("schema_version"@)
            &&& field(p, "checklist_version"@) == shown("checklist_version"@)
            &&& field(p, "content_hash"@) == shown("content_hash"@)
            &&& field(p, "knowledge_revision"@) == shown("knowledge_revision"@)
            &&& field(p, "description_json"@) == shown("description_json"@)
        }),
{
    reveal_strlit("rule_count");
    reveal_strlit("schema_version");
    reveal_strlit("checklist_version");
    reveal_strlit("content_hash");
    reveal_strlit("knowledge_revision");
    reveal_strlit("description_json");
    assert("rule_count"@.len() == 10 && "schema_version"@.len() == 14
        && "checklist_version"@.len() == 17 && "content_hash"@.len() == 12
        && "knowledge_revision"@.len() == 18 && "description_json"@.len() == 16);
    lemma_counted(row, n, "schema_version"@);
    lemma_counted(row, n, "checklist_version"@);
    lemma_counted(row, n, "content_hash"@);
    lemma_counted(row, n, "knowledge_revision"@);
    lemma_counted(row, n, "description_json"@);
}

// ---- what the writes leave ----

/// A project whose row got another description, and the revision of its effective rules, is
/// current.
proof fn lemma_redescribed(
    t: Tables,
    u: Tables,
    project_id: Seq<char>,
    row: RowV,
    renewed: RowV,
    name: Seq<char>,
    source: ChecklistV,
    overrides: Seq<JsonV>,
    effective: ChecklistV,
)
    requires
        reads_back(),
        u.rules == t.rules,
        u.overrides == t.overrides,
        project_row(t.projects, CellV::Text(project_id)) == Some(row),
        project_row(u.projects, CellV::Text(project_id)) == Some(renewed),
        distinct_columns(row),
        distinct_columns(renewed),
        column(renewed, "schema_version"@) == column(row, "schema_version"@),
        column(renewed, "checklist_version"@) == column(row, "checklist_version"@),
        column(renewed, "content_hash"@) == column(row, "content_hash"@),
        column(renewed, "description_json"@) == Some(
            CellV::Text(canonical(description_value(project_id, name, effective))),
        ),
        column(renewed, "knowledge_revision"@) matches Some(c) && cell_value(c) == JsonV::Text(
            revision_of(effective),
        ),
        source_of(t, project_id) == Some(source),
        overrides_in(counting_rows(t, project_id)) == Ok::<Seq<JsonV>, Seq<char>>(overrides),
        effective.rules == effective_checklist(source, overrides).rules,
        effective.global_description == source.global_description,
        i64::MIN <= effective.schema_version <= i64::MAX,
    ensures
        current(u, project_id),
        source_of(u, project_id) == Some(source),
        revision_in(u, project_id) == Some(revision_of(effective)),
{
    let n = rows_of_project(t.rules, CellV::Text(project_id)).len() as int;
    let p = row_object(counted(row, n));
    let q = row_object(counted(renewed, n));
    lemma_shown_fields(row, n);
    lemma_shown_fields(renewed, n);
    let d = description_value(project_id, name, effective);
    a_description_can_be_stored(project_id, name, effective);
    assert(holds_description(q, d));
    lemma_global_description(project_id, name, effective);
    assert(first_object(project_shown(t, project_id)) == Some(p));
    assert(first_object(project_shown(u, project_id)) == Some(q));
    let old_description = stored_description(p)->Ok_0;
    assert(stored_checklist(q, sorted(d)) == stored_checklist(p, old_description));
    assert(revision_of(effective) == revision_of(effective_checklist(source, overrides)));
}

/// Renewing the description of a project leaves it current.
proof fn lemma_renewal(
    t: Tables,
    project_id: Seq<char>,
    name: Seq<char>,
    source: ChecklistV,
    overrides: Seq<JsonV>,
    now: Seq<char>,
)
    requires
        reads_back(),
        formed(t),
        source_of(t, project_id) == Some(source),
        overrides_in(counting_rows(t, project_id)) == Ok::<Seq<JsonV>, Seq<char>>(overrides),
    ensures
        ({
            let effective = effective_checklist(source, overrides);
            let u = after_all(
                t,
                description_writes(
                    project_id,
                    revision_of(effective),
                    description_value(project_id, name, effective),
                    now,
                ),
            );
            &&& current(u, project_id)
            &&& source_of(u, project_id) == Some(source)
            &&& revision_in(u, project_id) == Some(revision_of(effective))
        }),
{
    let id = CellV::Text(project_id);
    let effective = effective_checklist(source, overrides);
    let d = description_value(project_id, name, effective);
    let u = after_all(t, description_writes(project_id, revision_of(effective), d, now));
    let params = description_update(project_id, revision_of(effective), d, now).params;
    lemma_description_written(t, project_id, revision_of(effective), d, now);
    lemma_project_at(t.projects, id);
    let row = project_row(t.projects, id)->0;
    assert(formed_row(row));
    lemma_renewals_keep_names(row, params, params);
    lemma_renewal_names();
    lemma_source_columns();
    lemma_described(row, params, "schema_version"@);
    lemma_described(row, params, "checklist_version"@);
    lemma_described(row, params, "content_hash"@);
    lemma_described(row, params, "description_json"@);
    lemma_described(row, params, "knowledge_revision"@);
    let n = rows_of_project(t.rules, id).len() as int;
    lemma_shown_fields(row, n);
    assert(first_object(project_shown(t, project_id)) == Some(row_object(counted(row, n))));
    assert(i64::MIN <= source.schema_version <= i64::MAX);
    lemma_redescribed(
        t,
        u,
        project_id,
        row,
        described(row, params),
        name,
        source,
        overrides,
        effective,
    );
}

proof fn lemma_source_columns()
    ensures
        "schema_version"@.len() == 14 && "schema_version"@[0] == 's',
        "checklist_version"@.len() == 17,
        "content_hash"@.len() == 12 && "content_hash"@[0] == 'c',
        "checklist_path"@[0] == 'c' && "checklist_path"@.len() == 14,
{
    reveal_strlit("schema_version");
    reveal_strlit("checklist_version");
    reveal_strlit("content_hash");
    reveal_strlit("checklist_path");
}

proof fn lemma_relabelled_description(row: RowV, params: Seq<CellV>)
    requires
        of_project(row, params[4]),
        column(row, "description_json"@) is Some,
    ensures
        column(relabelled(row, params), "description_json"@) == Some(params[2]),
{
    let a = with_cell(row, "project_name"@, params[0]);
    let b = with_cell(a, "checklist_path"@, params[1]);
    let c = with_cell(b, "description_json"@, params[2]);
    lemma_renewal_names();
    lemma_with_cell(row, "project_name"@, params[0], "description_json"@);
    lemma_with_cell(a, "checklist_path"@, params[1], "description_json"@);
    lemma_with_cell(b, "description_json"@, params[2], "description_json"@);
    lemma_with_cell(c, "updated_at"@, params[3], "description_json"@);
}

/// Reusing a project whose stored checklist is the one at hand leaves it current.
proof fn lemma_reuse(
    t: Tables,
    job: PrepareJobV,
    checklist: ChecklistV,
    source: ChecklistV,
    overrides: Seq<JsonV>,
    project: JsonV,
    now: Seq<char>,
)
    requires
        reads_back(),
        formed(t),
        first_object(project_shown(t, job.project_id)) == Some(project),
        source_of(t, job.project_id) == Some(source),
        overrides_in(counting_rows(t, job.project_id)) == Ok::<Seq<JsonV>, Seq<char>>(overrides),
        source.rules == checklist.rules,
        source.global_description == checklist.global_description,
        i64::MIN <= checklist.schema_version <= i64::MAX,
    ensures
        ({
            let effective = effective_checklist(checklist, overrides);
            let description = description_value(job.project_id, job.project_name, effective);
            let u = after_all(t, reuse_writes(project, job, description, now));
            &&& current(u, job.project_id)
            &&& source_of(u, job.project_id) == Some(source)
            &&& revision_in(u, job.project_id) == Some(revision_of(effective))
        }),
{
    let id = CellV::Text(job.project_id);
    let effective = effective_checklist(checklist, overrides);
    let d = description_value(job.project_id, job.project_name, effective);
    description_carries_revision(job.project_id, job.project_name, effective);
    let revision = revision_of(effective);
    assert(effective.rules == effective_checklist(source, overrides).rules);
    assert(revision == revision_of(effective_checklist(source, overrides)));
    lemma_project_at(t.projects, id);
    let row = project_row(t.projects, id)->0;
    assert(formed_row(row));
    let n = rows_of_project(t.rules, id).len() as int;
    lemma_shown_fields(row, n);
    assert(project == row_object(counted(row, n)));
    let rename = metadata_update(job.project_id, job.project_name, job.path, d, now);
    let renewal = description_writes(job.project_id, revision, d, now);
    let naming = if metadata_changed(project, job) {
        seq![rename]
    } else {
        Seq::<StatementV>::empty()
    };
    let t1 = after_all(t, naming);
    lemma_effects();
    lemma_renewal_names();
    lemma_source_columns();
    assert(after_all(t, Seq::empty()) == t);
    assert(seq![rename].drop_last() =~= Seq::empty());
    assert(after_all(t, seq![rename]) == after(t, rename));
    let f = |r: RowV| relabelled(r, rename.params);
    assert forall|r: RowV| column(#[trigger] f(r), "project_id"@) == column(r, "project_id"@) by {
        lemma_relabelled(r, rename.params, "project_id"@);
    }
    lemma_renewed(t.projects, f, id);
    let relabelled_row = relabelled(row, rename.params);
    assert(of_project(row, id));
    lemma_relabelled(row, rename.params, "schema_version"@);
    lemma_relabelled(row, rename.params, "checklist_version"@);
    lemma_relabelled(row, rename.params, "content_hash"@);
    lemma_relabelled(row, rename.params, "knowledge_revision"@);
    lemma_relabelled(row, rename.params, "project_id"@);
    lemma_relabelled_description(row, rename.params);
    lemma_renewals_keep_names(row, rename.params, rename.params);
    let row1 = if metadata_changed(project, job) {
        relabelled_row
    } else {
        row
    };
    assert(project_row(t1.projects, id) == Some(row1));
    assert(of_project(row1, id));
    if revision_stored(project, d) {
        assert(reuse_writes(project, job, d, now) == naming);
        if metadata_changed(project, job) {
            lemma_redescribed(
                t,
                t1,
                job.project_id,
                row,
                row1,
                job.project_name,
                source,
                overrides,
                effective,
            );
        }
    } else {
        lemma_after_both(t, naming, renewal);
        lemma_description_written(t1, job.project_id, revision, d, now);
        let params = description_update(job.project_id, revision, d, now).params;
        lemma_described(row1, params, "schema_version"@);
        lemma_described(row1, params, "checklist_version"@);
        lemma_described(row1, params, "content_hash"@);
        lemma_described(row1, params, "description_json"@);
        lemma_described(row1, params, "knowledge_revision"@);
        lemma_renewals_keep_names(row1, params, params);
        lemma_redescribed(
            t,
            after_all(t1, renewal),
            job.project_id,
            row,
            described(row1, params),
            job.project_name,
            source,
            overrides,
            effective,
        );
    }
}

/// Rows that are in order stay in order.
proof fn lemma_in_order(rows: Seq<RowV>, rules: Seq<RuleV>, n: int)
    requires
        0 <= n <= rows.len(),
        hold_rules(rows, rules),
    ensures
        ordered(rows.take(n), |a: RowV, b: RowV| earlier(a, b)) == rows.take(n),
    decreases n,
{
    let first = |a: RowV, b: RowV| earlier(a, b);
    if n > 0 {
        lemma_in_order(rows, rules, n - 1);
        let front = rows.take(n - 1);
        assert(rows.take(n).drop_last() =~= front);
        assert(holds_rule(rows[n - 1], rules[n - 1], n - 1));
        if n > 1 {
            assert(front.last() == rows[n - 2]);
            assert(holds_rule(rows[n - 2], rules[n - 2], n - 2));
            assert(!first(rows[n - 1], front.last()));
        }
        assert(placed(front, rows[n - 1], first) == front.push(rows[n - 1]));
        assert(front.push(rows[n - 1]) =~= rows.take(n));
    }
}

proof fn lemma_rules_back(rules: Seq<RuleV>)
    ensures
        stored_rules(rules_shown(rules)) == rules,
{
    assert forall|i: int| 0 <= i < rules.len() implies #[trigger] stored_rules(
        rules_shown(rules),
    )[i] == rules[i] by {
        assert(rules_shown(rules)[i] == rule_shown(rules[i], i));
        a_stored_rule_is_read_back(rules[i], i);
    }
    assert(stored_rules(rules_shown(rules)) =~= rules);
}

/// Replacing a project by a checklist leaves it current, with that checklist.
proof fn lemma_refresh(
    t: Tables,
    known: Option<JsonV>,
    project_id: Seq<char>,
    name: Seq<char>,
    path: Seq<char>,
    checklist: ChecklistV,
    overrides: Seq<JsonV>,
    action: Seq<char>,
    warnings: Seq<Seq<char>>,
    now: Seq<char>,
)
    requires
        reads_back(),
        overrides_in(counting_rows(t, project_id)) == Ok::<Seq<JsonV>, Seq<char>>(overrides),
        checklist.rules.len() <= i64::MAX,
        i64::MIN <= checklist.schema_version <= i64::MAX,
    ensures
        ({
            let effective = effective_checklist(checklist, overrides);
            let u = after_all(
                t,
                replacement(
                    known,
                    project_id,
                    name,
                    path,
                    checklist,
                    revision_of(effective),
                    description_value(project_id, name, effective),
                    action,
                    warnings,
                    now,
                ),
            );
            current(u, project_id) && source_of(u, project_id) == Some(checklist)
        }),
{
    let id = CellV::Text(project_id);
    let effective = effective_checklist(checklist, overrides);
    let revision = revision_of(effective);
    let d = description_value(project_id, name, effective);
    let list = replacement(
        known,
        project_id,
        name,
        path,
        checklist,
        revision,
        d,
        action,
        warnings,
        now,
    );
    let u = after_all(t, list);
    a_refresh_is_read_back(
        t,
        known,
        project_id,
        name,
        path,
        checklist,
        revision,
        d,
        action,
        warnings,
        now,
        project_id,
    );
    let row = project_row(u.projects, id)->0;
    let columns = written_project_columns();
    assert(columns[3] == "schema_version"@ && columns[4] == "checklist_version"@ && columns[5]
        == "content_hash"@ && columns[6] == "knowledge_revision"@ && columns[7]
        == "description_json"@);
    let n = rows_of_project(u.rules, id).len() as int;
    lemma_shown_fields(row, n);
    let p = row_object(counted(row, n));
    assert(first_object(project_shown(u, project_id)) == Some(p));
    let rows = rows_of_project(u.rules, id);
    lemma_in_order(rows, checklist.rules, rows.len() as int);
    assert(rows.take(rows.len() as int) =~= rows);
    assert(rule_rows(u, project_id) == rows);
    lemma_rules_back(checklist.rules);
    a_description_can_be_stored(project_id, name, effective);
    assert(holds_description(p, d));
    lemma_global_description(project_id, name, effective);
    assert(text_or_empty(sorted(d), "global_description"@) == checklist.global_description);
    assert(source_of(u, project_id) == Some(checklist));
}

// ---- other projects ----

/// Whether a statement writes nothing of other projects, as its parameters tell.
pub open spec fn concerns(s: StatementV, id: CellV) -> bool {
    match effect_of(s.sql) {
        Effect::Project => {
            &&& s.params.len() == 10 && s.params[0] == id
            &&& s.params[3] matches CellV::Integer(n) ==> i64::MIN <= n <= i64::MAX
        },
        Effect::Rule => s.params.len() == 9 && s.params[0] == id,
        Effect::Override => s.params.len() == 11 && s.params[0] == id,
        Effect::ClearRules => s.params[0] == id,
        Effect::Describe => s.params[3] == id,
        Effect::Rename => s.params[4] == id,
        Effect::Disable => s.params[2] == id,
        Effect::Keep => s.params[3] == id,
        Effect::Conflict => s.params[1] == id,
        _ => true,
    }
}

/// Whether the statements of a transaction write nothing of other projects.
pub open spec fn all_concern(list: Seq<StatementV>, project_id: Seq<char>) -> bool {
    forall|i: int| 0 <= i < list.len() ==> concerns(#[trigger] list[i], CellV::Text(project_id))
}

/// Whether what is stored of a project, its rules and its overrides that count is the same.
pub open spec fn untouched(t: Tables, u: Tables, project_id: Seq<char>) -> bool {
    let id = CellV::Text(project_id);
    &&& project_row(u.projects, id) == project_row(t.projects, id)
    &&& rows_of_project(u.rules, id) == rows_of_project(t.rules, id)
    &&& active_rows(u.overrides, id) == active_rows(t.overrides, id)
}

proof fn lemma_pushed(rows: Seq<RowV>, row: RowV, p: spec_fn(RowV) -> bool)
    requires
        !p(row),
    ensures
        rows.push(row).filter(p) == rows.filter(p),
{
    reveal(Seq::filter);
    assert(rows.push(row).drop_last() =~= rows);
}

proof fn lemma_other_override_names()
    ensures
        "project_id"@ != "status"@,
        "project_id"@ != "reason"@,
        "project_id"@ != "updated_at"@,
        "project_id"@ != "base_source_rule_hash"@,
        "project_id"@ != "created_at"@,
{
    reveal_strlit("project_id");
    reveal_strlit("status");
    reveal_strlit("reason");
    reveal_strlit("updated_at");
    reveal_strlit("base_source_rule_hash");
    reveal_strlit("created_at");
    assert("project_id"@.len() == 10 && "status"@.len() == 6 && "reason"@.len() == 6
        && "base_source_rule_hash"@.len() == 21);
    assert("project_id"@[0] == 'p' && "updated_at"@[0] == 'u' && "created_at"@[0] == 'c');
}

/// Changing the status of overrides keeps the projects that they are of.
proof fn lemma_status_kept(row: RowV, params: Seq<CellV>)
    ensures
        column(disabled(row, params), "project_id"@) == column(row, "project_id"@),
        column(kept(row, params), "project_id"@) == column(row, "project_id"@),
        column(conflicting(row, params), "project_id"@) == column(row, "project_id"@),
{
    lemma_other_override_names();
    let a = with_cell(row, "status"@, CellV::Text("disabled"@));
    let b = with_cell(a, "reason"@, params[0]);
    lemma_with_cell(row, "status"@, CellV::Text("disabled"@), "project_id"@);
    lemma_with_cell(a, "reason"@, params[0], "project_id"@);
    lemma_with_cell(b, "updated_at"@, params[1], "project_id"@);
    let c = with_cell(row, "base_source_rule_hash"@, params[0]);
    let d = with_cell(c, "status"@, CellV::Text("active"@));
    let e = with_cell(d, "reason"@, params[1]);
    lemma_with_cell(row, "base_source_rule_hash"@, params[0], "project_id"@);
    lemma_with_cell(c, "status"@, CellV::Text("active"@), "project_id"@);
    lemma_with_cell(d, "reason"@, params[1], "project_id"@);
    lemma_with_cell(e, "updated_at"@, params[2], "project_id"@);
    let f = with_cell(row, "status"@, CellV::Text("conflict"@));
    lemma_with_cell(row, "status"@, CellV::Text("conflict"@), "project_id"@);
    lemma_with_cell(f, "updated_at"@, params[0], "project_id"@);
}

/// Changing overrides of one project leaves those of the others.
proof fn lemma_overrides_elsewhere(
    rows: Seq<RowV>,
    f: spec_fn(RowV) -> RowV,
    id: CellV,
    other: CellV,
)
    requires
        id != other,
        forall|r: RowV| column(#[trigger] f(r), "project_id"@) == column(r, "project_id"@),
        forall|r: RowV| !of_project(r, id) ==> #[trigger] f(r) == r,
    ensures
        active_rows(rows.map_values(f), other) == active_rows(rows, other),
{
    let changed = rows.map_values(f);
    assert forall|i: int| 0 <= i < rows.len() implies rows[i] == changed[i] || (!counts(
        #[trigger] rows[i],
        other,
    ) && !counts(#[trigger] changed[i], other)) by {
        assert(changed[i] == f(rows[i]));
    }
    lemma_active_kept(rows, changed, other);
}

proof fn lemma_override_elsewhere(rows: Seq<RowV>, params: Seq<CellV>, other: CellV)
    requires
        params.len() == 11,
        params[0] != other,
    ensures
        active_rows(override_written(rows, params), other) == active_rows(rows, other),
{
    let columns = written_override_columns();
    let cells = params.insert(8, CellV::Text("active"@));
    let row = row_of(columns, cells);
    lemma_column_names();
    lemma_row_of(columns, cells);
    assert(columns[0] == "project_id"@ && cells[0] == params[0]);
    let at = override_at(rows, params[0], params[1]);
    lemma_override_at(rows, params[0], params[1]);
    let written = override_written(rows, params);
    lemma_other_override_names();
    if at < rows.len() {
        if let Some(c) = column(rows[at], "created_at"@) {
            lemma_with_cell(row, "created_at"@, c, "project_id"@);
        }
        assert forall|i: int| 0 <= i < rows.len() implies rows[i] == written[i] || (!counts(
            #[trigger] rows[i],
            other,
        ) && !counts(#[trigger] written[i], other)) by {
            assert(i != at ==> written[i] == rows[i]);
        }
        lemma_active_kept(rows, written, other);
    } else {
        lemma_pushed(rows, row, |r: RowV| counts(r, other));
    }
}

/// A statement about one project leaves the others.
#[verifier::rlimit(30)]
proof fn lemma_elsewhere(t: Tables, s: StatementV, project_id: Seq<char>, other: Seq<char>)
    requires
        concerns(s, CellV::Text(project_id)),
        other != project_id,
    ensures
        untouched(t, after(t, s), other),
{
    let id = CellV::Text(project_id);
    let oid = CellV::Text(other);
    match effect_of(s.sql) {
        Effect::Project => {
            let columns = written_project_columns();
            lemma_column_names();
            lemma_row_of(columns, s.params);
            assert(columns[0] == "project_id"@);
            lemma_project_written(t.projects, row_of(columns, s.params), id, oid);
        },
        Effect::Rule => {
            let columns = written_rule_columns();
            lemma_column_names();
            lemma_row_of(columns, s.params);
            assert(columns[0] == "project_id"@);
            lemma_pushed(
                t.rules,
                row_of(columns, s.params),
                |r: RowV| of_project(r, oid),
            );
        },
        Effect::Override => {
            lemma_override_elsewhere(t.overrides, s.params, oid);
        },
        Effect::ClearRules => {
            lemma_cleared(t.rules, id, oid);
        },
        Effect::Describe => {
            let f = |r: RowV| described(r, s.params);
            lemma_renewal_names();
            assert forall|r: RowV| column(#[trigger] f(r), "project_id"@) == column(
                r,
                "project_id"@,
            ) by {
                lemma_described(r, s.params, "project_id"@);
            }
            lemma_renewed(t.projects, f, oid);
            lemma_project_at(t.projects, oid);
        },
        Effect::Rename => {
            let f = |r: RowV| relabelled(r, s.params);
            lemma_renewal_names();
            assert forall|r: RowV| column(#[trigger] f(r), "project_id"@) == column(
                r,
                "project_id"@,
            ) by {
                lemma_relabelled(r, s.params, "project_id"@);
            }
            lemma_renewed(t.projects, f, oid);
            lemma_project_at(t.projects, oid);
        },
        Effect::Disable => {
            let f = |r: RowV| disabled(r, s.params);
            assert forall|r: RowV| column(#[trigger] f(r), "project_id"@) == column(
                r,
                "project_id"@,
            ) by {
                lemma_status_kept(r, s.params);
            }
            lemma_overrides_elsewhere(t.overrides, f, id, oid);
        },
        Effect::Keep => {
            let f = |r: RowV| kept(r, s.params);
            assert forall|r: RowV| column(#[trigger] f(r), "project_id"@) == column(
                r,
                "project_id"@,
            ) by {
                lemma_status_kept(r, s.params);
            }
            lemma_overrides_elsewhere(t.overrides, f, id, oid);
        },
        Effect::Conflict => {
            let f = |r: RowV| conflicting(r, s.params);
            assert forall|r: RowV| column(#[trigger] f(r), "project_id"@) == column(
                r,
                "project_id"@,
            ) by {
                lemma_status_kept(r, s.params);
            }
            lemma_overrides_elsewhere(t.overrides, f, id, oid);
        },
        _ => {},
    }
}

/// A transaction about one project leaves the others.
proof fn lemma_all_elsewhere(
    t: Tables,
    list: Seq<StatementV>,
    project_id: Seq<char>,
    other: Seq<char>,
)
    requires
        all_concern(list, project_id),
        other != project_id,
    ensures
        untouched(t, after_all(t, list), other),
    decreases list.len(),
{
    if list.len() > 0 {
        let front = list.drop_last();
        lemma_all_elsewhere(t, front, project_id, other);
        assert(concerns(list[list.len() - 1], CellV::Text(project_id)));
        lemma_elsewhere(after_all(t, front), list.last(), project_id, other);
    }
}

/// The form of the project rows stays.
proof fn lemma_formed(t: Tables, s: StatementV, id: CellV)
    requires
        formed(t),
        concerns(s, id),
    ensures
        formed(after(t, s)),
{
    let u = after(t, s);
    lemma_renewal_names();
    lemma_source_columns();
    match effect_of(s.sql) {
        Effect::Project => {
            let columns = written_project_columns();
            let row = row_of(columns, s.params);
            lemma_column_names();
            lemma_row_of(columns, s.params);
            assert(columns[3] == "schema_version"@ && columns[6] == "knowledge_revision"@
                && columns[7] == "description_json"@ && columns[8] == "created_at"@);
            let at = project_at(t.projects, s.params[0]);
            lemma_project_at(t.projects, s.params[0]);
            if at < t.projects.len() {
                if let Some(c) = column(t.projects[at], "created_at"@) {
                    lemma_names_kept(row, "created_at"@, c);
                    lemma_with_cell(row, "created_at"@, c, "schema_version"@);
                    lemma_with_cell(row, "created_at"@, c, "knowledge_revision"@);
                    lemma_with_cell(row, "created_at"@, c, "description_json"@);
                    assert(columns[3] != columns[8] && columns[6] != columns[8] && columns[7]
                        != columns[8]);
                }
                assert(formed_row(u.projects[at]));
            } else {
                assert(formed_row(row));
            }
            assert forall|i: int| 0 <= i < u.projects.len() implies formed_row(
                #[trigger] u.projects[i],
            ) by {
                if i < t.projects.len() && i != at {
                    assert(u.projects[i] == t.projects[i]);
                }
            }
        },
        Effect::Describe => {
            assert forall|i: int| 0 <= i < u.projects.len() implies formed_row(
                #[trigger] u.projects[i],
            ) by {
                let row = t.projects[i];
                assert(formed_row(row));
                lemma_renewals_keep_names(row, s.params, s.params);
                lemma_described(row, s.params, "schema_version"@);
                lemma_described(row, s.params, "knowledge_revision"@);
                lemma_described(row, s.params, "description_json"@);
            }
        },
        Effect::Rename => {
            assert forall|i: int| 0 <= i < u.projects.len() implies formed_row(
                #[trigger] u.projects[i],
            ) by {
                let row = t.projects[i];
                assert(formed_row(row));
                lemma_renewals_keep_names(row, s.params, s.params);
                lemma_relabelled(row, s.params, "schema_version"@);
                lemma_relabelled(row, s.params, "knowledge_revision"@);
                if of_project(row, s.params[4]) {
                    lemma_relabelled_description(row, s.params);
                }
            }
        },
        _ => {},
    }
}

proof fn lemma_all_formed(t: Tables, list: Seq<StatementV>, project_id: Seq<char>)
    requires
        formed(t),
        all_concern(list, project_id),
    ensures
        formed(after_all(t, list)),
    decreases list.len(),
{
    if list.len() > 0 {
        let front = list.drop_last();
        lemma_all_formed(t, front, project_id);
        assert(concerns(list[list.len() - 1], CellV::Text(project_id)));
        lemma_formed(after_all(t, front), list.last(), CellV::Text(project_id));
    }
}

// ---- whole operations ----

/// Where an operation stands after some replies, each with the time at which it came.
pub open spec fn service_after(
    db: Seq<char>,
    first: ServiceStepV,
    replies: Seq<(ReplyV, Seq<char>)>,
) -> ServiceStepV
    decreases replies.len(),
{
    if replies.len() == 0 {
        first
    } else {
        match service_after(db, first, replies.drop_last()) {
            StepV::Ask(_, stage) => next(db, stage, replies.last().0, replies.last().1),
            StepV::Done(result) => StepV::Done(result),
        }
    }
}

/// Whether a rule row is under one of the keys.
pub open spec fn keyed(row: RowV, keys: Seq<Seq<char>>) -> bool {
    column(row, "rule_key"@) matches Some(CellV::Text(key)) && keys.contains(key)
}

/// Whether the reply to a request fits the tables `t` and leaves the tables `u`. A query brings
/// what is stored; a transaction is done as a whole or not at all. Of queries other than those
/// that revisions rest on, nothing is said of what they bring.
pub open spec fn serves(t: Tables, request: RequestV, reply: ReplyV, u: Tables) -> bool {
    match (request, reply) {
        (RequestV::Query(_, query), ReplyV::Rows(rows)) => {
            &&& u == t
            &&& forall|id: Seq<char>|
                query == #[trigger] project_query(id) ==> rows == project_shown(t, id)
            &&& forall|id: Seq<char>| query == #[trigger] rules_query(id) ==> rows == rule_rows(t, id)
            &&& forall|id: Seq<char>|
                query == #[trigger] overrides_query(id, counting()) ==> rows == counting_rows(t, id)
            &&& forall|id: Seq<char>, keys: Seq<Seq<char>>, row: RowV|
                query == #[trigger] keyed_rules_query(id, keys) ==> (#[trigger] rows.contains(row)
                    <==> rule_rows(t, id).contains(row) && keyed(row, keys))
        },
        (RequestV::Write(list), ReplyV::Done) => u == after_all(t, list),
        (RequestV::Execute(s), ReplyV::Done) => u == after(t, s),
        _ => u == t,
    }
}

/// Whether `tables` are the tables before and after each reply to an operation.
pub open spec fn service_ran(
    db: Seq<char>,
    first: ServiceStepV,
    replies: Seq<(ReplyV, Seq<char>)>,
    tables: Seq<Tables>,
) -> bool
    decreases replies.len(),
{
    &&& tables.len() == replies.len() + 1
    &&& replies.len() > 0 ==> {
        let t = tables[tables.len() - 2];
        &&& service_ran(db, first, replies.drop_last(), tables.drop_last())
        &&& match service_after(db, first, replies.drop_last()) {
            StepV::Ask(request, _) => serves(t, request, replies.last().0, tables.last()),
            StepV::Done(_) => tables.last() == t,
        }
    }
}

/// The project whose knowledge an operation writes, where it writes.
pub open spec fn project_of(op: OperationV) -> Option<Seq<char>> {
    match op {
        OperationV::Prepare { project_id, .. } => Some(project_id),
        OperationV::Change { project_id, .. } => Some(project_id),
        OperationV::Unset { project_id, .. } => Some(project_id),
        OperationV::Resolve { project_id, .. } => Some(project_id),
        _ => None,
    }
}

/// The revision that an operation reports.
pub open spec fn reported_revision(value: JsonV) -> Option<Seq<char>> {
    match returned_revision(value) {
        Some(r) => Some(r),
        None => text_field(value, "knowledge_revision"@),
    }
}

/// Whether the overrides are those that setting or unsetting one leaves of the overrides before;
/// of other operations nothing is said.
pub open spec fn overrides_follow(op: OperationV, t: Tables, u: Tables) -> bool {
    match op {
        OperationV::Change { project_id, key, .. } => exists|
            job: OverrideJobV,
            hash: Seq<char>,
            now: Seq<char>,
        |
            {
                &&& job.project_id == project_id && job.key == key
                &&& u.overrides == (#[trigger] after_all(t, set_writes(job, hash, now))).overrides
            },
        OperationV::Unset { project_id, key, .. } => exists|job: OverrideJobV, now: Seq<char>|
            {
                &&& job.project_id == project_id && job.key == key
                &&& u.overrides == (#[trigger] after_all(t, unset_writes(job, now))).overrides
            },
        _ => true,
    }
}

/// Whether an operation on overrides keeps the stored checklist, and reports the status that it
/// gave and the revision that is stored.
pub open spec fn source_stays(op: OperationV, t: Tables, u: Tables, value: JsonV) -> bool {
    match op {
        OperationV::Change { project_id, .. } => {
            &&& u.rules == t.rules && source_of(u, project_id) == source_of(t, project_id)
            &&& text_field(value, "status"@) == Some("active"@)
            &&& text_field(value, "knowledge_revision"@) == revision_in(u, project_id)
        },
        OperationV::Unset { project_id, .. } => {
            &&& u.rules == t.rules && source_of(u, project_id) == source_of(t, project_id)
            &&& text_field(value, "status"@) == Some("disabled"@)
            &&& text_field(value, "knowledge_revision"@) == revision_in(u, project_id)
        },
        _ => true,
    }
}

/// Whether a checklist whose version and content hash are those that are stored for a project has
/// the content that is stored.
pub open spec fn hash_tells(t: Tables, project_id: Seq<char>, c: ChecklistV) -> bool {
    ({
        &&& first_object(project_shown(t, project_id)) matches Some(p)
        &&& !source_changed(p, c)
    }) ==> {
        &&& source_of(t, project_id) matches Some(source)
        &&& source.rules == c.rules
        &&& source.global_description == c.global_description
    }
}

/// Whether every override that counts is of a project that is stored, as its table demands.
pub open spec fn owned(t: Tables) -> bool {
    forall|project_id: Seq<char>|
        project_row(t.projects, CellV::Text(project_id)) is None ==> (#[trigger] active_rows(
            t.overrides,
            CellV::Text(project_id),
        )).len() == 0
}

/// Whether the checklists that replies bring for a project are told apart from the stored one by
/// their hashes, and have no more rules than 64 bits can number.
pub open spec fn files_fit(
    t: Tables,
    project_id: Seq<char>,
    replies: Seq<(ReplyV, Seq<char>)>,
) -> bool {
    forall|i: int|
        0 <= i < replies.len() ==> file_fits(t, project_id, (#[trigger] replies[i]).0)
}

/// [`files_fit`] for one reply.
pub open spec fn file_fits(t: Tables, project_id: Seq<char>, reply: ReplyV) -> bool {
    reply matches ReplyV::File(Some(raw)) ==> forall|path: Seq<char>|
        (#[trigger] checklist_of(path, Some(raw))) is Ok ==> checklist_fits(
            t,
            project_id,
            checklist_of(path, Some(raw))->Ok_0,
        )
}

/// [`files_fit`] for one checklist.
pub open spec fn checklist_fits(t: Tables, project_id: Seq<char>, c: ChecklistV) -> bool {
    c.rules.len() <= i64::MAX && hash_tells(t, project_id, c)
}

/// Whether other projects are as they were.
pub open spec fn elsewhere(t: Tables, u: Tables, project_id: Seq<char>) -> bool {
    forall|other: Seq<char>| other != project_id ==> #[trigger] untouched(t, u, other)
}

/// What holds after an operation on a project has succeeded.
#[verifier::opaque]
spec fn completed(
    op: OperationV,
    t: Tables,
    u: Tables,
    project_id: Seq<char>,
    value: JsonV,
) -> bool {
    &&& current(u, project_id)
    &&& formed(u)
    &&& elsewhere(t, u, project_id)
    &&& overrides_follow(op, t, u)
    &&& source_stays(op, t, u, value)
    &&& reported_revision(value) == revision_in(u, project_id)
}

/// Whether a transaction completes an operation on a project.
#[verifier::opaque]
spec fn completes(
    op: OperationV,
    t0: Tables,
    t: Tables,
    request: RequestV,
    project_id: Seq<char>,
    value: JsonV,
) -> bool {
    &&& request matches RequestV::Write(list)
    &&& all_concern(list, project_id)
    &&& ({
        let u = after_all(t, list);
        &&& current(u, project_id)
        &&& overrides_follow(op, t0, u)
        &&& source_stays(op, t0, u, value)
        &&& reported_revision(value) == revision_in(u, project_id)
    })
}

/// Whether a transaction writes overrides of a project alone.
spec fn writes_overrides(t: Tables, request: RequestV, project_id: Seq<char>) -> bool {
    &&& request matches RequestV::Write(list)
    &&& all_concern(list, project_id)
    &&& after_all(t, list).projects == t.projects
    &&& after_all(t, list).rules == t.rules
}

/// Whether a checklist is that of a file that fits.
spec fn read_from_file(t: Tables, project_id: Seq<char>, c: ChecklistV) -> bool {
    &&& exists|path: Seq<char>, raw: Seq<u8>|
        #[trigger] checklist_of(path, Some(raw)) == Ok::<ChecklistV, ErrorV>(c)
    &&& checklist_fits(t, project_id, c)
}

/// Whether an operation prepares a project.
spec fn prepares_project(op: OperationV) -> bool {
    op is Prepare || op is Resolve
}

/// What holds of an operation on a project that goes on.
#[verifier::opaque]
spec fn on_course(
    op: OperationV,
    t0: Tables,
    t: Tables,
    request: RequestV,
    stage: StageV,
    id: Seq<char>,
) -> bool {
    &&& project_of(op) == Some(id)
    &&& t.projects == t0.projects && t.rules == t0.rules
    &&& elsewhere(t0, t, id)
    &&& match stage {
        StageV::PrepareRead(job) => {
            &&& prepares_project(op) && job.project_id == id
            &&& request is ReadFile
            &&& project_row(t.projects, CellV::Text(id)) is None ==> active_rows(
                t.overrides,
                CellV::Text(id),
            ).len() == 0
        },
        StageV::PrepareProject(job, c) => {
            &&& prepares_project(op) && job.project_id == id
            &&& request == RequestV::Query(Handle::Main, project_query(id))
            &&& read_from_file(t0, id, c)
            &&& project_row(t.projects, CellV::Text(id)) is None ==> active_rows(
                t.overrides,
                CellV::Text(id),
            ).len() == 0
        },
        StageV::PrepareConflicts(job, c, p) => {
            &&& prepares_project(op) && job.project_id == id
            &&& request is Query
            &&& read_from_file(t0, id, c)
            &&& first_object(project_shown(t, id)) == Some(p)
        },
        StageV::PrepareMarked(..) => prepares_project(op),
        StageV::PrepareActive(job, c, p) => {
            &&& prepares_project(op) && job.project_id == id
            &&& request == RequestV::Query(Handle::Main, overrides_query(id, counting()))
            &&& read_from_file(t0, id, c)
            &&& first_object(project_shown(t, id)) == Some(p)
        },
        StageV::PrepareRecheck(r) => {
            &&& prepares_project(op) && r.job.project_id == id
            &&& request is Query
            &&& read_from_file(t0, id, r.checklist)
            &&& overrides_in(counting_rows(t, id)) matches Ok(o) && r.description
                == description_value(
                id,
                r.job.project_name,
                effective_checklist(r.checklist, o),
            )
        },
        StageV::PrepareWritten(value) => completes(op, t0, t, request, id, value),
        StageV::Completed(value) => completes(op, t0, t, request, id, value),
        StageV::SetProject(job) => {
            &&& t == t0
            &&& request is Query
            &&& op matches OperationV::Change { key, .. } && job.project_id == id && job.key == key
        },
        StageV::SetSource(job) => {
            &&& t == t0
            &&& request is Query
            &&& op matches OperationV::Change { key, .. } && job.project_id == id && job.key == key
        },
        StageV::UnsetProject(job) => {
            &&& t == t0
            &&& request is Query
            &&& op matches OperationV::Unset { key, .. } && job.project_id == id && job.key == key
        },
        StageV::UnsetFound(job) => {
            &&& t == t0
            &&& request is Query
            &&& op matches OperationV::Unset { key, .. } && job.project_id == id && job.key == key
        },
        StageV::RenewWritten(job) => {
            &&& renews(op, job, id)
            &&& writes_overrides(t, request, id)
            &&& overrides_follow(op, t0, after_all(t, request->Write_0))
        },
        StageV::RenewProject(job) => {
            &&& renews(op, job, id)
            &&& overrides_follow(op, t0, t)
            &&& request == RequestV::Query(Handle::Main, project_query(id))
        },
        StageV::RenewRules(job, base, name) => {
            &&& renews(op, job, id)
            &&& overrides_follow(op, t0, t)
            &&& request == RequestV::Query(Handle::Main, rules_query(id))
            &&& first_object(project_shown(t, id)) matches Some(p) && stored_description(p) matches Ok(
                d,
            ) && base == stored_checklist(p, d)
        },
        StageV::RenewOverrides(job, source, name) => {
            &&& renews(op, job, id)
            &&& overrides_follow(op, t0, t)
            &&& request == RequestV::Query(Handle::Main, overrides_query(id, counting()))
            &&& source_of(t, id) == Some(source)
        },
        StageV::ResolveProject(job) => {
            &&& op is Resolve && job.project_id == id
            &&& request == RequestV::Query(Handle::Main, project_query(id))
        },
        StageV::ResolveRead(job, _) => {
            &&& op is Resolve && job.project_id == id
            &&& request is ReadFile
            &&& project_row(t.projects, CellV::Text(id)) is Some
        },
        StageV::ResolveFound(job, _, _) => {
            &&& op is Resolve && job.project_id == id
            &&& request is Query
            &&& project_row(t.projects, CellV::Text(id)) is Some
        },
        StageV::ResolveWritten(job, _) => {
            &&& op is Resolve && job.project_id == id
            &&& writes_overrides(t, request, id)
            &&& project_row(t.projects, CellV::Text(id)) is Some
        },
        _ => false,
    }
}

/// Whether a description is renewed after an override of a project was set or unset.
spec fn renews(op: OperationV, job: RenewJobV, project_id: Seq<char>) -> bool {
    &&& job.project_id == project_id
    &&& op is Change && job.status == "active"@ || op is Unset && job.status == "disabled"@
}

/// What holds of the next step of an operation on a project.
#[verifier::opaque]
spec fn goes_on(
    op: OperationV,
    t0: Tables,
    u: Tables,
    step: ServiceStepV,
    id: Seq<char>,
) -> bool {
    match step {
        StepV::Ask(request, stage) => on_course(op, t0, u, request, stage, id),
        StepV::Done(Ok(value)) => completed(op, t0, u, id, value),
        StepV::Done(Err(_)) => true,
    }
}

/// The next step of an operation.
#[verifier::opaque]
spec fn following(db: Seq<char>, stage: StageV, reply: ReplyV, now: Seq<char>) -> ServiceStepV {
    next(db, stage, reply, now)
}

/// A transaction that completes an operation leaves what holds then.
proof fn lemma_completes(
    op: OperationV,
    t0: Tables,
    t: Tables,
    request: RequestV,
    id: Seq<char>,
    value: JsonV,
)
    requires
        formed(t),
        elsewhere(t0, t, id),
        completes(op, t0, t, request, id, value),
    ensures
        request is Write,
        completed(op, t0, after_all(t, request->Write_0), id, value),
{
    reveal(completes);
    reveal(completed);
    let list = request->Write_0;
    let u = after_all(t, list);
    lemma_all_formed(t, list, id);
    assert forall|other: Seq<char>| other != id implies #[trigger] untouched(t0, u, other) by {
        assert(untouched(t0, t, other));
        lemma_all_elsewhere(t, list, id, other);
    }
}

/// What is stored of a project does not depend on the overrides.
proof fn lemma_same_source(t: Tables, u: Tables, id: Seq<char>)
    requires
        u.projects == t.projects,
        u.rules == t.rules,
    ensures
        project_shown(u, id) == project_shown(t, id),
        rule_rows(u, id) == rule_rows(t, id),
        source_of(u, id) == source_of(t, id),
{
}

proof fn lemma_replacement_concerns(
    known: Option<JsonV>,
    project_id: Seq<char>,
    name: Seq<char>,
    path: Seq<char>,
    checklist: ChecklistV,
    revision: Seq<char>,
    description: JsonV,
    action: Seq<char>,
    warnings: Seq<Seq<char>>,
    now: Seq<char>,
)
    requires
        i64::MIN <= checklist.schema_version <= i64::MAX,
    ensures
        all_concern(
            replacement(
                known,
                project_id,
                name,
                path,
                checklist,
                revision,
                description,
                action,
                warnings,
                now,
            ),
            project_id,
        ),
{
    let list = replacement(
        known,
        project_id,
        name,
        path,
        checklist,
        revision,
        description,
        action,
        warnings,
        now,
    );
    lemma_effects();
    assert forall|i: int| 0 <= i < list.len() implies concerns(
        #[trigger] list[i],
        CellV::Text(project_id),
    ) by {
        let n = checklist.rules.len();
        if i == 0 {
            assert(list[i] == project_upsert(
                project_id,
                name,
                path,
                checklist,
                revision,
                description,
                now,
            ));
        } else if i == 1 {
            assert(list[i] == rules_delete(project_id));
        } else if i < n + 2 {
            assert(list[i] == rule_insert(project_id, checklist.rules[i - 2], i - 2));
        }
    }
}

proof fn lemma_description_concerns(
    project_id: Seq<char>,
    revision: Seq<char>,
    description: JsonV,
    now: Seq<char>,
)
    ensures
        all_concern(description_writes(project_id, revision, description, now), project_id),
{
    lemma_effects();
}

proof fn lemma_reuse_concerns(project: JsonV, job: PrepareJobV, description: JsonV, now: Seq<char>)
    ensures
        all_concern(reuse_writes(project, job, description, now), job.project_id),
{
    lemma_effects();
    let list = reuse_writes(project, job, description, now);
    if let Some(revision) = carried_revision(description) {
        lemma_description_concerns(job.project_id, revision, description, now);
        let renewal = description_writes(job.project_id, revision, description, now);
        assert forall|i: int| 0 <= i < list.len() implies concerns(
            #[trigger] list[i],
            CellV::Text(job.project_id),
        ) by {
            let naming = list.len() - renewal.len();
            if !revision_stored(project, description) && i >= naming {
                assert(list[i] == renewal[i - naming]);
            }
        }
    }
}

/// What a `prepare` does that reuses a project.
proof fn lemma_reuse_completes(
    op: OperationV,
    t0: Tables,
    t: Tables,
    job: PrepareJobV,
    c: ChecklistV,
    p: JsonV,
    overrides: Seq<JsonV>,
    now: Seq<char>,
)
    requires
        reads_back(),
        formed(t),
        prepares_project(op),
        t.projects == t0.projects && t.rules == t0.rules,
        read_from_file(t0, job.project_id, c),
        first_object(project_shown(t, job.project_id)) == Some(p),
        !source_changed(p, c),
        overrides_in(counting_rows(t, job.project_id)) == Ok::<Seq<JsonV>, Seq<char>>(overrides),
    ensures
        ({
            let d = description_value(
                job.project_id,
                job.project_name,
                effective_checklist(c, overrides),
            );
            completes(
                op,
                t0,
                t,
                RequestV::Write(reuse_writes(p, job, d, now)),
                job.project_id,
                prepare_value(job, c, d, "reused"@, reuse_warnings(p, job)),
            )
        }),
{
    let id = job.project_id;
    let effective = effective_checklist(c, overrides);
    let d = description_value(id, job.project_name, effective);
    let (path, raw) = choose|path: Seq<char>, raw: Seq<u8>|
        #[trigger] checklist_of(path, Some(raw)) == Ok::<ChecklistV, ErrorV>(c);
    lemma_same_source(t0, t, id);
    let source = source_of(t, id)->0;
    an_accepted_checklist_is_proper(path, raw);
    lemma_reuse(t, job, c, source, overrides, p, now);
    lemma_reuse_concerns(p, job, d, now);
    description_carries_revision(id, job.project_name, effective);
    lemma_returned(job, c, d, "reused"@, reuse_warnings(p, job));
    reveal(completes);
}

/// What a `prepare` decides on.
#[verifier::rlimit(40)]
proof fn lemma_decided(
    op: OperationV,
    t0: Tables,
    t: Tables,
    job: PrepareJobV,
    c: ChecklistV,
    known: Option<JsonV>,
    overrides: Seq<JsonV>,
    now: Seq<char>,
)
    requires
        reads_back(),
        formed(t),
        project_of(op) == Some(job.project_id),
        prepares_project(op),
        t.projects == t0.projects && t.rules == t0.rules,
        elsewhere(t0, t, job.project_id),
        read_from_file(t0, job.project_id, c),
        known == first_object(project_shown(t, job.project_id)),
        overrides_in(counting_rows(t, job.project_id)) == Ok::<Seq<JsonV>, Seq<char>>(overrides),
    ensures
        goes_on(op, t0, t, prepare_decide(job, c, known, overrides, now), job.project_id),
{
    reveal(goes_on);
    reveal(on_course);
    let id = job.project_id;
    let d = description_value(id, job.project_name, effective_checklist(c, overrides));
    if let Some(p) = known {
        if !source_changed(p, c) && !job.force {
            let writes = reuse_writes(p, job, d, now);
            let value = prepare_value(job, c, d, "reused"@, reuse_warnings(p, job));
            lemma_reuse_completes(op, t0, t, job, c, p, overrides, now);
            if writes.len() == 0 {
                lemma_completes(op, t0, t, RequestV::Write(writes), id, value);
                assert(after_all(t, writes) == t);
            }
        }
    }
}

/// What a `prepare` does that replaces a project.
proof fn lemma_replace_completes(
    op: OperationV,
    t0: Tables,
    t: Tables,
    r: RefreshV,
    overrides: Seq<JsonV>,
    known: Option<JsonV>,
    now: Seq<char>,
)
    requires
        reads_back(),
        prepares_project(op),
        read_from_file(t0, r.job.project_id, r.checklist),
        overrides_in(counting_rows(t, r.job.project_id)) == Ok::<Seq<JsonV>, Seq<char>>(overrides),
        r.description == description_value(
            r.job.project_id,
            r.job.project_name,
            effective_checklist(r.checklist, overrides),
        ),
    ensures
        prepare_replace(r, known, now) matches StepV::Ask(request, StageV::PrepareWritten(value))
            && completes(op, t0, t, request, r.job.project_id, value),
{
    let id = r.job.project_id;
    let (path, raw) = choose|path: Seq<char>, raw: Seq<u8>|
        #[trigger] checklist_of(path, Some(raw)) == Ok::<ChecklistV, ErrorV>(r.checklist);
    an_accepted_checklist_is_proper(path, raw);
    let effective = effective_checklist(r.checklist, overrides);
    let revision = revision_of(effective);
    description_carries_revision(id, r.job.project_name, effective);
    lemma_refresh(
        t,
        known,
        id,
        r.job.project_name,
        r.job.path,
        r.checklist,
        overrides,
        r.action,
        r.warnings,
        now,
    );
    lemma_replacement_concerns(
        known,
        id,
        r.job.project_name,
        r.job.path,
        r.checklist,
        revision,
        r.description,
        r.action,
        r.warnings,
        now,
    );
    lemma_returned(r.job, r.checklist, r.description, r.status, r.warnings);
    lemma_refreshed_revision(
        t,
        known,
        id,
        r.job.project_name,
        r.job.path,
        r.checklist,
        revision,
        r.description,
        r.action,
        r.warnings,
        now,
    );
    reveal(completes);
}

/// A `prepare` goes on after its checklist was read.
proof fn lemma_after_file(
    op: OperationV,
    t0: Tables,
    t: Tables,
    u: Tables,
    request: RequestV,
    stage: StageV,
    id: Seq<char>,
    db: Seq<char>,
    reply: ReplyV,
    now: Seq<char>,
)
    requires
        reads_back(),
        formed(t0),
        file_fits(t0, id, reply),
        on_course(op, t0, t, request, stage, id),
        serves(t, request, reply, u),
        stage is PrepareRead,
    ensures
        goes_on(op, t0, u, following(db, stage, reply, now), id),
{
    reveal(goes_on);
    reveal(on_course);
    reveal(following);
    if let StageV::PrepareRead(job) = stage {
        if let ReplyV::File(Some(raw)) = reply {
            if let Ok(c) = checklist_of(job.path, Some(raw)) {
                assert(read_from_file(t0, id, c));
            }
        }
    }
}

/// A `prepare` goes on after its project was looked up.
proof fn lemma_after_project(
    op: OperationV,
    t0: Tables,
    t: Tables,
    u: Tables,
    request: RequestV,
    stage: StageV,
    id: Seq<char>,
    db: Seq<char>,
    reply: ReplyV,
    now: Seq<char>,
)
    requires
        reads_back(),
        formed(t0),
        file_fits(t0, id, reply),
        on_course(op, t0, t, request, stage, id),
        serves(t, request, reply, u),
        stage is PrepareProject,
    ensures
        goes_on(op, t0, u, following(db, stage, reply, now), id),
{
    reveal(goes_on);
    reveal(on_course);
    reveal(following);
    if let StageV::PrepareProject(job, c) = stage {
        if let ReplyV::Rows(rows) = reply {
            assert(rows == project_shown(t, id));
            if first_object(rows) is None {
                assert(project_row(t.projects, CellV::Text(id)) is None);
                assert(active_rows(t.overrides, CellV::Text(id)) =~= Seq::empty());
                assert(counting_rows(t, id) =~= Seq::empty());
                assert(overrides_in(counting_rows(t, id)) == Ok::<Seq<JsonV>, Seq<char>>(
                    Seq::empty(),
                ));
                lemma_decided(op, t0, t, job, c, None, Seq::empty(), now);
            }
        }
    }
}

/// A `prepare` goes on after the overrides that count were read.
proof fn lemma_after_overrides(
    op: OperationV,
    t0: Tables,
    t: Tables,
    u: Tables,
    request: RequestV,
    stage: StageV,
    id: Seq<char>,
    db: Seq<char>,
    reply: ReplyV,
    now: Seq<char>,
)
    requires
        reads_back(),
        formed(t0),
        file_fits(t0, id, reply),
        on_course(op, t0, t, request, stage, id),
        serves(t, request, reply, u),
        stage is PrepareActive,
    ensures
        goes_on(op, t0, u, following(db, stage, reply, now), id),
{
    reveal(goes_on);
    reveal(on_course);
    reveal(following);
    if let StageV::PrepareActive(job, c, p) = stage {
        if let ReplyV::Rows(rows) = reply {
            assert(rows == counting_rows(t, id));
            if let Ok(list) = overrides_in(rows) {
                lemma_decided(op, t0, t, job, c, Some(p), list, now);
            }
        }
    }
}

/// A `prepare` goes on after its project was looked up once more.
proof fn lemma_after_recheck(
    op: OperationV,
    t0: Tables,
    t: Tables,
    u: Tables,
    request: RequestV,
    stage: StageV,
    id: Seq<char>,
    db: Seq<char>,
    reply: ReplyV,
    now: Seq<char>,
)
    requires
        reads_back(),
        formed(t0),
        file_fits(t0, id, reply),
        on_course(op, t0, t, request, stage, id),
        serves(t, request, reply, u),
        stage is PrepareRecheck,
    ensures
        goes_on(op, t0, u, following(db, stage, reply, now), id),
{
    reveal(goes_on);
    reveal(on_course);
    reveal(following);
    if let StageV::PrepareRecheck(r) = stage {
        if let ReplyV::Rows(rows) = reply {
            let o = overrides_in(counting_rows(t, id))->Ok_0;
            lemma_replace_completes(op, t0, t, r, o, first_object(rows), now);
        }
    }
}

/// A `prepare` goes on after the contested overrides were read or marked.
proof fn lemma_after_conflicts(
    op: OperationV,
    t0: Tables,
    t: Tables,
    u: Tables,
    request: RequestV,
    stage: StageV,
    id: Seq<char>,
    db: Seq<char>,
    reply: ReplyV,
    now: Seq<char>,
)
    requires
        reads_back(),
        formed(t0),
        on_course(op, t0, t, request, stage, id),
        serves(t, request, reply, u),
        stage is PrepareConflicts || stage is PrepareMarked,
    ensures
        goes_on(op, t0, u, following(db, stage, reply, now), id),
{
    reveal(goes_on);
    reveal(on_course);
    reveal(following);
}

/// An operation ends after its last transaction.
proof fn lemma_after_last(
    op: OperationV,
    t0: Tables,
    t: Tables,
    u: Tables,
    request: RequestV,
    stage: StageV,
    id: Seq<char>,
    db: Seq<char>,
    reply: ReplyV,
    now: Seq<char>,
)
    requires
        reads_back(),
        formed(t0),
        on_course(op, t0, t, request, stage, id),
        serves(t, request, reply, u),
        stage is PrepareWritten || stage is Completed,
    ensures
        goes_on(op, t0, u, following(db, stage, reply, now), id),
{
    reveal(goes_on);
    reveal(on_course);
    reveal(following);
    if reply is Done {
        match stage {
            StageV::PrepareWritten(value) => {
                lemma_completes(op, t0, t, request, id, value);
            },
            StageV::Completed(value) => {
                lemma_completes(op, t0, t, request, id, value);
            },
            _ => {},
        }
    }
}

/// The revision that a project is read with after a refresh.
proof fn lemma_refreshed_revision(
    t: Tables,
    known: Option<JsonV>,
    project_id: Seq<char>,
    name: Seq<char>,
    path: Seq<char>,
    checklist: ChecklistV,
    revision: Seq<char>,
    description: JsonV,
    action: Seq<char>,
    warnings: Seq<Seq<char>>,
    now: Seq<char>,
)
    requires
        checklist.rules.len() <= i64::MAX,
    ensures
        revision_in(
            after_all(
                t,
                replacement(
                    known,
                    project_id,
                    name,
                    path,
                    checklist,
                    revision,
                    description,
                    action,
                    warnings,
                    now,
                ),
            ),
            project_id,
        ) == Some(revision),
{
    a_refresh_is_read_back(
        t,
        known,
        project_id,
        name,
        path,
        checklist,
        revision,
        description,
        action,
        warnings,
        now,
        project_id,
    );
    let u = after_all(
        t,
        replacement(
            known,
            project_id,
            name,
            path,
            checklist,
            revision,
            description,
            action,
            warnings,
            now,
        ),
    );
    let id = CellV::Text(project_id);
    let row = project_row(u.projects, id)->0;
    let n = rows_of_project(u.rules, id).len() as int;
    lemma_shown_fields(row, n);
    assert(written_project_columns()[6] == "knowledge_revision"@);
    assert(first_object(project_shown(u, project_id)) == Some(row_object(counted(row, n))));
}

/// A statement on overrides with its entry in the audit log writes overrides of the project alone.
proof fn lemma_override_writes(t: Tables, s: StatementV, entry: StatementV, project_id: Seq<char>)
    requires
        concerns(s, CellV::Text(project_id)),
        effect_of(s.sql) is Override || effect_of(s.sql) is Disable || effect_of(s.sql) is Keep,
        effect_of(entry.sql) is Audit,
    ensures
        writes_overrides(t, RequestV::Write(seq![s, entry]), project_id),
{
    let list = seq![s, entry];
    lemma_two(t, s, entry);
    assert forall|i: int| 0 <= i < list.len() implies concerns(
        #[trigger] list[i],
        CellV::Text(project_id),
    ) by {
        assert(list[i] == s || list[i] == entry);
    }
}

proof fn lemma_set_writes(t: Tables, job: OverrideJobV, hash: Seq<char>, now: Seq<char>)
    ensures
        writes_overrides(t, RequestV::Write(set_writes(job, hash, now)), job.project_id),
{
    lemma_effects();
    let list = set_writes(job, hash, now);
    lemma_override_writes(t, list[0], list[1], job.project_id);
    assert(list =~= seq![list[0], list[1]]);
}

proof fn lemma_unset_writes(t: Tables, job: OverrideJobV, now: Seq<char>)
    ensures
        writes_overrides(t, RequestV::Write(unset_writes(job, now)), job.project_id),
{
    lemma_effects();
    let list = unset_writes(job, now);
    lemma_override_writes(t, list[0], list[1], job.project_id);
    assert(list =~= seq![list[0], list[1]]);
}

proof fn lemma_resolution(
    t: Tables,
    project_id: Seq<char>,
    key: Seq<char>,
    keep: bool,
    hash: Option<Seq<char>>,
    reason: Seq<char>,
    found: Option<JsonV>,
    now: Seq<char>,
)
    ensures
        resolution(project_id, key, keep, hash, reason, found, now) matches Ok(list)
            ==> writes_overrides(t, RequestV::Write(list), project_id),
{
    lemma_effects();
    if let Ok(list) = resolution(project_id, key, keep, hash, reason, found, now) {
        lemma_override_writes(t, list[0], list[1], project_id);
        assert(list =~= seq![list[0], list[1]]);
    }
}

/// After a transaction on overrides an operation is on course.
proof fn lemma_overrides_written(t0: Tables, t: Tables, list: Seq<StatementV>, id: Seq<char>)
    requires
        elsewhere(t0, t, id),
        all_concern(list, id),
    ensures
        elsewhere(t0, after_all(t, list), id),
{
    assert forall|other: Seq<char>| other != id implies #[trigger] untouched(
        t0,
        after_all(t, list),
        other,
    ) by {
        assert(untouched(t0, t, other));
        lemma_all_elsewhere(t, list, id, other);
    }
}

/// Setting an override goes on.
proof fn lemma_while_setting(
    op: OperationV,
    t0: Tables,
    t: Tables,
    u: Tables,
    request: RequestV,
    stage: StageV,
    id: Seq<char>,
    db: Seq<char>,
    reply: ReplyV,
    now: Seq<char>,
)
    requires
        reads_back(),
        formed(t0),
        on_course(op, t0, t, request, stage, id),
        serves(t, request, reply, u),
        stage is SetProject || stage is SetSource,
    ensures
        goes_on(op, t0, u, following(db, stage, reply, now), id),
{
    reveal(goes_on);
    reveal(on_course);
    reveal(following);
    if let StageV::SetSource(job) = stage {
        if let ReplyV::Rows(rows) = reply {
            if let Some(hash) = first_text(rows) {
                let list = set_writes(job, hash, now);
                lemma_set_writes(t, job, hash, now);
                assert(overrides_follow(op, t0, after_all(t, list)));
            }
        }
    }
}

/// Unsetting an override goes on.
proof fn lemma_while_unsetting(
    op: OperationV,
    t0: Tables,
    t: Tables,
    u: Tables,
    request: RequestV,
    stage: StageV,
    id: Seq<char>,
    db: Seq<char>,
    reply: ReplyV,
    now: Seq<char>,
)
    requires
        reads_back(),
        formed(t0),
        on_course(op, t0, t, request, stage, id),
        serves(t, request, reply, u),
        stage is UnsetProject || stage is UnsetFound,
    ensures
        goes_on(op, t0, u, following(db, stage, reply, now), id),
{
    reveal(goes_on);
    reveal(on_course);
    reveal(following);
    if let StageV::UnsetFound(job) = stage {
        if let ReplyV::Rows(rows) = reply {
            let list = unset_writes(job, now);
            lemma_unset_writes(t, job, now);
            assert(overrides_follow(op, t0, after_all(t, list)));
        }
    }
}

/// Renewing a description goes on until its overrides are read.
proof fn lemma_before_renewing(
    op: OperationV,
    t0: Tables,
    t: Tables,
    u: Tables,
    request: RequestV,
    stage: StageV,
    id: Seq<char>,
    db: Seq<char>,
    reply: ReplyV,
    now: Seq<char>,
)
    requires
        reads_back(),
        formed(t0),
        on_course(op, t0, t, request, stage, id),
        serves(t, request, reply, u),
        stage is RenewWritten || stage is RenewProject || stage is RenewRules,
    ensures
        goes_on(op, t0, u, following(db, stage, reply, now), id),
{
    reveal(goes_on);
    reveal(on_course);
    reveal(following);
    match stage {
        StageV::RenewWritten(job) => {
            if reply is Done {
                lemma_overrides_written(t0, t, request->Write_0, id);
            }
        },
        StageV::RenewProject(job) => {
            if let ReplyV::Rows(rows) = reply {
                assert(rows == project_shown(t, id));
            }
        },
        StageV::RenewRules(job, base, name) => {
            if let ReplyV::Rows(rows) = reply {
                assert(rows == rule_rows(t, id));
                if let Ok(list) = rules_in(rows) {
                    let p = first_object(project_shown(t, id))->0;
                    assert(ChecklistV { rules: stored_rules(list), ..base } == stored_source(
                        p,
                        stored_description(p)->Ok_0,
                        list,
                    ));
                }
            }
        },
        _ => {},
    }
}

/// The transaction that renews a description completes the operation.
proof fn lemma_renewal_completes(
    op: OperationV,
    t0: Tables,
    t: Tables,
    id: Seq<char>,
    job: RenewJobV,
    source: ChecklistV,
    name: Seq<char>,
    overrides: Seq<JsonV>,
    now: Seq<char>,
)
    requires
        reads_back(),
        formed(t0),
        project_of(op) == Some(id),
        t.projects == t0.projects && t.rules == t0.rules,
        renews(op, job, id),
        overrides_follow(op, t0, t),
        source_of(t, id) == Some(source),
        overrides_in(counting_rows(t, id)) == Ok::<Seq<JsonV>, Seq<char>>(overrides),
    ensures
        renew_description(job, source, name, overrides, now) matches StepV::Ask(
            request,
            StageV::Completed(value),
        ) && completes(op, t0, t, request, id, value),
{
    let effective = effective_checklist(source, overrides);
    let revision = revision_of(effective);
    let d = description_value(id, name, effective);
    let list = description_writes(id, revision, d, now);
    let u = after_all(t, list);
    let value = renew_value(job, revision);
    lemma_renewal(t, id, name, source, overrides, now);
    lemma_description_concerns(id, revision, d, now);
    lemma_description_written(t, id, revision, d, now);
    lemma_same_source(t0, t, id);
    lemma_renew_value(job, revision);
    lemma_no_context(job, revision);
    assert(overrides_follow(op, t0, u)) by {
        assert(u.overrides == t.overrides);
    }
    reveal(completes);
}

/// What a renewal reports has no selection context.
proof fn lemma_no_context(job: RenewJobV, revision: Seq<char>)
    ensures
        field(renew_value(job, revision), "selection_context"@) is None,
{
    reveal_strlit("selection_context");
    reveal_strlit("project_id");
    reveal_strlit("key");
    reveal_strlit("status");
    reveal_strlit("knowledge_revision");
    assert("selection_context"@.len() == 17 && "project_id"@.len() == 10 && "key"@.len() == 3
        && "status"@.len() == 6 && "knowledge_revision"@.len() == 18);
    let a = detail("project_id"@, JsonV::Text(job.project_id));
    let b = and_detail(a, "key"@, JsonV::Text(job.key));
    let c = and_detail(b, "status"@, JsonV::Text(job.status));
    lemma_detail("project_id"@, JsonV::Text(job.project_id));
    lemma_and_detail(a, "key"@, JsonV::Text(job.key));
    lemma_and_detail(b, "status"@, JsonV::Text(job.status));
    lemma_and_detail(c, "knowledge_revision"@, JsonV::Text(revision));
}

/// Renewing a description goes on after its overrides are read.
proof fn lemma_while_renewing(
    op: OperationV,
    t0: Tables,
    t: Tables,
    u: Tables,
    request: RequestV,
    stage: StageV,
    id: Seq<char>,
    db: Seq<char>,
    reply: ReplyV,
    now: Seq<char>,
)
    requires
        reads_back(),
        formed(t0),
        on_course(op, t0, t, request, stage, id),
        serves(t, request, reply, u),
        stage is RenewOverrides,
    ensures
        goes_on(op, t0, u, following(db, stage, reply, now), id),
{
    reveal(goes_on);
    reveal(on_course);
    reveal(following);
    if let StageV::RenewOverrides(job, source, name) = stage {
        if let ReplyV::Rows(rows) = reply {
            assert(rows == counting_rows(t, id));
            if let Ok(list) = overrides_in(rows) {
                lemma_renewal_completes(op, t0, t, id, job, source, name, list, now);
            }
        }
    }
}

/// Resolving a conflict goes on.
proof fn lemma_while_resolving(
    op: OperationV,
    t0: Tables,
    t: Tables,
    u: Tables,
    request: RequestV,
    stage: StageV,
    id: Seq<char>,
    db: Seq<char>,
    reply: ReplyV,
    now: Seq<char>,
)
    requires
        reads_back(),
        formed(t0),
        on_course(op, t0, t, request, stage, id),
        serves(t, request, reply, u),
        stage is ResolveProject || stage is ResolveRead || stage is ResolveFound
            || stage is ResolveWritten,
    ensures
        goes_on(op, t0, u, following(db, stage, reply, now), id),
{
    reveal(goes_on);
    reveal(on_course);
    reveal(following);
    match stage {
        StageV::ResolveProject(job) => {
            if let ReplyV::Rows(rows) = reply {
                assert(rows == project_shown(t, id));
            }
        },
        StageV::ResolveFound(job, name, hash) => {
            if let ReplyV::Rows(rows) = reply {
                if let Ok(found) = first_override(rows) {
                    lemma_resolution(
                        t,
                        id,
                        job.key,
                        job.strategy == "keep-override"@,
                        hash,
                        trimmed(job.reason),
                        found,
                        now,
                    );
                }
            }
        },
        StageV::ResolveWritten(job, name) => {
            if reply is Done {
                lemma_overrides_written(t0, t, request->Write_0, id);
            }
        },
        _ => {},
    }
}

/// The first step of an operation on a project.
proof fn lemma_starts(
    op: OperationV,
    t: Tables,
    l: LocationV,
    home: Option<Seq<char>>,
    cwd: Seq<char>,
    id: Seq<char>,
)
    requires
        op is Prepare ==> owned(t),
        project_of(op) == Some(id),
    ensures
        goes_on(op, t, t, operation_start(op, l, home, cwd), id),
{
    reveal(goes_on);
    reveal(on_course);
}

/// The stages of an operation on a project.
proof fn lemma_stages(
    op: OperationV,
    t0: Tables,
    t: Tables,
    request: RequestV,
    stage: StageV,
    id: Seq<char>,
)
    requires
        on_course(op, t0, t, request, stage, id),
    ensures
        match stage {
            StageV::PrepareRead(..) => prepares_project(op),
            StageV::PrepareProject(..) => prepares_project(op),
            StageV::PrepareActive(..) => prepares_project(op),
            StageV::PrepareRecheck(..) => prepares_project(op),
            StageV::PrepareConflicts(..) => true,
            StageV::PrepareMarked(..) => true,
            StageV::PrepareWritten(..) => true,
            StageV::Completed(..) => true,
            StageV::SetProject(..) => true,
            StageV::SetSource(..) => true,
            StageV::UnsetProject(..) => true,
            StageV::UnsetFound(..) => true,
            StageV::RenewWritten(..) => true,
            StageV::RenewProject(..) => true,
            StageV::RenewRules(..) => true,
            StageV::RenewOverrides(..) => true,
            _ => stage is ResolveProject || stage is ResolveRead || stage is ResolveFound
                || stage is ResolveWritten,
        },
{
    reveal(on_course);
}

/// A step of an operation on a project.
proof fn lemma_goes_on(
    op: OperationV,
    t0: Tables,
    t: Tables,
    u: Tables,
    request: RequestV,
    stage: StageV,
    id: Seq<char>,
    db: Seq<char>,
    reply: ReplyV,
    now: Seq<char>,
)
    requires
        reads_back(),
        formed(t0),
        prepares_project(op) ==> file_fits(t0, id, reply),
        on_course(op, t0, t, request, stage, id),
        serves(t, request, reply, u),
    ensures
        goes_on(op, t0, u, following(db, stage, reply, now), id),
{
    lemma_stages(op, t0, t, request, stage, id);
    match stage {
        StageV::PrepareRead(..) => {
            lemma_after_file(op, t0, t, u, request, stage, id, db, reply, now);
        },
        StageV::PrepareProject(..) => {
            lemma_after_project(op, t0, t, u, request, stage, id, db, reply, now);
        },
        StageV::PrepareConflicts(..) | StageV::PrepareMarked(..) => {
            lemma_after_conflicts(op, t0, t, u, request, stage, id, db, reply, now);
        },
        StageV::PrepareActive(..) => {
            lemma_after_overrides(op, t0, t, u, request, stage, id, db, reply, now);
        },
        StageV::PrepareRecheck(..) => {
            lemma_after_recheck(op, t0, t, u, request, stage, id, db, reply, now);
        },
        StageV::PrepareWritten(..) | StageV::Completed(..) => {
            lemma_after_last(op, t0, t, u, request, stage, id, db, reply, now);
        },
        StageV::SetProject(..) | StageV::SetSource(..) => {
            lemma_while_setting(op, t0, t, u, request, stage, id, db, reply, now);
        },
        StageV::UnsetProject(..) | StageV::UnsetFound(..) => {
            lemma_while_unsetting(op, t0, t, u, request, stage, id, db, reply, now);
        },
        StageV::RenewWritten(..) | StageV::RenewProject(..) | StageV::RenewRules(..) => {
            lemma_before_renewing(op, t0, t, u, request, stage, id, db, reply, now);
        },
        StageV::RenewOverrides(..) => {
            lemma_while_renewing(op, t0, t, u, request, stage, id, db, reply, now);
        },
        _ => {
            lemma_while_resolving(op, t0, t, u, request, stage, id, db, reply, now);
        },
    }
}

/// Whether the tables are such as the operations leave them: project rows with their columns, and
/// overrides of stored projects alone.
pub open spec fn sound(t: Tables) -> bool {
    formed(t) && owned(t)
}

/// A run of an operation on a project.
proof fn lemma_ran(
    op: OperationV,
    l: LocationV,
    home: Option<Seq<char>>,
    cwd: Seq<char>,
    id: Seq<char>,
    db: Seq<char>,
    replies: Seq<(ReplyV, Seq<char>)>,
    tables: Seq<Tables>,
)
    requires
        reads_back(),
        formed(tables[0]),
        op is Prepare ==> owned(tables[0]),
        project_of(op) == Some(id),
        prepares_project(op) ==> files_fit(tables[0], id, replies),
        service_ran(db, operation_start(op, l, home, cwd), replies, tables),
    ensures
        goes_on(
            op,
            tables[0],
            tables.last(),
            service_after(db, operation_start(op, l, home, cwd), replies),
            id,
        ),
    decreases replies.len(),
{
    reveal(goes_on);
    reveal(following);
    let first = operation_start(op, l, home, cwd);
    if replies.len() == 0 {
        lemma_starts(op, tables[0], l, home, cwd, id);
    } else {
        let front = replies.drop_last();
        if prepares_project(op) {
            assert forall|i: int| 0 <= i < front.len() implies file_fits(
                tables[0],
                id,
                (#[trigger] front[i]).0,
            ) by {
                assert(front[i] == replies[i]);
            }
            assert(file_fits(tables[0], id, replies[replies.len() - 1].0));
        }
        lemma_ran(op, l, home, cwd, id, db, front, tables.drop_last());
        if let StepV::Ask(request, stage) = service_after(db, first, front) {
            lemma_goes_on(
                op,
                tables[0],
                tables[tables.len() - 2],
                tables.last(),
                request,
                stage,
                id,
                db,
                replies.last().0,
                replies.last().1,
            );
        }
    }
}

/// A run of an operation that only looks.
proof fn lemma_looked(
    op: OperationV,
    l: LocationV,
    home: Option<Seq<char>>,
    cwd: Seq<char>,
    db: Seq<char>,
    replies: Seq<(ReplyV, Seq<char>)>,
    tables: Seq<Tables>,
)
    requires
        project_of(op) is None,
        service_ran(db, operation_start(op, l, home, cwd), replies, tables),
    ensures
        tables.last() == tables[0],
        service_after(db, operation_start(op, l, home, cwd), replies) matches StepV::Ask(
            request,
            stage,
        ) ==> looks(stage) && !writes(request),
    decreases replies.len(),
{
    if replies.len() > 0 {
        let first = operation_start(op, l, home, cwd);
        lemma_looked(op, l, home, cwd, db, replies.drop_last(), tables.drop_last());
        if let StepV::Ask(request, stage) = service_after(db, first, replies.drop_last()) {
            looking_never_writes(db, stage, replies.last().0, replies.last().1);
        }
    }
}

/// What is stored alike is current alike.
proof fn lemma_untouched(t: Tables, u: Tables, id: Seq<char>)
    requires
        untouched(t, u, id),
    ensures
        current(u, id) == current(t, id),
{
    assert(project_shown(u, id) == project_shown(t, id));
    assert(rule_rows(u, id) == rule_rows(t, id));
    assert(counting_rows(u, id) == counting_rows(t, id));
}

/// After an operation that succeeds, whatever it is, the stored revision of the project that it is
/// about is that of the project's effective rules, and the one that it reports; and every other
/// project whose stored revision was that of its effective rules is in the same state still. An
/// operation that only looks leaves everything as it was. A checklist that the operation reads is
/// taken to be the stored one where its version and its content hash are the stored ones.
pub proof fn a_completed_operation_leaves_revisions_current(
    op: OperationV,
    l: LocationV,
    home: Option<Seq<char>>,
    cwd: Seq<char>,
    db: Seq<char>,
    replies: Seq<(ReplyV, Seq<char>)>,
    tables: Seq<Tables>,
)
    requires
        reads_back(),
        sound(tables[0]),
        op is Prepare || op is Resolve ==> files_fit(tables[0], project_of(op)->0, replies),
        service_ran(db, operation_start(op, l, home, cwd), replies, tables),
        service_after(db, operation_start(op, l, home, cwd), replies) matches StepV::Done(Ok(_)),
    ensures
        ({
            let value = service_after(
                db,
                operation_start(op, l, home, cwd),
                replies,
            )->Done_0->Ok_0;
            let t = tables[0];
            let u = tables.last();
            &&& sound(u)
            &&& match project_of(op) {
                Some(id) => {
                    &&& current(u, id)
                    &&& reported_revision(value) == revision_in(u, id)
                    &&& elsewhere(t, u, id)
                },
                None => u == t,
            }
            &&& forall|id: Seq<char>| current(t, id) ==> #[trigger] current(u, id)
        }),
{
    reveal(goes_on);
    let t = tables[0];
    let u = tables.last();
    match project_of(op) {
        Some(id) => {
            lemma_ran(op, l, home, cwd, id, db, replies, tables);
            reveal(completed);
            assert forall|other: Seq<char>|
                project_row(u.projects, CellV::Text(other)) is None implies (
            #[trigger] active_rows(u.overrides, CellV::Text(other))).len() == 0 by {
                if other != id {
                    assert(untouched(t, u, other));
                    assert(active_rows(t.overrides, CellV::Text(other)).len() == 0);
                }
            }
            assert forall|other: Seq<char>| current(t, other) implies #[trigger] current(
                u,
                other,
            ) by {
                if other != id {
                    assert(untouched(t, u, other));
                    lemma_untouched(t, u, other);
                }
            }
        },
        None => {
            lemma_looked(op, l, home, cwd, db, replies, tables);
        },
    }
}

/// Setting an override where none counted and unsetting it again, both with success, brings the
/// revision back that was stored before: the answer is that the override is disabled, with that
/// revision, which is the stored one again. The stored rules are the same throughout.
pub proof fn setting_and_unsetting_keeps_the_stored_revision(
    project_id: Seq<char>,
    key: Seq<char>,
    fields: Entries,
    reason: Seq<char>,
    other_reason: Seq<char>,
    l: LocationV,
    home: Option<Seq<char>>,
    cwd: Seq<char>,
    db: Seq<char>,
    setting: Seq<(ReplyV, Seq<char>)>,
    tables: Seq<Tables>,
    unsetting: Seq<(ReplyV, Seq<char>)>,
    later: Seq<Tables>,
)
    requires
        reads_back(),
        formed(tables[0]),
        current(tables[0], project_id),
        none_counts(tables[0].overrides, CellV::Text(project_id), CellV::Text(key)),
        ({
            let op = OperationV::Change { project_id, key, fields, reason };
            let first = operation_start(op, l, home, cwd);
            &&& service_ran(db, first, setting, tables)
            &&& service_after(db, first, setting) matches StepV::Done(Ok(_))
        }),
        later[0] == tables.last(),
        ({
            let op = OperationV::Unset { project_id, key, reason: other_reason };
            let first = operation_start(op, l, home, cwd);
            &&& service_ran(db, first, unsetting, later)
            &&& service_after(db, first, unsetting) matches StepV::Done(Ok(_))
        }),
    ensures
        ({
            let op = OperationV::Unset { project_id, key, reason: other_reason };
            let v = service_after(
                db,
                operation_start(op, l, home, cwd),
                unsetting,
            )->Done_0->Ok_0;
            &&& revision_in(tables[0], project_id) is Some
            &&& text_field(v, "status"@) == Some("disabled"@)
            &&& text_field(v, "knowledge_revision"@) == revision_in(tables[0], project_id)
            &&& revision_in(later.last(), project_id) == revision_in(tables[0], project_id)
            &&& tables.last().rules == tables[0].rules
            &&& later.last().rules == tables[0].rules
        }),
{
    reveal(goes_on);
    let change = OperationV::Change { project_id, key, fields, reason };
    let undo = OperationV::Unset { project_id, key, reason: other_reason };
    let t = tables[0];
    let u = tables.last();
    let w = later.last();
    lemma_ran(change, l, home, cwd, project_id, db, setting, tables);
    reveal(completed);
    lemma_ran(undo, l, home, cwd, project_id, db, unsetting, later);
    let (job, hash, now) = choose|job: OverrideJobV, hash: Seq<char>, now: Seq<char>|
        {
            &&& job.project_id == project_id && job.key == key
            &&& u.overrides == (#[trigger] after_all(t, set_writes(job, hash, now))).overrides
        };
    let (unset, then) = choose|unset: OverrideJobV, then: Seq<char>|
        {
            &&& unset.project_id == project_id && unset.key == key
            &&& w.overrides == (#[trigger] after_all(u, unset_writes(unset, then))).overrides
        };
    lemma_unset_alike(u, after_all(t, set_writes(job, hash, now)), unset, then);
    lemma_set_and_unset(t, job, unset, hash, now, then);
    assert(counting_rows(w, project_id) == counting_rows(t, project_id));
}

/// What unsetting an override leaves of the overrides depends on the overrides alone.
proof fn lemma_unset_alike(t: Tables, u: Tables, job: OverrideJobV, now: Seq<char>)
    requires
        t.overrides == u.overrides,
    ensures
        after_all(t, unset_writes(job, now)).overrides == after_all(
            u,
            unset_writes(job, now),
        ).overrides,
{
    lemma_effects();
    let list = unset_writes(job, now);
    lemma_two(t, list[0], list[1]);
    lemma_two(u, list[0], list[1]);
    assert(list =~= seq![list[0], list[1]]);
}

} // verus!
