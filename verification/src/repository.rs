//! The SQLite data layer: statements, decisions on what they bring, and the machines for
//! migration, backup and restore.

use vstd::prelude::*;

use crate::description::{carried_revision, knowledge_revision_of};
use crate::errors::{and_detail, detail, ErrorCode, ErrorV, ReviewKBError};
use crate::json::{lookup, text_field, texts, Entries, Json, JsonV};
use crate::json_util::{canonical, canonical_json};
use crate::models::{rules_view, Checklist, ChecklistV, Rule, RuleV};
use crate::protocol::{
    row_view, rows_view, statement, statements_view, CellV, Failure, FailureV, Row, RowV,
    Statement, StatementV,
};
use crate::rows::{
    mistyped, read_record, record, row_object, row_to_object, wrong_kind, Shape,
};
use crate::text::{
    ascii_folded, ascii_lower, begins, contains, join, joined, lowercase, occurs, same, strings,
};

verus! {

broadcast use crate::json::group_json;

/// The newest schema that this library knows.
pub const LATEST_SCHEMA_VERSION: i64 = 2;

/// Why a repository call failed.
#[derive(Debug)]
pub enum RepositoryError {
    /// A domain error, for the failure envelope.
    Kb(ReviewKBError),
    /// A database error.
    Sqlite(Failure),
    /// An error of the file system.
    Io(String),
}

/// What a [`RepositoryError`] stands for.
pub enum RepositoryErrorV {
    Kb(ErrorV),
    Sqlite(FailureV),
    Io(Seq<char>),
}

impl View for RepositoryError {
    type V = RepositoryErrorV;

    open spec fn view(&self) -> RepositoryErrorV {
        match *self {
            RepositoryError::Kb(e) => RepositoryErrorV::Kb(e@),
            RepositoryError::Sqlite(f) => RepositoryErrorV::Sqlite(f@),
            RepositoryError::Io(e) => RepositoryErrorV::Io(e@),
        }
    }
}

/// A database by its path, which is `:memory:` for one in memory.
#[derive(Debug)]
pub struct Repository {
    pub path: String,
}

/// `n` parameter marks.
pub open spec fn marks(n: nat) -> Seq<char> {
    joined(Seq::new(n, |i: int| "?"@), ","@)
}

fn placeholders(n: usize) -> (r: String)
    ensures
        r@ == marks(n as nat),
{
    let mut list: Vec<String> = Vec::new();
    let mut i: usize = 0;
    while i < n
        invariant
            i <= n,
            list@.len() == i,
            forall|k: int| 0 <= k < i ==> (#[trigger] list@[k])@ == "?"@,
        decreases n - i,
    {
        list.push("?".to_string());
        i += 1;
    }
    assert(strings(list@) =~= Seq::new(n as nat, |i: int| "?"@));
    join(&list, ",")
}

/// The row of one project, with the number of its rules.
pub open spec fn project_query(project_id: Seq<char>) -> StatementV {
    statement(
        "SELECT p.*, (SELECT COUNT(*) FROM rules r WHERE r.project_id = p.project_id) AS rule_count FROM projects p WHERE p.project_id = ?"@,
    ).text(project_id)
}

/// The rows of all projects, with the number of their rules.
pub open spec fn projects_query() -> StatementV {
    statement(
        "SELECT p.*, (SELECT COUNT(*) FROM rules r WHERE r.project_id = p.project_id) AS rule_count FROM projects p ORDER BY p.project_id"@,
    )
}

/// The rules of a project, in the order of the checklist.
pub open spec fn rules_query(project_id: Seq<char>) -> StatementV {
    statement("SELECT * FROM rules WHERE project_id = ? ORDER BY ordinal"@).text(project_id)
}

/// The rules of a project under some keys.
pub open spec fn keyed_rules_query(project_id: Seq<char>, keys: Seq<Seq<char>>) -> StatementV {
    statement(
        "SELECT * FROM rules WHERE project_id = ? AND rule_key IN ("@ + marks(keys.len()) + ")"@,
    ).text(project_id).texts(keys)
}

/// A character of a literal pattern.
pub open spec fn pattern_char(c: char) -> Seq<char> {
    if c == '\\' || c == '%' || c == '_' {
        seq!['\\', c]
    } else {
        seq![c]
    }
}

/// A text with the characters escaped that a pattern gives a meaning.
pub open spec fn pattern_body(s: Seq<char>) -> Seq<char>
    decreases s.len(),
{
    if s.len() == 0 {
        Seq::empty()
    } else {
        pattern_body(s.drop_last()) + pattern_char(s.last())
    }
}

/// The pattern that finds `query` literally, anywhere in a text.
pub open spec fn pattern(query: Seq<char>) -> Seq<char> {
    "%"@ + pattern_body(query) + "%"@
}

/// The pattern that finds `query` literally, anywhere in a text.
pub fn literal_pattern(query: &str) -> (r: String)
    ensures
        r@ == pattern(query@),
{
    let v = crate::text::chars_of(query);
    let mut out = "%".to_string();
    let mut i: usize = 0;
    assert(v@.take(0) =~= Seq::empty());
    assert(out@ =~= "%"@ + pattern_body(v@.take(0)));
    while i < v.len()
        invariant
            i <= v@.len(),
            out@ == "%"@ + pattern_body(v@.take(i as int)),
        decreases v@.len() - i,
    {
        let c: char = v[i];
        let ghost before = out@;
        if c == '\\' || c == '%' || c == '_' {
            out.push('\\');
        }
        out.push(c);
        proof {
            assert(out@ =~= before + pattern_char(c));
            assert(v@.take(i + 1).drop_last() =~= v@.take(i as int));
            assert(out@ =~= "%"@ + pattern_body(v@.take(i + 1)));
        }
        i += 1;
    }
    assert(v@.take(i as int) =~= query@);
    out.push_str("%");
    out
}

/// How SQLite compares a text with a pattern after `LIKE`, where `\\` is the escape character: `%`
/// stands for any text, `_` for any character, and ASCII letters agree in either case.
pub open spec fn like(p: Seq<char>, s: Seq<char>) -> bool
    decreases p.len(), s.len(),
{
    if p.len() == 0 {
        s.len() == 0
    } else if p[0] == '%' {
        like(p.skip(1), s) || (s.len() > 0 && like(p, s.skip(1)))
    } else if p[0] == '_' {
        s.len() > 0 && like(p.skip(1), s.skip(1))
    } else if p[0] == '\\' {
        p.len() > 1 && s.len() > 0 && ascii_lower(p[1]) == ascii_lower(s[0]) && like(
            p.skip(2),
            s.skip(1),
        )
    } else {
        s.len() > 0 && ascii_lower(p[0]) == ascii_lower(s[0]) && like(p.skip(1), s.skip(1))
    }
}

proof fn lemma_pattern_front(s: Seq<char>)
    requires
        s.len() > 0,
    ensures
        pattern_body(s) == pattern_char(s[0]) + pattern_body(s.skip(1)),
    decreases s.len(),
{
    if s.len() == 1 {
        assert(pattern_body(s.drop_last()) =~= Seq::empty());
        assert(pattern_body(s.skip(1)) =~= Seq::empty());
        assert(pattern_body(s) =~= pattern_char(s[0]));
        assert(pattern_char(s[0]) + pattern_body(s.skip(1)) =~= pattern_char(s[0]));
    } else {
        lemma_pattern_front(s.drop_last());
        assert(s.drop_last().skip(1) =~= s.skip(1).drop_last());
        assert(pattern_body(s) =~= pattern_char(s[0]) + (pattern_body(s.skip(1).drop_last())
            + pattern_char(s.last())));
    }
}

/// An escaped text stands for itself at the front of a text.
proof fn lemma_like_body(query: Seq<char>, rest: Seq<char>, s: Seq<char>)
    ensures
        like(pattern_body(query) + rest, s) <==> begins(ascii_folded(s), ascii_folded(query))
            && like(rest, s.skip(query.len() as int)),
    decreases query.len(),
{
    let p = pattern_body(query) + rest;
    let fs = ascii_folded(s);
    let fq = ascii_folded(query);
    if query.len() == 0 {
        assert(p =~= rest);
        assert(s.skip(0) =~= s);
        assert(fs.take(0) =~= fq);
    } else {
        lemma_pattern_front(query);
        let c = query[0];
        let tail = pattern_body(query.skip(1)) + rest;
        assert(p =~= pattern_char(c) + tail);
        assert(p.skip(pattern_char(c).len() as int) =~= tail);
        if s.len() > 0 {
            lemma_like_body(query.skip(1), rest, s.skip(1));
            if query.len() <= s.len() {
                assert(s.skip(1).skip(query.len() - 1) =~= s.skip(query.len() as int));
            }
            let gs = ascii_folded(s.skip(1));
            let gq = ascii_folded(query.skip(1));
            if begins(fs, fq) {
                assert(fs.take(fq.len() as int)[0] == fq[0]);
                assert(gs.take(gq.len() as int) =~= gq) by {
                    assert forall|i: int| 0 <= i < gq.len() implies gs[i] == gq[i] by {
                        assert(fs.take(fq.len() as int)[i + 1] == fq[i + 1]);
                    }
                }
            }
            if ascii_lower(c) == ascii_lower(s[0]) && begins(gs, gq) {
                assert(fs.take(fq.len() as int) =~= fq) by {
                    assert forall|i: int| 0 <= i < fq.len() implies fs[i] == fq[i] by {
                        if i > 0 {
                            assert(gs.take(gq.len() as int)[i - 1] == gq[i - 1]);
                        }
                    }
                }
            }
        }
    }
}

/// A leading `%` skips any front of a text.
proof fn lemma_like_any(rest: Seq<char>, s: Seq<char>)
    ensures
        like(seq!['%'] + rest, s) <==> exists|k: int|
            0 <= k <= s.len() && #[trigger] like(rest, s.skip(k)),
    decreases s.len(),
{
    let p = seq!['%'] + rest;
    assert(p.skip(1) =~= rest);
    assert(s.skip(0) =~= s);
    if s.len() > 0 {
        let t = s.skip(1);
        lemma_like_any(rest, t);
        if like(p, t) {
            let k = choose|k: int| 0 <= k <= t.len() && #[trigger] like(rest, t.skip(k));
            assert(t.skip(k) =~= s.skip(k + 1));
            assert(like(rest, s.skip(k + 1)));
        }
        if exists|k: int| 0 <= k <= s.len() && #[trigger] like(rest, s.skip(k)) {
            let k = choose|k: int| 0 <= k <= s.len() && #[trigger] like(rest, s.skip(k));
            if k > 0 {
                assert(t.skip(k - 1) =~= s.skip(k));
                assert(like(rest, t.skip(k - 1)));
            }
        }
        if like(rest, s) {
            assert(like(rest, s.skip(0)));
        }
    } else if like(rest, s) {
        assert(like(rest, s.skip(0)));
    }
}

/// The pattern of a text finds the texts that hold it as it stands, and no others: no character of
/// it acts as a wildcard, and only the case of ASCII letters does not count.
pub proof fn a_pattern_is_literal(query: Seq<char>, s: Seq<char>)
    ensures
        like(pattern(query), s) <==> occurs(ascii_folded(s), ascii_folded(query)),
{
    let any = seq!['%'];
    reveal_strlit("%");
    assert("%"@ =~= any);
    let body = pattern_body(query) + any;
    assert(pattern(query) =~= any + body);
    lemma_like_any(body, s);
    let fs = ascii_folded(s);
    let fq = ascii_folded(query);
    assert forall|k: int| 0 <= k <= s.len() implies like(body, #[trigger] s.skip(k)) == begins(
        fs.skip(k),
        fq,
    ) by {
        let t = s.skip(k);
        lemma_like_body(query, any, t);
        assert(ascii_folded(t) =~= fs.skip(k));
        let u = t.skip(query.len() as int);
        if begins(fs.skip(k), fq) {
            lemma_like_any(Seq::empty(), u);
            assert(any + Seq::<char>::empty() =~= any);
            assert(like(Seq::empty(), u.skip(u.len() as int)));
        }
    }
    if like(pattern(query), s) {
        let k = choose|k: int| 0 <= k <= s.len() && #[trigger] like(body, s.skip(k));
        assert(begins(fs.skip(k), fq));
    }
    if occurs(fs, fq) {
        let k = choose|k: int| 0 <= k <= fs.len() && #[trigger] begins(fs.skip(k), fq);
        assert(like(body, s.skip(k)));
    }
}

/// The rules of a project among which are all that mention `query`: those with `query` in their
/// key, summary or content, those with an entry in a list, whose stored text cannot be searched
/// literally, and those with a character U+0000, at which `LIKE` stops.
pub open spec fn search_query(project_id: Seq<char>, query: Seq<char>) -> StatementV {
    let p = pattern(query);
    statement(
        "SELECT * FROM rules WHERE project_id = ? AND (rule_key LIKE ? ESCAPE '\\' COLLATE NOCASE OR summary LIKE ? ESCAPE '\\' COLLATE NOCASE OR content LIKE ? ESCAPE '\\' COLLATE NOCASE OR tags_json <> '[]' OR paths_json <> '[]' OR languages_json <> '[]' OR instr(? || rule_key || summary || content, char(0)) > 0) ORDER BY ordinal"@,
    ).text(project_id).text(p).text(p).text(p).text(query)
}

/// The override of one rule.
pub open spec fn override_query(project_id: Seq<char>, rule_key: Seq<char>) -> StatementV {
    statement("SELECT * FROM rule_overrides WHERE project_id = ? AND rule_key = ?"@).text(
        project_id,
    ).text(rule_key)
}

/// The overrides of a project with one of some statuses; no status stands for all.
pub open spec fn overrides_query(project_id: Seq<char>, statuses: Seq<Seq<char>>) -> StatementV {
    if statuses.len() == 0 {
        statement("SELECT * FROM rule_overrides WHERE project_id = ? ORDER BY rule_key"@).text(
            project_id,
        )
    } else {
        statement(
            "SELECT * FROM rule_overrides WHERE project_id = ? AND status IN ("@ + marks(
                statuses.len(),
            ) + ") ORDER BY rule_key"@,
        ).text(project_id).texts(statuses)
    }
}

/// The audit entries of a project, newest first.
pub open spec fn audit_log_query(project_id: Seq<char>) -> StatementV {
    statement("SELECT * FROM audit_log WHERE project_id = ? ORDER BY audit_id DESC"@).text(
        project_id,
    )
}

/// The newest schema version that is applied, zero where none is.
pub open spec fn schema_query() -> StatementV {
    statement("SELECT COALESCE(MAX(version), 0) FROM schema_migrations"@)
}

/// The findings of the integrity check, `ok` alone where there are none.
pub open spec fn integrity_query() -> StatementV {
    statement("PRAGMA integrity_check"@)
}

/// The source hash of one rule.
pub open spec fn source_hash_query(project_id: Seq<char>, rule_key: Seq<char>) -> StatementV {
    statement("SELECT source_rule_hash FROM rules WHERE project_id = ? AND rule_key = ?"@).text(
        project_id,
    ).text(rule_key)
}

/// An entry in the audit log.
pub open spec fn audit_insert(
    project_id: Seq<char>,
    rule_key: Seq<char>,
    action: Seq<char>,
    reason: Seq<char>,
    change: JsonV,
    now: Seq<char>,
) -> StatementV {
    statement(
        "INSERT INTO audit_log(project_id, rule_key, action, reason, change_json, created_at) VALUES (?, ?, ?, ?, ?, ?)"@,
    ).text(project_id).text(rule_key).text(action).text(reason).text(canonical(change)).text(now)
}

/// An entry in the audit log that is about a project as a whole.
pub open spec fn project_audit_insert(
    project_id: Seq<char>,
    action: Seq<char>,
    reason: Seq<char>,
    change: JsonV,
    now: Seq<char>,
) -> StatementV {
    statement(
        "INSERT INTO audit_log(project_id, rule_key, action, reason, change_json, created_at) VALUES (?, ?, ?, ?, ?, ?)"@,
    ).text(project_id).maybe(None).text(action).text(reason).text(canonical(change)).text(now)
}

/// The override fields as they are stored: a list as its canonical text.
pub open spec fn stored_list(fields: Entries, name: Seq<char>) -> Option<Seq<char>> {
    match lookup(fields, name) {
        Some(v) => Some(canonical(v)),
        None => None,
    }
}

/// The text under `name`, where it is bound to one.
pub open spec fn stored_text(fields: Entries, name: Seq<char>) -> Option<Seq<char>> {
    match lookup(fields, name) {
        Some(JsonV::Text(t)) => Some(t),
        _ => None,
    }
}

/// An active override, in place of the one that the rule has.
pub open spec fn override_upsert(
    project_id: Seq<char>,
    rule_key: Seq<char>,
    fields: Entries,
    source_hash: Seq<char>,
    reason: Seq<char>,
    now: Seq<char>,
) -> StatementV {
    statement(
        "INSERT INTO rule_overrides(project_id, rule_key, summary, content, tags_json, paths_json, languages_json, base_source_rule_hash, status, reason, created_at, updated_at) VALUES (?, ?, ?, ?, ?, ?, ?, ?, 'active', ?, ?, ?) ON CONFLICT(project_id, rule_key) DO UPDATE SET summary=excluded.summary, content=excluded.content, tags_json=excluded.tags_json, paths_json=excluded.paths_json, languages_json=excluded.languages_json, base_source_rule_hash=excluded.base_source_rule_hash, status='active', reason=excluded.reason, updated_at=excluded.updated_at"@,
    ).text(project_id).text(rule_key).maybe(stored_text(fields, "summary"@)).maybe(
        stored_text(fields, "content"@),
    ).maybe(stored_list(fields, "tags"@)).maybe(stored_list(fields, "paths"@)).maybe(
        stored_list(fields, "languages"@),
    ).text(source_hash).text(reason).text(now).text(now)
}

/// An override that no longer counts.
pub open spec fn override_disable(
    project_id: Seq<char>,
    rule_key: Seq<char>,
    reason: Seq<char>,
    now: Seq<char>,
) -> StatementV {
    statement(
        "UPDATE rule_overrides SET status = 'disabled', reason = ?, updated_at = ? WHERE project_id = ? AND rule_key = ?"@,
    ).text(reason).text(now).text(project_id).text(rule_key)
}

/// An override that counts again, bound to the source rule as it is now.
pub open spec fn override_keep(
    project_id: Seq<char>,
    rule_key: Seq<char>,
    source_hash: Seq<char>,
    reason: Seq<char>,
    now: Seq<char>,
) -> StatementV {
    statement(
        "UPDATE rule_overrides SET base_source_rule_hash = ?, status = 'active', reason = ?, updated_at = ? WHERE project_id = ? AND rule_key = ?"@,
    ).text(source_hash).text(reason).text(now).text(project_id).text(rule_key)
}

/// Overrides marked as in conflict with their source rules.
pub open spec fn conflicts_update(
    project_id: Seq<char>,
    keys: Seq<Seq<char>>,
    now: Seq<char>,
) -> StatementV {
    statement(
        "UPDATE rule_overrides SET status = 'conflict', updated_at = ? WHERE project_id = ? AND rule_key IN ("@
            + marks(keys.len()) + ")"@,
    ).text(now).text(project_id).texts(keys)
}

/// The statements that mark the overrides of some rules as in conflict, each with its entry in the
/// audit log.
pub open spec fn conflicts_marking(
    project_id: Seq<char>,
    keys: Seq<Seq<char>>,
    now: Seq<char>,
) -> Seq<StatementV> {
    if keys.len() == 0 {
        Seq::empty()
    } else {
        seq![conflicts_update(project_id, keys, now)] + Seq::new(
            keys.len(),
            |i: int| conflict_entry(project_id, keys[i], now),
        )
    }
}

/// The entry in the audit log for an override that is now in conflict.
pub open spec fn conflict_entry(
    project_id: Seq<char>,
    rule_key: Seq<char>,
    now: Seq<char>,
) -> StatementV {
    audit_insert(
        project_id,
        rule_key,
        "override.conflict"@,
        "source rule changed"@,
        JsonV::Object(Seq::empty()),
        now,
    )
}

/// The statements that renew the description and the revision of a project, with their entry in
/// the audit log.
pub open spec fn description_writes(
    project_id: Seq<char>,
    revision: Seq<char>,
    description: JsonV,
    now: Seq<char>,
) -> Seq<StatementV> {
    seq![
        description_update(project_id, revision, description, now),
        project_audit_insert(
            project_id,
            "description.update"@,
            "effective rules changed"@,
            detail("knowledge_revision"@, JsonV::Text(revision)),
            now,
        ),
    ]
}

/// The description and the revision of a project, renewed.
pub open spec fn description_update(
    project_id: Seq<char>,
    revision: Seq<char>,
    description: JsonV,
    now: Seq<char>,
) -> StatementV {
    statement(
        "UPDATE projects SET knowledge_revision = ?, description_json = ?, updated_at = ? WHERE project_id = ?"@,
    ).text(revision).text(canonical(description)).text(now).text(project_id)
}

/// The name, the checklist path and the description of a project, renewed; its rules stay.
pub open spec fn metadata_update(
    project_id: Seq<char>,
    project_name: Seq<char>,
    checklist_path: Seq<char>,
    description: JsonV,
    now: Seq<char>,
) -> StatementV {
    statement(
        "UPDATE projects SET project_name = ?, checklist_path = ?, description_json = ?, updated_at = ? WHERE project_id = ?"@,
    ).text(project_name).text(checklist_path).text(canonical(description)).text(now).text(
        project_id,
    )
}

/// A project row, in place of the one that there is.
pub open spec fn project_upsert(
    project_id: Seq<char>,
    project_name: Seq<char>,
    checklist_path: Seq<char>,
    checklist: ChecklistV,
    revision: Seq<char>,
    description: JsonV,
    now: Seq<char>,
) -> StatementV {
    statement(
        "INSERT INTO projects(project_id, project_name, checklist_path, schema_version, checklist_version, content_hash, knowledge_revision, description_json, created_at, updated_at) VALUES (?, ?, ?, ?, ?, ?, ?, ?, ?, ?) ON CONFLICT(project_id) DO UPDATE SET project_name=excluded.project_name, checklist_path=excluded.checklist_path, schema_version=excluded.schema_version, checklist_version=excluded.checklist_version, content_hash=excluded.content_hash, knowledge_revision=excluded.knowledge_revision, description_json=excluded.description_json, updated_at=excluded.updated_at"@,
    ).text(project_id).text(project_name).text(checklist_path).cell(
        CellV::Integer(checklist.schema_version),
    ).text(checklist.checklist_version).text(checklist.content_hash).text(revision).text(
        canonical(description),
    ).text(now).text(now)
}

/// No rules for a project any more.
pub open spec fn rules_delete(project_id: Seq<char>) -> StatementV {
    statement("DELETE FROM rules WHERE project_id = ?"@).text(project_id)
}

/// The ordinal of the rule at position `i`, as far as a 64-bit column goes.
pub open spec fn ordinal_of(i: int) -> int {
    if i <= i64::MAX {
        i
    } else {
        i64::MAX as int
    }
}

/// A rule row.
pub open spec fn rule_insert(project_id: Seq<char>, rule: RuleV, ordinal: int) -> StatementV {
    statement(
        "INSERT INTO rules(project_id, rule_key, ordinal, summary, content, tags_json, paths_json, languages_json, source_rule_hash) VALUES (?, ?, ?, ?, ?, ?, ?, ?, ?)"@,
    ).text(project_id).text(rule.key).cell(CellV::Integer(ordinal_of(ordinal))).text(rule.summary).text(
        rule.content,
    ).text(canonical(texts(rule.tags))).text(canonical(texts(rule.paths))).text(
        canonical(texts(rule.languages)),
    ).text(rule.source_rule_hash)
}

/// An entry in the synchronisation history.
pub open spec fn history_insert(
    project_id: Seq<char>,
    action: Seq<char>,
    old_version: Option<Seq<char>>,
    new_version: Seq<char>,
    old_hash: Option<Seq<char>>,
    new_hash: Seq<char>,
    warnings: Seq<Seq<char>>,
    now: Seq<char>,
) -> StatementV {
    statement(
        "INSERT INTO sync_history(project_id, action, old_version, new_version, old_hash, new_hash, result, warnings_json, created_at) VALUES (?, ?, ?, ?, ?, ?, 'success', ?, ?)"@,
    ).text(project_id).text(action).maybe(old_version).text(new_version).maybe(old_hash).text(
        new_hash,
    ).text(canonical(texts(warnings))).text(now)
}

/// A text of an object that may be absent.
pub open spec fn known_text(current: Option<JsonV>, name: Seq<char>) -> Option<Seq<char>> {
    match current {
        Some(c) => text_field(c, name),
        None => None,
    }
}

/// The statements of a full refresh: the project row, its rules in order, a history entry.
pub open spec fn replacement(
    current: Option<JsonV>,
    project_id: Seq<char>,
    project_name: Seq<char>,
    checklist_path: Seq<char>,
    checklist: ChecklistV,
    revision: Seq<char>,
    description: JsonV,
    action: Seq<char>,
    warnings: Seq<Seq<char>>,
    now: Seq<char>,
) -> Seq<StatementV> {
    seq![
        project_upsert(
            project_id,
            project_name,
            checklist_path,
            checklist,
            revision,
            description,
            now,
        ),
        rules_delete(project_id),
    ] + Seq::new(
        checklist.rules.len(),
        |i: int| rule_insert(project_id, checklist.rules[i], i),
    ) + seq![
        history_insert(
            project_id,
            action,
            known_text(current, "checklist_version"@),
            checklist.checklist_version,
            known_text(current, "content_hash"@),
            checklist.content_hash,
            warnings,
            now,
        ),
    ]
}

/// An owned copy of the text under `name`.
fn owned_text(current: &Option<Json>, name: &str) -> (r: Option<String>)
    ensures
        crate::path_util::optional_text(r) == known_text(optional_json(*current), name@),
{
    match current {
        Some(c) => match crate::json::get_str(c, name) {
            Some(t) => Some(t.to_string()),
            None => None,
        },
        None => None,
    }
}

/// The view of an optional value.
pub open spec fn optional_json(v: Option<Json>) -> Option<JsonV> {
    match v {
        Some(v) => Some(v@),
        None => None,
    }
}

fn audit(
    project_id: &str,
    rule_key: &str,
    action: &str,
    reason: &str,
    change: &Json,
    now: &str,
) -> (r: Statement)
    ensures
        r@ == audit_insert(project_id@, rule_key@, action@, reason@, change@, now@),
{
    Statement::new(
        "INSERT INTO audit_log(project_id, rule_key, action, reason, change_json, created_at) VALUES (?, ?, ?, ?, ?, ?)",
    ).text(project_id).text(rule_key).text(action).text(reason).text(
        canonical_json(change).as_str(),
    ).text(now)
}

/// The error for a rule or an override that is not there.
pub open spec fn missing_error(
    message: Seq<char>,
    project_id: Seq<char>,
    rule_key: Seq<char>,
) -> ErrorV {
    ErrorV {
        code: ErrorCode::RuleNotFound,
        message: message + rule_key,
        details: and_detail(
            detail("project_id"@, JsonV::Text(project_id)),
            "key"@,
            JsonV::Text(rule_key),
        ),
    }
}

/// The error for a rule or an override that is not there.
pub fn missing(message: &str, project_id: &str, rule_key: &str) -> (r: ReviewKBError)
    ensures
        r@ == missing_error(message@, project_id@, rule_key@),
{
    let mut text = message.to_string();
    text.push_str(rule_key);
    ReviewKBError::new(
        ErrorCode::RuleNotFound,
        text,
        Json::object().with("project_id", Json::text(project_id)).with(
            "key",
            Json::text(rule_key),
        ),
    )
}

/// The list under `name`, as its canonical text.
fn list_text(fields: &Json, name: &str) -> (r: Option<String>)
    requires
        fields@ is Object,
    ensures
        crate::path_util::optional_text(r) == stored_list(fields@->Object_0, name@),
{
    match fields.get(name) {
        Some(v) => Some(canonical_json(v)),
        None => None,
    }
}

/// The text under `name`, where it is bound to one.
fn opt_str_field(fields: &Json, name: &str) -> (r: Option<String>)
    requires
        fields@ is Object,
    ensures
        crate::path_util::optional_text(r) == stored_text(fields@->Object_0, name@),
{
    match fields.get(name) {
        Some(v) => match v.as_str() {
            Some(t) => Some(t.to_string()),
            None => None,
        },
        None => None,
    }
}

/// The project in what [`Repository::get_project`] brought.
pub open spec fn first_object(rows: Seq<RowV>) -> Option<JsonV> {
    if rows.len() == 0 {
        None
    } else {
        Some(row_object(rows[0]))
    }
}

/// The project in what [`Repository::get_project`] brought.
pub fn project_in(rows: &Vec<Row>) -> (r: Option<Json>)
    ensures
        optional_json(r) == first_object(rows_view(rows@)),
{
    if rows.len() == 0 {
        None
    } else {
        assert(rows_view(rows@)[0] == row_view(rows@[0]@));
        Some(row_to_object(&rows[0]))
    }
}

/// The override in what [`Repository::get_override`] brought.
pub open spec fn first_override(rows: Seq<RowV>) -> Result<Option<JsonV>, Seq<char>> {
    if rows.len() == 0 {
        Ok(None)
    } else {
        match record(Shape::Override, rows[0]) {
            Ok(v) => Ok(Some(v)),
            Err(e) => Err(e),
        }
    }
}

/// An optional record as a value of views.
pub open spec fn found_view(r: Result<Option<Json>, String>) -> Result<Option<JsonV>, Seq<char>> {
    match r {
        Ok(v) => Ok(optional_json(v)),
        Err(e) => Err(e@),
    }
}

/// The override in what [`Repository::get_override`] brought.
pub fn override_in(rows: &Vec<Row>) -> (r: Result<Option<Json>, String>)
    ensures
        found_view(r) == first_override(rows_view(rows@)),
{
    if rows.len() == 0 {
        Ok(None)
    } else {
        assert(rows_view(rows@)[0] == row_view(rows@[0]@));
        match read_record(Shape::Override, &rows[0]) {
            Ok(v) => Ok(Some(v)),
            Err(e) => Err(e),
        }
    }
}

/// The text in the first column of the first row, where there is one.
pub open spec fn first_text(rows: Seq<RowV>) -> Option<Seq<char>> {
    if rows.len() > 0 && rows[0].len() > 0 {
        match rows[0][0].1 {
            CellV::Text(t) => Some(t),
            _ => None,
        }
    } else {
        None
    }
}

/// The text in the first column of the first row, where there is one.
pub fn text_in(rows: &Vec<Row>) -> (r: Option<String>)
    ensures
        crate::path_util::optional_text(r) == first_text(rows_view(rows@)),
{
    if rows.len() > 0 {
        assert(rows_view(rows@)[0] == row_view(rows@[0]@));
        let row = &rows[0];
        if row.len() > 0 {
            assert(row_view(row@)[0] == (row@[0].0@, row@[0].1@));
            match &row[0].1 {
                crate::protocol::Cell::Text(t) => return Some(t.clone()),
                _ => {},
            }
        }
    }
    None
}

/// The integer in the first column of the first row, where there is one.
pub open spec fn first_integer(rows: Seq<RowV>) -> Option<int> {
    if rows.len() > 0 && rows[0].len() > 0 {
        match rows[0][0].1 {
            CellV::Integer(n) => Some(n),
            _ => None,
        }
    } else {
        None
    }
}

/// The integer in the first column of the first row, where there is one.
pub fn integer_in(rows: &Vec<Row>) -> (r: Option<i64>)
    ensures
        match r {
            Some(n) => first_integer(rows_view(rows@)) == Some(n as int),
            None => first_integer(rows_view(rows@)) is None,
        },
{
    if rows.len() > 0 {
        assert(rows_view(rows@)[0] == row_view(rows@[0]@));
        let row = &rows[0];
        if row.len() > 0 {
            assert(row_view(row@)[0] == (row@[0].0@, row@[0].1@));
            match &row[0].1 {
                crate::protocol::Cell::Integer(n) => return Some(*n),
                _ => {},
            }
        }
    }
    None
}

/// Why rows do not begin with an integer.
pub open spec fn no_integer(rows: Seq<RowV>) -> Seq<char> {
    if rows.len() == 0 {
        "Query returned no rows"@
    } else if rows[0].len() == 0 {
        "Invalid column index: 0"@
    } else {
        mistyped(rows[0][0].1, 0, rows[0][0].0)
    }
}

/// Why rows do not begin with an integer.
pub fn no_integer_in(rows: &Vec<Row>) -> (r: String)
    ensures
        r@ == no_integer(rows_view(rows@)),
{
    if rows.len() == 0 {
        return "Query returned no rows".to_string();
    }
    assert(rows_view(rows@)[0] == row_view(rows@[0]@));
    let row = &rows[0];
    if row.len() == 0 {
        return "Invalid column index: 0".to_string();
    }
    assert(row_view(row@)[0] == (row@[0].0@, row@[0].1@));
    wrong_kind(&row[0].1, 0, row[0].0.as_str())
}

impl Repository {
    pub fn get_project(&self, project_id: &str) -> (r: Statement)
        ensures
            r@ == project_query(project_id@),
    {
        Statement::new(
            "SELECT p.*, (SELECT COUNT(*) FROM rules r WHERE r.project_id = p.project_id) AS rule_count FROM projects p WHERE p.project_id = ?",
        ).text(project_id)
    }

    pub fn list_projects(&self) -> (r: Statement)
        ensures
            r@ == projects_query(),
    {
        Statement::new(
            "SELECT p.*, (SELECT COUNT(*) FROM rules r WHERE r.project_id = p.project_id) AS rule_count FROM projects p ORDER BY p.project_id",
        )
    }

    pub fn list_rules(&self, project_id: &str) -> (r: Statement)
        ensures
            r@ == rules_query(project_id@),
    {
        Statement::new("SELECT * FROM rules WHERE project_id = ? ORDER BY ordinal").text(project_id)
    }

    pub fn get_rules(&self, project_id: &str, keys: &Vec<String>) -> (r: Statement)
        ensures
            r@ == keyed_rules_query(project_id@, strings(keys@)),
    {
        let mut sql = "SELECT * FROM rules WHERE project_id = ? AND rule_key IN (".to_string();
        sql.push_str(placeholders(keys.len()).as_str());
        sql.push_str(")");
        Statement::new(sql.as_str()).text(project_id).texts(keys)
    }

    /// The query for the rules among which [`crate::rows::mentioning_rules`] finds those that
    /// mention `query`.
    pub fn search_rules(&self, project_id: &str, query: &str) -> (r: Statement)
        ensures
            r@ == search_query(project_id@, query@),
    {
        let p = literal_pattern(query);
        Statement::new(
            "SELECT * FROM rules WHERE project_id = ? AND (rule_key LIKE ? ESCAPE '\\' COLLATE NOCASE OR summary LIKE ? ESCAPE '\\' COLLATE NOCASE OR content LIKE ? ESCAPE '\\' COLLATE NOCASE OR tags_json <> '[]' OR paths_json <> '[]' OR languages_json <> '[]' OR instr(? || rule_key || summary || content, char(0)) > 0) ORDER BY ordinal",
        ).text(project_id).text(p.as_str()).text(p.as_str()).text(p.as_str()).text(query)
    }

    pub fn get_override(&self, project_id: &str, rule_key: &str) -> (r: Statement)
        ensures
            r@ == override_query(project_id@, rule_key@),
    {
        Statement::new("SELECT * FROM rule_overrides WHERE project_id = ? AND rule_key = ?").text(
            project_id,
        ).text(rule_key)
    }

    pub fn list_overrides(&self, project_id: &str, statuses: &Vec<String>) -> (r: Statement)
        ensures
            r@ == overrides_query(project_id@, strings(statuses@)),
    {
        if statuses.len() == 0 {
            return Statement::new(
                "SELECT * FROM rule_overrides WHERE project_id = ? ORDER BY rule_key",
            ).text(project_id);
        }
        let mut sql = "SELECT * FROM rule_overrides WHERE project_id = ? AND status IN (".to_string();
        sql.push_str(placeholders(statuses.len()).as_str());
        sql.push_str(") ORDER BY rule_key");
        Statement::new(sql.as_str()).text(project_id).texts(statuses)
    }

    pub fn list_audit_log(&self, project_id: &str) -> (r: Statement)
        ensures
            r@ == audit_log_query(project_id@),
    {
        Statement::new("SELECT * FROM audit_log WHERE project_id = ? ORDER BY audit_id DESC").text(
            project_id,
        )
    }

    pub fn schema_version(&self) -> (r: Statement)
        ensures
            r@ == schema_query(),
    {
        Statement::new("SELECT COALESCE(MAX(version), 0) FROM schema_migrations")
    }

    pub fn integrity_check(&self) -> (r: Statement)
        ensures
            r@ == integrity_query(),
    {
        Statement::new("PRAGMA integrity_check")
    }

    /// The query that has to precede [`Repository::upsert_override`].
    pub fn source_hash(&self, project_id: &str, rule_key: &str) -> (r: Statement)
        ensures
            r@ == source_hash_query(project_id@, rule_key@),
    {
        Statement::new(
            "SELECT source_rule_hash FROM rules WHERE project_id = ? AND rule_key = ?",
        ).text(project_id).text(rule_key)
    }

    /// The transaction that makes an override active. `source_hash` is what
    /// [`Repository::source_hash`] brought.
    pub fn upsert_override(
        &self,
        project_id: &str,
        rule_key: &str,
        fields: &Json,
        reason: &str,
        source_hash: &Option<String>,
        now: &str,
    ) -> (r: Result<Vec<Statement>, ReviewKBError>)
        requires
            fields@ is Object,
        ensures
            writes_view(r) == (match crate::path_util::optional_text(*source_hash) {
                None => Err(missing_error("rule not found: "@, project_id@, rule_key@)),
                Some(hash) => Ok(
                    seq![
                        override_upsert(
                            project_id@,
                            rule_key@,
                            fields@->Object_0,
                            hash,
                            reason@,
                            now@,
                        ),
                        audit_insert(
                            project_id@,
                            rule_key@,
                            "override.set"@,
                            reason@,
                            fields@,
                            now@,
                        ),
                    ],
                ),
            }),
    {
        let hash = match source_hash {
            Some(h) => h,
            None => return Err(missing("rule not found: ", project_id, rule_key)),
        };
        let tags = list_text(fields, "tags");
        let paths = list_text(fields, "paths");
        let languages = list_text(fields, "languages");
        let upsert = Statement::new(
            "INSERT INTO rule_overrides(project_id, rule_key, summary, content, tags_json, paths_json, languages_json, base_source_rule_hash, status, reason, created_at, updated_at) VALUES (?, ?, ?, ?, ?, ?, ?, ?, 'active', ?, ?, ?) ON CONFLICT(project_id, rule_key) DO UPDATE SET summary=excluded.summary, content=excluded.content, tags_json=excluded.tags_json, paths_json=excluded.paths_json, languages_json=excluded.languages_json, base_source_rule_hash=excluded.base_source_rule_hash, status='active', reason=excluded.reason, updated_at=excluded.updated_at",
        ).text(project_id).text(rule_key).maybe(&opt_str_field(fields, "summary")).maybe(
            &opt_str_field(fields, "content"),
        ).maybe(&tags).maybe(&paths).maybe(&languages).text(hash.as_str()).text(reason).text(
            now,
        ).text(now);
        Ok(
            two(upsert, audit(project_id, rule_key, "override.set", reason, fields, now)),
        )
    }

    /// The transaction that disables an override. `found` is what [`Repository::get_override`]
    /// brought.
    pub fn disable_override(
        &self,
        project_id: &str,
        rule_key: &str,
        reason: &str,
        found: &Option<Json>,
        now: &str,
    ) -> (r: Result<Vec<Statement>, ReviewKBError>)
        ensures
            writes_view(r) == (if found is None {
                Err(missing_error("override not found: "@, project_id@, rule_key@))
            } else {
                Ok(
                    seq![
                        override_disable(project_id@, rule_key@, reason@, now@),
                        audit_insert(
                            project_id@,
                            rule_key@,
                            "override.unset"@,
                            reason@,
                            JsonV::Object(Seq::empty()),
                            now@,
                        ),
                    ],
                )
            }),
    {
        if found.is_none() {
            return Err(missing("override not found: ", project_id, rule_key));
        }
        Ok(
            two(
                disable(project_id, rule_key, reason, now),
                audit(project_id, rule_key, "override.unset", reason, &Json::object(), now),
            ),
        )
    }

    /// The transaction that marks the overrides of some rules as in conflict.
    pub fn mark_override_conflicts(&self, project_id: &str, keys: &Vec<String>, now: &str) -> (r:
        Vec<Statement>)
        ensures
            statements_view(r@) == conflicts_marking(project_id@, strings(keys@), now@),
    {
        let mut out: Vec<Statement> = Vec::new();
        assert(statements_view(out@) =~= Seq::empty());
        if keys.len() == 0 {
            return out;
        }
        let mut sql = "UPDATE rule_overrides SET status = 'conflict', updated_at = ? WHERE project_id = ? AND rule_key IN (".to_string();
        sql.push_str(placeholders(keys.len()).as_str());
        sql.push_str(")");
        out.push(Statement::new(sql.as_str()).text(now).text(project_id).texts(keys));
        let ghost all = strings(keys@);
        let ghost head = seq![conflicts_update(project_id@, all, now@)];
        assert(statements_view(out@) =~= head + Seq::new(
            0,
            |k: int| conflict_entry(project_id@, all[k], now@),
        ));
        let mut i: usize = 0;
        while i < keys.len()
            invariant
                i <= keys@.len(),
                all == strings(keys@),
                statements_view(out@) == head + Seq::new(
                    i as nat,
                    |k: int| conflict_entry(project_id@, all[k], now@),
                ),
            decreases keys@.len() - i,
        {
            let entry = audit(
                project_id,
                keys[i].as_str(),
                "override.conflict",
                "source rule changed",
                &Json::object(),
                now,
            );
            let ghost before = out@;
            let ghost ev = entry@;
            out.push(entry);
            i += 1;
            proof {
                assert(ev == conflict_entry(project_id@, all[i - 1], now@));
                assert(statements_view(out@) =~= statements_view(before).push(ev));
                assert(statements_view(out@) =~= head + Seq::new(
                    i as nat,
                    |k: int| conflict_entry(project_id@, all[k], now@),
                ));
            }
        }
        assert(statements_view(out@) =~= conflicts_marking(project_id@, all, now@));
        out
    }

    /// The transaction that resolves a conflict. `found` is what [`Repository::get_override`]
    /// brought, `base_source_rule_hash` the hash of the rule in the new checklist.
    pub fn resolve_override(
        &self,
        project_id: &str,
        rule_key: &str,
        keep: bool,
        base_source_rule_hash: &Option<String>,
        reason: &str,
        found: &Option<Json>,
        now: &str,
    ) -> (r: Result<Vec<Statement>, ReviewKBError>)
        ensures
            writes_view(r) == resolution(
                project_id@,
                rule_key@,
                keep,
                crate::path_util::optional_text(*base_source_rule_hash),
                reason@,
                optional_json(*found),
                now@,
            ),
    {
        let status = match found {
            None => return Err(missing("override not found: ", project_id, rule_key)),
            Some(row) => match crate::json::get_str(row, "status") {
                Some(t) => t.to_string(),
                None => "".to_string(),
            },
        };
        proof {
            reveal_strlit("");
            assert(""@ =~= Seq::<char>::empty());
        }
        if !same(status.as_str(), "conflict") {
            return Err(
                ReviewKBError::new(
                    ErrorCode::InvalidArgument,
                    "only a conflicting override can be resolved".to_string(),
                    Json::object().with("project_id", Json::text(project_id)).with(
                        "key",
                        Json::text(rule_key),
                    ).with("status", Json::text(status.as_str())),
                ),
            );
        }
        let change = Json::object().with(
            "base_source_rule_hash",
            match base_source_rule_hash {
                Some(h) => Json::text(h.as_str()),
                None => Json::Null,
            },
        );
        if keep {
            match base_source_rule_hash {
                None => Err(missing("source rule not found: ", project_id, rule_key)),
                Some(h) => {
                    let update = Statement::new(
                        "UPDATE rule_overrides SET base_source_rule_hash = ?, status = 'active', reason = ?, updated_at = ? WHERE project_id = ? AND rule_key = ?",
                    ).text(h.as_str()).text(reason).text(now).text(project_id).text(rule_key);
                    Ok(
                        two(
                            update,
                            audit(
                                project_id,
                                rule_key,
                                "override.resolve.keep",
                                reason,
                                &change,
                                now,
                            ),
                        ),
                    )
                },
            }
        } else {
            Ok(
                two(
                    disable(project_id, rule_key, reason, now),
                    audit(
                        project_id,
                        rule_key,
                        "override.resolve.accept_source",
                        reason,
                        &change,
                        now,
                    ),
                ),
            )
        }
    }

    /// The transaction that writes the effective description onto the project row.
    pub fn update_effective_description(&self, project_id: &str, description: &Json, now: &str)
        -> (r: Result<Vec<Statement>, ReviewKBError>)
        ensures
            writes_view(r) == (match carried_revision(description@) {
                Some(revision) => Ok(
                    description_writes(project_id@, revision, description@, now@),
                ),
                None => Err(no_revision_error()),
            }),
    {
        match knowledge_revision_of(description) {
            Some(revision) => {
                let update = Statement::new(
                    "UPDATE projects SET knowledge_revision = ?, description_json = ?, updated_at = ? WHERE project_id = ?",
                ).text(revision).text(canonical_json(description).as_str()).text(now).text(
                    project_id,
                );
                let change = Json::object().with("knowledge_revision", Json::text(revision));
                let entry = Statement::new(
                    "INSERT INTO audit_log(project_id, rule_key, action, reason, change_json, created_at) VALUES (?, ?, ?, ?, ?, ?)",
                ).text(project_id).maybe(&None).text("description.update").text(
                    "effective rules changed",
                ).text(canonical_json(&change).as_str()).text(now);
                Ok(two(update, entry))
            },
            None => Err(
                ReviewKBError::plain(
                    ErrorCode::InternalError,
                    "description missing checklist.knowledge_revision",
                ),
            ),
        }
    }

    pub fn update_project_metadata(
        &self,
        project_id: &str,
        project_name: &str,
        checklist_path: &str,
        description: &Json,
        now: &str,
    ) -> (r: Statement)
        ensures
            r@ == metadata_update(
                project_id@,
                project_name@,
                checklist_path@,
                description@,
                now@,
            ),
    {
        Statement::new(
            "UPDATE projects SET project_name = ?, checklist_path = ?, description_json = ?, updated_at = ? WHERE project_id = ?",
        ).text(project_name).text(checklist_path).text(canonical_json(description).as_str()).text(
            now,
        ).text(project_id)
    }

    /// The transaction of a full refresh. `current` is the project row as it is.
    pub fn replace_project(
        &self,
        current: &Option<Json>,
        project_id: &str,
        project_name: &str,
        checklist_path: &str,
        checklist: &Checklist,
        description: &Json,
        action: &str,
        warnings: &Vec<String>,
        now: &str,
    ) -> (r: Result<Vec<Statement>, ReviewKBError>)
        ensures
            writes_view(r) == (match carried_revision(description@) {
                None => Err(no_revision_error()),
                Some(revision) => Ok(
                    replacement(
                        optional_json(*current),
                        project_id@,
                        project_name@,
                        checklist_path@,
                        checklist@,
                        revision,
                        description@,
                        action@,
                        strings(warnings@),
                        now@,
                    ),
                ),
            }),
    {
        let revision = match knowledge_revision_of(description) {
            Some(revision) => revision,
            None => return Err(
                ReviewKBError::plain(
                    ErrorCode::InternalError,
                    "description missing checklist.knowledge_revision",
                ),
            ),
        };
        let old_version = owned_text(current, "checklist_version");
        let old_hash = owned_text(current, "content_hash");
        let mut out: Vec<Statement> = Vec::new();
        out.push(
            Statement::new(
                "INSERT INTO projects(project_id, project_name, checklist_path, schema_version, checklist_version, content_hash, knowledge_revision, description_json, created_at, updated_at) VALUES (?, ?, ?, ?, ?, ?, ?, ?, ?, ?) ON CONFLICT(project_id) DO UPDATE SET project_name=excluded.project_name, checklist_path=excluded.checklist_path, schema_version=excluded.schema_version, checklist_version=excluded.checklist_version, content_hash=excluded.content_hash, knowledge_revision=excluded.knowledge_revision, description_json=excluded.description_json, updated_at=excluded.updated_at",
            ).text(project_id).text(project_name).text(checklist_path).number(
                checklist.schema_version,
            ).text(checklist.checklist_version.as_str()).text(checklist.content_hash.as_str()).text(
                revision,
            ).text(canonical_json(description).as_str()).text(now).text(now),
        );
        out.push(
            Statement::new("DELETE FROM rules WHERE project_id = ?").text(project_id),
        );
        let ghost head = seq![
            project_upsert(
                project_id@,
                project_name@,
                checklist_path@,
                checklist@,
                revision@,
                description@,
                now@,
            ),
            rules_delete(project_id@),
        ];
        let ghost rules = rules_view(checklist.rules@);
        proof {
            assert(statements_view(out@) =~= head);
            assert(statements_view(out@) =~= head + Seq::new(
                0,
                |i: int| rule_insert(project_id@, rules[i], i),
            ));
        }
        let count: usize = checklist.rules.len();
        let mut i: usize = 0;
        while i < count
            invariant
                i <= count == checklist.rules@.len(),
                rules == rules_view(checklist.rules@),
                statements_view(out@) == head + Seq::new(
                    i as nat,
                    |k: int| rule_insert(project_id@, rules[k], k),
                ),
            decreases count - i,
        {
            let ghost before = out@;
            let s = insert_rule(project_id, &checklist.rules[i], i);
            let ghost sv = s@;
            out.push(s);
            proof {
                assert(rules[i as int] == checklist.rules@[i as int]@);
                assert(statements_view(out@) =~= statements_view(before).push(sv));
                assert(statements_view(out@) =~= head + Seq::new(
                    (i + 1) as nat,
                    |k: int| rule_insert(project_id@, rules[k], k),
                ));
            }
            i += 1;
        }
        let ghost before = out@;
        let history = Statement::new(
            "INSERT INTO sync_history(project_id, action, old_version, new_version, old_hash, new_hash, result, warnings_json, created_at) VALUES (?, ?, ?, ?, ?, ?, 'success', ?, ?)",
        ).text(project_id).text(action).maybe(&old_version).text(
            checklist.checklist_version.as_str(),
        ).maybe(&old_hash).text(checklist.content_hash.as_str()).text(
            canonical_json(&Json::texts(warnings)).as_str(),
        ).text(now);
        let ghost hv = history@;
        out.push(history);
        proof {
            assert(statements_view(out@) =~= statements_view(before).push(hv));
            assert(statements_view(out@) =~= replacement(
                optional_json(*current),
                project_id@,
                project_name@,
                checklist_path@,
                checklist@,
                revision@,
                description@,
                action@,
                strings(warnings@),
                now@,
            ));
        }
        Ok(out)
    }
}

/// The error for a description without a revision.
pub open spec fn no_revision_error() -> ErrorV {
    ErrorV {
        code: ErrorCode::InternalError,
        message: "description missing checklist.knowledge_revision"@,
        details: crate::errors::no_details(),
    }
}

/// The transaction that resolves a conflict, or why there is none to resolve.
pub open spec fn resolution(
    project_id: Seq<char>,
    rule_key: Seq<char>,
    keep: bool,
    source_hash: Option<Seq<char>>,
    reason: Seq<char>,
    found: Option<JsonV>,
    now: Seq<char>,
) -> Result<Seq<StatementV>, ErrorV> {
    let status = match known_text(found, "status"@) {
        Some(t) => t,
        None => Seq::empty(),
    };
    let change = detail(
        "base_source_rule_hash"@,
        match source_hash {
            Some(h) => JsonV::Text(h),
            None => JsonV::Null,
        },
    );
    if found is None {
        Err(missing_error("override not found: "@, project_id, rule_key))
    } else if status != "conflict"@ {
        Err(
            ErrorV {
                code: ErrorCode::InvalidArgument,
                message: "only a conflicting override can be resolved"@,
                details: and_detail(
                    and_detail(
                        detail("project_id"@, JsonV::Text(project_id)),
                        "key"@,
                        JsonV::Text(rule_key),
                    ),
                    "status"@,
                    JsonV::Text(status),
                ),
            },
        )
    } else if keep {
        match source_hash {
            None => Err(missing_error("source rule not found: "@, project_id, rule_key)),
            Some(h) => Ok(
                seq![
                    override_keep(project_id, rule_key, h, reason, now),
                    audit_insert(
                        project_id,
                        rule_key,
                        "override.resolve.keep"@,
                        reason,
                        change,
                        now,
                    ),
                ],
            ),
        }
    } else {
        Ok(
            seq![
                override_disable(project_id, rule_key, reason, now),
                audit_insert(
                    project_id,
                    rule_key,
                    "override.resolve.accept_source"@,
                    reason,
                    change,
                    now,
                ),
            ],
        )
    }
}

/// Statements to run, or an error, as a value of views.
pub open spec fn writes_view(r: Result<Vec<Statement>, ReviewKBError>) -> Result<
    Seq<StatementV>,
    ErrorV,
> {
    match r {
        Ok(list) => Ok(statements_view(list@)),
        Err(e) => Err(e@),
    }
}

fn two(a: Statement, b: Statement) -> (r: Vec<Statement>)
    ensures
        statements_view(r@) == seq![a@, b@],
{
    let mut r: Vec<Statement> = Vec::new();
    let ghost av = a@;
    let ghost bv = b@;
    r.push(a);
    r.push(b);
    assert(statements_view(r@) =~= seq![av, bv]);
    r
}

fn disable(project_id: &str, rule_key: &str, reason: &str, now: &str) -> (r: Statement)
    ensures
        r@ == override_disable(project_id@, rule_key@, reason@, now@),
{
    Statement::new(
        "UPDATE rule_overrides SET status = 'disabled', reason = ?, updated_at = ? WHERE project_id = ? AND rule_key = ?",
    ).text(reason).text(now).text(project_id).text(rule_key)
}

fn insert_rule(project_id: &str, rule: &Rule, ordinal: usize) -> (r: Statement)
    ensures
        r@ == rule_insert(project_id@, rule@, ordinal as int),
{
    let place: i64 = if ordinal as u64 <= i64::MAX as u64 {
        ordinal as i64
    } else {
        i64::MAX
    };
    Statement::new(
        "INSERT INTO rules(project_id, rule_key, ordinal, summary, content, tags_json, paths_json, languages_json, source_rule_hash) VALUES (?, ?, ?, ?, ?, ?, ?, ?, ?)",
    ).text(project_id).text(rule.key.as_str()).number(place).text(
        rule.summary.as_str(),
    ).text(rule.content.as_str()).text(canonical_json(&Json::texts(&rule.tags)).as_str()).text(
        canonical_json(&Json::texts(&rule.paths)).as_str(),
    ).text(canonical_json(&Json::texts(&rule.languages)).as_str()).text(
        rule.source_rule_hash.as_str(),
    )
}

/// Whether a failure means that the database is locked.
pub open spec fn is_locked(f: FailureV) -> bool {
    f.busy || (f.engine matches Some(m) && occurs(lowercase(m), "locked"@))
}

/// Whether a failure means that the database is locked.
pub fn is_locked_error(f: &Failure) -> (r: bool)
    ensures
        r == is_locked(f@),
{
    if f.busy {
        return true;
    }
    match &f.engine {
        Some(m) => contains(m.to_lowercase().as_str(), "locked"),
        None => false,
    }
}

} // verus!
