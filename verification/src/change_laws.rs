//! What setting, unsetting and resolving overrides asks for, writes and answers.

use vstd::prelude::*;

use crate::checklist::checklist_of;
use crate::checklist_laws::{stripped_of, trimming_takes_white_space};
use crate::config::LocationV;
use crate::description::{description_value, revision_of};
use crate::errors::{and_detail, detail, ErrorCode};
use crate::json::{field, lookup, text_field, Entries, JsonV};
use crate::json_laws::{lemma_and_detail, lemma_detail};
use crate::models::{ChecklistV, RuleV};
use crate::operation_laws::{
    a_description_shows_the_checklist, after_reply, counts_under, describes, is_revision,
    override_rows, queries, refuses, rule_rows,
};
use crate::override_laws::{
    an_override_keeps_its_fields, kept_as, last_entry, lemma_text_items, listed_texts, may_override,
    overrides_take_effect,
};
use crate::overrides::{effective_checklist, rule_hash, text_or_empty, validated_fields};
use crate::path_util::{expanded, resolved};
use crate::protocol::{ReplyV, RequestV, RowV, StepV};
use crate::record_laws::{
    a_rule_record_shows_its_row, an_override_record_shows_its_row, override_row,
    records_stand_for_their_rows, rule_row, shows_rule_row, text_in, value_in,
};
use crate::repository::{
    audit_insert, description_writes, first_text, override_disable, override_keep, override_query,
    override_upsert, overrides_query, project_query, rules_query, source_hash_query,
};
use crate::rows::{record, records, row_object, Shape};
use crate::service::{
    bindings, counting, next, renew_value, stored_checklist, stored_description, stored_rule,
    stored_rules, OverrideJobV, PrepareJobV, RenewJobV, ResolveJobV, ServiceErrorV, StageV,
};
use crate::session::{operation_start, OperationV};
use crate::text::{is_blank, trimmed};

verus! {

/// Whether the fields of an override can be accepted: there is one, and each may be overridden with
/// its value.
pub open spec fn acceptable(fields: Entries) -> bool {
    fields.len() > 0 && forall|i: int|
        0 <= i < fields.len() ==> may_override((#[trigger] fields[i]).0, fields[i].1)
}

/// Whether `kept` are the fields as an override keeps them: the given ones, each as its last value
/// is kept, and no other.
pub open spec fn keeps_fields(kept: Entries, fields: Entries) -> bool {
    forall|name: Seq<char>|
        #![trigger lookup(kept, name)]
        {
            &&& lookup(kept, name) is Some <==> (exists|i: int|
                0 <= i < fields.len() && (#[trigger] fields[i]).0 == name)
            &&& forall|i: int| #[trigger]
                last_entry(fields, name, i) ==> (lookup(kept, name) matches Some(v) && kept_as(
                    fields[i].1,
                    v,
                ))
        }
}

proof fn lemma_keeps_fields(fields: Entries)
    ensures
        validated_fields(fields) is Ok <==> acceptable(fields),
        validated_fields(fields) matches Ok(kept) ==> keeps_fields(kept, fields),
        validated_fields(fields) matches Err(e) ==> e.code == ErrorCode::InvalidArgument,
{
    an_override_keeps_its_fields(fields, Seq::empty());
    if let Ok(kept) = validated_fields(fields) {
        assert forall|name: Seq<char>|
            #![trigger lookup(kept, name)]
            {
                &&& lookup(kept, name) is Some <==> (exists|i: int|
                    0 <= i < fields.len() && (#[trigger] fields[i]).0 == name)
                &&& forall|i: int| #[trigger]
                    last_entry(fields, name, i) ==> (lookup(kept, name) matches Some(v) && kept_as(
                        fields[i].1,
                        v,
                    ))
            } by {
            an_override_keeps_its_fields(fields, name);
        }
    }
}

// ---- renewing ----

/// Whether a rule is the one of a stored row.
pub open spec fn rule_of_row(rule: RuleV, row: RowV) -> bool {
    &&& text_in(row, "rule_key"@) == Some(rule.key)
    &&& text_in(row, "summary"@) == Some(rule.summary)
    &&& text_in(row, "content"@) == Some(rule.content)
    &&& text_in(row, "source_rule_hash"@) == Some(rule.source_rule_hash)
    &&& list_of_row(rule.tags, row, "tags_json"@)
    &&& list_of_row(rule.paths, row, "paths_json"@)
    &&& list_of_row(rule.languages, row, "languages_json"@)
}

/// Whether a list is the one in a column of a row. Of a column that holds no list of texts nothing
/// is said.
pub open spec fn list_of_row(list: Seq<Seq<char>>, row: RowV, column: Seq<char>) -> bool {
    forall|given: Seq<Seq<char>>|
        value_in(row, column) == #[trigger] listed_texts(given) ==> list == given
}

/// Whether a checklist is the stored one: that of a project and its description, with the rules of
/// its rows, in their order.
pub open spec fn checklist_of_rows(
    c: ChecklistV,
    project: JsonV,
    description: JsonV,
    rules: Seq<RowV>,
) -> bool {
    &&& text_field(project, "checklist_version"@) matches Some(t) ==> c.checklist_version == t
    &&& text_field(project, "content_hash"@) matches Some(t) ==> c.content_hash == t
    &&& text_field(description, "global_description"@) matches Some(t) ==> c.global_description == t
    &&& field(project, "schema_version"@) matches Some(JsonV::Int(n)) ==> n <= i64::MAX
        ==> c.schema_version == n
    &&& c.rules.len() == rules.len()
    &&& forall|i: int| 0 <= i < rules.len() ==> rule_of_row(c.rules[i], #[trigger] rules[i])
}

proof fn lemma_list_of_row(record: JsonV, name: Seq<char>, row: RowV, column: Seq<char>)
    requires
        field(record, name) == Some(value_in(row, column)),
    ensures
        list_of_row(crate::overrides::text_items(field(record, name)), row, column),
{
    assert forall|given: Seq<Seq<char>>|
        value_in(row, column) == #[trigger] listed_texts(given) implies crate::overrides::text_items(
        field(record, name),
    ) == given by {
        lemma_text_items(given);
    }
}

proof fn lemma_rules_of_rows(rows: Seq<RowV>)
    requires
        rule_rows(rows),
    ensures
        records(Shape::Rule, rows) is Ok,
        stored_rules(records(Shape::Rule, rows)->Ok_0).len() == rows.len(),
        forall|i: int|
            0 <= i < rows.len() ==> rule_of_row(
                stored_rules(records(Shape::Rule, rows)->Ok_0)[i],
                #[trigger] rows[i],
            ),
{
    records_stand_for_their_rows(Shape::Rule, rows);
    assert forall|i: int| 0 <= i < rows.len() implies record(Shape::Rule, #[trigger] rows[i])
        is Ok by {
        a_rule_record_shows_its_row(rows[i]);
    }
    let list = records(Shape::Rule, rows)->Ok_0;
    assert forall|i: int| 0 <= i < rows.len() implies rule_of_row(
        stored_rules(list)[i],
        #[trigger] rows[i],
    ) by {
        a_rule_record_shows_its_row(rows[i]);
        assert(record(Shape::Rule, rows[i]) == Ok::<JsonV, Seq<char>>(list[i]));
        assert(shows_rule_row(list[i], rows[i]) && rule_row(rows[i]));
        assert(stored_rules(list)[i] == stored_rule(list[i]));
        lemma_list_of_row(list[i], "tags"@, rows[i], "tags_json"@);
        lemma_list_of_row(list[i], "paths"@, rows[i], "paths_json"@);
        lemma_list_of_row(list[i], "languages"@, rows[i], "languages_json"@);
    }
}

/// Whether a value reports a change of an override.
pub open spec fn reports_change(
    v: JsonV,
    project_id: Seq<char>,
    key: Seq<char>,
    status: Seq<char>,
    revision: Seq<char>,
) -> bool {
    &&& field(v, "project_id"@) == Some(JsonV::Text(project_id))
    &&& field(v, "key"@) == Some(JsonV::Text(key))
    &&& field(v, "status"@) == Some(JsonV::Text(status))
    &&& field(v, "knowledge_revision"@) == Some(JsonV::Text(revision))
}

proof fn lemma_renew_fields(job: RenewJobV, revision: Seq<char>)
    ensures
        reports_change(
            renew_value(job, revision),
            job.project_id,
            job.key,
            job.status,
            revision,
        ),
{
    reveal_strlit("project_id");
    reveal_strlit("key");
    reveal_strlit("status");
    reveal_strlit("knowledge_revision");
    assert("project_id"@.len() == 10 && "key"@.len() == 3 && "status"@.len() == 6
        && "knowledge_revision"@.len() == 18);
    lemma_detail("project_id"@, JsonV::Text(job.project_id));
    let v0 = detail("project_id"@, JsonV::Text(job.project_id));
    lemma_and_detail(v0, "key"@, JsonV::Text(job.key));
    let v1 = and_detail(v0, "key"@, JsonV::Text(job.key));
    lemma_and_detail(v1, "status"@, JsonV::Text(job.status));
    let v2 = and_detail(v1, "status"@, JsonV::Text(job.status));
    lemma_and_detail(v2, "knowledge_revision"@, JsonV::Text(revision));
    let v3 = and_detail(v2, "knowledge_revision"@, JsonV::Text(revision));
}

/// After an override was changed, the project, its rules and its active overrides are read, and the
/// description and the revision of the rules as they count now are written. The answer tells the
/// key, the status that the override has now, and that revision.
#[verifier::spinoff_prover]
#[verifier::rlimit(50)]
pub proof fn a_change_renews_the_description(
    job: RenewJobV,
    db: Seq<char>,
    project: Seq<RowV>,
    rules: Seq<RowV>,
    active: Seq<RowV>,
    now: Seq<char>,
)
    requires
        project.len() > 0,
        stored_description(row_object(project[0])) is Ok,
        rule_rows(rules),
        override_rows(active),
    ensures
        ({
            let p = row_object(project[0]);
            let written = next(db, StageV::RenewWritten(job), ReplyV::Done, now);
            let looked = after_reply(db, written, ReplyV::Rows(project), now);
            let read = after_reply(db, looked, ReplyV::Rows(rules), now);
            let step = after_reply(db, read, ReplyV::Rows(active), now);
            let last = after_reply(db, step, ReplyV::Done, now);
            &&& queries(written, project_query(job.project_id))
            &&& queries(looked, rules_query(job.project_id))
            &&& queries(read, overrides_query(job.project_id, seq!["active"@]))
            &&& exists|c: ChecklistV, made: ChecklistV, d: JsonV, revision: Seq<char>|
                {
                    &&& checklist_of_rows(c, p, stored_description(p)->Ok_0, rules)
                    &&& #[trigger] counts_under(active, c, made)
                    &&& is_revision(revision, made)
                    &&& text_field(p, "project_name"@) matches Some(name) ==> describes(
                        d,
                        job.project_id,
                        name,
                        made,
                        revision,
                    )
                    &&& step matches StepV::Ask(request, _) && request == RequestV::Write(
                        #[trigger] description_writes(job.project_id, revision, d, now),
                    )
                    &&& last matches StepV::Done(Ok(v)) && reports_change(
                        v,
                        job.project_id,
                        job.key,
                        job.status,
                        revision,
                    )
                }
        }),
{
    assert(counting() =~= seq!["active"@]);
    let p = row_object(project[0]);
    let old = stored_description(p)->Ok_0;
    lemma_rules_of_rows(rules);
    let list = records(Shape::Rule, rules)->Ok_0;
    let c = ChecklistV { rules: stored_rules(list), ..stored_checklist(p, old) };
    assert(checklist_of_rows(c, p, old, rules));
    records_stand_for_their_rows(Shape::Override, active);
    assert forall|i: int| 0 <= i < active.len() implies record(
        Shape::Override,
        #[trigger] active[i],
    ) is Ok by {
        an_override_record_shows_its_row(active[i]);
    }
    let overrides = records(Shape::Override, active)->Ok_0;
    overrides_take_effect(c, active, overrides);
    let made = effective_checklist(c, overrides);
    let name = text_or_empty(p, "project_name"@);
    a_description_shows_the_checklist(job.project_id, name, made);
    let d = description_value(job.project_id, name, made);
    let revision = revision_of(made);
    lemma_renew_fields(job, revision);
    assert(counts_under(active, c, made));
    let writes = description_writes(job.project_id, revision, d, now);
}

// ---- setting and unsetting ----

/// Setting an override needs a stored project, a reason, fields that can be overridden, and a rule
/// under the key. Then the override is written with the fields as they are kept, the source hash of
/// the rule and the reason without the white space around it, together with an entry of the audit
/// log, and the description is renewed.
#[verifier::spinoff_prover]
#[verifier::rlimit(50)]
pub proof fn a_set_override_is_checked_and_written(
    project_id: Seq<char>,
    key: Seq<char>,
    fields: Entries,
    reason: Seq<char>,
    l: LocationV,
    home: Option<Seq<char>>,
    cwd: Seq<char>,
    db: Seq<char>,
    project: Seq<RowV>,
    found: Seq<RowV>,
    now: Seq<char>,
)
    ensures
        ({
            let op = OperationV::Change { project_id, key, fields, reason };
            let first = operation_start(op, l, home, cwd);
            let looked = after_reply(db, first, ReplyV::Rows(project), now);
            let step = after_reply(db, looked, ReplyV::Rows(found), now);
            &&& queries(first, project_query(project_id))
            &&& if project.len() == 0 {
                refuses(looked, ErrorCode::ProjectNotFound)
            } else if is_blank(reason) || !acceptable(fields) {
                refuses(looked, ErrorCode::InvalidArgument)
            } else {
                &&& queries(looked, source_hash_query(project_id, key))
                &&& match first_text(found) {
                    None => refuses(step, ErrorCode::RuleNotFound),
                    Some(hash) => exists|kept: Entries, why: Seq<char>|
                        {
                            &&& keeps_fields(kept, fields)
                            &&& stripped_of(why, reason)
                            &&& step == StepV::<StageV, ServiceErrorV>::Ask(
                                RequestV::Write(
                                    seq![
                                        #[trigger] override_upsert(
                                            project_id,
                                            key,
                                            kept,
                                            hash,
                                            why,
                                            now,
                                        ),
                                        audit_insert(
                                            project_id,
                                            key,
                                            "override.set"@,
                                            why,
                                            JsonV::Object(kept),
                                            now,
                                        ),
                                    ],
                                ),
                                StageV::RenewWritten(
                                    RenewJobV { project_id, key, status: "active"@ },
                                ),
                            )
                        },
                }
            }
        }),
{
    lemma_keeps_fields(fields);
    trimming_takes_white_space(reason);
    let job = OverrideJobV { project_id, key, fields: JsonV::Object(fields), reason };
    assert(bindings(job.fields) == fields);
    if project.len() > 0 && !is_blank(reason) && acceptable(fields) {
        if let Some(hash) = first_text(found) {
            let kept = validated_fields(fields)->Ok_0;
            let why = trimmed(reason);
            let s = override_upsert(project_id, key, kept, hash, why, now);
            assert(bindings(JsonV::Object(kept)) == kept);
        }
    }
}

/// Unsetting an override needs a stored project, a reason and an override for the key. Then the
/// override is disabled, together with an entry of the audit log, and the description is renewed.
#[verifier::spinoff_prover]
#[verifier::rlimit(50)]
pub proof fn an_unset_override_is_checked_and_disabled(
    project_id: Seq<char>,
    key: Seq<char>,
    reason: Seq<char>,
    l: LocationV,
    home: Option<Seq<char>>,
    cwd: Seq<char>,
    db: Seq<char>,
    project: Seq<RowV>,
    found: Seq<RowV>,
    now: Seq<char>,
)
    ensures
        ({
            let op = OperationV::Unset { project_id, key, reason };
            let first = operation_start(op, l, home, cwd);
            let looked = after_reply(db, first, ReplyV::Rows(project), now);
            let step = after_reply(db, looked, ReplyV::Rows(found), now);
            &&& queries(first, project_query(project_id))
            &&& if project.len() == 0 {
                refuses(looked, ErrorCode::ProjectNotFound)
            } else if is_blank(reason) {
                refuses(looked, ErrorCode::InvalidArgument)
            } else {
                &&& queries(looked, override_query(project_id, key))
                &&& found.len() == 0 ==> refuses(step, ErrorCode::RuleNotFound)
                &&& found.len() > 0 && override_row(found[0]) ==> exists|why: Seq<char>|
                    {
                        &&& stripped_of(why, reason)
                        &&& step == StepV::<StageV, ServiceErrorV>::Ask(
                            RequestV::Write(
                                seq![
                                    #[trigger] override_disable(project_id, key, why, now),
                                    audit_insert(
                                        project_id,
                                        key,
                                        "override.unset"@,
                                        why,
                                        JsonV::Object(Seq::empty()),
                                        now,
                                    ),
                                ],
                            ),
                            StageV::RenewWritten(
                                RenewJobV { project_id, key, status: "disabled"@ },
                            ),
                        )
                    }
            }
        }),
{
    trimming_takes_white_space(reason);
    let s = override_disable(project_id, key, trimmed(reason), now);
    if found.len() > 0 {
        an_override_record_shows_its_row(found[0]);
    }
}

// ---- resolving ----

/// The source hash of the rule of a checklist under a key.
pub open spec fn hash_under(c: ChecklistV, key: Seq<char>, hash: Option<Seq<char>>) -> bool {
    match hash {
        Some(h) => exists|i: int|
            0 <= i < c.rules.len() && (#[trigger] c.rules[i]).key == key && c.rules[i].source_rule_hash
                == h,
        None => forall|i: int| 0 <= i < c.rules.len() ==> (#[trigger] c.rules[i]).key != key,
    }
}

proof fn lemma_hash_under(rules: Seq<RuleV>, key: Seq<char>)
    ensures
        match rule_hash(rules, key) {
            Some(h) => exists|i: int|
                0 <= i < rules.len() && (#[trigger] rules[i]).key == key
                    && rules[i].source_rule_hash == h,
            None => forall|i: int| 0 <= i < rules.len() ==> (#[trigger] rules[i]).key != key,
        },
    decreases rules.len(),
{
    if rules.len() > 0 {
        let rest = rules.drop_first();
        lemma_hash_under(rest, key);
        if rules[0].key != key {
            match rule_hash(rest, key) {
                Some(h) => {
                    let i = choose|i: int|
                        0 <= i < rest.len() && (#[trigger] rest[i]).key == key
                            && rest[i].source_rule_hash == h;
                    assert(rules[i + 1] == rest[i]);
                },
                None => {
                    assert forall|i: int| 0 <= i < rules.len() implies (#[trigger] rules[i]).key
                        != key by {
                        if i > 0 {
                            assert(rest[i - 1] == rules[i]);
                        }
                    }
                },
            }
        } else {
            assert(rules[0].key == key);
        }
    }
}

/// Resolving a conflict needs a stored project, one of the two strategies and a reason, and reads
/// the checklist as its path was given. Then the override is looked up.
#[verifier::spinoff_prover]
#[verifier::rlimit(50)]
pub proof fn a_resolution_is_checked(
    project_id: Seq<char>,
    key: Seq<char>,
    strategy: Seq<char>,
    checklist: Seq<char>,
    reason: Seq<char>,
    l: LocationV,
    home: Option<Seq<char>>,
    cwd: Seq<char>,
    db: Seq<char>,
    project: Seq<RowV>,
    file: Option<Seq<u8>>,
    now: Seq<char>,
)
    ensures
        ({
            let op = OperationV::Resolve { project_id, key, strategy, checklist, reason };
            let first = operation_start(op, l, home, cwd);
            let looked = after_reply(db, first, ReplyV::Rows(project), now);
            let read = after_reply(db, looked, ReplyV::File(file), now);
            &&& queries(first, project_query(project_id))
            &&& if project.len() == 0 {
                refuses(looked, ErrorCode::ProjectNotFound)
            } else if (strategy != "keep-override"@ && strategy != "accept-source"@) || is_blank(
                reason,
            ) {
                refuses(looked, ErrorCode::InvalidArgument)
            } else {
                &&& looked matches StepV::Ask(request, _) && request == RequestV::ReadFile(checklist)
                &&& match checklist_of(checklist, file) {
                    Err(e) => read == StepV::<StageV, ServiceErrorV>::Done(
                        Err(ServiceErrorV::Kb(e)),
                    ),
                    Ok(c) => {
                        &&& queries(read, override_query(project_id, key))
                        &&& read matches StepV::Ask(_, StageV::ResolveFound(job, name, hash)) && {
                            &&& hash_under(c, key, hash)
                            &&& job == (ResolveJobV {
                                project_id,
                                key,
                                strategy,
                                reason,
                                given_path: checklist,
                                path: resolved(expanded(checklist, home), home, cwd),
                            })
                            &&& text_field(
                                row_object(project[0]),
                                "project_name"@,
                            ) matches Some(t) ==> name == t
                        }
                    },
                }
            }
        }),
{
    if let Ok(c) = checklist_of(checklist, file) {
        lemma_hash_under(c.rules, key);
    }
}

/// Only an override in conflict is resolved. To keep it, the checklist has to have the rule: the
/// override then counts again, for the source hash that the rule has now. To accept the source, the
/// override is disabled. Either comes with an entry of the audit log; then the project is prepared
/// from the checklist, without force, and the answer tells which conflict was resolved how.
#[verifier::spinoff_prover]
#[verifier::rlimit(50)]
pub proof fn a_conflict_is_resolved(
    job: ResolveJobV,
    name: Seq<char>,
    hash: Option<Seq<char>>,
    db: Seq<char>,
    found: Seq<RowV>,
    now: Seq<char>,
)
    requires
        job.strategy == "keep-override"@ || job.strategy == "accept-source"@,
        found.len() > 0 ==> override_row(found[0]),
    ensures
        ({
            let step = next(db, StageV::ResolveFound(job, name, hash), ReplyV::Rows(found), now);
            let last = after_reply(db, step, ReplyV::Done, now);
            let change = JsonV::Object(
                seq![
                    (
                        "base_source_rule_hash"@,
                        match hash {
                            Some(h) => JsonV::Text(h),
                            None => JsonV::Null,
                        },
                    ),
                ],
            );
            if found.len() == 0 {
                refuses(step, ErrorCode::RuleNotFound)
            } else if text_in(found[0], "status"@) != Some("conflict"@) {
                refuses(step, ErrorCode::InvalidArgument)
            } else if job.strategy == "keep-override"@ && hash is None {
                refuses(step, ErrorCode::RuleNotFound)
            } else {
                &&& exists|why: Seq<char>|
                    {
                        &&& #[trigger] stripped_of(why, job.reason)
                        &&& step matches StepV::Ask(request, _) && request == RequestV::Write(
                            if job.strategy == "keep-override"@ {
                                seq![
                                    override_keep(job.project_id, job.key, hash->0, why, now),
                                    audit_insert(
                                        job.project_id,
                                        job.key,
                                        "override.resolve.keep"@,
                                        why,
                                        change,
                                        now,
                                    ),
                                ]
                            } else {
                                seq![
                                    override_disable(job.project_id, job.key, why, now),
                                    audit_insert(
                                        job.project_id,
                                        job.key,
                                        "override.resolve.accept_source"@,
                                        why,
                                        change,
                                        now,
                                    ),
                                ]
                            },
                        )
                    }
                &&& !is_blank(job.project_id) && !is_blank(name) ==> last == StepV::<
                    StageV,
                    ServiceErrorV,
                >::Ask(
                    RequestV::ReadFile(job.path),
                    StageV::PrepareRead(
                        PrepareJobV {
                            project_id: job.project_id,
                            project_name: name,
                            path: job.path,
                            force: false,
                            completes: Some((job.key, job.strategy)),
                        },
                    ),
                )
            }
        }),
{
    trimming_takes_white_space(job.reason);
    reveal_strlit("keep-override");
    reveal_strlit("accept-source");
    assert("keep-override"@[0] == 'k' && "accept-source"@[0] == 'a');
    reveal_strlit("conflict");
    assert("conflict"@.len() == 8);
    let value = match hash {
        Some(h) => JsonV::Text(h),
        None => JsonV::Null,
    };
    assert(detail("base_source_rule_hash"@, value)->Object_0 =~= seq![
        ("base_source_rule_hash"@, value),
    ]);
    if found.len() > 0 {
        an_override_record_shows_its_row(found[0]);
        let o = record(Shape::Override, found[0])->Ok_0;
        assert(text_field(o, "status"@) == text_in(found[0], "status"@));
    }
    assert(stripped_of(trimmed(job.reason), job.reason));
}

} // verus!
