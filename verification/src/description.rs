//! Descriptions: what a caller sees of a checklist before it selects rules.

use vstd::prelude::*;

use crate::errors::{and_detail, detail};
use crate::json::{field, items_view, texts, Json, JsonV};
use crate::json_laws::{
    equal_texts_mean_equal_values, lemma_and_detail, lemma_detail, lemma_sorted_field,
    lemma_storable_and_detail, lemma_storable_detail, lemma_storable_texts, lemma_texts_sorted,
    storable, tidy, whole,
};
use crate::json_util::{
    canonical, canonical_hash, lemma_sorted, lemma_sorted_items, sorted, sorted_items, text_digest,
};
use crate::models::{rules_view, Checklist, ChecklistV, Rule, RuleV};

verus! {

broadcast use crate::json::group_json;

/// What a description shows of a rule: everything but its content.
pub open spec fn summary_value(rule: RuleV) -> JsonV {
    and_detail(
        and_detail(
            and_detail(
                and_detail(
                    detail("key"@, JsonV::Text(rule.key)),
                    "summary"@,
                    JsonV::Text(rule.summary),
                ),
                "tags"@,
                texts(rule.tags),
            ),
            "paths"@,
            texts(rule.paths),
        ),
        "languages"@,
        texts(rule.languages),
    )
}

/// A rule as a knowledge revision covers it: its summary and its content.
pub open spec fn effective_value(rule: RuleV) -> JsonV {
    and_detail(summary_value(rule), "content"@, JsonV::Text(rule.content))
}

/// A rule as its source hash covers it.
pub open spec fn rule_fields_value(rule: RuleV) -> JsonV {
    and_detail(
        and_detail(
            and_detail(
                and_detail(
                    and_detail(
                        detail("key"@, JsonV::Text(rule.key)),
                        "summary"@,
                        JsonV::Text(rule.summary),
                    ),
                    "content"@,
                    JsonV::Text(rule.content),
                ),
                "tags"@,
                texts(rule.tags),
            ),
            "paths"@,
            texts(rule.paths),
        ),
        "languages"@,
        texts(rule.languages),
    )
}

/// The digest of a rule's own fields.
pub open spec fn source_hash(rule: RuleV) -> Seq<char> {
    text_digest(canonical(rule_fields_value(rule)))
}

/// What a knowledge revision is the digest of: the global description and every rule in full.
pub open spec fn knowledge_value(checklist: ChecklistV) -> JsonV {
    and_detail(
        detail("global_description"@, JsonV::Text(checklist.global_description)),
        "rules"@,
        JsonV::Array(checklist.rules.map_values(|r: RuleV| effective_value(r))),
    )
}

/// The knowledge revision of a checklist.
pub open spec fn revision_of(checklist: ChecklistV) -> Seq<char> {
    text_digest(canonical(knowledge_value(checklist)))
}

/// The description of a checklist.
pub open spec fn description_value(
    project_id: Seq<char>,
    project_name: Seq<char>,
    checklist: ChecklistV,
) -> JsonV {
    and_detail(
        and_detail(
            and_detail(
                detail(
                    "project"@,
                    and_detail(
                        detail("id"@, JsonV::Text(project_id)),
                        "name"@,
                        JsonV::Text(project_name),
                    ),
                ),
                "checklist"@,
                and_detail(
                    and_detail(
                        and_detail(
                            detail("schema_version"@, JsonV::Int(checklist.schema_version)),
                            "version"@,
                            JsonV::Text(checklist.checklist_version),
                        ),
                        "content_hash"@,
                        JsonV::Text(checklist.content_hash),
                    ),
                    "knowledge_revision"@,
                    JsonV::Text(revision_of(checklist)),
                ),
            ),
            "global_description"@,
            JsonV::Text(checklist.global_description),
        ),
        "rules"@,
        JsonV::Array(checklist.rules.map_values(|r: RuleV| summary_value(r))),
    )
}

/// The revision that a description carries.
pub open spec fn carried_revision(description: JsonV) -> Option<Seq<char>> {
    match field(description, "checklist"@) {
        Some(c) => crate::json::text_field(c, "knowledge_revision"@),
        None => None,
    }
}

/// What a description shows of `rule`.
pub fn rule_summary(rule: &Rule) -> (r: Json)
    ensures
        r@ == summary_value(rule@),
{
    Json::object().with("key", Json::text(rule.key.as_str())).with(
        "summary",
        Json::text(rule.summary.as_str()),
    ).with("tags", Json::texts(&rule.tags)).with("paths", Json::texts(&rule.paths)).with(
        "languages",
        Json::texts(&rule.languages),
    )
}

/// `rule` as its source hash covers it.
pub fn rule_fields(rule: &Rule) -> (r: Json)
    ensures
        r@ == rule_fields_value(rule@),
{
    Json::object().with("key", Json::text(rule.key.as_str())).with(
        "summary",
        Json::text(rule.summary.as_str()),
    ).with("content", Json::text(rule.content.as_str())).with("tags", Json::texts(&rule.tags)).with(
        "paths",
        Json::texts(&rule.paths),
    ).with("languages", Json::texts(&rule.languages))
}

/// Builds the description of a checklist.
pub fn build_description(project_id: &str, project_name: &str, checklist: &Checklist) -> (r: Json)
    ensures
        r@ == description_value(project_id@, project_name@, checklist@),
{
    let mut summaries: Vec<Json> = Vec::new();
    let mut effective: Vec<Json> = Vec::new();
    let ghost all = rules_view(checklist.rules@);
    let mut i: usize = 0;
    while i < checklist.rules.len()
        invariant
            i <= checklist.rules@.len(),
            all == rules_view(checklist.rules@),
            summaries@.len() == i,
            effective@.len() == i,
            forall|k: int| 0 <= k < i ==> (#[trigger] summaries@[k])@ == summary_value(all[k]),
            forall|k: int| 0 <= k < i ==> (#[trigger] effective@[k])@ == effective_value(all[k]),
        decreases checklist.rules@.len() - i,
    {
        let rule = &checklist.rules[i];
        let summary = rule_summary(rule);
        effective.push(summary.duplicate().with("content", Json::text(rule.content.as_str())));
        summaries.push(summary);
        i += 1;
    }
    proof {
        assert(items_view(summaries@) =~= all.map_values(|r: RuleV| summary_value(r)));
        assert(items_view(effective@) =~= all.map_values(|r: RuleV| effective_value(r)));
    }
    let knowledge = Json::object().with(
        "global_description",
        Json::text(checklist.global_description.as_str()),
    ).with("rules", Json::Array(effective));
    assert(knowledge@ == knowledge_value(checklist@));
    let revision = canonical_hash(&knowledge);
    Json::object().with(
        "project",
        Json::object().with("id", Json::text(project_id)).with("name", Json::text(project_name)),
    ).with(
        "checklist",
        Json::object().with("schema_version", Json::Int(checklist.schema_version)).with(
            "version",
            Json::text(checklist.checklist_version.as_str()),
        ).with("content_hash", Json::text(checklist.content_hash.as_str())).with(
            "knowledge_revision",
            Json::text(revision.as_str()),
        ),
    ).with("global_description", Json::text(checklist.global_description.as_str())).with(
        "rules",
        Json::Array(summaries),
    )
}

/// The revision that `description` carries.
pub fn knowledge_revision_of(description: &Json) -> (r: Option<&str>)
    ensures
        match r {
            Some(t) => carried_revision(description@) == Some(t@),
            None => carried_revision(description@) is None,
        },
{
    match description.get("checklist") {
        Some(c) => crate::json::get_str(c, "knowledge_revision"),
        None => None,
    }
}

/// A description carries the revision of the checklist that it describes.
pub proof fn description_carries_revision(
    project_id: Seq<char>,
    project_name: Seq<char>,
    checklist: ChecklistV,
)
    ensures
        carried_revision(description_value(project_id, project_name, checklist)) == Some(
            revision_of(checklist),
        ),
{
    reveal_strlit("project");
    reveal_strlit("checklist");
    reveal_strlit("global_description");
    reveal_strlit("rules");
    reveal_strlit("schema_version");
    reveal_strlit("version");
    reveal_strlit("content_hash");
    reveal_strlit("knowledge_revision");
    reveal_with_fuel(crate::json::position, 6);
    assert("project"@.len() == 7 && "checklist"@.len() == 9 && "global_description"@.len() == 18
        && "rules"@.len() == 5);
    assert("schema_version"@.len() == 14 && "version"@.len() == 7 && "content_hash"@.len() == 12
        && "knowledge_revision"@.len() == 18);
}

// ---- what the digests cover ----

/// Whether two rules agree in everything but their source hash.
pub open spec fn same_rule(a: RuleV, b: RuleV) -> bool {
    &&& a.key == b.key
    &&& a.summary == b.summary
    &&& a.content == b.content
    &&& a.tags == b.tags
    &&& a.paths == b.paths
    &&& a.languages == b.languages
}

proof fn lemma_names()
    ensures
        "key"@ != "summary"@ && "key"@ != "content"@ && "key"@ != "tags"@ && "key"@ != "paths"@
            && "key"@ != "languages"@,
        "summary"@ != "content"@ && "summary"@ != "tags"@ && "summary"@ != "paths"@ && "summary"@
            != "languages"@,
        "content"@ != "tags"@ && "content"@ != "paths"@ && "content"@ != "languages"@,
        "tags"@ != "paths"@ && "tags"@ != "languages"@,
        "paths"@ != "languages"@,
        "global_description"@ != "rules"@,
{
    reveal_strlit("key");
    reveal_strlit("summary");
    reveal_strlit("content");
    reveal_strlit("tags");
    reveal_strlit("paths");
    reveal_strlit("languages");
    reveal_strlit("global_description");
    reveal_strlit("rules");
    assert("key"@.len() == 3 && "summary"@.len() == 7 && "content"@.len() == 7 && "tags"@.len()
        == 4 && "paths"@.len() == 5 && "languages"@.len() == 9);
    assert("summary"@[0] == 's' && "content"@[0] == 'c');
    assert("global_description"@.len() == 18 && "rules"@.len() == 5);
}

/// What the fields of a rule are bound to, in a value that holds them all.
spec fn binds_rule(v: JsonV, r: RuleV) -> bool {
    &&& tidy(v)
    &&& whole(v)
    &&& field(v, "key"@) == Some(JsonV::Text(r.key))
    &&& field(v, "summary"@) == Some(JsonV::Text(r.summary))
    &&& field(v, "content"@) == Some(JsonV::Text(r.content))
    &&& field(v, "tags"@) == Some(texts(r.tags))
    &&& field(v, "paths"@) == Some(texts(r.paths))
    &&& field(v, "languages"@) == Some(texts(r.languages))
}

proof fn lemma_effective_value(r: RuleV)
    ensures
        binds_rule(effective_value(r), r),
{
    lemma_names();
    lemma_texts_sorted(r.tags);
    lemma_texts_sorted(r.paths);
    lemma_texts_sorted(r.languages);
    let a = detail("key"@, JsonV::Text(r.key));
    lemma_detail("key"@, JsonV::Text(r.key));
    let b = and_detail(a, "summary"@, JsonV::Text(r.summary));
    lemma_and_detail(a, "summary"@, JsonV::Text(r.summary));
    let c = and_detail(b, "tags"@, texts(r.tags));
    lemma_and_detail(b, "tags"@, texts(r.tags));
    let d = and_detail(c, "paths"@, texts(r.paths));
    lemma_and_detail(c, "paths"@, texts(r.paths));
    let e = and_detail(d, "languages"@, texts(r.languages));
    lemma_and_detail(d, "languages"@, texts(r.languages));
    lemma_and_detail(e, "content"@, JsonV::Text(r.content));
}

proof fn lemma_rule_fields_value(r: RuleV)
    ensures
        binds_rule(rule_fields_value(r), r),
{
    lemma_names();
    lemma_texts_sorted(r.tags);
    lemma_texts_sorted(r.paths);
    lemma_texts_sorted(r.languages);
    let a = detail("key"@, JsonV::Text(r.key));
    lemma_detail("key"@, JsonV::Text(r.key));
    let b = and_detail(a, "summary"@, JsonV::Text(r.summary));
    lemma_and_detail(a, "summary"@, JsonV::Text(r.summary));
    let c = and_detail(b, "content"@, JsonV::Text(r.content));
    lemma_and_detail(b, "content"@, JsonV::Text(r.content));
    let d = and_detail(c, "tags"@, texts(r.tags));
    lemma_and_detail(c, "tags"@, texts(r.tags));
    let e = and_detail(d, "paths"@, texts(r.paths));
    lemma_and_detail(d, "paths"@, texts(r.paths));
    lemma_and_detail(e, "languages"@, texts(r.languages));
}

proof fn lemma_texts_injective(a: Seq<Seq<char>>, b: Seq<Seq<char>>)
    requires
        texts(a) == texts(b),
    ensures
        a == b,
{
    let x = a.map_values(|t: Seq<char>| JsonV::Text(t));
    let y = b.map_values(|t: Seq<char>| JsonV::Text(t));
    assert(x == y);
    assert(x.len() == a.len() && y.len() == b.len());
    assert forall|i: int| 0 <= i < a.len() implies a[i] == b[i] by {
        assert(x[i] == JsonV::Text(a[i]) && y[i] == JsonV::Text(b[i]));
    }
    assert(a =~= b);
}

/// Sorted values that hold the fields of rules are equal only where the rules are.
proof fn lemma_bound_rules(v: JsonV, w: JsonV, a: RuleV, b: RuleV)
    requires
        binds_rule(v, a),
        binds_rule(w, b),
        sorted(v) == sorted(w),
    ensures
        same_rule(a, b),
{
    lemma_sorted_field(v, "key"@);
    lemma_sorted_field(w, "key"@);
    lemma_sorted_field(v, "summary"@);
    lemma_sorted_field(w, "summary"@);
    lemma_sorted_field(v, "content"@);
    lemma_sorted_field(w, "content"@);
    lemma_sorted_field(v, "tags"@);
    lemma_sorted_field(w, "tags"@);
    lemma_sorted_field(v, "paths"@);
    lemma_sorted_field(w, "paths"@);
    lemma_sorted_field(v, "languages"@);
    lemma_sorted_field(w, "languages"@);
    lemma_texts_sorted(a.tags);
    lemma_texts_sorted(b.tags);
    lemma_texts_sorted(a.paths);
    lemma_texts_sorted(b.paths);
    lemma_texts_sorted(a.languages);
    lemma_texts_sorted(b.languages);
    lemma_texts_injective(a.tags, b.tags);
    lemma_texts_injective(a.paths, b.paths);
    lemma_texts_injective(a.languages, b.languages);
}

/// The text that a source hash is the digest of tells every field of the rule: rules with equal
/// texts agree in all of them.
pub proof fn a_source_hash_covers_every_field(a: RuleV, b: RuleV)
    requires
        canonical(rule_fields_value(a)) == canonical(rule_fields_value(b)),
    ensures
        same_rule(a, b),
{
    lemma_rule_fields_value(a);
    lemma_rule_fields_value(b);
    equal_texts_mean_equal_values(rule_fields_value(a), rule_fields_value(b));
    lemma_bound_rules(rule_fields_value(a), rule_fields_value(b), a, b);
}

proof fn lemma_knowledge_value(c: ChecklistV)
    ensures
        tidy(knowledge_value(c)),
        whole(knowledge_value(c)),
        field(knowledge_value(c), "global_description"@) == Some(
            JsonV::Text(c.global_description),
        ),
        field(knowledge_value(c), "rules"@) == Some(
            JsonV::Array(c.rules.map_values(|r: RuleV| effective_value(r))),
        ),
{
    lemma_names();
    let items = c.rules.map_values(|r: RuleV| effective_value(r));
    assert forall|i: int| 0 <= i < items.len() implies whole(#[trigger] items[i]) by {
        lemma_effective_value(c.rules[i]);
    }
    lemma_detail("global_description"@, JsonV::Text(c.global_description));
    lemma_and_detail(
        detail("global_description"@, JsonV::Text(c.global_description)),
        "rules"@,
        JsonV::Array(items),
    );
}

/// The text that a knowledge revision is the digest of tells the global description and every
/// field of every rule, in order: checklists with equal texts agree in all of them.
pub proof fn a_revision_covers_every_field(a: ChecklistV, b: ChecklistV)
    requires
        canonical(knowledge_value(a)) == canonical(knowledge_value(b)),
    ensures
        a.global_description == b.global_description,
        a.rules.len() == b.rules.len(),
        forall|i: int| 0 <= i < a.rules.len() ==> same_rule(#[trigger] a.rules[i], b.rules[i]),
{
    let v = knowledge_value(a);
    let w = knowledge_value(b);
    lemma_knowledge_value(a);
    lemma_knowledge_value(b);
    equal_texts_mean_equal_values(v, w);
    lemma_sorted_field(v, "global_description"@);
    lemma_sorted_field(w, "global_description"@);
    lemma_sorted_field(v, "rules"@);
    lemma_sorted_field(w, "rules"@);
    let x = a.rules.map_values(|r: RuleV| effective_value(r));
    let y = b.rules.map_values(|r: RuleV| effective_value(r));
    lemma_sorted(JsonV::Array(x));
    lemma_sorted(JsonV::Array(y));
    lemma_sorted_items(x);
    lemma_sorted_items(y);
    assert(sorted_items(x) == sorted_items(y));
    assert forall|i: int| 0 <= i < a.rules.len() implies same_rule(
        #[trigger] a.rules[i],
        b.rules[i],
    ) by {
        assert(sorted_items(x)[i] == sorted(x[i]));
        assert(sorted_items(y)[i] == sorted(y[i]));
        lemma_effective_value(a.rules[i]);
        lemma_effective_value(b.rules[i]);
        lemma_bound_rules(x[i], y[i], a.rules[i], b.rules[i]);
    }
}

/// A knowledge revision depends on nothing else: not on the version, not on the digest of the
/// file, not on the source hashes.
pub proof fn a_revision_depends_on_nothing_else(a: ChecklistV, b: ChecklistV)
    requires
        a.global_description == b.global_description,
        a.rules.len() == b.rules.len(),
        forall|i: int| 0 <= i < a.rules.len() ==> same_rule(#[trigger] a.rules[i], b.rules[i]),
    ensures
        revision_of(a) == revision_of(b),
{
    let x = a.rules.map_values(|r: RuleV| effective_value(r));
    let y = b.rules.map_values(|r: RuleV| effective_value(r));
    assert forall|i: int| 0 <= i < x.len() implies x[i] == y[i] by {
        assert(same_rule(a.rules[i], b.rules[i]));
    }
    assert(x =~= y);
}

proof fn lemma_summary_storable(r: RuleV, levels: nat)
    requires
        levels > 1,
    ensures
        storable(summary_value(r), levels),
{
    let low = (levels - 1) as nat;
    lemma_storable_texts(r.tags, low);
    lemma_storable_texts(r.paths, low);
    lemma_storable_texts(r.languages, low);
    let a = detail("key"@, JsonV::Text(r.key));
    lemma_storable_detail("key"@, JsonV::Text(r.key), levels);
    let b = and_detail(a, "summary"@, JsonV::Text(r.summary));
    lemma_storable_and_detail(a, "summary"@, JsonV::Text(r.summary), levels);
    let c = and_detail(b, "tags"@, texts(r.tags));
    lemma_storable_and_detail(b, "tags"@, texts(r.tags), levels);
    let d = and_detail(c, "paths"@, texts(r.paths));
    lemma_storable_and_detail(c, "paths"@, texts(r.paths), levels);
    lemma_storable_and_detail(d, "languages"@, texts(r.languages), levels);
}

/// A description can be stored: its canonical text gives it back.
pub proof fn a_description_can_be_stored(
    project_id: Seq<char>,
    project_name: Seq<char>,
    checklist: ChecklistV,
)
    requires
        i64::MIN <= checklist.schema_version <= i64::MAX,
    ensures
        storable(description_value(project_id, project_name, checklist), 127),
{
    let p = detail("id"@, JsonV::Text(project_id));
    lemma_storable_detail("id"@, JsonV::Text(project_id), 126);
    let project = and_detail(p, "name"@, JsonV::Text(project_name));
    lemma_storable_and_detail(p, "name"@, JsonV::Text(project_name), 126);
    let v = detail("schema_version"@, JsonV::Int(checklist.schema_version));
    lemma_storable_detail("schema_version"@, JsonV::Int(checklist.schema_version), 126);
    let w = and_detail(v, "version"@, JsonV::Text(checklist.checklist_version));
    lemma_storable_and_detail(v, "version"@, JsonV::Text(checklist.checklist_version), 126);
    let x = and_detail(w, "content_hash"@, JsonV::Text(checklist.content_hash));
    lemma_storable_and_detail(w, "content_hash"@, JsonV::Text(checklist.content_hash), 126);
    let head = and_detail(x, "knowledge_revision"@, JsonV::Text(revision_of(checklist)));
    lemma_storable_and_detail(
        x,
        "knowledge_revision"@,
        JsonV::Text(revision_of(checklist)),
        126,
    );
    let items = checklist.rules.map_values(|r: RuleV| summary_value(r));
    assert forall|i: int| 0 <= i < items.len() implies storable(#[trigger] items[i], 125) by {
        lemma_summary_storable(checklist.rules[i], 125);
    }
    let a = detail("project"@, project);
    lemma_storable_detail("project"@, project, 127);
    let b = and_detail(a, "checklist"@, head);
    lemma_storable_and_detail(a, "checklist"@, head, 127);
    let c = and_detail(b, "global_description"@, JsonV::Text(checklist.global_description));
    lemma_storable_and_detail(
        b,
        "global_description"@,
        JsonV::Text(checklist.global_description),
        127,
    );
    lemma_storable_and_detail(c, "rules"@, JsonV::Array(items), 127);
}

} // verus!
