//! Local overrides: what they may hold, what they change, and when they are in conflict.

use vstd::prelude::*;

use crate::errors::{detail, ErrorCode, ErrorV, ReviewKBError};
use crate::json::{
    entries_view, field, get_str, insert, items_view, text_field, texts, Entries, Json, JsonV,
};
use crate::models::{rules_view, Checklist, ChecklistV, Rule, RuleV};
use crate::text::{blank, is_blank, is_member, same, strings, trim, trimmed};

verus! {

broadcast use crate::json::group_json;

// ---- fields ----

/// Whether an override may change a field of this name.
pub open spec fn is_override_field(name: Seq<char>) -> bool {
    name == "summary"@ || name == "content"@ || is_list_field(name)
}

/// Whether a field of this name holds a list.
pub open spec fn is_list_field(name: Seq<char>) -> bool {
    name == "tags"@ || name == "paths"@ || name == "languages"@
}

/// The fields that an override may change, in ascending order.
pub open spec fn override_fields() -> Seq<Seq<char>> {
    seq!["content"@, "languages"@, "paths"@, "summary"@, "tags"@]
}

/// The first `n` items as texts, each once.
pub open spec fn distinct_upto(items: Seq<JsonV>, n: int) -> Seq<Seq<char>>
    decreases n,
{
    if n <= 0 {
        Seq::empty()
    } else {
        let list = distinct_upto(items, n - 1);
        match items[n - 1] {
            JsonV::Text(t) => if list.contains(t) {
                list
            } else {
                list.push(t)
            },
            _ => list,
        }
    }
}

/// The texts among `items`, each once, in the order of their first occurrence.
pub fn dedupe_strings(items: &Vec<Json>) -> (r: Vec<String>)
    ensures
        strings(r@) == distinct_upto(items_view(items@), items@.len() as int),
{
    let ghost all = items_view(items@);
    let mut list: Vec<String> = Vec::new();
    let mut i: usize = 0;
    assert(strings(list@) =~= Seq::empty());
    while i < items.len()
        invariant
            i <= items@.len(),
            all == items_view(items@),
            strings(list@) == distinct_upto(all, i as int),
        decreases items@.len() - i,
    {
        if let Json::Text(t) = &items[i] {
            if !is_member(&list, t.as_str()) {
                let ghost before = list@;
                list.push(t.clone());
                assert(strings(list@) =~= strings(before).push(t@));
            }
        }
        i += 1;
    }
    list
}

/// Whether every item is a text with more than white space in it.
pub open spec fn all_filled(items: Seq<JsonV>) -> bool {
    forall|i: int|
        0 <= i < items.len() ==> (#[trigger] items[i] matches JsonV::Text(t) && !is_blank(t))
}

fn every_filled(items: &Vec<Json>) -> (r: bool)
    ensures
        r == all_filled(items_view(items@)),
{
    let ghost all = items_view(items@);
    let mut i: usize = 0;
    while i < items.len()
        invariant
            i <= items@.len(),
            all == items_view(items@),
            forall|k: int| 0 <= k < i ==> (#[trigger] all[k] matches JsonV::Text(t) && !is_blank(t)),
        decreases items@.len() - i,
    {
        assert(all[i as int] == items@[i as int]@);
        match &items[i] {
            Json::Text(t) => if blank(t.as_str()) {
                return false;
            },
            _ => return false,
        }
        i += 1;
    }
    true
}

/// The value of an override field as it is kept: a trimmed text, or a list of texts, each once.
pub open spec fn override_value(name: Seq<char>, value: JsonV) -> Result<JsonV, ErrorV> {
    if is_list_field(name) {
        match value {
            JsonV::Array(items) => if all_filled(items) {
                Ok(texts(distinct_upto(items, items.len() as int)))
            } else {
                Err(list_error(name))
            },
            _ => Err(list_error(name)),
        }
    } else {
        match value {
            JsonV::Text(t) => if is_blank(t) {
                Err(text_error(name))
            } else {
                Ok(JsonV::Text(trimmed(t)))
            },
            _ => Err(text_error(name)),
        }
    }
}

/// The error for a list field with a value that is no list of filled texts.
pub open spec fn list_error(name: Seq<char>) -> ErrorV {
    ErrorV {
        code: ErrorCode::InvalidArgument,
        message: "override "@ + name + " must be an array of non-empty strings"@,
        details: detail("field"@, JsonV::Text(name)),
    }
}

/// The error for a text field with a value that is no filled text.
pub open spec fn text_error(name: Seq<char>) -> ErrorV {
    ErrorV {
        code: ErrorCode::InvalidArgument,
        message: "override "@ + name + " must be a non-empty string"@,
        details: detail("field"@, JsonV::Text(name)),
    }
}

/// The error for no field, or one that cannot be overridden.
pub open spec fn unsupported_error() -> ErrorV {
    ErrorV {
        code: ErrorCode::InvalidArgument,
        message: "override requires at least one supported field"@,
        details: detail("allowed_fields"@, texts(override_fields())),
    }
}

/// The first `n` fields as they are kept, or the error of the first that cannot be.
pub open spec fn validated_upto(fields: Entries, n: int) -> Result<Entries, ErrorV>
    decreases n,
{
    if n <= 0 {
        Ok(Seq::empty())
    } else {
        match validated_upto(fields, n - 1) {
            Err(e) => Err(e),
            Ok(done) => match override_value(fields[n - 1].0, fields[n - 1].1) {
                Err(e) => Err(e),
                Ok(v) => Ok(crate::json::put(done, fields[n - 1].0, v)),
            },
        }
    }
}

/// Whether there is a field at all, and every one can be overridden.
pub open spec fn all_supported(fields: Entries) -> bool {
    fields.len() > 0 && forall|i: int|
        0 <= i < fields.len() ==> is_override_field((#[trigger] fields[i]).0)
}

/// The fields of an override as they are kept.
pub open spec fn validated_fields(fields: Entries) -> Result<Entries, ErrorV> {
    if !all_supported(fields) {
        Err(unsupported_error())
    } else {
        validated_upto(fields, fields.len() as int)
    }
}

fn supported(fields: &Vec<(String, Json)>) -> (r: bool)
    ensures
        r == all_supported(entries_view(fields@)),
{
    let ghost all = entries_view(fields@);
    let mut i: usize = 0;
    while i < fields.len()
        invariant
            i <= fields@.len(),
            all == entries_view(fields@),
            forall|k: int| 0 <= k < i ==> is_override_field((#[trigger] all[k]).0),
        decreases fields@.len() - i,
    {
        let name = fields[i].0.as_str();
        assert(all[i as int].0 == name@);
        if !same(name, "summary") && !same(name, "content") && !list_name(name) {
            return false;
        }
        i += 1;
    }
    fields.len() > 0
}

fn list_name(name: &str) -> (r: bool)
    ensures
        r == is_list_field(name@),
{
    same(name, "tags") || same(name, "paths") || same(name, "languages")
}

fn field_error(name: &str, what: &str) -> (r: ReviewKBError)
    ensures
        r@ == (ErrorV {
            code: ErrorCode::InvalidArgument,
            message: "override "@ + name@ + what@,
            details: detail("field"@, JsonV::Text(name@)),
        }),
{
    let mut message = "override ".to_string();
    message.push_str(name);
    message.push_str(what);
    ReviewKBError::new(
        ErrorCode::InvalidArgument,
        message,
        Json::object().with("field", Json::text(name)),
    )
}

fn kept_value(name: &str, value: &Json) -> (r: Result<Json, ReviewKBError>)
    ensures
        match r {
            Ok(v) => override_value(name@, value@) == Ok::<JsonV, ErrorV>(v@),
            Err(e) => override_value(name@, value@) == Err::<JsonV, ErrorV>(e@),
        },
{
    if list_name(name) {
        match value {
            Json::Array(items) => if every_filled(items) {
                Ok(Json::texts(&dedupe_strings(items)))
            } else {
                Err(field_error(name, " must be an array of non-empty strings"))
            },
            _ => Err(field_error(name, " must be an array of non-empty strings")),
        }
    } else {
        match value {
            Json::Text(t) => if blank(t.as_str()) {
                Err(field_error(name, " must be a non-empty string"))
            } else {
                Ok(Json::Text(trim(t.as_str())))
            },
            _ => Err(field_error(name, " must be a non-empty string")),
        }
    }
}

proof fn lemma_validated_fails(fields: Entries, lo: int, hi: int)
    requires
        0 <= lo <= hi,
        validated_upto(fields, lo) is Err,
    ensures
        validated_upto(fields, hi) == validated_upto(fields, lo),
    decreases hi,
{
    if lo < hi {
        lemma_validated_fails(fields, lo, hi - 1);
    }
}

/// Checks the fields of an override and brings them into the form in which they are kept.
pub fn validate_override_fields(fields: &Vec<(String, Json)>) -> (r: Result<
    Vec<(String, Json)>,
    ReviewKBError,
>)
    ensures
        match r {
            Ok(kept) => validated_fields(entries_view(fields@)) == Ok::<Entries, ErrorV>(
                entries_view(kept@),
            ),
            Err(e) => validated_fields(entries_view(fields@)) == Err::<Entries, ErrorV>(e@),
        },
{
    let ghost all = entries_view(fields@);
    if !supported(fields) {
        let mut allowed: Vec<String> = Vec::new();
        allowed.push("content".to_string());
        allowed.push("languages".to_string());
        allowed.push("paths".to_string());
        allowed.push("summary".to_string());
        allowed.push("tags".to_string());
        assert(strings(allowed@) =~= override_fields());
        return Err(
            ReviewKBError::new(
                ErrorCode::InvalidArgument,
                "override requires at least one supported field".to_string(),
                Json::object().with("allowed_fields", Json::texts(&allowed)),
            ),
        );
    }
    let mut kept: Vec<(String, Json)> = Vec::new();
    let mut i: usize = 0;
    assert(entries_view(kept@) =~= Seq::empty());
    while i < fields.len()
        invariant
            i <= fields@.len(),
            all == entries_view(fields@),
            all_supported(all),
            validated_upto(all, i as int) == Ok::<Entries, ErrorV>(entries_view(kept@)),
        decreases fields@.len() - i,
    {
        let name = fields[i].0.as_str();
        match kept_value(name, &fields[i].1) {
            Ok(v) => {
                insert(&mut kept, name, v);
            },
            Err(e) => {
                proof {
                    lemma_validated_fails(all, i + 1, all.len() as int);
                }
                return Err(e);
            },
        }
        i += 1;
    }
    Ok(kept)
}

// ---- effect ----

/// The texts among the first `n` items.
pub open spec fn texts_upto(items: Seq<JsonV>, n: int) -> Seq<Seq<char>>
    decreases n,
{
    if n <= 0 {
        Seq::empty()
    } else {
        match items[n - 1] {
            JsonV::Text(t) => texts_upto(items, n - 1).push(t),
            _ => texts_upto(items, n - 1),
        }
    }
}

/// The texts of a list; none where the value is no list.
pub open spec fn text_items(v: Option<JsonV>) -> Seq<Seq<char>> {
    match v {
        Some(JsonV::Array(items)) => texts_upto(items, items.len() as int),
        _ => Seq::empty(),
    }
}

/// The texts of a list; none where the value is no list.
pub fn str_array_owned(v: Option<&Json>) -> (r: Vec<String>)
    ensures
        strings(r@) == text_items(
            match v {
                Some(x) => Some(x@),
                None => None,
            },
        ),
{
    let mut list: Vec<String> = Vec::new();
    assert(strings(list@) =~= Seq::empty());
    if let Some(Json::Array(items)) = v {
        let ghost all = items_view(items@);
        let mut i: usize = 0;
        while i < items.len()
            invariant
                i <= items@.len(),
                all == items_view(items@),
                strings(list@) == texts_upto(all, i as int),
            decreases items@.len() - i,
        {
            if let Json::Text(t) = &items[i] {
                let ghost before = list@;
                list.push(t.clone());
                assert(strings(list@) =~= strings(before).push(t@));
            }
            i += 1;
        }
    }
    list
}

/// A text of a rule with an override on it.
pub open spec fn overridden_text(o: JsonV, name: Seq<char>, source: Seq<char>) -> Seq<char> {
    match text_field(o, name) {
        Some(t) => t,
        None => source,
    }
}

/// A list of a rule with an override on it.
pub open spec fn overridden_list(o: JsonV, name: Seq<char>, source: Seq<Seq<char>>) -> Seq<
    Seq<char>,
> {
    match field(o, name) {
        None => source,
        Some(JsonV::Null) => source,
        Some(v) => text_items(Some(v)),
    }
}

/// A rule with an override on it: what the override leaves open stays as in the source.
pub open spec fn overridden(rule: RuleV, o: JsonV) -> RuleV {
    RuleV {
        summary: overridden_text(o, "summary"@, rule.summary),
        content: overridden_text(o, "content"@, rule.content),
        tags: overridden_list(o, "tags"@, rule.tags),
        paths: overridden_list(o, "paths"@, rule.paths),
        languages: overridden_list(o, "languages"@, rule.languages),
        ..rule
    }
}

/// The override of a rule: of several under one key, the last.
pub open spec fn override_for(overrides: Seq<JsonV>, key: Seq<char>) -> Option<JsonV>
    decreases overrides.len(),
{
    if overrides.len() == 0 {
        None
    } else if text_field(overrides.last(), "rule_key"@) == Some(key) {
        Some(overrides.last())
    } else {
        override_for(overrides.drop_last(), key)
    }
}

/// A rule as it counts while `overrides` are active.
pub open spec fn effective_rule(rule: RuleV, overrides: Seq<JsonV>) -> RuleV {
    match override_for(overrides, rule.key) {
        Some(o) => overridden(rule, o),
        None => rule,
    }
}

/// A checklist as it counts while `overrides` are active.
pub open spec fn effective_checklist(checklist: ChecklistV, overrides: Seq<JsonV>) -> ChecklistV {
    ChecklistV {
        rules: checklist.rules.map_values(|r: RuleV| effective_rule(r, overrides)),
        ..checklist
    }
}

/// The override of a rule: of several under one key, the last.
pub fn find_override<'a>(overrides: &'a Vec<Json>, key: &str) -> (r: Option<&'a Json>)
    ensures
        match r {
            Some(o) => override_for(items_view(overrides@), key@) == Some(o@),
            None => override_for(items_view(overrides@), key@) is None,
        },
{
    let ghost all = items_view(overrides@);
    let mut i: usize = overrides.len();
    assert(all.take(i as int) =~= all);
    while i > 0
        invariant
            i <= overrides@.len(),
            all == items_view(overrides@),
            override_for(all, key@) == override_for(all.take(i as int), key@),
        decreases i,
    {
        proof {
            assert(all.take(i as int).drop_last() =~= all.take(i - 1));
            assert(all.take(i as int).last() == all[i - 1]);
        }
        if let Some(k) = get_str(&overrides[i - 1], "rule_key") {
            if same(k, key) {
                return Some(&overrides[i - 1]);
            }
        }
        i -= 1;
    }
    None
}

fn text_after(o: &Json, name: &str, source: &str) -> (r: String)
    ensures
        r@ == overridden_text(o@, name@, source@),
{
    match get_str(o, name) {
        Some(t) => t.to_string(),
        None => source.to_string(),
    }
}

fn list_after(o: &Json, name: &str, source: &Vec<String>) -> (r: Vec<String>)
    ensures
        strings(r@) == overridden_list(o@, name@, strings(source@)),
{
    match o.get(name) {
        None => crate::models::copy_texts(source),
        Some(v) => if v.is_null() {
            crate::models::copy_texts(source)
        } else {
            str_array_owned(Some(v))
        },
    }
}

/// A rule with an override on it.
fn apply_rule_override(rule: &Rule, o: &Json) -> (r: Rule)
    ensures
        r@ == overridden(rule@, o@),
{
    Rule {
        key: rule.key.clone(),
        summary: text_after(o, "summary", rule.summary.as_str()),
        content: text_after(o, "content", rule.content.as_str()),
        tags: list_after(o, "tags", &rule.tags),
        paths: list_after(o, "paths", &rule.paths),
        languages: list_after(o, "languages", &rule.languages),
        source_rule_hash: rule.source_rule_hash.clone(),
    }
}

/// A checklist as it counts while `overrides` are active.
pub fn apply_overrides(checklist: &Checklist, overrides: &Vec<Json>) -> (r: Checklist)
    ensures
        r@ == effective_checklist(checklist@, items_view(overrides@)),
{
    let ghost active = items_view(overrides@);
    let ghost all = rules_view(checklist.rules@);
    let mut rules: Vec<Rule> = Vec::new();
    let mut i: usize = 0;
    while i < checklist.rules.len()
        invariant
            i <= checklist.rules@.len(),
            active == items_view(overrides@),
            all == rules_view(checklist.rules@),
            rules@.len() == i,
            forall|k: int| 0 <= k < i ==> (#[trigger] rules@[k])@ == effective_rule(all[k], active),
        decreases checklist.rules@.len() - i,
    {
        let rule = &checklist.rules[i];
        assert(all[i as int] == rule@);
        match find_override(overrides, rule.key.as_str()) {
            Some(o) => rules.push(apply_rule_override(rule, o)),
            None => rules.push(rule.clone()),
        }
        i += 1;
    }
    assert(rules_view(rules@) =~= all.map_values(|r: RuleV| effective_rule(r, active)));
    Checklist {
        schema_version: checklist.schema_version,
        checklist_version: checklist.checklist_version.clone(),
        global_description: checklist.global_description.clone(),
        content_hash: checklist.content_hash.clone(),
        rules,
    }
}

// ---- conflicts ----

/// The source hash of the rule under a key.
pub open spec fn rule_hash(rules: Seq<RuleV>, key: Seq<char>) -> Option<Seq<char>>
    decreases rules.len(),
{
    if rules.len() == 0 {
        None
    } else if rules[0].key == key {
        Some(rules[0].source_rule_hash)
    } else {
        rule_hash(rules.drop_first(), key)
    }
}

/// The source hash of the rule under a key.
pub fn find_hash(rules: &Vec<Rule>, key: &str) -> (r: Option<String>)
    ensures
        crate::path_util::optional_text(r) == rule_hash(rules_view(rules@), key@),
{
    let ghost all = rules_view(rules@);
    let mut i: usize = 0;
    assert(all.skip(0) =~= all);
    while i < rules.len()
        invariant
            i <= rules@.len(),
            all == rules_view(rules@),
            rule_hash(all, key@) == rule_hash(all.skip(i as int), key@),
        decreases rules@.len() - i,
    {
        proof {
            assert(all.skip(i as int)[0] == all[i as int]);
            assert(all.skip(i as int).drop_first() =~= all.skip(i + 1));
        }
        if same(rules[i].key.as_str(), key) {
            return Some(rules[i].source_rule_hash.clone());
        }
        i += 1;
    }
    None
}

/// A text of an object, empty where it has none of that name.
pub open spec fn text_or_empty(v: JsonV, name: Seq<char>) -> Seq<char> {
    match text_field(v, name) {
        Some(t) => t,
        None => Seq::empty(),
    }
}

/// A text of an object, empty where it has none of that name.
pub fn text_of_field(v: &Json, name: &str) -> (r: String)
    ensures
        r@ == text_or_empty(v@, name@),
{
    match get_str(v, name) {
        Some(t) => t.to_string(),
        None => {
            proof {
                reveal_strlit("");
                assert(""@ =~= Seq::<char>::empty());
            }
            "".to_string()
        },
    }
}

/// Whether an override no longer fits the rules: it is marked so, or the source rule that it was
/// made for has another hash now, or is gone.
pub open spec fn in_conflict(o: JsonV, rules: Seq<RuleV>) -> bool {
    text_or_empty(o, "status"@) == "conflict"@ || rule_hash(rules, text_or_empty(o, "rule_key"@))
        != text_field(o, "base_source_rule_hash"@)
}

/// The keys of the first `n` overrides that are in conflict with `rules`.
pub open spec fn conflicts_upto(overrides: Seq<JsonV>, n: int, rules: Seq<RuleV>) -> Seq<Seq<char>>
    decreases n,
{
    if n <= 0 {
        Seq::empty()
    } else {
        let front = conflicts_upto(overrides, n - 1, rules);
        if in_conflict(overrides[n - 1], rules) {
            front.push(text_or_empty(overrides[n - 1], "rule_key"@))
        } else {
            front
        }
    }
}

/// The keys of the overrides that are in conflict with `rules`.
pub open spec fn conflicts(overrides: Seq<JsonV>, rules: Seq<RuleV>) -> Seq<Seq<char>> {
    conflicts_upto(overrides, overrides.len() as int, rules)
}

/// Whether two optional texts are equal.
fn same_option(a: &Option<String>, b: Option<&str>) -> (r: bool)
    ensures
        r == (crate::path_util::optional_text(*a) == crate::path_util::optional(b)),
{
    match (a, b) {
        (Some(x), Some(y)) => same(x.as_str(), y),
        (None, None) => true,
        _ => false,
    }
}

/// The keys of the overrides that are in conflict with `rules`.
pub fn find_conflicts(overrides: &Vec<Json>, rules: &Vec<Rule>) -> (r: Vec<String>)
    ensures
        strings(r@) == conflicts(items_view(overrides@), rules_view(rules@)),
{
    let ghost all = items_view(overrides@);
    let mut keys: Vec<String> = Vec::new();
    let mut i: usize = 0;
    assert(strings(keys@) =~= Seq::empty());
    while i < overrides.len()
        invariant
            i <= overrides@.len(),
            all == items_view(overrides@),
            strings(keys@) == conflicts_upto(all, i as int, rules_view(rules@)),
        decreases overrides@.len() - i,
    {
        let o = &overrides[i];
        assert(all[i as int] == o@);
        let status = text_of_field(o, "status");
        let key = text_of_field(o, "rule_key");
        let incoming = find_hash(rules, key.as_str());
        if same(status.as_str(), "conflict") || !same_option(
            &incoming,
            get_str(o, "base_source_rule_hash"),
        ) {
            let ghost before = keys@;
            let ghost kv = key@;
            keys.push(key);
            assert(strings(keys@) =~= strings(before).push(kv));
        }
        i += 1;
    }
    keys
}

} // verus!
