//! Rule selection: all the rules under the requested keys, or none.

use vstd::prelude::*;

use crate::errors::{and_detail, detail, ErrorCode, ErrorV, ReviewKBError};
use crate::json::{
    field, get_str, items_view, put, text_field, texts, Entries, Json, JsonV,
};
use crate::models::{Selection, SelectionV};
use crate::overrides::{find_override, override_for};
use crate::suggestions::{suggest_keys, suggested};
use crate::text::{is_member, same, strings};

verus! {

broadcast use crate::json::group_json;

/// The keys of the first `n` rule records.
pub open spec fn keys_upto(records: Seq<JsonV>, n: int) -> Seq<Seq<char>>
    decreases n,
{
    if n <= 0 {
        Seq::empty()
    } else {
        match text_field(records[n - 1], "key"@) {
            Some(k) => keys_upto(records, n - 1).push(k),
            None => keys_upto(records, n - 1),
        }
    }
}

/// The keys of the rule records.
pub open spec fn record_keys(records: Seq<JsonV>) -> Seq<Seq<char>> {
    keys_upto(records, records.len() as int)
}

/// The keys of the rule records.
pub fn keys_of(records: &Vec<Json>) -> (r: Vec<String>)
    ensures
        strings(r@) == record_keys(items_view(records@)),
{
    let ghost all = items_view(records@);
    let mut keys: Vec<String> = Vec::new();
    let mut i: usize = 0;
    assert(strings(keys@) =~= Seq::empty());
    while i < records.len()
        invariant
            i <= records@.len(),
            all == items_view(records@),
            strings(keys@) == keys_upto(all, i as int),
        decreases records@.len() - i,
    {
        if let Some(k) = get_str(&records[i], "key") {
            let ghost before = keys@;
            keys.push(k.to_string());
            assert(strings(keys@) =~= strings(before).push(k@));
        }
        i += 1;
    }
    keys
}

/// Those of the first `n` requested keys that are not available.
pub open spec fn missing_upto(keys: Seq<Seq<char>>, n: int, available: Seq<Seq<char>>) -> Seq<
    Seq<char>,
>
    decreases n,
{
    if n <= 0 {
        Seq::empty()
    } else if available.contains(keys[n - 1]) {
        missing_upto(keys, n - 1, available)
    } else {
        missing_upto(keys, n - 1, available).push(keys[n - 1])
    }
}

/// The requested keys that are not available.
pub open spec fn missing_keys(keys: Seq<Seq<char>>, available: Seq<Seq<char>>) -> Seq<Seq<char>> {
    missing_upto(keys, keys.len() as int, available)
}

fn find_missing(keys: &Vec<String>, available: &Vec<String>) -> (r: Vec<String>)
    ensures
        strings(r@) == missing_keys(strings(keys@), strings(available@)),
{
    let ghost all = strings(keys@);
    let mut list: Vec<String> = Vec::new();
    let mut i: usize = 0;
    assert(strings(list@) =~= Seq::empty());
    while i < keys.len()
        invariant
            i <= keys@.len(),
            all == strings(keys@),
            strings(list@) == missing_upto(all, i as int, strings(available@)),
        decreases keys@.len() - i,
    {
        assert(all[i as int] == keys@[i as int]@);
        if !is_member(available, keys[i].as_str()) {
            let ghost before = list@;
            list.push(keys[i].clone());
            assert(strings(list@) =~= strings(before).push(all[i as int]));
        }
        i += 1;
    }
    list
}

/// Up to three suggestions for each of the first `n` missing keys.
pub open spec fn hints_upto(missing: Seq<Seq<char>>, n: int, available: Seq<Seq<char>>) -> Entries
    decreases n,
{
    if n <= 0 {
        Seq::empty()
    } else {
        put(
            hints_upto(missing, n - 1, available),
            missing[n - 1],
            texts(suggested(missing[n - 1], available, 3)),
        )
    }
}

fn hints(missing: &Vec<String>, available: &Vec<String>) -> (r: Json)
    ensures
        r@ == JsonV::Object(
            hints_upto(strings(missing@), missing@.len() as int, strings(available@)),
        ),
{
    let ghost all = strings(missing@);
    let mut object = Json::object();
    let mut i: usize = 0;
    while i < missing.len()
        invariant
            i <= missing@.len(),
            all == strings(missing@),
            object@ == JsonV::Object(hints_upto(all, i as int, strings(available@))),
        decreases missing@.len() - i,
    {
        assert(all[i as int] == missing@[i as int]@);
        let found = suggest_keys(missing[i].as_str(), available, 3);
        object = object.with(missing[i].as_str(), Json::texts(&found));
        i += 1;
    }
    object
}

/// The error for keys that do not exist: all of them, with suggestions, and no rule.
pub open spec fn unknown_keys_error(
    missing: Seq<Seq<char>>,
    available: Seq<Seq<char>>,
) -> ErrorV {
    ErrorV {
        code: ErrorCode::RuleNotFound,
        message: "one or more selected rule keys do not exist"@,
        details: and_detail(
            detail("not_found"@, texts(missing)),
            "suggestions"@,
            JsonV::Object(hints_upto(missing, missing.len() as int, available)),
        ),
    }
}

/// Whether every requested key exists, or what to say where one does not.
pub fn check_keys(keys: &Vec<String>, records: &Vec<Json>) -> (r: Result<(), ReviewKBError>)
    ensures
        ({
            let available = record_keys(items_view(records@));
            let missing = missing_keys(strings(keys@), available);
            match r {
                Ok(_) => missing.len() == 0,
                Err(e) => missing.len() > 0 && e@ == unknown_keys_error(missing, available),
            }
        }),
{
    let available = keys_of(records);
    let missing = find_missing(keys, &available);
    assert(strings(missing@).len() == missing@.len());
    if missing.len() == 0 {
        return Ok(());
    }
    Err(
        ReviewKBError::new(
            ErrorCode::RuleNotFound,
            "one or more selected rule keys do not exist".to_string(),
            Json::object().with("not_found", Json::texts(&missing)).with(
                "suggestions",
                hints(&missing, &available),
            ),
        ),
    )
}

/// The error for a selection that was made for another revision.
pub open spec fn revision_error(selection: SelectionV, current: Seq<char>) -> ErrorV {
    ErrorV {
        code: ErrorCode::KnowledgeRevisionMismatch,
        message: "knowledge revision changed; run prepare and select rules again"@,
        details: and_detail(
            and_detail(
                detail("project_id"@, JsonV::Text(selection.project_id)),
                "requested_revision"@,
                JsonV::Text(selection.knowledge_revision),
            ),
            "current_revision"@,
            JsonV::Text(current),
        ),
    }
}

/// The error for a selection that was made for another revision.
pub fn stale(selection: &Selection, current: &str) -> (r: ReviewKBError)
    ensures
        r@ == revision_error(selection@, current@),
{
    ReviewKBError::new(
        ErrorCode::KnowledgeRevisionMismatch,
        "knowledge revision changed; run prepare and select rules again".to_string(),
        Json::object().with("project_id", Json::text(selection.project_id.as_str())).with(
            "requested_revision",
            Json::text(selection.knowledge_revision.as_str()),
        ).with("current_revision", Json::text(current)),
    )
}

/// The record under a key: of several, the last.
pub open spec fn record_for(records: Seq<JsonV>, key: Seq<char>) -> Option<JsonV>
    decreases records.len(),
{
    if records.len() == 0 {
        None
    } else if text_field(records.last(), "key"@) == Some(key) {
        Some(records.last())
    } else {
        record_for(records.drop_last(), key)
    }
}

fn find_record<'a>(records: &'a Vec<Json>, key: &str) -> (r: Option<&'a Json>)
    ensures
        match r {
            Some(o) => record_for(items_view(records@), key@) == Some(o@),
            None => record_for(items_view(records@), key@) is None,
        },
{
    let ghost all = items_view(records@);
    let mut i: usize = records.len();
    assert(all.take(i as int) =~= all);
    while i > 0
        invariant
            i <= records@.len(),
            all == items_view(records@),
            record_for(all, key@) == record_for(all.take(i as int), key@),
        decreases i,
    {
        proof {
            assert(all.take(i as int).drop_last() =~= all.take(i - 1));
            assert(all.take(i as int).last() == all[i - 1]);
        }
        if let Some(k) = get_str(&records[i - 1], "key") {
            if same(k, key) {
                return Some(&records[i - 1]);
            }
        }
        i -= 1;
    }
    None
}

/// The records under the first `n` keys, in the order of the keys.
pub open spec fn picked_upto(records: Seq<JsonV>, keys: Seq<Seq<char>>, n: int) -> Seq<JsonV>
    decreases n,
{
    if n <= 0 {
        Seq::empty()
    } else {
        match record_for(records, keys[n - 1]) {
            Some(r) => picked_upto(records, keys, n - 1).push(r),
            None => picked_upto(records, keys, n - 1),
        }
    }
}

/// The records under some keys, in the order of the keys.
pub open spec fn picked(records: Seq<JsonV>, keys: Seq<Seq<char>>) -> Seq<JsonV> {
    picked_upto(records, keys, keys.len() as int)
}

/// The records under some keys, in the order of the keys.
pub fn pick(records: &Vec<Json>, keys: &Vec<String>) -> (r: Vec<Json>)
    ensures
        items_view(r@) == picked(items_view(records@), strings(keys@)),
{
    let ghost all = items_view(records@);
    let ghost wanted = strings(keys@);
    let mut list: Vec<Json> = Vec::new();
    let mut i: usize = 0;
    assert(items_view(list@) =~= Seq::empty());
    while i < keys.len()
        invariant
            i <= keys@.len(),
            all == items_view(records@),
            wanted == strings(keys@),
            items_view(list@) == picked_upto(all, wanted, i as int),
        decreases keys@.len() - i,
    {
        assert(wanted[i as int] == keys@[i as int]@);
        if let Some(found) = find_record(records, keys[i].as_str()) {
            let ghost before = list@;
            let copy = found.duplicate();
            let ghost cv = copy@;
            list.push(copy);
            assert(items_view(list@) =~= items_view(before).push(cv));
        }
        i += 1;
    }
    list
}

/// A record with one field of an override on it, where the override sets it.
pub open spec fn overlaid_field(rule: JsonV, o: JsonV, name: Seq<char>) -> JsonV {
    match field(o, name) {
        None => rule,
        Some(JsonV::Null) => rule,
        Some(v) => and_detail(rule, name, v),
    }
}

/// A record with an override on it.
pub open spec fn overlaid(rule: JsonV, o: JsonV) -> JsonV {
    overlaid_field(
        overlaid_field(
            overlaid_field(
                overlaid_field(overlaid_field(rule, o, "summary"@), o, "content"@),
                o,
                "tags"@,
            ),
            o,
            "paths"@,
        ),
        o,
        "languages"@,
    )
}

/// A record as it counts while `overrides` are active.
pub open spec fn effective_record(rule: JsonV, overrides: Seq<JsonV>) -> JsonV {
    match text_field(rule, "key"@) {
        None => rule,
        Some(key) => match override_for(overrides, key) {
            None => rule,
            Some(o) => overlaid(rule, o),
        },
    }
}

/// The records as they count while `overrides` are active.
pub open spec fn effective_records(rules: Seq<JsonV>, overrides: Seq<JsonV>) -> Seq<JsonV> {
    rules.map_values(|r: JsonV| effective_record(r, overrides))
}

fn overlay_field(rule: Json, o: &Json, name: &str) -> (r: Json)
    ensures
        r@ == overlaid_field(rule@, o@, name@),
{
    match o.get(name) {
        None => rule,
        Some(v) => if v.is_null() {
            rule
        } else {
            rule.with(name, v.duplicate())
        },
    }
}

fn overlay(rule: Json, o: &Json) -> (r: Json)
    ensures
        r@ == overlaid(rule@, o@),
{
    let r1 = overlay_field(rule, o, "summary");
    let r2 = overlay_field(r1, o, "content");
    let r3 = overlay_field(r2, o, "tags");
    let r4 = overlay_field(r3, o, "paths");
    overlay_field(r4, o, "languages")
}

/// The records as they count while `overrides` are active.
pub fn overlay_all(rules: &Vec<Json>, overrides: &Vec<Json>) -> (r: Vec<Json>)
    ensures
        items_view(r@) == effective_records(items_view(rules@), items_view(overrides@)),
{
    let ghost all = items_view(rules@);
    let ghost active = items_view(overrides@);
    let mut list: Vec<Json> = Vec::new();
    let mut i: usize = 0;
    while i < rules.len()
        invariant
            i <= rules@.len(),
            all == items_view(rules@),
            active == items_view(overrides@),
            list@.len() == i,
            forall|k: int| 0 <= k < i ==> (#[trigger] list@[k])@ == effective_record(all[k], active),
        decreases rules@.len() - i,
    {
        let rule = rules[i].duplicate();
        assert(all[i as int] == rule@);
        let key = match get_str(&rules[i], "key") {
            Some(k) => Some(k.to_string()),
            None => None,
        };
        match key {
            None => list.push(rule),
            Some(k) => match find_override(overrides, k.as_str()) {
                None => list.push(rule),
                Some(o) => list.push(overlay(rule, o)),
            },
        }
        i += 1;
    }
    assert(items_view(list@) =~= effective_records(all, active));
    list
}

/// What a selection brings: the selected rules with their active overrides.
pub open spec fn selection_value(
    selection: SelectionV,
    rules: Seq<JsonV>,
    overrides: Seq<JsonV>,
) -> JsonV {
    and_detail(
        and_detail(
            detail("project_id"@, JsonV::Text(selection.project_id)),
            "knowledge_revision"@,
            JsonV::Text(selection.knowledge_revision),
        ),
        "rules"@,
        JsonV::Array(effective_records(rules, overrides)),
    )
}

/// What a selection brings: the selected rules with their active overrides.
pub fn selected(selection: &Selection, rules: &Vec<Json>, overrides: &Vec<Json>) -> (r: Json)
    ensures
        r@ == selection_value(selection@, items_view(rules@), items_view(overrides@)),
{
    Json::object().with("project_id", Json::text(selection.project_id.as_str())).with(
        "knowledge_revision",
        Json::text(selection.knowledge_revision.as_str()),
    ).with("rules", Json::Array(overlay_all(rules, overrides)))
}

// ---- what a selection promises ----

/// Nothing is missing exactly where every key is available.
proof fn lemma_nothing_missing(keys: Seq<Seq<char>>, n: int, available: Seq<Seq<char>>)
    requires
        0 <= n <= keys.len(),
    ensures
        missing_upto(keys, n, available).len() == 0 <==> (forall|i: int|
            0 <= i < n ==> available.contains(#[trigger] keys[i])),
    decreases n,
{
    if n > 0 {
        lemma_nothing_missing(keys, n - 1, available);
    }
}

/// A selection is answered only where every key that it names exists: one that does not is enough
/// to refuse it as a whole.
pub proof fn a_selection_is_all_or_nothing(keys: Seq<Seq<char>>, available: Seq<Seq<char>>)
    ensures
        missing_keys(keys, available).len() == 0 <==> (forall|i: int|
            0 <= i < keys.len() ==> available.contains(#[trigger] keys[i])),
{
    lemma_nothing_missing(keys, keys.len() as int, available);
}

/// Every missing key is reported, and no other.
pub proof fn the_missing_keys_are_reported(
    keys: Seq<Seq<char>>,
    available: Seq<Seq<char>>,
    key: Seq<char>,
)
    ensures
        missing_keys(keys, available).contains(key) <==> keys.contains(key) && !available.contains(
            key,
        ),
{
    lemma_missing_holds(keys, keys.len() as int, available, key);
    assert(keys.take(keys.len() as int) =~= keys);
}

proof fn lemma_missing_holds(
    keys: Seq<Seq<char>>,
    n: int,
    available: Seq<Seq<char>>,
    key: Seq<char>,
)
    requires
        0 <= n <= keys.len(),
    ensures
        missing_upto(keys, n, available).contains(key) <==> keys.take(n).contains(key)
            && !available.contains(key),
    decreases n,
{
    if n > 0 {
        lemma_missing_holds(keys, n - 1, available, key);
        let before = missing_upto(keys, n - 1, available);
        let old = keys.take(n - 1);
        assert(keys.take(n) =~= old.push(keys[n - 1]));
        lemma_push_contains(old, keys[n - 1], key);
        lemma_push_contains(before, keys[n - 1], key);
    } else {
        assert(keys.take(0) =~= Seq::empty());
    }
}

proof fn lemma_push_contains(list: Seq<Seq<char>>, x: Seq<char>, key: Seq<char>)
    ensures
        list.push(x).contains(key) <==> list.contains(key) || x == key,
{
    if list.contains(key) {
        let i = list.index_of(key);
        assert(list.push(x)[i] == key);
    }
    if x == key {
        assert(list.push(x)[list.len() as int] == key);
    }
    if list.push(x).contains(key) {
        let i = list.push(x).index_of(key);
        if i < list.len() {
            assert(list[i] == key);
        }
    }
}

proof fn lemma_record_found(records: Seq<JsonV>, n: int, key: Seq<char>)
    requires
        0 <= n <= records.len(),
        keys_upto(records, n).contains(key),
    ensures
        record_for(records.take(n), key) matches Some(r) && text_field(r, "key"@) == Some(key),
    decreases n,
{
    if n > 0 {
        let earlier = records.take(n);
        assert(earlier.drop_last() =~= records.take(n - 1));
        assert(earlier.last() == records[n - 1]);
        if text_field(records[n - 1], "key"@) != Some(key) {
            if let Some(k) = text_field(records[n - 1], "key"@) {
                lemma_push_contains(keys_upto(records, n - 1), k, key);
            }
            lemma_record_found(records, n - 1, key);
        }
    }
}

proof fn lemma_picked(records: Seq<JsonV>, keys: Seq<Seq<char>>, n: int)
    requires
        0 <= n <= keys.len(),
        forall|i: int| 0 <= i < n ==> record_keys(records).contains(#[trigger] keys[i]),
    ensures
        picked_upto(records, keys, n).len() == n,
        forall|i: int|
            0 <= i < n ==> text_field(#[trigger] picked_upto(records, keys, n)[i], "key"@) == Some(
                keys[i],
            ),
    decreases n,
{
    if n > 0 {
        lemma_picked(records, keys, n - 1);
        lemma_record_found(records, records.len() as int, keys[n - 1]);
        assert(records.take(records.len() as int) =~= records);
    }
}

proof fn lemma_overlaid_field(rule: JsonV, o: JsonV, name: Seq<char>, other: Seq<char>)
    requires
        name != other,
    ensures
        field(overlaid_field(rule, o, name), other) == field(rule, other),
{
    if let JsonV::Object(entries) = rule {
        if let Some(v) = field(o, name) {
            crate::json::put_is_found(entries, name, v, other);
        }
    }
}

/// An override leaves the key of a record alone.
proof fn lemma_key_stays(rule: JsonV, o: JsonV)
    ensures
        field(overlaid(rule, o), "key"@) == field(rule, "key"@),
{
    reveal_strlit("key");
    reveal_strlit("summary");
    reveal_strlit("content");
    reveal_strlit("tags");
    reveal_strlit("paths");
    reveal_strlit("languages");
    assert("key"@.len() == 3);
    assert("summary"@.len() == 7 && "content"@.len() == 7 && "tags"@.len() == 4 && "paths"@.len()
        == 5 && "languages"@.len() == 9);
    let a = overlaid_field(rule, o, "summary"@);
    let b = overlaid_field(a, o, "content"@);
    let c = overlaid_field(b, o, "tags"@);
    let d = overlaid_field(c, o, "paths"@);
    lemma_overlaid_field(rule, o, "summary"@, "key"@);
    lemma_overlaid_field(a, o, "content"@, "key"@);
    lemma_overlaid_field(b, o, "tags"@, "key"@);
    lemma_overlaid_field(c, o, "paths"@, "key"@);
    lemma_overlaid_field(d, o, "languages"@, "key"@);
}

/// The rules of an answer are those under the selected keys, one for each, in the order of the
/// selection.
pub proof fn selected_rules_come_in_order(
    records: Seq<JsonV>,
    keys: Seq<Seq<char>>,
    overrides: Seq<JsonV>,
)
    requires
        forall|i: int| 0 <= i < keys.len() ==> record_keys(records).contains(#[trigger] keys[i]),
    ensures
        effective_records(picked(records, keys), overrides).len() == keys.len(),
        forall|i: int|
            0 <= i < keys.len() ==> text_field(
                #[trigger] effective_records(picked(records, keys), overrides)[i],
                "key"@,
            ) == Some(keys[i]),
{
    lemma_picked(records, keys, keys.len() as int);
    let rules = picked(records, keys);
    assert forall|i: int| 0 <= i < keys.len() implies text_field(
        #[trigger] effective_records(rules, overrides)[i],
        "key"@,
    ) == Some(keys[i]) by {
        assert(text_field(rules[i], "key"@) == Some(keys[i]));
        if let Some(o) = crate::overrides::override_for(overrides, keys[i]) {
            lemma_key_stays(rules[i], o);
        }
    }
}

/// What a refused selection is told depends on the keys of the rules alone, on nothing else that
/// they hold.
pub proof fn a_refusal_shows_only_keys(
    keys: Seq<Seq<char>>,
    records: Seq<JsonV>,
    others: Seq<JsonV>,
)
    requires
        record_keys(records) == record_keys(others),
    ensures
        unknown_keys_error(missing_keys(keys, record_keys(records)), record_keys(records))
            == unknown_keys_error(missing_keys(keys, record_keys(others)), record_keys(others)),
{
}

} // verus!
