//! What overrides keep, what they change, and when they are in conflict.

use vstd::prelude::*;

use crate::checklist_laws::{
    each_once, lemma_once_empty, lemma_once_more, stripped_of, trimming_takes_white_space,
};
use crate::errors::ErrorCode;
use crate::json::{field, lookup, put_is_found, text_field, texts, Entries, JsonV};
use crate::models::{ChecklistV, RuleV};
use crate::overrides::{
    all_filled, all_supported, conflicts, conflicts_upto, distinct_upto, effective_checklist,
    effective_rule, in_conflict, is_list_field, is_override_field, overridden, override_for,
    override_value, rule_hash, text_items, text_or_empty, texts_upto, validated_fields,
    validated_upto,
};
use crate::protocol::RowV;
use crate::record_laws::{
    an_override_record_shows_its_row, lemma_names_differ, records_stand_for_their_rows,
    shows_override_row, text_in, value_in,
};
use crate::rows::{record, records, Shape};
use crate::text::{is_blank, lemma_blank};

verus! {

// ---- fields ----

/// Whether the last entry under `name` stands at `i`.
pub open spec fn last_entry(fields: Entries, name: Seq<char>, i: int) -> bool {
    &&& 0 <= i < fields.len()
    &&& fields[i].0 == name
    &&& forall|j: int| i < j < fields.len() ==> (#[trigger] fields[j]).0 != name
}

/// A list of texts as a value.
pub open spec fn listed_texts(list: Seq<Seq<char>>) -> JsonV {
    JsonV::Array(list.map_values(|t: Seq<char>| JsonV::Text(t)))
}

/// Whether a value is a list of `given` texts, each with more than white space in it.
pub open spec fn filled_list(value: JsonV, given: Seq<Seq<char>>) -> bool {
    &&& value == listed_texts(given)
    &&& forall|i: int| 0 <= i < given.len() ==> !is_blank(#[trigger] given[i])
}

/// Whether a field of an override may have a value: a text, or for tags, paths and languages a list
/// of texts, with more than white space in each text.
pub open spec fn may_override(name: Seq<char>, value: JsonV) -> bool {
    if name == "tags"@ || name == "paths"@ || name == "languages"@ {
        exists|given: Seq<Seq<char>>| #[trigger] filled_list(value, given)
    } else {
        &&& name == "summary"@ || name == "content"@
        &&& value matches JsonV::Text(s) && !is_blank(s)
    }
}

/// Whether `v` is how a value is kept: a text without the white space around it, a list with each of
/// its texts once.
pub open spec fn kept_as(value: JsonV, v: JsonV) -> bool {
    match value {
        JsonV::Text(s) => v matches JsonV::Text(t) && t.len() > 0 && stripped_of(t, s),
        _ => exists|given: Seq<Seq<char>>, list: Seq<Seq<char>>|
            {
                &&& #[trigger] filled_list(value, given)
                &&& v == listed_texts(list)
                &&& #[trigger] each_once(list, given)
            },
    }
}

proof fn lemma_apart()
    ensures
        "summary"@ != "content"@,
        !is_list_field("summary"@),
        !is_list_field("content"@),
        is_list_field("tags"@) && is_list_field("paths"@) && is_list_field("languages"@),
        "tags"@ != "paths"@ && "tags"@ != "languages"@ && "paths"@ != "languages"@,
{
    lemma_names_differ();
}

spec fn given_of(items: Seq<JsonV>) -> Seq<Seq<char>> {
    items.map_values(|v: JsonV| v->Text_0)
}

proof fn lemma_distinct(items: Seq<JsonV>, n: int)
    requires
        0 <= n <= items.len(),
        all_filled(items),
    ensures
        each_once(distinct_upto(items, n), given_of(items.take(n))),
    decreases n,
{
    if n > 0 {
        lemma_distinct(items, n - 1);
        assert(items[n - 1] is Text);
        let t = items[n - 1]->Text_0;
        lemma_once_more(distinct_upto(items, n - 1), given_of(items.take(n - 1)), t);
        assert(given_of(items.take(n)) =~= given_of(items.take(n - 1)).push(t));
    } else {
        lemma_once_empty();
        assert(given_of(items.take(0)) =~= Seq::empty());
    }
}

proof fn lemma_value(name: Seq<char>, value: JsonV)
    requires
        is_override_field(name),
    ensures
        override_value(name, value) is Ok <==> may_override(name, value),
        override_value(name, value) matches Ok(v) ==> kept_as(value, v),
        override_value(name, value) matches Err(e) ==> e.code == ErrorCode::InvalidArgument,
{
    lemma_apart();
    if name == "tags"@ || name == "paths"@ || name == "languages"@ {
        if let JsonV::Array(items) = value {
            if all_filled(items) {
                let given = given_of(items);
                assert forall|i: int| 0 <= i < items.len() implies #[trigger] items[i]
                    == JsonV::Text(given[i]) && !is_blank(given[i]) by {}
                assert(items =~= given.map_values(|t: Seq<char>| JsonV::Text(t)));
                assert forall|i: int| 0 <= i < given.len() implies !is_blank(
                    #[trigger] given[i],
                ) by {
                    assert(items[i] == JsonV::Text(given[i]));
                }
                assert(filled_list(value, given));
                lemma_distinct(items, items.len() as int);
                assert(items.take(items.len() as int) =~= items);
                assert(each_once(distinct_upto(items, items.len() as int), given));
            }
            if may_override(name, value) {
                let given = choose|given: Seq<Seq<char>>| #[trigger] filled_list(value, given);
                assert forall|i: int| 0 <= i < items.len() implies (#[trigger] items[i] matches JsonV::Text(
                    t,
                ) && !is_blank(t)) by {
                    assert(items[i] == JsonV::Text(given[i]));
                }
            }
        }
    } else if let JsonV::Text(s) = value {
        trimming_takes_white_space(s);
        lemma_blank(s);
    }
}

proof fn lemma_validated(fields: Entries, n: int, name: Seq<char>)
    requires
        0 <= n <= fields.len(),
        forall|i: int| 0 <= i < fields.len() ==> is_override_field((#[trigger] fields[i]).0),
    ensures
        validated_upto(fields, n) is Ok <==> (forall|i: int|
            0 <= i < n ==> may_override((#[trigger] fields[i]).0, fields[i].1)),
        validated_upto(fields, n) matches Ok(kept) ==> {
            &&& lookup(kept, name) is Some <==> (exists|i: int|
                0 <= i < n && (#[trigger] fields[i]).0 == name)
            &&& forall|i: int| #[trigger]
                last_entry(fields.take(n), name, i) ==> (lookup(kept, name) matches Some(v)
                    && kept_as(fields[i].1, v))
        },
        validated_upto(fields, n) matches Err(e) ==> e.code == ErrorCode::InvalidArgument,
    decreases n,
{
    if n > 0 {
        lemma_validated(fields, n - 1, name);
        let last = fields[n - 1];
        assert(is_override_field(last.0));
        lemma_value(last.0, last.1);
        if forall|i: int| 0 <= i < n ==> may_override((#[trigger] fields[i]).0, fields[i].1) {
            assert(may_override(fields[n - 1].0, fields[n - 1].1));
        }
        if validated_upto(fields, n) is Ok {
            let before = validated_upto(fields, n - 1)->Ok_0;
            let v = override_value(last.0, last.1)->Ok_0;
            put_is_found(before, last.0, v, name);
            let all = fields.take(n);
            let front = fields.take(n - 1);
            if last.0 == name {
                assert(fields[n - 1].0 == name);
            } else if lookup(before, name) is Some {
                let i = choose|i: int| 0 <= i < n - 1 && (#[trigger] fields[i]).0 == name;
                assert(fields[i].0 == name);
            }
            assert forall|i: int| #[trigger] last_entry(all, name, i) implies (lookup(
                validated_upto(fields, n)->Ok_0,
                name,
            ) matches Some(w) && kept_as(fields[i].1, w)) by {
                assert(all[i] == fields[i]);
                if last.0 == name {
                    if i < n - 1 {
                        assert(all[n - 1].0 != name);
                    }
                } else {
                    assert(i < n - 1);
                    assert(front[i] == fields[i]);
                    assert forall|j: int| i < j < front.len() implies (#[trigger] front[j]).0
                        != name by {
                        assert(front[j] == all[j]);
                    }
                    assert(last_entry(front, name, i));
                }
            }
        }
    } else {
        assert(fields.take(0) =~= Seq::empty());
        assert(lookup(Seq::<(Seq<char>, JsonV)>::empty(), name) is None);
    }
}

/// The fields of an override are accepted exactly where there is one at all and each of them is a
/// summary, a content, tags, paths or languages with a value that it may have. What is kept then is
/// each of the given fields and no other: a text without the white space around it, a list with each
/// of its texts once, in the order of their first occurrence.
pub proof fn an_override_keeps_its_fields(fields: Entries, name: Seq<char>)
    ensures
        validated_fields(fields) is Ok <==> fields.len() > 0 && (forall|i: int|
            0 <= i < fields.len() ==> may_override((#[trigger] fields[i]).0, fields[i].1)),
        validated_fields(fields) matches Ok(kept) ==> {
            &&& lookup(kept, name) is Some <==> (exists|i: int|
                0 <= i < fields.len() && (#[trigger] fields[i]).0 == name)
            &&& forall|i: int| #[trigger]
                last_entry(fields, name, i) ==> (lookup(kept, name) matches Some(v) && kept_as(
                    fields[i].1,
                    v,
                ))
        },
        validated_fields(fields) matches Err(e) ==> e.code == ErrorCode::InvalidArgument,
{
    lemma_apart();
    if all_supported(fields) {
        lemma_validated(fields, fields.len() as int, name);
        assert(fields.take(fields.len() as int) =~= fields);
    } else if fields.len() > 0 {
        let i = choose|i: int|
            0 <= i < fields.len() && !is_override_field((#[trigger] fields[i]).0);
        assert(!may_override(fields[i].0, fields[i].1));
    }
}

// ---- conflicts ----

/// Whether an override row still fits the rules: it is not marked as in conflict, and there is a
/// rule under its key with the source hash that it was made for.
pub open spec fn still_fits(row: RowV, rules: Seq<RuleV>) -> bool {
    &&& text_in(row, "status"@) != Some("conflict"@)
    &&& exists|i: int|
        {
            &&& 0 <= i < rules.len()
            &&& text_in(row, "rule_key"@) == Some((#[trigger] rules[i]).key)
            &&& text_in(row, "base_source_rule_hash"@) == Some(rules[i].source_rule_hash)
        }
}

/// The keys of the override rows that do not fit the rules, in the order of the rows.
pub open spec fn misfits(rows: Seq<RowV>, rules: Seq<RuleV>) -> Seq<Seq<char>> {
    rows.filter(|row: RowV| !still_fits(row, rules)).map_values(
        |row: RowV| text_in(row, "rule_key"@)->0,
    )
}

/// Whether no two rules share their key.
pub open spec fn distinct_keys(rules: Seq<RuleV>) -> bool {
    forall|i: int, j: int|
        0 <= i < j < rules.len() ==> (#[trigger] rules[i]).key != (#[trigger] rules[j]).key
}

proof fn lemma_rule_hash(rules: Seq<RuleV>, key: Seq<char>)
    requires
        distinct_keys(rules),
    ensures
        forall|i: int|
            0 <= i < rules.len() && (#[trigger] rules[i]).key == key ==> rule_hash(rules, key)
                == Some(rules[i].source_rule_hash),
        rule_hash(rules, key) is Some ==> exists|i: int|
            0 <= i < rules.len() && (#[trigger] rules[i]).key == key,
    decreases rules.len(),
{
    if rules.len() > 0 {
        let rest = rules.drop_first();
        assert forall|i: int, j: int| 0 <= i < j < rest.len() implies (#[trigger] rest[i]).key != (
        #[trigger] rest[j]).key by {
            assert(rest[i] == rules[i + 1] && rest[j] == rules[j + 1]);
        }
        lemma_rule_hash(rest, key);
        if rules[0].key == key {
            assert forall|i: int| 0 <= i < rules.len() && (#[trigger] rules[i]).key
                == key implies i == 0 by {
                if i > 0 {
                    assert(rules[0].key != rules[i].key);
                }
            }
        } else {
            assert forall|i: int| 0 <= i < rules.len() && (#[trigger] rules[i]).key
                == key implies rule_hash(rules, key) == Some(rules[i].source_rule_hash) by {
                assert(rest[i - 1] == rules[i]);
            }
            if rule_hash(rules, key) is Some {
                let i = choose|i: int| 0 <= i < rest.len() && (#[trigger] rest[i]).key == key;
                assert(rules[i + 1].key == key);
            }
        }
    }
}

proof fn lemma_fits(row: RowV, o: JsonV, rules: Seq<RuleV>)
    requires
        distinct_keys(rules),
        record(Shape::Override, row) == Ok::<JsonV, Seq<char>>(o),
    ensures
        in_conflict(o, rules) <==> !still_fits(row, rules),
        text_or_empty(o, "rule_key"@) == text_in(row, "rule_key"@)->0,
{
    an_override_record_shows_its_row(row);
    let key = text_in(row, "rule_key"@)->0;
    lemma_rule_hash(rules, key);
    reveal_strlit("conflict");
    assert("conflict"@.len() == 8);
    assert(text_field(o, "rule_key"@) == Some(key));
    assert(text_field(o, "base_source_rule_hash"@) == text_in(row, "base_source_rule_hash"@));
    assert(text_field(o, "status"@) == text_in(row, "status"@));
}

proof fn lemma_misfits(rows: Seq<RowV>, overrides: Seq<JsonV>, rules: Seq<RuleV>, n: int)
    requires
        0 <= n <= rows.len(),
        distinct_keys(rules),
        records(Shape::Override, rows) == Ok::<Seq<JsonV>, Seq<char>>(overrides),
    ensures
        conflicts_upto(overrides, n, rules) == misfits(rows.take(n), rules),
    decreases n,
{
    reveal(Seq::filter);
    let p = |row: RowV| !still_fits(row, rules);
    let key = |row: RowV| text_in(row, "rule_key"@)->0;
    if n > 0 {
        lemma_misfits(rows, overrides, rules, n - 1);
        records_stand_for_their_rows(Shape::Override, rows);
        assert(record(Shape::Override, rows[n - 1]) == Ok::<JsonV, Seq<char>>(overrides[n - 1]));
        lemma_fits(rows[n - 1], overrides[n - 1], rules);
        let all = rows.take(n);
        assert(all.drop_last() =~= rows.take(n - 1));
        assert(all.last() == rows[n - 1]);
        if p(rows[n - 1]) {
            assert(all.filter(p) == rows.take(n - 1).filter(p).push(rows[n - 1]));
            assert(all.filter(p).map_values(key) =~= rows.take(n - 1).filter(p).map_values(key).push(
                key(rows[n - 1]),
            ));
        } else {
            assert(all.filter(p) == rows.take(n - 1).filter(p));
        }
    } else {
        assert(rows.take(0).filter(p).map_values(key) =~= Seq::empty());
    }
}

/// Overrides are in conflict with the rules exactly where they do not fit them any more: they are
/// marked so, or the rule that they are about has another source hash now, or is gone.
pub proof fn conflicts_are_the_misfits(rows: Seq<RowV>, overrides: Seq<JsonV>, rules: Seq<RuleV>)
    requires
        distinct_keys(rules),
        records(Shape::Override, rows) == Ok::<Seq<JsonV>, Seq<char>>(overrides),
    ensures
        conflicts(overrides, rules) == misfits(rows, rules),
        conflicts(overrides, rules).len() == 0 <==> (forall|i: int|
            0 <= i < rows.len() ==> still_fits(#[trigger] rows[i], rules)),
{
    records_stand_for_their_rows(Shape::Override, rows);
    lemma_misfits(rows, overrides, rules, rows.len() as int);
    assert(rows.take(rows.len() as int) =~= rows);
    let p = |row: RowV| !still_fits(row, rules);
    lemma_filter_empty(rows, p);
}

proof fn lemma_filter_empty(rows: Seq<RowV>, p: spec_fn(RowV) -> bool)
    ensures
        rows.filter(p).len() == 0 <==> (forall|i: int| 0 <= i < rows.len() ==> !p(#[trigger] rows[i])),
    decreases rows.len(),
{
    reveal(Seq::filter);
    if rows.len() > 0 {
        let front = rows.drop_last();
        lemma_filter_empty(front, p);
        if forall|i: int| 0 <= i < front.len() ==> !p(#[trigger] front[i]) {
            if !p(rows.last()) {
                assert forall|i: int| 0 <= i < rows.len() implies !p(#[trigger] rows[i]) by {
                    if i < front.len() {
                        assert(front[i] == rows[i]);
                    }
                }
            } else {
                assert(p(rows[rows.len() - 1]));
            }
        } else {
            let i = choose|i: int| 0 <= i < front.len() && p(#[trigger] front[i]);
            assert(rows[i] == front[i]);
        }
    }
}

// ---- effect ----

/// Whether the last override row for a key stands at `i`.
pub open spec fn last_for(rows: Seq<RowV>, key: Seq<char>, i: int) -> bool {
    &&& 0 <= i < rows.len()
    &&& text_in(rows[i], "rule_key"@) == Some(key)
    &&& forall|j: int| i < j < rows.len() ==> text_in(#[trigger] rows[j], "rule_key"@) != Some(key)
}

/// Whether no override row is for a key.
pub open spec fn none_for(rows: Seq<RowV>, key: Seq<char>) -> bool {
    forall|i: int| 0 <= i < rows.len() ==> text_in(#[trigger] rows[i], "rule_key"@) != Some(key)
}

/// Which override is found for a key.
pub proof fn lemma_found(rows: Seq<RowV>, overrides: Seq<JsonV>, key: Seq<char>)
    requires
        records(Shape::Override, rows) == Ok::<Seq<JsonV>, Seq<char>>(overrides),
    ensures
        override_for(overrides, key) is None <==> none_for(rows, key),
        override_for(overrides, key) is Some ==> exists|i: int| #[trigger] last_for(rows, key, i),
        forall|i: int| #[trigger] last_for(rows, key, i) ==> override_for(overrides, key) == Some(
            overrides[i],
        ) && shows_override_row(overrides[i], rows[i]),
{
    records_stand_for_their_rows(Shape::Override, rows);
    lemma_found_upto(rows, overrides, key, rows.len() as int);
    assert(rows.take(rows.len() as int) =~= rows);
    assert(overrides.take(rows.len() as int) =~= overrides);
    assert forall|i: int| #[trigger] last_for(rows, key, i) implies shows_override_row(
        overrides[i],
        rows[i],
    ) by {
        an_override_record_shows_its_row(rows[i]);
        assert(record(Shape::Override, rows[i]) == Ok::<JsonV, Seq<char>>(overrides[i]));
    }
}

proof fn lemma_found_upto(rows: Seq<RowV>, overrides: Seq<JsonV>, key: Seq<char>, n: int)
    requires
        records(Shape::Override, rows) == Ok::<Seq<JsonV>, Seq<char>>(overrides),
        0 <= n <= rows.len(),
        overrides.len() == rows.len(),
    ensures
        override_for(overrides.take(n), key) is None <==> none_for(rows.take(n), key),
        override_for(overrides.take(n), key) is Some ==> exists|i: int| #[trigger]
            last_for(rows.take(n), key, i),
        forall|i: int| #[trigger] last_for(rows.take(n), key, i) ==> override_for(
            overrides.take(n),
            key,
        ) == Some(overrides[i]),
    decreases n,
{
    let a = rows.take(n);
    let b = overrides.take(n);
    if n > 0 {
        lemma_found_upto(rows, overrides, key, n - 1);
        records_stand_for_their_rows(Shape::Override, rows);
        let row = rows[n - 1];
        assert(record(Shape::Override, row) == Ok::<JsonV, Seq<char>>(overrides[n - 1]));
        an_override_record_shows_its_row(row);
        assert(text_field(overrides[n - 1], "rule_key"@) == text_in(row, "rule_key"@));
        let front = rows.take(n - 1);
        assert(b.drop_last() =~= overrides.take(n - 1));
        assert(b.last() == overrides[n - 1]);
        assert forall|i: int| 0 <= i < n - 1 implies #[trigger] front[i] == a[i] by {}
        assert(a[n - 1] == row);
        if text_in(row, "rule_key"@) == Some(key) {
            assert(last_for(a, key, n - 1));
            assert(!none_for(a, key)) by {
                assert(text_in(a[n - 1], "rule_key"@) == Some(key));
            }
            assert forall|i: int| #[trigger] last_for(a, key, i) implies i == n - 1 by {
                if i < n - 1 {
                    assert(text_in(a[n - 1], "rule_key"@) != Some(key));
                }
            }
        } else {
            assert forall|i: int| #[trigger] last_for(a, key, i) <==> last_for(front, key, i) by {
                if last_for(a, key, i) {
                    assert forall|j: int| i < j < front.len() implies text_in(
                        #[trigger] front[j],
                        "rule_key"@,
                    ) != Some(key) by {
                        assert(front[j] == a[j]);
                    }
                    assert(front[i] == a[i]);
                }
                if last_for(front, key, i) {
                    assert forall|j: int| i < j < a.len() implies text_in(
                        #[trigger] a[j],
                        "rule_key"@,
                    ) != Some(key) by {
                        if j < n - 1 {
                            assert(front[j] == a[j]);
                        }
                    }
                    assert(front[i] == a[i]);
                }
            }
            assert(none_for(a, key) <==> none_for(front, key)) by {
                if none_for(a, key) {
                    assert forall|i: int| 0 <= i < front.len() implies text_in(
                        #[trigger] front[i],
                        "rule_key"@,
                    ) != Some(key) by {
                        assert(front[i] == a[i]);
                    }
                }
                if none_for(front, key) {
                    assert forall|i: int| 0 <= i < a.len() implies text_in(
                        #[trigger] a[i],
                        "rule_key"@,
                    ) != Some(key) by {
                        if i < n - 1 {
                            assert(front[i] == a[i]);
                        }
                    }
                }
            }
            if override_for(b, key) is Some {
                let i = choose|i: int| #[trigger] last_for(front, key, i);
                assert(last_for(a, key, i));
            }
        }
    }
}

/// Whether `made` is a text of a rule under an override row: what the row has in the column, or
/// else the text of the rule.
pub open spec fn text_under(row: RowV, column: Seq<char>, source: Seq<char>, made: Seq<char>) -> bool {
    match text_in(row, column) {
        Some(t) => made == t,
        None => made == source,
    }
}

/// Whether `made` is a list of a rule under an override row: what the row lists in the column, or
/// else the list of the rule. Of a column that holds no list of texts nothing is said.
pub open spec fn list_under(
    row: RowV,
    column: Seq<char>,
    source: Seq<Seq<char>>,
    made: Seq<Seq<char>>,
) -> bool {
    &&& value_in(row, column) == JsonV::Null ==> made == source
    &&& forall|list: Seq<Seq<char>>|
        value_in(row, column) == #[trigger] listed_texts(list) ==> made == list
}

/// Whether a rule is how another one counts under an override row.
pub open spec fn rule_under(row: RowV, source: RuleV, made: RuleV) -> bool {
    &&& made.key == source.key
    &&& made.source_rule_hash == source.source_rule_hash
    &&& text_under(row, "summary"@, source.summary, made.summary)
    &&& text_under(row, "content"@, source.content, made.content)
    &&& list_under(row, "tags_json"@, source.tags, made.tags)
    &&& list_under(row, "paths_json"@, source.paths, made.paths)
    &&& list_under(row, "languages_json"@, source.languages, made.languages)
}

/// Whether rules are how others count under the override rows: a rule that no row is for as it is,
/// any other with what the last row for its key has.
pub open spec fn rules_under(rows: Seq<RowV>, source: Seq<RuleV>, made: Seq<RuleV>) -> bool {
    &&& made.len() == source.len()
    &&& forall|i: int|
        0 <= i < source.len() && none_for(rows, (#[trigger] source[i]).key) ==> made[i] == source[i]
    &&& forall|i: int, k: int|
        0 <= i < source.len() && #[trigger] last_for(rows, (#[trigger] source[i]).key, k)
            ==> rule_under(rows[k], source[i], made[i])
}

proof fn lemma_items(list: Seq<Seq<char>>, n: int)
    requires
        0 <= n <= list.len(),
    ensures
        texts_upto(list.map_values(|t: Seq<char>| JsonV::Text(t)), n) == list.take(n),
    decreases n,
{
    let items = list.map_values(|t: Seq<char>| JsonV::Text(t));
    if n > 0 {
        lemma_items(list, n - 1);
        assert(items[n - 1] == JsonV::Text(list[n - 1]));
        assert(list.take(n) =~= list.take(n - 1).push(list[n - 1]));
    } else {
        assert(list.take(0) =~= Seq::empty());
    }
}

/// The texts of a list of texts.
pub proof fn lemma_text_items(list: Seq<Seq<char>>)
    ensures
        text_items(Some(listed_texts(list))) == list,
{
    lemma_items(list, list.len() as int);
    assert(list.take(list.len() as int) =~= list);
}

/// A checklist counts under active overrides rule by rule: what an override sets replaces what the
/// rule states, everything else stays.
pub proof fn overrides_take_effect(checklist: ChecklistV, rows: Seq<RowV>, overrides: Seq<JsonV>)
    requires
        records(Shape::Override, rows) == Ok::<Seq<JsonV>, Seq<char>>(overrides),
    ensures
        ({
            let made = effective_checklist(checklist, overrides);
            &&& rules_under(rows, checklist.rules, made.rules)
            &&& made.schema_version == checklist.schema_version
            &&& made.checklist_version == checklist.checklist_version
            &&& made.global_description == checklist.global_description
            &&& made.content_hash == checklist.content_hash
        }),
{
    let made = effective_checklist(checklist, overrides).rules;
    let source = checklist.rules;
    assert forall|i: int|
        0 <= i < source.len() && none_for(rows, (#[trigger] source[i]).key) implies made[i]
        == source[i] by {
        lemma_found(rows, overrides, source[i].key);
        assert(made[i] == effective_rule(source[i], overrides));
    }
    assert forall|i: int, k: int|
        0 <= i < source.len() && #[trigger] last_for(
            rows,
            (#[trigger] source[i]).key,
            k,
        ) implies rule_under(rows[k], source[i], made[i]) by {
        lemma_found(rows, overrides, source[i].key);
        assert(made[i] == effective_rule(source[i], overrides));
        lemma_rule_under(rows[k], overrides[k], source[i]);
    }
}

proof fn lemma_rule_under(row: RowV, o: JsonV, rule: RuleV)
    requires
        shows_override_row(o, row),
    ensures
        rule_under(row, rule, overridden(rule, o)),
{
    let made = overridden(rule, o);
    assert(list_under(row, "tags_json"@, rule.tags, made.tags)) by {
        lemma_list_under(row, "tags_json"@, o, "tags"@, rule.tags);
    }
    assert(list_under(row, "paths_json"@, rule.paths, made.paths)) by {
        lemma_list_under(row, "paths_json"@, o, "paths"@, rule.paths);
    }
    assert(list_under(row, "languages_json"@, rule.languages, made.languages)) by {
        lemma_list_under(row, "languages_json"@, o, "languages"@, rule.languages);
    }
}

proof fn lemma_list_under(
    row: RowV,
    column: Seq<char>,
    o: JsonV,
    name: Seq<char>,
    source: Seq<Seq<char>>,
)
    requires
        field(o, name) == Some(value_in(row, column)),
    ensures
        list_under(row, column, source, crate::overrides::overridden_list(o, name, source)),
{
    let made = crate::overrides::overridden_list(o, name, source);
    assert forall|list: Seq<Seq<char>>|
        value_in(row, column) == #[trigger] listed_texts(list) implies made == list by {
        lemma_text_items(list);
    }
}

} // verus!
