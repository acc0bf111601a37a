//! What the operations that only look answer: projects, descriptions, rules, overrides, searches
//! and views.

use vstd::prelude::*;

use crate::config::LocationV;
use crate::errors::{and_detail, detail, ErrorCode};
use crate::json::{
    field, lemma_position, lookup, position, put, put_is_found, text_field, without, without_drops,
    Entries, JsonV,
};
use crate::json_laws::{lemma_and_detail, lemma_detail, tidy};
use crate::json_parse::json_document;
use crate::json_util::canonical;
use crate::maintenance::{findings_upto, view_query};
use crate::operation_laws::{
    after_reply, holds, lemma_holds, override_rows, queries, refuses, rule_rows,
};
use crate::override_laws::listed_texts;
use crate::protocol::{CellV, ReplyV, RowV, StepV};
use crate::record_laws::{
    a_rule_record_shows_its_row, an_override_record_shows_its_row, override_row,
    records_stand_for_their_rows, rule_row, shows_override_row, shows_rule_row, text_in,
    text_value_in, value_in,
};
use crate::repository::{
    integrity_query, keyed_rules_query, override_query, overrides_query, project_query,
    projects_query, rules_query, schema_query, search_query,
};
use crate::rows::{
    cell_value, column, field_mentions, folded, list_mentions, matching_upto, record, records,
    row_entries, row_object, rule_mentions, shows, text_mentions, view_shape, Shape,
};
use crate::selection::{picked, picked_upto, record_for};
use crate::service::{dropped, info_value, rules_total, stripped, view_value, ServiceErrorV, StageV};
use crate::session::{operation_start, OperationV};
use crate::text::{ascii_folded, ascii_lower, begins, lowercase, occurs};

verus! {

// ---- projects ----

/// Whether `v` is an object with the fields of another, except those of some names.
pub open spec fn all_but(v: JsonV, whole: JsonV, left_out: Seq<Seq<char>>) -> bool {
    forall|name: Seq<char>| #[trigger]
        field(v, name) == (if left_out.contains(name) {
            None
        } else {
            field(whole, name)
        })
}

proof fn lemma_put_tidy(entries: Entries, name: Seq<char>, value: JsonV)
    requires
        tidy(JsonV::Object(entries)),
    ensures
        tidy(JsonV::Object(put(entries, name, value))),
{
    lemma_and_detail(JsonV::Object(entries), name, value);
}

proof fn lemma_row_tidy(row: RowV)
    ensures
        tidy(row_object(row)),
    decreases row.len(),
{
    if row.len() > 0 {
        lemma_row_tidy(row.drop_last());
        lemma_put_tidy(row_entries(row.drop_last()), row.last().0, cell_value(row.last().1));
    }
}

proof fn lemma_dropped(v: JsonV, name: Seq<char>)
    requires
        tidy(v),
    ensures
        tidy(dropped(v, name)),
        all_but(dropped(v, name), v, seq![name]),
{
    let entries = v->Object_0;
    assert forall|other: Seq<char>| #[trigger] field(dropped(v, name), other) == (if seq![
        name,
    ].contains(other) {
        None
    } else {
        field(v, other)
    }) by {
        without_drops(entries, name, other);
        assert(seq![name][0] == name);
        if other != name {
            assert(!seq![name].contains(other));
        } else {
            assert(seq![name].contains(other));
        }
    }
    let after = without(entries, name);
    lemma_position(entries, name);
    assert forall|i: int, j: int| 0 <= i < j < after.len() implies (#[trigger] after[i]).0 != (
    #[trigger] after[j]).0 by {
        let at = position(entries, name);
        if at < entries.len() {
            let a = if i < at {
                i
            } else {
                i + 1
            };
            let b = if j < at {
                j
            } else {
                j + 1
            };
            assert(after[i] == entries[a] && after[j] == entries[b]);
        }
    }
}

/// A stored project is shown with all its columns but the description; one that is not stored is
/// not found.
pub proof fn a_project_is_shown(
    project_id: Seq<char>,
    l: LocationV,
    home: Option<Seq<char>>,
    cwd: Seq<char>,
    db: Seq<char>,
    rows: Seq<RowV>,
    now: Seq<char>,
)
    ensures
        ({
            let first = operation_start(OperationV::Project { project_id }, l, home, cwd);
            let last = after_reply(db, first, ReplyV::Rows(rows), now);
            &&& queries(first, project_query(project_id))
            &&& if rows.len() == 0 {
                refuses(last, ErrorCode::ProjectNotFound)
            } else {
                last matches StepV::Done(Ok(v)) && all_but(
                    v,
                    row_object(rows[0]),
                    seq!["description_json"@],
                )
            }
        }),
{
    if rows.len() > 0 {
        lemma_row_tidy(rows[0]);
        lemma_dropped(row_object(rows[0]), "description_json"@);
    }
}

/// All stored projects are listed, in the order in which they are read, each without its
/// description.
pub proof fn all_projects_are_listed(
    l: LocationV,
    home: Option<Seq<char>>,
    cwd: Seq<char>,
    db: Seq<char>,
    rows: Seq<RowV>,
    now: Seq<char>,
)
    ensures
        ({
            let first = operation_start(OperationV::Projects, l, home, cwd);
            let last = after_reply(db, first, ReplyV::Rows(rows), now);
            &&& queries(first, projects_query())
            &&& last matches StepV::Done(Ok(JsonV::Array(items))) && {
                &&& items.len() == rows.len()
                &&& forall|i: int|
                    0 <= i < items.len() ==> all_but(
                        #[trigger] items[i],
                        row_object(rows[i]),
                        seq!["description_json"@],
                    )
            }
        }),
{
    records_stand_for_their_rows(Shape::Plain, rows);
    assert forall|i: int| 0 <= i < rows.len() implies record(Shape::Plain, #[trigger] rows[i])
        is Ok by {}
    let list = records(Shape::Plain, rows)->Ok_0;
    let items = stripped(list, "description_json"@);
    assert forall|i: int| 0 <= i < items.len() implies all_but(
        #[trigger] items[i],
        row_object(rows[i]),
        seq!["description_json"@],
    ) by {
        assert(record(Shape::Plain, rows[i]) == Ok::<JsonV, Seq<char>>(list[i]));
        lemma_row_tidy(rows[i]);
        lemma_dropped(row_object(rows[i]), "description_json"@);
    }
}

/// The description of a project is the value whose JSON text is stored.
pub proof fn a_description_is_handed_out(
    project_id: Seq<char>,
    l: LocationV,
    home: Option<Seq<char>>,
    cwd: Seq<char>,
    db: Seq<char>,
    rows: Seq<RowV>,
    now: Seq<char>,
)
    ensures
        ({
            let first = operation_start(OperationV::Description { project_id }, l, home, cwd);
            let last = after_reply(db, first, ReplyV::Rows(rows), now);
            &&& queries(first, project_query(project_id))
            &&& rows.len() == 0 ==> refuses(last, ErrorCode::ProjectNotFound)
            &&& rows.len() > 0 ==> (text_field(row_object(rows[0]), "description_json"@) matches Some(
                t,
            ) ==> match json_document(t) {
                Ok(v) => last == StepV::<StageV, ServiceErrorV>::Done(Ok(v)),
                Err(_) => last matches StepV::Done(Err(ServiceErrorV::Raw(_))),
            })
        }),
{
}

// ---- rules ----

proof fn lemma_rules_read(rows: Seq<RowV>)
    requires
        rule_rows(rows),
    ensures
        records(Shape::Rule, rows) matches Ok(list) && list.len() == rows.len() && forall|i: int|
            0 <= i < rows.len() ==> shows_rule_row(list[i], #[trigger] rows[i]) && record(
                Shape::Rule,
                rows[i],
            ) == Ok::<JsonV, Seq<char>>(list[i]),
{
    records_stand_for_their_rows(Shape::Rule, rows);
    assert forall|i: int| 0 <= i < rows.len() implies record(Shape::Rule, #[trigger] rows[i])
        is Ok by {
        a_rule_record_shows_its_row(rows[i]);
    }
    let list = records(Shape::Rule, rows)->Ok_0;
    assert forall|i: int| 0 <= i < rows.len() implies shows_rule_row(list[i], #[trigger] rows[i])
        && record(Shape::Rule, rows[i]) == Ok::<JsonV, Seq<char>>(list[i]) by {
        assert(record(Shape::Rule, rows[i]) == Ok::<JsonV, Seq<char>>(list[i]));
        a_rule_record_shows_its_row(rows[i]);
    }
}

/// Whether a value shows a rule row but for its content and its source hash, and nothing else.
pub open spec fn lists_rule_row(v: JsonV, row: RowV) -> bool {
    &&& field(v, "key"@) == Some(text_value_in(row, "rule_key"@))
    &&& field(v, "summary"@) == Some(text_value_in(row, "summary"@))
    &&& field(v, "tags"@) == Some(value_in(row, "tags_json"@))
    &&& field(v, "paths"@) == Some(value_in(row, "paths_json"@))
    &&& field(v, "languages"@) == Some(value_in(row, "languages_json"@))
    &&& column(row, "ordinal"@) matches Some(CellV::Integer(n)) && field(v, "ordinal"@) == Some(
        JsonV::Int(n),
    )
    &&& field(v, "content"@) is None
    &&& field(v, "source_rule_hash"@) is None
}

/// The rules of a project are listed in the order in which they are read, each without its content
/// and its source hash.
#[verifier::spinoff_prover]
#[verifier::rlimit(50)]
pub proof fn all_rules_are_listed(
    project_id: Seq<char>,
    l: LocationV,
    home: Option<Seq<char>>,
    cwd: Seq<char>,
    db: Seq<char>,
    project: Seq<RowV>,
    rows: Seq<RowV>,
    now: Seq<char>,
)
    requires
        rule_rows(rows),
    ensures
        ({
            let first = operation_start(OperationV::Rules { project_id }, l, home, cwd);
            let looked = after_reply(db, first, ReplyV::Rows(project), now);
            let last = after_reply(db, looked, ReplyV::Rows(rows), now);
            &&& queries(first, project_query(project_id))
            &&& project.len() == 0 ==> refuses(looked, ErrorCode::ProjectNotFound)
            &&& project.len() > 0 ==> {
                &&& queries(looked, rules_query(project_id))
                &&& last matches StepV::Done(Ok(JsonV::Array(items))) && {
                    &&& items.len() == rows.len()
                    &&& forall|i: int|
                        0 <= i < items.len() ==> lists_rule_row(#[trigger] items[i], rows[i])
                }
            }
        }),
{
    lemma_rules_read(rows);
    let list = records(Shape::Rule, rows)->Ok_0;
    let items = stripped(stripped(list, "content"@), "source_rule_hash"@);
    assert forall|i: int| 0 <= i < items.len() implies lists_rule_row(
        #[trigger] items[i],
        rows[i],
    ) by {
        assert(shows_rule_row(list[i], rows[i]));
        let one = dropped(list[i], "content"@);
        lemma_dropped(list[i], "content"@);
        lemma_dropped(one, "source_rule_hash"@);
        assert(stripped(list, "content"@)[i] == one);
        assert(items[i] == dropped(one, "source_rule_hash"@));
        crate::record_laws::lemma_names_differ();
        lemma_single("content"@);
        lemma_single("source_rule_hash"@);
    }
}

proof fn lemma_single(name: Seq<char>)
    ensures
        forall|other: Seq<char>| #[trigger] seq![name].contains(other) <==> other == name,
{
    assert forall|other: Seq<char>| #[trigger] seq![name].contains(other) <==> other == name by {
        assert(seq![name][0] == name);
        if other == name {
            assert(seq![name].contains(other));
        }
    }
}

// ---- searching ----

/// Whether two characters are the same letter, whatever their case in ASCII.
pub open spec fn same_letter(a: char, b: char) -> bool {
    ||| a == b
    ||| 'a' <= a <= 'z' && a as u32 == b as u32 + 32
    ||| 'a' <= b <= 'z' && b as u32 == a as u32 + 32
}

/// Whether a text holds another, whatever the case of ASCII letters.
pub open spec fn found_in(t: Seq<char>, query: Seq<char>) -> bool {
    exists|at: int| #[trigger] found_at(t, query, at)
}

/// Whether a text holds another at a place, whatever the case of ASCII letters.
pub open spec fn found_at(t: Seq<char>, query: Seq<char>, at: int) -> bool {
    &&& 0 <= at <= at + query.len() <= t.len()
    &&& forall|i: int| 0 <= i < query.len() ==> same_letter(t[at + i], #[trigger] query[i])
}

proof fn lemma_letters(a: char, b: char)
    ensures
        ascii_lower(a) == ascii_lower(b) <==> same_letter(a, b),
{
}

proof fn lemma_found(t: Seq<char>, query: Seq<char>)
    ensures
        occurs(ascii_folded(t), ascii_folded(query)) <==> found_in(t, query),
{
    let s = ascii_folded(t);
    let q = ascii_folded(query);
    if occurs(s, q) {
        let at = choose|at: int| 0 <= at <= s.len() && #[trigger] begins(s.skip(at), q);
        assert forall|i: int| 0 <= i < query.len() implies same_letter(
            t[at + i],
            #[trigger] query[i],
        ) by {
            assert(s.skip(at).take(q.len() as int)[i] == q[i]);
            assert(s[at + i] == q[i]);
            lemma_letters(t[at + i], query[i]);
        }
        assert(found_at(t, query, at));
    }
    if found_in(t, query) {
        let at = choose|at: int| #[trigger] found_at(t, query, at);
        let part = s.skip(at).take(q.len() as int);
        assert forall|i: int| 0 <= i < q.len() implies part[i] == q[i] by {
            assert(same_letter(t[at + i], query[i]));
            lemma_letters(t[at + i], query[i]);
        }
        assert(part =~= q);
        assert(begins(s.skip(at), q));
    }
}

/// Whether a column of a row holds a text with `query` in it.
pub open spec fn column_mentions(row: RowV, name: Seq<char>, query: Seq<char>) -> bool {
    text_in(row, name) matches Some(t) && found_in(t, query)
}

/// Whether a column of a row holds a list with an entry that has `query` in it.
pub open spec fn entry_mentions(row: RowV, name: Seq<char>, query: Seq<char>) -> bool {
    value_in(row, name) matches JsonV::Array(items) && exists|i: int|
        0 <= i < items.len() && (#[trigger] items[i] matches JsonV::Text(t) && found_in(t, query))
}

/// Whether a rule row mentions `query`: in its key, its summary, its content, or an entry of its
/// tags, its paths or its languages.
pub open spec fn row_mentions(row: RowV, query: Seq<char>) -> bool {
    ||| column_mentions(row, "rule_key"@, query)
    ||| column_mentions(row, "summary"@, query)
    ||| column_mentions(row, "content"@, query)
    ||| entry_mentions(row, "tags_json"@, query)
    ||| entry_mentions(row, "paths_json"@, query)
    ||| entry_mentions(row, "languages_json"@, query)
}

proof fn lemma_field_mentions(v: JsonV, name: Seq<char>, row: RowV, column: Seq<char>, query: Seq<char>)
    requires
        field(v, name) == Some(text_value_in(row, column)),
    ensures
        field_mentions(v, name, query) <==> column_mentions(row, column, query),
{
    if let Some(t) = text_in(row, column) {
        lemma_found(t, query);
    }
}

proof fn lemma_list_mentions(v: JsonV, name: Seq<char>, row: RowV, column: Seq<char>, query: Seq<char>)
    requires
        field(v, name) == Some(value_in(row, column)),
    ensures
        list_mentions(v, name, query) <==> entry_mentions(row, column, query),
{
    if let JsonV::Array(items) = value_in(row, column) {
        if list_mentions(v, name, query) {
            let i = choose|i: int| 0 <= i < items.len() && text_mentions(#[trigger] items[i], query);
            lemma_found(items[i]->Text_0, query);
        }
        if entry_mentions(row, column, query) {
            let i = choose|i: int|
                0 <= i < items.len() && (#[trigger] items[i] matches JsonV::Text(t) && found_in(
                    t,
                    query,
                ));
            lemma_found(items[i]->Text_0, query);
            assert(text_mentions(items[i], query));
        }
    }
}

proof fn lemma_mentions(v: JsonV, row: RowV, query: Seq<char>)
    requires
        shows_rule_row(v, row),
    ensures
        rule_mentions(v, query) <==> row_mentions(row, query),
{
    lemma_field_mentions(v, "key"@, row, "rule_key"@, query);
    lemma_field_mentions(v, "summary"@, row, "summary"@, query);
    lemma_field_mentions(v, "content"@, row, "content"@, query);
    lemma_list_mentions(v, "tags"@, row, "tags_json"@, query);
    lemma_list_mentions(v, "paths"@, row, "paths_json"@, query);
    lemma_list_mentions(v, "languages"@, row, "languages_json"@, query);
}

/// Whether values are the records of rows of some shape, one for each.
pub open spec fn records_of(items: Seq<JsonV>, shape: Shape, rows: Seq<RowV>) -> bool {
    &&& items.len() == rows.len()
    &&& forall|i: int|
        0 <= i < rows.len() ==> record(shape, #[trigger] rows[i]) == Ok::<JsonV, Seq<char>>(items[i])
}

proof fn lemma_filtered(
    rows: Seq<RowV>,
    list: Seq<JsonV>,
    shape: Shape,
    p: spec_fn(RowV) -> bool,
    q: spec_fn(JsonV) -> bool,
)
    requires
        records_of(list, shape, rows),
        forall|i: int| 0 <= i < rows.len() ==> p(#[trigger] rows[i]) == q(list[i]),
    ensures
        records_of(list.filter(q), shape, rows.filter(p)),
    decreases rows.len(),
{
    reveal(Seq::filter);
    if rows.len() > 0 {
        let front = rows.drop_last();
        let before = list.drop_last();
        assert forall|i: int| 0 <= i < front.len() implies record(shape, #[trigger] front[i]) == Ok::<
            JsonV,
            Seq<char>,
        >(before[i]) by {
            assert(front[i] == rows[i]);
        }
        assert forall|i: int| 0 <= i < front.len() implies p(#[trigger] front[i]) == q(
            before[i],
        ) by {
            assert(front[i] == rows[i]);
        }
        lemma_filtered(front, before, shape, p, q);
        let n = rows.len() - 1;
        assert(p(rows[n as int]) == q(list[n as int]));
        assert(record(shape, rows[n as int]) == Ok::<JsonV, Seq<char>>(list[n as int]));
        if p(rows.last()) {
            let a = front.filter(p).push(rows.last());
            let b = before.filter(q).push(list.last());
            assert(rows.filter(p) == a);
            assert(list.filter(q) == b);
            assert forall|i: int| 0 <= i < a.len() implies record(shape, #[trigger] a[i]) == Ok::<
                JsonV,
                Seq<char>,
            >(b[i]) by {
                if i < front.filter(p).len() {
                    assert(front.filter(p)[i] == a[i]);
                }
            }
        }
    }
}

/// A search needs a stored project and something to search for. Of the rules that the database
/// brings it answers exactly those that mention it, whole and in their order.
#[verifier::spinoff_prover]
#[verifier::rlimit(50)]
pub proof fn a_search_brings_exactly_the_mentions(
    project_id: Seq<char>,
    query: Seq<char>,
    l: LocationV,
    home: Option<Seq<char>>,
    cwd: Seq<char>,
    db: Seq<char>,
    project: Seq<RowV>,
    rows: Seq<RowV>,
    now: Seq<char>,
)
    requires
        rule_rows(rows),
    ensures
        ({
            let first = operation_start(OperationV::Search { project_id, query }, l, home, cwd);
            let looked = after_reply(db, first, ReplyV::Rows(project), now);
            let last = after_reply(db, looked, ReplyV::Rows(rows), now);
            &&& queries(first, project_query(project_id))
            &&& if project.len() == 0 {
                refuses(looked, ErrorCode::ProjectNotFound)
            } else if query.len() == 0 {
                refuses(looked, ErrorCode::InvalidArgument)
            } else {
                &&& queries(looked, search_query(project_id, query))
                &&& last matches StepV::Done(Ok(JsonV::Array(items))) && records_of(
                    items,
                    Shape::Rule,
                    rows.filter(|row: RowV| row_mentions(row, query)),
                )
            }
        }),
{
    lemma_rules_read(rows);
    let list = records(Shape::Rule, rows)->Ok_0;
    let p = |row: RowV| row_mentions(row, query);
    let q = |r: JsonV| rule_mentions(r, query);
    assert forall|i: int| 0 <= i < rows.len() implies p(#[trigger] rows[i]) == q(list[i]) by {
        assert(shows_rule_row(list[i], rows[i]));
        lemma_mentions(list[i], rows[i], query);
    }
    lemma_filtered(rows, list, Shape::Rule, p, q);
}

// ---- overrides ----

/// All overrides of a project are listed, whatever their status, in the order in which they are
/// read.
pub proof fn all_overrides_are_listed(
    project_id: Seq<char>,
    l: LocationV,
    home: Option<Seq<char>>,
    cwd: Seq<char>,
    db: Seq<char>,
    project: Seq<RowV>,
    rows: Seq<RowV>,
    now: Seq<char>,
)
    requires
        override_rows(rows),
    ensures
        ({
            let first = operation_start(OperationV::Overrides { project_id }, l, home, cwd);
            let looked = after_reply(db, first, ReplyV::Rows(project), now);
            let last = after_reply(db, looked, ReplyV::Rows(rows), now);
            &&& queries(first, project_query(project_id))
            &&& project.len() == 0 ==> refuses(looked, ErrorCode::ProjectNotFound)
            &&& project.len() > 0 ==> {
                &&& queries(looked, overrides_query(project_id, Seq::empty()))
                &&& last matches StepV::Done(Ok(JsonV::Array(items))) && {
                    &&& items.len() == rows.len()
                    &&& forall|i: int|
                        0 <= i < items.len() ==> shows_override_row(#[trigger] items[i], rows[i])
                }
            }
        }),
{
    records_stand_for_their_rows(Shape::Override, rows);
    assert forall|i: int| 0 <= i < rows.len() implies record(Shape::Override, #[trigger] rows[i])
        is Ok by {
        an_override_record_shows_its_row(rows[i]);
    }
    let list = records(Shape::Override, rows)->Ok_0;
    assert forall|i: int| 0 <= i < list.len() implies shows_override_row(
        #[trigger] list[i],
        rows[i],
    ) by {
        assert(record(Shape::Override, rows[i]) == Ok::<JsonV, Seq<char>>(list[i]));
        an_override_record_shows_its_row(rows[i]);
    }
}

proof fn lemma_no_record(list: Seq<JsonV>, key: Seq<char>)
    requires
        forall|i: int|
            0 <= i < list.len() ==> text_field(#[trigger] list[i], "key"@) != Some(key),
    ensures
        record_for(list, key) is None,
    decreases list.len(),
{
    if list.len() > 0 {
        assert(list[list.len() - 1] == list.last());
        let front = list.drop_last();
        assert forall|i: int| 0 <= i < front.len() implies text_field(
            #[trigger] front[i],
            "key"@,
        ) != Some(key) by {
            assert(front[i] == list[i]);
        }
        lemma_no_record(front, key);
    }
}

proof fn lemma_one_picked(list: Seq<JsonV>, key: Seq<char>)
    ensures
        picked(list, seq![key]) == (match record_for(list, key) {
            Some(r) => seq![r],
            None => Seq::empty(),
        }),
{
    reveal_with_fuel(picked_upto, 2);
    assert(seq![key][0] == key);
    let none = picked_upto(list, seq![key], 0);
    assert(none =~= Seq::empty());
    match record_for(list, key) {
        Some(r) => {
            assert(none.push(r) =~= seq![r]);
        },
        None => {},
    }
}

proof fn lemma_single_record(row: RowV, list: Seq<JsonV>, key: Seq<char>)
    requires
        list.len() == 1,
        shows_rule_row(list[0], row),
        text_in(row, "rule_key"@) == Some(key),
    ensures
        record_for(list, key) == Some(list[0]),
{
    assert(list.last() == list[0]);
    assert(text_field(list[0], "key"@) == Some(key));
}

/// An override is shown whole, together with the rule that it is about as the source states it;
/// where there is no such rule any more, with null in its place.
#[verifier::spinoff_prover]
#[verifier::rlimit(50)]
pub proof fn an_override_is_shown_with_its_source(
    project_id: Seq<char>,
    key: Seq<char>,
    l: LocationV,
    home: Option<Seq<char>>,
    cwd: Seq<char>,
    db: Seq<char>,
    project: Seq<RowV>,
    found: Seq<RowV>,
    source: Seq<RowV>,
    now: Seq<char>,
)
    requires
        found.len() > 0 ==> override_row(found[0]),
        source.len() <= 1,
        source.len() == 1 ==> rule_row(source[0]) && text_in(source[0], "rule_key"@) == Some(key),
    ensures
        ({
            let first = operation_start(OperationV::Override { project_id, key }, l, home, cwd);
            let looked = after_reply(db, first, ReplyV::Rows(project), now);
            let read = after_reply(db, looked, ReplyV::Rows(found), now);
            let last = after_reply(db, read, ReplyV::Rows(source), now);
            &&& queries(first, project_query(project_id))
            &&& project.len() == 0 ==> refuses(looked, ErrorCode::ProjectNotFound)
            &&& project.len() > 0 ==> {
                &&& queries(looked, override_query(project_id, key))
                &&& found.len() == 0 ==> refuses(read, ErrorCode::RuleNotFound)
                &&& found.len() > 0 ==> {
                    &&& queries(read, keyed_rules_query(project_id, seq![key]))
                    &&& last matches StepV::Done(Ok(v)) && {
                        &&& field(v, "override"@) matches Some(o) && shows_override_row(o, found[0])
                        &&& field(v, "source"@) matches Some(s) && if source.len() == 1 {
                            shows_rule_row(s, source[0])
                        } else {
                            s == JsonV::Null
                        }
                    }
                }
            }
        }),
{
    if project.len() > 0 && found.len() > 0 {
        an_override_record_shows_its_row(found[0]);
        let o = record(Shape::Override, found[0])->Ok_0;
        assert(rule_rows(source));
        lemma_rules_read(source);
        let list = records(Shape::Rule, source)->Ok_0;
        lemma_one_picked(list, key);
        if source.len() == 1 {
            assert(shows_rule_row(list[0], source[0]));
            lemma_single_record(source[0], list, key);
        } else {
            lemma_no_record(list, key);
        }
        let s = if picked(list, seq![key]).len() > 0 {
            picked(list, seq![key])[0]
        } else {
            JsonV::Null
        };
        reveal_strlit("source");
        reveal_strlit("override");
        assert("source"@.len() == 6 && "override"@.len() == 8);
        lemma_detail("source"@, s);
        let v0 = detail("source"@, s);
        lemma_and_detail(v0, "override"@, o);
        let v1 = and_detail(v0, "override"@, o);
    }
}

// ---- the database ----

/// The sum of the rule counts of the first `n` project rows.
pub open spec fn counted(rows: Seq<RowV>, n: int) -> int
    decreases n,
{
    if n <= 0 {
        0
    } else {
        counted(rows, n - 1) + (match field(row_object(rows[n - 1]), "rule_count"@) {
            Some(JsonV::Int(k)) => k,
            _ => 0,
        })
    }
}

proof fn lemma_counted(rows: Seq<RowV>, list: Seq<JsonV>, n: int)
    requires
        0 <= n <= rows.len(),
        records_of(list, Shape::Plain, rows),
        forall|i: int|
            0 <= i <= rows.len() ==> i64::MIN <= #[trigger] counted(rows, i) <= i64::MAX,
        forall|i: int|
            0 <= i < rows.len() ==> (field(
                #[trigger] row_object(rows[i]),
                "rule_count"@,
            ) matches Some(JsonV::Int(k)) ==> k <= i64::MAX),
    ensures
        rules_total(list, n) == counted(rows, n),
    decreases n,
{
    if n > 0 {
        lemma_counted(rows, list, n - 1);
        assert(record(Shape::Plain, rows[n - 1]) == Ok::<JsonV, Seq<char>>(list[n - 1]));
        assert(list[n - 1] == row_object(rows[n - 1]));
        assert(i64::MIN <= counted(rows, n) <= i64::MAX);
    }
}

/// `db info` tells where the database lies and how that was decided, how many projects and how many
/// rules it holds, and its schema version.
#[verifier::spinoff_prover]
#[verifier::rlimit(50)]
pub proof fn the_info_counts_projects_and_rules(
    l: LocationV,
    home: Option<Seq<char>>,
    cwd: Seq<char>,
    db: Seq<char>,
    rows: Seq<RowV>,
    version: Seq<RowV>,
    n: int,
    now: Seq<char>,
)
    requires
        version.len() > 0,
        version[0].len() > 0,
        version[0][0].1 == CellV::Integer(n),
        forall|i: int|
            0 <= i <= rows.len() ==> i64::MIN <= #[trigger] counted(rows, i) <= i64::MAX,
        forall|i: int|
            0 <= i < rows.len() ==> (field(
                #[trigger] row_object(rows[i]),
                "rule_count"@,
            ) matches Some(JsonV::Int(k)) ==> k <= i64::MAX),
    ensures
        ({
            let first = operation_start(OperationV::Info, l, home, cwd);
            let read = after_reply(db, first, ReplyV::Rows(rows), now);
            let last = after_reply(db, read, ReplyV::Rows(version), now);
            &&& queries(first, projects_query())
            &&& queries(read, schema_query())
            &&& last matches StepV::Done(Ok(v)) && {
                &&& field(v, "db_path"@) == Some(JsonV::Text(l.path))
                &&& field(v, "path_source"@) == Some(JsonV::Text(l.source))
                &&& field(v, "project_count"@) == Some(JsonV::Int(rows.len() as int))
                &&& field(v, "rule_count"@) == Some(JsonV::Int(counted(rows, rows.len() as int)))
                &&& field(v, "schema_version"@) == Some(JsonV::Int(n))
            }
        }),
{
    records_stand_for_their_rows(Shape::Plain, rows);
    assert forall|i: int| 0 <= i < rows.len() implies record(Shape::Plain, #[trigger] rows[i])
        is Ok by {}
    let list = records(Shape::Plain, rows)->Ok_0;
    lemma_counted(rows, list, rows.len() as int);
    let total = counted(rows, rows.len() as int);
    reveal_strlit("db_path");
    reveal_strlit("path_source");
    reveal_strlit("project_count");
    reveal_strlit("rule_count");
    reveal_strlit("schema_version");
    assert("db_path"@.len() == 7 && "path_source"@.len() == 11 && "project_count"@.len() == 13
        && "rule_count"@.len() == 10 && "schema_version"@.len() == 14);
    let projects = rows.len() as int;
    lemma_detail("db_path"@, JsonV::Text(l.path));
    let v0 = detail("db_path"@, JsonV::Text(l.path));
    lemma_and_detail(v0, "path_source"@, JsonV::Text(l.source));
    let v1 = and_detail(v0, "path_source"@, JsonV::Text(l.source));
    lemma_and_detail(v1, "project_count"@, JsonV::Int(projects));
    let v2 = and_detail(v1, "project_count"@, JsonV::Int(projects));
    lemma_and_detail(v2, "rule_count"@, JsonV::Int(total));
    let v3 = and_detail(v2, "rule_count"@, JsonV::Int(total));
    lemma_and_detail(v3, "schema_version"@, JsonV::Int(n));
    let v4 = and_detail(v3, "schema_version"@, JsonV::Int(n));
    assert(info_value(l.path, l.source, projects, total, n) == v4);
}

/// `db schema` tells the schema version.
pub proof fn the_schema_version_is_told(
    l: LocationV,
    home: Option<Seq<char>>,
    cwd: Seq<char>,
    db: Seq<char>,
    version: Seq<RowV>,
    n: int,
    now: Seq<char>,
)
    requires
        version.len() > 0,
        version[0].len() > 0,
        version[0][0].1 == CellV::Integer(n),
    ensures
        ({
            let first = operation_start(OperationV::Schema, l, home, cwd);
            let last = after_reply(db, first, ReplyV::Rows(version), now);
            &&& queries(first, schema_query())
            &&& last matches StepV::Done(Ok(v)) && field(v, "schema_version"@) == Some(JsonV::Int(n))
        }),
{
    lemma_detail("schema_version"@, JsonV::Int(n));
}

proof fn lemma_findings(rows: Seq<RowV>, given: Seq<Seq<char>>, n: int)
    requires
        0 <= n <= rows.len(),
        given.len() == rows.len(),
        forall|i: int|
            0 <= i < rows.len() ==> (#[trigger] rows[i]).len() > 0 && rows[i][0].1 == CellV::Text(
                given[i],
            ),
    ensures
        findings_upto(rows, n) == Ok::<Seq<Seq<char>>, Seq<char>>(given.take(n)),
    decreases n,
{
    if n > 0 {
        lemma_findings(rows, given, n - 1);
        assert(rows[n - 1].len() > 0);
        assert(given.take(n) =~= given.take(n - 1).push(given[n - 1]));
    } else {
        assert(given.take(0) =~= Seq::empty());
    }
}

/// `db check` tells every finding of the integrity check, in order.
pub proof fn the_check_tells_every_finding(
    l: LocationV,
    home: Option<Seq<char>>,
    cwd: Seq<char>,
    db: Seq<char>,
    rows: Seq<RowV>,
    given: Seq<Seq<char>>,
    now: Seq<char>,
)
    requires
        given.len() == rows.len(),
        forall|i: int|
            0 <= i < rows.len() ==> (#[trigger] rows[i]).len() > 0 && rows[i][0].1 == CellV::Text(
                given[i],
            ),
    ensures
        ({
            let first = operation_start(OperationV::Check, l, home, cwd);
            let last = after_reply(db, first, ReplyV::Rows(rows), now);
            &&& queries(first, integrity_query())
            &&& last matches StepV::Done(Ok(v)) && field(v, "integrity"@) == Some(
                listed_texts(given),
            )
        }),
{
    lemma_findings(rows, given, rows.len() as int);
    assert(given.take(given.len() as int) =~= given);
    assert(crate::json::texts(given) == listed_texts(given));
    lemma_detail("integrity"@, listed_texts(given));
}

// ---- views ----

/// Whether the record of a row shows a needle in its JSON text, in lowercase; no needle is shown by
/// every row.
pub open spec fn row_shows(shape: Shape, row: RowV, needle: Option<Seq<char>>) -> bool {
    needle matches Some(t) ==> (record(shape, row) matches Ok(v) && holds(
        lowercase(canonical(v)),
        lowercase(t),
    ))
}

/// The shape of the records of a view.
pub open spec fn shape_of(view: Seq<char>, shape: Shape) -> bool {
    match shape {
        Shape::ProjectRule => view == "rules"@,
        Shape::Override => view == "overrides"@,
        Shape::History => view == "sync_history"@,
        Shape::Audit => view == "audit_log"@,
        Shape::Plain => view == "projects"@,
        Shape::Rule => false,
    }
}

proof fn lemma_shape(view: Seq<char>, shape: Shape)
    requires
        shape_of(view, shape),
    ensures
        view_shape(view) == shape,
{
    reveal_strlit("rules");
    reveal_strlit("overrides");
    reveal_strlit("sync_history");
    reveal_strlit("audit_log");
    reveal_strlit("projects");
    assert("rules"@.len() == 5 && "overrides"@.len() == 9 && "overrides"@[0] == 'o'
        && "sync_history"@.len() == 12 && "audit_log"@.len() == 9 && "audit_log"@[0] == 'a'
        && "projects"@.len() == 8);
}

proof fn lemma_matching(
    view: Seq<char>,
    rows: Seq<RowV>,
    n: int,
    needle: Option<Seq<char>>,
    limit: int,
)
    requires
        0 <= n <= rows.len(),
        limit >= 0,
        forall|i: int| 0 <= i < rows.len() ==> record(view_shape(view), #[trigger] rows[i]) is Ok,
    ensures
        ({
            let shown = rows.take(n).filter(|r: RowV| row_shows(view_shape(view), r, needle));
            &&& matching_upto(view, rows, n, folded(needle), limit) matches Ok(list) && records_of(
                list,
                view_shape(view),
                if shown.len() <= limit {
                    shown
                } else {
                    shown.take(limit)
                },
            )
        }),
    decreases n,
{
    reveal(Seq::filter);
    let p = |r: RowV| row_shows(view_shape(view), r, needle);
    if n > 0 {
        lemma_matching(view, rows, n - 1, needle, limit);
        let before = rows.take(n - 1).filter(p);
        let shown = rows.take(n).filter(p);
        assert(rows.take(n).drop_last() =~= rows.take(n - 1));
        assert(rows.take(n).last() == rows[n - 1]);
        let row = rows[n - 1];
        assert(record(view_shape(view), row) is Ok);
        let v = record(view_shape(view), row)->Ok_0;
        if let Some(t) = needle {
            lemma_holds(lowercase(canonical(v)), lowercase(t));
        }
        assert(shows(v, folded(needle)) == p(row));
        if p(row) {
            assert(shown == before.push(row));
            if before.len() < limit {
                let list = matching_upto(view, rows, n, folded(needle), limit)->Ok_0;
                assert forall|i: int| 0 <= i < shown.len() implies record(
                    view_shape(view),
                    #[trigger] shown[i],
                ) == Ok::<JsonV, Seq<char>>(list[i]) by {
                    if i < before.len() {
                        assert(shown[i] == before[i]);
                    }
                }
            } else if before.len() == limit {
                assert(shown.take(limit) =~= before);
            } else {
                assert(shown.take(limit) =~= before.take(limit));
            }
        } else {
            assert(shown == before);
        }
    } else {
        assert(rows.take(0).filter(p) =~= Seq::empty());
        if limit == 0 {
            assert(rows.take(0).filter(p).take(0) =~= Seq::empty());
        }
    }
}

/// A view is queried with a limit between one and a thousand. The answer has, of the rows that the
/// database brings, the first ones whose records show what is searched for, in their order and as
/// many as the limit allows.
#[verifier::spinoff_prover]
#[verifier::rlimit(50)]
pub proof fn a_view_shows_what_matches(
    view: Seq<char>,
    shape: Shape,
    scope: Option<Seq<char>>,
    needle: Option<Seq<char>>,
    limit: int,
    l: LocationV,
    home: Option<Seq<char>>,
    cwd: Seq<char>,
    db: Seq<char>,
    rows: Seq<RowV>,
    now: Seq<char>,
)
    requires
        shape_of(view, shape),
        forall|i: int| 0 <= i < rows.len() ==> record(shape, #[trigger] rows[i]) is Ok,
    ensures
        ({
            let first = operation_start(
                OperationV::Query { view, scope, needle, limit },
                l,
                home,
                cwd,
            );
            let last = after_reply(db, first, ReplyV::Rows(rows), now);
            let shown = rows.filter(|r: RowV| row_shows(shape, r, needle));
            if 1 <= limit <= 1000 {
                &&& view_query(view, scope, limit) matches Ok(q) && queries(first, q)
                &&& last matches StepV::Done(Ok(v)) && {
                    &&& field(v, "view"@) == Some(JsonV::Text(view))
                    &&& field(v, "rows"@) matches Some(JsonV::Array(items)) && records_of(
                        items,
                        shape,
                        if shown.len() <= limit {
                            shown
                        } else {
                            shown.take(limit)
                        },
                    )
                }
            } else {
                refuses(first, ErrorCode::InvalidArgument)
            }
        }),
{
    lemma_shape(view, shape);
    if 1 <= limit <= 1000 {
        lemma_matching(view, rows, rows.len() as int, needle, limit);
        assert(rows.take(rows.len() as int) =~= rows);
        let list = matching_upto(view, rows, rows.len() as int, folded(needle), limit)->Ok_0;
        reveal_strlit("view");
        reveal_strlit("rows");
        assert("view"@[0] == 'v' && "rows"@[0] == 'r');
        lemma_detail("view"@, JsonV::Text(view));
        let v0 = detail("view"@, JsonV::Text(view));
        lemma_and_detail(v0, "rows"@, JsonV::Array(list));
        let v1 = and_detail(v0, "rows"@, JsonV::Array(list));
        assert(view_value(view, list) == v1);
    }
}

/// A record of the synchronisation history or of the audit log shows the columns of its row, with
/// the decoded value in place of its JSON text.
pub open spec fn shows_decoded(v: JsonV, row: RowV, from: Seq<char>, to: Seq<char>) -> bool {
    let whole = row_object(row);
    &&& field(whole, from) matches Some(raw) ==> field(v, to) == Some(
        match raw {
            JsonV::Text(t) => match json_document(t) {
                Ok(x) => x,
                Err(_) => JsonV::Null,
            },
            _ => JsonV::Null,
        },
    ) && field(v, from) is None
    &&& forall|name: Seq<char>|
        name != from && name != to ==> #[trigger] field(v, name) == field(whole, name)
}

proof fn lemma_decoded(row: RowV, from: Seq<char>, to: Seq<char>)
    requires
        from != to,
    ensures
        shows_decoded(
            JsonV::Object(crate::rows::decoded(row_entries(row), from, to)),
            row,
            from,
            to,
        ),
{
    let entries = row_entries(row);
    lemma_row_tidy(row);
    if let Some(raw) = lookup(entries, from) {
        let rest = without(entries, from);
        let value = crate::rows::stored_value(
            match raw {
                JsonV::Text(t) => Some(t),
                _ => None,
            },
        );
        assert forall|name: Seq<char>| #[trigger] lookup(put(rest, to, value), name) == (if name
            == to {
            Some(value)
        } else if name == from {
            None
        } else {
            lookup(entries, name)
        }) by {
            put_is_found(rest, to, value, name);
            without_drops(entries, from, name);
        }
        let v = JsonV::Object(put(rest, to, value));
        assert(field(v, to) == lookup(put(rest, to, value), to));
        assert(field(v, from) == lookup(put(rest, to, value), from));
    }
}

/// The records of the history and of the audit log show their rows, with the warnings and the
/// changes decoded; the records of rules that are shown across projects name their projects.
#[verifier::spinoff_prover]
#[verifier::rlimit(50)]
pub proof fn records_of_views_show_their_rows(row: RowV)
    ensures
        record(Shape::Plain, row) == Ok::<JsonV, Seq<char>>(row_object(row)),
        record(Shape::History, row) matches Ok(v) && shows_decoded(
            v,
            row,
            "warnings_json"@,
            "warnings"@,
        ),
        record(Shape::Audit, row) matches Ok(v) && shows_decoded(
            v,
            row,
            "change_json"@,
            "change"@,
        ),
        rule_row(row) && text_in(row, "project_id"@) is Some ==> (record(
            Shape::ProjectRule,
            row,
        ) matches Ok(v) && {
            &&& field(v, "project_id"@) == Some(text_value_in(row, "project_id"@))
            &&& forall|name: Seq<char>|
                name != "project_id"@ ==> #[trigger] field(v, name) == field(
                    record(Shape::Rule, row)->Ok_0,
                    name,
                )
        }),
{
    reveal_strlit("warnings_json");
    reveal_strlit("warnings");
    reveal_strlit("change_json");
    reveal_strlit("change");
    assert("warnings_json"@.len() == 13 && "warnings"@.len() == 8 && "change_json"@.len() == 11
        && "change"@.len() == 6);
    lemma_decoded(row, "warnings_json"@, "warnings"@);
    lemma_decoded(row, "change_json"@, "change"@);
    if rule_row(row) && text_in(row, "project_id"@) is Some {
        a_rule_record_shows_its_row(row);
        let rule = record(Shape::Rule, row)->Ok_0;
        let base = put(Seq::empty(), "project_id"@, text_value_in(row, "project_id"@));
        let entries = rule->Object_0;
        assert(field(rule, "project_id"@) is None) by {
            crate::record_laws::lemma_names_differ();
        }
        assert forall|name: Seq<char>| #[trigger] lookup(crate::rows::merged(base, entries), name)
            == (match lookup(entries, name) {
            Some(v) => Some(v),
            None => lookup(base, name),
        }) by {
            lemma_merged(base, entries, name);
        }
        let v = JsonV::Object(crate::rows::merged(base, entries));
        assert forall|name: Seq<char>| name != "project_id"@ implies #[trigger] field(v, name)
            == field(rule, name) by {
            put_is_found(
                Seq::empty(),
                "project_id"@,
                text_value_in(row, "project_id"@),
                name,
            );
            assert(lookup(Seq::<(Seq<char>, JsonV)>::empty(), name) is None);
            assert(field(v, name) == lookup(crate::rows::merged(base, entries), name));
        }
        put_is_found(
            Seq::empty(),
            "project_id"@,
            text_value_in(row, "project_id"@),
            "project_id"@,
        );
        assert(field(v, "project_id"@) == lookup(
            crate::rows::merged(base, entries),
            "project_id"@,
        ));
    }
}

proof fn lemma_merged(base: Entries, entries: Entries, name: Seq<char>)
    requires
        tidy(JsonV::Object(entries)),
    ensures
        lookup(crate::rows::merged(base, entries), name) == (match lookup(entries, name) {
            Some(v) => Some(v),
            None => lookup(base, name),
        }),
    decreases entries.len(),
{
    if entries.len() > 0 {
        let front = entries.drop_last();
        let last = entries.last();
        assert forall|i: int, j: int| 0 <= i < j < front.len() implies (#[trigger] front[i]).0 != (
        #[trigger] front[j]).0 by {
            assert(front[i] == entries[i] && front[j] == entries[j]);
        }
        lemma_merged(base, front, name);
        put_is_found(crate::rows::merged(base, front), last.0, last.1, name);
        lemma_position(entries, name);
        lemma_position(front, name);
        let n = entries.len() - 1;
        if last.0 == name {
            assert forall|i: int| 0 <= i < n implies (#[trigger] entries[i]).0 != name by {
                assert(entries[i].0 != entries[n as int].0);
            }
            crate::json::lemma_position_is(entries, name, n as int);
        } else {
            let p = position(front, name);
            assert forall|i: int| 0 <= i < p implies (#[trigger] entries[i]).0 != name by {
                assert(front[i] == entries[i]);
            }
            if p < front.len() {
                assert(front[p] == entries[p]);
                crate::json::lemma_position_is(entries, name, p);
            } else {
                assert(entries[n as int].0 != name);
                crate::json::lemma_position_is(entries, name, entries.len() as int);
            }
        }
    } else {
        assert(lookup(entries, name) is None);
    }
}

} // verus!
