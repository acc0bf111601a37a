//! What the records of rules and overrides show of the rows that they are read from.

use vstd::prelude::*;

use crate::errors::{and_detail, detail};
use crate::json::{field, JsonV};
use crate::json_laws::{lemma_and_detail, lemma_detail, tidy};
use crate::json_parse::json_document;
use crate::protocol::{CellV, RowV};
use crate::rows::{
    column, maybe_text, override_columns, record, records, records_upto, rule_columns, stored_value,
    text_column, text_columns, Shape,
};

verus! {

/// The text in a column of a row, where it holds one.
pub open spec fn text_in(row: RowV, name: Seq<char>) -> Option<Seq<char>> {
    match column(row, name) {
        Some(CellV::Text(t)) => Some(t),
        _ => None,
    }
}

/// The JSON value whose text a column of a row holds; null where it holds none.
pub open spec fn value_in(row: RowV, name: Seq<char>) -> JsonV {
    match text_in(row, name) {
        Some(t) => match json_document(t) {
            Ok(v) => v,
            Err(_) => JsonV::Null,
        },
        None => JsonV::Null,
    }
}

/// The text in a column of a row as a value; null where it holds none.
pub open spec fn text_value_in(row: RowV, name: Seq<char>) -> JsonV {
    match text_in(row, name) {
        Some(t) => JsonV::Text(t),
        None => JsonV::Null,
    }
}

/// Whether a column of a row holds a text.
pub open spec fn holds_text(row: RowV, name: Seq<char>) -> bool {
    column(row, name) matches Some(CellV::Text(_))
}

/// Whether a column of a row holds a text or nothing.
pub open spec fn may_hold_text(row: RowV, name: Seq<char>) -> bool {
    holds_text(row, name) || column(row, name) == Some(CellV::Null)
}

/// Whether a row has the columns of a rule.
pub open spec fn rule_row(row: RowV) -> bool {
    &&& holds_text(row, "rule_key"@)
    &&& holds_text(row, "summary"@)
    &&& holds_text(row, "content"@)
    &&& holds_text(row, "tags_json"@)
    &&& holds_text(row, "paths_json"@)
    &&& holds_text(row, "languages_json"@)
    &&& holds_text(row, "source_rule_hash"@)
    &&& column(row, "ordinal"@) matches Some(CellV::Integer(_))
}

/// Whether a row has the columns of an override.
pub open spec fn override_row(row: RowV) -> bool {
    &&& holds_text(row, "project_id"@)
    &&& holds_text(row, "rule_key"@)
    &&& may_hold_text(row, "summary"@)
    &&& may_hold_text(row, "content"@)
    &&& may_hold_text(row, "tags_json"@)
    &&& may_hold_text(row, "paths_json"@)
    &&& may_hold_text(row, "languages_json"@)
    &&& holds_text(row, "base_source_rule_hash"@)
    &&& holds_text(row, "status"@)
    &&& holds_text(row, "reason"@)
    &&& holds_text(row, "created_at"@)
    &&& holds_text(row, "updated_at"@)
}

/// Whether a value shows the columns of a rule row, and nothing else.
pub open spec fn shows_rule_row(v: JsonV, row: RowV) -> bool {
    &&& tidy(v)
    &&& field(v, "key"@) == Some(text_value_in(row, "rule_key"@))
    &&& field(v, "summary"@) == Some(text_value_in(row, "summary"@))
    &&& field(v, "content"@) == Some(text_value_in(row, "content"@))
    &&& field(v, "tags"@) == Some(value_in(row, "tags_json"@))
    &&& field(v, "paths"@) == Some(value_in(row, "paths_json"@))
    &&& field(v, "languages"@) == Some(value_in(row, "languages_json"@))
    &&& field(v, "source_rule_hash"@) == Some(text_value_in(row, "source_rule_hash"@))
    &&& column(row, "ordinal"@) matches Some(CellV::Integer(n)) && field(v, "ordinal"@) == Some(
        JsonV::Int(n),
    )
    &&& forall|name: Seq<char>| #[trigger]
        field(v, name) is Some ==> name == "key"@ || name == "summary"@ || name == "content"@ || name
            == "tags"@ || name == "paths"@ || name == "languages"@ || name == "source_rule_hash"@
            || name == "ordinal"@
}

/// Whether a value shows the columns of an override row, and nothing else.
pub open spec fn shows_override_row(v: JsonV, row: RowV) -> bool {
    &&& tidy(v)
    &&& field(v, "project_id"@) == Some(text_value_in(row, "project_id"@))
    &&& field(v, "rule_key"@) == Some(text_value_in(row, "rule_key"@))
    &&& field(v, "summary"@) == Some(text_value_in(row, "summary"@))
    &&& field(v, "content"@) == Some(text_value_in(row, "content"@))
    &&& field(v, "base_source_rule_hash"@) == Some(text_value_in(row, "base_source_rule_hash"@))
    &&& field(v, "status"@) == Some(text_value_in(row, "status"@))
    &&& field(v, "reason"@) == Some(text_value_in(row, "reason"@))
    &&& field(v, "created_at"@) == Some(text_value_in(row, "created_at"@))
    &&& field(v, "updated_at"@) == Some(text_value_in(row, "updated_at"@))
    &&& field(v, "tags"@) == Some(value_in(row, "tags_json"@))
    &&& field(v, "paths"@) == Some(value_in(row, "paths_json"@))
    &&& field(v, "languages"@) == Some(value_in(row, "languages_json"@))
    &&& forall|name: Seq<char>| #[trigger]
        field(v, name) is Some ==> name == "project_id"@ || name == "rule_key"@ || name
            == "summary"@ || name == "content"@ || name == "base_source_rule_hash"@ || name
            == "status"@ || name == "reason"@ || name == "created_at"@ || name == "updated_at"@
            || name == "tags"@ || name == "paths"@ || name == "languages"@
}

/// The names of fields differ: by their lengths, or by their first characters.
pub proof fn lemma_names_differ()
    ensures
        "key"@.len() == 3 && "key"@[0] == 'k',
        "tags"@.len() == 4 && "tags"@[0] == 't',
        "paths"@.len() == 5 && "paths"@[0] == 'p',
        "status"@.len() == 6 && "status"@[0] == 's',
        "reason"@.len() == 6 && "reason"@[0] == 'r',
        "summary"@.len() == 7 && "summary"@[0] == 's',
        "content"@.len() == 7 && "content"@[0] == 'c',
        "ordinal"@.len() == 7 && "ordinal"@[0] == 'o',
        "rule_key"@.len() == 8 && "rule_key"@[0] == 'r',
        "languages"@.len() == 9 && "languages"@[0] == 'l',
        "project_id"@.len() == 10 && "project_id"@[0] == 'p',
        "created_at"@.len() == 10 && "created_at"@[0] == 'c',
        "updated_at"@.len() == 10 && "updated_at"@[0] == 'u',
        "source_rule_hash"@.len() == 16 && "source_rule_hash"@[0] == 's',
        "base_source_rule_hash"@.len() == 21 && "base_source_rule_hash"@[0] == 'b',
{
    reveal_strlit("key");
    reveal_strlit("tags");
    reveal_strlit("paths");
    reveal_strlit("status");
    reveal_strlit("reason");
    reveal_strlit("summary");
    reveal_strlit("content");
    reveal_strlit("ordinal");
    reveal_strlit("rule_key");
    reveal_strlit("languages");
    reveal_strlit("project_id");
    reveal_strlit("created_at");
    reveal_strlit("updated_at");
    reveal_strlit("source_rule_hash");
    reveal_strlit("base_source_rule_hash");
}

proof fn lemma_columns(row: RowV, names: Seq<(Seq<char>, bool)>)
    ensures
        text_columns(row, names) is Ok <==> (forall|i: int|
            0 <= i < names.len() ==> text_column(row, (#[trigger] names[i]).0, names[i].1) is Ok),
        text_columns(row, names) matches Ok(list) ==> list.len() == names.len() && forall|i: int|
            0 <= i < names.len() ==> text_column(row, (#[trigger] names[i]).0, names[i].1) == Ok::<
                Option<Seq<char>>,
                Seq<char>,
            >(list[i]),
    decreases names.len(),
{
    if names.len() > 0 {
        let front = names.drop_last();
        let n = names.len() - 1;
        lemma_columns(row, front);
        assert forall|i: int| 0 <= i < n implies #[trigger] front[i] == names[i] by {}
        if text_columns(row, names) is Ok {
            assert forall|i: int| 0 <= i < names.len() implies text_column(
                row,
                (#[trigger] names[i]).0,
                names[i].1,
            ) == Ok::<Option<Seq<char>>, Seq<char>>(text_columns(row, names)->Ok_0[i]) by {
                if i < n {
                    assert(front[i] == names[i]);
                }
            }
        }
        if forall|i: int|
            0 <= i < names.len() ==> text_column(row, (#[trigger] names[i]).0, names[i].1) is Ok {
            assert forall|i: int| 0 <= i < front.len() implies text_column(
                row,
                (#[trigger] front[i]).0,
                front[i].1,
            ) is Ok by {
                assert(front[i] == names[i]);
            }
            assert(text_column(row, names[n as int].0, names[n as int].1) is Ok);
        }
    }
}

/// A rule row can be read exactly where it has the columns of a rule, and its record shows them.
pub proof fn a_rule_record_shows_its_row(row: RowV)
    ensures
        record(Shape::Rule, row) is Ok <==> rule_row(row),
        record(Shape::Rule, row) matches Ok(v) ==> shows_rule_row(v, row),
{
    let names = rule_columns();
    lemma_columns(row, names);
    assert(names[0] == ("tags_json"@, false));
    assert(names[1] == ("paths_json"@, false));
    assert(names[2] == ("languages_json"@, false));
    assert(names[3] == ("rule_key"@, false));
    assert(names[4] == ("summary"@, false));
    assert(names[5] == ("content"@, false));
    assert(names[6] == ("source_rule_hash"@, false));
    if rule_row(row) {
        assert forall|i: int| 0 <= i < names.len() implies text_column(
            row,
            (#[trigger] names[i]).0,
            names[i].1,
        ) is Ok by {
            assert(i == 0 || i == 1 || i == 2 || i == 3 || i == 4 || i == 5 || i == 6);
        }
    }
    if record(Shape::Rule, row) is Ok {
        let t = text_columns(row, names)->Ok_0;
        let n = column(row, "ordinal"@)->0->Integer_0;
        lemma_names_differ();
        lemma_detail("key"@, maybe_text(t[3]));
        let v0 = detail("key"@, maybe_text(t[3]));
        lemma_and_detail(v0, "summary"@, maybe_text(t[4]));
        let v1 = and_detail(v0, "summary"@, maybe_text(t[4]));
        lemma_and_detail(v1, "content"@, maybe_text(t[5]));
        let v2 = and_detail(v1, "content"@, maybe_text(t[5]));
        lemma_and_detail(v2, "tags"@, stored_value(t[0]));
        let v3 = and_detail(v2, "tags"@, stored_value(t[0]));
        lemma_and_detail(v3, "paths"@, stored_value(t[1]));
        let v4 = and_detail(v3, "paths"@, stored_value(t[1]));
        lemma_and_detail(v4, "languages"@, stored_value(t[2]));
        let v5 = and_detail(v4, "languages"@, stored_value(t[2]));
        lemma_and_detail(v5, "source_rule_hash"@, maybe_text(t[6]));
        let v6 = and_detail(v5, "source_rule_hash"@, maybe_text(t[6]));
        lemma_and_detail(v6, "ordinal"@, JsonV::Int(n));
        let v7 = and_detail(v6, "ordinal"@, JsonV::Int(n));
        assert(record(Shape::Rule, row)->Ok_0 == v7);
    }
}

/// An override row can be read exactly where it has the columns of an override, and its record
/// shows them.
pub proof fn an_override_record_shows_its_row(row: RowV)
    ensures
        record(Shape::Override, row) is Ok <==> override_row(row),
        record(Shape::Override, row) matches Ok(v) ==> shows_override_row(v, row),
{
    let names = override_columns();
    lemma_columns(row, names);
    assert(names[0] == ("tags_json"@, true));
    assert(names[1] == ("paths_json"@, true));
    assert(names[2] == ("languages_json"@, true));
    assert(names[3] == ("project_id"@, false));
    assert(names[4] == ("rule_key"@, false));
    assert(names[5] == ("summary"@, true));
    assert(names[6] == ("content"@, true));
    assert(names[7] == ("base_source_rule_hash"@, false));
    assert(names[8] == ("status"@, false));
    assert(names[9] == ("reason"@, false));
    assert(names[10] == ("created_at"@, false));
    assert(names[11] == ("updated_at"@, false));
    if override_row(row) {
        assert forall|i: int| 0 <= i < names.len() implies text_column(
            row,
            (#[trigger] names[i]).0,
            names[i].1,
        ) is Ok by {
            assert(i == 0 || i == 1 || i == 2 || i == 3 || i == 4 || i == 5 || i == 6 || i == 7 || i
                == 8 || i == 9 || i == 10 || i == 11);
        }
    }
    if record(Shape::Override, row) is Ok {
        let t = text_columns(row, names)->Ok_0;
        lemma_names_differ();
        lemma_detail("project_id"@, maybe_text(t[3]));
        let v0 = detail("project_id"@, maybe_text(t[3]));
        lemma_and_detail(v0, "rule_key"@, maybe_text(t[4]));
        let v1 = and_detail(v0, "rule_key"@, maybe_text(t[4]));
        lemma_and_detail(v1, "summary"@, maybe_text(t[5]));
        let v2 = and_detail(v1, "summary"@, maybe_text(t[5]));
        lemma_and_detail(v2, "content"@, maybe_text(t[6]));
        let v3 = and_detail(v2, "content"@, maybe_text(t[6]));
        lemma_and_detail(v3, "base_source_rule_hash"@, maybe_text(t[7]));
        let v4 = and_detail(v3, "base_source_rule_hash"@, maybe_text(t[7]));
        lemma_and_detail(v4, "status"@, maybe_text(t[8]));
        let v5 = and_detail(v4, "status"@, maybe_text(t[8]));
        lemma_and_detail(v5, "reason"@, maybe_text(t[9]));
        let v6 = and_detail(v5, "reason"@, maybe_text(t[9]));
        lemma_and_detail(v6, "created_at"@, maybe_text(t[10]));
        let v7 = and_detail(v6, "created_at"@, maybe_text(t[10]));
        lemma_and_detail(v7, "updated_at"@, maybe_text(t[11]));
        let v8 = and_detail(v7, "updated_at"@, maybe_text(t[11]));
        lemma_and_detail(v8, "tags"@, stored_value(t[0]));
        let v9 = and_detail(v8, "tags"@, stored_value(t[0]));
        lemma_and_detail(v9, "paths"@, stored_value(t[1]));
        let v10 = and_detail(v9, "paths"@, stored_value(t[1]));
        lemma_and_detail(v10, "languages"@, stored_value(t[2]));
        let v11 = and_detail(v10, "languages"@, stored_value(t[2]));
        assert(record(Shape::Override, row)->Ok_0 == v11);
    }
}

proof fn lemma_upto(shape: Shape, rows: Seq<RowV>, n: int)
    requires
        0 <= n <= rows.len(),
    ensures
        records_upto(shape, rows, n) is Ok <==> (forall|i: int|
            0 <= i < n ==> record(shape, #[trigger] rows[i]) is Ok),
        records_upto(shape, rows, n) matches Ok(list) ==> list.len() == n && forall|i: int|
            0 <= i < n ==> record(shape, #[trigger] rows[i]) == Ok::<JsonV, Seq<char>>(list[i]),
    decreases n,
{
    if n > 0 {
        lemma_upto(shape, rows, n - 1);
        if forall|i: int| 0 <= i < n ==> record(shape, #[trigger] rows[i]) is Ok {
            assert(record(shape, rows[n - 1]) is Ok);
        }
    }
}

/// Rows are read one by one, in their order, and none is left out; where one cannot be read, none
/// is.
pub proof fn records_stand_for_their_rows(shape: Shape, rows: Seq<RowV>)
    ensures
        records(shape, rows) is Ok <==> (forall|i: int|
            0 <= i < rows.len() ==> record(shape, #[trigger] rows[i]) is Ok),
        records(shape, rows) matches Ok(list) ==> list.len() == rows.len() && forall|i: int|
            0 <= i < rows.len() ==> record(shape, #[trigger] rows[i]) == Ok::<JsonV, Seq<char>>(
                list[i],
            ),
{
    lemma_upto(shape, rows, rows.len() as int);
}

} // verus!
