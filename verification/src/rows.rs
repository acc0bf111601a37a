//! Database rows as the records that callers see.

use vstd::prelude::*;

use crate::errors::{and_detail, detail};
use crate::json::{entries_view, field, insert, items_view, put, texts, Entries, Json, JsonV};
use crate::json_laws::{lemma_sorted_fits, lemma_storable_texts, lemma_texts_sorted, storable};
use crate::json_parse::{fits, json_document, parse_json};
use crate::json_util::{canonical, canonical_json, decimal, json_text, sorted, to_text};
use crate::models::RuleV;
use crate::protocol::{row_view, rows_view, Cell, CellV, Row, RowV};
use crate::text::{ascii_folded, contains, fold_ascii, lowercase, occurs, same};

verus! {

broadcast use crate::json::group_json;

/// A cell as JSON. A float without JSON text and a blob become null.
pub open spec fn cell_value(c: CellV) -> JsonV {
    match c {
        CellV::Null => JsonV::Null,
        CellV::Integer(n) => JsonV::Int(n),
        CellV::Real(Some(t)) => JsonV::Real(t),
        CellV::Real(None) => JsonV::Null,
        CellV::Text(t) => JsonV::Text(t),
        CellV::Garbled(t, _) => JsonV::Text(t),
        CellV::Blob => JsonV::Null,
    }
}

/// The columns of a row as entries of an object.
pub open spec fn row_entries(row: RowV) -> Entries
    decreases row.len(),
{
    if row.len() == 0 {
        Seq::empty()
    } else {
        put(row_entries(row.drop_last()), row.last().0, cell_value(row.last().1))
    }
}

/// A row as an object, one entry for each column.
pub open spec fn row_object(row: RowV) -> JsonV {
    JsonV::Object(row_entries(row))
}

fn cell_json(c: &Cell) -> (r: Json)
    ensures
        r@ == cell_value(c@),
{
    match c {
        Cell::Null => Json::Null,
        Cell::Integer(n) => Json::Int(*n),
        Cell::Real(Some(t)) => Json::Real(t.clone()),
        Cell::Real(None) => Json::Null,
        Cell::Text(t) => Json::Text(t.clone()),
        Cell::Garbled(t, _) => Json::Text(t.clone()),
        Cell::Blob => Json::Null,
    }
}

/// A row as an object, one entry for each column.
pub fn row_to_object(row: &Row) -> (r: Json)
    ensures
        r@ == row_object(row_view(row@)),
{
    let ghost all = row_view(row@);
    let mut entries: Vec<(String, Json)> = Vec::new();
    let mut i: usize = 0;
    proof {
        assert(all.take(0) =~= Seq::empty());
        assert(entries_view(entries@) =~= Seq::empty());
    }
    while i < row.len()
        invariant
            i <= row@.len(),
            all == row_view(row@),
            entries_view(entries@) == row_entries(all.take(i as int)),
        decreases row@.len() - i,
    {
        proof {
            assert(all.take(i + 1).drop_last() =~= all.take(i as int));
            assert(all.take(i + 1).last() == (row@[i as int].0@, row@[i as int].1@));
        }
        insert(&mut entries, row[i].0.as_str(), cell_json(&row[i].1));
        i += 1;
    }
    assert(all.take(i as int) =~= all);
    Json::Object(entries)
}

/// The first column named `name`.
pub open spec fn column(row: RowV, name: Seq<char>) -> Option<CellV>
    decreases row.len(),
{
    if row.len() == 0 {
        None
    } else if row[0].0 == name {
        Some(row[0].1)
    } else {
        column(row.drop_first(), name)
    }
}

/// Where the first column named `name` stands; the number of columns where there is none.
pub open spec fn column_index(row: RowV, name: Seq<char>) -> int
    decreases row.len(),
{
    if row.len() == 0 || row[0].0 == name {
        0
    } else {
        1 + column_index(row.drop_first(), name)
    }
}

fn find_column<'a>(row: &'a Row, name: &str) -> (r: Option<(usize, &'a Cell)>)
    ensures
        match r {
            Some((i, c)) => column(row_view(row@), name@) == Some(c@) && i == column_index(
                row_view(row@),
                name@,
            ),
            None => column(row_view(row@), name@) is None,
        },
{
    let ghost all = row_view(row@);
    let mut i: usize = 0;
    assert(all.skip(0) =~= all);
    while i < row.len()
        invariant
            i <= row@.len(),
            all == row_view(row@),
            column(all, name@) == column(all.skip(i as int), name@),
            column_index(all, name@) == i + column_index(all.skip(i as int), name@),
        decreases row@.len() - i,
    {
        proof {
            assert(all.skip(i as int)[0] == all[i as int]);
            assert(all.skip(i as int).drop_first() =~= all.skip(i + 1));
        }
        if same(row[i].0.as_str(), name) {
            return Some((i, &row[i].1));
        }
        i += 1;
    }
    None
}

/// The name of the type of a cell.
pub open spec fn cell_kind(c: CellV) -> Seq<char> {
    match c {
        CellV::Null => "Null"@,
        CellV::Integer(_) => "Integer"@,
        CellV::Real(_) => "Real"@,
        CellV::Text(_) => "Text"@,
        CellV::Garbled(_, _) => "Text"@,
        CellV::Blob => "Blob"@,
    }
}

fn kind_of(c: &Cell) -> (r: String)
    ensures
        r@ == cell_kind(c@),
{
    match c {
        Cell::Null => "Null".to_string(),
        Cell::Integer(_) => "Integer".to_string(),
        Cell::Real(_) => "Real".to_string(),
        Cell::Text(_) => "Text".to_string(),
        Cell::Garbled(_, _) => "Text".to_string(),
        Cell::Blob => "Blob".to_string(),
    }
}

/// The diagnostic for a cell of another type than is wanted.
pub open spec fn mistyped(c: CellV, index: int, name: Seq<char>) -> Seq<char> {
    "Invalid column type "@ + cell_kind(c) + " at index: "@ + decimal(index) + ", name: "@ + name
}

/// The diagnostic for a cell of another type than is wanted.
pub fn wrong_kind(c: &Cell, index: usize, name: &str) -> (r: String)
    ensures
        r@ == mistyped(c@, index as int, name@),
{
    let mut r = "Invalid column type ".to_string();
    r.push_str(kind_of(c).as_str());
    r.push_str(" at index: ");
    r.push_str(to_text(&Json::UInt(index as u64)).as_str());
    r.push_str(", name: ");
    r.push_str(name);
    r
}

/// The diagnostic for a cell that is no text.
pub open spec fn no_text(c: CellV, index: int, name: Seq<char>) -> Seq<char> {
    match c {
        CellV::Garbled(_, e) => "Conversion error from type Text at index: "@ + decimal(index)
            + ", "@ + e,
        _ => mistyped(c, index, name),
    }
}

/// The diagnostic for a cell that is no text.
pub fn no_text_in(c: &Cell, index: usize, name: &str) -> (r: String)
    ensures
        r@ == no_text(c@, index as int, name@),
{
    match c {
        Cell::Garbled(_, e) => {
            let mut r = "Conversion error from type Text at index: ".to_string();
            r.push_str(to_text(&Json::UInt(index as u64)).as_str());
            r.push_str(", ");
            r.push_str(e.as_str());
            r
        },
        _ => wrong_kind(c, index, name),
    }
}

/// The diagnostic for a column that is missing.
pub open spec fn no_column(name: Seq<char>) -> Seq<char> {
    "Invalid column name: "@ + name
}

fn column_missing(name: &str) -> (r: String)
    ensures
        r@ == no_column(name@),
{
    let mut r = "Invalid column name: ".to_string();
    r.push_str(name);
    r
}

/// The text in a column; null is allowed where `optional` says so.
pub open spec fn text_column(row: RowV, name: Seq<char>, optional: bool) -> Result<
    Option<Seq<char>>,
    Seq<char>,
> {
    match column(row, name) {
        Some(CellV::Text(t)) => Ok(Some(t)),
        Some(CellV::Null) => if optional {
            Ok(None)
        } else {
            Err(no_text(CellV::Null, column_index(row, name), name))
        },
        Some(c) => Err(no_text(c, column_index(row, name), name)),
        None => Err(no_column(name)),
    }
}

/// A column's text as a value of views.
pub open spec fn text_view(r: Result<Option<String>, String>) -> Result<
    Option<Seq<char>>,
    Seq<char>,
> {
    match r {
        Ok(t) => Ok(crate::path_util::optional_text(t)),
        Err(e) => Err(e@),
    }
}

fn get_text(row: &Row, name: &str, optional: bool) -> (r: Result<Option<String>, String>)
    ensures
        text_view(r) == text_column(row_view(row@), name@, optional),
{
    match find_column(row, name) {
        Some((i, c)) => match c {
            Cell::Text(t) => Ok(Some(t.clone())),
            Cell::Null => if optional {
                Ok(None)
            } else {
                Err(no_text_in(c, i, name))
            },
            _ => Err(no_text_in(c, i, name)),
        },
        None => Err(column_missing(name)),
    }
}

/// The texts of some columns, in order, or the diagnostic of the first that fails.
pub open spec fn text_columns(row: RowV, names: Seq<(Seq<char>, bool)>) -> Result<
    Seq<Option<Seq<char>>>,
    Seq<char>,
>
    decreases names.len(),
{
    if names.len() == 0 {
        Ok(Seq::empty())
    } else {
        match text_columns(row, names.drop_last()) {
            Err(e) => Err(e),
            Ok(list) => match text_column(row, names.last().0, names.last().1) {
                Err(e) => Err(e),
                Ok(t) => Ok(list.push(t)),
            },
        }
    }
}

/// The views of a list of optional texts.
pub open spec fn options(list: Seq<Option<String>>) -> Seq<Option<Seq<char>>> {
    list.map_values(|t: Option<String>| crate::path_util::optional_text(t))
}

/// Column names with what each allows, as a value of views.
pub open spec fn wanted(names: Seq<(String, bool)>) -> Seq<(Seq<char>, bool)> {
    names.map_values(|n: (String, bool)| (n.0@, n.1))
}

proof fn lemma_columns_fail(row: RowV, names: Seq<(Seq<char>, bool)>, n: int)
    requires
        0 <= n <= names.len(),
        text_columns(row, names.take(n)) is Err,
    ensures
        text_columns(row, names) == text_columns(row, names.take(n)),
    decreases names.len() - n,
{
    if n < names.len() {
        assert(names.take(n + 1).drop_last() =~= names.take(n));
        lemma_columns_fail(row, names, n + 1);
    } else {
        assert(names.take(n) =~= names);
    }
}

fn get_texts(row: &Row, names: &Vec<(String, bool)>) -> (r: Result<Vec<Option<String>>, String>)
    ensures
        match r {
            Ok(list) => text_columns(row_view(row@), wanted(names@)) == Ok::<
                Seq<Option<Seq<char>>>,
                Seq<char>,
            >(options(list@)) && list@.len() == names@.len(),
            Err(e) => text_columns(row_view(row@), wanted(names@)) == Err::<
                Seq<Option<Seq<char>>>,
                Seq<char>,
            >(e@),
        },
{
    let ghost all = wanted(names@);
    let ghost rv = row_view(row@);
    let mut list: Vec<Option<String>> = Vec::new();
    let mut i: usize = 0;
    proof {
        assert(all.take(0) =~= Seq::empty());
        assert(options(list@) =~= Seq::empty());
    }
    while i < names.len()
        invariant
            i <= names@.len(),
            all == wanted(names@),
            rv == row_view(row@),
            list@.len() == i,
            text_columns(rv, all.take(i as int)) == Ok::<Seq<Option<Seq<char>>>, Seq<char>>(
                options(list@),
            ),
        decreases names@.len() - i,
    {
        proof {
            assert(all.take(i + 1).drop_last() =~= all.take(i as int));
            assert(all.take(i + 1).last() == (names@[i as int].0@, names@[i as int].1));
        }
        match get_text(row, names[i].0.as_str(), names[i].1) {
            Ok(t) => {
                let ghost before = list@;
                let ghost tv = crate::path_util::optional_text(t);
                list.push(t);
                assert(options(list@) =~= options(before).push(tv));
            },
            Err(e) => {
                proof {
                    lemma_columns_fail(rv, all, i + 1);
                }
                return Err(e);
            },
        }
        i += 1;
    }
    assert(all.take(i as int) =~= all);
    Ok(list)
}

/// The value of a stored JSON text; null where there is none or it does not parse.
pub open spec fn stored_value(raw: Option<Seq<char>>) -> JsonV {
    match raw {
        None => JsonV::Null,
        Some(text) => match json_document(text) {
            Ok(v) => v,
            Err(_) => JsonV::Null,
        },
    }
}

/// The value of a stored JSON text. The canonical text of a value that can be stored gives that
/// value back, with its names in order.
pub fn json_array_or_null(raw: &Option<String>) -> (r: Json)
    ensures
        r@ == stored_value(crate::path_util::optional_text(*raw)),
        forall|v: JsonV|
            crate::path_util::optional_text(*raw) == Some(#[trigger] canonical(v)) && storable(
                v,
                127,
            ) ==> r@ == sorted(v),
{
    match raw {
        None => Json::Null,
        Some(text) => {
            proof {
                assert forall|v: JsonV|
                    text@ == #[trigger] canonical(v) && storable(v, 127) implies text@ == json_text(
                    sorted(v),
                ) && fits(sorted(v), 127) by {
                    lemma_sorted_fits(v, 127);
                }
            }
            match parse_json(text.as_str()) {
                Ok(v) => v,
                Err(_) => Json::Null,
            }
        },
    }
}

/// A text or null.
pub open spec fn maybe_text(t: Option<Seq<char>>) -> JsonV {
    match t {
        Some(t) => JsonV::Text(t),
        None => JsonV::Null,
    }
}

fn text_or_null(t: &Option<String>) -> (r: Json)
    ensures
        r@ == maybe_text(crate::path_util::optional_text(*t)),
{
    match t {
        Some(t) => Json::Text(t.clone()),
        None => Json::Null,
    }
}

/// The text columns of a rule, in the order in which they are read.
pub open spec fn rule_columns() -> Seq<(Seq<char>, bool)> {
    seq![
        ("tags_json"@, false),
        ("paths_json"@, false),
        ("languages_json"@, false),
        ("rule_key"@, false),
        ("summary"@, false),
        ("content"@, false),
        ("source_rule_hash"@, false),
    ]
}

/// The text columns of an override, in the order in which they are read.
pub open spec fn override_columns() -> Seq<(Seq<char>, bool)> {
    seq![
        ("tags_json"@, true),
        ("paths_json"@, true),
        ("languages_json"@, true),
        ("project_id"@, false),
        ("rule_key"@, false),
        ("summary"@, true),
        ("content"@, true),
        ("base_source_rule_hash"@, false),
        ("status"@, false),
        ("reason"@, false),
        ("created_at"@, false),
        ("updated_at"@, false),
    ]
}

fn names(list: &[(&str, bool)]) -> (r: Vec<(String, bool)>)
    ensures
        r@.len() == list@.len(),
        forall|i: int|
            0 <= i < list@.len() ==> (#[trigger] r@[i]).0@ == list@[i].0@ && r@[i].1 == list@[i].1,
{
    let mut out: Vec<(String, bool)> = Vec::new();
    let mut i: usize = 0;
    while i < list.len()
        invariant
            i <= list@.len(),
            out@.len() == i,
            forall|k: int|
                0 <= k < i ==> (#[trigger] out@[k]).0@ == list@[k].0@ && out@[k].1 == list@[k].1,
        decreases list@.len() - i,
    {
        out.push((list[i].0.to_string(), list[i].1));
        i += 1;
    }
    out
}

/// The record of a rule row.
pub open spec fn rule_record(row: RowV) -> Result<JsonV, Seq<char>> {
    match text_columns(row, rule_columns()) {
        Err(e) => Err(e),
        Ok(t) => match column(row, "ordinal"@) {
            Some(CellV::Integer(n)) => Ok(
                and_detail(
                    and_detail(
                        and_detail(
                            and_detail(
                                and_detail(
                                    and_detail(
                                        and_detail(
                                            detail("key"@, maybe_text(t[3])),
                                            "summary"@,
                                            maybe_text(t[4]),
                                        ),
                                        "content"@,
                                        maybe_text(t[5]),
                                    ),
                                    "tags"@,
                                    stored_value(t[0]),
                                ),
                                "paths"@,
                                stored_value(t[1]),
                            ),
                            "languages"@,
                            stored_value(t[2]),
                        ),
                        "source_rule_hash"@,
                        maybe_text(t[6]),
                    ),
                    "ordinal"@,
                    JsonV::Int(n),
                ),
            ),
            Some(c) => Err(mistyped(c, column_index(row, "ordinal"@), "ordinal"@)),
            None => Err(no_column("ordinal"@)),
        },
    }
}

/// Whether a row holds a rule as it is written.
pub open spec fn holds_rule(row: RowV, rule: RuleV, ordinal: int) -> bool {
    &&& column(row, "rule_key"@) == Some(CellV::Text(rule.key))
    &&& column(row, "ordinal"@) == Some(CellV::Integer(ordinal))
    &&& column(row, "summary"@) == Some(CellV::Text(rule.summary))
    &&& column(row, "content"@) == Some(CellV::Text(rule.content))
    &&& column(row, "tags_json"@) == Some(CellV::Text(canonical(texts(rule.tags))))
    &&& column(row, "paths_json"@) == Some(CellV::Text(canonical(texts(rule.paths))))
    &&& column(row, "languages_json"@) == Some(CellV::Text(canonical(texts(rule.languages))))
    &&& column(row, "source_rule_hash"@) == Some(CellV::Text(rule.source_rule_hash))
}

/// The record of a rule.
pub open spec fn rule_shown(rule: RuleV, ordinal: int) -> JsonV {
    and_detail(
        and_detail(
            and_detail(
                and_detail(
                    and_detail(
                        and_detail(
                            and_detail(
                                detail("key"@, JsonV::Text(rule.key)),
                                "summary"@,
                                JsonV::Text(rule.summary),
                            ),
                            "content"@,
                            JsonV::Text(rule.content),
                        ),
                        "tags"@,
                        texts(rule.tags),
                    ),
                    "paths"@,
                    texts(rule.paths),
                ),
                "languages"@,
                texts(rule.languages),
            ),
            "source_rule_hash"@,
            JsonV::Text(rule.source_rule_hash),
        ),
        "ordinal"@,
        JsonV::Int(ordinal),
    )
}

/// Columns that can be read are read one by one.
proof fn lemma_columns(row: RowV, names: Seq<(Seq<char>, bool)>)
    requires
        forall|i: int|
            0 <= i < names.len() ==> text_column(row, (#[trigger] names[i]).0, names[i].1) is Ok,
    ensures
        text_columns(row, names) matches Ok(list) && list.len() == names.len() && forall|i: int|
            0 <= i < names.len() ==> text_column(row, (#[trigger] names[i]).0, names[i].1) == Ok::<
                Option<Seq<char>>,
                Seq<char>,
            >(list[i]),
    decreases names.len(),
{
    if names.len() > 0 {
        let head = names.drop_last();
        assert forall|i: int| 0 <= i < head.len() implies text_column(
            row,
            (#[trigger] head[i]).0,
            head[i].1,
        ) is Ok by {
            assert(head[i] == names[i]);
        }
        lemma_columns(row, head);
        let last = names[names.len() - 1];
        assert(text_column(row, last.0, last.1) is Ok);
        let list = text_columns(row, names)->Ok_0;
        assert forall|i: int| 0 <= i < names.len() implies text_column(
            row,
            (#[trigger] names[i]).0,
            names[i].1,
        ) == Ok::<Option<Seq<char>>, Seq<char>>(list[i]) by {
            if i < head.len() {
                assert(head[i] == names[i]);
            }
        }
    }
}

/// The columns of a row that holds a rule.
proof fn lemma_rule_columns(row: RowV, rule: RuleV, ordinal: int)
    requires
        holds_rule(row, rule, ordinal),
    ensures
        text_columns(row, rule_columns()) == Ok::<Seq<Option<Seq<char>>>, Seq<char>>(
            seq![
                Some(canonical(texts(rule.tags))),
                Some(canonical(texts(rule.paths))),
                Some(canonical(texts(rule.languages))),
                Some(rule.key),
                Some(rule.summary),
                Some(rule.content),
                Some(rule.source_rule_hash),
            ],
        ),
{
    let names = rule_columns();
    assert(names[0] == ("tags_json"@, false) && names[1] == ("paths_json"@, false) && names[2] == (
        "languages_json"@,
        false,
    ) && names[3] == ("rule_key"@, false));
    assert(names[4] == ("summary"@, false) && names[5] == ("content"@, false) && names[6] == (
        "source_rule_hash"@,
        false,
    ));
    assert forall|i: int| 0 <= i < names.len() implies text_column(
        row,
        (#[trigger] names[i]).0,
        names[i].1,
    ) is Ok by {
        if i == 0 {
        } else if i == 1 {
        } else if i == 2 {
        } else if i == 3 {
        } else if i == 4 {
        } else if i == 5 {
        } else {
        }
    }
    lemma_columns(row, names);
    let list = text_columns(row, names)->Ok_0;
    assert(list =~= seq![
        Some(canonical(texts(rule.tags))),
        Some(canonical(texts(rule.paths))),
        Some(canonical(texts(rule.languages))),
        Some(rule.key),
        Some(rule.summary),
        Some(rule.content),
        Some(rule.source_rule_hash),
    ]) by {
        assert(text_column(row, names[0].0, names[0].1) is Ok);
        assert(text_column(row, names[1].0, names[1].1) is Ok);
        assert(text_column(row, names[2].0, names[2].1) is Ok);
        assert(text_column(row, names[3].0, names[3].1) is Ok);
        assert(text_column(row, names[4].0, names[4].1) is Ok);
        assert(text_column(row, names[5].0, names[5].1) is Ok);
        assert(text_column(row, names[6].0, names[6].1) is Ok);
    }
}

/// A record as a value of views.
pub open spec fn record_view(r: Result<Json, String>) -> Result<JsonV, Seq<char>> {
    match r {
        Ok(v) => Ok(v@),
        Err(e) => Err(e@),
    }
}

/// The record of a rule row. A row that holds a rule gives that rule back.
pub fn rule_dict(row: &Row) -> (r: Result<Json, String>)
    ensures
        record_view(r) == rule_record(row_view(row@)),
        forall|rule: RuleV, ordinal: int| #[trigger]
            holds_rule(row_view(row@), rule, ordinal) ==> record_view(r) == Ok::<JsonV, Seq<char>>(
                rule_shown(rule, ordinal),
            ),
{
    let columns = names(
        &[
            ("tags_json", false),
            ("paths_json", false),
            ("languages_json", false),
            ("rule_key", false),
            ("summary", false),
            ("content", false),
            ("source_rule_hash", false),
        ],
    );
    assert(wanted(columns@) =~= rule_columns());
    let t = match get_texts(row, &columns) {
        Ok(t) => t,
        Err(e) => {
            proof {
                let rv = row_view(row@);
                assert forall|rule: RuleV, n: int| !(#[trigger] holds_rule(rv, rule, n)) by {
                    if holds_rule(rv, rule, n) {
                        lemma_rule_columns(rv, rule, n);
                    }
                }
            }
            return Err(e);
        },
    };
    let ordinal: i64 = match find_column(row, "ordinal") {
        Some((i, c)) => match c {
            Cell::Integer(n) => *n,
            _ => return Err(wrong_kind(c, i, "ordinal")),
        },
        None => return Err(column_missing("ordinal")),
    };
    let tags = json_array_or_null(&t[0]);
    let paths = json_array_or_null(&t[1]);
    let languages = json_array_or_null(&t[2]);
    proof {
        let rv = row_view(row@);
        assert forall|rule: RuleV, n: int| #[trigger] holds_rule(rv, rule, n) implies rule_record(rv)
            == Ok::<JsonV, Seq<char>>(rule_shown(rule, n)) by {
            lemma_rule_columns(rv, rule, n);
            lemma_texts_sorted(rule.tags);
            lemma_texts_sorted(rule.paths);
            lemma_texts_sorted(rule.languages);
            lemma_storable_texts(rule.tags, 127);
            lemma_storable_texts(rule.paths, 127);
            lemma_storable_texts(rule.languages, 127);
            assert(options(t@)[0] == Some(canonical(texts(rule.tags))));
            assert(options(t@)[1] == Some(canonical(texts(rule.paths))));
            assert(options(t@)[2] == Some(canonical(texts(rule.languages))));
        }
    }
    Ok(
        Json::object().with("key", text_or_null(&t[3])).with("summary", text_or_null(&t[4])).with(
            "content",
            text_or_null(&t[5]),
        ).with("tags", tags).with("paths", paths).with("languages", languages).with(
            "source_rule_hash",
            text_or_null(&t[6]),
        ).with("ordinal", Json::Int(ordinal)),
    )
}

/// The record of an override row.
pub open spec fn override_record(row: RowV) -> Result<JsonV, Seq<char>> {
    match text_columns(row, override_columns()) {
        Err(e) => Err(e),
        Ok(t) => {
            let head = and_detail(
                and_detail(
                    and_detail(
                        and_detail(
                            and_detail(
                                detail("project_id"@, maybe_text(t[3])),
                                "rule_key"@,
                                maybe_text(t[4]),
                            ),
                            "summary"@,
                            maybe_text(t[5]),
                        ),
                        "content"@,
                        maybe_text(t[6]),
                    ),
                    "base_source_rule_hash"@,
                    maybe_text(t[7]),
                ),
                "status"@,
                maybe_text(t[8]),
            );
            Ok(
                and_detail(
                    and_detail(
                        and_detail(
                            and_detail(
                                and_detail(
                                    and_detail(head, "reason"@, maybe_text(t[9])),
                                    "created_at"@,
                                    maybe_text(t[10]),
                                ),
                                "updated_at"@,
                                maybe_text(t[11]),
                            ),
                            "tags"@,
                            stored_value(t[0]),
                        ),
                        "paths"@,
                        stored_value(t[1]),
                    ),
                    "languages"@,
                    stored_value(t[2]),
                ),
            )
        },
    }
}

/// An override as it is kept. A field that it does not change is `None`.
pub struct KeptV {
    pub project_id: Seq<char>,
    pub rule_key: Seq<char>,
    pub summary: Option<Seq<char>>,
    pub content: Option<Seq<char>>,
    pub tags: Option<Seq<Seq<char>>>,
    pub paths: Option<Seq<Seq<char>>>,
    pub languages: Option<Seq<Seq<char>>>,
    pub base: Seq<char>,
    pub status: Seq<char>,
    pub reason: Seq<char>,
    pub created_at: Seq<char>,
    pub updated_at: Seq<char>,
}

/// The cell of a text that may be missing.
pub open spec fn maybe_cell(t: Option<Seq<char>>) -> CellV {
    match t {
        Some(t) => CellV::Text(t),
        None => CellV::Null,
    }
}

/// The stored text of a list that may be missing.
pub open spec fn list_stored(list: Option<Seq<Seq<char>>>) -> Option<Seq<char>> {
    match list {
        Some(l) => Some(canonical(texts(l))),
        None => None,
    }
}

/// A list that may be missing, as a value.
pub open spec fn maybe_list(list: Option<Seq<Seq<char>>>) -> JsonV {
    match list {
        Some(l) => texts(l),
        None => JsonV::Null,
    }
}

/// Whether a row holds an override as it is written.
pub open spec fn holds_override(row: RowV, o: KeptV) -> bool {
    &&& column(row, "project_id"@) == Some(CellV::Text(o.project_id))
    &&& column(row, "rule_key"@) == Some(CellV::Text(o.rule_key))
    &&& column(row, "summary"@) == Some(maybe_cell(o.summary))
    &&& column(row, "content"@) == Some(maybe_cell(o.content))
    &&& column(row, "tags_json"@) == Some(maybe_cell(list_stored(o.tags)))
    &&& column(row, "paths_json"@) == Some(maybe_cell(list_stored(o.paths)))
    &&& column(row, "languages_json"@) == Some(maybe_cell(list_stored(o.languages)))
    &&& column(row, "base_source_rule_hash"@) == Some(CellV::Text(o.base))
    &&& column(row, "status"@) == Some(CellV::Text(o.status))
    &&& column(row, "reason"@) == Some(CellV::Text(o.reason))
    &&& column(row, "created_at"@) == Some(CellV::Text(o.created_at))
    &&& column(row, "updated_at"@) == Some(CellV::Text(o.updated_at))
}

/// The record of an override up to its status.
pub open spec fn override_head(o: KeptV) -> JsonV {
    and_detail(
        and_detail(
            and_detail(
                and_detail(
                    and_detail(
                        detail("project_id"@, JsonV::Text(o.project_id)),
                        "rule_key"@,
                        JsonV::Text(o.rule_key),
                    ),
                    "summary"@,
                    maybe_text(o.summary),
                ),
                "content"@,
                maybe_text(o.content),
            ),
            "base_source_rule_hash"@,
            JsonV::Text(o.base),
        ),
        "status"@,
        JsonV::Text(o.status),
    )
}

/// The record of an override.
pub open spec fn override_shown(o: KeptV) -> JsonV {
    and_detail(
        and_detail(
            and_detail(
                and_detail(
                    and_detail(
                        and_detail(override_head(o), "reason"@, JsonV::Text(o.reason)),
                        "created_at"@,
                        JsonV::Text(o.created_at),
                    ),
                    "updated_at"@,
                    JsonV::Text(o.updated_at),
                ),
                "tags"@,
                maybe_list(o.tags),
            ),
            "paths"@,
            maybe_list(o.paths),
        ),
        "languages"@,
        maybe_list(o.languages),
    )
}

/// The columns of a row that holds an override.
spec fn override_texts(o: KeptV) -> Seq<Option<Seq<char>>> {
    seq![
        list_stored(o.tags),
        list_stored(o.paths),
        list_stored(o.languages),
        Some(o.project_id),
        Some(o.rule_key),
        o.summary,
        o.content,
        Some(o.base),
        Some(o.status),
        Some(o.reason),
        Some(o.created_at),
        Some(o.updated_at),
    ]
}

proof fn lemma_override_column(row: RowV, o: KeptV, i: int)
    requires
        holds_override(row, o),
        0 <= i < 12,
    ensures
        text_column(row, override_columns()[i].0, override_columns()[i].1) == Ok::<
            Option<Seq<char>>,
            Seq<char>,
        >(override_texts(o)[i]),
{
    let names = override_columns();
    if i == 0 {
        assert(names[0] == ("tags_json"@, true));
    } else if i == 1 {
        assert(names[1] == ("paths_json"@, true));
    } else if i == 2 {
        assert(names[2] == ("languages_json"@, true));
    } else if i == 3 {
        assert(names[3] == ("project_id"@, false));
    } else if i == 4 {
        assert(names[4] == ("rule_key"@, false));
    } else if i == 5 {
        assert(names[5] == ("summary"@, true));
    } else if i == 6 {
        assert(names[6] == ("content"@, true));
    } else if i == 7 {
        assert(names[7] == ("base_source_rule_hash"@, false));
    } else if i == 8 {
        assert(names[8] == ("status"@, false));
    } else if i == 9 {
        assert(names[9] == ("reason"@, false));
    } else if i == 10 {
        assert(names[10] == ("created_at"@, false));
    } else {
        assert(names[11] == ("updated_at"@, false));
    }
}

proof fn lemma_override_columns(row: RowV, o: KeptV)
    requires
        holds_override(row, o),
    ensures
        text_columns(row, override_columns()) == Ok::<Seq<Option<Seq<char>>>, Seq<char>>(
            override_texts(o),
        ),
{
    let names = override_columns();
    assert(names.len() == 12);
    assert forall|i: int| 0 <= i < names.len() implies text_column(
        row,
        (#[trigger] names[i]).0,
        names[i].1,
    ) is Ok by {
        lemma_override_column(row, o, i);
    }
    lemma_columns(row, names);
    let list = text_columns(row, names)->Ok_0;
    assert forall|i: int| 0 <= i < 12 implies list[i] == override_texts(o)[i] by {
        lemma_override_column(row, o, i);
        assert(text_column(row, names[i].0, names[i].1) is Ok);
    }
    assert(list =~= override_texts(o));
}

/// A list as it was stored is read back.
proof fn lemma_list_back(list: Option<Seq<Seq<char>>>)
    ensures
        list matches Some(l) ==> storable(texts(l), 127) && sorted(texts(l)) == texts(l),
{
    if let Some(l) = list {
        lemma_texts_sorted(l);
        lemma_storable_texts(l, 127);
    }
}

/// The record of an override row. A row that holds an override gives that override back.
pub fn override_dict(row: &Row) -> (r: Result<Json, String>)
    ensures
        record_view(r) == override_record(row_view(row@)),
        forall|o: KeptV| #[trigger]
            holds_override(row_view(row@), o) ==> record_view(r) == Ok::<JsonV, Seq<char>>(
                override_shown(o),
            ),
{
    let columns = names(
        &[
            ("tags_json", true),
            ("paths_json", true),
            ("languages_json", true),
            ("project_id", false),
            ("rule_key", false),
            ("summary", true),
            ("content", true),
            ("base_source_rule_hash", false),
            ("status", false),
            ("reason", false),
            ("created_at", false),
            ("updated_at", false),
        ],
    );
    assert(wanted(columns@) =~= override_columns());
    let t = match get_texts(row, &columns) {
        Ok(t) => t,
        Err(e) => {
            proof {
                let rv = row_view(row@);
                assert forall|o: KeptV| !(#[trigger] holds_override(rv, o)) by {
                    if holds_override(rv, o) {
                        lemma_override_columns(rv, o);
                    }
                }
            }
            return Err(e);
        },
    };
    let tags = json_array_or_null(&t[0]);
    let paths = json_array_or_null(&t[1]);
    let languages = json_array_or_null(&t[2]);
    proof {
        let rv = row_view(row@);
        assert forall|o: KeptV| #[trigger] holds_override(rv, o) implies override_record(rv) == Ok::<
            JsonV,
            Seq<char>,
        >(override_shown(o)) by {
            lemma_override_columns(rv, o);
            lemma_list_back(o.tags);
            lemma_list_back(o.paths);
            lemma_list_back(o.languages);
            assert(options(t@)[0] == list_stored(o.tags));
            assert(options(t@)[1] == list_stored(o.paths));
            assert(options(t@)[2] == list_stored(o.languages));
            assert(tags@ == maybe_list(o.tags));
            assert(paths@ == maybe_list(o.paths));
            assert(languages@ == maybe_list(o.languages));
        }
    }
    Ok(
        Json::object().with("project_id", text_or_null(&t[3])).with(
            "rule_key",
            text_or_null(&t[4]),
        ).with("summary", text_or_null(&t[5])).with("content", text_or_null(&t[6])).with(
            "base_source_rule_hash",
            text_or_null(&t[7]),
        ).with("status", text_or_null(&t[8])).with("reason", text_or_null(&t[9])).with(
            "created_at",
            text_or_null(&t[10]),
        ).with("updated_at", text_or_null(&t[11])).with("tags", tags).with("paths", paths).with(
            "languages",
            languages,
        ),
    )
}

/// How a row becomes a record.
#[derive(Debug, Clone, Copy)]
pub enum Shape {
    /// One entry for each column.
    Plain,
    /// A rule.
    Rule,
    /// A rule with its project.
    ProjectRule,
    /// An override.
    Override,
    /// A synchronisation, its warnings decoded.
    History,
    /// An audit entry, its change decoded.
    Audit,
}

/// `entries` bound on top of `base`, one after the other.
pub open spec fn merged(base: Entries, entries: Entries) -> Entries
    decreases entries.len(),
{
    if entries.len() == 0 {
        base
    } else {
        put(merged(base, entries.drop_last()), entries.last().0, entries.last().1)
    }
}

/// `entries` with the JSON text under `from` decoded and bound to `to`.
pub open spec fn decoded(entries: Entries, from: Seq<char>, to: Seq<char>) -> Entries {
    match crate::json::lookup(entries, from) {
        None => entries,
        Some(v) => put(
            crate::json::without(entries, from),
            to,
            stored_value(
                match v {
                    JsonV::Text(t) => Some(t),
                    _ => None,
                },
            ),
        ),
    }
}

/// The record that a row becomes.
pub open spec fn record(shape: Shape, row: RowV) -> Result<JsonV, Seq<char>> {
    match shape {
        Shape::Plain => Ok(row_object(row)),
        Shape::Rule => rule_record(row),
        Shape::ProjectRule => match text_column(row, "project_id"@, false) {
            Err(e) => Err(e),
            Ok(id) => match rule_record(row) {
                Err(e) => Err(e),
                Ok(rule) => Ok(
                    JsonV::Object(
                        merged(
                            put(Seq::empty(), "project_id"@, maybe_text(id)),
                            rule->Object_0,
                        ),
                    ),
                ),
            },
        },
        Shape::Override => override_record(row),
        Shape::History => Ok(
            JsonV::Object(decoded(row_entries(row), "warnings_json"@, "warnings"@)),
        ),
        Shape::Audit => Ok(JsonV::Object(decoded(row_entries(row), "change_json"@, "change"@))),
    }
}

fn merge(base: Json, entries: &Vec<(String, Json)>) -> (r: Json)
    requires
        base@ is Object,
    ensures
        r@ == JsonV::Object(merged(base@->Object_0, entries_view(entries@))),
{
    let ghost start = base@->Object_0;
    let ghost all = entries_view(entries@);
    let mut r = base;
    let mut i: usize = 0;
    assert(all.take(0) =~= Seq::empty());
    while i < entries.len()
        invariant
            i <= entries@.len(),
            all == entries_view(entries@),
            r@ == JsonV::Object(merged(start, all.take(i as int))),
        decreases entries@.len() - i,
    {
        proof {
            assert(all.take(i + 1).drop_last() =~= all.take(i as int));
            assert(all.take(i + 1).last() == all[i as int]);
        }
        r = r.with(entries[i].0.as_str(), entries[i].1.duplicate());
        i += 1;
    }
    assert(all.take(i as int) =~= all);
    r
}

fn decode_entry(object: Json, from: &str, to: &str) -> (r: Json)
    requires
        object@ is Object,
    ensures
        r@ == JsonV::Object(decoded(object@->Object_0, from@, to@)),
{
    let value = match object.get(from) {
        None => None,
        Some(v) => Some(
            match v.as_str() {
                Some(t) => json_array_or_null(&Some(t.to_string())),
                None => Json::Null,
            },
        ),
    };
    match value {
        None => object,
        Some(v) => object.dropping(from).with(to, v),
    }
}

/// The record that a row becomes.
pub fn read_record(shape: Shape, row: &Row) -> (r: Result<Json, String>)
    ensures
        record_view(r) == record(shape, row_view(row@)),
        forall|rule: RuleV, ordinal: int|
            shape is Rule && #[trigger] holds_rule(row_view(row@), rule, ordinal) ==> record_view(r)
                == Ok::<JsonV, Seq<char>>(rule_shown(rule, ordinal)),
{
    match shape {
        Shape::Plain => Ok(row_to_object(row)),
        Shape::Rule => rule_dict(row),
        Shape::ProjectRule => {
            let id = match get_text(row, "project_id", false) {
                Ok(id) => id,
                Err(e) => return Err(e),
            };
            match rule_dict(row) {
                Ok(Json::Object(entries)) => Ok(
                    merge(Json::object().with("project_id", text_or_null(&id)), &entries),
                ),
                Ok(other) => {
                    assert(false);
                    Ok(other)
                },
                Err(e) => Err(e),
            }
        },
        Shape::Override => override_dict(row),
        Shape::History => Ok(decode_entry(row_to_object(row), "warnings_json", "warnings")),
        Shape::Audit => Ok(decode_entry(row_to_object(row), "change_json", "change")),
    }
}

/// The shape of the records of a view.
pub open spec fn view_shape(view: Seq<char>) -> Shape {
    if view == "rules"@ {
        Shape::ProjectRule
    } else if view == "overrides"@ {
        Shape::Override
    } else if view == "sync_history"@ {
        Shape::History
    } else if view == "audit_log"@ {
        Shape::Audit
    } else {
        Shape::Plain
    }
}

/// The record that a row of a view becomes.
pub fn record_for_view(row: &Row, view: &str) -> (r: Result<Json, String>)
    ensures
        record_view(r) == record(view_shape(view@), row_view(row@)),
{
    let shape = if same(view, "rules") {
        Shape::ProjectRule
    } else if same(view, "overrides") {
        Shape::Override
    } else if same(view, "sync_history") {
        Shape::History
    } else if same(view, "audit_log") {
        Shape::Audit
    } else {
        Shape::Plain
    };
    read_record(shape, row)
}

/// The records of the first `n` rows, or the diagnostic of the first that fails.
pub open spec fn records_upto(shape: Shape, rows: Seq<RowV>, n: int) -> Result<
    Seq<JsonV>,
    Seq<char>,
>
    decreases n,
{
    if n <= 0 {
        Ok(Seq::empty())
    } else {
        match records_upto(shape, rows, n - 1) {
            Err(e) => Err(e),
            Ok(list) => match record(shape, rows[n - 1]) {
                Err(e) => Err(e),
                Ok(v) => Ok(list.push(v)),
            },
        }
    }
}

/// The records of all rows.
pub open spec fn records(shape: Shape, rows: Seq<RowV>) -> Result<Seq<JsonV>, Seq<char>> {
    records_upto(shape, rows, rows.len() as int)
}

/// A list of records as a value of views.
pub open spec fn records_view(r: Result<Vec<Json>, String>) -> Result<Seq<JsonV>, Seq<char>> {
    match r {
        Ok(list) => Ok(items_view(list@)),
        Err(e) => Err(e@),
    }
}

proof fn lemma_records_fail(shape: Shape, rows: Seq<RowV>, lo: int, hi: int)
    requires
        0 <= lo <= hi,
        records_upto(shape, rows, lo) is Err,
    ensures
        records_upto(shape, rows, hi) == records_upto(shape, rows, lo),
    decreases hi,
{
    if lo < hi {
        lemma_records_fail(shape, rows, lo, hi - 1);
    }
}

/// Whether rows hold rules, each with its position as its ordinal.
pub open spec fn hold_rules(rows: Seq<RowV>, rules: Seq<RuleV>) -> bool {
    &&& rows.len() == rules.len()
    &&& forall|i: int| 0 <= i < rows.len() ==> holds_rule(#[trigger] rows[i], rules[i], i)
}

/// The records of rules, each with its position as its ordinal.
pub open spec fn rules_shown(rules: Seq<RuleV>) -> Seq<JsonV> {
    Seq::new(rules.len(), |i: int| rule_shown(rules[i], i))
}

proof fn lemma_rules_shown(rows: Seq<RowV>, rules: Seq<RuleV>, n: int)
    requires
        0 <= n <= rows.len() == rules.len(),
        forall|i: int|
            0 <= i < n ==> record(Shape::Rule, #[trigger] rows[i]) == Ok::<JsonV, Seq<char>>(
                rule_shown(rules[i], i),
            ),
    ensures
        records_upto(Shape::Rule, rows, n) == Ok::<Seq<JsonV>, Seq<char>>(
            rules_shown(rules).take(n),
        ),
    decreases n,
{
    if n > 0 {
        lemma_rules_shown(rows, rules, n - 1);
        assert(record(Shape::Rule, rows[n - 1]) == Ok::<JsonV, Seq<char>>(
            rule_shown(rules[n - 1], n - 1),
        ));
        assert(rules_shown(rules).take(n) =~= rules_shown(rules).take(n - 1).push(
            rule_shown(rules[n - 1], n - 1),
        ));
    } else {
        assert(rules_shown(rules).take(0) =~= Seq::empty());
    }
}

/// The records of all rows.
pub fn read_records(shape: Shape, rows: &Vec<Row>) -> (r: Result<Vec<Json>, String>)
    ensures
        records_view(r) == records(shape, rows_view(rows@)),
        forall|rules: Seq<RuleV>|
            shape is Rule && #[trigger] hold_rules(rows_view(rows@), rules) ==> records_view(r)
                == Ok::<Seq<JsonV>, Seq<char>>(rules_shown(rules)),
{
    let ghost all = rows_view(rows@);
    let mut list: Vec<Json> = Vec::new();
    let mut i: usize = 0;
    assert(items_view(list@) =~= Seq::empty());
    while i < rows.len()
        invariant
            i <= rows@.len(),
            all == rows_view(rows@),
            records_upto(shape, all, i as int) == Ok::<Seq<JsonV>, Seq<char>>(items_view(list@)),
            forall|k: int, rule: RuleV, ordinal: int|
                0 <= k < i && shape is Rule && #[trigger] holds_rule(all[k], rule, ordinal)
                    ==> record(shape, all[k]) == Ok::<JsonV, Seq<char>>(rule_shown(rule, ordinal)),
        decreases rows@.len() - i,
    {
        assert(all[i as int] == row_view(rows@[i as int]@));
        match read_record(shape, &rows[i]) {
            Ok(v) => {
                let ghost before = list@;
                let ghost vv = v@;
                list.push(v);
                assert(items_view(list@) =~= items_view(before).push(vv));
            },
            Err(e) => {
                proof {
                    lemma_records_fail(shape, all, i + 1, all.len() as int);
                    assert forall|rules: Seq<RuleV>| shape is Rule implies !(#[trigger] hold_rules(
                        all,
                        rules,
                    )) by {
                        if hold_rules(all, rules) {
                            assert(holds_rule(all[i as int], rules[i as int], i as int));
                        }
                    }
                }
                return Err(e);
            },
        }
        i += 1;
    }
    proof {
        assert forall|rules: Seq<RuleV>| shape is Rule && #[trigger] hold_rules(
            all,
            rules,
        ) implies records(shape, all) == Ok::<Seq<JsonV>, Seq<char>>(rules_shown(rules)) by {
            assert forall|k: int| 0 <= k < all.len() implies record(Shape::Rule, #[trigger] all[k])
                == Ok::<JsonV, Seq<char>>(rule_shown(rules[k], k)) by {
                assert(holds_rule(all[k], rules[k], k));
            }
            lemma_rules_shown(all, rules, all.len() as int);
            assert(rules_shown(rules).take(all.len() as int) =~= rules_shown(rules));
        }
    }
    Ok(list)
}

// ---- searching rules ----

/// Whether a value is a text that holds `query`, whatever the case of ASCII letters.
pub open spec fn text_mentions(v: JsonV, query: Seq<char>) -> bool {
    v matches JsonV::Text(t) && occurs(ascii_folded(t), ascii_folded(query))
}

/// Whether a field is a text that holds `query`.
pub open spec fn field_mentions(record: JsonV, name: Seq<char>, query: Seq<char>) -> bool {
    field(record, name) matches Some(v) && text_mentions(v, query)
}

/// Whether a field is a list with an entry that holds `query`.
pub open spec fn list_mentions(record: JsonV, name: Seq<char>, query: Seq<char>) -> bool {
    field(record, name) matches Some(JsonV::Array(items)) && exists|i: int|
        0 <= i < items.len() && text_mentions(#[trigger] items[i], query)
}

/// Whether a rule holds `query` in its key, its summary, its content or an entry of its tags, its
/// paths or its languages.
pub open spec fn rule_mentions(record: JsonV, query: Seq<char>) -> bool {
    ||| field_mentions(record, "key"@, query)
    ||| field_mentions(record, "summary"@, query)
    ||| field_mentions(record, "content"@, query)
    ||| list_mentions(record, "tags"@, query)
    ||| list_mentions(record, "paths"@, query)
    ||| list_mentions(record, "languages"@, query)
}

/// The rules that mention `query`, in order.
pub open spec fn mentioning(list: Seq<JsonV>, query: Seq<char>) -> Seq<JsonV> {
    list.filter(|r: JsonV| rule_mentions(r, query))
}

fn mentions_in_text(v: &Json, needle: &str, Ghost(query): Ghost<Seq<char>>) -> (r: bool)
    requires
        needle@ == ascii_folded(query),
    ensures
        r == text_mentions(v@, query),
{
    match v {
        Json::Text(t) => contains(fold_ascii(t.as_str()).as_str(), needle),
        _ => false,
    }
}

fn mentions_in_field(
    record: &Json,
    name: &str,
    needle: &str,
    Ghost(query): Ghost<Seq<char>>,
) -> (r: bool)
    requires
        needle@ == ascii_folded(query),
    ensures
        r == field_mentions(record@, name@, query),
{
    match record.get(name) {
        Some(v) => mentions_in_text(v, needle, Ghost(query)),
        None => false,
    }
}

fn mentions_in_list(
    record: &Json,
    name: &str,
    needle: &str,
    Ghost(query): Ghost<Seq<char>>,
) -> (r: bool)
    requires
        needle@ == ascii_folded(query),
    ensures
        r == list_mentions(record@, name@, query),
{
    match record.get(name) {
        Some(Json::Array(items)) => {
            let ghost all = items_view(items@);
            let mut i: usize = 0;
            while i < items.len()
                invariant
                    i <= items@.len(),
                    all == items_view(items@),
                    needle@ == ascii_folded(query),
                    field(record@, name@) == Some(JsonV::Array(all)),
                    forall|k: int| 0 <= k < i ==> !text_mentions(#[trigger] all[k], query),
                decreases items@.len() - i,
            {
                assert(all[i as int] == items@[i as int]@);
                if mentions_in_text(&items[i], needle, Ghost(query)) {
                    proof {
                        let list = field(record@, name@)->0->Array_0;
                        assert(list == all);
                        assert(text_mentions(list[i as int], query));
                        assert(exists|k: int|
                            0 <= k < list.len() && text_mentions(#[trigger] list[k], query));
                    }
                    return true;
                }
                i += 1;
            }
            false
        },
        _ => false,
    }
}

/// Keeps the rules that mention `query`.
pub fn mentioning_rules(list: Vec<Json>, query: &str) -> (r: Vec<Json>)
    ensures
        items_view(r@) == mentioning(items_view(list@), query@),
{
    let ghost all = items_view(list@);
    let ghost q = query@;
    let ghost p = |r: JsonV| rule_mentions(r, q);
    let needle = fold_ascii(query);
    let mut out: Vec<Json> = Vec::new();
    let mut i: usize = 0;
    proof {
        reveal(Seq::filter);
        assert(items_view(out@) =~= all.take(0).filter(p));
    }
    while i < list.len()
        invariant
            i <= list@.len(),
            all == items_view(list@),
            q == query@,
            needle@ == ascii_folded(q),
            p == (|r: JsonV| rule_mentions(r, q)),
            items_view(out@) == all.take(i as int).filter(p),
        decreases list@.len() - i,
    {
        let record = &list[i];
        assert(all[i as int] == record@);
        let found = mentions_in_field(record, "key", needle.as_str(), Ghost(q))
            || mentions_in_field(record, "summary", needle.as_str(), Ghost(q))
            || mentions_in_field(record, "content", needle.as_str(), Ghost(q))
            || mentions_in_list(record, "tags", needle.as_str(), Ghost(q)) || mentions_in_list(
            record,
            "paths",
            needle.as_str(),
            Ghost(q),
        ) || mentions_in_list(record, "languages", needle.as_str(), Ghost(q));
        let ghost before = out@;
        if found {
            out.push(record.duplicate());
            assert(items_view(out@) =~= items_view(before).push(all[i as int]));
        }
        i += 1;
        proof {
            reveal(Seq::filter);
            assert(all.take(i as int).drop_last() =~= all.take(i - 1));
            assert(all.take(i as int).last() == all[i - 1]);
            assert(p(all[i - 1]) == found);
        }
    }
    assert(all.take(i as int) =~= all);
    out
}

// ---- querying views ----

/// Whether a record shows `needle`, which is in lowercase, in its canonical text.
pub open spec fn shows(v: JsonV, needle: Option<Seq<char>>) -> bool {
    match needle {
        None => true,
        Some(t) => occurs(lowercase(crate::json_util::canonical(v)), t),
    }
}

/// The lowercase form of an optional text.
pub open spec fn folded(query: Option<Seq<char>>) -> Option<Seq<char>> {
    match query {
        Some(q) => Some(lowercase(q)),
        None => None,
    }
}

/// The first records of a view that show `needle`, at most `limit`; rows behind the last one that
/// is taken are not read.
pub open spec fn matching_upto(
    view: Seq<char>,
    rows: Seq<RowV>,
    n: int,
    needle: Option<Seq<char>>,
    limit: int,
) -> Result<Seq<JsonV>, Seq<char>>
    decreases n,
{
    if n <= 0 {
        Ok(Seq::empty())
    } else {
        match matching_upto(view, rows, n - 1, needle, limit) {
            Err(e) => Err(e),
            Ok(list) => if list.len() >= limit {
                Ok(list)
            } else {
                match record(view_shape(view), rows[n - 1]) {
                    Err(e) => Err(e),
                    Ok(v) => if shows(v, needle) {
                        Ok(list.push(v))
                    } else {
                        Ok(list)
                    },
                }
            },
        }
    }
}

proof fn lemma_matching_ends(
    view: Seq<char>,
    rows: Seq<RowV>,
    lo: int,
    hi: int,
    needle: Option<Seq<char>>,
    limit: int,
)
    requires
        0 <= lo <= hi,
        matching_upto(view, rows, lo, needle, limit) matches Ok(list) ==> list.len() >= limit,
    ensures
        matching_upto(view, rows, hi, needle, limit) == matching_upto(
            view,
            rows,
            lo,
            needle,
            limit,
        ),
    decreases hi,
{
    if lo < hi {
        lemma_matching_ends(view, rows, lo, hi - 1, needle, limit);
    }
}

/// The first records of a view that show `query` in any case, at most `limit`.
pub fn matching_records(view: &str, rows: &Vec<Row>, query: &Option<String>, limit: usize) -> (r:
    Result<Vec<Json>, String>)
    requires
        limit > 0,
    ensures
        records_view(r) == matching_upto(
            view@,
            rows_view(rows@),
            rows@.len() as int,
            folded(crate::path_util::optional_text(*query)),
            limit as int,
        ),
{
    let ghost all = rows_view(rows@);
    let needle = match query {
        Some(q) => Some(q.to_lowercase()),
        None => None,
    };
    let ghost nv = crate::path_util::optional_text(needle);
    let mut list: Vec<Json> = Vec::new();
    let mut i: usize = 0;
    assert(items_view(list@) =~= Seq::empty());
    while i < rows.len() && list.len() < limit
        invariant
            i <= rows@.len(),
            all == rows_view(rows@),
            nv == crate::path_util::optional_text(needle),
            nv == folded(crate::path_util::optional_text(*query)),
            list@.len() <= limit,
            matching_upto(view@, all, i as int, nv, limit as int) == Ok::<Seq<JsonV>, Seq<char>>(
                items_view(list@),
            ),
        decreases rows@.len() - i,
    {
        assert(all[i as int] == row_view(rows@[i as int]@));
        match record_for_view(&rows[i], view) {
            Ok(v) => {
                let shown = match &needle {
                    Some(t) => contains(
                        canonical_json(&v).to_lowercase().as_str(),
                        t.as_str(),
                    ),
                    None => true,
                };
                if shown {
                    let ghost before = list@;
                    let ghost vv = v@;
                    list.push(v);
                    assert(items_view(list@) =~= items_view(before).push(vv));
                }
            },
            Err(e) => {
                proof {
                    lemma_matching_ends(
                        view@,
                        all,
                        i + 1,
                        all.len() as int,
                        nv,
                        limit as int,
                    );
                }
                return Err(e);
            },
        }
        i += 1;
    }
    proof {
        if i < rows@.len() {
            lemma_matching_ends(view@, all, i as int, all.len() as int, nv, limit as int);
        }
    }
    Ok(list)
}

/// Whether `list` holds the records of the rows that `from` names, in ascending order, below `n`.
pub open spec fn drawn(
    view: Seq<char>,
    rows: Seq<RowV>,
    n: int,
    list: Seq<JsonV>,
    from: Seq<int>,
) -> bool {
    &&& from.len() == list.len()
    &&& forall|i: int|
        0 <= i < from.len() ==> 0 <= #[trigger] from[i] < n && record(
            view_shape(view),
            rows[from[i]],
        ) == Ok::<JsonV, Seq<char>>(list[i])
    &&& forall|i: int, j: int| 0 <= i < j < from.len() ==> #[trigger] from[i] < #[trigger] from[j]
}

/// A search brings at most as many records as were asked for, each of them a record of the view
/// that shows what was searched, in the order of the rows.
pub proof fn matches_show_the_needle(
    view: Seq<char>,
    rows: Seq<RowV>,
    n: int,
    needle: Option<Seq<char>>,
    limit: int,
)
    requires
        0 <= n <= rows.len(),
        limit > 0,
        matching_upto(view, rows, n, needle, limit) is Ok,
    ensures
        ({
            let list = matching_upto(view, rows, n, needle, limit)->Ok_0;
            &&& list.len() <= limit
            &&& forall|i: int| 0 <= i < list.len() ==> shows(#[trigger] list[i], needle)
            &&& exists|from: Seq<int>| drawn(view, rows, n, list, from)
        }),
    decreases n,
{
    let list = matching_upto(view, rows, n, needle, limit)->Ok_0;
    if n == 0 {
        assert(drawn(view, rows, n, list, Seq::empty()));
    } else {
        matches_show_the_needle(view, rows, n - 1, needle, limit);
        let before = matching_upto(view, rows, n - 1, needle, limit)->Ok_0;
        let m = n - 1;
        let from = choose|from: Seq<int>| drawn(view, rows, m, before, from);
        if list.len() > before.len() {
            assert(drawn(view, rows, n, list, from.push(n - 1)));
        } else {
            assert(drawn(view, rows, n, list, from));
        }
    }
}

} // verus!
