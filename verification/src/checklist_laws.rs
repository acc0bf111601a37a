//! What an accepted checklist holds, and which files are accepted, in terms of the file itself.

use vstd::prelude::*;

use crate::checklist::{
    blank_between, checklist_of, clash, extra_entries, file_fields, first_close, front_matter,
    has_text, invalid_error, invalid_line_error, is_key, line_end, list_field, list_prefix,
    mapping_of, matter_close, matter_start, names_of, rule_at, rule_from, rule_meta_fields,
    rules_upto, section_end, section_fences,
};
use crate::description::rule_fields_value;
use crate::errors::{and_detail, detail, ErrorCode, ErrorV};
use crate::json::{field, lemma_position, lookup, position, put_is_found, texts, Entries, JsonV};
use crate::json_laws::{lemma_and_detail, lemma_detail, tidy};
use crate::json_util::{canonical, digest_text, json_text, lemma_json_text, place, text_digest};
use crate::markdown::{fences_of, headings_of, lines_of, FenceV, HeadingV};
use crate::models::{ChecklistV, RuleV};
use crate::text::{
    begins, is_blank, is_white, joined, lemma_back_run, lemma_blank, lemma_run, lowercase, run,
    trim_front, trimmed, Class,
};
use crate::yaml::{
    bridged, bridged_entries, bridged_items, bridged_number, key_text, yaml_document, YamlNumberV,
    YamlV,
};

verus! {

// ---- texts ----

/// Whether `list` holds the texts of `given`, each once, in the order of their first occurrence.
pub open spec fn each_once(list: Seq<Seq<char>>, given: Seq<Seq<char>>) -> bool {
    &&& list.no_duplicates()
    &&& forall|t: Seq<char>| #[trigger] list.contains(t) <==> given.contains(t)
    &&& forall|i: int, j: int|
        0 <= i < j < list.len() ==> #[trigger] comes_first(given, list[i], list[j])
}

/// Whether `a` stands before each `b` in a list.
pub open spec fn comes_first(given: Seq<Seq<char>>, a: Seq<char>, b: Seq<char>) -> bool {
    forall|q: int|
        0 <= q < given.len() && #[trigger] given[q] == b ==> exists|p: int|
            0 <= p < q && #[trigger] given[p] == a
}

/// Whether `t` is `s` without the white space around it.
pub open spec fn stripped_of(t: Seq<char>, s: Seq<char>) -> bool {
    &&& t.len() > 0 ==> !is_white(t[0]) && !is_white(t.last())
    &&& exists|lo: int|
        {
            &&& 0 <= lo <= lo + t.len() <= s.len()
            &&& #[trigger] s.subrange(lo, lo + t.len()) == t
            &&& forall|i: int| 0 <= i < s.len() && !(lo <= i < lo + t.len()) ==> is_white(
                #[trigger] s[i],
            )
        }
}

/// Trimming takes the white space around a text away, and nothing else.
pub proof fn trimming_takes_white_space(s: Seq<char>)
    ensures
        stripped_of(trimmed(s), s),
{
    let k = Class::White;
    let t = trim_front(s, k);
    lemma_run(s, k);
    lemma_back_run(t, k);
    let lo = run(s, k) as int;
    let r = trimmed(s);
    assert(s.subrange(lo, lo + r.len()) =~= r);
    assert forall|i: int| 0 <= i < s.len() && !(lo <= i < lo + r.len()) implies is_white(
        #[trigger] s[i],
    ) by {
        if i < lo {
            assert(k.holds(s[i]));
        } else {
            assert(t[i - lo] == s[i]);
            assert(k.holds(t[i - lo]));
        }
    }
    if r.len() > 0 {
        assert(r[0] == t[0] && t[0] == s[lo]);
        assert(r.last() == t[r.len() - 1]);
    }
}

/// One more text keeps a list of texts, each once.
pub proof fn lemma_once_more(list: Seq<Seq<char>>, given: Seq<Seq<char>>, t: Seq<char>)
    requires
        each_once(list, given),
    ensures
        each_once(
            if list.contains(t) {
                list
            } else {
                list.push(t)
            },
            given.push(t),
        ),
{
    let more = given.push(t);
    let longer = if list.contains(t) {
        list
    } else {
        list.push(t)
    };
    assert forall|u: Seq<char>| #[trigger] longer.contains(u) <==> more.contains(u) by {
        if longer.contains(u) {
            let q = longer.index_of(u);
            if q < list.len() {
                assert(list[q] == u);
                assert(list.contains(u));
                let p = given.index_of(u);
                assert(more[p] == u);
            } else {
                assert(more[given.len() as int] == u);
            }
        }
        if more.contains(u) {
            let p = more.index_of(u);
            if p < given.len() {
                assert(given[p] == u);
                assert(given.contains(u));
                assert(list.contains(u));
                let q = list.index_of(u);
                assert(longer[q] == u);
            } else if !list.contains(t) {
                assert(longer[list.len() as int] == u);
            }
        }
    }
    assert(longer.no_duplicates()) by {
        assert forall|i: int, j: int| 0 <= i < longer.len() && 0 <= j < longer.len() && i
            != j implies longer[i] != longer[j] by {
            if i < list.len() {
                assert(list.contains(list[i]));
            }
            if j < list.len() {
                assert(list.contains(list[j]));
            }
        }
    }
    assert forall|i: int, j: int| 0 <= i < j < longer.len() implies #[trigger] comes_first(
        more,
        longer[i],
        longer[j],
    ) by {
        assert(longer[i] == list[i]);
        assert(list.contains(list[i]));
        assert(j < list.len() ==> comes_first(given, list[i], list[j]));
        assert forall|q: int| 0 <= q < more.len() && #[trigger] more[q] == longer[j] implies exists|
            p: int,
        | 0 <= p < q && #[trigger] more[p] == longer[i] by {
            if q < given.len() && j < list.len() {
                assert(given[q] == list[j]);
                let p = choose|p: int| 0 <= p < q && #[trigger] given[p] == list[i];
                assert(more[p] == longer[i]);
            } else if q == given.len() {
                let p = given.index_of(list[i]);
                assert(more[p] == longer[i]);
            } else {
                assert(given[q] == t);
                assert(given.contains(t));
                assert(list.contains(t));
            }
        }
    }
}

/// An empty list holds the texts of no list.
pub proof fn lemma_once_empty()
    ensures
        each_once(Seq::empty(), Seq::empty()),
{
    let none = Seq::<Seq<char>>::empty();
    assert forall|t: Seq<char>| #[trigger] none.contains(t) <==> none.contains(t) by {}
}

// ---- YAML tables ----

/// Whether a key of a table reads as `name`.
pub open spec fn reads_as(k: YamlV, name: Seq<char>) -> bool {
    match k {
        YamlV::Text(t) => t == name,
        YamlV::Number(n) => n.text == name,
        _ => false,
    }
}

/// Whether the last entry of a table under `name` stands at `i`.
pub open spec fn last_under(table: Seq<(YamlV, YamlV)>, name: Seq<char>, i: int) -> bool {
    &&& 0 <= i < table.len()
    &&& reads_as(table[i].0, name)
    &&& forall|j: int| i < j < table.len() ==> !reads_as((#[trigger] table[j]).0, name)
}

/// Whether a table binds `name` to `value`.
pub open spec fn bound_to(table: Seq<(YamlV, YamlV)>, name: Seq<char>, value: YamlV) -> bool {
    exists|i: int| #[trigger] last_under(table, name, i) && table[i].1 == value
}

/// Whether a table has no entry under `name`.
pub open spec fn unbound(table: Seq<(YamlV, YamlV)>, name: Seq<char>) -> bool {
    forall|i: int| 0 <= i < table.len() ==> !reads_as((#[trigger] table[i]).0, name)
}

/// Whether no key but a text or a number reads as `name`.
spec fn wordy(name: Seq<char>) -> bool {
    &&& name.len() > 3
    &&& name[0] != '[' && name[0] != '{' && name[0] != 'n' && name[0] != '~' && name[0] != 'f'
    &&& name[0] == 't' ==> name[1] != 'r'
}

proof fn lemma_reads_as(k: YamlV, name: Seq<char>)
    requires
        wordy(name),
    ensures
        key_text(k) == name <==> reads_as(k, name),
{
    reveal_strlit("true");
    reveal_strlit("false");
    reveal_strlit("null");
    reveal_strlit("~");
    reveal_strlit("[");
    reveal_strlit("{");
    assert("true"@[0] == 't' && "true"@[1] == 'r' && "false"@[0] == 'f' && "null"@[0] == 'n'
        && "~"@[0] == '~' && "["@[0] == '[' && "{"@[0] == '{');
    lemma_json_text(bridged(k));
    match k {
        YamlV::List(items) => {
            assert(bridged(k) == JsonV::Array(bridged_items(items)));
            assert(key_text(k) == json_text(bridged(k)));
            assert(key_text(k)[0] == '[');
        },
        YamlV::Table(entries) => {
            assert(bridged(k) == JsonV::Object(bridged_entries(entries)));
            assert(key_text(k) == json_text(bridged(k)));
            assert(key_text(k)[0] == '{');
        },
        YamlV::Tagged => {
            assert(bridged(k) == JsonV::Null);
            assert(key_text(k) == json_text(bridged(k)));
        },
        _ => {},
    }
}

proof fn lemma_wordy()
    ensures
        wordy("summary"@),
        wordy("tags"@),
        wordy("paths"@),
        wordy("languages"@),
        wordy("schema_version"@),
        wordy("checklist_version"@),
        wordy("global_description"@),
{
    reveal_strlit("summary");
    reveal_strlit("tags");
    reveal_strlit("paths");
    reveal_strlit("languages");
    reveal_strlit("schema_version");
    reveal_strlit("checklist_version");
    reveal_strlit("global_description");
}

/// The value that the entries of a table give to `name` is that of the last entry under it.
proof fn lemma_table(table: Seq<(YamlV, YamlV)>, name: Seq<char>)
    requires
        wordy(name),
    ensures
        lookup(bridged_entries(table), name) is None <==> unbound(table, name),
        lookup(bridged_entries(table), name) is Some ==> exists|i: int| #[trigger]
            last_under(table, name, i),
        forall|i: int| #[trigger] last_under(table, name, i) ==> lookup(bridged_entries(table), name)
            == Some(bridged(table[i].1)),
    decreases table.len(),
{
    if table.len() == 0 {
        assert(bridged_entries(table) =~= Seq::empty());
    } else {
        let front = table.drop_last();
        let n = table.len() - 1;
        lemma_table(front, name);
        lemma_reads_as(table.last().0, name);
        put_is_found(bridged_entries(front), key_text(table.last().0), bridged(table.last().1), name);
        assert forall|i: int| 0 <= i < n implies #[trigger] front[i] == table[i] by {}
        if reads_as(table.last().0, name) {
            assert(last_under(table, name, n as int));
            assert(!unbound(table, name)) by {
                assert(reads_as(table[n as int].0, name));
            }
            assert forall|i: int| #[trigger] last_under(table, name, i) implies i == n by {
                if i < n {
                    assert(!reads_as(table[n as int].0, name));
                }
            }
        } else {
            assert forall|i: int| #[trigger] last_under(table, name, i) <==> last_under(
                front,
                name,
                i,
            ) by {
                if last_under(table, name, i) {
                    assert forall|j: int| i < j < front.len() implies !reads_as(
                        (#[trigger] front[j]).0,
                        name,
                    ) by {
                        assert(front[j] == table[j]);
                    }
                }
                if last_under(front, name, i) {
                    assert forall|j: int| i < j < table.len() implies !reads_as(
                        (#[trigger] table[j]).0,
                        name,
                    ) by {
                        if j < n {
                            assert(front[j] == table[j]);
                        }
                    }
                }
            }
            assert(unbound(table, name) <==> unbound(front, name)) by {
                if unbound(front, name) {
                    assert forall|i: int| 0 <= i < table.len() implies !reads_as(
                        (#[trigger] table[i]).0,
                        name,
                    ) by {
                        if i < n {
                            assert(front[i] == table[i]);
                        }
                    }
                }
                if unbound(table, name) {
                    assert forall|i: int| 0 <= i < front.len() implies !reads_as(
                        (#[trigger] front[i]).0,
                        name,
                    ) by {
                        assert(front[i] == table[i]);
                    }
                }
            }
            if lookup(bridged_entries(table), name) is Some {
                let i = choose|i: int| #[trigger] last_under(front, name, i);
                assert(last_under(table, name, i));
            }
        }
    }
}

/// The items of a list, one by one.
proof fn lemma_items(items: Seq<YamlV>)
    ensures
        bridged_items(items).len() == items.len(),
        forall|i: int| 0 <= i < items.len() ==> #[trigger] bridged_items(items)[i] == bridged(
            items[i],
        ),
    decreases items.len(),
{
    if items.len() > 0 {
        lemma_items(items.drop_last());
        assert forall|i: int| 0 <= i < items.len() implies #[trigger] bridged_items(items)[i]
            == bridged(items[i]) by {
            if i < items.len() - 1 {
                assert(items.drop_last()[i] == items[i]);
            }
        }
    }
}

/// Whether a value is a list of texts with more than white space in each.
pub open spec fn filled_texts(value: YamlV, given: Seq<Seq<char>>) -> bool {
    &&& value == YamlV::List(given.map_values(|t: Seq<char>| YamlV::Text(t)))
    &&& forall|i: int| 0 <= i < given.len() ==> !is_blank(#[trigger] given[i])
}

/// Whether `list` is what a table lists under `name`: the texts there, each once, or nothing where
/// the table has no such entry.
pub open spec fn listed(table: Seq<(YamlV, YamlV)>, name: Seq<char>, list: Seq<Seq<char>>) -> bool {
    ||| unbound(table, name) && list.len() == 0
    ||| exists|value: YamlV, given: Seq<Seq<char>>|
        {
            &&& #[trigger] bound_to(table, name, value)
            &&& #[trigger] filled_texts(value, given)
            &&& each_once(list, given)
        }
}

/// The texts of the items that are texts.
spec fn given_texts(items: Seq<JsonV>) -> Seq<Seq<char>> {
    items.map_values(|v: JsonV| v->Text_0)
}

proof fn lemma_prefix_listed(items: Seq<JsonV>, n: int, name: Seq<char>, path: Seq<char>)
    requires
        0 <= n <= items.len(),
    ensures
        list_prefix(items, n, name, path) is Ok <==> (forall|i: int|
            0 <= i < n ==> (#[trigger] items[i] matches JsonV::Text(t) && !is_blank(t))),
        list_prefix(items, n, name, path) matches Ok(list) ==> each_once(
            list,
            given_texts(items.take(n)),
        ),
    decreases n,
{
    if n > 0 {
        lemma_prefix_listed(items, n - 1, name, path);
        if list_prefix(items, n - 1, name, path) is Ok {
            if let JsonV::Text(t) = items[n - 1] {
                lemma_once_more(
                    list_prefix(items, n - 1, name, path)->Ok_0,
                    given_texts(items.take(n - 1)),
                    t,
                );
                assert(given_texts(items.take(n)) =~= given_texts(items.take(n - 1)).push(t));
            }
        }
    } else {
        lemma_once_empty();
        assert(given_texts(items.take(0)) =~= Seq::empty());
    }
}

/// A list field is read exactly where it is absent or a list of filled texts.
proof fn lemma_listed(
    table: Seq<(YamlV, YamlV)>,
    name: Seq<char>,
    path: Seq<char>,
    list: Seq<Seq<char>>,
)
    requires
        wordy(name),
    ensures
        ({
            let r = list_field(lookup(bridged_entries(table), name), name, path);
            &&& r == Ok::<Seq<Seq<char>>, ErrorV>(list) ==> listed(table, name, list)
            &&& listed(table, name, list) ==> r is Ok
        }),
{
    lemma_table(table, name);
    let found = lookup(bridged_entries(table), name);
    let r = list_field(found, name, path);
    if found is Some {
        let i = choose|i: int| #[trigger] last_under(table, name, i);
        let value = table[i].1;
        assert(bound_to(table, name, value));
        if let YamlV::List(raw) = value {
            lemma_items(raw);
            let items = bridged_items(raw);
            lemma_prefix_listed(items, items.len() as int, name, path);
            assert(items.take(items.len() as int) =~= items);
            let given = given_texts(items);
            if r is Ok {
                assert forall|k: int| 0 <= k < raw.len() implies #[trigger] raw[k] == YamlV::Text(
                    given[k],
                ) && !is_blank(given[k]) by {
                    assert(items[k] == bridged(raw[k]));
                    assert(items[k] matches JsonV::Text(t) && !is_blank(t));
                    lemma_text(raw[k]);
                }
                assert(raw =~= given.map_values(|t: Seq<char>| YamlV::Text(t)));
                assert forall|k: int| 0 <= k < given.len() implies !is_blank(
                    #[trigger] given[k],
                ) by {
                    assert(raw[k] == YamlV::Text(given[k]));
                }
                assert(filled_texts(value, given));
            }
        } else {
            lemma_no_list(value);
        }
        if listed(table, name, list) {
            assert(!unbound(table, name));
            let (v, given) = choose|v: YamlV, given: Seq<Seq<char>>|
                {
                    &&& #[trigger] bound_to(table, name, v)
                    &&& #[trigger] filled_texts(v, given)
                    &&& each_once(list, given)
                };
            let k = choose|k: int| #[trigger] last_under(table, name, k) && table[k].1 == v;
            assert(found == Some(bridged(v)));
            let raw = v->List_0;
            let items = bridged_items(raw);
            lemma_items(raw);
            lemma_prefix_listed(items, items.len() as int, name, path);
            assert forall|m: int| 0 <= m < items.len() implies (#[trigger] items[m] matches JsonV::Text(
                t,
            ) && !is_blank(t)) by {
                assert(raw[m] == YamlV::Text(given[m]));
                assert(items[m] == bridged(raw[m]));
            }
        }
    }
}

/// Only a text reads as a text.
proof fn lemma_text(y: YamlV)
    ensures
        bridged(y) is Text ==> y == YamlV::Text(bridged(y)->Text_0),
        y matches YamlV::Text(t) ==> bridged(y) == JsonV::Text(t),
{
}

/// Only a list reads as a list.
proof fn lemma_no_list(y: YamlV)
    ensures
        bridged(y) is Array ==> y is List,
        bridged(y) is Object ==> y is Table,
{
}

/// Whether every key of a table reads as one of `names`.
pub open spec fn only_names(table: Seq<(YamlV, YamlV)>, names: Seq<Seq<char>>) -> bool {
    forall|i: int|
        0 <= i < table.len() ==> exists|n: int|
            0 <= n < names.len() && reads_as((#[trigger] table[i]).0, #[trigger] names[n])
}

/// Whether `t` is the text that a table has under `name`, without the white space around it, and
/// there is more than white space.
pub open spec fn filled_text(table: Seq<(YamlV, YamlV)>, name: Seq<char>, t: Seq<char>) -> bool {
    exists|s: Seq<char>|
        {
            &&& #[trigger] bound_to(table, name, YamlV::Text(s))
            &&& !is_blank(s)
            &&& stripped_of(t, s)
        }
}

proof fn lemma_placed(entries: Entries, name: Seq<char>, value: JsonV)
    ensures
        place(entries, name, value).len() > 0,
{
}

/// There are extra entries exactly where a name is not among the allowed ones.
proof fn lemma_extra(entries: Entries, allowed: Seq<Seq<char>>)
    ensures
        extra_entries(entries, allowed).len() == 0 <==> (forall|i: int|
            0 <= i < entries.len() ==> allowed.contains((#[trigger] entries[i]).0)),
    decreases entries.len(),
{
    if entries.len() > 0 {
        let front = entries.drop_last();
        let n = entries.len() - 1;
        lemma_extra(front, allowed);
        lemma_placed(extra_entries(front, allowed), entries.last().0, JsonV::Null);
        assert forall|i: int| 0 <= i < n implies #[trigger] front[i] == entries[i] by {}
        if allowed.contains(entries.last().0) {
            if forall|i: int| 0 <= i < front.len() ==> allowed.contains((#[trigger] front[i]).0) {
                assert forall|i: int| 0 <= i < entries.len() implies allowed.contains(
                    (#[trigger] entries[i]).0,
                ) by {
                    if i < n {
                        assert(front[i] == entries[i]);
                    }
                }
            } else {
                let i = choose|i: int|
                    0 <= i < front.len() && !allowed.contains((#[trigger] front[i]).0);
                assert(entries[i] == front[i]);
            }
        } else {
            assert(!allowed.contains(entries[n as int].0));
        }
    }
}

/// The names that a table binds are those of its keys.
proof fn lemma_names(table: Seq<(YamlV, YamlV)>, name: Seq<char>)
    ensures
        lookup(bridged_entries(table), name) is Some <==> (exists|k: int|
            0 <= k < table.len() && key_text((#[trigger] table[k]).0) == name),
    decreases table.len(),
{
    if table.len() > 0 {
        let front = table.drop_last();
        let n = table.len() - 1;
        lemma_names(front, name);
        put_is_found(bridged_entries(front), key_text(table.last().0), bridged(table.last().1), name);
        if key_text(table.last().0) == name {
            assert(key_text(table[n as int].0) == name);
        } else {
            if exists|k: int| 0 <= k < table.len() && key_text((#[trigger] table[k]).0) == name {
                let k = choose|k: int|
                    0 <= k < table.len() && key_text((#[trigger] table[k]).0) == name;
                assert(front[k] == table[k]);
            }
            if exists|k: int| 0 <= k < front.len() && key_text((#[trigger] front[k]).0) == name {
                let k = choose|k: int|
                    0 <= k < front.len() && key_text((#[trigger] front[k]).0) == name;
                assert(front[k] == table[k]);
            }
        }
    } else {
        assert(bridged_entries(table) =~= Seq::empty());
    }
}

/// No field is unknown exactly where every key reads as one of the allowed names.
proof fn lemma_known(table: Seq<(YamlV, YamlV)>, allowed: Seq<Seq<char>>)
    requires
        forall|n: int| 0 <= n < allowed.len() ==> wordy(#[trigger] allowed[n]),
    ensures
        names_of(extra_entries(bridged_entries(table), allowed)).len() == 0 <==> only_names(
            table,
            allowed,
        ),
{
    let entries = bridged_entries(table);
    lemma_extra(entries, allowed);
    if only_names(table, allowed) {
        assert forall|i: int| 0 <= i < entries.len() implies allowed.contains(
            (#[trigger] entries[i]).0,
        ) by {
            let name = entries[i].0;
            lemma_position(entries, name);
            lemma_names(table, name);
            let k = choose|k: int| 0 <= k < table.len() && key_text((#[trigger] table[k]).0) == name;
            let n = choose|n: int|
                0 <= n < allowed.len() && reads_as(table[k].0, #[trigger] allowed[n]);
            lemma_reads_as(table[k].0, allowed[n]);
            assert(allowed[n] == name);
        }
    }
    if forall|i: int| 0 <= i < entries.len() ==> allowed.contains((#[trigger] entries[i]).0) {
        assert forall|k: int| 0 <= k < table.len() implies exists|n: int|
            0 <= n < allowed.len() && reads_as((#[trigger] table[k]).0, #[trigger] allowed[n]) by {
            let name = key_text(table[k].0);
            lemma_names(table, name);
            lemma_position(entries, name);
            let i = position(entries, name);
            assert(allowed.contains(entries[i].0));
            let n = allowed.index_of(name);
            lemma_reads_as(table[k].0, allowed[n]);
            assert(reads_as(table[k].0, allowed[n]));
        }
    }
}

/// A field holds a text exactly where the table binds it to one.
proof fn lemma_filled(table: Seq<(YamlV, YamlV)>, name: Seq<char>, t: Seq<char>)
    requires
        wordy(name),
    ensures
        has_text(bridged_entries(table), name) ==> ({
            let s = lookup(bridged_entries(table), name)->0->Text_0;
            &&& bound_to(table, name, YamlV::Text(s))
            &&& filled_text(table, name, trimmed(s))
        }),
        filled_text(table, name, t) ==> has_text(bridged_entries(table), name),
        forall|s: Seq<char>| #[trigger]
            bound_to(table, name, YamlV::Text(s)) ==> lookup(bridged_entries(table), name) == Some(
                JsonV::Text(s),
            ),
{
    lemma_table(table, name);
    if has_text(bridged_entries(table), name) {
        let s = lookup(bridged_entries(table), name)->0->Text_0;
        let i = choose|i: int| #[trigger] last_under(table, name, i);
        lemma_text(table[i].1);
        assert(bound_to(table, name, YamlV::Text(s)));
        trimming_takes_white_space(s);
    }
}

// ---- rules ----

/// Whether a text is a rule key: up to 128 letters, digits, dots, underscores and hyphens, a letter
/// or digit first.
pub open spec fn key_like(s: Seq<char>) -> bool {
    &&& 0 < s.len() < 129
    &&& s[0] != '.' && s[0] != '_' && s[0] != '-'
    &&& forall|i: int|
        0 <= i < s.len() ==> {
            let c = #[trigger] s[i];
            ||| 'a' <= c <= 'z'
            ||| 'A' <= c <= 'Z'
            ||| '0' <= c <= '9'
            ||| c == '.'
            ||| c == '_'
            ||| c == '-'
        }
}

/// Whether an object shows the fields of a rule, and nothing else.
pub open spec fn shows_rule(v: JsonV, rule: RuleV) -> bool {
    &&& tidy(v)
    &&& field(v, "key"@) == Some(JsonV::Text(rule.key))
    &&& field(v, "summary"@) == Some(JsonV::Text(rule.summary))
    &&& field(v, "content"@) == Some(JsonV::Text(rule.content))
    &&& field(v, "tags"@) == Some(texts(rule.tags))
    &&& field(v, "paths"@) == Some(texts(rule.paths))
    &&& field(v, "languages"@) == Some(texts(rule.languages))
    &&& forall|name: Seq<char>|
        #[trigger] field(v, name) is Some ==> name == "key"@ || name == "summary"@ || name
            == "content"@ || name == "tags"@ || name == "paths"@ || name == "languages"@
}

/// Whether a rule carries the digest of its own fields.
pub open spec fn carries_digest(rule: RuleV) -> bool {
    exists|v: JsonV| #[trigger]
        shows_rule(v, rule) && rule.source_rule_hash == text_digest(canonical(v))
}

/// Whether a metadata block and the text behind it state a rule.
pub open spec fn states(block: Seq<char>, behind: Seq<char>, rule: RuleV) -> bool {
    &&& yaml_document(block) matches Ok(YamlV::Table(table)) && {
        &&& only_names(table, seq!["summary"@, "tags"@, "paths"@, "languages"@])
        &&& filled_text(table, "summary"@, rule.summary)
        &&& forall|s: Seq<char>|
            #[trigger] bound_to(table, "summary"@, YamlV::Text(s)) ==> !s.contains('\n')
        &&& listed(table, "tags"@, rule.tags)
        &&& listed(table, "paths"@, rule.paths)
        &&& listed(table, "languages"@, rule.languages)
    }
    &&& forall|i: int|
        0 <= i < rule.languages.len() ==> lowercase(#[trigger] rule.languages[i])
            == rule.languages[i]
    &&& stripped_of(rule.content, behind)
    &&& rule.content.len() > 0
    &&& carries_digest(rule)
}

proof fn lemma_shows_rule(rule: RuleV)
    ensures
        shows_rule(rule_fields_value(rule), rule),
{
    reveal_strlit("key");
    reveal_strlit("summary");
    reveal_strlit("content");
    reveal_strlit("tags");
    reveal_strlit("paths");
    reveal_strlit("languages");
    assert("key"@.len() == 3 && "summary"@.len() == 7 && "content"@.len() == 7 && "tags"@.len()
        == 4 && "paths"@.len() == 5 && "languages"@.len() == 9);
    assert("summary"@[0] == 's' && "content"@[0] == 'c');
    let a = detail("key"@, JsonV::Text(rule.key));
    lemma_detail("key"@, JsonV::Text(rule.key));
    let b = and_detail(a, "summary"@, JsonV::Text(rule.summary));
    lemma_and_detail(a, "summary"@, JsonV::Text(rule.summary));
    let c = and_detail(b, "content"@, JsonV::Text(rule.content));
    lemma_and_detail(b, "content"@, JsonV::Text(rule.content));
    let d = and_detail(c, "tags"@, texts(rule.tags));
    lemma_and_detail(c, "tags"@, texts(rule.tags));
    let e = and_detail(d, "paths"@, texts(rule.paths));
    lemma_and_detail(d, "paths"@, texts(rule.paths));
    lemma_and_detail(e, "languages"@, texts(rule.languages));
}

proof fn lemma_states(
    key: Seq<char>,
    table: Seq<(YamlV, YamlV)>,
    block: Seq<char>,
    line: int,
    behind: Seq<char>,
    path: Seq<char>,
    rule: RuleV,
)
    requires
        yaml_document(block) == Ok::<YamlV, Seq<char>>(YamlV::Table(table)),
    ensures
        ({
            let r = rule_from(key, bridged_entries(table), line, trimmed(behind), path);
            &&& r matches Ok(made) ==> made.key == key && states(block, behind, made)
            &&& states(block, behind, rule) ==> r is Ok
        }),
{
    let meta = bridged_entries(table);
    let r = rule_from(key, meta, line, trimmed(behind), path);
    let names = seq!["summary"@, "tags"@, "paths"@, "languages"@];
    assert(rule_meta_fields() =~= names);
    lemma_wordy();
    assert forall|n: int| 0 <= n < names.len() implies wordy(#[trigger] names[n]) by {}
    lemma_known(table, names);
    trimming_takes_white_space(behind);
    if let Ok(made) = r {
        lemma_filled(table, "summary"@, made.summary);
        lemma_listed(table, "tags"@, path, made.tags);
        lemma_listed(table, "paths"@, path, made.paths);
        lemma_listed(table, "languages"@, path, made.languages);
        let bare = RuleV { source_rule_hash: Seq::empty(), ..made };
        lemma_shows_rule(bare);
        assert(shows_rule(rule_fields_value(bare), made));
        assert(carries_digest(made));
    }
    if states(block, behind, rule) {
        lemma_filled(table, "summary"@, rule.summary);
        lemma_listed(table, "tags"@, path, rule.tags);
        lemma_listed(table, "paths"@, path, rule.paths);
        lemma_listed(table, "languages"@, path, rule.languages);
        let found = list_field(lookup(meta, "languages"@), "languages"@, path)->Ok_0;
        lemma_listed(table, "languages"@, path, found);
        lemma_listed_alike(table, "languages"@, found, rule.languages);
        lemma_stripped_blank(rule.content, behind);
        lemma_blank(behind);
    }
}

/// Two lists of what a table lists hold the same texts.
proof fn lemma_listed_alike(
    table: Seq<(YamlV, YamlV)>,
    name: Seq<char>,
    a: Seq<Seq<char>>,
    b: Seq<Seq<char>>,
)
    requires
        listed(table, name, a),
        listed(table, name, b),
    ensures
        forall|i: int| 0 <= i < a.len() ==> b.contains(#[trigger] a[i]),
{
    if !unbound(table, name) {
        let (v, given) = choose|v: YamlV, given: Seq<Seq<char>>|
            {
                &&& #[trigger] bound_to(table, name, v)
                &&& #[trigger] filled_texts(v, given)
                &&& each_once(a, given)
            };
        let (w, other) = choose|w: YamlV, other: Seq<Seq<char>>|
            {
                &&& #[trigger] bound_to(table, name, w)
                &&& #[trigger] filled_texts(w, other)
                &&& each_once(b, other)
            };
        let i = choose|i: int| #[trigger] last_under(table, name, i) && table[i].1 == v;
        let j = choose|j: int| #[trigger] last_under(table, name, j) && table[j].1 == w;
        assert(i == j) by {
            if i < j {
                assert(!reads_as(table[j].0, name));
            }
            if j < i {
                assert(!reads_as(table[i].0, name));
            }
        }
        lemma_given_alike(v, given, other);
        assert forall|k: int| 0 <= k < a.len() implies b.contains(#[trigger] a[k]) by {
            assert(a.contains(a[k]));
        }
    } else {
        assert(a.len() == 0) by {
            if exists|v: YamlV, given: Seq<Seq<char>>|
                {
                    &&& #[trigger] bound_to(table, name, v)
                    &&& #[trigger] filled_texts(v, given)
                    &&& each_once(a, given)
                } {
                let (v, given) = choose|v: YamlV, given: Seq<Seq<char>>|
                    {
                        &&& #[trigger] bound_to(table, name, v)
                        &&& #[trigger] filled_texts(v, given)
                        &&& each_once(a, given)
                    };
                let i = choose|i: int| #[trigger] last_under(table, name, i) && table[i].1 == v;
                assert(reads_as(table[i].0, name));
            }
        }
    }
}

proof fn lemma_given_alike(v: YamlV, a: Seq<Seq<char>>, b: Seq<Seq<char>>)
    requires
        filled_texts(v, a),
        filled_texts(v, b),
    ensures
        a == b,
{
    let x = a.map_values(|t: Seq<char>| YamlV::Text(t));
    let y = b.map_values(|t: Seq<char>| YamlV::Text(t));
    assert(x == y);
    assert(a.len() == x.len() && b.len() == y.len());
    assert forall|i: int| 0 <= i < a.len() implies a[i] == b[i] by {
        assert(x[i] == YamlV::Text(a[i]));
        assert(y[i] == YamlV::Text(b[i]));
    }
    assert(a =~= b);
}

/// Where something is left of a text, it was not blank.
proof fn lemma_stripped_blank(t: Seq<char>, s: Seq<char>)
    requires
        stripped_of(t, s),
    ensures
        t.len() > 0 <==> !is_blank(s),
{
    let lo = choose|lo: int|
        {
            &&& 0 <= lo <= lo + t.len() <= s.len()
            &&& #[trigger] s.subrange(lo, lo + t.len()) == t
            &&& forall|i: int| 0 <= i < s.len() && !(lo <= i < lo + t.len()) ==> is_white(
                #[trigger] s[i],
            )
        };
    if t.len() > 0 {
        assert(s.subrange(lo, lo + t.len())[0] == s[lo]);
        assert(!is_white(s[lo]));
    }
}

// ---- sections ----

/// Whether the fence at `k` is a metadata block that opens between the lines `lo` and `hi`.
pub open spec fn is_block(fences: Seq<FenceV>, lo: int, hi: int, k: int) -> bool {
    &&& 0 <= k < fences.len()
    &&& lo < fences[k].open < hi
    &&& fences[k].info == "yaml review-rule"@
}

/// Whether the fence at `k` is the one metadata block between the lines `lo` and `hi`.
pub open spec fn only_block(fences: Seq<FenceV>, lo: int, hi: int, k: int) -> bool {
    &&& is_block(fences, lo, hi, k)
    &&& forall|j: int| #[trigger] is_block(fences, lo, hi, j) ==> j == k
}

/// Where the section of the heading at `p` ends: at the next heading, or with the last line.
pub open spec fn end_of_section(lines: Seq<Seq<char>>, headings: Seq<HeadingV>, p: int) -> int {
    if p == headings.len() - 1 {
        lines.len() as int
    } else {
        headings[p + 1].line
    }
}

/// Whether the section of the heading at `p` is that of a rule: a key that no earlier heading has
/// in any case, one metadata block with nothing but blank lines before it, and the content behind.
pub open spec fn section_states(lines: Seq<Seq<char>>, p: int, rule: RuleV) -> bool {
    let headings = headings_of(lines);
    let fences = fences_of(lines);
    let at = headings[p].line;
    let end = end_of_section(lines, headings, p);
    &&& rule.key == headings[p].key
    &&& key_like(rule.key)
    &&& forall|q: int|
        0 <= q < p ==> lowercase((#[trigger] headings[q]).key) != lowercase(rule.key)
    &&& exists|k: int|
        {
            &&& #[trigger] only_block(fences, at, end, k)
            &&& forall|i: int| at < i < fences[k].open ==> is_blank(#[trigger] lines[i])
            &&& states(
                fences[k].content,
                joined(lines.subrange(fences[k].end, end), "\n"@),
                rule,
            )
        }
}

proof fn lemma_key_like(s: Seq<char>)
    ensures
        is_key(s) <==> key_like(s),
{
}

proof fn lemma_blocks(fences: Seq<FenceV>, lo: int, hi: int)
    ensures
        section_fences(fences, lo, hi).len() == 0 <==> (forall|j: int|
            !#[trigger] is_block(fences, lo, hi, j)),
        section_fences(fences, lo, hi).len() == 1 <==> (exists|k: int| #[trigger]
            only_block(fences, lo, hi, k)),
        section_fences(fences, lo, hi).len() == 1 ==> forall|k: int| #[trigger]
            only_block(fences, lo, hi, k) ==> section_fences(fences, lo, hi)[0] == fences[k],
    decreases fences.len(),
{
    if fences.len() > 0 {
        let front = fences.drop_last();
        let n = fences.len() - 1;
        lemma_blocks(front, lo, hi);
        assert forall|j: int| j != n implies #[trigger] is_block(fences, lo, hi, j) == is_block(
            front,
            lo,
            hi,
            j,
        ) by {
            if 0 <= j < n {
                assert(front[j] == fences[j]);
            }
        }
        assert(!is_block(front, lo, hi, n as int));
        if is_block(fences, lo, hi, n as int) {
            if forall|j: int| !#[trigger] is_block(front, lo, hi, j) {
                assert(only_block(fences, lo, hi, n as int));
            } else {
                let j = choose|j: int| #[trigger] is_block(front, lo, hi, j);
                assert(is_block(fences, lo, hi, j));
                assert(j != n);
                assert forall|k: int| !#[trigger] only_block(fences, lo, hi, k) by {
                    if only_block(fences, lo, hi, k) {
                        assert(j == k && n == k);
                    }
                }
            }
        } else {
            assert forall|k: int| #[trigger] only_block(fences, lo, hi, k) == only_block(
                front,
                lo,
                hi,
                k,
            ) by {
                if only_block(fences, lo, hi, k) {
                    assert forall|j: int| #[trigger] is_block(front, lo, hi, j) implies j == k by {
                        assert(is_block(fences, lo, hi, j));
                    }
                }
                if only_block(front, lo, hi, k) {
                    assert forall|j: int| #[trigger] is_block(fences, lo, hi, j) implies j
                        == k by {
                        assert(is_block(front, lo, hi, j));
                    }
                    assert(front[k] == fences[k]);
                    assert(is_block(fences, lo, hi, k));
                }
            }
            if forall|j: int| !#[trigger] is_block(front, lo, hi, j) {
                assert forall|j: int| !#[trigger] is_block(fences, lo, hi, j) by {}
            }
            if section_fences(fences, lo, hi).len() == 1 {
                let k = choose|k: int| #[trigger] only_block(front, lo, hi, k);
                assert(only_block(fences, lo, hi, k));
            }
            if exists|k: int| #[trigger] only_block(fences, lo, hi, k) {
                let k = choose|k: int| #[trigger] only_block(fences, lo, hi, k);
                assert(only_block(front, lo, hi, k));
            }
            if exists|j: int| #[trigger] is_block(front, lo, hi, j) {
                let j = choose|j: int| #[trigger] is_block(front, lo, hi, j);
                assert(is_block(fences, lo, hi, j));
            }
        }
    }
}

proof fn lemma_clash(headings: Seq<HeadingV>, p: int, upto: int)
    requires
        0 <= upto <= headings.len(),
    ensures
        clash(headings, p, upto) is None <==> (forall|q: int|
            0 <= q < upto ==> lowercase((#[trigger] headings[q]).key) != lowercase(
                headings[p].key,
            )),
    decreases upto,
{
    if upto > 0 {
        lemma_clash(headings, p, upto - 1);
    }
}

proof fn lemma_section(path: Seq<char>, lines: Seq<Seq<char>>, p: int, rule: RuleV)
    requires
        0 <= p < headings_of(lines).len(),
    ensures
        rule_at(path, lines, p) matches Ok(made) ==> section_states(lines, p, made),
        section_states(lines, p, rule) ==> rule_at(path, lines, p) is Ok,
{
    let headings = headings_of(lines);
    let fences = fences_of(lines);
    let at = headings[p].line;
    let key = headings[p].key;
    let end = section_end(headings, p, lines.len() as int);
    let blocks = section_fences(fences, at, end);
    assert(end == end_of_section(lines, headings, p));
    lemma_key_like(key);
    lemma_clash(headings, p, p);
    lemma_blocks(fences, at, end);
    if blocks.len() == 1 {
        let k = choose|k: int| #[trigger] only_block(fences, at, end, k);
        let f = fences[k];
        let behind = joined(lines.subrange(f.end, end), "\n"@);
        assert(blocks[0] == f);
        if blank_between(lines, at + 1, f.open) {
            assert forall|i: int| at < i < f.open implies is_blank(#[trigger] lines[i]) by {}
        }
        if let Ok(y) = yaml_document(f.content) {
            lemma_no_list(y);
            if let YamlV::Table(table) = y {
                assert(bridged(y) == JsonV::Object(bridged_entries(table)));
                lemma_states(key, table, f.content, f.open, behind, path, rule);
            }
        }
        if let Ok(made) = rule_at(path, lines, p) {
            assert(only_block(fences, at, end, k));
            assert(states(f.content, behind, made));
        }
        if section_states(lines, p, rule) {
            let j = choose|j: int|
                {
                    &&& #[trigger] only_block(fences, at, end, j)
                    &&& forall|i: int| at < i < fences[j].open ==> is_blank(#[trigger] lines[i])
                    &&& states(
                        fences[j].content,
                        joined(lines.subrange(fences[j].end, end), "\n"@),
                        rule,
                    )
                };
            assert(is_block(fences, at, end, j));
            assert(j == k);
        }
    }
}

proof fn lemma_rules(path: Seq<char>, lines: Seq<Seq<char>>, n: int)
    requires
        0 <= n,
    ensures
        rules_upto(path, lines, n) is Ok <==> (forall|p: int|
            0 <= p < n ==> (#[trigger] rule_at(path, lines, p)) is Ok),
        rules_upto(path, lines, n) matches Ok(rules) ==> rules.len() == n && forall|p: int|
            0 <= p < n ==> #[trigger] rule_at(path, lines, p) == Ok::<RuleV, ErrorV>(rules[p]),
    decreases n,
{
    if n > 0 {
        lemma_rules(path, lines, n - 1);
        if rules_upto(path, lines, n) is Ok {
            assert forall|p: int| 0 <= p < n implies (#[trigger] rule_at(path, lines, p)) is Ok by {
                if p < n - 1 {
                    assert(rule_at(path, lines, p) is Ok);
                }
            }
        }
        if forall|p: int| 0 <= p < n ==> (#[trigger] rule_at(path, lines, p)) is Ok {
            assert(rule_at(path, lines, n - 1) is Ok);
        }
    }
}

// ---- front matter ----

/// Whether a text is a line end.
pub open spec fn ends_line(s: Seq<char>) -> bool {
    s == seq!['\n'] || s == seq!['\r', '\n']
}

/// Whether a text is a line of three hyphens, `matter`, another such line, and `body`. The second
/// line of hyphens may end with the text.
pub open spec fn fronted(s: Seq<char>, matter: Seq<char>, body: Seq<char>) -> bool {
    exists|a: Seq<char>, b: Seq<char>, c: Seq<char>|
        {
            &&& ends_line(a)
            &&& ends_line(b)
            &&& ends_line(c) || (c.len() == 0 && body.len() == 0)
            &&& s == #[trigger] bordered(a, matter, b, c, body)
        }
}

/// A line of three hyphens, `matter`, another such line, and `body`.
pub open spec fn bordered(
    a: Seq<char>,
    matter: Seq<char>,
    b: Seq<char>,
    c: Seq<char>,
    body: Seq<char>,
) -> Seq<char> {
    seq!['-', '-', '-'] + a + matter + b + seq!['-', '-', '-'] + c + body
}

proof fn lemma_ends_line(s: Seq<char>)
    ensures
        ends_line(s) <==> (s.len() == 1 && s[0] == '\n') || (s.len() == 2 && s[0] == '\r' && s[1]
            == '\n'),
{
    let a = seq!['\n'];
    let b = seq!['\r', '\n'];
    assert(a.len() == 1 && a[0] == '\n' && b.len() == 2 && b[0] == '\r' && b[1] == '\n');
    if s.len() == 1 && s[0] == '\n' {
        assert(s =~= a);
    }
    if s.len() == 2 && s[0] == '\r' && s[1] == '\n' {
        assert(s =~= b);
    }
}

/// Where a front matter closes, and with how much.
spec fn closes_at(s: Seq<char>, at: int, b: Seq<char>, c: Seq<char>) -> bool {
    &&& ends_line(b)
    &&& ends_line(c) || (c.len() == 0 && at + b.len() + 3 == s.len())
    &&& 0 <= at <= at + b.len() + 3 + c.len() <= s.len()
    &&& s.subrange(at, at + b.len()) == b
    &&& s.subrange(at + b.len(), at + b.len() + 3) == seq!['-', '-', '-']
    &&& s.subrange(at + b.len() + 3, at + b.len() + 3 + c.len()) == c
}

proof fn lemma_begins(s: Seq<char>, prefix: Seq<char>)
    ensures
        begins(s, prefix) <==> prefix.len() <= s.len() && forall|i: int|
            0 <= i < prefix.len() ==> s[i] == #[trigger] prefix[i],
{
    if prefix.len() <= s.len() {
        let front = s.take(prefix.len() as int);
        if begins(s, prefix) {
            assert forall|i: int| 0 <= i < prefix.len() implies s[i] == #[trigger] prefix[i] by {
                assert(front[i] == prefix[i]);
            }
        } else if forall|i: int| 0 <= i < prefix.len() ==> s[i] == #[trigger] prefix[i] {
            assert(front =~= prefix);
        }
    }
}

proof fn lemma_line_end(s: Seq<char>)
    ensures
        line_end(s) matches Some(n) ==> 0 <= n <= s.len() && (ends_line(s.take(n)) || (n == 0
            && s.len() == 0)),
        forall|n: int|
            0 <= n <= s.len() && (ends_line(#[trigger] s.take(n)) || (n == 0 && s.len() == 0))
                ==> line_end(s) == Some(n),
{
    reveal_strlit("\n");
    reveal_strlit("\r\n");
    lemma_begins(s, "\n"@);
    lemma_begins(s, "\r\n"@);
    if let Some(n) = line_end(s) {
        if n == 1 {
            assert(s.take(1) =~= seq!['\n']);
        } else if n == 2 {
            assert("\r\n"@[0] == '\r' && "\r\n"@[1] == '\n');
            assert(s.take(2) =~= seq!['\r', '\n']);
        }
    }
    assert forall|n: int|
        0 <= n <= s.len() && (ends_line(#[trigger] s.take(n)) || (n == 0 && s.len()
            == 0)) implies line_end(s) == Some(n) by {
        let t = s.take(n);
        if t == seq!['\n'] {
            assert(t[0] == '\n' && t.len() == 1);
            assert(s[0] == '\n');
        } else if t == seq!['\r', '\n'] {
            assert(t[0] == '\r' && t[1] == '\n' && t.len() == 2);
            assert(s[0] == '\r' && s[1] == '\n');
        }
    }
}

proof fn lemma_close(s: Seq<char>, at: int)
    requires
        0 <= at <= s.len(),
    ensures
        matter_close(s.skip(at)) matches Some(n) ==> exists|b: Seq<char>, c: Seq<char>| #[trigger]
            closes_at(s, at, b, c) && n == b.len() + 3 + c.len(),
        forall|b: Seq<char>, c: Seq<char>| #[trigger]
            closes_at(s, at, b, c) ==> matter_close(s.skip(at)) == Some(
                (b.len() + 3 + c.len()) as int,
            ),
{
    let t = s.skip(at);
    reveal_strlit("\n---");
    reveal_strlit("\r\n---");
    lemma_begins(t, "\n---"@);
    lemma_begins(t, "\r\n---"@);
    if let Some(n) = matter_close(t) {
        let lead: int = if begins(t, "\n---"@) {
            1
        } else {
            2
        };
        let rest = t.skip(lead + 3);
        lemma_line_end(rest);
        let m = line_end(rest)->0;
        let b = s.subrange(at, at + lead);
        let c = rest.take(m);
        if lead == 1 {
            assert("\n---"@[0] == '\n' && "\n---"@[1] == '-' && "\n---"@[2] == '-'
                && "\n---"@[3] == '-');
            assert(b =~= seq!['\n']);
        } else {
            assert("\r\n---"@[0] == '\r' && "\r\n---"@[1] == '\n' && "\r\n---"@[2] == '-'
                && "\r\n---"@[3] == '-' && "\r\n---"@[4] == '-');
            assert(b =~= seq!['\r', '\n']);
        }
        assert(s.subrange(at + lead, at + lead + 3) =~= seq!['-', '-', '-']);
        assert(s.subrange(at + b.len() + 3, at + b.len() + 3 + c.len()) =~= c);
        assert(closes_at(s, at, b, c));
    }
    assert forall|b: Seq<char>, c: Seq<char>| #[trigger] closes_at(s, at, b, c) implies matter_close(
        t,
    ) == Some((b.len() + 3 + c.len()) as int) by {
        let lead = b.len() as int;
        lemma_ends_line(b);
        lemma_ends_line(c);
        let x = s.subrange(at, at + lead);
        let d = s.subrange(at + lead, at + lead + 3);
        assert(d[0] == '-' && d[1] == '-' && d[2] == '-');
        assert(x[0] == s[at] && d[0] == s[at + lead] && d[1] == s[at + lead + 1] && d[2] == s[at
            + lead + 2]);
        if lead == 2 {
            assert(x[1] == s[at + 1]);
        }
        assert(t[0] == s[at]);
        if lead == 2 {
            assert(t[1] == s[at + 1] && t[2] == s[at + 2] && t[3] == s[at + 3] && t[4] == s[at + 4]);
            assert("\n---"@[0] == '\n' && "\r\n---"@[0] == '\r');
            assert(begins(t, "\r\n---"@));
            assert(!begins(t, "\n---"@));
        } else {
            assert(t[1] == s[at + 1] && t[2] == s[at + 2] && t[3] == s[at + 3]);
            assert(begins(t, "\n---"@));
        }
        let rest = t.skip(lead + 3);
        lemma_line_end(rest);
        assert(rest.take(c.len() as int) =~= s.subrange(
            at + lead + 3,
            at + lead + 3 + c.len(),
        ));
    }
}

proof fn lemma_first_close(s: Seq<char>, from: int)
    requires
        0 <= from,
    ensures
        match first_close(s, from) {
            Some(at) => from <= at <= s.len() && matter_close(s.skip(at)) is Some && forall|i: int|
                from <= i < at ==> matter_close(#[trigger] s.skip(i)) is None,
            None => forall|i: int|
                from <= i <= s.len() ==> matter_close(#[trigger] s.skip(i)) is None,
        },
    decreases s.len() + 1 - from,
{
    if from <= s.len() && matter_close(s.skip(from)) is None {
        lemma_first_close(s, from + 1);
    }
}

proof fn lemma_start(s: Seq<char>)
    ensures
        matter_start(s) matches Some(n) ==> 3 < n <= s.len() && s.take(3) == seq!['-', '-', '-']
            && ends_line(s.subrange(3, n)),
        forall|n: int|
            3 <= n <= s.len() && s.take(3) == seq!['-', '-', '-'] && ends_line(
                #[trigger] s.subrange(3, n),
            ) ==> matter_start(s) == Some(n),
{
    reveal_strlit("---\n");
    reveal_strlit("---\r\n");
    lemma_begins(s, "---\n"@);
    lemma_begins(s, "---\r\n"@);
    assert("---\n"@[0] == '-' && "---\n"@[1] == '-' && "---\n"@[2] == '-' && "---\n"@[3]
        == '\n');
    assert("---\r\n"@[0] == '-' && "---\r\n"@[1] == '-' && "---\r\n"@[2] == '-'
        && "---\r\n"@[3] == '\r' && "---\r\n"@[4] == '\n');
    if let Some(n) = matter_start(s) {
        assert(s.take(3) =~= seq!['-', '-', '-']);
        if n == 4 {
            assert(s.subrange(3, 4) =~= seq!['\n']);
        } else {
            assert(s.subrange(3, 5) =~= seq!['\r', '\n']);
        }
    }
    assert forall|n: int|
        3 <= n <= s.len() && s.take(3) == seq!['-', '-', '-'] && ends_line(
            #[trigger] s.subrange(3, n),
        ) implies matter_start(s) == Some(n) by {
        let d = s.take(3);
        assert(d[0] == s[0] && d[1] == s[1] && d[2] == s[2]);
        let x = s.subrange(3, n);
        lemma_ends_line(x);
        assert(x[0] == s[3]);
        if x.len() == 2 {
            assert(x[1] == s[4]);
        }
    }
}

proof fn lemma_fronted(s: Seq<char>)
    requires
        front_matter(s) is Some,
    ensures
        front_matter(s) matches Some((matter, body)) ==> fronted(s, matter, body),
{
    lemma_start(s);
    let (matter, body) = front_matter(s)->0;
    let start = matter_start(s)->0;
    lemma_first_close(s, start);
    let at = first_close(s, start)->0;
    lemma_close(s, at);
    let (b, c) = choose|b: Seq<char>, c: Seq<char>| #[trigger]
        closes_at(s, at, b, c) && matter_close(s.skip(at)) == Some(
            (b.len() + 3 + c.len()) as int,
        );
    let a = s.subrange(3, start);
    assert(s =~= s.take(3) + a + matter + s.subrange(at, at + b.len()) + s.subrange(
        at + b.len(),
        at + b.len() + 3,
    ) + s.subrange(at + b.len() + 3, at + b.len() + 3 + c.len()) + body);
    assert(s == bordered(a, matter, b, c, body));
}

proof fn lemma_fronts(s: Seq<char>, other_matter: Seq<char>, other_body: Seq<char>)
    requires
        fronted(s, other_matter, other_body),
    ensures
        front_matter(s) matches Some((matter, _)) && matter.len() <= other_matter.len(),
{
    lemma_start(s);
    let (a, b, c) = choose|a: Seq<char>, b: Seq<char>, c: Seq<char>|
        {
            &&& ends_line(a)
            &&& ends_line(b)
            &&& ends_line(c) || (c.len() == 0 && other_body.len() == 0)
            &&& s == #[trigger] bordered(a, other_matter, b, c, other_body)
        };
    let start = 3 + a.len() as int;
    let at = start + other_matter.len();
    assert(s.take(3) =~= seq!['-', '-', '-']);
    assert(s.subrange(3, start) =~= a);
    assert(s.subrange(at, at + b.len()) =~= b);
    assert(s.subrange(at + b.len(), at + b.len() + 3) =~= seq!['-', '-', '-']);
    assert(s.subrange(at + b.len() + 3, at + b.len() + 3 + c.len()) =~= c);
    assert(closes_at(s, at, b, c));
    assert(matter_start(s) == Some(start));
    lemma_close(s, at);
    lemma_first_close(s, start);
    assert(matter_close(s.skip(at)) is Some);
    if first_close(s, start) is None {
        assert(matter_close(s.skip(at)) is None);
    } else {
        let first = first_close(s, start)->0;
        if at < first {
            assert(matter_close(s.skip(at)) is None);
        }
    }
}

/// The front matter of a text lies between two lines of three hyphens, the first of which begins
/// the text and the second of which is the first that can end it. A text without such lines has
/// none.
pub proof fn front_matter_lies_between_lines(
    s: Seq<char>,
    other_matter: Seq<char>,
    other_body: Seq<char>,
)
    ensures
        front_matter(s) matches Some((matter, body)) ==> fronted(s, matter, body),
        fronted(s, other_matter, other_body) ==> (front_matter(s) matches Some((matter, _))
            && matter.len() <= other_matter.len()),
{
    if front_matter(s) is Some {
        lemma_fronted(s);
    }
    if fronted(s, other_matter, other_body) {
        lemma_fronts(s, other_matter, other_body);
    }
}

// ---- checklists ----

/// Whether a table binds `name` to the number one.
pub open spec fn bound_to_one(table: Seq<(YamlV, YamlV)>, name: Seq<char>) -> bool {
    exists|n: YamlNumberV|
        {
            &&& #[trigger] bound_to(table, name, YamlV::Number(n))
            &&& n.signed == Some(1int) || (n.signed is None && n.unsigned == Some(1int))
        }
}

/// Whether a front matter states the version and the description of a checklist, and nothing else
/// than the format asks for.
pub open spec fn front_states(matter: Seq<char>, c: ChecklistV) -> bool {
    yaml_document(matter) matches Ok(YamlV::Table(table)) && {
        &&& only_names(
            table,
            seq!["schema_version"@, "checklist_version"@, "global_description"@],
        )
        &&& bound_to_one(table, "schema_version"@)
        &&& filled_text(table, "checklist_version"@, c.checklist_version)
        &&& filled_text(table, "global_description"@, c.global_description)
    }
}

/// Whether a file states a checklist: a front matter, then one section for each of its rules, in
/// their order.
pub open spec fn file_states(raw: Seq<u8>, c: ChecklistV) -> bool {
    &&& vstd::utf8::valid_utf8(raw)
    &&& front_matter(vstd::utf8::decode_utf8(raw)) matches Some((matter, body)) && {
        &&& front_states(matter, c)
        &&& c.rules.len() == headings_of(lines_of(body)).len()
        &&& forall|p: int|
            0 <= p < c.rules.len() ==> section_states(lines_of(body), p, #[trigger] c.rules[p])
    }
    &&& c.rules.len() > 0
    &&& c.schema_version == 1
    &&& c.content_hash == digest_text(raw)
}

proof fn lemma_one(table: Seq<(YamlV, YamlV)>, name: Seq<char>)
    requires
        wordy(name),
    ensures
        lookup(bridged_entries(table), name) == Some(JsonV::Int(1)) <==> bound_to_one(table, name),
{
    lemma_table(table, name);
    if lookup(bridged_entries(table), name) == Some(JsonV::Int(1)) {
        let i = choose|i: int| #[trigger] last_under(table, name, i);
        let y = table[i].1;
        assert(bridged(y) == JsonV::Int(1));
        assert(y is Number);
        assert(bound_to(table, name, YamlV::Number(y->Number_0)));
    }
    if bound_to_one(table, name) {
        let n = choose|n: YamlNumberV|
            {
                &&& #[trigger] bound_to(table, name, YamlV::Number(n))
                &&& n.signed == Some(1int) || (n.signed is None && n.unsigned == Some(1int))
            };
        let i = choose|i: int|
            #[trigger] last_under(table, name, i) && table[i].1 == YamlV::Number(n);
        assert(bridged(table[i].1) == bridged_number(n));
    }
}

/// A file is accepted as a checklist exactly where it states one, and what is read is what it
/// states: the version and the description of the front matter, and for each level-two heading one
/// rule with the key, the summary, the content and the lists of its section. Of the texts that a
/// section lists none is lost, and none is added.
#[verifier::spinoff_prover]
#[verifier::rlimit(50)]
pub proof fn a_checklist_is_what_its_file_states(path: Seq<char>, raw: Seq<u8>, c: ChecklistV)
    ensures
        checklist_of(path, Some(raw)) matches Ok(read) ==> file_states(raw, read),
        file_states(raw, c) ==> checklist_of(path, Some(raw)) is Ok,
{
    let source = vstd::utf8::decode_utf8(raw);
    let names = seq!["schema_version"@, "checklist_version"@, "global_description"@];
    assert(file_fields() =~= names);
    lemma_wordy();
    assert forall|n: int| 0 <= n < names.len() implies wordy(#[trigger] names[n]) by {}
    if vstd::utf8::valid_utf8(raw) {
        if let Some((matter, body)) = front_matter(source) {
            let lines = lines_of(body);
            let count = headings_of(lines).len() as int;
            lemma_rules(path, lines, count);
            if let Ok(y) = yaml_document(matter) {
                lemma_no_list(y);
                if let YamlV::Table(table) = y {
                    assert(bridged(y) == JsonV::Object(bridged_entries(table)));
                    lemma_known(table, names);
                    lemma_one(table, "schema_version"@);
                    lemma_filled(table, "checklist_version"@, c.checklist_version);
                    lemma_filled(table, "global_description"@, c.global_description);
                }
            }
            if let Ok(read) = checklist_of(path, Some(raw)) {
                assert forall|p: int| 0 <= p < read.rules.len() implies section_states(
                    lines,
                    p,
                    #[trigger] read.rules[p],
                ) by {
                    lemma_section(path, lines, p, read.rules[p]);
                    assert(rule_at(path, lines, p) == Ok::<RuleV, ErrorV>(read.rules[p]));
                }
                assert(front_states(matter, read));
            }
            if file_states(raw, c) {
                assert forall|p: int| 0 <= p < count implies (#[trigger] rule_at(
                    path,
                    lines,
                    p,
                )) is Ok by {
                    lemma_section(path, lines, p, c.rules[p]);
                }
            }
        }
    }
}

/// Whether an error is that of a checklist which breaks a rule of the format: it names the file.
pub open spec fn names_file(e: ErrorV, path: Seq<char>) -> bool {
    &&& e.code == ErrorCode::ChecklistInvalid
    &&& field(e.details, "path"@) == Some(JsonV::Text(path))
}

proof fn lemma_names_file(e: ErrorV, message: Seq<char>, path: Seq<char>, line: int)
    requires
        e == invalid_error(message, path) || e == invalid_line_error(message, path, line),
    ensures
        names_file(e, path),
{
    reveal_strlit("path");
    reveal_strlit("line");
    assert("path"@[0] == 'p' && "line"@[0] == 'l');
    lemma_detail("path"@, JsonV::Text(path));
    lemma_and_detail(detail("path"@, JsonV::Text(path)), "line"@, JsonV::Int(line));
}

proof fn lemma_list_refused(value: Option<JsonV>, name: Seq<char>, path: Seq<char>)
    ensures
        list_field(value, name, path) matches Err(e) ==> names_file(e, path),
{
    lemma_every_refusal(path);
    if let Some(JsonV::Array(items)) = value {
        lemma_prefix_refused(items, items.len() as int, name, path);
    }
}

proof fn lemma_prefix_refused(items: Seq<JsonV>, n: int, name: Seq<char>, path: Seq<char>)
    ensures
        list_prefix(items, n, name, path) matches Err(e) ==> names_file(e, path),
    decreases n,
{
    lemma_every_refusal(path);
    if n > 0 {
        lemma_prefix_refused(items, n - 1, name, path);
    }
}

proof fn lemma_every_refusal(path: Seq<char>)
    ensures
        forall|m: Seq<char>| #[trigger] names_file(invalid_error(m, path), path),
        forall|m: Seq<char>, n: int| #[trigger] names_file(invalid_line_error(m, path, n), path),
{
    assert forall|m: Seq<char>| #[trigger] names_file(invalid_error(m, path), path) by {
        lemma_names_file(invalid_error(m, path), m, path, 0);
    }
    assert forall|m: Seq<char>, n: int| #[trigger]
        names_file(invalid_line_error(m, path, n), path) by {
        lemma_names_file(invalid_line_error(m, path, n), m, path, n);
    }
}

proof fn lemma_rule_refused(path: Seq<char>, lines: Seq<Seq<char>>, p: int)
    ensures
        rule_at(path, lines, p) matches Err(e) ==> names_file(e, path),
{
    let headings = headings_of(lines);
    let at = headings[p].line;
    let key = headings[p].key;
    let end = section_end(headings, p, lines.len() as int);
    let blocks = section_fences(fences_of(lines), at, end);
    lemma_every_refusal(path);
    if let Ok(meta) = mapping_of(blocks[0].content, "rule "@ + key + " metadata"@, path) {
        lemma_list_refused(lookup(meta, "tags"@), "tags"@, path);
        lemma_list_refused(lookup(meta, "paths"@), "paths"@, path);
        lemma_list_refused(lookup(meta, "languages"@), "languages"@, path);
    }
}

proof fn lemma_rules_refused(path: Seq<char>, lines: Seq<Seq<char>>, n: int)
    ensures
        rules_upto(path, lines, n) matches Err(e) ==> names_file(e, path),
    decreases n,
{
    if n > 0 {
        lemma_rules_refused(path, lines, n - 1);
        lemma_rule_refused(path, lines, n - 1);
    }
}

/// A file that cannot be read is reported as not found, any other refusal as an invalid checklist;
/// either names the file.
pub proof fn a_refusal_names_the_file(path: Seq<char>, file: Option<Seq<u8>>)
    ensures
        checklist_of(path, file) matches Err(e) ==> {
            &&& field(e.details, "path"@) == Some(JsonV::Text(path))
            &&& e.code == ErrorCode::ChecklistNotFound <==> file is None
            &&& e.code == ErrorCode::ChecklistInvalid <==> file is Some
        },
        file is None ==> checklist_of(path, file) is Err,
{
    lemma_every_refusal(path);
    lemma_detail("path"@, JsonV::Text(path));
    if let Some(raw) = file {
        if vstd::utf8::valid_utf8(raw) {
            if let Some((matter, body)) = front_matter(vstd::utf8::decode_utf8(raw)) {
                let lines = lines_of(body);
                lemma_rules_refused(path, lines, headings_of(lines).len() as int);
            }
        }
    }
}

// ---- where a checklist is wrong ----

/// Whether an error names a line, counted from one.
pub open spec fn names_line(e: ErrorV, line: int) -> bool {
    field(e.details, "line"@) == Some(JsonV::Int(line))
}

proof fn lemma_names_line(message: Seq<char>, path: Seq<char>, line: int)
    ensures
        names_line(invalid_line_error(message, path, line), line),
{
    reveal_strlit("path");
    reveal_strlit("line");
    assert("path"@[0] == 'p' && "line"@[0] == 'l');
    lemma_detail("path"@, JsonV::Text(path));
    lemma_and_detail(detail("path"@, JsonV::Text(path)), "line"@, JsonV::Int(line));
}

/// A section is refused for its key, for a key that an earlier heading has in any case, for its
/// metadata blocks or for what stands before them with the line of its heading, and for a field that
/// the format does not know with the line of its metadata block.
#[verifier::spinoff_prover]
#[verifier::rlimit(50)]
pub proof fn a_wrong_section_is_located(path: Seq<char>, lines: Seq<Seq<char>>, p: int)
    requires
        0 <= p < headings_of(lines).len(),
    ensures
        ({
            let headings = headings_of(lines);
            let fences = fences_of(lines);
            let at = headings[p].line;
            let end = end_of_section(lines, headings, p);
            let r = rule_at(path, lines, p);
            &&& !key_like(headings[p].key) || (exists|q: int|
                0 <= q < p && lowercase((#[trigger] headings[q]).key) == lowercase(
                    headings[p].key,
                )) || (forall|k: int| !#[trigger] only_block(fences, at, end, k)) ==> (r matches Err(
                e,
            ) && names_line(e, at + 1))
            &&& forall|k: int| #[trigger]
                only_block(fences, at, end, k) ==> {
                    &&& (exists|i: int| at < i < fences[k].open && !is_blank(#[trigger] lines[i]))
                        ==> (r matches Err(e) && names_line(e, at + 1))
                    &&& (forall|i: int| at < i < fences[k].open ==> is_blank(#[trigger] lines[i]))
                        && key_like(headings[p].key) && (forall|q: int|
                        0 <= q < p ==> lowercase((#[trigger] headings[q]).key) != lowercase(
                            headings[p].key,
                        )) && (yaml_document(fences[k].content) matches Ok(YamlV::Table(table))
                        && !only_names(table, seq!["summary"@, "tags"@, "paths"@, "languages"@]))
                        ==> (r matches Err(e) && names_line(e, fences[k].open + 1))
                }
        }),
{
    let headings = headings_of(lines);
    let fences = fences_of(lines);
    let at = headings[p].line;
    let key = headings[p].key;
    let end = section_end(headings, p, lines.len() as int);
    assert(end == end_of_section(lines, headings, p));
    assert forall|m: Seq<char>, n: int| #[trigger]
        names_line(invalid_line_error(m, path, n), n) by {
        lemma_names_line(m, path, n);
    }
    lemma_key_like(key);
    lemma_clash(headings, p, p);
    lemma_blocks(fences, at, end);
    let blocks = section_fences(fences, at, end);
    if blocks.len() == 1 {
        assert forall|k: int| #[trigger] only_block(fences, at, end, k) implies blocks[0]
            == fences[k] by {}
        let k = choose|k: int| #[trigger] only_block(fences, at, end, k);
        if let Ok(y) = yaml_document(fences[k].content) {
            lemma_no_list(y);
            if let YamlV::Table(table) = y {
                assert(bridged(y) == JsonV::Object(bridged_entries(table)));
                let names = seq!["summary"@, "tags"@, "paths"@, "languages"@];
                assert(rule_meta_fields() =~= names);
                lemma_wordy();
                assert forall|n: int| 0 <= n < names.len() implies wordy(#[trigger] names[n]) by {}
                lemma_known(table, names);
            }
        }
        assert forall|j: int| #[trigger] only_block(fences, at, end, j) implies j == k by {
            assert(is_block(fences, at, end, j));
        }
    }
}

/// Of several wrong sections the first is reported.
#[verifier::spinoff_prover]
#[verifier::rlimit(50)]
pub proof fn the_first_wrong_section_is_reported(path: Seq<char>, raw: Seq<u8>, p: int)
    requires
        vstd::utf8::valid_utf8(raw),
        ({
            let (matter, body) = front_matter(vstd::utf8::decode_utf8(raw))->0;
            let lines = lines_of(body);
            &&& front_matter(vstd::utf8::decode_utf8(raw)) is Some
            &&& exists|c: ChecklistV| front_states(matter, c)
            &&& 0 <= p < headings_of(lines).len()
            &&& rule_at(path, lines, p) is Err
            &&& forall|q: int| 0 <= q < p ==> (#[trigger] rule_at(path, lines, q)) is Ok
        }),
    ensures
        ({
            let (matter, body) = front_matter(vstd::utf8::decode_utf8(raw))->0;
            checklist_of(path, Some(raw)) == Err::<ChecklistV, ErrorV>(
                rule_at(path, lines_of(body), p)->Err_0,
            )
        }),
{
    let (matter, body) = front_matter(vstd::utf8::decode_utf8(raw))->0;
    let lines = lines_of(body);
    let count = headings_of(lines).len() as int;
    let c = choose|c: ChecklistV| front_states(matter, c);
    let names = seq!["schema_version"@, "checklist_version"@, "global_description"@];
    assert(file_fields() =~= names);
    lemma_wordy();
    assert forall|n: int| 0 <= n < names.len() implies wordy(#[trigger] names[n]) by {}
    let y = yaml_document(matter)->Ok_0;
    let table = y->Table_0;
    assert(bridged(y) == JsonV::Object(bridged_entries(table)));
    lemma_known(table, names);
    lemma_one(table, "schema_version"@);
    lemma_filled(table, "checklist_version"@, c.checklist_version);
    lemma_filled(table, "global_description"@, c.global_description);
    lemma_rules(path, lines, p);
    lemma_stays_wrong(path, lines, p + 1, count);
}

proof fn lemma_stays_wrong(path: Seq<char>, lines: Seq<Seq<char>>, lo: int, hi: int)
    requires
        0 <= lo <= hi,
        rules_upto(path, lines, lo) is Err,
    ensures
        rules_upto(path, lines, hi) == rules_upto(path, lines, lo),
    decreases hi,
{
    if lo < hi {
        lemma_stays_wrong(path, lines, lo, hi - 1);
    }
}

} // verus!
