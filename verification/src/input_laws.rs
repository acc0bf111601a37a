//! Which inputs are accepted, and what is taken from them.

use vstd::prelude::*;

use crate::checklist_laws::trimming_takes_white_space;
use crate::cli::{free_upto, lacking_all, override_parts, payload_of};
use crate::config::{
    config_file, config_write, env_value, location, toml_document, ConfigFileV, EnvV, LocationV,
};
use crate::errors::{and_detail, detail, ErrorCode, ErrorV};
use crate::json::{field, text_field, Entries, JsonV};
use crate::json_laws::{lemma_and_detail, lemma_detail};
use crate::json_parse::json_document;
use crate::json_util::quoted;
use crate::models::{
    all_text, extra_faults, extra_faults_upto, fault, faults, has_value_error, is_selection_field,
    item_faults, keys_faults, proper_keys, string_faults, texts_of, validated_selection,
    SelectionErrorV, SelectionV,
};
use crate::override_laws::listed_texts;
use crate::path_util::{expanded, path_joined};
use crate::text::{is_blank, is_white, lemma_back_run, lemma_blank, lemma_run, run, trimmed, Class};

verus! {

// ---- selections ----

/// Whether a text has no white space at its ends.
pub open spec fn bare(s: Seq<char>) -> bool {
    s.len() > 0 ==> !is_white(s[0]) && !is_white(s.last())
}

proof fn lemma_bare(s: Seq<char>)
    ensures
        trimmed(s) == s <==> bare(s),
{
    trimming_takes_white_space(s);
    if bare(s) && s.len() > 0 {
        let k = Class::White;
        lemma_run(s, k);
        assert(run(s, k) == 0) by {
            if run(s, k) > 0 {
                assert(k.holds(s[0]));
            }
        }
        let t = crate::text::trim_front(s, k);
        assert(t =~= s);
        lemma_back_run(t, k);
        assert(crate::text::back_run(t, k) == 0) by {
            if crate::text::back_run(t, k) > 0 {
                assert(k.holds(t[t.len() - 1]));
            }
        }
        assert(trimmed(s) =~= s);
    } else if s.len() == 0 {
        lemma_blank(s);
        assert(trimmed(s) =~= s);
    }
}

/// Whether a payload is a selection: a project, a knowledge revision and a list of keys, at least
/// one, none twice and none with white space at its ends, and nothing else.
pub open spec fn is_selection(payload: JsonV, s: SelectionV) -> bool {
    &&& payload matches JsonV::Object(entries) && forall|i: int|
        0 <= i < entries.len() ==> (#[trigger] entries[i]).0 == "project_id"@ || entries[i].0
            == "knowledge_revision"@ || entries[i].0 == "keys"@
    &&& field(payload, "project_id"@) == Some(JsonV::Text(s.project_id))
    &&& !is_blank(s.project_id)
    &&& field(payload, "knowledge_revision"@) == Some(JsonV::Text(s.knowledge_revision))
    &&& !is_blank(s.knowledge_revision)
    &&& field(payload, "keys"@) == Some(listed_texts(s.keys))
    &&& s.keys.len() > 0
    &&& s.keys.no_duplicates()
    &&& forall|i: int| 0 <= i < s.keys.len() ==> bare(#[trigger] s.keys[i])
}

proof fn lemma_item_faults(items: Seq<JsonV>, n: int)
    requires
        0 <= n <= items.len(),
    ensures
        item_faults(items, n).len() == 0 <==> (forall|i: int|
            0 <= i < n ==> (#[trigger] items[i]) is Text),
    decreases n,
{
    if n > 0 {
        lemma_item_faults(items, n - 1);
    }
}

proof fn lemma_extra_faults(entries: Entries, n: int)
    requires
        0 <= n <= entries.len(),
    ensures
        extra_faults_upto(entries, n).len() == 0 <==> (forall|i: int|
            0 <= i < n ==> is_selection_field((#[trigger] entries[i]).0)),
    decreases n,
{
    if n > 0 {
        lemma_extra_faults(entries, n - 1);
    }
}

proof fn lemma_texts_of(items: Seq<JsonV>, keys: Seq<Seq<char>>)
    ensures
        all_text(items) ==> JsonV::Array(items) == listed_texts(texts_of(items)),
        JsonV::Array(items) == listed_texts(keys) ==> all_text(items) && texts_of(items) == keys,
{
    if all_text(items) {
        assert(items =~= texts_of(items).map_values(|t: Seq<char>| JsonV::Text(t)));
    }
    if JsonV::Array(items) == listed_texts(keys) {
        let made = keys.map_values(|t: Seq<char>| JsonV::Text(t));
        assert(items == made);
        assert forall|i: int| 0 <= i < items.len() implies (#[trigger] items[i]) is Text by {
            assert(made[i] == JsonV::Text(keys[i]));
        }
        assert(texts_of(items) =~= keys) by {
            assert forall|i: int| 0 <= i < keys.len() implies texts_of(items)[i] == keys[i] by {
                assert(made[i] == JsonV::Text(keys[i]));
            }
        }
    }
}

/// A payload is accepted as a selection exactly where it is one, and what is taken from it is what
/// it says.
#[verifier::spinoff_prover]
#[verifier::rlimit(50)]
pub proof fn a_selection_is_taken_as_it_is(payload: JsonV, s: SelectionV)
    ensures
        validated_selection(payload) == Ok::<SelectionV, SelectionErrorV>(s) <==> is_selection(
            payload,
            s,
        ),
{
    if let JsonV::Object(entries) = payload {
        lemma_extra_faults(entries, entries.len() as int);
    }
    let all = faults(payload);
    assert(all.len() == string_faults(payload, "project_id"@).len() + string_faults(
        payload,
        "knowledge_revision"@,
    ).len() + keys_faults(payload).len() + extra_faults(payload).len());
    if let Some(JsonV::Array(items)) = field(payload, "keys"@) {
        lemma_item_faults(items, items.len() as int);
        lemma_texts_of(items, s.keys);
        assert forall|i: int| 0 <= i < texts_of(items).len() implies (trimmed(
            #[trigger] texts_of(items)[i],
        ) == texts_of(items)[i]) == bare(texts_of(items)[i]) by {
            lemma_bare(texts_of(items)[i]);
        }
        if is_selection(payload, s) {
            assert forall|i: int| 0 <= i < s.keys.len() implies trimmed(#[trigger] s.keys[i])
                == s.keys[i] by {
                lemma_bare(s.keys[i]);
            }
            assert(proper_keys(texts_of(items)));
        }
        if validated_selection(payload) == Ok::<SelectionV, SelectionErrorV>(s) {
            assert(all_text(items));
            assert(proper_keys(texts_of(items)));
            assert forall|i: int| 0 <= i < s.keys.len() implies bare(#[trigger] s.keys[i]) by {
                lemma_bare(s.keys[i]);
            }
        }
    }
}

/// Whether a value tells what is wrong with an entry of a selection.
pub open spec fn tells_fault(e: JsonV, kind: Seq<char>, loc: Seq<JsonV>, input: JsonV) -> bool {
    &&& field(e, "type"@) == Some(JsonV::Text(kind))
    &&& field(e, "loc"@) == Some(JsonV::Array(loc))
    &&& field(e, "input"@) == Some(input)
}

/// Whether a value tells of one of the faults of a payload: a field that is missing, one that is no
/// text, a list of keys that is no list or has an item that is no text, or an entry that does not
/// belong there.
pub open spec fn is_fault(payload: JsonV, e: JsonV) -> bool {
    ||| lacks(payload, "project_id"@, e)
    ||| lacks(payload, "knowledge_revision"@, e)
    ||| lacks(payload, "keys"@, e)
    ||| no_text(payload, "project_id"@, e)
    ||| no_text(payload, "knowledge_revision"@, e)
    ||| no_list(payload, e)
    ||| exists|i: int| #[trigger] no_key(payload, i, e)
    ||| exists|i: int| #[trigger] stray_entry(payload, i, e)
}

/// Whether a value tells that a field is missing.
pub open spec fn lacks(payload: JsonV, name: Seq<char>, e: JsonV) -> bool {
    field(payload, name) is None && tells_fault(e, "missing"@, seq![JsonV::Text(name)], payload)
}

/// Whether a value tells that a field is no text.
pub open spec fn no_text(payload: JsonV, name: Seq<char>, e: JsonV) -> bool {
    field(payload, name) matches Some(v) && !(v is Text) && tells_fault(
        e,
        "string_type"@,
        seq![JsonV::Text(name)],
        v,
    )
}

/// Whether a value tells that the keys are no list.
pub open spec fn no_list(payload: JsonV, e: JsonV) -> bool {
    field(payload, "keys"@) matches Some(v) && !(v is Array) && tells_fault(
        e,
        "list_type"@,
        seq![JsonV::Text("keys"@)],
        v,
    )
}

/// Whether a value tells that a key is no text.
pub open spec fn no_key(payload: JsonV, i: int, e: JsonV) -> bool {
    field(payload, "keys"@) matches Some(JsonV::Array(items)) && 0 <= i < items.len() && !(
    items[i] is Text) && tells_fault(
        e,
        "string_type"@,
        seq![JsonV::Text("keys"@), JsonV::Int(i)],
        items[i],
    )
}

/// Whether a value tells that an entry does not belong to a selection.
pub open spec fn stray_entry(payload: JsonV, i: int, e: JsonV) -> bool {
    payload matches JsonV::Object(entries) && 0 <= i < entries.len() && entries[i].0
        != "project_id"@ && entries[i].0 != "knowledge_revision"@ && entries[i].0 != "keys"@
        && tells_fault(e, "extra_forbidden"@, seq![JsonV::Text(entries[i].0)], entries[i].1)
}

proof fn lemma_fault(kind: Seq<char>, loc: Seq<JsonV>, msg: Seq<char>, input: JsonV)
    ensures
        tells_fault(fault(kind, loc, msg, input), kind, loc, input),
{
    reveal_strlit("type");
    reveal_strlit("loc");
    reveal_strlit("msg");
    reveal_strlit("input");
    assert("type"@.len() == 4 && "loc"@.len() == 3 && "loc"@[0] == 'l' && "msg"@.len() == 3
        && "msg"@[0] == 'm' && "input"@.len() == 5);
    lemma_detail("type"@, JsonV::Text(kind));
    let v0 = detail("type"@, JsonV::Text(kind));
    lemma_and_detail(v0, "loc"@, JsonV::Array(loc));
    let v1 = and_detail(v0, "loc"@, JsonV::Array(loc));
    lemma_and_detail(v1, "msg"@, JsonV::Text(msg));
    let v2 = and_detail(v1, "msg"@, JsonV::Text(msg));
    lemma_and_detail(v2, "input"@, input);
}

proof fn lemma_string_faults(payload: JsonV, name: Seq<char>)
    ensures
        forall|k: int|
            0 <= k < string_faults(payload, name).len() ==> lacks(
                payload,
                name,
                #[trigger] string_faults(payload, name)[k],
            ) || no_text(payload, name, string_faults(payload, name)[k]),
{
    lemma_fault("missing"@, seq![JsonV::Text(name)], "Field required"@, payload);
    if let Some(v) = field(payload, name) {
        lemma_fault(
            "string_type"@,
            seq![JsonV::Text(name)],
            "Input should be a valid string"@,
            v,
        );
    }
}

proof fn lemma_key_faults(payload: JsonV, items: Seq<JsonV>, n: int)
    requires
        field(payload, "keys"@) == Some(JsonV::Array(items)),
        0 <= n <= items.len(),
    ensures
        forall|k: int|
            0 <= k < item_faults(items, n).len() ==> is_fault(
                payload,
                #[trigger] item_faults(items, n)[k],
            ),
        forall|i: int|
            0 <= i < n && !((#[trigger] items[i]) is Text) ==> exists|k: int|
                0 <= k < item_faults(items, n).len() && no_key(
                    payload,
                    i,
                    #[trigger] item_faults(items, n)[k],
                ),
    decreases n,
{
    if n > 0 {
        lemma_key_faults(payload, items, n - 1);
        let before = item_faults(items, n - 1);
        let all = item_faults(items, n);
        if !(items[n - 1] is Text) {
            lemma_fault(
                "string_type"@,
                seq![JsonV::Text("keys"@), JsonV::Int(n - 1)],
                "Input should be a valid string"@,
                items[n - 1],
            );
            assert(no_key(payload, n - 1, all[before.len() as int]));
            assert forall|k: int| 0 <= k < all.len() implies is_fault(payload, #[trigger] all[k]) by {
                if k < before.len() {
                    assert(all[k] == before[k]);
                }
            }
            assert forall|i: int| 0 <= i < n && !((#[trigger] items[i]) is Text) implies exists|
                k: int,
            | 0 <= k < all.len() && no_key(payload, i, #[trigger] all[k]) by {
                if i < n - 1 {
                    let k = choose|k: int|
                        0 <= k < before.len() && no_key(payload, i, #[trigger] before[k]);
                    assert(all[k] == before[k]);
                }
            }
        }
    }
}

proof fn lemma_stray_faults(payload: JsonV, entries: Entries, n: int)
    requires
        payload == JsonV::Object(entries),
        0 <= n <= entries.len(),
    ensures
        forall|k: int|
            0 <= k < extra_faults_upto(entries, n).len() ==> is_fault(
                payload,
                #[trigger] extra_faults_upto(entries, n)[k],
            ),
        forall|i: int|
            0 <= i < n && !is_selection_field((#[trigger] entries[i]).0) ==> exists|k: int|
                0 <= k < extra_faults_upto(entries, n).len() && stray_entry(
                    payload,
                    i,
                    #[trigger] extra_faults_upto(entries, n)[k],
                ),
    decreases n,
{
    if n > 0 {
        lemma_stray_faults(payload, entries, n - 1);
        let before = extra_faults_upto(entries, n - 1);
        let all = extra_faults_upto(entries, n);
        if !is_selection_field(entries[n - 1].0) {
            lemma_fault(
                "extra_forbidden"@,
                seq![JsonV::Text(entries[n - 1].0)],
                "Extra inputs are not permitted"@,
                entries[n - 1].1,
            );
            assert(stray_entry(payload, n - 1, all[before.len() as int]));
            assert forall|k: int| 0 <= k < all.len() implies is_fault(payload, #[trigger] all[k]) by {
                if k < before.len() {
                    assert(all[k] == before[k]);
                }
            }
            assert forall|i: int|
                0 <= i < n && !is_selection_field((#[trigger] entries[i]).0) implies exists|k: int|
                0 <= k < all.len() && stray_entry(payload, i, #[trigger] all[k]) by {
                if i < n - 1 {
                    let k = choose|k: int|
                        0 <= k < before.len() && stray_entry(payload, i, #[trigger] before[k]);
                    assert(all[k] == before[k]);
                }
            }
        }
    }
}

/// Whether a fault is among those that are reported.
pub open spec fn reported(errors: Seq<JsonV>, p: spec_fn(JsonV) -> bool) -> bool {
    exists|k: int| 0 <= k < errors.len() && p(#[trigger] errors[k])
}

proof fn lemma_reported(errors: Seq<JsonV>, lo: int, part: Seq<JsonV>, k: int, p: spec_fn(JsonV) -> bool)
    requires
        0 <= lo,
        lo + part.len() <= errors.len(),
        errors.subrange(lo, lo + part.len()) == part,
        0 <= k < part.len(),
        p(part[k]),
    ensures
        reported(errors, p),
{
    assert(errors.subrange(lo, lo + part.len())[k] == errors[lo + k]);
}

/// Whether a payload has a value that is not acceptable, whatever else is wrong with it: a blank
/// project or revision, or a list of keys that is empty, has a key twice or one with white space at
/// its ends.
pub open spec fn has_bad_value(payload: JsonV) -> bool {
    ||| field(payload, "project_id"@) matches Some(JsonV::Text(t)) && is_blank(t)
    ||| field(payload, "knowledge_revision"@) matches Some(JsonV::Text(t)) && is_blank(t)
    ||| exists|keys: Seq<Seq<char>>|
        {
            &&& field(payload, "keys"@) == Some(#[trigger] listed_texts(keys))
            &&& keys.len() == 0 || !keys.no_duplicates() || exists|i: int|
                0 <= i < keys.len() && !bare(#[trigger] keys[i])
        }
}

proof fn lemma_bad_value(payload: JsonV)
    ensures
        has_value_error(payload) <==> has_bad_value(payload),
{
    if let Some(JsonV::Array(items)) = field(payload, "keys"@) {
        let keys = texts_of(items);
        lemma_texts_of(items, keys);
        assert forall|i: int| 0 <= i < keys.len() implies (trimmed(#[trigger] keys[i]) == keys[i])
            == bare(keys[i]) by {
            lemma_bare(keys[i]);
        }
        if crate::models::improper_keys(payload) {
            assert(field(payload, "keys"@) == Some(listed_texts(keys)));
            if keys.len() > 0 && keys.no_duplicates() {
                let i = choose|i: int| 0 <= i < keys.len() && trimmed(#[trigger] keys[i]) != keys[i];
                assert(!bare(keys[i]));
            }
        }
        if exists|keys: Seq<Seq<char>>|
            {
                &&& field(payload, "keys"@) == Some(#[trigger] listed_texts(keys))
                &&& keys.len() == 0 || !keys.no_duplicates() || exists|i: int|
                    0 <= i < keys.len() && !bare(#[trigger] keys[i])
            } {
            let own = choose|keys: Seq<Seq<char>>|
                {
                    &&& field(payload, "keys"@) == Some(#[trigger] listed_texts(keys))
                    &&& keys.len() == 0 || !keys.no_duplicates() || exists|i: int|
                        0 <= i < keys.len() && !bare(#[trigger] keys[i])
                };
            lemma_texts_of(items, own);
            assert(own == keys);
            if own.len() > 0 && own.no_duplicates() {
                let i = choose|i: int| 0 <= i < own.len() && !bare(#[trigger] own[i]);
                assert(trimmed(keys[i]) != keys[i]);
            }
        }
    }
}

/// A payload with a value that is not acceptable is refused without an envelope. Any other that is
/// no selection is refused with its faults: every one that it has, and no other.
#[verifier::spinoff_prover]
#[verifier::rlimit(50)]
pub proof fn a_refused_selection_is_told_its_faults(payload: JsonV, i: int)
    ensures
        validated_selection(payload) matches Err(SelectionErrorV::Raw) <==> has_bad_value(payload),
        validated_selection(payload) matches Err(SelectionErrorV::Envelope(errors)) ==> {
            &&& errors.len() > 0
            &&& forall|k: int| 0 <= k < errors.len() ==> is_fault(payload, #[trigger] errors[k])
            &&& field(payload, "project_id"@) is None ==> reported(
                errors,
                |e: JsonV| lacks(payload, "project_id"@, e),
            )
            &&& field(payload, "knowledge_revision"@) is None ==> reported(
                errors,
                |e: JsonV| lacks(payload, "knowledge_revision"@, e),
            )
            &&& field(payload, "keys"@) is None ==> reported(
                errors,
                |e: JsonV| lacks(payload, "keys"@, e),
            )
            &&& (field(payload, "project_id"@) matches Some(v) && !(v is Text)) ==> reported(
                errors,
                |e: JsonV| no_text(payload, "project_id"@, e),
            )
            &&& (field(payload, "knowledge_revision"@) matches Some(v) && !(v is Text)) ==> reported(
                errors,
                |e: JsonV| no_text(payload, "knowledge_revision"@, e),
            )
            &&& (field(payload, "keys"@) matches Some(v) && !(v is Array)) ==> reported(
                errors,
                |e: JsonV| no_list(payload, e),
            )
            &&& (field(payload, "keys"@) matches Some(JsonV::Array(items)) && 0 <= i < items.len()
                && !(items[i] is Text)) ==> reported(errors, |e: JsonV| no_key(payload, i, e))
            &&& (payload matches JsonV::Object(entries) && 0 <= i < entries.len()
                && !is_selection_field(entries[i].0)) ==> reported(
                errors,
                |e: JsonV| stray_entry(payload, i, e),
            )
        },
{
    lemma_bad_value(payload);
    let a = string_faults(payload, "project_id"@);
    let b = string_faults(payload, "knowledge_revision"@);
    let c = keys_faults(payload);
    let d = extra_faults(payload);
    let all = faults(payload);
    let na = a.len() as int;
    let nb = b.len() as int;
    let nc = c.len() as int;
    let nd = d.len() as int;
    assert(all.len() == na + nb + nc + nd);
    assert(all.subrange(0, na) =~= a);
    assert(all.subrange(na, na + nb) =~= b);
    assert(all.subrange(na + nb, na + nb + nc) =~= c);
    assert(all.subrange(na + nb + nc, na + nb + nc + nd) =~= d);
    lemma_string_faults(payload, "project_id"@);
    lemma_string_faults(payload, "knowledge_revision"@);
    lemma_fault("missing"@, seq![JsonV::Text("keys"@)], "Field required"@, payload);
    if let Some(v) = field(payload, "keys"@) {
        lemma_fault("list_type"@, seq![JsonV::Text("keys"@)], "Input should be a valid list"@, v);
        if let JsonV::Array(items) = v {
            lemma_key_faults(payload, items, items.len() as int);
        }
    }
    if let JsonV::Object(entries) = payload {
        lemma_stray_faults(payload, entries, entries.len() as int);
    }
    assert forall|k: int| 0 <= k < all.len() implies is_fault(payload, #[trigger] all[k]) by {
        if k < na {
            assert(all[k] == a[k]);
        } else if k < na + nb {
            assert(all[k] == b[k - na]);
        } else if k < na + nb + nc {
            assert(all[k] == c[k - na - nb]);
            if field(payload, "keys"@) is None {
                assert(lacks(payload, "keys"@, c[0]));
            } else if !(field(payload, "keys"@)->0 is Array) {
                assert(no_list(payload, c[0]));
            } else {
                let items = field(payload, "keys"@)->0->Array_0;
                assert(is_fault(payload, item_faults(items, items.len() as int)[k - na - nb]));
            }
        } else {
            let j = k - na - nb - nc;
            assert(all[k] == d[j]);
            if let JsonV::Object(entries) = payload {
                assert(is_fault(payload, extra_faults_upto(entries, entries.len() as int)[j]));
            }
        }
    }
    if field(payload, "project_id"@) is None {
        lemma_reported(all, 0, a, 0, |e: JsonV| lacks(payload, "project_id"@, e));
    } else if !(field(payload, "project_id"@)->0 is Text) {
        lemma_reported(all, 0, a, 0, |e: JsonV| no_text(payload, "project_id"@, e));
    }
    if field(payload, "knowledge_revision"@) is None {
        lemma_reported(all, na, b, 0, |e: JsonV| lacks(payload, "knowledge_revision"@, e));
    } else if !(field(payload, "knowledge_revision"@)->0 is Text) {
        lemma_reported(all, na, b, 0, |e: JsonV| no_text(payload, "knowledge_revision"@, e));
    }
    if field(payload, "keys"@) is None {
        lemma_reported(all, na + nb, c, 0, |e: JsonV| lacks(payload, "keys"@, e));
    } else if !(field(payload, "keys"@)->0 is Array) {
        lemma_reported(all, na + nb, c, 0, |e: JsonV| no_list(payload, e));
    } else {
        let items = field(payload, "keys"@)->0->Array_0;
        if 0 <= i < items.len() && !(items[i] is Text) {
            let k = choose|k: int|
                0 <= k < item_faults(items, items.len() as int).len() && no_key(
                    payload,
                    i,
                    #[trigger] item_faults(items, items.len() as int)[k],
                );
            lemma_reported(all, na + nb, c, k, |e: JsonV| no_key(payload, i, e));
        }
    }
    if let JsonV::Object(entries) = payload {
        if 0 <= i < entries.len() && !is_selection_field(entries[i].0) {
            let n = entries.len() as int;
            let k = choose|k: int|
                0 <= k < extra_faults_upto(entries, n).len() && stray_entry(
                    payload,
                    i,
                    #[trigger] extra_faults_upto(entries, n)[k],
                );
            lemma_reported(all, na + nb + nc, d, k, |e: JsonV| stray_entry(payload, i, e));
        }
    }
}

// ---- inputs ----

/// An input is accepted exactly where it is the JSON text of an object; any other input is an
/// invalid selection.
pub proof fn an_input_is_one_object(input: Seq<char>, source: Seq<char>, v: JsonV)
    ensures
        payload_of(input, source) == Ok::<JsonV, ErrorV>(v) <==> json_document(source) == Ok::<
            JsonV,
            Seq<char>,
        >(v) && v is Object,
        payload_of(input, source) matches Err(e) ==> e.code == ErrorCode::InvalidSelection && field(
            e.details,
            "input"@,
        ) == Some(JsonV::Text(input)),
{
    lemma_detail("input"@, JsonV::Text(input));
}

proof fn lemma_free(entries: Entries, n: int)
    requires
        0 <= n <= entries.len(),
    ensures
        free_upto(entries, n) == entries.take(n).filter(
            |e: (Seq<char>, JsonV)| e.0 != "project_id"@ && e.0 != "key"@ && e.0 != "reason"@,
        ),
    decreases n,
{
    reveal(Seq::filter);
    let p = |e: (Seq<char>, JsonV)| e.0 != "project_id"@ && e.0 != "key"@ && e.0 != "reason"@;
    if n > 0 {
        lemma_free(entries, n - 1);
        let all = entries.take(n);
        assert(all.drop_last() =~= entries.take(n - 1));
        assert(all.last() == entries[n - 1]);
        if p(entries[n - 1]) {
            assert(all.filter(p) == entries.take(n - 1).filter(p).push(entries[n - 1]));
        } else {
            assert(all.filter(p) == entries.take(n - 1).filter(p));
        }
    } else {
        assert(entries.take(0).filter(p) =~= Seq::empty());
    }
}

/// An override payload is taken apart exactly where it has a project, a key and a reason, each a
/// text. Its fields are all the other entries, in their order. Where one of the three is missing,
/// the payload is refused.
pub proof fn an_override_payload_is_taken_apart(entries: Entries)
    ensures
        ({
            let payload = JsonV::Object(entries);
            match override_parts(payload) {
                Ok((id, key, reason, fields)) => {
                    &&& field(payload, "project_id"@) == Some(JsonV::Text(id))
                    &&& field(payload, "key"@) == Some(JsonV::Text(key))
                    &&& field(payload, "reason"@) == Some(JsonV::Text(reason))
                    &&& fields == entries.filter(
                        |e: (Seq<char>, JsonV)|
                            e.0 != "project_id"@ && e.0 != "key"@ && e.0 != "reason"@,
                    )
                },
                Err(e) => {
                    &&& e.code == ErrorCode::InvalidArgument
                    &&& text_field(payload, "project_id"@) is None || text_field(
                        payload,
                        "key"@,
                    ) is None || text_field(payload, "reason"@) is None
                },
            }
        }),
{
    let payload = JsonV::Object(entries);
    lemma_free(entries, entries.len() as int);
    assert(entries.take(entries.len() as int) =~= entries);
    let a = crate::cli::lacking(payload, "project_id"@);
    let b = crate::cli::lacking(payload, "key"@);
    let c = crate::cli::lacking(payload, "reason"@);
    assert(lacking_all(payload).len() == a.len() + b.len() + c.len());
}

// ---- the database location ----

/// Whether a variable is set in the environment, and to what: the first binding counts.
pub open spec fn set_to(env: EnvV, key: Seq<char>, value: Seq<char>) -> bool {
    exists|i: int|
        {
            &&& 0 <= i < env.len()
            &&& #[trigger] env[i] == (key, value)
            &&& forall|j: int| 0 <= j < i ==> (#[trigger] env[j]).0 != key
        }
}

/// Whether a variable is not set in the environment.
pub open spec fn unset(env: EnvV, key: Seq<char>) -> bool {
    forall|i: int| 0 <= i < env.len() ==> (#[trigger] env[i]).0 != key
}

proof fn lemma_env(env: EnvV, key: Seq<char>)
    ensures
        env_value(env, key) is None <==> unset(env, key),
        env_value(env, key) matches Some(v) ==> set_to(env, key, v),
        forall|v: Seq<char>| #[trigger] set_to(env, key, v) ==> env_value(env, key) == Some(v),
    decreases env.len(),
{
    if env.len() > 0 {
        let rest = env.drop_first();
        lemma_env(rest, key);
        assert forall|i: int| 0 <= i < rest.len() implies #[trigger] rest[i] == env[i + 1] by {}
        if env[0].0 == key {
            assert(env[0] == (key, env[0].1));
            assert(set_to(env, key, env[0].1));
            assert forall|v: Seq<char>| #[trigger] set_to(env, key, v) implies env_value(env, key)
                == Some(v) by {
                let i = choose|i: int|
                    {
                        &&& 0 <= i < env.len()
                        &&& #[trigger] env[i] == (key, v)
                        &&& forall|j: int| 0 <= j < i ==> (#[trigger] env[j]).0 != key
                    };
                if i > 0 {
                    assert(env[0].0 != key);
                }
            }
        } else {
            if let Some(v) = env_value(rest, key) {
                let i = choose|i: int|
                    {
                        &&& 0 <= i < rest.len()
                        &&& #[trigger] rest[i] == (key, v)
                        &&& forall|j: int| 0 <= j < i ==> (#[trigger] rest[j]).0 != key
                    };
                assert(env[i + 1] == (key, v));
                assert forall|j: int| 0 <= j < i + 1 implies (#[trigger] env[j]).0 != key by {
                    if j > 0 {
                        assert(rest[j - 1] == env[j]);
                    }
                }
            }
            assert forall|v: Seq<char>| #[trigger] set_to(env, key, v) implies env_value(env, key)
                == Some(v) by {
                let i = choose|i: int|
                    {
                        &&& 0 <= i < env.len()
                        &&& #[trigger] env[i] == (key, v)
                        &&& forall|j: int| 0 <= j < i ==> (#[trigger] env[j]).0 != key
                    };
                assert(rest[i - 1] == (key, v));
                assert forall|j: int| 0 <= j < i - 1 implies (#[trigger] rest[j]).0 != key by {
                    assert(rest[j] == env[j + 1]);
                }
                assert(set_to(rest, key, v));
            }
            if unset(rest, key) {
                assert forall|i: int| 0 <= i < env.len() implies (#[trigger] env[i]).0 != key by {
                    if i > 0 {
                        assert(rest[i - 1] == env[i]);
                    }
                }
            }
            if unset(env, key) {
                assert forall|i: int| 0 <= i < rest.len() implies (#[trigger] rest[i]).0 != key by {
                    assert(rest[i] == env[i + 1]);
                }
            }
        }
    }
}

/// The database lies where the command line says; else where the environment says, unless that is
/// empty; else where the configuration file says, if there is one; else in the data directory of
/// the environment, or in that of the home directory. A configuration file that cannot be read or
/// names no database is refused.
#[verifier::spinoff_prover]
#[verifier::rlimit(50)]
pub proof fn the_database_lies_where_it_is_said_to(
    cli_path: Option<Seq<char>>,
    env: EnvV,
    config_path: Option<Seq<char>>,
    file: ConfigFileV,
    home: Option<Seq<char>>,
    value: Seq<char>,
    data: Seq<char>,
)
    ensures
        ({
            let found = location(cli_path, env, config_path, file, home);
            let silent = cli_path is None && (unset(env, "REVIEW_KB_DB"@) || set_to(
                env,
                "REVIEW_KB_DB"@,
                Seq::empty(),
            ));
            &&& cli_path matches Some(p) ==> found == Ok::<LocationV, ErrorV>(
                LocationV { path: expanded(p, home), source: "command_line"@ },
            )
            &&& cli_path is None && set_to(env, "REVIEW_KB_DB"@, value) && value.len() > 0 ==> found
                == Ok::<LocationV, ErrorV>(
                LocationV { path: expanded(value, home), source: "environment"@ },
            )
            &&& silent && file is Unreadable ==> (found matches Err(e) && e.code
                == ErrorCode::InvalidArgument)
            &&& silent ==> (file matches ConfigFileV::Text(text) ==> match toml_document(text) {
                Err(_) => found matches Err(e) && e.code == ErrorCode::InvalidArgument,
                Ok(entries) => if entries.contains_key("db_path"@) && !is_blank(
                    entries["db_path"@],
                ) {
                    found == Ok::<LocationV, ErrorV>(
                        LocationV {
                            path: expanded(entries["db_path"@], home),
                            source: "config_file"@,
                        },
                    )
                } else {
                    found matches Err(e) && e.code == ErrorCode::InvalidArgument
                },
            })
            &&& silent && file is Missing && set_to(env, "XDG_DATA_HOME"@, data) ==> found == Ok::<
                LocationV,
                ErrorV,
            >(
                LocationV {
                    path: path_joined(path_joined(data, "review-kb"@), "knowledge.db"@),
                    source: "platform_default"@,
                },
            )
            &&& silent && file is Missing && unset(env, "XDG_DATA_HOME"@) && set_to(
                env,
                "HOME"@,
                data,
            ) ==> found == Ok::<LocationV, ErrorV>(
                LocationV {
                    path: path_joined(
                        path_joined(
                            path_joined(path_joined(data, ".local"@), "share"@),
                            "review-kb"@,
                        ),
                        "knowledge.db"@,
                    ),
                    source: "platform_default"@,
                },
            )
            &&& silent && file is Missing && unset(env, "XDG_DATA_HOME"@) && unset(env, "HOME"@)
                ==> found == Ok::<LocationV, ErrorV>(
                LocationV {
                    path: path_joined(
                        path_joined(
                            path_joined(path_joined("/"@, ".local"@), "share"@),
                            "review-kb"@,
                        ),
                        "knowledge.db"@,
                    ),
                    source: "platform_default"@,
                },
            )
        }),
{
    lemma_env(env, "REVIEW_KB_DB"@);
    lemma_env(env, "XDG_DATA_HOME"@);
    lemma_env(env, "HOME"@);
}

/// The configuration file is the one that the environment names, unless that is empty; else it lies
/// in the configuration directory of the environment, or in that of the home directory.
pub proof fn the_configuration_lies_where_it_is_said_to(
    env: EnvV,
    home: Option<Seq<char>>,
    value: Seq<char>,
)
    ensures
        ({
            let silent = unset(env, "REVIEW_KB_CONFIG"@) || set_to(
                env,
                "REVIEW_KB_CONFIG"@,
                Seq::empty(),
            );
            &&& set_to(env, "REVIEW_KB_CONFIG"@, value) && value.len() > 0 ==> config_file(env, home)
                == expanded(value, home)
            &&& silent && set_to(env, "XDG_CONFIG_HOME"@, value) ==> config_file(env, home)
                == path_joined(path_joined(value, "review-kb"@), "config.toml"@)
            &&& silent && unset(env, "XDG_CONFIG_HOME"@) && set_to(env, "HOME"@, value)
                ==> config_file(env, home) == path_joined(
                path_joined(path_joined(value, ".config"@), "review-kb"@),
                "config.toml"@,
            )
            &&& silent && unset(env, "XDG_CONFIG_HOME"@) && unset(env, "HOME"@) ==> config_file(
                env,
                home,
            ) == path_joined(
                path_joined(path_joined("/"@, ".config"@), "review-kb"@),
                "config.toml"@,
            )
        }),
{
    lemma_env(env, "REVIEW_KB_CONFIG"@);
    lemma_env(env, "XDG_CONFIG_HOME"@);
    lemma_env(env, "HOME"@);
}

/// A database path is written into the configuration file, without the white space around it, as
/// its one entry; a path that is nothing but white space is refused.
pub proof fn a_configured_path_is_written(
    database_path: Seq<char>,
    config_path: Option<Seq<char>>,
    env: EnvV,
    home: Option<Seq<char>>,
)
    ensures
        match config_write(database_path, config_path, env, home) {
            Ok(w) => {
                &&& !is_blank(database_path)
                &&& w.target == (match config_path {
                    Some(p) => p,
                    None => config_file(env, home),
                })
                &&& exists|value: Seq<char>|
                    {
                        &&& crate::checklist_laws::stripped_of(value, database_path)
                        &&& w.content == "db_path = "@ + #[trigger] quoted(value) + "\n"@
                    }
            },
            Err(e) => is_blank(database_path) && e.code == ErrorCode::InvalidArgument,
        },
{
    lemma_blank(database_path);
    trimming_takes_white_space(database_path);
    let value = trimmed(database_path);
    assert(quoted(value) == quoted(value));
}

} // verus!
