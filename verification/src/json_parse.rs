//! Reading JSON texts.

use vstd::prelude::*;

use crate::json::{entries_view, items_view, Json, JsonV};
use crate::json_laws::{lemma_sorted_fits, storable};
use crate::json_util::{canonical, json_text, sorted};

verus! {

broadcast use crate::json::group_json;

/// A value of the JSON parser.
#[verifier::external_type_specification]
#[verifier::external_body]
pub struct ExJsonValue(serde_json::Value);

/// What a value of the JSON parser holds.
pub uninterp spec fn json_tree(v: serde_json::Value) -> JsonV;

/// What parsing a JSON text gives: a value or a diagnostic.
pub uninterp spec fn json_document(source: Seq<char>) -> Result<JsonV, Seq<char>>;

/// A value that its compact text brings back: at most `levels` arrays and objects inside each
/// other, every number an integer of 64 bits, no name twice in an object.
pub open spec fn fits(v: JsonV, levels: nat) -> bool
    decreases v,
{
    match v {
        JsonV::Null => true,
        JsonV::Bool(_) => true,
        JsonV::Int(n) => -0x8000_0000_0000_0000 <= n <= 0xffff_ffff_ffff_ffff,
        JsonV::Real(_) => false,
        JsonV::Text(_) => true,
        JsonV::Array(items) => levels > 0 && forall|i: int|
            0 <= i < items.len() ==> fits(#[trigger] items[i], (levels - 1) as nat),
        JsonV::Object(entries) => {
            &&& levels > 0
            &&& forall|i: int|
                0 <= i < entries.len() ==> fits((#[trigger] entries[i]).1, (levels - 1) as nat)
            &&& forall|i: int, j: int|
                0 <= i < j < entries.len() ==> (#[trigger] entries[i]).0 != (
                #[trigger] entries[j]).0
        },
    }
}

/// One level of a value of the JSON parser.
enum JsonNode {
    Null,
    Bool(bool),
    Number(Option<i64>, Option<u64>, String),
    Text(String),
    Array(Vec<serde_json::Value>),
    Object(Vec<(String, serde_json::Value)>),
}

spec fn node_tree(n: JsonNode) -> JsonV {
    match n {
        JsonNode::Null => JsonV::Null,
        JsonNode::Bool(b) => JsonV::Bool(b),
        JsonNode::Number(signed, unsigned, text) => if let Some(i) = signed {
            JsonV::Int(i as int)
        } else if let Some(u) = unsigned {
            JsonV::Int(u as int)
        } else {
            JsonV::Real(text@)
        },
        JsonNode::Text(t) => JsonV::Text(t@),
        JsonNode::Array(items) => JsonV::Array(
            items@.map_values(|x: serde_json::Value| json_tree(x)),
        ),
        JsonNode::Object(entries) => JsonV::Object(
            entries@.map_values(|p: (String, serde_json::Value)| (p.0@, json_tree(p.1))),
        ),
    }
}

/// A parse result as a value of views.
spec fn parsed_view(r: Result<serde_json::Value, String>) -> Result<JsonV, Seq<char>> {
    match r {
        Ok(v) => Ok(json_tree(v)),
        Err(e) => Err(e@),
    }
}

/// `serde_json::from_str` into a `serde_json::Value`: the value or the diagnostic is a function of
/// the text alone. The compact text of a value without fractions, without repeated names and with
/// at most 127 levels reads back as that value.
#[verifier::external_body]
fn decode(source: &str) -> (r: Result<serde_json::Value, String>)
    ensures
        parsed_view(r) == json_document(source@),
        forall|v: JsonV|
            source@ == #[trigger] json_text(v) && fits(v, 127) ==> r is Ok && json_tree(r->Ok_0) == v,
{
    serde_json::from_str::<serde_json::Value>(source).map_err(|e| e.to_string())
}

/// The variants of `serde_json::Value`, one level deep: a number with its readings by `as_i64` and
/// `as_u64` and its text, an object with its entries in order.
#[verifier::external_body]
fn open_json(v: serde_json::Value) -> (r: JsonNode)
    ensures
        node_tree(r) == json_tree(v),
{
    match v {
        serde_json::Value::Null => JsonNode::Null,
        serde_json::Value::Bool(b) => JsonNode::Bool(b),
        serde_json::Value::Number(n) => JsonNode::Number(n.as_i64(), n.as_u64(), n.to_string()),
        serde_json::Value::String(t) => JsonNode::Text(t),
        serde_json::Value::Array(items) => JsonNode::Array(items),
        serde_json::Value::Object(m) => JsonNode::Object(m.into_iter().collect()),
    }
}

/// A value of the JSON parser as a value of this library.
fn json_of(v: serde_json::Value) -> (r: Json)
    ensures
        r@ == json_tree(v),
    decreases json_tree(v),
{
    match open_json(v) {
        JsonNode::Null => Json::Null,
        JsonNode::Bool(b) => Json::Bool(b),
        JsonNode::Number(signed, unsigned, text) => if let Some(i) = signed {
            Json::Int(i)
        } else if let Some(u) = unsigned {
            Json::UInt(u)
        } else {
            Json::Real(text)
        },
        JsonNode::Text(t) => Json::Text(t),
        JsonNode::Array(items) => {
            let ghost all = items@;
            let ghost tree = json_tree(v);
            let mut out: Vec<Json> = Vec::new();
            for item in it: items
                invariant
                    it.seq() == all,
                    tree == json_tree(v),
                    tree == JsonV::Array(all.map_values(|x: serde_json::Value| json_tree(x))),
                    out@.len() == it.index(),
                    forall|k: int| 0 <= k < out@.len() ==> (#[trigger] out@[k])@ == json_tree(all[k]),
            {
                assert(tree->Array_0[it.index() as int] == json_tree(item));
                out.push(json_of(item));
            }
            assert(items_view(out@) =~= tree->Array_0);
            Json::Array(out)
        },
        JsonNode::Object(entries) => {
            let ghost all = entries@;
            let ghost tree = json_tree(v);
            let mut out: Vec<(String, Json)> = Vec::new();
            for entry in it: entries
                invariant
                    it.seq() == all,
                    tree == json_tree(v),
                    tree == JsonV::Object(
                        all.map_values(|p: (String, serde_json::Value)| (p.0@, json_tree(p.1))),
                    ),
                    out@.len() == it.index(),
                    forall|k: int|
                        0 <= k < out@.len() ==> (#[trigger] out@[k]).0@ == all[k].0@ && out@[k].1@
                            == json_tree(all[k].1),
            {
                proof {
                    let pair = tree->Object_0[it.index() as int];
                    assert(pair == (entry.0@, json_tree(entry.1)));
                    assert(decreases_to!(tree => tree->Object_0));
                    assert(decreases_to!(tree->Object_0 => tree->Object_0[it.index() as int]));
                    assert(decreases_to!(pair => pair.1));
                    assert(decreases_to!(tree => pair.1));
                }
                let (name, x) = entry;
                out.push((name, json_of(x)));
            }
            assert(entries_view(out@) =~= tree->Object_0);
            Json::Object(out)
        },
    }
}

/// A reading as a value of views.
pub open spec fn reading(r: Result<Json, String>) -> Result<JsonV, Seq<char>> {
    match r {
        Ok(v) => Ok(v@),
        Err(e) => Err(e@),
    }
}

/// Parses a JSON document.
pub fn parse_json(source: &str) -> (r: Result<Json, String>)
    ensures
        reading(r) == json_document(source@),
        forall|v: JsonV|
            source@ == #[trigger] json_text(v) && fits(v, 127) ==> reading(r) == Ok::<
                JsonV,
                Seq<char>,
            >(v),
        forall|v: JsonV|
            source@ == #[trigger] canonical(v) && storable(v, 127) ==> reading(r) == Ok::<
                JsonV,
                Seq<char>,
            >(sorted(v)),
{
    proof {
        assert forall|v: JsonV| source@ == #[trigger] canonical(v) && storable(
            v,
            127,
        ) implies source@ == json_text(sorted(v)) && fits(sorted(v), 127) by {
            lemma_sorted_fits(v, 127);
        }
    }
    match decode(source) {
        Ok(v) => Ok(json_of(v)),
        Err(e) => Err(e),
    }
}

} // verus!
