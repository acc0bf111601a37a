//! YAML documents and what they mean as JSON.

use vstd::prelude::*;

use crate::json::{insert, put, Entries, Json, JsonV};
use crate::json_util::{json_text, to_text};

verus! {

broadcast use crate::json::group_json;

/// A YAML number: its value as a signed or an unsigned integer of 64 bits where it has one, the
/// JSON text of its value where it is finite, and its own text.
#[derive(Debug)]
pub struct YamlNumber {
    pub signed: Option<i64>,
    pub unsigned: Option<u64>,
    pub real: Option<String>,
    pub text: String,
}

/// A YAML value. A table keeps its entries in order; what a tag marks is not kept.
#[derive(Debug)]
pub enum Yaml {
    Null,
    Bool(bool),
    Number(YamlNumber),
    Text(String),
    List(Vec<Yaml>),
    Table(Vec<(Yaml, Yaml)>),
    Tagged,
}

/// What a [`YamlNumber`] stands for.
pub struct YamlNumberV {
    pub signed: Option<int>,
    pub unsigned: Option<int>,
    pub real: Option<Seq<char>>,
    pub text: Seq<char>,
}

impl View for YamlNumber {
    type V = YamlNumberV;

    open spec fn view(&self) -> YamlNumberV {
        YamlNumberV {
            signed: match self.signed {
                Some(n) => Some(n as int),
                None => None,
            },
            unsigned: match self.unsigned {
                Some(n) => Some(n as int),
                None => None,
            },
            real: crate::path_util::optional_text(self.real),
            text: self.text@,
        }
    }
}

/// What a [`Yaml`] stands for.
pub enum YamlV {
    Null,
    Bool(bool),
    Number(YamlNumberV),
    Text(Seq<char>),
    List(Seq<YamlV>),
    Table(Seq<(YamlV, YamlV)>),
    Tagged,
}

pub open spec fn list_view(items: Seq<Yaml>) -> Seq<YamlV>
    decreases items,
{
    Seq::new(
        items.len(),
        |i: int|
            if 0 <= i < items.len() {
                items[i].view()
            } else {
                YamlV::Null
            },
    )
}

pub open spec fn table_view(entries: Seq<(Yaml, Yaml)>) -> Seq<(YamlV, YamlV)>
    decreases entries,
{
    Seq::new(
        entries.len(),
        |i: int|
            if 0 <= i < entries.len() {
                (entries[i].0.view(), entries[i].1.view())
            } else {
                (YamlV::Null, YamlV::Null)
            },
    )
}

impl View for Yaml {
    type V = YamlV;

    open spec fn view(&self) -> YamlV
        decreases self,
    {
        match *self {
            Yaml::Null => YamlV::Null,
            Yaml::Bool(b) => YamlV::Bool(b),
            Yaml::Number(n) => YamlV::Number(n@),
            Yaml::Text(t) => YamlV::Text(t@),
            Yaml::List(items) => YamlV::List(list_view(items@)),
            Yaml::Table(entries) => YamlV::Table(table_view(entries@)),
            Yaml::Tagged => YamlV::Tagged,
        }
    }
}

pub broadcast proof fn lemma_list_view(items: Seq<Yaml>)
    ensures
        (#[trigger] list_view(items)).len() == items.len(),
        forall|i: int| 0 <= i < items.len() ==> #[trigger] list_view(items)[i] == items[i]@,
{
    reveal_with_fuel(list_view, 2);
}

pub broadcast proof fn lemma_table_view(entries: Seq<(Yaml, Yaml)>)
    ensures
        (#[trigger] table_view(entries)).len() == entries.len(),
        forall|i: int|
            0 <= i < entries.len() ==> #[trigger] table_view(entries)[i] == (
                entries[i].0@,
                entries[i].1@,
            ),
{
    reveal_with_fuel(table_view, 2);
}

pub broadcast proof fn lemma_yaml_view(v: Yaml)
    ensures
        #[trigger] v.view() == (match v {
            Yaml::Null => YamlV::Null,
            Yaml::Bool(b) => YamlV::Bool(b),
            Yaml::Number(n) => YamlV::Number(n@),
            Yaml::Text(t) => YamlV::Text(t@),
            Yaml::List(items) => YamlV::List(list_view(items@)),
            Yaml::Table(entries) => YamlV::Table(table_view(entries@)),
            Yaml::Tagged => YamlV::Tagged,
        }),
{
}

pub broadcast group group_yaml {
    lemma_yaml_view,
    lemma_list_view,
    lemma_table_view,
}

/// A YAML number as JSON: the first integer reading it has, else its finite value, else null.
pub open spec fn bridged_number(n: YamlNumberV) -> JsonV {
    if let Some(i) = n.signed {
        JsonV::Int(i)
    } else if let Some(u) = n.unsigned {
        JsonV::Int(u)
    } else if let Some(t) = n.real {
        JsonV::Real(t)
    } else {
        JsonV::Null
    }
}

/// A YAML value as JSON. A tagged value becomes null.
pub open spec fn bridged(v: YamlV) -> JsonV
    decreases v, 0nat,
{
    match v {
        YamlV::Null => JsonV::Null,
        YamlV::Bool(b) => JsonV::Bool(b),
        YamlV::Number(n) => bridged_number(n),
        YamlV::Text(t) => JsonV::Text(t),
        YamlV::List(items) => JsonV::Array(bridged_items(items)),
        YamlV::Table(entries) => JsonV::Object(bridged_entries(entries)),
        YamlV::Tagged => JsonV::Null,
    }
}

pub open spec fn bridged_items(items: Seq<YamlV>) -> Seq<JsonV>
    decreases items, 0nat,
{
    if items.len() == 0 {
        Seq::empty()
    } else {
        bridged_items(items.drop_last()).push(bridged(items.last()))
    }
}

/// The entries of a table as JSON; of two that come to the same name the later value stays.
pub open spec fn bridged_entries(entries: Seq<(YamlV, YamlV)>) -> Entries
    decreases entries, 0nat,
{
    if entries.len() == 0 {
        Seq::empty()
    } else {
        put(
            bridged_entries(entries.drop_last()),
            key_text(entries.last().0),
            bridged(entries.last().1),
        )
    }
}

/// The name that a table key becomes.
pub open spec fn key_text(k: YamlV) -> Seq<char>
    decreases k, 1nat,
{
    match k {
        YamlV::Text(t) => t,
        YamlV::Bool(b) => if b {
            "true"@
        } else {
            "false"@
        },
        YamlV::Number(n) => n.text,
        YamlV::Null => "~"@,
        other => json_text(bridged(other)),
    }
}

proof fn lemma_bridged_items(items: Seq<YamlV>)
    ensures
        items.len() == 0 ==> bridged_items(items) == Seq::<JsonV>::empty(),
        items.len() > 0 ==> bridged_items(items) == bridged_items(items.drop_last()).push(
            bridged(items.last()),
        ),
{
    reveal_with_fuel(bridged_items, 2);
    reveal_with_fuel(bridged, 2);
}

proof fn lemma_bridged_entries(entries: Seq<(YamlV, YamlV)>)
    ensures
        entries.len() == 0 ==> bridged_entries(entries) == Seq::<(Seq<char>, JsonV)>::empty(),
        entries.len() > 0 ==> bridged_entries(entries) == put(
            bridged_entries(entries.drop_last()),
            key_text(entries.last().0),
            bridged(entries.last().1),
        ),
{
    reveal_with_fuel(bridged_entries, 2);
    reveal_with_fuel(bridged, 2);
    reveal_with_fuel(key_text, 2);
}

proof fn lemma_bridged(v: YamlV)
    ensures
        bridged(v) == (match v {
            YamlV::Null => JsonV::Null,
            YamlV::Bool(b) => JsonV::Bool(b),
            YamlV::Number(n) => bridged_number(n),
            YamlV::Text(t) => JsonV::Text(t),
            YamlV::List(items) => JsonV::Array(bridged_items(items)),
            YamlV::Table(entries) => JsonV::Object(bridged_entries(entries)),
            YamlV::Tagged => JsonV::Null,
        }),
{
    reveal_with_fuel(bridged, 2);
    reveal_with_fuel(bridged_items, 2);
    reveal_with_fuel(bridged_entries, 2);
}

proof fn lemma_key_text(k: YamlV)
    ensures
        key_text(k) == (match k {
            YamlV::Text(t) => t,
            YamlV::Bool(b) => if b {
                "true"@
            } else {
                "false"@
            },
            YamlV::Number(n) => n.text,
            YamlV::Null => "~"@,
            other => json_text(bridged(other)),
        }),
{
    reveal_with_fuel(key_text, 2);
    reveal_with_fuel(bridged, 2);
}

/// Turns a YAML value into JSON.
pub fn yml_to_json(v: &Yaml) -> (r: Json)
    ensures
        r@ == bridged(v@),
    decreases v, 0nat,
{
    broadcast use group_yaml;

    proof {
        lemma_bridged(v@);
    }
    match v {
        Yaml::Null => Json::Null,
        Yaml::Bool(b) => Json::Bool(*b),
        Yaml::Number(n) => if let Some(i) = n.signed {
            Json::Int(i)
        } else if let Some(u) = n.unsigned {
            Json::UInt(u)
        } else if let Some(t) = &n.real {
            Json::Real(t.clone())
        } else {
            Json::Null
        },
        Yaml::Text(t) => Json::Text(t.clone()),
        Yaml::List(items) => {
            let ghost all = list_view(items@);
            let mut out: Vec<Json> = Vec::new();
            let mut i: usize = 0;
            proof {
                assert(all.take(0) =~= Seq::empty());
                lemma_bridged_items(all.take(0));
                assert(crate::json::items_view(out@) =~= Seq::empty());
            }
            while i < items.len()
                invariant
                    i <= items@.len(),
                    all == list_view(items@),
                    v matches Yaml::List(own) && own@ == items@,
                    crate::json::items_view(out@) == bridged_items(all.take(i as int)),
                decreases items@.len() - i,
            {
                let item = yml_to_json(&items[i]);
                let ghost before = out@;
                let ghost iv = item@;
                out.push(item);
                proof {
                    assert(all.take(i + 1).drop_last() =~= all.take(i as int));
                    lemma_bridged_items(all.take(i + 1));
                    assert(crate::json::items_view(out@) =~= crate::json::items_view(before).push(
                        iv,
                    ));
                }
                i += 1;
            }
            assert(all.take(all.len() as int) =~= all);
            Json::Array(out)
        },
        Yaml::Table(entries) => {
            let ghost all = table_view(entries@);
            let mut out: Vec<(String, Json)> = Vec::new();
            let mut i: usize = 0;
            proof {
                assert(all.take(0) =~= Seq::empty());
                lemma_bridged_entries(all.take(0));
                assert(crate::json::entries_view(out@) =~= Seq::empty());
            }
            while i < entries.len()
                invariant
                    i <= entries@.len(),
                    all == table_view(entries@),
                    v matches Yaml::Table(own) && own@ == entries@,
                    crate::json::entries_view(out@) == bridged_entries(all.take(i as int)),
                decreases entries@.len() - i,
            {
                let name = key_name(&entries[i].0);
                let value = yml_to_json(&entries[i].1);
                insert(&mut out, name.as_str(), value);
                proof {
                    assert(all.take(i + 1).drop_last() =~= all.take(i as int));
                    lemma_bridged_entries(all.take(i + 1));
                }
                i += 1;
            }
            assert(all.take(all.len() as int) =~= all);
            Json::Object(out)
        },
        Yaml::Tagged => Json::Null,
    }
}

/// The name that a table key becomes.
fn key_name(k: &Yaml) -> (r: String)
    ensures
        r@ == key_text(k@),
    decreases k, 1nat,
{
    broadcast use group_yaml;

    proof {
        lemma_key_text(k@);
    }
    match k {
        Yaml::Text(t) => t.clone(),
        Yaml::Bool(b) => if *b {
            "true".to_string()
        } else {
            "false".to_string()
        },
        Yaml::Number(n) => n.text.clone(),
        Yaml::Null => "~".to_string(),
        other => {
            let value = yml_to_json(other);
            to_text(&value)
        },
    }
}

/// A value of the YAML parser.
#[verifier::external_type_specification]
#[verifier::external_body]
pub struct ExYamlValue(serde_yml::Value);

/// What a value of the YAML parser holds.
pub uninterp spec fn yaml_tree(v: serde_yml::Value) -> YamlV;

/// What parsing a YAML text gives: a value or a diagnostic.
pub uninterp spec fn yaml_document(source: Seq<char>) -> Result<YamlV, Seq<char>>;

/// One level of a value of the YAML parser.
enum YamlNode {
    Null,
    Bool(bool),
    Number(YamlNumber),
    Text(String),
    List(Vec<serde_yml::Value>),
    Table(Vec<(serde_yml::Value, serde_yml::Value)>),
    Tagged,
}

spec fn node_tree(n: YamlNode) -> YamlV {
    match n {
        YamlNode::Null => YamlV::Null,
        YamlNode::Bool(b) => YamlV::Bool(b),
        YamlNode::Number(n) => YamlV::Number(n@),
        YamlNode::Text(t) => YamlV::Text(t@),
        YamlNode::List(items) => YamlV::List(items@.map_values(|x: serde_yml::Value| yaml_tree(x))),
        YamlNode::Table(entries) => YamlV::Table(
            entries@.map_values(
                |p: (serde_yml::Value, serde_yml::Value)| (yaml_tree(p.0), yaml_tree(p.1)),
            ),
        ),
        YamlNode::Tagged => YamlV::Tagged,
    }
}

/// A parse result as a value of views.
spec fn parsed_view(r: Result<serde_yml::Value, String>) -> Result<YamlV, Seq<char>> {
    match r {
        Ok(v) => Ok(yaml_tree(v)),
        Err(e) => Err(e@),
    }
}

/// `serde_yml::from_str` into a `serde_yml::Value`: the value or the diagnostic is a function of
/// the text alone.
#[verifier::external_body]
fn parse_yaml(source: &str) -> (r: Result<serde_yml::Value, String>)
    ensures
        parsed_view(r) == yaml_document(source@),
{
    serde_yml::from_str::<serde_yml::Value>(source).map_err(|e| e.to_string())
}

/// The variants of `serde_yml::Value`, one level deep: a number with its readings by `as_i64`,
/// `as_u64` and `as_f64` (the last as `serde_json::Number::from_f64` prints it) and its text, a
/// mapping with its entries in order.
#[verifier::external_body]
fn open_yaml(v: serde_yml::Value) -> (r: YamlNode)
    ensures
        node_tree(r) == yaml_tree(v),
{
    match v {
        serde_yml::Value::Null => YamlNode::Null,
        serde_yml::Value::Bool(b) => YamlNode::Bool(b),
        serde_yml::Value::Number(n) => YamlNode::Number(YamlNumber {
            signed: n.as_i64(),
            unsigned: n.as_u64(),
            real: n.as_f64().and_then(serde_json::Number::from_f64).map(|x| x.to_string()),
            text: n.to_string(),
        }),
        serde_yml::Value::String(t) => YamlNode::Text(t),
        serde_yml::Value::Sequence(items) => YamlNode::List(items),
        serde_yml::Value::Mapping(m) => YamlNode::Table(m.into_iter().collect()),
        serde_yml::Value::Tagged(_) => YamlNode::Tagged,
    }
}

/// A value of the YAML parser as a value of this library.
fn yaml_of(v: serde_yml::Value) -> (r: Yaml)
    ensures
        r@ == yaml_tree(v),
    decreases yaml_tree(v),
{
    broadcast use group_yaml;

    match open_yaml(v) {
        YamlNode::Null => Yaml::Null,
        YamlNode::Bool(b) => Yaml::Bool(b),
        YamlNode::Number(n) => Yaml::Number(n),
        YamlNode::Text(t) => Yaml::Text(t),
        YamlNode::List(items) => {
            let ghost all = items@;
            let ghost tree = yaml_tree(v);
            let mut out: Vec<Yaml> = Vec::new();
            for item in it: items
                invariant
                    it.seq() == all,
                    tree == yaml_tree(v),
                    tree == YamlV::List(all.map_values(|x: serde_yml::Value| yaml_tree(x))),
                    out@.len() == it.index(),
                    forall|k: int| 0 <= k < out@.len() ==> (#[trigger] out@[k])@ == yaml_tree(all[k]),
            {
                assert(tree->List_0[it.index() as int] == yaml_tree(item));
                out.push(yaml_of(item));
            }
            assert(list_view(out@) =~= tree->List_0);
            Yaml::List(out)
        },
        YamlNode::Table(entries) => {
            let ghost all = entries@;
            let ghost tree = yaml_tree(v);
            let mut out: Vec<(Yaml, Yaml)> = Vec::new();
            for entry in it: entries
                invariant
                    it.seq() == all,
                    tree == yaml_tree(v),
                    tree == YamlV::Table(
                        all.map_values(
                            |p: (serde_yml::Value, serde_yml::Value)|
                                (yaml_tree(p.0), yaml_tree(p.1)),
                        ),
                    ),
                    out@.len() == it.index(),
                    forall|k: int|
                        0 <= k < out@.len() ==> (#[trigger] out@[k]).0@ == yaml_tree(all[k].0)
                            && out@[k].1@ == yaml_tree(all[k].1),
            {
                proof {
                    let pair = tree->Table_0[it.index() as int];
                    assert(pair == (yaml_tree(entry.0), yaml_tree(entry.1)));
                    assert(decreases_to!(tree => tree->Table_0));
                    assert(decreases_to!(tree->Table_0 => tree->Table_0[it.index() as int]));
                    assert(decreases_to!(pair => pair.0));
                    assert(decreases_to!(pair => pair.1));
                    assert(decreases_to!(tree => pair.0));
                    assert(decreases_to!(tree => pair.1));
                }
                let (k, x) = entry;
                let key = yaml_of(k);
                let value = yaml_of(x);
                out.push((key, value));
            }
            assert(table_view(out@) =~= tree->Table_0);
            Yaml::Table(out)
        },
        YamlNode::Tagged => Yaml::Tagged,
    }
}

/// Parses a YAML document.
pub fn read_yaml(source: &str) -> (r: Result<Yaml, String>)
    ensures
        match r {
            Ok(v) => yaml_document(source@) == Ok::<YamlV, Seq<char>>(v@),
            Err(e) => yaml_document(source@) == Err::<YamlV, Seq<char>>(e@),
        },
{
    match parse_yaml(source) {
        Ok(v) => Ok(yaml_of(v)),
        Err(e) => Err(e),
    }
}

} // verus!
