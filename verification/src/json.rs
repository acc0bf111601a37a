//! JSON values and the operations on them that keep entry order.

use vstd::prelude::*;

use crate::text::{same, strings};

verus! {

/// A JSON value. An object keeps its entries in insertion order; a number that is no
/// integer of 64 bits is kept as its text.
#[derive(Debug, PartialEq, Eq)]
pub enum Json {
    Null,
    Bool(bool),
    Int(i64),
    UInt(u64),
    Real(String),
    Text(String),
    Array(Vec<Json>),
    Object(Vec<(String, Json)>),
}

/// What a [`Json`] stands for.
pub enum JsonV {
    Null,
    Bool(bool),
    Int(int),
    Real(Seq<char>),
    Text(Seq<char>),
    Array(Seq<JsonV>),
    Object(Seq<(Seq<char>, JsonV)>),
}

/// The entries of an object.
pub type Entries = Seq<(Seq<char>, JsonV)>;

pub open spec fn items_view(items: Seq<Json>) -> Seq<JsonV>
    decreases items,
{
    Seq::new(
        items.len(),
        |i: int|
            if 0 <= i < items.len() {
                items[i].view()
            } else {
                JsonV::Null
            },
    )
}

pub open spec fn entries_view(entries: Seq<(String, Json)>) -> Seq<(Seq<char>, JsonV)>
    decreases entries,
{
    Seq::new(
        entries.len(),
        |i: int|
            if 0 <= i < entries.len() {
                (entries[i].0@, entries[i].1.view())
            } else {
                (Seq::empty(), JsonV::Null)
            },
    )
}

impl View for Json {
    type V = JsonV;

    open spec fn view(&self) -> JsonV
        decreases self,
    {
        match *self {
            Json::Null => JsonV::Null,
            Json::Bool(b) => JsonV::Bool(b),
            Json::Int(n) => JsonV::Int(n as int),
            Json::UInt(n) => JsonV::Int(n as int),
            Json::Real(t) => JsonV::Real(t@),
            Json::Text(t) => JsonV::Text(t@),
            Json::Array(items) => JsonV::Array(items_view(items@)),
            Json::Object(entries) => JsonV::Object(entries_view(entries@)),
        }
    }
}

pub broadcast proof fn lemma_items_view(items: Seq<Json>)
    ensures
        (#[trigger] items_view(items)).len() == items.len(),
        forall|i: int| 0 <= i < items.len() ==> #[trigger] items_view(items)[i] == items[i]@,
{
    reveal_with_fuel(items_view, 2);
}

pub broadcast proof fn lemma_entries_view(entries: Seq<(String, Json)>)
    ensures
        (#[trigger] entries_view(entries)).len() == entries.len(),
        forall|i: int|
            0 <= i < entries.len() ==> #[trigger] entries_view(entries)[i] == (
                entries[i].0@,
                entries[i].1@,
            ),
{
    reveal_with_fuel(entries_view, 2);
}

pub broadcast proof fn lemma_json_view(v: Json)
    ensures
        #[trigger] v.view() == (match v {
            Json::Null => JsonV::Null,
            Json::Bool(b) => JsonV::Bool(b),
            Json::Int(n) => JsonV::Int(n as int),
            Json::UInt(n) => JsonV::Int(n as int),
            Json::Real(t) => JsonV::Real(t@),
            Json::Text(t) => JsonV::Text(t@),
            Json::Array(items) => JsonV::Array(items_view(items@)),
            Json::Object(entries) => JsonV::Object(entries_view(entries@)),
        }),
{
}

pub broadcast group group_json {
    lemma_json_view,
    lemma_items_view,
    lemma_entries_view,
}

/// Position of the first entry under `name`, or the number of entries.
pub open spec fn position(entries: Entries, name: Seq<char>) -> int
    decreases entries.len(),
{
    if entries.len() == 0 || entries[0].0 == name {
        0
    } else {
        1 + position(entries.drop_first(), name)
    }
}

pub proof fn lemma_position(entries: Entries, name: Seq<char>)
    ensures
        0 <= position(entries, name) <= entries.len(),
        position(entries, name) < entries.len() ==> entries[position(entries, name)].0 == name,
        forall|i: int| 0 <= i < position(entries, name) ==> (#[trigger] entries[i]).0 != name,
    decreases entries.len(),
{
    if entries.len() > 0 && entries[0].0 != name {
        let rest = entries.drop_first();
        lemma_position(rest, name);
        assert forall|i: int| 0 <= i < position(entries, name) implies (#[trigger] entries[i]).0
            != name by {
            if i > 0 {
                assert(entries[i] == rest[i - 1]);
            }
        }
        if position(entries, name) < entries.len() {
            assert(entries[position(entries, name)] == rest[position(rest, name)]);
        }
    }
}

/// A position that holds `name`, with no such name before it, is the position of `name`.
pub proof fn lemma_position_is(entries: Entries, name: Seq<char>, at: int)
    requires
        0 <= at <= entries.len(),
        at < entries.len() ==> entries[at].0 == name,
        forall|i: int| 0 <= i < at ==> (#[trigger] entries[i]).0 != name,
    ensures
        position(entries, name) == at,
{
    lemma_position(entries, name);
    let p = position(entries, name);
    if p < at {
        assert(entries[p].0 != name);
    }
}

/// The value under `name`.
pub open spec fn lookup(entries: Entries, name: Seq<char>) -> Option<JsonV> {
    if position(entries, name) < entries.len() {
        Some(entries[position(entries, name)].1)
    } else {
        None
    }
}

/// `entries` with `name` bound to `value`: in place where it is bound already, else at the end.
pub open spec fn put(entries: Entries, name: Seq<char>, value: JsonV) -> Entries {
    let at = position(entries, name);
    if at < entries.len() {
        entries.update(at, (entries[at].0, value))
    } else {
        entries.push((name, value))
    }
}

/// `entries` without its first entry under `name`.
pub open spec fn without(entries: Entries, name: Seq<char>) -> Entries {
    let at = position(entries, name);
    if at < entries.len() {
        entries.remove(at)
    } else {
        entries
    }
}

/// What `put` binds is found, and every other name is bound as before.
pub proof fn put_is_found(entries: Entries, name: Seq<char>, value: JsonV, other: Seq<char>)
    ensures
        lookup(put(entries, name, value), other) == (if other == name {
            Some(value)
        } else {
            lookup(entries, other)
        }),
{
    let after = put(entries, name, value);
    let at = position(entries, name);
    lemma_position(entries, name);
    lemma_position(entries, other);
    if other == name {
        lemma_position_is(after, name, at);
    } else {
        let p = position(entries, other);
        assert forall|i: int| 0 <= i < p implies (#[trigger] after[i]).0 != other by {
            assert(entries[i].0 != other);
        }
        if p < entries.len() {
            lemma_position_is(after, other, p);
        } else {
            lemma_position_is(after, other, after.len() as int);
        }
    }
}

/// What `without` drops is gone where the names are distinct, and every other name is bound as
/// before.
pub proof fn without_drops(entries: Entries, name: Seq<char>, other: Seq<char>)
    requires
        forall|i: int, j: int|
            0 <= i < j < entries.len() ==> (#[trigger] entries[i]).0 != (#[trigger] entries[j]).0,
    ensures
        lookup(without(entries, name), other) == (if other == name {
            None
        } else {
            lookup(entries, other)
        }),
{
    let after = without(entries, name);
    let at = position(entries, name);
    lemma_position(entries, name);
    lemma_position(entries, other);
    let p = position(entries, other);
    if at < entries.len() {
        assert(after =~= entries.remove(at));
        assert forall|i: int| 0 <= i < after.len() implies (#[trigger] after[i]) == (if i < at {
            entries[i]
        } else {
            entries[i + 1]
        }) by {}
        if other == name {
            lemma_position_is(after, other, after.len() as int);
        } else if p < entries.len() {
            lemma_position_is(
                after,
                other,
                if p < at {
                    p
                } else {
                    p - 1
                },
            );
        } else {
            lemma_position_is(after, other, after.len() as int);
        }
    }
}

/// The value under `name`, where `v` is an object that binds it.
pub open spec fn field(v: JsonV, name: Seq<char>) -> Option<JsonV> {
    match v {
        JsonV::Object(entries) => lookup(entries, name),
        _ => None,
    }
}

/// The text under `name`, where `v` is an object that binds it to a string.
pub open spec fn text_field(v: JsonV, name: Seq<char>) -> Option<Seq<char>> {
    match field(v, name) {
        Some(JsonV::Text(t)) => Some(t),
        _ => None,
    }
}

/// Each text as a JSON string.
pub open spec fn texts(list: Seq<Seq<char>>) -> JsonV {
    JsonV::Array(list.map_values(|t: Seq<char>| JsonV::Text(t)))
}

/// Finds `name` in `entries`.
pub fn find(entries: &Vec<(String, Json)>, name: &str) -> (at: usize)
    ensures
        at == position(entries_view(entries@), name@),
{
    broadcast use group_json;

    let ghost all = entries_view(entries@);
    let mut i: usize = 0;
    proof {
        lemma_position(all, name@);
        assert(all.skip(0) =~= all);
    }
    while i < entries.len() && !same(entries[i].0.as_str(), name)
        invariant
            i <= entries@.len(),
            all == entries_view(entries@),
            position(all, name@) == i + position(all.skip(i as int), name@),
        decreases entries@.len() - i,
    {
        proof {
            assert(all.skip(i as int)[0] == all[i as int]);
            assert(all.skip(i as int).drop_first() =~= all.skip(i + 1));
        }
        i += 1;
    }
    proof {
        if i < entries@.len() {
            assert(all.skip(i as int)[0] == all[i as int]);
        }
    }
    i
}

/// Binds `name` to `value` in `entries`.
pub fn insert(entries: &mut Vec<(String, Json)>, name: &str, value: Json)
    ensures
        entries_view(final(entries)@) == put(entries_view(old(entries)@), name@, value@),
{
    broadcast use group_json;

    let at: usize = find(entries, name);
    let ghost before = entries@;
    proof {
        lemma_position(entries_view(before), name@);
    }
    if at < entries.len() {
        let key = entries[at].0.clone();
        entries.set(at, (key, value));
    } else {
        entries.push((name.to_string(), value));
    }
    assert(entries_view(entries@) =~= put(entries_view(before), name@, value@));
}

/// Drops the entry under `name`, where there is one.
pub fn remove(entries: &mut Vec<(String, Json)>, name: &str)
    ensures
        entries_view(final(entries)@) == without(entries_view(old(entries)@), name@),
{
    broadcast use group_json;

    let at: usize = find(entries, name);
    let ghost before = entries@;
    if at < entries.len() {
        entries.remove(at);
    }
    assert(entries_view(entries@) =~= without(entries_view(before), name@));
}

impl Json {
    /// A JSON string.
    pub fn text(s: &str) -> (r: Json)
        ensures
            r@ == JsonV::Text(s@),
    {
        broadcast use group_json;

        Json::Text(s.to_string())
    }

    /// A JSON array of strings.
    pub fn texts(list: &Vec<String>) -> (r: Json)
        ensures
            r@ == texts(strings(list@)),
    {
        broadcast use group_json;

        let mut items: Vec<Json> = Vec::new();
        let mut i: usize = 0;
        while i < list.len()
            invariant
                i <= list@.len(),
                items@.len() == i,
                forall|j: int| 0 <= j < i ==> (#[trigger] items@[j])@ == JsonV::Text(list@[j]@),
            decreases list@.len() - i,
        {
            items.push(Json::text(list[i].as_str()));
            i += 1;
        }
        assert(items_view(items@) =~= strings(list@).map_values(|t: Seq<char>| JsonV::Text(t)));
        Json::Array(items)
    }

    /// An object with no entries.
    pub fn object() -> (r: Json)
        ensures
            r@ == JsonV::Object(Seq::empty()),
    {
        broadcast use group_json;

        let entries: Vec<(String, Json)> = Vec::new();
        assert(entries_view(entries@) =~= Seq::empty());
        Json::Object(entries)
    }

    /// This object with one more binding; any other value is returned as it is.
    pub fn with(self, name: &str, value: Json) -> (r: Json)
        ensures
            r@ == (match self@ {
                JsonV::Object(entries) => JsonV::Object(put(entries, name@, value@)),
                other => other,
            }),
    {
        broadcast use group_json;

        match self {
            Json::Object(entries) => {
                let mut entries = entries;
                insert(&mut entries, name, value);
                Json::Object(entries)
            },
            other => other,
        }
    }

    /// This object without `name`; any other value is returned as it is.
    pub fn dropping(self, name: &str) -> (r: Json)
        ensures
            r@ == (match self@ {
                JsonV::Object(entries) => JsonV::Object(without(entries, name@)),
                other => other,
            }),
    {
        broadcast use group_json;

        match self {
            Json::Object(entries) => {
                let mut entries = entries;
                remove(&mut entries, name);
                Json::Object(entries)
            },
            other => other,
        }
    }

    /// The value under `name`, where this is an object that binds it.
    pub fn get(&self, name: &str) -> (r: Option<&Json>)
        ensures
            match r {
                Some(v) => field(self@, name@) == Some(v@),
                None => field(self@, name@) is None,
            },
    {
        broadcast use group_json;

        match self {
            Json::Object(entries) => {
                let at: usize = find(entries, name);
                if at < entries.len() {
                    Some(&entries[at].1)
                } else {
                    None
                }
            },
            _ => None,
        }
    }

    /// The text of a JSON string.
    pub fn as_str(&self) -> (r: Option<&str>)
        ensures
            match r {
                Some(t) => self@ == JsonV::Text(t@),
                None => !(self@ is Text),
            },
    {
        broadcast use group_json;

        match self {
            Json::Text(t) => Some(t.as_str()),
            _ => None,
        }
    }

    /// The value of a JSON integer that fits in 64 bits with sign.
    pub fn as_i64(&self) -> (r: Option<i64>)
        ensures
            match r {
                Some(n) => self@ == JsonV::Int(n as int),
                None => self@ matches JsonV::Int(n) ==> n > i64::MAX,
            },
    {
        broadcast use group_json;

        match self {
            Json::Int(n) => Some(*n),
            Json::UInt(n) => if *n <= i64::MAX as u64 {
                Some(*n as i64)
            } else {
                None
            },
            _ => None,
        }
    }

    pub fn is_null(&self) -> (r: bool)
        ensures
            r == (self@ is Null),
    {
        broadcast use group_json;

        matches!(self, Json::Null)
    }

    /// A value equal to this one.
    pub fn duplicate(&self) -> (r: Json)
        ensures
            r@ == self@,
        decreases self,
    {
        broadcast use group_json;

        match self {
            Json::Null => Json::Null,
            Json::Bool(b) => Json::Bool(*b),
            Json::Int(n) => Json::Int(*n),
            Json::UInt(n) => Json::UInt(*n),
            Json::Real(t) => Json::Real(t.clone()),
            Json::Text(t) => Json::Text(t.clone()),
            Json::Array(items) => {
                let mut out: Vec<Json> = Vec::new();
                let mut i: usize = 0;
                while i < items.len()
                    invariant
                        i <= items@.len(),
                        self matches Json::Array(all) && all@ == items@,
                        out@.len() == i,
                        forall|j: int| 0 <= j < i ==> (#[trigger] out@[j])@ == items@[j]@,
                    decreases items@.len() - i,
                {
                    out.push(items[i].duplicate());
                    i += 1;
                }
                assert(items_view(out@) =~= items_view(items@));
                Json::Array(out)
            },
            Json::Object(entries) => {
                let mut out: Vec<(String, Json)> = Vec::new();
                let mut i: usize = 0;
                while i < entries.len()
                    invariant
                        i <= entries@.len(),
                        self matches Json::Object(all) && all@ == entries@,
                        out@.len() == i,
                        forall|j: int|
                            0 <= j < i ==> (#[trigger] out@[j]).0@ == entries@[j].0@
                                && out@[j].1@ == entries@[j].1@,
                    decreases entries@.len() - i,
                {
                    out.push((entries[i].0.clone(), entries[i].1.duplicate()));
                    i += 1;
                }
                assert(entries_view(out@) =~= entries_view(entries@));
                Json::Object(out)
            },
        }
    }
}

impl Clone for Json {
    fn clone(&self) -> (r: Json)
        ensures
            r@ == self@,
    {
        self.duplicate()
    }
}

/// The text under `name`, where `v` is an object that binds it to a string.
pub fn get_str<'a>(v: &'a Json, name: &str) -> (r: Option<&'a str>)
    ensures
        match r {
            Some(t) => text_field(v@, name@) == Some(t@),
            None => text_field(v@, name@) is None,
        },
{
    match v.get(name) {
        Some(value) => value.as_str(),
        None => None,
    }
}

} // verus!
