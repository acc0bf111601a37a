//! Canonical JSON text and the digests taken of it.

use vstd::prelude::*;

use crate::json::{entries_view, group_json, items_view, Entries, Json, JsonV};
use crate::text::{chars_of, same};

verus! {

broadcast use group_json;

/// The character of a digit below sixteen.
pub open spec fn digit(n: int) -> char {
    if n < 10 {
        (0x30 + n) as char
    } else {
        (0x57 + n) as char
    }
}

pub fn digit_of(n: u8) -> (c: char)
    requires
        n < 16,
    ensures
        c == digit(n as int),
{
    let code: u8 = if n < 10 {
        0x30 + n
    } else {
        0x57 + n
    };
    code as char
}

/// The decimal digits of `n`.
pub open spec fn digits(n: nat) -> Seq<char>
    decreases n,
{
    if n < 10 {
        seq![digit(n as int)]
    } else {
        digits(n / 10).push(digit((n % 10) as int))
    }
}

/// `n` in decimal notation.
pub open spec fn decimal(n: int) -> Seq<char> {
    if n < 0 {
        seq!['-'] + digits((-n) as nat)
    } else {
        digits(n as nat)
    }
}

/// Appends the decimal digits of `n`.
fn write_digits(n: u64, out: &mut String)
    ensures
        final(out)@ == old(out)@ + digits(n as nat),
    decreases n,
{
    if n >= 10 {
        write_digits(n / 10, out);
    }
    out.push(digit_of((n % 10) as u8));
    assert(out@ =~= old(out)@ + digits(n as nat));
}

/// Appends `n` in decimal notation.
fn write_decimal(n: i64, out: &mut String)
    ensures
        final(out)@ == old(out)@ + decimal(n as int),
{
    if n < 0 {
        out.push('-');
        let m: u64 = if n == i64::MIN {
            0x8000_0000_0000_0000
        } else {
            (-n) as u64
        };
        write_digits(m, out);
        assert(out@ =~= old(out)@ + decimal(n as int));
    } else {
        write_digits(n as u64, out);
    }
}

/// `n` in decimal notation.
pub fn decimal_of(n: i64) -> (s: String)
    ensures
        s@ == decimal(n as int),
{
    let mut s = String::new();
    write_decimal(n, &mut s);
    assert(s@ =~= decimal(n as int));
    s
}

/// How one character stands inside a JSON string.
pub open spec fn escape(c: char) -> Seq<char> {
    if c == '"' {
        seq!['\\', '"']
    } else if c == '\\' {
        seq!['\\', '\\']
    } else if c == '\u{8}' {
        seq!['\\', 'b']
    } else if c == '\t' {
        seq!['\\', 't']
    } else if c == '\n' {
        seq!['\\', 'n']
    } else if c == '\u{c}' {
        seq!['\\', 'f']
    } else if c == '\r' {
        seq!['\\', 'r']
    } else if (c as u32) < 0x20 {
        seq!['\\', 'u', '0', '0', digit((c as u32) as int / 16), digit((c as u32) as int % 16)]
    } else {
        seq![c]
    }
}

pub open spec fn escaped(s: Seq<char>) -> Seq<char>
    decreases s.len(),
{
    if s.len() == 0 {
        Seq::empty()
    } else {
        escape(s[0]) + escaped(s.drop_first())
    }
}

/// The JSON string that stands for `s`.
pub open spec fn quoted(s: Seq<char>) -> Seq<char> {
    seq!['"'] + escaped(s) + seq!['"']
}

/// `serde_json::to_string` of a string: the text in double quotes, with the quote, the
/// backslash and the control characters below U+0020 escaped and every other character as it is.
#[verifier::external_body]
pub(crate) fn quote(s: &str) -> (r: String)
    ensures
        r@ == quoted(s@),
{
    serde_json::to_string(s).expect("a string serializes")
}

/// The compact text of a value, entries in the order in which they stand.
pub open spec fn json_text(v: JsonV) -> Seq<char>
    decreases v,
{
    match v {
        JsonV::Null => "null"@,
        JsonV::Bool(b) => if b {
            "true"@
        } else {
            "false"@
        },
        JsonV::Int(n) => decimal(n),
        JsonV::Real(t) => t,
        JsonV::Text(t) => quoted(t),
        JsonV::Array(items) => "["@ + items_text(items, true) + "]"@,
        JsonV::Object(entries) => "{"@ + entries_text(entries, true) + "}"@,
    }
}

/// The items of an array, a comma before each of them but the first of the array.
pub open spec fn items_text(items: Seq<JsonV>, first: bool) -> Seq<char>
    decreases items,
{
    if items.len() == 0 {
        Seq::empty()
    } else {
        comma(first) + json_text(items[0]) + items_text(items.drop_first(), false)
    }
}

/// The entries of an object, a comma before each of them but the first of the object.
pub open spec fn entries_text(entries: Entries, first: bool) -> Seq<char>
    decreases entries,
{
    if entries.len() == 0 {
        Seq::empty()
    } else {
        comma(first) + quoted(entries[0].0) + ":"@ + json_text(entries[0].1) + entries_text(
            entries.drop_first(),
            false,
        )
    }
}

pub open spec fn comma(first: bool) -> Seq<char> {
    if first {
        Seq::empty()
    } else {
        ","@
    }
}

pub proof fn lemma_json_text(v: JsonV)
    ensures
        json_text(v) == (match v {
            JsonV::Null => "null"@,
            JsonV::Bool(b) => if b {
                "true"@
            } else {
                "false"@
            },
            JsonV::Int(n) => decimal(n),
            JsonV::Real(t) => t,
            JsonV::Text(t) => quoted(t),
            JsonV::Array(items) => "["@ + items_text(items, true) + "]"@,
            JsonV::Object(entries) => "{"@ + entries_text(entries, true) + "}"@,
        }),
{
}

pub proof fn lemma_items_text(items: Seq<JsonV>, first: bool)
    ensures
        items_text(items, first) == (if items.len() == 0 {
            Seq::empty()
        } else {
            comma(first) + json_text(items[0]) + items_text(items.drop_first(), false)
        }),
{
}

pub proof fn lemma_entries_text(entries: Entries, first: bool)
    ensures
        entries_text(entries, first) == (if entries.len() == 0 {
            Seq::empty()
        } else {
            comma(first) + quoted(entries[0].0) + ":"@ + json_text(entries[0].1) + entries_text(
                entries.drop_first(),
                false,
            )
        }),
{
}

/// Appends the compact text of `v`.
fn write_json(v: &Json, out: &mut String)
    ensures
        final(out)@ == old(out)@ + json_text(v@),
    decreases v,
{
    proof {
        lemma_json_text(v@);
    }
    match v {
        Json::Null => out.push_str("null"),
        Json::Bool(b) => if *b {
            out.push_str("true")
        } else {
            out.push_str("false")
        },
        Json::Int(n) => write_decimal(*n, out),
        Json::UInt(n) => write_digits(*n, out),
        Json::Real(t) => out.push_str(t.as_str()),
        Json::Text(t) => {
            let q = quote(t.as_str());
            out.push_str(q.as_str())
        },
        Json::Array(items) => {
            let ghost all = items_view(items@);
            out.push_str("[");
            let mut i: usize = 0;
            assert(all.skip(0) =~= all);
            while i < items.len()
                invariant
                    i <= items@.len(),
                    v matches Json::Array(own) && own@ == items@,
                    all == items_view(items@),
                    out@ + items_text(all.skip(i as int), i == 0) == old(out)@ + "["@
                        + items_text(all, true),
                decreases items@.len() - i,
            {
                let ghost rest = all.skip(i as int);
                proof {
                    lemma_items_text(rest, i == 0);
                    assert(rest.drop_first() =~= all.skip(i + 1));
                }
                let ghost start = out@;
                if i > 0 {
                    out.push_str(",");
                }
                assert(out@ =~= start + comma(i == 0));
                write_json(&items[i], out);
                i += 1;
                assert(out@ + items_text(all.skip(i as int), false) =~= start + items_text(
                    rest,
                    i == 1,
                ));
            }
            proof {
                lemma_items_text(all.skip(i as int), i == 0);
                assert(out@ =~= old(out)@ + "["@ + items_text(all, true));
            }
            out.push_str("]");
            assert(out@ =~= old(out)@ + json_text(v@));
        },
        Json::Object(entries) => {
            let ghost all = entries_view(entries@);
            out.push_str("{");
            let mut i: usize = 0;
            assert(all.skip(0) =~= all);
            while i < entries.len()
                invariant
                    i <= entries@.len(),
                    v matches Json::Object(own) && own@ == entries@,
                    all == entries_view(entries@),
                    out@ + entries_text(all.skip(i as int), i == 0) == old(out)@ + "{"@
                        + entries_text(all, true),
                decreases entries@.len() - i,
            {
                let ghost rest = all.skip(i as int);
                proof {
                    lemma_entries_text(rest, i == 0);
                    assert(rest.drop_first() =~= all.skip(i + 1));
                }
                let ghost start = out@;
                if i > 0 {
                    out.push_str(",");
                }
                assert(out@ =~= start + comma(i == 0));
                let q = quote(entries[i].0.as_str());
                out.push_str(q.as_str());
                out.push_str(":");
                write_json(&entries[i].1, out);
                i += 1;
                assert(out@ + entries_text(all.skip(i as int), false) =~= start + entries_text(
                    rest,
                    i == 1,
                ));
            }
            proof {
                lemma_entries_text(all.skip(i as int), i == 0);
                assert(out@ =~= old(out)@ + "{"@ + entries_text(all, true));
            }
            out.push_str("}");
            assert(out@ =~= old(out)@ + json_text(v@));
        },
    }
}

/// The compact text of `v`, entries in the order in which they stand.
pub fn to_text(v: &Json) -> (s: String)
    ensures
        s@ == json_text(v@),
{
    let mut s = String::new();
    write_json(v, &mut s);
    assert(s@ =~= json_text(v@));
    s
}

/// Code point order of texts, shorter first where one begins the other.
pub open spec fn before(a: Seq<char>, b: Seq<char>) -> bool
    decreases a.len(),
{
    if b.len() == 0 {
        false
    } else if a.len() == 0 {
        true
    } else if a[0] != b[0] {
        (a[0] as u32) < (b[0] as u32)
    } else {
        before(a.drop_first(), b.drop_first())
    }
}

/// Whether `a` comes before `b` in code point order.
pub fn is_before(a: &str, b: &str) -> (r: bool)
    ensures
        r == before(a@, b@),
{
    let x = chars_of(a);
    let y = chars_of(b);
    let mut i: usize = 0;
    assert(x@.skip(0) =~= x@ && y@.skip(0) =~= y@);
    while i < x.len() && i < y.len() && x[i] == y[i]
        invariant
            i <= x@.len(),
            i <= y@.len(),
            before(x@, y@) == before(x@.skip(i as int), y@.skip(i as int)),
        decreases x@.len() - i,
    {
        assert(x@.skip(i as int).drop_first() =~= x@.skip(i + 1));
        assert(y@.skip(i as int).drop_first() =~= y@.skip(i + 1));
        i += 1;
    }
    if i >= y.len() {
        false
    } else if i >= x.len() {
        true
    } else {
        (x[i] as u32) < (y[i] as u32)
    }
}

/// `entries`, which stand in ascending order of their names, with `name` bound to `value`.
pub open spec fn place(entries: Entries, name: Seq<char>, value: JsonV) -> Entries
    decreases entries.len(),
{
    if entries.len() == 0 || before(name, entries[0].0) {
        seq![(name, value)] + entries
    } else if entries[0].0 == name {
        entries.update(0, (name, value))
    } else {
        seq![entries[0]] + place(entries.drop_first(), name, value)
    }
}

/// The value with the entries of every object in ascending order of their names. Where a name
/// occurs twice the later value stands.
pub open spec fn sorted(v: JsonV) -> JsonV
    decreases v,
{
    match v {
        JsonV::Array(items) => JsonV::Array(sorted_items(items)),
        JsonV::Object(entries) => JsonV::Object(sorted_entries(entries)),
        other => other,
    }
}

pub open spec fn sorted_items(items: Seq<JsonV>) -> Seq<JsonV>
    decreases items,
{
    Seq::new(
        items.len(),
        |i: int|
            if 0 <= i < items.len() {
                sorted(items[i])
            } else {
                JsonV::Null
            },
    )
}

pub open spec fn sorted_entries(entries: Entries) -> Entries
    decreases entries,
{
    if entries.len() == 0 {
        Seq::empty()
    } else {
        place(sorted_entries(entries.drop_last()), entries.last().0, sorted(entries.last().1))
    }
}

/// The text of `v` with sorted names, compact, and with characters outside ASCII as they are.
pub open spec fn canonical(v: JsonV) -> Seq<char> {
    json_text(sorted(v))
}

pub proof fn lemma_sorted(v: JsonV)
    ensures
        sorted(v) == (match v {
            JsonV::Array(items) => JsonV::Array(sorted_items(items)),
            JsonV::Object(entries) => JsonV::Object(sorted_entries(entries)),
            other => other,
        }),
{
}

pub proof fn lemma_sorted_items(items: Seq<JsonV>)
    ensures
        sorted_items(items).len() == items.len(),
        forall|i: int| 0 <= i < items.len() ==> #[trigger] sorted_items(items)[i] == sorted(items[i]),
{
    reveal_with_fuel(sorted_items, 2);
}

pub proof fn lemma_sorted_entries(entries: Entries)
    ensures
        sorted_entries(entries) == (if entries.len() == 0 {
            Seq::empty()
        } else {
            place(sorted_entries(entries.drop_last()), entries.last().0, sorted(entries.last().1))
        }),
{
}

/// Where `place` puts an entry, in terms of the names that it passes.
proof fn lemma_place(entries: Entries, at: int, name: Seq<char>, value: JsonV)
    requires
        0 <= at <= entries.len(),
        forall|i: int|
            0 <= i < at ==> (#[trigger] entries[i]).0 != name && !before(name, entries[i].0),
        at < entries.len() ==> entries[at].0 == name || before(name, entries[at].0),
    ensures
        place(entries, name, value) == (if at < entries.len() && !before(name, entries[at].0) {
            entries.update(at, (name, value))
        } else {
            entries.insert(at, (name, value))
        }),
    decreases entries.len(),
{
    if at == 0 {
        assert(entries.insert(0, (name, value)) =~= seq![(name, value)] + entries);
    } else {
        let rest = entries.drop_first();
        assert(entries[0].0 != name);
        assert forall|i: int| 0 <= i < at - 1 implies (#[trigger] rest[i]).0 != name && !before(
            name,
            rest[i].0,
        ) by {
            assert(rest[i] == entries[i + 1]);
        }
        if at < entries.len() {
            assert(rest[at - 1] == entries[at]);
        }
        lemma_place(rest, at - 1, name, value);
        if at < entries.len() && !before(name, entries[at].0) {
            assert(entries.update(at, (name, value)) =~= seq![entries[0]] + rest.update(
                at - 1,
                (name, value),
            ));
        } else {
            assert(entries.insert(at, (name, value)) =~= seq![entries[0]] + rest.insert(
                at - 1,
                (name, value),
            ));
        }
    }
}

/// Binds `name` to `value` in entries that stand in ascending order of their names.
pub fn place_entry(entries: &mut Vec<(String, Json)>, name: &str, value: Json)
    ensures
        entries_view(final(entries)@) == place(entries_view(old(entries)@), name@, value@),
{
    let ghost all = entries_view(entries@);
    let mut at: usize = 0;
    while at < entries.len() && !is_before(name, entries[at].0.as_str()) && !same(
        entries[at].0.as_str(),
        name,
    )
        invariant
            at <= entries@.len(),
            all == entries_view(entries@),
            forall|i: int|
                0 <= i < at ==> (#[trigger] all[i]).0 != name@ && !before(name@, all[i].0),
        decreases entries@.len() - at,
    {
        at += 1;
    }
    proof {
        lemma_place(all, at as int, name@, value@);
    }
    if at < entries.len() && !is_before(name, entries[at].0.as_str()) {
        entries.set(at, (name.to_string(), value));
        assert(entries_view(entries@) =~= all.update(at as int, (name@, value@)));
    } else {
        entries.insert(at, (name.to_string(), value));
        assert(entries_view(entries@) =~= all.insert(at as int, (name@, value@)));
    }
}

/// A copy of `value` with the entries of every object in ascending order of their names.
pub fn sort_value(value: &Json) -> (r: Json)
    ensures
        r@ == sorted(value@),
    decreases value,
{
    proof {
        lemma_sorted(value@);
    }
    match value {
        Json::Array(items) => {
            let mut out: Vec<Json> = Vec::new();
            let mut i: usize = 0;
            while i < items.len()
                invariant
                    i <= items@.len(),
                    value matches Json::Array(own) && own@ == items@,
                    out@.len() == i,
                    forall|j: int| 0 <= j < i ==> (#[trigger] out@[j])@ == sorted(items@[j]@),
                decreases items@.len() - i,
            {
                out.push(sort_value(&items[i]));
                i += 1;
            }
            proof {
                lemma_sorted_items(items_view(items@));
                assert(items_view(out@) =~= sorted_items(items_view(items@)));
            }
            Json::Array(out)
        },
        Json::Object(entries) => {
            let ghost all = entries_view(entries@);
            let mut out: Vec<(String, Json)> = Vec::new();
            let mut i: usize = 0;
            proof {
                lemma_sorted_entries(all.take(0));
                assert(entries_view(out@) =~= sorted_entries(all.take(0)));
            }
            while i < entries.len()
                invariant
                    i <= entries@.len(),
                    value matches Json::Object(own) && own@ == entries@,
                    all == entries_view(entries@),
                    entries_view(out@) == sorted_entries(all.take(i as int)),
                decreases entries@.len() - i,
            {
                let v = sort_value(&entries[i].1);
                place_entry(&mut out, entries[i].0.as_str(), v);
                i += 1;
                proof {
                    lemma_sorted_entries(all.take(i as int));
                    assert(all.take(i as int).drop_last() =~= all.take(i - 1));
                }
            }
            assert(all.take(i as int) =~= all);
            Json::Object(out)
        },
        _ => value.duplicate(),
    }
}

/// Serializes `value` with recursively sorted names, compact, non-ASCII characters preserved.
pub fn canonical_json(value: &Json) -> (s: String)
    ensures
        s@ == canonical(value@),
{
    to_text(&sort_value(value))
}

/// The SHA-256 digest of `data`.
pub uninterp spec fn sha256(data: Seq<u8>) -> Seq<u8>;

/// `sha2::Sha256::digest`: the 32 bytes of the SHA-256 digest, which is a function of the bytes
/// alone.
#[verifier::external_body]
fn sha256_digest(data: &[u8]) -> (r: Vec<u8>)
    ensures
        r@ == sha256(data@),
        r@.len() == 32,
{
    <sha2::Sha256 as sha2::Digest>::digest(data).to_vec()
}

/// Two lowercase hexadecimal digits for each byte.
pub open spec fn hex(bytes: Seq<u8>) -> Seq<char>
    decreases bytes.len(),
{
    if bytes.len() == 0 {
        Seq::empty()
    } else {
        hex(bytes.drop_last()) + seq![
            digit(bytes.last() as int / 16),
            digit(bytes.last() as int % 16),
        ]
    }
}

/// `sha256:` and the digest in lowercase hexadecimal.
pub open spec fn digest_text(data: Seq<u8>) -> Seq<char> {
    "sha256:"@ + hex(sha256(data))
}

/// `"sha256:"` followed by the lowercase hexadecimal digest of `bytes`.
pub fn sha256_hex(bytes: &[u8]) -> (s: String)
    ensures
        s@ == digest_text(bytes@),
{
    let digest = sha256_digest(bytes);
    let mut s = String::new();
    s.push_str("sha256:");
    assert(s@ =~= "sha256:"@);
    let mut i: usize = 0;
    assert(digest@.take(0) =~= Seq::<u8>::empty());
    assert(s@ =~= "sha256:"@ + hex(digest@.take(0)));
    while i < digest.len()
        invariant
            i <= digest@.len(),
            s@ == "sha256:"@ + hex(digest@.take(i as int)),
        decreases digest@.len() - i,
    {
        let b: u8 = digest[i];
        s.push(digit_of(b / 16));
        s.push(digit_of(b % 16));
        i += 1;
        assert(digest@.take(i as int).drop_last() =~= digest@.take(i - 1));
        assert(s@ =~= "sha256:"@ + hex(digest@.take(i as int)));
    }
    assert(digest@.take(i as int) =~= digest@);
    s
}

/// The digest of the UTF-8 bytes of a text.
pub open spec fn text_digest(text: Seq<char>) -> Seq<char> {
    digest_text(vstd::utf8::encode_utf8(text))
}

/// The digest of the canonical text of `value`.
pub fn canonical_hash(value: &Json) -> (s: String)
    ensures
        s@ == text_digest(canonical(value@)),
{
    let encoded = canonical_json(value);
    sha256_hex(encoded.as_str().as_bytes())
}

} // verus!
