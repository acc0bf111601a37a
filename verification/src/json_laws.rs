//! What canonical JSON texts promise: one form for each value, and one value for each form.

use vstd::prelude::*;

use crate::errors::{and_detail, detail};
use crate::json::{
    field, lemma_position, lemma_position_is, lookup, position, put, put_is_found, texts, Entries,
    JsonV,
};
use crate::json_parse::fits;
use crate::json_util::{
    before, canonical, comma, decimal, digit, digits, entries_text, escape, escaped, items_text,
    json_text, lemma_entries_text, lemma_items_text, lemma_json_text, lemma_sorted,
    lemma_sorted_entries, lemma_sorted_items, place, quoted, sorted, sorted_entries, sorted_items,
};

verus! {

broadcast use crate::json::group_json;

// ---- the order of names ----

proof fn lemma_before_irreflexive(a: Seq<char>)
    ensures
        !before(a, a),
    decreases a.len(),
{
    if a.len() > 0 {
        lemma_before_irreflexive(a.drop_first());
    }
}

proof fn lemma_before_transitive(a: Seq<char>, b: Seq<char>, c: Seq<char>)
    requires
        before(a, b),
        before(b, c),
    ensures
        before(a, c),
    decreases a.len(),
{
    if a.len() > 0 && b.len() > 0 && c.len() > 0 && a[0] == b[0] && b[0] == c[0] {
        lemma_before_transitive(a.drop_first(), b.drop_first(), c.drop_first());
    }
}

/// Characters with the same code are the same.
proof fn lemma_code(x: char, y: char)
    ensures
        (x as u32) == (y as u32) ==> x == y,
{
}

proof fn lemma_before_total(a: Seq<char>, b: Seq<char>)
    ensures
        a == b || before(a, b) || before(b, a),
    decreases a.len(),
{
    if a.len() > 0 && b.len() > 0 {
        if a[0] == b[0] {
            lemma_before_total(a.drop_first(), b.drop_first());
            if a.drop_first() == b.drop_first() {
                assert(a =~= seq![a[0]] + a.drop_first());
                assert(b =~= seq![b[0]] + b.drop_first());
            }
        } else {
            lemma_code(a[0], b[0]);
        }
    } else if a.len() == 0 && b.len() == 0 {
        assert(a =~= b);
    }
}

/// Whether the names of entries are strictly ascending.
pub open spec fn ascending(entries: Entries) -> bool {
    forall|i: int, j: int|
        0 <= i < j < entries.len() ==> before((#[trigger] entries[i]).0, (#[trigger] entries[j]).0)
}

/// The value of the last binding of `name`.
pub open spec fn last_binding(entries: Entries, name: Seq<char>) -> Option<JsonV>
    decreases entries.len(),
{
    if entries.len() == 0 {
        None
    } else if entries.last().0 == name {
        Some(entries.last().1)
    } else {
        last_binding(entries.drop_last(), name)
    }
}

/// In ascending entries a name is found where it stands.
proof fn lemma_found(entries: Entries, at: int)
    requires
        ascending(entries),
        0 <= at < entries.len(),
    ensures
        lookup(entries, entries[at].0) == Some(entries[at].1),
{
    let name = entries[at].0;
    assert forall|i: int| 0 <= i < at implies (#[trigger] entries[i]).0 != name by {
        assert(before(entries[i].0, entries[at].0));
        lemma_before_irreflexive(name);
    }
    lemma_position_is(entries, name, at);
}

proof fn lemma_place_ascending(entries: Entries, name: Seq<char>, value: JsonV)
    requires
        ascending(entries),
    ensures
        ascending(place(entries, name, value)),
        forall|i: int|
            0 <= i < place(entries, name, value).len() ==> (#[trigger] place(
                entries,
                name,
                value,
            )[i]).0 == name || exists|j: int|
                0 <= j < entries.len() && (#[trigger] entries[j]).0 == place(
                    entries,
                    name,
                    value,
                )[i].0,
    decreases entries.len(),
{
    let after = place(entries, name, value);
    if entries.len() == 0 || before(name, entries[0].0) {
        assert forall|i: int, j: int| 0 <= i < j < after.len() implies before(
            (#[trigger] after[i]).0,
            (#[trigger] after[j]).0,
        ) by {
            assert(after[j] == entries[j - 1]);
            if i == 0 {
                if j > 1 {
                    assert(before(entries[0].0, entries[j - 1].0));
                    lemma_before_transitive(name, entries[0].0, entries[j - 1].0);
                }
            } else {
                assert(after[i] == entries[i - 1]);
            }
        }
        assert forall|i: int| 0 <= i < after.len() implies (#[trigger] after[i]).0 == name || exists|
            j: int,
        |
            0 <= j < entries.len() && (#[trigger] entries[j]).0 == after[i].0 by {
            if i > 0 {
                assert(after[i] == entries[i - 1]);
            }
        }
    } else if entries[0].0 == name {
        assert forall|i: int, j: int| 0 <= i < j < after.len() implies before(
            (#[trigger] after[i]).0,
            (#[trigger] after[j]).0,
        ) by {
            assert(after[i].0 == entries[i].0 && after[j].0 == entries[j].0);
        }
        assert forall|i: int| 0 <= i < after.len() implies (#[trigger] after[i]).0 == name || exists|
            j: int,
        |
            0 <= j < entries.len() && (#[trigger] entries[j]).0 == after[i].0 by {
            assert(after[i].0 == entries[i].0);
        }
    } else {
        let rest = entries.drop_first();
        assert forall|i: int, j: int| 0 <= i < j < rest.len() implies before(
            (#[trigger] rest[i]).0,
            (#[trigger] rest[j]).0,
        ) by {
            assert(rest[i] == entries[i + 1] && rest[j] == entries[j + 1]);
        }
        lemma_place_ascending(rest, name, value);
        let placed = place(rest, name, value);
        assert(after =~= seq![entries[0]] + placed);
        lemma_before_total(entries[0].0, name);
        assert forall|j: int| 0 <= j < placed.len() implies before(
            entries[0].0,
            (#[trigger] placed[j]).0,
        ) by {
            if placed[j].0 != name {
                let k = choose|k: int| 0 <= k < rest.len() && (#[trigger] rest[k]).0 == placed[j].0;
                assert(rest[k] == entries[k + 1]);
            }
        }
        assert forall|i: int, j: int| 0 <= i < j < after.len() implies before(
            (#[trigger] after[i]).0,
            (#[trigger] after[j]).0,
        ) by {
            assert(after[j] == placed[j - 1]);
            if i > 0 {
                assert(after[i] == placed[i - 1]);
            }
        }
        assert forall|i: int| 0 <= i < after.len() implies (#[trigger] after[i]).0 == name || exists|
            j: int,
        |
            0 <= j < entries.len() && (#[trigger] entries[j]).0 == after[i].0 by {
            if i == 0 {
                assert(after[0] == entries[0]);
            } else {
                assert(after[i] == placed[i - 1]);
                if placed[i - 1].0 != name {
                    let k = choose|k: int|
                        0 <= k < rest.len() && (#[trigger] rest[k]).0 == placed[i - 1].0;
                    assert(rest[k] == entries[k + 1]);
                }
            }
        }
    }
}

proof fn lemma_place_found(entries: Entries, name: Seq<char>, value: JsonV, other: Seq<char>)
    requires
        ascending(entries),
    ensures
        lookup(place(entries, name, value), other) == (if other == name {
            Some(value)
        } else {
            lookup(entries, other)
        }),
    decreases entries.len(),
{
    let after = place(entries, name, value);
    if entries.len() == 0 || before(name, entries[0].0) {
        assert(after[0] == (name, value));
        if other != name {
            assert(after.drop_first() =~= entries);
        }
        if entries.len() == 0 {
            assert(after.drop_first() =~= Seq::empty());
        }
        lemma_skip_first(after, other);
    } else if entries[0].0 == name {
        assert(after[0] == (name, value));
        assert(after.drop_first() =~= entries.drop_first());
        lemma_skip_first(after, other);
        lemma_skip_first(entries, other);
    } else {
        let rest = entries.drop_first();
        assert forall|i: int, j: int| 0 <= i < j < rest.len() implies before(
            (#[trigger] rest[i]).0,
            (#[trigger] rest[j]).0,
        ) by {
            assert(rest[i] == entries[i + 1] && rest[j] == entries[j + 1]);
        }
        lemma_place_found(rest, name, value, other);
        assert(after[0] == entries[0]);
        assert(after.drop_first() =~= place(rest, name, value));
        lemma_skip_first(after, other);
        lemma_skip_first(entries, other);
    }
}

/// A name is found in the first entry or in the rest.
proof fn lemma_skip_first(entries: Entries, name: Seq<char>)
    ensures
        entries.len() > 0 ==> lookup(entries, name) == (if entries[0].0 == name {
            Some(entries[0].1)
        } else {
            lookup(entries.drop_first(), name)
        }),
{
    if entries.len() > 0 && entries[0].0 != name {
        lemma_position(entries.drop_first(), name);
    }
}

/// Sorting puts the names of an object into strictly ascending order.
pub proof fn sorted_names_ascend(entries: Entries)
    ensures
        ascending(sorted_entries(entries)),
    decreases entries.len(),
{
    lemma_sorted_entries(entries);
    if entries.len() > 0 {
        sorted_names_ascend(entries.drop_last());
        lemma_place_ascending(
            sorted_entries(entries.drop_last()),
            entries.last().0,
            sorted(entries.last().1),
        );
    }
}

/// Sorting keeps what each name is bound to; of two bindings the later counts.
pub proof fn sorting_keeps_the_bindings(entries: Entries, name: Seq<char>)
    ensures
        lookup(sorted_entries(entries), name) == (match last_binding(entries, name) {
            Some(v) => Some(sorted(v)),
            None => None,
        }),
    decreases entries.len(),
{
    lemma_sorted_entries(entries);
    if entries.len() > 0 {
        sorting_keeps_the_bindings(entries.drop_last(), name);
        sorted_names_ascend(entries.drop_last());
        lemma_place_found(
            sorted_entries(entries.drop_last()),
            entries.last().0,
            sorted(entries.last().1),
            name,
        );
    }
}

/// Ascending entries are determined by their bindings.
proof fn lemma_same_entries(a: Entries, b: Entries)
    requires
        ascending(a),
        ascending(b),
        forall|name: Seq<char>| #[trigger] lookup(a, name) == lookup(b, name),
    ensures
        a == b,
    decreases a.len(),
{
    if a.len() == 0 {
        if b.len() > 0 {
            lemma_found(b, 0);
            assert(lookup(a, b[0].0) == lookup(b, b[0].0));
        }
        assert(a =~= b);
    } else {
        lemma_found(a, 0);
        assert(lookup(a, a[0].0) == lookup(b, a[0].0));
        lemma_position(b, a[0].0);
        let p = position(b, a[0].0);
        assert(b.len() > 0);
        lemma_found(b, 0);
        assert(lookup(a, b[0].0) == lookup(b, b[0].0));
        lemma_position(a, b[0].0);
        let q = position(a, b[0].0);
        if p > 0 {
            assert(before(b[0].0, b[p].0));
            if q > 0 {
                assert(before(a[0].0, a[q].0));
                lemma_before_transitive(a[0].0, b[0].0, a[0].0);
                lemma_before_irreflexive(a[0].0);
            } else {
                lemma_before_irreflexive(a[0].0);
            }
        }
        assert(a[0] == b[0]);
        let x = a.drop_first();
        let y = b.drop_first();
        assert forall|i: int, j: int| 0 <= i < j < x.len() implies before(
            (#[trigger] x[i]).0,
            (#[trigger] x[j]).0,
        ) by {
            assert(x[i] == a[i + 1] && x[j] == a[j + 1]);
        }
        assert forall|i: int, j: int| 0 <= i < j < y.len() implies before(
            (#[trigger] y[i]).0,
            (#[trigger] y[j]).0,
        ) by {
            assert(y[i] == b[i + 1] && y[j] == b[j + 1]);
        }
        assert forall|name: Seq<char>| #[trigger] lookup(x, name) == lookup(y, name) by {
            lemma_skip_first(a, name);
            lemma_skip_first(b, name);
            assert(lookup(a, name) == lookup(b, name));
            if name == a[0].0 {
                lemma_absent(a);
                lemma_absent(b);
            }
        }
        lemma_same_entries(x, y);
        assert(a =~= seq![a[0]] + x);
        assert(b =~= seq![b[0]] + y);
    }
}

/// In ascending entries the first name does not come again.
proof fn lemma_absent(entries: Entries)
    requires
        ascending(entries),
        entries.len() > 0,
    ensures
        lookup(entries.drop_first(), entries[0].0) is None,
{
    let rest = entries.drop_first();
    let name = entries[0].0;
    lemma_position(rest, name);
    let p = position(rest, name);
    if p < rest.len() {
        assert(rest[p] == entries[p + 1]);
        assert(before(entries[0].0, entries[p + 1].0));
        lemma_before_irreflexive(name);
    }
}

/// The order in which the entries of an object stand does not matter to its canonical text.
pub proof fn the_order_of_names_does_not_matter(a: Entries, b: Entries)
    requires
        forall|name: Seq<char>| #[trigger] last_binding(a, name) == last_binding(b, name),
    ensures
        canonical(JsonV::Object(a)) == canonical(JsonV::Object(b)),
{
    sorted_names_ascend(a);
    sorted_names_ascend(b);
    assert forall|name: Seq<char>| #[trigger] lookup(sorted_entries(a), name) == lookup(
        sorted_entries(b),
        name,
    ) by {
        sorting_keeps_the_bindings(a, name);
        sorting_keeps_the_bindings(b, name);
        assert(last_binding(a, name) == last_binding(b, name));
    }
    lemma_same_entries(sorted_entries(a), sorted_entries(b));
    lemma_sorted(JsonV::Object(a));
    lemma_sorted(JsonV::Object(b));
}

// ---- one value for each text ----

proof fn lemma_digit(m: int, n: int)
    requires
        0 <= m < 16,
        0 <= n < 16,
    ensures
        digit(m) == digit(n) ==> m == n,
        digit(m) != '-' && digit(m) != '"' && digit(m) != '[' && digit(m) != '{',
        digit(m) != ',' && digit(m) != ']' && digit(m) != '}',
        m < 10 ==> digit(m) != 'n' && digit(m) != 't' && digit(m) != 'f',
{
}

/// An escaped character is read in one way only.
proof fn lemma_escape(c: char, d: char, s: Seq<char>, t: Seq<char>)
    requires
        escape(c) + s == escape(d) + t,
    ensures
        c == d,
        s == t,
{
    let x = escape(c) + s;
    let y = escape(d) + t;
    assert(x[0] == escape(c)[0] && y[0] == escape(d)[0]);
    if escape(c).len() > 1 {
        assert(x[1] == escape(c)[1]);
    }
    if escape(d).len() > 1 {
        assert(y[1] == escape(d)[1]);
    }
    if escape(c).len() == 6 && escape(d).len() == 6 {
        assert(x[4] == escape(c)[4] && x[5] == escape(c)[5]);
        assert(y[4] == escape(d)[4] && y[5] == escape(d)[5]);
        lemma_digit((c as u32) as int / 16, (d as u32) as int / 16);
        lemma_digit((c as u32) as int % 16, (d as u32) as int % 16);
        lemma_code(c, d);
    }
    assert(c == d);
    assert(s =~= x.skip(escape(c).len() as int));
    assert(t =~= y.skip(escape(d).len() as int));
}

proof fn lemma_escaped(a: Seq<char>, b: Seq<char>, s: Seq<char>, t: Seq<char>)
    requires
        escaped(a) + seq!['"'] + s == escaped(b) + seq!['"'] + t,
    ensures
        a == b,
        s == t,
    decreases a.len(),
{
    let x = escaped(a) + seq!['"'] + s;
    let y = escaped(b) + seq!['"'] + t;
    if a.len() == 0 {
        assert(x[0] == '"');
        if b.len() > 0 {
            assert(y[0] == escape(b[0])[0]);
        } else {
            assert(s =~= x.skip(1) && t =~= y.skip(1));
            assert(a =~= b);
        }
    } else if b.len() == 0 {
        assert(y[0] == '"');
        assert(x[0] == escape(a[0])[0]);
    } else {
        let p = escaped(a.drop_first()) + seq!['"'] + s;
        let q = escaped(b.drop_first()) + seq!['"'] + t;
        assert(x =~= escape(a[0]) + p);
        assert(y =~= escape(b[0]) + q);
        lemma_escape(a[0], b[0], p, q);
        lemma_escaped(a.drop_first(), b.drop_first(), s, t);
        assert(a =~= seq![a[0]] + a.drop_first());
        assert(b =~= seq![b[0]] + b.drop_first());
    }
}

/// A string is read in one way only.
proof fn lemma_quoted(a: Seq<char>, b: Seq<char>, s: Seq<char>, t: Seq<char>)
    requires
        quoted(a) + s == quoted(b) + t,
    ensures
        a == b,
        s == t,
{
    let x = quoted(a) + s;
    let y = quoted(b) + t;
    assert(x.skip(1) =~= escaped(a) + seq!['"'] + s);
    assert(y.skip(1) =~= escaped(b) + seq!['"'] + t);
    lemma_escaped(a, b, s, t);
}

/// What may follow a value inside another: the end, or the next separator.
pub open spec fn ends(s: Seq<char>) -> bool {
    s.len() == 0 || s[0] == ',' || s[0] == ']' || s[0] == '}'
}

/// Whether a character is a decimal digit.
spec fn is_digit(c: char) -> bool {
    exists|n: int| 0 <= n < 10 && c == #[trigger] digit(n)
}

proof fn lemma_digits(n: nat)
    ensures
        digits(n).len() > 0,
        forall|i: int| 0 <= i < digits(n).len() ==> is_digit(#[trigger] digits(n)[i]),
    decreases n,
{
    if n < 10 {
        assert(is_digit(digit(n as int)));
    } else {
        lemma_digits(n / 10);
        assert(is_digit(digit((n % 10) as int)));
        assert forall|i: int| 0 <= i < digits(n).len() implies is_digit(
            #[trigger] digits(n)[i],
        ) by {
            if i < digits(n / 10).len() {
                assert(digits(n)[i] == digits(n / 10)[i]);
            }
        }
    }
}

proof fn lemma_digits_injective(m: nat, n: nat)
    requires
        digits(m) == digits(n),
    ensures
        m == n,
    decreases m,
{
    if m < 10 && n < 10 {
        assert(digits(m)[0] == digit(m as int));
        assert(digits(n)[0] == digit(n as int));
        lemma_digit(m as int, n as int);
    } else if m < 10 {
        lemma_digits(n / 10);
        assert(digits(m).len() == 1);
        assert(digits(n).len() == digits(n / 10).len() + 1);
    } else if n < 10 {
        lemma_digits(m / 10);
        assert(digits(n).len() == 1);
        assert(digits(m).len() == digits(m / 10).len() + 1);
    } else {
        assert(digits(m) == digits(m / 10).push(digit((m % 10) as int)));
        assert(digits(n) == digits(n / 10).push(digit((n % 10) as int)));
        assert(digits(m).last() == digit((m % 10) as int));
        assert(digits(n).last() == digit((n % 10) as int));
        lemma_digit((m % 10) as int, (n % 10) as int);
        assert(digits(m).drop_last() =~= digits(m / 10));
        assert(digits(n).drop_last() =~= digits(n / 10));
        lemma_digits_injective(m / 10, n / 10);
    }
}

/// Digits end where the text that follows them begins.
proof fn lemma_digits_end(m: nat, n: nat, s: Seq<char>, t: Seq<char>)
    requires
        digits(m) + s == digits(n) + t,
        ends(s),
        ends(t),
    ensures
        m == n,
        s == t,
{
    let x = digits(m) + s;
    let y = digits(n) + t;
    lemma_digits(m);
    lemma_digits(n);
    let p = digits(m).len() as int;
    let q = digits(n).len() as int;
    if p < q {
        assert(y[p] == digits(n)[p]);
        assert(x[p] == s[0]);
        let k = choose|k: int| 0 <= k < 10 && s[0] == #[trigger] digit(k);
        lemma_digit(k, k);
    } else if q < p {
        assert(x[q] == digits(m)[q]);
        assert(y[q] == t[0]);
        let k = choose|k: int| 0 <= k < 10 && t[0] == #[trigger] digit(k);
        lemma_digit(k, k);
    }
    assert(digits(m) =~= x.take(p));
    assert(digits(n) =~= y.take(q));
    assert(s =~= x.skip(p));
    assert(t =~= y.skip(q));
    lemma_digits_injective(m, n);
}

proof fn lemma_decimal_end(m: int, n: int, s: Seq<char>, t: Seq<char>)
    requires
        decimal(m) + s == decimal(n) + t,
        ends(s),
        ends(t),
    ensures
        m == n,
        s == t,
{
    let x = decimal(m) + s;
    let y = decimal(n) + t;
    lemma_decimal_start(m);
    lemma_decimal_start(n);
    assert(x[0] == decimal(m)[0] && y[0] == decimal(n)[0]);
    if m < 0 && n < 0 {
        assert(x.skip(1) =~= digits((-m) as nat) + s);
        assert(y.skip(1) =~= digits((-n) as nat) + t);
        lemma_digits_end((-m) as nat, (-n) as nat, s, t);
    } else if m >= 0 && n >= 0 {
        lemma_digits_end(m as nat, n as nat, s, t);
    }
}

proof fn lemma_decimal_start(n: int)
    ensures
        decimal(n).len() > 0,
        n < 0 <==> decimal(n)[0] == '-',
        n >= 0 ==> is_digit(decimal(n)[0]),
{
    if n >= 0 {
        lemma_digits(n as nat);
        let c = digits(n as nat)[0];
        let k = choose|k: int| 0 <= k < 10 && c == #[trigger] digit(k);
        assert(is_digit(c));
        lemma_digit(k, k);
    }
}

/// Whether every number in a value is an integer.
pub open spec fn whole(v: JsonV) -> bool
    decreases v,
{
    match v {
        JsonV::Real(_) => false,
        JsonV::Array(items) => forall|i: int| 0 <= i < items.len() ==> whole(#[trigger] items[i]),
        JsonV::Object(entries) => forall|i: int|
            0 <= i < entries.len() ==> whole((#[trigger] entries[i]).1),
        _ => true,
    }
}

/// The kind of a value by the first character of its text.
spec fn starts_as(v: JsonV, c: char) -> bool {
    match v {
        JsonV::Null => c == 'n',
        JsonV::Bool(b) => if b {
            c == 't'
        } else {
            c == 'f'
        },
        JsonV::Int(n) => c == '-' || is_digit(c),
        JsonV::Real(_) => true,
        JsonV::Text(_) => c == '"',
        JsonV::Array(_) => c == '[',
        JsonV::Object(_) => c == '{',
    }
}

proof fn lemma_start(v: JsonV)
    requires
        whole(v),
    ensures
        json_text(v).len() > 0,
        starts_as(v, json_text(v)[0]),
        json_text(v)[0] != ']' && json_text(v)[0] != '}' && json_text(v)[0] != ',',
{
    reveal_strlit("null");
    reveal_strlit("true");
    reveal_strlit("false");
    reveal_strlit("[");
    reveal_strlit("{");
    lemma_json_text(v);
    if let JsonV::Int(n) = v {
        lemma_decimal_start(n);
        if n >= 0 {
            let k = choose|k: int| 0 <= k < 10 && decimal(n)[0] == #[trigger] digit(k);
            lemma_digit(k, k);
        }
    }
}

/// A character starts the texts of one kind of value only.
proof fn lemma_kinds(a: JsonV, b: JsonV, c: char)
    requires
        whole(a),
        whole(b),
        starts_as(a, c),
        starts_as(b, c),
    ensures
        (a is Null) == (b is Null),
        (a is Bool) == (b is Bool),
        a is Bool ==> a == b,
        (a is Int) == (b is Int),
        (a is Text) == (b is Text),
        (a is Array) == (b is Array),
        (a is Object) == (b is Object),
{
    if is_digit(c) {
        let k = choose|k: int| 0 <= k < 10 && c == #[trigger] digit(k);
        lemma_digit(k, k);
    }
}

/// A value inside a text is read in one way only, and so is what follows it.
pub proof fn a_text_has_one_reading(a: JsonV, b: JsonV, s: Seq<char>, t: Seq<char>)
    requires
        whole(a),
        whole(b),
        ends(s),
        ends(t),
        json_text(a) + s == json_text(b) + t,
    ensures
        a == b,
        s == t,
    decreases a,
{
    let x = json_text(a) + s;
    let y = json_text(b) + t;
    lemma_start(a);
    lemma_start(b);
    assert(x[0] == json_text(a)[0] && y[0] == json_text(b)[0]);
    lemma_kinds(a, b, x[0]);
    lemma_json_text(a);
    lemma_json_text(b);
    match (a, b) {
        (JsonV::Int(m), JsonV::Int(n)) => {
            lemma_decimal_end(m, n, s, t);
        },
        (JsonV::Text(m), JsonV::Text(n)) => {
            lemma_quoted(m, n, s, t);
        },
        (JsonV::Array(m), JsonV::Array(n)) => {
            reveal_strlit("[");
            reveal_strlit("]");
            let p = items_text(m, true) + seq![']'] + s;
            let q = items_text(n, true) + seq![']'] + t;
            assert(x.skip(1) =~= p);
            assert(y.skip(1) =~= q);
            lemma_items(m, n, true, s, t);
        },
        (JsonV::Object(m), JsonV::Object(n)) => {
            reveal_strlit("{");
            reveal_strlit("}");
            let p = entries_text(m, true) + seq!['}'] + s;
            let q = entries_text(n, true) + seq!['}'] + t;
            assert(x.skip(1) =~= p);
            assert(y.skip(1) =~= q);
            lemma_entries(m, n, true, s, t);
        },
        _ => {
            let p = json_text(a).len() as int;
            assert(json_text(a) == json_text(b));
            assert(s =~= x.skip(p));
            assert(t =~= y.skip(p));
        },
    }
}

proof fn lemma_items(a: Seq<JsonV>, b: Seq<JsonV>, first: bool, s: Seq<char>, t: Seq<char>)
    requires
        forall|i: int| 0 <= i < a.len() ==> whole(#[trigger] a[i]),
        forall|i: int| 0 <= i < b.len() ==> whole(#[trigger] b[i]),
        items_text(a, first) + seq![']'] + s == items_text(b, first) + seq![']'] + t,
    ensures
        a == b,
        s == t,
    decreases a,
{
    reveal_strlit(",");
    let x = items_text(a, first) + seq![']'] + s;
    let y = items_text(b, first) + seq![']'] + t;
    lemma_items_text(a, first);
    lemma_items_text(b, first);
    if a.len() > 0 {
        lemma_start(a[0]);
        assert(x[0] == (if first {
            json_text(a[0])[0]
        } else {
            ','
        }));
    } else {
        assert(x[0] == ']');
    }
    if b.len() > 0 {
        lemma_start(b[0]);
        assert(y[0] == (if first {
            json_text(b[0])[0]
        } else {
            ','
        }));
    } else {
        assert(y[0] == ']');
    }
    if a.len() == 0 {
        assert(a =~= b);
        assert(s =~= x.skip(1));
        assert(t =~= y.skip(1));
    } else {
        let p = items_text(a.drop_first(), false) + seq![']'] + s;
        let q = items_text(b.drop_first(), false) + seq![']'] + t;
        lemma_items_text(a.drop_first(), false);
        lemma_items_text(b.drop_first(), false);
        assert(p[0] == ',' || p[0] == ']');
        assert(q[0] == ',' || q[0] == ']');
        let k: int = if first {
            0
        } else {
            1
        };
        assert(x.skip(k) =~= json_text(a[0]) + p);
        assert(y.skip(k) =~= json_text(b[0]) + q);
        assert(decreases_to!(a => a[0]));
        a_text_has_one_reading(a[0], b[0], p, q);
        assert forall|i: int| 0 <= i < a.drop_first().len() implies whole(
            #[trigger] a.drop_first()[i],
        ) by {
            assert(a.drop_first()[i] == a[i + 1]);
        }
        assert forall|i: int| 0 <= i < b.drop_first().len() implies whole(
            #[trigger] b.drop_first()[i],
        ) by {
            assert(b.drop_first()[i] == b[i + 1]);
        }
        lemma_items(a.drop_first(), b.drop_first(), false, s, t);
        assert(a =~= seq![a[0]] + a.drop_first());
        assert(b =~= seq![b[0]] + b.drop_first());
    }
}

/// What follows the first entry of an object.
spec fn after_entry(a: Entries, s: Seq<char>) -> Seq<char> {
    entries_text(a.drop_first(), false) + seq!['}'] + s
}

/// The parts of the text of entries: a comma, a name, a colon, a value, the rest.
proof fn lemma_entry(a: Entries, first: bool, s: Seq<char>)
    requires
        a.len() > 0,
    ensures
        entries_text(a, first) + seq!['}'] + s == comma(first) + (quoted(a[0].0) + (seq![':'] + (
        json_text(a[0].1) + after_entry(a, s)))),
        ends(after_entry(a, s)),
{
    reveal_strlit(",");
    reveal_strlit(":");
    lemma_entries_text(a, first);
    lemma_entries_text(a.drop_first(), false);
    assert(":"@ =~= seq![':']);
    assert(entries_text(a, first) + seq!['}'] + s =~= comma(first) + (quoted(a[0].0) + (seq![':']
        + (json_text(a[0].1) + after_entry(a, s)))));
}

proof fn lemma_entries(a: Entries, b: Entries, first: bool, s: Seq<char>, t: Seq<char>)
    requires
        forall|i: int| 0 <= i < a.len() ==> whole((#[trigger] a[i]).1),
        forall|i: int| 0 <= i < b.len() ==> whole((#[trigger] b[i]).1),
        entries_text(a, first) + seq!['}'] + s == entries_text(b, first) + seq!['}'] + t,
    ensures
        a == b,
        s == t,
    decreases a,
{
    reveal_strlit(",");
    let x = entries_text(a, first) + seq!['}'] + s;
    let y = entries_text(b, first) + seq!['}'] + t;
    let k: int = if first {
        0
    } else {
        1
    };
    if a.len() == 0 {
        lemma_entries_text(a, first);
        assert(x[0] == '}');
    } else {
        lemma_entry(a, first, s);
        assert(x[0] != '}');
    }
    if b.len() == 0 {
        lemma_entries_text(b, first);
        assert(y[0] == '}');
    } else {
        lemma_entry(b, first, t);
        assert(y[0] != '}');
    }
    if a.len() == 0 {
        assert(a =~= b);
        assert(s =~= x.skip(1));
        assert(t =~= y.skip(1));
    } else {
        let value_a = json_text(a[0].1) + after_entry(a, s);
        let value_b = json_text(b[0].1) + after_entry(b, t);
        assert(x.skip(k) =~= quoted(a[0].0) + (seq![':'] + value_a));
        assert(y.skip(k) =~= quoted(b[0].0) + (seq![':'] + value_b));
        lemma_quoted(a[0].0, b[0].0, seq![':'] + value_a, seq![':'] + value_b);
        assert((seq![':'] + value_a).skip(1) =~= value_a);
        assert((seq![':'] + value_b).skip(1) =~= value_b);
        let pair = a[0];
        assert(decreases_to!(a => a[0]));
        assert(decreases_to!(pair => pair.1));
        assert(decreases_to!(a => pair.1));
        a_text_has_one_reading(a[0].1, b[0].1, after_entry(a, s), after_entry(b, t));
        assert forall|i: int| 0 <= i < a.drop_first().len() implies whole(
            (#[trigger] a.drop_first()[i]).1,
        ) by {
            assert(a.drop_first()[i] == a[i + 1]);
        }
        assert forall|i: int| 0 <= i < b.drop_first().len() implies whole(
            (#[trigger] b.drop_first()[i]).1,
        ) by {
            assert(b.drop_first()[i] == b[i + 1]);
        }
        lemma_entries(a.drop_first(), b.drop_first(), false, s, t);
        assert(a =~= seq![a[0]] + a.drop_first());
        assert(b =~= seq![b[0]] + b.drop_first());
    }
}

/// Where `place` puts things: the new entry, or one of the old ones.
proof fn lemma_place_values(entries: Entries, name: Seq<char>, value: JsonV, i: int)
    requires
        0 <= i < place(entries, name, value).len(),
    ensures
        place(entries, name, value)[i] == (name, value) || exists|j: int|
            0 <= j < entries.len() && place(entries, name, value)[i] == #[trigger] entries[j],
    decreases entries.len(),
{
    let after = place(entries, name, value);
    if entries.len() == 0 || before(name, entries[0].0) {
        if i > 0 {
            assert(after[i] == entries[i - 1]);
        }
    } else if entries[0].0 == name {
        if i > 0 {
            assert(after[i] == entries[i]);
        }
    } else {
        let rest = entries.drop_first();
        if i == 0 {
            assert(after[0] == entries[0]);
        } else {
            assert(after[i] == place(rest, name, value)[i - 1]);
            lemma_place_values(rest, name, value, i - 1);
            if after[i] != (name, value) {
                let j = choose|j: int| 0 <= j < rest.len() && after[i] == #[trigger] rest[j];
                assert(rest[j] == entries[j + 1]);
            }
        }
    }
}

proof fn lemma_sorted_whole(v: JsonV)
    requires
        whole(v),
    ensures
        whole(sorted(v)),
    decreases v,
{
    lemma_sorted(v);
    match v {
        JsonV::Array(items) => {
            lemma_sorted_items(items);
            assert forall|i: int| 0 <= i < items.len() implies whole(
                #[trigger] sorted_items(items)[i],
            ) by {
                assert(whole(items[i]));
                lemma_sorted_whole(items[i]);
            }
        },
        JsonV::Object(entries) => {
            lemma_sorted_entries_whole(entries);
        },
        _ => {},
    }
}

proof fn lemma_sorted_entries_whole(entries: Entries)
    requires
        forall|i: int| 0 <= i < entries.len() ==> whole((#[trigger] entries[i]).1),
    ensures
        forall|i: int|
            0 <= i < sorted_entries(entries).len() ==> whole((#[trigger] sorted_entries(entries)[i]).1),
    decreases entries,
{
    lemma_sorted_entries(entries);
    if entries.len() > 0 {
        let head = entries.drop_last();
        assert forall|i: int| 0 <= i < head.len() implies whole((#[trigger] head[i]).1) by {
            assert(head[i] == entries[i]);
        }
        lemma_sorted_entries_whole(head);
        let pair = entries[entries.len() - 1];
        assert(decreases_to!(entries => pair));
        assert(decreases_to!(pair => pair.1));
        assert(decreases_to!(entries => pair.1));
        lemma_sorted_whole(pair.1);
        let old = sorted_entries(head);
        let value = sorted(pair.1);
        assert forall|i: int| 0 <= i < place(old, pair.0, value).len() implies whole(
            (#[trigger] place(old, pair.0, value)[i]).1,
        ) by {
            lemma_place_values(old, pair.0, value, i);
        }
    }
}

/// Equal canonical texts are those of the same value, up to the order of names.
pub proof fn equal_texts_mean_equal_values(a: JsonV, b: JsonV)
    requires
        whole(a),
        whole(b),
        canonical(a) == canonical(b),
    ensures
        sorted(a) == sorted(b),
{
    lemma_sorted_whole(a);
    lemma_sorted_whole(b);
    let nothing = Seq::<char>::empty();
    assert(json_text(sorted(a)) + nothing =~= json_text(sorted(b)) + nothing);
    a_text_has_one_reading(sorted(a), sorted(b), nothing, nothing);
}

/// A list of texts is its own sorted form.
pub proof fn lemma_texts_sorted(list: Seq<Seq<char>>)
    ensures
        sorted(texts(list)) == texts(list),
        whole(texts(list)),
{
    let items = list.map_values(|t: Seq<char>| JsonV::Text(t));
    lemma_sorted(texts(list));
    lemma_sorted_items(items);
    assert forall|i: int| 0 <= i < items.len() implies sorted_items(items)[i] == #[trigger] items[i]
        && whole(items[i]) by {
        lemma_sorted(items[i]);
    }
    assert(sorted_items(items) =~= items);
}

// ---- objects without repeated names ----

/// Whether no name occurs twice.
pub open spec fn distinct(entries: Entries) -> bool {
    forall|i: int, j: int|
        0 <= i < j < entries.len() ==> (#[trigger] entries[i]).0 != (#[trigger] entries[j]).0
}

proof fn lemma_one_binding(entries: Entries, name: Seq<char>)
    requires
        distinct(entries),
    ensures
        last_binding(entries, name) == lookup(entries, name),
    decreases entries.len(),
{
    lemma_position(entries, name);
    let p = position(entries, name);
    if entries.len() > 0 {
        let head = entries.drop_last();
        let last = entries.len() - 1;
        lemma_one_binding(head, name);
        lemma_position(head, name);
        if entries.last().0 == name {
            if p < last {
                assert(entries[p].0 != entries[last].0);
            }
        } else if p < entries.len() {
            assert(head[p] == entries[p]);
            assert forall|i: int| 0 <= i < p implies (#[trigger] head[i]).0 != name by {
                assert(head[i] == entries[i]);
            }
            lemma_position_is(head, name, p);
        } else {
            assert forall|i: int| 0 <= i < head.len() implies (#[trigger] head[i]).0 != name by {
                assert(head[i] == entries[i]);
            }
            lemma_position_is(head, name, head.len() as int);
        }
    }
}

/// An object without repeated names.
pub open spec fn tidy(v: JsonV) -> bool {
    v matches JsonV::Object(entries) && distinct(entries)
}

/// Sorting a tidy object sorts what its names are bound to.
pub proof fn lemma_sorted_field(v: JsonV, name: Seq<char>)
    requires
        tidy(v),
    ensures
        field(sorted(v), name) == (match field(v, name) {
            Some(x) => Some(sorted(x)),
            None => None,
        }),
{
    lemma_sorted(v);
    let entries = v->Object_0;
    lemma_one_binding(entries, name);
    sorting_keeps_the_bindings(entries, name);
}

pub proof fn lemma_detail(name: Seq<char>, value: JsonV)
    ensures
        tidy(detail(name, value)),
        whole(value) ==> whole(detail(name, value)),
        forall|other: Seq<char>| #[trigger] field(detail(name, value), other) == (if other == name {
            Some(value)
        } else {
            None
        }),
{
    let nothing: Entries = Seq::empty();
    assert(put(nothing, name, value) =~= seq![(name, value)]);
    assert forall|other: Seq<char>| #[trigger] field(detail(name, value), other) == (if other == name {
        Some(value)
    } else {
        None
    }) by {
        put_is_found(nothing, name, value, other);
    }
}

pub proof fn lemma_and_detail(v: JsonV, name: Seq<char>, value: JsonV)
    requires
        tidy(v),
    ensures
        tidy(and_detail(v, name, value)),
        whole(v) && whole(value) ==> whole(and_detail(v, name, value)),
        forall|other: Seq<char>| #[trigger]
            field(and_detail(v, name, value), other) == (if other == name {
                Some(value)
            } else {
                field(v, other)
            }),
{
    let entries = v->Object_0;
    let after = put(entries, name, value);
    let at = position(entries, name);
    lemma_position(entries, name);
    assert forall|i: int, j: int| 0 <= i < j < after.len() implies (#[trigger] after[i]).0 != (
    #[trigger] after[j]).0 by {
        if j < entries.len() {
            assert(after[i].0 == entries[i].0 && after[j].0 == entries[j].0);
        } else {
            assert(after[i] == entries[i]);
        }
    }
    if whole(v) && whole(value) {
        assert forall|i: int| 0 <= i < after.len() implies whole((#[trigger] after[i]).1) by {
            if i < entries.len() && i != at {
                assert(after[i] == entries[i]);
            }
        }
    }
    assert forall|other: Seq<char>| #[trigger] field(and_detail(v, name, value), other) == (if other
        == name {
        Some(value)
    } else {
        field(v, other)
    }) by {
        put_is_found(entries, name, value, other);
    }
}

// ---- one line ----

/// Whether no number in a value holds a line break. The text of a number never does.
pub open spec fn unbroken(v: JsonV) -> bool
    decreases v,
{
    match v {
        JsonV::Real(t) => !t.contains('\n'),
        JsonV::Array(items) => forall|i: int| 0 <= i < items.len() ==> unbroken(#[trigger] items[i]),
        JsonV::Object(entries) => forall|i: int|
            0 <= i < entries.len() ==> unbroken((#[trigger] entries[i]).1),
        _ => true,
    }
}

/// No line break in a text.
spec fn level(s: Seq<char>) -> bool {
    forall|i: int| 0 <= i < s.len() ==> #[trigger] s[i] != '\n'
}

proof fn lemma_level(a: Seq<char>, b: Seq<char>)
    requires
        level(a),
        level(b),
    ensures
        level(a + b),
{
}

proof fn lemma_escaped_level(s: Seq<char>)
    ensures
        level(escaped(s)),
    decreases s.len(),
{
    if s.len() > 0 {
        lemma_escaped_level(s.drop_first());
        let c = s[0];
        let n = (c as u32) as int;
        assert(level(escape(c))) by {
            if escape(c).len() == 6 {
                lemma_not_newline(n / 16);
                lemma_not_newline(n % 16);
            }
        }
        lemma_level(escape(c), escaped(s.drop_first()));
    }
}

proof fn lemma_not_newline(n: int)
    requires
        0 <= n < 16,
    ensures
        digit(n) != '\n',
{
}

proof fn lemma_digits_level(n: nat)
    ensures
        level(digits(n)),
    decreases n,
{
    if n < 10 {
        lemma_not_newline(n as int);
    } else {
        lemma_digits_level(n / 10);
        lemma_not_newline((n % 10) as int);
    }
}

proof fn lemma_quoted_level(s: Seq<char>)
    ensures
        level(quoted(s)),
{
    lemma_escaped_level(s);
}

proof fn lemma_text_level(v: JsonV)
    requires
        unbroken(v),
    ensures
        level(json_text(v)),
    decreases v,
{
    reveal_strlit("null");
    reveal_strlit("true");
    reveal_strlit("false");
    reveal_strlit("[");
    reveal_strlit("]");
    reveal_strlit("{");
    reveal_strlit("}");
    lemma_json_text(v);
    match v {
        JsonV::Int(n) => {
            lemma_digits_level(
                if n < 0 {
                    (-n) as nat
                } else {
                    n as nat
                },
            );
        },
        JsonV::Real(t) => {
            assert forall|i: int| 0 <= i < t.len() implies #[trigger] t[i] != '\n' by {
                if t[i] == '\n' {
                    assert(t.contains('\n'));
                }
            }
        },
        JsonV::Text(t) => {
            lemma_quoted_level(t);
        },
        JsonV::Array(items) => {
            lemma_items_level(items, true);
            lemma_level("["@, items_text(items, true));
            lemma_level("["@ + items_text(items, true), "]"@);
        },
        JsonV::Object(entries) => {
            lemma_entries_level(entries, true);
            lemma_level("{"@, entries_text(entries, true));
            lemma_level("{"@ + entries_text(entries, true), "}"@);
        },
        _ => {},
    }
}

proof fn lemma_items_level(items: Seq<JsonV>, first: bool)
    requires
        forall|i: int| 0 <= i < items.len() ==> unbroken(#[trigger] items[i]),
    ensures
        level(items_text(items, first)),
    decreases items,
{
    reveal_strlit(",");
    lemma_items_text(items, first);
    if items.len() > 0 {
        assert(decreases_to!(items => items[0]));
        lemma_text_level(items[0]);
        let rest = items.drop_first();
        assert forall|i: int| 0 <= i < rest.len() implies unbroken(#[trigger] rest[i]) by {
            assert(rest[i] == items[i + 1]);
        }
        lemma_items_level(rest, false);
        lemma_level(comma(first), json_text(items[0]));
        lemma_level(comma(first) + json_text(items[0]), items_text(rest, false));
    }
}

proof fn lemma_entries_level(entries: Entries, first: bool)
    requires
        forall|i: int| 0 <= i < entries.len() ==> unbroken((#[trigger] entries[i]).1),
    ensures
        level(entries_text(entries, first)),
    decreases entries,
{
    reveal_strlit(",");
    reveal_strlit(":");
    lemma_entries_text(entries, first);
    if entries.len() > 0 {
        let pair = entries[0];
        assert(decreases_to!(entries => entries[0]));
        assert(decreases_to!(pair => pair.1));
        assert(decreases_to!(entries => pair.1));
        lemma_text_level(entries[0].1);
        lemma_quoted_level(entries[0].0);
        let rest = entries.drop_first();
        assert forall|i: int| 0 <= i < rest.len() implies unbroken((#[trigger] rest[i]).1) by {
            assert(rest[i] == entries[i + 1]);
        }
        lemma_entries_level(rest, false);
        let a = comma(first) + quoted(entries[0].0);
        lemma_level(comma(first), quoted(entries[0].0));
        lemma_level(a, ":"@);
        lemma_level(a + ":"@, json_text(entries[0].1));
        lemma_level(a + ":"@ + json_text(entries[0].1), entries_text(rest, false));
    }
}

proof fn lemma_sorted_unbroken(v: JsonV)
    requires
        unbroken(v),
    ensures
        unbroken(sorted(v)),
    decreases v,
{
    lemma_sorted(v);
    match v {
        JsonV::Array(items) => {
            lemma_sorted_items(items);
            assert forall|i: int| 0 <= i < items.len() implies unbroken(
                #[trigger] sorted_items(items)[i],
            ) by {
                assert(unbroken(items[i]));
                lemma_sorted_unbroken(items[i]);
            }
        },
        JsonV::Object(entries) => {
            lemma_sorted_entries_unbroken(entries);
        },
        _ => {},
    }
}

proof fn lemma_sorted_entries_unbroken(entries: Entries)
    requires
        forall|i: int| 0 <= i < entries.len() ==> unbroken((#[trigger] entries[i]).1),
    ensures
        forall|i: int|
            0 <= i < sorted_entries(entries).len() ==> unbroken(
                (#[trigger] sorted_entries(entries)[i]).1,
            ),
    decreases entries,
{
    lemma_sorted_entries(entries);
    if entries.len() > 0 {
        let head = entries.drop_last();
        assert forall|i: int| 0 <= i < head.len() implies unbroken((#[trigger] head[i]).1) by {
            assert(head[i] == entries[i]);
        }
        lemma_sorted_entries_unbroken(head);
        let pair = entries[entries.len() - 1];
        assert(decreases_to!(entries => pair));
        assert(decreases_to!(pair => pair.1));
        assert(decreases_to!(entries => pair.1));
        lemma_sorted_unbroken(pair.1);
        let old = sorted_entries(head);
        let value = sorted(pair.1);
        assert forall|i: int| 0 <= i < place(old, pair.0, value).len() implies unbroken(
            (#[trigger] place(old, pair.0, value)[i]).1,
        ) by {
            lemma_place_values(old, pair.0, value, i);
        }
    }
}

/// A canonical text is one line.
pub proof fn a_canonical_text_is_one_line(v: JsonV)
    requires
        unbroken(v),
    ensures
        !canonical(v).contains('\n'),
{
    lemma_sorted_unbroken(v);
    lemma_text_level(sorted(v));
    if canonical(v).contains('\n') {
        let i = canonical(v).index_of('\n');
        assert(canonical(v)[i] != '\n');
    }
}

// ---- what can be stored and read back ----

/// A value that can be stored: at most `levels` arrays and objects inside each other, every number
/// an integer of 64 bits.
pub open spec fn storable(v: JsonV, levels: nat) -> bool
    decreases v,
{
    match v {
        JsonV::Int(n) => -0x8000_0000_0000_0000 <= n <= 0xffff_ffff_ffff_ffff,
        JsonV::Real(_) => false,
        JsonV::Array(items) => levels > 0 && forall|i: int|
            0 <= i < items.len() ==> storable(#[trigger] items[i], (levels - 1) as nat),
        JsonV::Object(entries) => levels > 0 && forall|i: int|
            0 <= i < entries.len() ==> storable((#[trigger] entries[i]).1, (levels - 1) as nat),
        _ => true,
    }
}

/// A stored value is one that its canonical text brings back.
pub proof fn lemma_sorted_fits(v: JsonV, levels: nat)
    requires
        storable(v, levels),
    ensures
        fits(sorted(v), levels),
    decreases v,
{
    lemma_sorted(v);
    match v {
        JsonV::Array(items) => {
            lemma_sorted_items(items);
            let after = sorted_items(items);
            assert forall|i: int| 0 <= i < after.len() implies fits(
                #[trigger] after[i],
                (levels - 1) as nat,
            ) by {
                assert(storable(items[i], (levels - 1) as nat));
                lemma_sorted_fits(items[i], (levels - 1) as nat);
            }
        },
        JsonV::Object(entries) => {
            lemma_sorted_entries_fit(entries, (levels - 1) as nat);
            sorted_names_ascend(entries);
            let after = sorted_entries(entries);
            assert forall|i: int, j: int| 0 <= i < j < after.len() implies (#[trigger] after[i]).0
                != (#[trigger] after[j]).0 by {
                assert(before(after[i].0, after[j].0));
                lemma_before_irreflexive(after[i].0);
            }
        },
        _ => {},
    }
}

proof fn lemma_sorted_entries_fit(entries: Entries, levels: nat)
    requires
        forall|i: int| 0 <= i < entries.len() ==> storable((#[trigger] entries[i]).1, levels),
    ensures
        forall|i: int|
            0 <= i < sorted_entries(entries).len() ==> fits(
                (#[trigger] sorted_entries(entries)[i]).1,
                levels,
            ),
    decreases entries,
{
    lemma_sorted_entries(entries);
    if entries.len() > 0 {
        let head = entries.drop_last();
        assert forall|i: int| 0 <= i < head.len() implies storable((#[trigger] head[i]).1, levels) by {
            assert(head[i] == entries[i]);
        }
        lemma_sorted_entries_fit(head, levels);
        let pair = entries[entries.len() - 1];
        assert(decreases_to!(entries => pair));
        assert(decreases_to!(pair => pair.1));
        assert(decreases_to!(entries => pair.1));
        lemma_sorted_fits(pair.1, levels);
        let old = sorted_entries(head);
        let value = sorted(pair.1);
        assert forall|i: int| 0 <= i < place(old, pair.0, value).len() implies fits(
            (#[trigger] place(old, pair.0, value)[i]).1,
            levels,
        ) by {
            lemma_place_values(old, pair.0, value, i);
            if place(old, pair.0, value)[i] != (pair.0, value) {
                let j = choose|j: int|
                    0 <= j < old.len() && place(old, pair.0, value)[i] == #[trigger] old[j];
                assert(fits(old[j].1, levels));
            }
        }
    }
}

pub proof fn lemma_storable_detail(name: Seq<char>, value: JsonV, levels: nat)
    requires
        levels > 0,
        storable(value, (levels - 1) as nat),
    ensures
        storable(detail(name, value), levels),
{
    let nothing: Entries = Seq::empty();
    assert(put(nothing, name, value) =~= seq![(name, value)]);
}

pub proof fn lemma_storable_and_detail(v: JsonV, name: Seq<char>, value: JsonV, levels: nat)
    requires
        v is Object,
        storable(v, levels),
        storable(value, (levels - 1) as nat),
    ensures
        storable(and_detail(v, name, value), levels),
{
    let entries = v->Object_0;
    let after = put(entries, name, value);
    let at = position(entries, name);
    lemma_position(entries, name);
    assert forall|i: int| 0 <= i < after.len() implies storable(
        (#[trigger] after[i]).1,
        (levels - 1) as nat,
    ) by {
        if i < entries.len() && i != at {
            assert(after[i] == entries[i]);
        }
    }
}

pub proof fn lemma_storable_texts(list: Seq<Seq<char>>, levels: nat)
    requires
        levels > 0,
    ensures
        storable(texts(list), levels),
{
    let items = list.map_values(|t: Seq<char>| JsonV::Text(t));
    assert forall|i: int| 0 <= i < items.len() implies storable(
        #[trigger] items[i],
        (levels - 1) as nat,
    ) by {
        assert(items[i] == JsonV::Text(list[i]));
    }
}

// ---- order at any depth ----

/// Whether two values differ at most in the order of the entries of their objects, at any depth.
/// No object among them binds a name twice.
pub open spec fn same_value(a: JsonV, b: JsonV) -> bool
    decreases a,
{
    match (a, b) {
        (JsonV::Array(x), JsonV::Array(y)) => {
            &&& x.len() == y.len()
            &&& forall|i: int| 0 <= i < x.len() ==> same_value(#[trigger] x[i], y[i])
        },
        (JsonV::Object(x), JsonV::Object(y)) => {
            &&& distinct(x)
            &&& distinct(y)
            &&& forall|i: int|
                0 <= i < x.len() ==> exists|j: int|
                    0 <= j < y.len() && (#[trigger] y[j]).0 == (#[trigger] x[i]).0 && same_value(
                        x[i].1,
                        y[j].1,
                    )
            &&& forall|j: int|
                0 <= j < y.len() ==> exists|i: int|
                    0 <= i < x.len() && (#[trigger] x[i]).0 == (#[trigger] y[j]).0
        },
        _ => a == b,
    }
}

proof fn lemma_bound(entries: Entries, at: int)
    requires
        distinct(entries),
        0 <= at < entries.len(),
    ensures
        lookup(entries, entries[at].0) == Some(entries[at].1),
{
    assert forall|i: int| 0 <= i < at implies (#[trigger] entries[i]).0 != entries[at].0 by {}
    lemma_position_is(entries, entries[at].0, at);
}

#[verifier::rlimit(40)]
proof fn lemma_same_sorted(a: JsonV, b: JsonV)
    requires
        same_value(a, b),
    ensures
        sorted(a) == sorted(b),
    decreases a,
{
    lemma_sorted(a);
    lemma_sorted(b);
    match (a, b) {
        (JsonV::Array(x), JsonV::Array(y)) => {
            lemma_sorted_items(x);
            lemma_sorted_items(y);
            assert forall|i: int| 0 <= i < x.len() implies #[trigger] sorted_items(x)[i]
                == sorted_items(y)[i] by {
                assert(same_value(x[i], y[i]));
                lemma_same_sorted(x[i], y[i]);
            }
            assert(sorted_items(x) =~= sorted_items(y));
        },
        (JsonV::Object(x), JsonV::Object(y)) => {
            sorted_names_ascend(x);
            sorted_names_ascend(y);
            assert forall|name: Seq<char>| #[trigger] lookup(sorted_entries(x), name) == lookup(
                sorted_entries(y),
                name,
            ) by {
                sorting_keeps_the_bindings(x, name);
                sorting_keeps_the_bindings(y, name);
                lemma_one_binding(x, name);
                lemma_one_binding(y, name);
                lemma_position(x, name);
                lemma_position(y, name);
                let i = position(x, name);
                if i < x.len() {
                    assert(x[i].0 == name);
                    let j = choose|j: int|
                        0 <= j < y.len() && (#[trigger] y[j]).0 == x[i].0 && same_value(
                            x[i].1,
                            y[j].1,
                        );
                    lemma_bound(y, j);
                    let pair = x[i];
                    assert(decreases_to!(a => x));
                    assert(decreases_to!(x => x[i]));
                    assert(decreases_to!(pair => pair.1));
                    assert(decreases_to!(a => pair.1));
                    lemma_same_sorted(x[i].1, y[j].1);
                } else {
                    let j = position(y, name);
                    if j < y.len() {
                        let k = choose|k: int| 0 <= k < x.len() && (#[trigger] x[k]).0 == y[j].0;
                        assert(x[k].0 == name);
                    }
                }
            }
            lemma_same_entries(sorted_entries(x), sorted_entries(y));
        },
        _ => {},
    }
}

/// The order of the entries of objects does not matter to the canonical text, at any depth.
pub proof fn the_order_matters_at_no_depth(a: JsonV, b: JsonV)
    requires
        same_value(a, b),
    ensures
        canonical(a) == canonical(b),
{
    lemma_same_sorted(a, b);
}

/// No object in a value binds a name twice.
pub open spec fn orderly(v: JsonV) -> bool
    decreases v,
{
    match v {
        JsonV::Array(items) => forall|i: int| 0 <= i < items.len() ==> orderly(#[trigger] items[i]),
        JsonV::Object(entries) => distinct(entries) && forall|i: int|
            0 <= i < entries.len() ==> orderly((#[trigger] entries[i]).1),
        _ => true,
    }
}

/// Sorting changes nothing but the order of entries. So what is read of the canonical text of a
/// value is that value.
pub proof fn sorting_keeps_the_value(v: JsonV)
    requires
        orderly(v),
    ensures
        same_value(v, sorted(v)),
    decreases v,
{
    lemma_sorted(v);
    match v {
        JsonV::Array(items) => {
            lemma_sorted_items(items);
            assert forall|i: int| 0 <= i < items.len() implies same_value(
                #[trigger] items[i],
                sorted_items(items)[i],
            ) by {
                sorting_keeps_the_value(items[i]);
            }
        },
        JsonV::Object(x) => {
            let y = sorted_entries(x);
            sorted_names_ascend(x);
            assert(distinct(y)) by {
                assert forall|i: int, j: int| 0 <= i < j < y.len() implies (#[trigger] y[i]).0 != (
                #[trigger] y[j]).0 by {
                    assert(before(y[i].0, y[j].0));
                    lemma_before_irreflexive(y[i].0);
                }
            }
            assert forall|i: int| 0 <= i < x.len() implies exists|j: int|
                0 <= j < y.len() && (#[trigger] y[j]).0 == (#[trigger] x[i]).0 && same_value(
                    x[i].1,
                    y[j].1,
                ) by {
                let name = x[i].0;
                lemma_bound(x, i);
                lemma_one_binding(x, name);
                sorting_keeps_the_bindings(x, name);
                lemma_position(y, name);
                let j = position(y, name);
                let pair = x[i];
                assert(decreases_to!(v => x));
                assert(decreases_to!(x => x[i]));
                assert(decreases_to!(pair => pair.1));
                assert(decreases_to!(v => pair.1));
                sorting_keeps_the_value(x[i].1);
                assert(y[j].0 == name && y[j].1 == sorted(x[i].1));
            }
            assert forall|j: int| 0 <= j < y.len() implies exists|i: int|
                0 <= i < x.len() && (#[trigger] x[i]).0 == (#[trigger] y[j]).0 by {
                let name = y[j].0;
                lemma_found(y, j);
                lemma_one_binding(x, name);
                sorting_keeps_the_bindings(x, name);
                lemma_position(x, name);
                let i = position(x, name);
                assert(x[i].0 == name);
            }
        },
        _ => {},
    }
}

} // verus!
