//! Path texts: home expansion, joining and lexical normalisation.

use vstd::prelude::*;

use crate::text::{chars_of, join, joined, same, starts_with, strings, text_of};

verus! {

/// `path` with a leading `~` replaced by the home directory, where one is known.
pub open spec fn expanded(path: Seq<char>, home: Option<Seq<char>>) -> Seq<char> {
    match home {
        Some(h) => if path == "~"@ {
            h
        } else if crate::text::begins(path, "~/"@) {
            h + "/"@ + path.skip(2)
        } else {
            path
        },
        None => path,
    }
}

/// The view of an optional text.
pub open spec fn optional(s: Option<&str>) -> Option<Seq<char>> {
    match s {
        Some(t) => Some(t@),
        None => None,
    }
}

/// The view of an optional owned text.
pub open spec fn optional_text(s: Option<String>) -> Option<Seq<char>> {
    match s {
        Some(t) => Some(t@),
        None => None,
    }
}

/// Expands a leading `~/`, or a bare `~`, to `home`.
pub fn expanduser(path: &str, home: Option<&str>) -> (r: String)
    ensures
        r@ == expanded(path@, optional(home)),
{
    match home {
        Some(h) => {
            if same(path, "~") {
                h.to_string()
            } else if starts_with(path, "~/") {
                let v = chars_of(path);
                proof {
                    reveal_strlit("~/");
                    assert(v@.subrange(2, v@.len() as int) =~= path@.skip(2));
                }
                let mut r = h.to_string();
                r.push_str("/");
                r.push_str(text_of(&v, 2, v.len()).as_str());
                r
            } else {
                path.to_string()
            }
        },
        None => path.to_string(),
    }
}

/// [`expanduser`] under the name that callers with texts know.
pub fn expanduser_str(s: &str, home: Option<&str>) -> (r: String)
    ensures
        r@ == expanded(s@, optional(home)),
{
    expanduser(s, home)
}

/// Whether a path starts at the root.
pub open spec fn is_absolute(path: Seq<char>) -> bool {
    path.len() > 0 && path[0] == '/'
}

/// `rel` below `base`; an absolute `rel` replaces it.
pub open spec fn path_joined(base: Seq<char>, rel: Seq<char>) -> Seq<char> {
    if is_absolute(rel) {
        rel
    } else if base.len() == 0 || base.last() == '/' {
        base + rel
    } else {
        base + "/"@ + rel
    }
}

fn absolute(path: &str) -> (r: bool)
    ensures
        r == is_absolute(path@),
{
    let v = chars_of(path);
    v.len() > 0 && v[0] == '/'
}

/// `rel` below `base`.
pub fn path_join(base: &str, rel: &str) -> (r: String)
    ensures
        r@ == path_joined(base@, rel@),
{
    if absolute(rel) {
        return rel.to_string();
    }
    let v = chars_of(base);
    let mut r = base.to_string();
    if v.len() > 0 && v[v.len() - 1] != '/' {
        r.push_str("/");
    }
    r.push_str(rel);
    r
}

/// The parts of `s` between occurrences of `c`.
pub open spec fn pieces(s: Seq<char>, c: char) -> Seq<Seq<char>>
    decreases s.len(),
{
    if s.len() == 0 {
        seq![Seq::empty()]
    } else {
        let front = pieces(s.drop_last(), c);
        if s.last() == c {
            front.push(Seq::empty())
        } else {
            front.drop_last().push(front.last().push(s.last()))
        }
    }
}

/// Splits `s` at every `c`.
pub fn split(s: &str, c: char) -> (r: Vec<String>)
    ensures
        strings(r@) == pieces(s@, c),
{
    let v = chars_of(s);
    let mut out: Vec<String> = Vec::new();
    let mut current = String::new();
    let mut i: usize = 0;
    proof {
        assert(v@.take(0) =~= Seq::empty());
        assert(strings(out@).push(current@) =~= pieces(v@.take(0), c));
    }
    while i < v.len()
        invariant
            i <= v@.len(),
            strings(out@).push(current@) == pieces(v@.take(i as int), c),
        decreases v@.len() - i,
    {
        let ghost before = out@;
        let ghost part = current@;
        proof {
            assert(v@.take(i + 1).drop_last() =~= v@.take(i as int));
        }
        if v[i] == c {
            out.push(current);
            current = String::new();
            proof {
                assert(strings(out@) =~= strings(before).push(part));
                assert(strings(out@).push(current@) =~= pieces(v@.take(i + 1), c));
            }
        } else {
            current.push(v[i]);
            proof {
                let front = strings(before).push(part);
                assert(front.drop_last() =~= strings(before));
                assert(strings(out@).push(current@) =~= pieces(v@.take(i + 1), c));
            }
        }
        i += 1;
    }
    let ghost before = out@;
    let ghost part = current@;
    out.push(current);
    proof {
        assert(v@.take(v@.len() as int) =~= s@);
        assert(strings(out@) =~= strings(before).push(part));
    }
    out
}

/// The names that `parts` leave when `.` and empty names are dropped and `..` takes back the name
/// before it; at the root there is nothing to take back.
pub open spec fn settled(parts: Seq<Seq<char>>, rooted: bool) -> Seq<Seq<char>>
    decreases parts.len(),
{
    if parts.len() == 0 {
        Seq::empty()
    } else {
        let front = settled(parts.drop_last(), rooted);
        let name = parts.last();
        if name.len() == 0 || name == "."@ {
            front
        } else if name != ".."@ {
            front.push(name)
        } else if front.len() > 0 && front.last() != ".."@ {
            front.drop_last()
        } else if rooted {
            front
        } else {
            front.push(name)
        }
    }
}

/// The text of a path made of `names`.
pub open spec fn rendered(names: Seq<Seq<char>>, rooted: bool) -> Seq<char> {
    if rooted {
        "/"@ + joined(names, "/"@)
    } else if names.len() == 0 {
        "/"@
    } else {
        joined(names, "/"@)
    }
}

/// `path` without `.`, `..` and repeated separators, as far as its text alone allows.
pub open spec fn normalized(path: Seq<char>) -> Seq<char> {
    rendered(settled(pieces(path, '/'), is_absolute(path)), is_absolute(path))
}

/// The absolute, normalised form of `path`.
pub open spec fn resolved(path: Seq<char>, home: Option<Seq<char>>, cwd: Seq<char>) -> Seq<char> {
    let full = expanded(path, home);
    normalized(
        if is_absolute(full) {
            full
        } else {
            path_joined(cwd, full)
        },
    )
}

/// Drops `.` and resolves `..` by the text alone.
pub fn normalize_lexical(path: &str) -> (r: String)
    ensures
        r@ == normalized(path@),
{
    let parts = split(path, '/');
    let rooted = absolute(path);
    let mut names: Vec<String> = Vec::new();
    let ghost all = pieces(path@, '/');
    let mut i: usize = 0;
    proof {
        assert(all.take(0) =~= Seq::empty());
        assert(strings(names@) =~= settled(all.take(0), rooted));
    }
    while i < parts.len()
        invariant
            i <= parts@.len(),
            strings(parts@) == all,
            strings(names@) == settled(all.take(i as int), rooted),
        decreases parts@.len() - i,
    {
        let name = parts[i].as_str();
        let ghost before = names@;
        proof {
            assert(all.take(i + 1).drop_last() =~= all.take(i as int));
            assert(all.take(i + 1).last() == parts@[i as int]@);
            reveal_strlit("");
        }
        if same(name, "") || same(name, ".") {
            assert(name@ == ""@ ==> name@.len() == 0);
            assert(name@.len() == 0 ==> name@ =~= ""@);
        } else if !same(name, "..") {
            assert(name@.len() == 0 ==> name@ =~= ""@);
            names.push(name.to_string());
            assert(strings(names@) =~= strings(before).push(name@));
        } else {
            assert(name@.len() == 0 ==> name@ =~= ""@);
            if names.len() > 0 && !same(names[names.len() - 1].as_str(), "..") {
                names.pop();
                assert(strings(names@) =~= strings(before).drop_last());
                assert(strings(before).last() == before.last()@);
            } else {
                assert(before.len() > 0 ==> strings(before).last() == before.last()@);
                if !rooted {
                    names.push(name.to_string());
                    assert(strings(names@) =~= strings(before).push(name@));
                }
            }
        }
        i += 1;
    }
    assert(all.take(all.len() as int) =~= all);
    let text = join(&names, "/");
    if rooted {
        let mut r = "/".to_string();
        r.push_str(text.as_str());
        r
    } else if names.len() == 0 {
        "/".to_string()
    } else {
        text
    }
}

/// Makes `path` absolute below `cwd` and normalises it by its text alone.
pub fn lexpath_resolve(path: &str, home: Option<&str>, cwd: &str) -> (r: String)
    ensures
        r@ == resolved(path@, optional(home), cwd@),
{
    let full = expanduser(path, home);
    if absolute(full.as_str()) {
        normalize_lexical(full.as_str())
    } else {
        normalize_lexical(path_join(cwd, full.as_str()).as_str())
    }
}

// ---- names and directories ----

/// Whether the last character of a path names nothing: a separator behind something, or the `.` of
/// a name `.` behind a separator.
pub open spec fn idle_end(path: Seq<char>) -> bool {
    path.len() > 1 && (path.last() == '/' || (path.last() == '.' && path[path.len() - 2] == '/'))
}

/// A path without the separators and the names `.` at its end.
pub open spec fn pruned(path: Seq<char>) -> Seq<char>
    decreases path.len(),
{
    if idle_end(path) {
        pruned(path.drop_last())
    } else {
        path
    }
}

/// Number of characters behind the last separator.
pub open spec fn tail_length(path: Seq<char>) -> nat
    decreases path.len(),
{
    if path.len() == 0 || path.last() == '/' {
        0
    } else {
        1 + tail_length(path.drop_last())
    }
}

/// Where the last name of a path begins.
pub open spec fn name_start(path: Seq<char>) -> int {
    path.len() - tail_length(path)
}

/// The directory that holds what a path names. The root and the empty path have none.
pub open spec fn parent_path(path: Seq<char>) -> Option<Seq<char>> {
    let p = pruned(path);
    if p.len() == 0 || p == "/"@ {
        None
    } else {
        Some(pruned(p.take(name_start(p))))
    }
}

/// The last name in a path. The root, the empty path and those that end in `.` or `..` have none.
pub open spec fn last_name(path: Seq<char>) -> Option<Seq<char>> {
    let p = pruned(path);
    let name = p.skip(name_start(p));
    if name.len() == 0 || name == "."@ || name == ".."@ {
        None
    } else {
        Some(name)
    }
}

/// How much of `v[..n]` pruning leaves.
fn pruned_length(v: &Vec<char>, n: usize) -> (r: usize)
    requires
        n <= v@.len(),
    ensures
        r <= n,
        v@.take(r as int) == pruned(v@.take(n as int)),
{
    let mut end: usize = n;
    while end > 1 && (v[end - 1] == '/' || (v[end - 1] == '.' && v[end - 2] == '/'))
        invariant
            end <= n <= v@.len(),
            pruned(v@.take(end as int)) == pruned(v@.take(n as int)),
        decreases end,
    {
        assert(v@.take(end as int).drop_last() =~= v@.take(end - 1));
        assert(idle_end(v@.take(end as int)));
        end -= 1;
    }
    assert(!idle_end(v@.take(end as int)));
    end
}

/// Where the last name in `v[..n]` begins.
fn name_start_in(v: &Vec<char>, n: usize) -> (r: usize)
    requires
        n <= v@.len(),
    ensures
        r <= n,
        r == name_start(v@.take(n as int)),
{
    let mut at: usize = n;
    while at > 0 && v[at - 1] != '/'
        invariant
            at <= n <= v@.len(),
            tail_length(v@.take(n as int)) == n - at + tail_length(v@.take(at as int)),
        decreases at,
    {
        assert(v@.take(at as int).drop_last() =~= v@.take(at - 1));
        at -= 1;
    }
    assert(tail_length(v@.take(at as int)) == 0);
    at
}

/// The directory that holds what `path` names.
pub fn parent_of(path: &str) -> (r: Option<String>)
    ensures
        optional_text(r) == parent_path(path@),
{
    let v = chars_of(path);
    let n: usize = pruned_length(&v, v.len());
    proof {
        assert(v@.take(v@.len() as int) =~= path@);
        reveal_strlit("/");
        assert(pruned(path@).len() == 1 && pruned(path@)[0] == '/' ==> pruned(path@) =~= "/"@);
    }
    if n == 0 || (n == 1 && v[0] == '/') {
        return None;
    }
    let start: usize = name_start_in(&v, n);
    let end: usize = pruned_length(&v, start);
    proof {
        assert(v@.take(n as int).take(start as int) =~= v@.take(start as int));
        assert(v@.subrange(0, end as int) =~= v@.take(end as int));
    }
    Some(text_of(&v, 0, end))
}

/// The last name in `path`.
pub fn file_name_of(path: &str) -> (r: Option<String>)
    ensures
        optional_text(r) == last_name(path@),
{
    let v = chars_of(path);
    let n: usize = pruned_length(&v, v.len());
    let start: usize = name_start_in(&v, n);
    let name = text_of(&v, start, n);
    proof {
        assert(v@.take(v@.len() as int) =~= path@);
        assert(v@.take(n as int).skip(start as int) =~= v@.subrange(start as int, n as int));
    }
    if start == n || same(name.as_str(), ".") || same(name.as_str(), "..") {
        None
    } else {
        Some(name)
    }
}

// ---- normal paths ----

/// A name that normalising keeps.
pub open spec fn plain(name: Seq<char>) -> bool {
    &&& name.len() > 0
    &&& !name.contains('/')
    &&& name != "."@
}

/// Names that normalising leaves as they are: none is empty or `.`, and `..` stands only before
/// every other name of a path that does not start at the root.
pub open spec fn settled_names(names: Seq<Seq<char>>, rooted: bool) -> bool {
    &&& forall|i: int| 0 <= i < names.len() ==> plain(#[trigger] names[i])
    &&& forall|i: int|
        0 <= i < names.len() && #[trigger] names[i] == ".."@ ==> !rooted && forall|j: int|
            0 <= j < i ==> #[trigger] names[j] == ".."@
}

pub proof fn lemma_pieces(s: Seq<char>, c: char)
    ensures
        pieces(s, c).len() > 0,
        forall|i: int| 0 <= i < pieces(s, c).len() ==> !(#[trigger] pieces(s, c)[i]).contains(c),
    decreases s.len(),
{
    if s.len() > 0 {
        let front = pieces(s.drop_last(), c);
        lemma_pieces(s.drop_last(), c);
        if s.last() != c {
            let part = front.last().push(s.last());
            assert forall|k: int| 0 <= k < part.len() implies part[k] != c by {
                if k < front.last().len() {
                    assert(front.last().contains(front.last()[k]));
                }
            }
        }
    }
}

/// A text without the separator joins the last part.
pub proof fn lemma_pieces_extend(s: Seq<char>, t: Seq<char>, c: char)
    requires
        !t.contains(c),
    ensures
        pieces(s + t, c) == pieces(s, c).drop_last().push(pieces(s, c).last() + t),
    decreases t.len(),
{
    lemma_pieces(s, c);
    let front = pieces(s, c);
    if t.len() == 0 {
        assert(s + t =~= s);
        assert(front.last() + t =~= front.last());
        assert(front =~= front.drop_last().push(front.last()));
    } else {
        let u = t.drop_last();
        assert forall|k: int| 0 <= k < u.len() implies u[k] != c by {
            assert(t.contains(t[k]));
        }
        assert(t.contains(t.last()));
        lemma_pieces_extend(s, u, c);
        assert((s + t).drop_last() =~= s + u);
        let before = front.drop_last().push(front.last() + u);
        assert(before.drop_last() =~= front.drop_last());
        assert((front.last() + u).push(t.last()) =~= front.last() + t);
    }
}

proof fn lemma_pieces_joined(lead: Seq<char>, names: Seq<Seq<char>>)
    requires
        names.len() > 0,
        forall|i: int| 0 <= i < names.len() ==> plain(#[trigger] names[i]),
        lead.len() == 0 || lead == "/"@,
    ensures
        pieces(lead + joined(names, "/"@), '/') == pieces(lead, '/').drop_last() + names,
    decreases names.len(),
{
    reveal_strlit("/");
    let text = joined(names, "/"@);
    lemma_pieces(lead, '/');
    if names.len() == 1 {
        lemma_pieces_extend(lead, names[0], '/');
        assert(pieces(lead, '/').last().len() == 0) by {
            assert(lead.len() == 1 ==> lead.last() == '/');
        }
        assert(pieces(lead, '/').last() + names[0] =~= names[0]);
        assert(names =~= seq![names[0]]);
        assert(pieces(lead, '/').drop_last().push(names[0]) =~= pieces(lead, '/').drop_last()
            + names);
    } else {
        let front = joined(names.drop_last(), "/"@);
        let last = names.last();
        lemma_pieces_joined(lead, names.drop_last());
        let s = lead + front;
        let divided = s.push('/');
        assert(divided.drop_last() =~= s);
        assert(pieces(divided, '/') == pieces(s, '/').push(Seq::empty()));
        lemma_pieces_extend(divided, last, '/');
        assert(divided + last =~= lead + text);
        assert(Seq::<char>::empty() + last =~= last);
        assert(pieces(s, '/').push(Seq::empty()).drop_last() =~= pieces(s, '/'));
        assert(pieces(s, '/').push(last) =~= pieces(lead, '/').drop_last() + names);
    }
}

/// What settling leaves is settled.
proof fn lemma_settled(parts: Seq<Seq<char>>, rooted: bool)
    requires
        forall|i: int| 0 <= i < parts.len() ==> !(#[trigger] parts[i]).contains('/'),
    ensures
        settled_names(settled(parts, rooted), rooted),
    decreases parts.len(),
{
    if parts.len() > 0 {
        lemma_settled(parts.drop_last(), rooted);
        reveal_strlit(".");
        reveal_strlit("..");
        assert(".."@.len() == 2 && "."@.len() == 1);
    }
}

/// Settling keeps what is settled; a leading empty name makes no difference.
proof fn lemma_settled_kept(lead: Seq<Seq<char>>, names: Seq<Seq<char>>, rooted: bool)
    requires
        settled_names(names, rooted),
        settled(lead, rooted).len() == 0,
    ensures
        settled(lead + names, rooted) == names,
    decreases names.len(),
{
    if names.len() == 0 {
        assert(lead + names =~= lead);
        assert(settled(lead, rooted) =~= names);
    } else {
        let front = names.drop_last();
        assert forall|i: int| 0 <= i < front.len() && #[trigger] front[i] == ".."@ implies !rooted
            && forall|j: int| 0 <= j < i ==> #[trigger] front[j] == ".."@ by {
            assert(names[i] == ".."@);
            assert forall|j: int| 0 <= j < i implies #[trigger] front[j] == ".."@ by {
                assert(names[j] == ".."@);
            }
        }
        lemma_settled_kept(lead, front, rooted);
        assert((lead + names).drop_last() =~= lead + front);
        assert(plain(names[names.len() - 1]));
        assert(front.push(names.last()) =~= names);
        if front.len() > 0 && names.last() == ".."@ {
            assert(names[names.len() - 1] == ".."@);
            assert(names[front.len() - 1] == ".."@);
        }
    }
}

/// Normalising a normal path changes nothing, and a path that starts at the root still does.
pub proof fn normalizing_settles(path: Seq<char>)
    ensures
        normalized(normalized(path)) == normalized(path),
        is_absolute(path) ==> is_absolute(normalized(path)),
{
    let rooted = is_absolute(path);
    let names = settled(pieces(path, '/'), rooted);
    let text = normalized(path);
    reveal_strlit("/");
    lemma_pieces(path, '/');
    lemma_settled(pieces(path, '/'), rooted);
    let none = Seq::<char>::empty();
    assert(pieces(none, '/') =~= seq![none]);
    assert("/"@.drop_last() =~= none);
    assert(pieces("/"@, '/') =~= seq![none, none]);
    assert(pieces("/"@, '/').drop_last() =~= seq![none]);
    assert(seq![none].drop_last() =~= Seq::<Seq<char>>::empty());
    assert(settled(Seq::<Seq<char>>::empty(), rooted).len() == 0);
    assert(settled(seq![none], rooted).len() == 0);
    assert(seq![none, none].drop_last() =~= seq![none]);
    if names.len() == 0 {
        assert(text =~= "/"@);
        assert(settled(Seq::<Seq<char>>::empty(), true).len() == 0);
        assert(settled(seq![none], true).len() == 0);
        assert(settled(seq![none, none], true).len() == 0);
        assert(joined(settled(seq![none, none], true), "/"@).len() == 0);
        assert(normalized(text) =~= "/"@);
    } else if rooted {
        lemma_pieces_joined("/"@, names);
        lemma_settled_kept(seq![none], names, rooted);
        assert(text[0] == '/');
    } else {
        lemma_pieces_joined(none, names);
        assert(none + joined(names, "/"@) =~= text);
        lemma_settled_kept(seq![none].drop_last(), names, rooted);
        lemma_first(names);
        assert(!is_absolute(text));
    }
}

/// The text of plain names begins with the first of them.
proof fn lemma_first(names: Seq<Seq<char>>)
    requires
        names.len() > 0,
        forall|i: int| 0 <= i < names.len() ==> plain(#[trigger] names[i]),
    ensures
        joined(names, "/"@).len() > 0,
        joined(names, "/"@)[0] == names[0][0],
        names[0][0] != '/',
    decreases names.len(),
{
    assert(plain(names[0]));
    assert(names[0].contains(names[0][0]));
    if names.len() > 1 {
        lemma_first(names.drop_last());
    }
}

/// A resolved path starts at the root and resolves to itself, wherever it is resolved again.
pub proof fn a_resolved_path_is_final(
    path: Seq<char>,
    home: Option<Seq<char>>,
    cwd: Seq<char>,
    other_home: Option<Seq<char>>,
    other_cwd: Seq<char>,
)
    requires
        is_absolute(cwd),
    ensures
        is_absolute(resolved(path, home, cwd)),
        resolved(resolved(path, home, cwd), other_home, other_cwd) == resolved(path, home, cwd),
{
    let full = expanded(path, home);
    let whole = if is_absolute(full) {
        full
    } else {
        path_joined(cwd, full)
    };
    assert(is_absolute(whole));
    normalizing_settles(whole);
    let r = normalized(whole);
    reveal_strlit("~");
    reveal_strlit("~/");
    assert("~"@[0] == '~');
    assert(crate::text::begins(r, "~/"@) ==> r.take(2)[0] == '~');
    assert(expanded(r, other_home) == r);
}

// ---- final names ----

/// What stands behind the last separator of a path.
pub open spec fn final_name(path: Seq<char>) -> Seq<char> {
    pieces(path, '/').last()
}

/// Whether a text is the name of something in a directory.
pub open spec fn names_entry(name: Seq<char>) -> bool {
    plain(name) && name != ".."@
}

/// What precedes a separator does not matter.
pub proof fn lemma_final_name(lead: Seq<char>, path: Seq<char>)
    requires
        lead.len() == 0 || lead.last() == '/',
    ensures
        final_name(lead + path) == final_name(path),
    decreases path.len(),
{
    lemma_pieces(lead, '/');
    lemma_pieces(path, '/');
    if path.len() == 0 {
        assert(lead + path =~= lead);
        assert(final_name(lead) =~= final_name(path));
    } else {
        lemma_final_name(lead, path.drop_last());
        lemma_pieces(lead + path.drop_last(), '/');
        lemma_pieces(path.drop_last(), '/');
        assert((lead + path).drop_last() =~= lead + path.drop_last());
    }
}

/// A name below a directory is the final one.
pub proof fn lemma_joined_name(base: Seq<char>, name: Seq<char>)
    requires
        plain(name),
    ensures
        final_name(path_joined(base, name)) == name,
{
    reveal_strlit("/");
    assert(!is_absolute(name)) by {
        assert(name.contains(name[0]));
    }
    let none = Seq::<char>::empty();
    lemma_pieces_extend(none, name, '/');
    assert(none + name =~= name);
    assert(pieces(none, '/').last() + name =~= name);
    assert(final_name(name) == name);
    let lead = if base.len() == 0 || base.last() == '/' {
        base
    } else {
        base + "/"@
    };
    lemma_final_name(lead, name);
    assert(path_joined(base, name) =~= lead + name);
}

/// Normalising keeps the final name.
proof fn lemma_normal_name(path: Seq<char>)
    requires
        names_entry(final_name(path)),
    ensures
        final_name(normalized(path)) == final_name(path),
{
    let rooted = is_absolute(path);
    let parts = pieces(path, '/');
    let names = settled(parts, rooted);
    lemma_pieces(path, '/');
    lemma_settled(parts, rooted);
    assert(names.last() == final_name(path));
    let none = Seq::<char>::empty();
    if rooted {
        lemma_pieces_joined("/"@, names);
    } else {
        lemma_pieces_joined(none, names);
        assert(none + joined(names, "/"@) =~= joined(names, "/"@));
    }
}

/// Where the last name of a path begins, its final name does.
proof fn lemma_name_start(path: Seq<char>)
    ensures
        0 <= name_start(path) <= path.len(),
        path.skip(name_start(path)) == final_name(path),
    decreases path.len(),
{
    lemma_pieces(path, '/');
    if path.len() > 0 {
        let front = path.drop_last();
        lemma_name_start(front);
        lemma_pieces(front, '/');
        if path.last() != '/' {
            assert(name_start(path) == name_start(front));
            assert(path.skip(name_start(path)) =~= front.skip(name_start(front)).push(path.last()));
        } else {
            assert(path.skip(name_start(path)) =~= Seq::empty());
        }
    } else {
        assert(path.skip(name_start(path)) =~= final_name(path));
    }
}

/// An idle end makes no difference.
proof fn lemma_idle(lead: Seq<char>, path: Seq<char>)
    requires
        idle_end(path),
    ensures
        normalized(lead + path) == normalized(lead + path.drop_last()),
{
    let whole = lead + path;
    let less = lead + path.drop_last();
    assert(whole.drop_last() =~= less);
    assert(is_absolute(whole) == is_absolute(less)) by {
        assert(whole[0] == less[0]);
    }
    let rooted = is_absolute(whole);
    let front = pieces(less, '/');
    reveal_strlit(".");
    lemma_pieces(less, '/');
    if path.last() == '/' {
        assert(pieces(whole, '/').drop_last() =~= front);
    } else {
        let least = less.drop_last();
        assert(less.last() == '/');
        assert(front == pieces(least, '/').push(Seq::empty()));
        assert(front.drop_last() =~= pieces(least, '/'));
        assert(pieces(whole, '/') =~= pieces(least, '/').push(Seq::empty().push('.')));
        assert(pieces(whole, '/').drop_last() =~= pieces(least, '/'));
        assert(Seq::<char>::empty().push('.') =~= "."@);
    }
    assert(settled(pieces(whole, '/'), rooted) == settled(front, rooted));
}

proof fn lemma_pruned(lead: Seq<char>, path: Seq<char>)
    ensures
        normalized(lead + path) == normalized(lead + pruned(path)),
        pruned(path) == path.take(pruned(path).len() as int),
        pruned(path).len() <= path.len(),
    decreases path.len(),
{
    if idle_end(path) {
        lemma_idle(lead, path);
        lemma_pruned(lead, path.drop_last());
        assert(path.drop_last().take(pruned(path).len() as int) =~= path.take(
            pruned(path).len() as int,
        ));
    } else {
        assert(path.take(path.len() as int) =~= path);
    }
}

/// The path that a path which is not expanded resolves by.
proof fn lemma_resolved(path: Seq<char>, home: Option<Seq<char>>, cwd: Seq<char>) -> (lead: Seq<
    char,
>)
    requires
        expanded(path, home) == path,
    ensures
        lead.len() == 0 || lead.last() == '/',
        resolved(path, home, cwd) == normalized(lead + path),
{
    reveal_strlit("/");
    if is_absolute(path) {
        assert(Seq::<char>::empty() + path =~= path);
        Seq::empty()
    } else if cwd.len() == 0 || cwd.last() == '/' {
        cwd
    } else {
        cwd + "/"@
    }
}

/// A resolved path ends in the final name of the path.
pub proof fn lemma_resolved_name(path: Seq<char>, home: Option<Seq<char>>, cwd: Seq<char>)
    requires
        expanded(path, home) == path,
        names_entry(final_name(path)),
    ensures
        final_name(resolved(path, home, cwd)) == final_name(path),
{
    let lead = lemma_resolved(path, home, cwd);
    lemma_final_name(lead, path);
    lemma_normal_name(lead + path);
}

/// A resolved path ends in the last name of the path.
pub proof fn lemma_resolved_last(path: Seq<char>, home: Option<Seq<char>>, cwd: Seq<char>)
    requires
        expanded(path, home) == path,
        last_name(path) is Some,
    ensures
        names_entry(last_name(path)->0),
        final_name(resolved(path, home, cwd)) == last_name(path)->0,
        final_name(path).len() <= last_name(path)->0.len(),
{
    let p = pruned(path);
    let lead = lemma_resolved(path, home, cwd);
    lemma_pruned(lead, path);
    lemma_name_start(p);
    lemma_pieces(p, '/');
    lemma_final_name(lead, p);
    lemma_normal_name(lead + p);
    lemma_idle_name(path);
}

proof fn lemma_idle_name(path: Seq<char>)
    requires
        last_name(path) is Some,
    ensures
        final_name(path).len() <= last_name(path)->0.len(),
{
    lemma_name_start(path);
    if idle_end(path) {
        let less = path.drop_last();
        lemma_pieces(less, '/');
        lemma_pieces(path, '/');
        if path.last() != '/' {
            assert(less.last() == '/');
            assert(final_name(less).len() == 0);
        }
    }
}

/// A suffix without a separator extends the final name.
pub proof fn lemma_extended_name(path: Seq<char>, suffix: Seq<char>)
    requires
        !suffix.contains('/'),
    ensures
        final_name(path + suffix) == final_name(path) + suffix,
        !final_name(path).contains('/'),
{
    lemma_pieces(path, '/');
    lemma_pieces_extend(path, suffix, '/');
}

/// Pruning stops next to a separator.
proof fn lemma_pruned_edge(path: Seq<char>)
    ensures
        pruned(path).len() < path.len() ==> path[pruned(path).len() as int] == '/' || (
        pruned(path).len() > 0 && path[pruned(path).len() - 1] == '/'),
        pruned(path) == path.take(pruned(path).len() as int),
        pruned(path).len() <= path.len(),
    decreases path.len(),
{
    lemma_pruned(Seq::empty(), path);
    if idle_end(path) {
        lemma_pruned_edge(path.drop_last());
    }
}

proof fn lemma_tail(path: Seq<char>)
    ensures
        tail_length(path) <= path.len(),
        name_start(path) > 0 ==> path[name_start(path) - 1] == '/',
    decreases path.len(),
{
    if path.len() > 0 && path.last() != '/' {
        lemma_tail(path.drop_last());
    }
}

/// The directory of a path is a beginning of it that ends next to a separator, or empty.
proof fn lemma_parent(path: Seq<char>)
    requires
        parent_path(path) matches Some(p) && p.len() > 0,
    ensures
        ({
            let p = parent_path(path)->0;
            &&& p.len() < path.len()
            &&& p == path.take(p.len() as int)
            &&& p.last() == '/' || path[p.len() as int] == '/'
        }) || parent_path(path) == Some(path),
{
    let whole = pruned(path);
    let start = name_start(whole);
    let lead = whole.take(start);
    let p = pruned(lead);
    lemma_pruned_edge(path);
    lemma_tail(whole);
    lemma_pruned_edge(lead);
    assert(lead == path.take(start));
    assert(p == path.take(p.len() as int));
    if p.len() < path.len() {
        if p.len() < lead.len() {
            assert(path[p.len() as int] == lead[p.len() as int]);
        } else {
            assert(p.last() == whole[start - 1]);
        }
    } else {
        assert(p =~= path);
    }
}

/// Beside a path that is not expanded nothing is, where its name has no separator.
pub proof fn lemma_beside(path: Seq<char>, name: Seq<char>, home: Option<Seq<char>>)
    requires
        expanded(path, home) == path,
        home matches Some(h) ==> is_absolute(h),
        plain(name),
        name.len() > 1,
    ensures
        parent_path(path) matches Some(p) ==> expanded(path_joined(p, name), home) == path_joined(
            p,
            name,
        ),
{
    reveal_strlit("~");
    reveal_strlit("~/");
    reveal_strlit("/");
    if let (Some(h), Some(p)) = (home, parent_path(path)) {
        let full = path_joined(p, name);
        assert(!is_absolute(name)) by {
            assert(name.contains(name[0]));
        }
        assert(name.contains(name[1]));
        if crate::text::begins(full, "~/"@) {
            assert(full.take(2)[0] == '~' && full.take(2)[1] == '/');
            assert(full[0] == '~' && full[1] == '/');
            if p.len() == 0 {
                assert(full[1] == name[1]);
            } else {
                lemma_parent(path);
                assert(p[0] == '~');
                assert(path[0] == '~');
                if path.len() > 1 {
                    if p.len() > 1 {
                        assert(full[1] == p[1]);
                    }
                    assert(path[1] == '/');
                    assert(path.take(2) =~= "~/"@);
                } else {
                    assert(path =~= "~"@);
                }
                if path == "~"@ {
                    assert(h == path);
                } else {
                    assert(h + "/"@ + path.skip(2) == path);
                    assert(path[0] == h[0]);
                }
            }
        }
    }
}

/// What is expanded stays as it is, below a home that starts at the root.
pub proof fn lemma_expanded(path: Seq<char>, home: Option<Seq<char>>)
    requires
        home matches Some(h) ==> is_absolute(h),
    ensures
        expanded(expanded(path, home), home) == expanded(path, home),
{
    reveal_strlit("~");
    reveal_strlit("~/");
    if let Some(h) = home {
        let full = expanded(path, home);
        if full != path {
            assert(full[0] == '/');
            if crate::text::begins(full, "~/"@) {
                assert(full.take(2)[0] == '~');
            }
        }
    }
}

} // verus!
