//! Text primitives: character classes, trimming, searching and joining.

use vstd::prelude::*;

verus! {

/// `String::push`: appends one character and keeps what was there.
pub assume_specification[ String::push ](s: &mut String, c: char)
    ensures
        final(s)@ == old(s)@.push(c),
;

/// `String::push_str`: appends the characters of a string slice and keeps what was there.
pub assume_specification[ String::push_str ](s: &mut String, other: &str)
    ensures
        final(s)@ == old(s)@ + other@,
;

/// `==` on string slices: true exactly where both hold the same characters.
pub assume_specification[ <str as PartialEq>::eq ](a: &str, b: &str) -> (r: bool)
    ensures
        r == (a@ == b@),
;

/// Whether two texts are equal.
pub fn same(a: &str, b: &str) -> (r: bool)
    ensures
        r == (a@ == b@),
{
    *a == *b
}

/// Characters that carry the Unicode `White_Space` property.
pub open spec fn is_white(c: char) -> bool {
    let n = c as u32;
    ||| 0x9 <= n <= 0xd
    ||| n == 0x20
    ||| n == 0x85
    ||| n == 0xa0
    ||| n == 0x1680
    ||| 0x2000 <= n <= 0x200a
    ||| n == 0x2028
    ||| n == 0x2029
    ||| n == 0x202f
    ||| n == 0x205f
    ||| n == 0x3000
}

/// A set of characters that a scan can run over.
#[derive(Clone, Copy)]
pub enum Class {
    /// Unicode white space.
    White,
    /// Space and tab.
    Blank,
    /// One character.
    Only(char),
}

impl Class {
    pub open spec fn holds(self, c: char) -> bool {
        match self {
            Class::White => is_white(c),
            Class::Blank => c == ' ' || c == '\t',
            Class::Only(d) => c == d,
        }
    }

    pub fn test(self, c: char) -> (b: bool)
        ensures
            b == self.holds(c),
    {
        match self {
            Class::White => {
                let n: u32 = c as u32;
                (0x9 <= n && n <= 0xd) || n == 0x20 || n == 0x85 || n == 0xa0 || n == 0x1680 || (
                0x2000 <= n && n <= 0x200a) || n == 0x2028 || n == 0x2029 || n == 0x202f || n
                    == 0x205f || n == 0x3000
            },
            Class::Blank => c == ' ' || c == '\t',
            Class::Only(d) => c == d,
        }
    }
}

/// Length of the longest prefix of `s` inside `k`.
pub open spec fn run(s: Seq<char>, k: Class) -> nat
    decreases s.len(),
{
    if s.len() > 0 && k.holds(s[0]) {
        1 + run(s.drop_first(), k)
    } else {
        0
    }
}

/// Length of the longest suffix of `s` inside `k`.
pub open spec fn back_run(s: Seq<char>, k: Class) -> nat
    decreases s.len(),
{
    if s.len() > 0 && k.holds(s.last()) {
        1 + back_run(s.drop_last(), k)
    } else {
        0
    }
}

/// The characters of `s`.
pub fn chars_of(s: &str) -> (v: Vec<char>)
    ensures
        v@ == s@,
{
    let mut v: Vec<char> = Vec::new();
    for c in it: s.chars()
        invariant
            v@ == it.seq().take(it.index()),
            it.seq() == s@,
    {
        v.push(c);
    }
    assert(v@ =~= s@);
    v
}

/// The text made of `v[lo..hi]`.
pub fn text_of(v: &Vec<char>, lo: usize, hi: usize) -> (s: String)
    requires
        lo <= hi <= v@.len(),
    ensures
        s@ == v@.subrange(lo as int, hi as int),
{
    let mut s = String::new();
    let mut i: usize = lo;
    while i < hi
        invariant
            lo <= i <= hi <= v@.len(),
            s@ == v@.subrange(lo as int, i as int),
        decreases hi - i,
    {
        s.push(v[i]);
        i += 1;
        assert(s@ =~= v@.subrange(lo as int, i as int));
    }
    s
}

/// `run` over the window `v[lo..hi]`.
pub fn run_in(v: &Vec<char>, lo: usize, hi: usize, k: Class) -> (n: usize)
    requires
        lo <= hi <= v@.len(),
    ensures
        n == run(v@.subrange(lo as int, hi as int), k),
        n <= hi - lo,
{
    let mut i: usize = lo;
    let ghost w = v@.subrange(lo as int, hi as int);
    assert(w.skip(0) =~= w);
    while i < hi && k.test(v[i])
        invariant
            lo <= i <= hi <= v@.len(),
            w == v@.subrange(lo as int, hi as int),
            run(w, k) == (i - lo) + run(w.skip(i - lo), k),
        decreases hi - i,
    {
        assert(w.skip(i - lo).drop_first() =~= w.skip(i + 1 - lo));
        assert(w.skip(i - lo)[0] == v@[i as int]);
        i += 1;
    }
    assert(i < hi ==> w.skip(i - lo)[0] == v@[i as int]);
    i - lo
}

/// `back_run` over the window `v[lo..hi]`.
pub fn back_run_in(v: &Vec<char>, lo: usize, hi: usize, k: Class) -> (n: usize)
    requires
        lo <= hi <= v@.len(),
    ensures
        n == back_run(v@.subrange(lo as int, hi as int), k),
        n <= hi - lo,
{
    let mut i: usize = hi;
    let ghost w = v@.subrange(lo as int, hi as int);
    assert(w.take(w.len() as int) =~= w);
    while i > lo && k.test(v[i - 1])
        invariant
            lo <= i <= hi <= v@.len(),
            w == v@.subrange(lo as int, hi as int),
            back_run(w, k) == (hi - i) + back_run(w.take(i - lo), k),
        decreases i,
    {
        assert(w.take(i - lo).drop_last() =~= w.take(i - 1 - lo));
        assert(w.take(i - lo).last() == v@[i - 1]);
        i -= 1;
    }
    assert(i > lo ==> w.take(i - lo).last() == v@[i - 1]);
    hi - i
}

/// What the scans count is inside the class, and the next character is not.
pub proof fn lemma_run(s: Seq<char>, k: Class)
    ensures
        run(s, k) <= s.len(),
        forall|i: int| 0 <= i < run(s, k) ==> k.holds(#[trigger] s[i]),
        run(s, k) < s.len() ==> !k.holds(s[run(s, k) as int]),
    decreases s.len(),
{
    if s.len() > 0 && k.holds(s[0]) {
        let t = s.drop_first();
        lemma_run(t, k);
        assert forall|i: int| 0 <= i < run(s, k) implies k.holds(#[trigger] s[i]) by {
            if i > 0 {
                assert(s[i] == t[i - 1]);
            }
        }
        if run(s, k) < s.len() {
            assert(s[run(s, k) as int] == t[run(t, k) as int]);
        }
    }
}

pub proof fn lemma_back_run(s: Seq<char>, k: Class)
    ensures
        back_run(s, k) <= s.len(),
        forall|i: int| s.len() - back_run(s, k) <= i < s.len() ==> k.holds(#[trigger] s[i]),
        back_run(s, k) < s.len() ==> !k.holds(s[s.len() - back_run(s, k) - 1]),
    decreases s.len(),
{
    if s.len() > 0 && k.holds(s.last()) {
        let t = s.drop_last();
        lemma_back_run(t, k);
        assert forall|i: int| s.len() - back_run(s, k) <= i < s.len() implies k.holds(
            #[trigger] s[i],
        ) by {
            if i < s.len() - 1 {
                assert(s[i] == t[i]);
            }
        }
    }
}

pub open spec fn trim_front(s: Seq<char>, k: Class) -> Seq<char> {
    s.skip(run(s, k) as int)
}

pub open spec fn trim_back(s: Seq<char>, k: Class) -> Seq<char> {
    s.take(s.len() - back_run(s, k))
}

/// `s` without leading and trailing white space.
pub open spec fn trimmed(s: Seq<char>) -> Seq<char> {
    trim_back(trim_front(s, Class::White), Class::White)
}

/// Nothing but white space.
pub open spec fn is_blank(s: Seq<char>) -> bool {
    forall|i: int| 0 <= i < s.len() ==> is_white(#[trigger] s[i])
}

/// A text is blank exactly when trimming leaves nothing.
pub proof fn lemma_blank(s: Seq<char>)
    ensures
        is_blank(s) <==> trimmed(s).len() == 0,
{
    let k = Class::White;
    let t = trim_front(s, k);
    lemma_run(s, k);
    lemma_back_run(t, k);
    if is_blank(s) {
        if run(s, k) < s.len() {
            assert(is_white(s[run(s, k) as int]));
        }
    } else {
        let j = choose|j: int| 0 <= j < s.len() && !is_white(#[trigger] s[j]);
        assert(j >= run(s, k));
        assert(t[j - run(s, k)] == s[j]);
        assert(!k.holds(t[j - run(s, k)]));
    }
}

/// Trimming what has been trimmed changes nothing.
pub proof fn trimming_settles(s: Seq<char>)
    ensures
        trimmed(trimmed(s)) == trimmed(s),
        is_blank(trimmed(s)) <==> is_blank(s),
{
    let k = Class::White;
    let t = trim_front(s, k);
    let u = trimmed(s);
    lemma_run(s, k);
    lemma_back_run(t, k);
    lemma_blank(s);
    lemma_blank(u);
    if u.len() > 0 {
        assert(u[0] == s[run(s, k) as int]);
        assert(u.last() == t[t.len() - back_run(t, k) - 1]);
        assert(run(u, k) == 0);
        assert(u.skip(0) =~= u);
        assert(back_run(u, k) == 0);
        assert(u.take(u.len() as int) =~= u);
    } else {
        assert(trimmed(u) =~= u);
    }
}

/// Trimming keeps no character that was not there.
pub proof fn trimming_adds_nothing(s: Seq<char>, c: char)
    requires
        trimmed(s).contains(c),
    ensures
        s.contains(c),
{
    let k = Class::White;
    let t = trim_front(s, k);
    lemma_run(s, k);
    lemma_back_run(t, k);
    let i = trimmed(s).index_of(c);
    assert(trimmed(s)[i] == s[i + run(s, k)]);
}

/// Window `v[lo..hi]` narrowed to what trimming leaves.
pub fn trim_window(v: &Vec<char>, lo: usize, hi: usize) -> (r: (usize, usize))
    requires
        lo <= hi <= v@.len(),
    ensures
        lo <= r.0 <= r.1 <= hi,
        v@.subrange(r.0 as int, r.1 as int) == trimmed(v@.subrange(lo as int, hi as int)),
{
    let a: usize = lo + run_in(v, lo, hi, Class::White);
    let b: usize = hi - back_run_in(v, a, hi, Class::White);
    proof {
        let w = v@.subrange(lo as int, hi as int);
        assert(v@.subrange(a as int, hi as int) =~= w.skip(a - lo));
        assert(v@.subrange(a as int, b as int) =~= w.skip(a - lo).take(b - a));
    }
    (a, b)
}

pub fn trim(s: &str) -> (r: String)
    ensures
        r@ == trimmed(s@),
{
    let v = chars_of(s);
    let (a, b) = trim_window(&v, 0, v.len());
    assert(v@.subrange(0, v@.len() as int) =~= v@);
    text_of(&v, a, b)
}

pub fn blank(s: &str) -> (r: bool)
    ensures
        r == is_blank(s@),
{
    let v = chars_of(s);
    let (a, b) = trim_window(&v, 0, v.len());
    proof {
        assert(v@.subrange(0, v@.len() as int) =~= v@);
        lemma_blank(s@);
    }
    a == b
}

/// Whether `s` begins with `prefix`.
pub open spec fn begins(s: Seq<char>, prefix: Seq<char>) -> bool {
    prefix.len() <= s.len() && s.take(prefix.len() as int) == prefix
}

/// Whether `v` holds `w` from `at` on.
pub fn holds_at(v: &Vec<char>, at: usize, w: &Vec<char>) -> (r: bool)
    requires
        at <= v@.len(),
    ensures
        r == begins(v@.skip(at as int), w@),
{
    let n: usize = v.len();
    if n - at < w.len() {
        return false;
    }
    let mut i: usize = 0;
    while i < w.len()
        invariant
            i <= w@.len(),
            n == v@.len(),
            at + w@.len() <= n,
            forall|j: int| 0 <= j < i ==> v@[at + j] == #[trigger] w@[j],
        decreases w@.len() - i,
    {
        if v[at + i] != w[i] {
            assert(v@.skip(at as int).take(w@.len() as int)[i as int] == v@[at + i]);
            return false;
        }
        i += 1;
    }
    assert(v@.skip(at as int).take(w@.len() as int) =~= w@);
    true
}

pub fn starts_with(s: &str, prefix: &str) -> (r: bool)
    ensures
        r == begins(s@, prefix@),
{
    let v = chars_of(s);
    let w = chars_of(prefix);
    assert(v@.skip(0) =~= v@);
    holds_at(&v, 0, &w)
}

/// Whether `needle` occurs in `s`.
pub open spec fn occurs(s: Seq<char>, needle: Seq<char>) -> bool {
    exists|at: int| 0 <= at <= s.len() && #[trigger] begins(s.skip(at), needle)
}

pub fn contains(s: &str, needle: &str) -> (r: bool)
    ensures
        r == occurs(s@, needle@),
{
    let v = chars_of(s);
    let w = chars_of(needle);
    let mut at: usize = 0;
    while at < v.len()
        invariant
            at <= v@.len(),
            v@ == s@,
            w@ == needle@,
            forall|j: int| 0 <= j < at ==> !#[trigger] begins(v@.skip(j), w@),
        decreases v@.len() - at,
    {
        if holds_at(&v, at, &w) {
            return true;
        }
        at += 1;
    }
    holds_at(&v, at, &w)
}

/// Whether `c` occurs in `s`.
pub fn has_char(s: &str, c: char) -> (r: bool)
    ensures
        r == s@.contains(c),
{
    let v = chars_of(s);
    let mut i: usize = 0;
    while i < v.len()
        invariant
            i <= v@.len(),
            v@ == s@,
            forall|j: int| 0 <= j < i ==> #[trigger] v@[j] != c,
        decreases v@.len() - i,
    {
        if v[i] == c {
            assert(s@[i as int] == c);
            return true;
        }
        i += 1;
    }
    false
}

/// The parts with `sep` between neighbours.
pub open spec fn joined(parts: Seq<Seq<char>>, sep: Seq<char>) -> Seq<char>
    decreases parts.len(),
{
    if parts.len() == 0 {
        Seq::empty()
    } else if parts.len() == 1 {
        parts[0]
    } else {
        joined(parts.drop_last(), sep) + sep + parts.last()
    }
}

/// The views of a list of strings.
pub open spec fn strings(list: Seq<String>) -> Seq<Seq<char>> {
    list.map_values(|t: String| t@)
}

/// `parts[lo..hi]` with `sep` between neighbours.
pub fn join_range(parts: &Vec<String>, lo: usize, hi: usize, sep: &str) -> (r: String)
    requires
        lo <= hi <= parts@.len(),
    ensures
        r@ == joined(strings(parts@).subrange(lo as int, hi as int), sep@),
{
    let ghost all = strings(parts@);
    let mut r = String::new();
    let mut i: usize = lo;
    assert(r@ =~= joined(all.subrange(lo as int, lo as int), sep@));
    while i < hi
        invariant
            lo <= i <= hi <= parts@.len(),
            all == strings(parts@),
            r@ == joined(all.subrange(lo as int, i as int), sep@),
        decreases hi - i,
    {
        let ghost next = all.subrange(lo as int, i + 1);
        assert(next.drop_last() =~= all.subrange(lo as int, i as int));
        assert(next.last() == parts@[i as int]@);
        if i > lo {
            r.push_str(sep);
            r.push_str(parts[i].as_str());
        } else {
            r.push_str(parts[i].as_str());
            assert(r@ =~= next[0]);
        }
        i += 1;
    }
    r
}

pub fn join(parts: &Vec<String>, sep: &str) -> (r: String)
    ensures
        r@ == joined(strings(parts@), sep@),
{
    assert(strings(parts@).subrange(0, parts@.len() as int) =~= strings(parts@));
    join_range(parts, 0, parts.len(), sep)
}

/// Whether `list` holds `s`.
pub fn is_member(list: &Vec<String>, s: &str) -> (r: bool)
    ensures
        r == strings(list@).contains(s@),
{
    let mut i: usize = 0;
    while i < list.len()
        invariant
            i <= list@.len(),
            forall|j: int| 0 <= j < i ==> (#[trigger] list@[j])@ != s@,
        decreases list@.len() - i,
    {
        if same(list[i].as_str(), s) {
            assert(strings(list@)[i as int] == s@);
            return true;
        }
        i += 1;
    }
    assert forall|j: int| 0 <= j < list@.len() implies strings(list@)[j] != s@ by {
        assert(list@[j]@ != s@);
    }
    false
}

/// The lowercase form of a text.
pub uninterp spec fn lowercase(s: Seq<char>) -> Seq<char>;

/// The lowercase form of an ASCII character.
pub open spec fn ascii_lower(c: char) -> char {
    if 'A' <= c && c <= 'Z' {
        ((c as u32) + 32) as char
    } else {
        c
    }
}

/// A text with its ASCII letters in lowercase.
pub open spec fn ascii_folded(s: Seq<char>) -> Seq<char> {
    s.map_values(|c: char| ascii_lower(c))
}

/// `s` with its ASCII letters in lowercase.
pub fn fold_ascii(s: &str) -> (r: String)
    ensures
        r@ == ascii_folded(s@),
{
    let v = chars_of(s);
    let mut out = String::new();
    let mut i: usize = 0;
    assert(out@ =~= ascii_folded(v@.take(0)));
    while i < v.len()
        invariant
            i <= v@.len(),
            out@ == ascii_folded(v@.take(i as int)),
        decreases v@.len() - i,
    {
        let c: char = v[i];
        let ghost before = out@;
        if 'A' <= c && c <= 'Z' {
            out.push(((c as u8) + 32) as char);
        } else {
            out.push(c);
        }
        i += 1;
        assert(out@ =~= before.push(ascii_lower(c)));
        assert(out@ =~= ascii_folded(v@.take(i as int)));
    }
    assert(v@.take(i as int) =~= s@);
    out
}

/// Every character is below U+0080.
pub open spec fn all_ascii(s: Seq<char>) -> bool {
    forall|i: int| 0 <= i < s.len() ==> (#[trigger] s[i] as u32) < 0x80
}

/// `str::to_lowercase`: the Unicode lowercase form, a function of the text alone; in an ASCII
/// text it replaces each capital letter by its small letter and keeps every other character.
pub assume_specification[ str::to_lowercase ](s: &str) -> (r: String)
    ensures
        r@ == lowercase(s@),
        all_ascii(s@) ==> r@ == s@.map_values(|c: char| ascii_lower(c)),
;

} // verus!
