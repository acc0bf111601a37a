//! The Markdown that a checklist uses: lines, level-two headings and fenced code blocks.

use vstd::prelude::*;

use crate::text::{
    back_run, back_run_in, blank, chars_of, is_blank, join, joined, lemma_blank, lemma_run, run,
    run_in, same, strings, text_of, trim, trim_back, trim_front, trim_window, trimmed,
    trimming_settles, Class,
};

verus! {

/// Characters that end a line.
pub open spec fn is_break(c: char) -> bool {
    let n = c as u32;
    0xa <= n <= 0xd || 0x1c <= n <= 0x1e || n == 0x85 || n == 0x2028 || n == 0x2029
}

/// Number of characters before the first line end.
pub open spec fn line_length(s: Seq<char>) -> nat
    decreases s.len(),
{
    if s.len() == 0 || is_break(s[0]) {
        0
    } else {
        1 + line_length(s.drop_first())
    }
}

/// Length of the line end that `s` begins with: a carriage return and a line feed count as one.
pub open spec fn break_length(s: Seq<char>) -> nat {
    if s.len() > 1 && s[0] == '\r' && s[1] == '\n' {
        2
    } else {
        1
    }
}

/// The lines of `s`, without their ends. A final line end opens no further line.
pub open spec fn lines_of(s: Seq<char>) -> Seq<Seq<char>>
    decreases s.len(),
{
    if s.len() == 0 {
        Seq::empty()
    } else if line_length(s) >= s.len() {
        seq![s]
    } else {
        let at = line_length(s) as int;
        seq![s.take(at)] + lines_of(s.skip(at + break_length(s.skip(at))))
    }
}

pub proof fn lemma_line_length(s: Seq<char>, n: int)
    requires
        0 <= n <= s.len(),
        forall|i: int| 0 <= i < n ==> !is_break(#[trigger] s[i]),
        n < s.len() ==> is_break(s[n]),
    ensures
        line_length(s) == n,
    decreases n,
{
    if n > 0 {
        assert forall|i: int| 0 <= i < n - 1 implies !is_break(#[trigger] s.drop_first()[i]) by {
            assert(s.drop_first()[i] == s[i + 1]);
        }
        lemma_line_length(s.drop_first(), n - 1);
    }
}

/// Whether `c` ends a line.
fn breaks(c: char) -> (r: bool)
    ensures
        r == is_break(c),
{
    let n: u32 = c as u32;
    (0xa <= n && n <= 0xd) || (0x1c <= n && n <= 0x1e) || n == 0x85 || n == 0x2028 || n == 0x2029
}

/// Splits `s` into its lines.
pub fn py_splitlines(s: &str) -> (r: Vec<String>)
    ensures
        strings(r@) == lines_of(s@),
{
    let v = chars_of(s);
    let mut out: Vec<String> = Vec::new();
    let mut start: usize = 0;
    let mut i: usize = 0;
    assert(v@.skip(0) =~= v@);
    assert(strings(out@) + lines_of(v@) =~= lines_of(v@));
    while i < v.len()
        invariant
            start <= i <= v@.len(),
            strings(out@) + lines_of(v@.skip(start as int)) == lines_of(v@),
            forall|k: int| start <= k < i ==> !is_break(#[trigger] v@[k]),
        decreases v@.len() - i,
    {
        if breaks(v[i]) {
            let ghost rest = v@.skip(start as int);
            let ghost before = out@;
            out.push(text_of(&v, start, i));
            let length: usize = if v[i] == '\r' && i < v.len() - 1 && v[i + 1] == '\n' {
                2
            } else {
                1
            };
            proof {
                let n = i - start;
                assert forall|k: int| 0 <= k < n implies !is_break(#[trigger] rest[k]) by {
                    assert(rest[k] == v@[start + k]);
                }
                assert(rest[n] == v@[i as int]);
                lemma_line_length(rest, n);
                assert(rest.take(n) =~= v@.subrange(start as int, i as int));
                assert(rest.skip(n)[0] == v@[i as int]);
                assert(rest.skip(n).len() > 1 ==> rest.skip(n)[1] == v@[i + 1]);
                assert(break_length(rest.skip(n)) == length);
                assert(rest.skip(n + length) =~= v@.skip(i + length));
                assert(strings(out@) =~= strings(before).push(rest.take(n)));
                assert(strings(out@) + lines_of(v@.skip(i + length)) =~= strings(before)
                    + lines_of(rest));
            }
            i += length;
            start = i;
        } else {
            i += 1;
        }
    }
    proof {
        let rest = v@.skip(start as int);
        assert forall|k: int| 0 <= k < rest.len() implies !is_break(#[trigger] rest[k]) by {
            assert(rest[k] == v@[start + k]);
        }
        lemma_line_length(rest, rest.len() as int);
    }
    if start < v.len() {
        let ghost before = out@;
        let ghost rest = v@.skip(start as int);
        out.push(text_of(&v, start, v.len()));
        proof {
            assert(rest =~= v@.subrange(start as int, v@.len() as int));
            assert(strings(out@) =~= strings(before) + seq![rest]);
        }
    } else {
        assert(strings(out@) =~= strings(out@) + lines_of(v@.skip(start as int)));
    }
    out
}

/// No character of a line ends a line.
pub open spec fn unended(line: Seq<char>) -> bool {
    forall|i: int| 0 <= i < line.len() ==> !is_break(#[trigger] line[i])
}

proof fn lemma_line(s: Seq<char>)
    ensures
        line_length(s) <= s.len(),
        unended(s.take(line_length(s) as int)),
    decreases s.len(),
{
    if s.len() > 0 && !is_break(s[0]) {
        lemma_line(s.drop_first());
        let n = line_length(s) as int;
        assert forall|i: int| 0 <= i < n implies !is_break(#[trigger] s.take(n)[i]) by {
            if i > 0 {
                assert(s.drop_first().take(n - 1)[i - 1] == s[i]);
            }
        }
    }
}

/// The lines of a text hold no line end.
pub proof fn lines_hold_no_break(s: Seq<char>)
    ensures
        forall|i: int| 0 <= i < lines_of(s).len() ==> unended(#[trigger] lines_of(s)[i]),
    decreases s.len(),
{
    lemma_line(s);
    if s.len() > 0 {
        if line_length(s) >= s.len() {
            assert(s.take(line_length(s) as int) =~= s);
        } else {
            let at = line_length(s) as int;
            let rest = s.skip(at + break_length(s.skip(at)));
            lines_hold_no_break(rest);
            assert forall|i: int| 0 <= i < lines_of(s).len() implies unended(
                #[trigger] lines_of(s)[i],
            ) by {
                if i > 0 {
                    assert(lines_of(s)[i] == lines_of(rest)[i - 1]);
                }
            }
        }
    }
}

proof fn lemma_joined_front(lines: Seq<Seq<char>>, sep: Seq<char>)
    requires
        lines.len() > 1,
    ensures
        joined(lines, sep) == lines[0] + sep + joined(lines.skip(1), sep),
    decreases lines.len(),
{
    let rest = lines.skip(1);
    if lines.len() == 2 {
        assert(joined(lines.drop_last(), sep) == lines[0]);
        assert(joined(rest, sep) == lines[1]);
    } else {
        lemma_joined_front(lines.drop_last(), sep);
        assert(lines.drop_last().skip(1) =~= rest.drop_last());
        assert(joined(lines, sep) =~= lines[0] + sep + joined(rest, sep));
    }
}

/// Lines that are joined by line feeds split into the same lines again, unless the last is empty.
pub proof fn splitting_undoes_joining(lines: Seq<Seq<char>>)
    requires
        lines.len() > 0,
        lines.last().len() > 0,
        forall|i: int| 0 <= i < lines.len() ==> unended(#[trigger] lines[i]),
    ensures
        lines_of(joined(lines, "\n"@)) == lines,
    decreases lines.len(),
{
    let text = joined(lines, "\n"@);
    let first = lines[0];
    assert(unended(first));
    reveal_strlit("\n");
    if lines.len() == 1 {
        lemma_line_length(text, text.len() as int);
        assert(lines_of(text) =~= lines);
    } else {
        let rest = lines.skip(1);
        lemma_joined_front(lines, "\n"@);
        splitting_undoes_joining(rest);
        let n = first.len() as int;
        assert(text[n] == '\n');
        lemma_line_length(text, n);
        assert(text.take(n) =~= first);
        assert(break_length(text.skip(n)) == 1);
        assert(text.skip(n + 1) =~= joined(rest, "\n"@));
        assert(lines_of(text) =~= lines);
    }
}

/// Number of leading spaces.
pub open spec fn indent_of(line: Seq<char>) -> nat {
    run(line, Class::Only(' '))
}

/// Number of leading spaces.
pub fn leading_spaces(line: &str) -> (n: usize)
    ensures
        n == indent_of(line@),
{
    let v = chars_of(line);
    assert(v@.subrange(0, v@.len() as int) =~= line@);
    run_in(&v, 0, v.len(), Class::Only(' '))
}

/// A heading's text without its closing run of `#`, which a blank must set off.
pub open spec fn unclosed(content: Seq<char>) -> Seq<char> {
    let cut = content.len() - back_run(content, Class::Only('#'));
    if cut < content.len() && (cut == 0 || Class::Blank.holds(content[cut - 1])) {
        trim_back(content.take(cut), Class::Blank)
    } else {
        content
    }
}

/// Level and text of an ATX heading.
pub open spec fn atx(line: Seq<char>) -> Option<(int, Seq<char>)> {
    let rest = line.skip(indent_of(line) as int);
    let level = run(rest, Class::Only('#'));
    let after = rest.skip(level as int);
    if indent_of(line) > 3 || level == 0 || level > 6 || (after.len() > 0 && !Class::Blank.holds(
        after[0],
    )) {
        None
    } else {
        Some(
            (
                level as int,
                trimmed(unclosed(trim_back(trim_front(after, Class::Blank), Class::Blank))),
            ),
        )
    }
}

/// A heading as a value of views.
pub open spec fn heading_view(h: Option<(usize, String)>) -> Option<(int, Seq<char>)> {
    match h {
        Some((level, text)) => Some((level as int, text@)),
        None => None,
    }
}

/// Where the heading text `v[lo..hi]` ends without its closing run of `#`.
fn open_end(v: &Vec<char>, lo: usize, hi: usize) -> (r: usize)
    requires
        lo <= hi <= v@.len(),
    ensures
        lo <= r <= hi,
        v@.subrange(lo as int, r as int) == unclosed(v@.subrange(lo as int, hi as int)),
{
    let ghost content = v@.subrange(lo as int, hi as int);
    let cut: usize = hi - back_run_in(v, lo, hi, Class::Only('#'));
    assert(cut > lo ==> content[cut - lo - 1] == v@[cut - 1]);
    if cut < hi && (cut == lo || Class::Blank.test(v[cut - 1])) {
        assert(v@.subrange(lo as int, cut as int) =~= content.take(cut - lo));
        let end: usize = cut - back_run_in(v, lo, cut, Class::Blank);
        assert(v@.subrange(lo as int, end as int) =~= unclosed(content));
        end
    } else {
        hi
    }
}

/// Level and text, where `line` is an ATX heading.
pub fn parse_atx(line: &str) -> (r: Option<(usize, String)>)
    ensures
        heading_view(r) == atx(line@),
{
    let v = chars_of(line);
    let n: usize = v.len();
    assert(v@.subrange(0, n as int) =~= line@);
    let indent: usize = run_in(&v, 0, n, Class::Only(' '));
    if indent > 3 {
        return None;
    }
    let ghost rest = line@.skip(indent as int);
    assert(v@.subrange(indent as int, n as int) =~= rest);
    let level: usize = run_in(&v, indent, n, Class::Only('#'));
    if level == 0 || level > 6 {
        return None;
    }
    let at: usize = indent + level;
    let ghost after = rest.skip(level as int);
    assert(v@.subrange(at as int, n as int) =~= after);
    if at < n {
        assert(after[0] == v@[at as int]);
        if !Class::Blank.test(v[at]) {
            return None;
        }
    }
    let lo: usize = at + run_in(&v, at, n, Class::Blank);
    let ghost front = trim_front(after, Class::Blank);
    assert(v@.subrange(lo as int, n as int) =~= front);
    let mut hi: usize = n - back_run_in(&v, lo, n, Class::Blank);
    let ghost content = trim_back(front, Class::Blank);
    assert(v@.subrange(lo as int, hi as int) =~= content);
    hi = open_end(&v, lo, hi);
    let (a, b) = trim_window(&v, lo, hi);
    Some((level, text_of(&v, a, b)))
}

/// Character, length and info string of an opening code fence.
pub open spec fn fence_opening(line: Seq<char>) -> Option<(char, nat, Seq<char>)> {
    let rest = line.skip(indent_of(line) as int);
    if indent_of(line) > 3 || rest.len() == 0 || (rest[0] != '`' && rest[0] != '~') {
        None
    } else {
        let length = run(rest, Class::Only(rest[0]));
        let info = rest.skip(length as int);
        if length < 3 || (rest[0] == '`' && info.contains('`')) {
            None
        } else {
            Some((rest[0], length, trimmed(info)))
        }
    }
}

/// An opening fence as a value of views.
pub open spec fn opening_view(f: Option<(char, usize, String)>) -> Option<(char, nat, Seq<char>)> {
    match f {
        Some((c, n, info)) => Some((c, n as nat, info@)),
        None => None,
    }
}

/// Whether `c` occurs in `v[lo..]`.
fn has_from(v: &Vec<char>, lo: usize, c: char) -> (r: bool)
    requires
        lo <= v@.len(),
    ensures
        r == v@.skip(lo as int).contains(c),
{
    let ghost rest = v@.skip(lo as int);
    let mut i: usize = lo;
    while i < v.len()
        invariant
            lo <= i <= v@.len(),
            rest == v@.skip(lo as int),
            forall|k: int| 0 <= k < i - lo ==> #[trigger] rest[k] != c,
        decreases v@.len() - i,
    {
        assert(rest[i - lo] == v@[i as int]);
        if v[i] == c {
            return true;
        }
        i += 1;
    }
    false
}

/// Character, length and info string, where `line` opens a code fence.
pub fn parse_fence_open(line: &str) -> (r: Option<(char, usize, String)>)
    ensures
        opening_view(r) == fence_opening(line@),
{
    let v = chars_of(line);
    let n: usize = v.len();
    assert(v@.subrange(0, n as int) =~= line@);
    let indent: usize = run_in(&v, 0, n, Class::Only(' '));
    if indent > 3 || indent == n {
        return None;
    }
    let ghost rest = line@.skip(indent as int);
    assert(v@.subrange(indent as int, n as int) =~= rest);
    let first: char = v[indent];
    assert(first == rest[0]);
    if first != '`' && first != '~' {
        return None;
    }
    let length: usize = run_in(&v, indent, n, Class::Only(first));
    if length < 3 {
        return None;
    }
    let at: usize = indent + length;
    let ghost info = rest.skip(length as int);
    proof {
        assert(v@.subrange(at as int, n as int) =~= info);
        assert(v@.skip(at as int) =~= info);
    }
    if first == '`' && has_from(&v, at, '`') {
        return None;
    }
    let (a, b) = trim_window(&v, at, n);
    Some((first, length, text_of(&v, a, b)))
}

/// Whether `line` closes a fence of at least `length` times `c`.
pub open spec fn closes_fence(line: Seq<char>, c: char, length: nat) -> bool {
    let rest = line.skip(indent_of(line) as int);
    &&& indent_of(line) <= 3
    &&& rest.len() > 0
    &&& rest[0] == c
    &&& run(rest, Class::Only(c)) >= length
    &&& is_blank(rest.skip(run(rest, Class::Only(c)) as int))
}

/// Whether `line` closes a fence of at least `flen` times `fchar`.
pub fn is_closing_fence(line: &str, fchar: char, flen: usize) -> (r: bool)
    ensures
        r == closes_fence(line@, fchar, flen as nat),
{
    let v = chars_of(line);
    let n: usize = v.len();
    assert(v@.subrange(0, n as int) =~= line@);
    let indent: usize = run_in(&v, 0, n, Class::Only(' '));
    if indent > 3 || indent == n || v[indent] != fchar {
        return false;
    }
    let ghost rest = line@.skip(indent as int);
    assert(v@.subrange(indent as int, n as int) =~= rest);
    let count: usize = run_in(&v, indent, n, Class::Only(fchar));
    if count < flen {
        return false;
    }
    let at: usize = indent + count;
    let (a, b) = trim_window(&v, at, n);
    proof {
        assert(v@.subrange(at as int, n as int) =~= rest.skip(count as int));
        lemma_blank(rest.skip(count as int));
    }
    a == b
}

/// Whether `s` holds only `c` and blanks.
pub open spec fn only_of(s: Seq<char>, c: char) -> bool {
    forall|i: int| 0 <= i < s.len() ==> #[trigger] s[i] == c || Class::Blank.holds(s[i])
}

/// How often `c` occurs in `s`.
pub open spec fn tally(s: Seq<char>, c: char) -> nat
    decreases s.len(),
{
    if s.len() == 0 {
        0
    } else if s.last() == c {
        tally(s.drop_last(), c) + 1
    } else {
        tally(s.drop_last(), c)
    }
}

/// Heading level that a setext underline gives: `=` makes level one, `-` level two.
pub open spec fn setext_level(line: Seq<char>) -> Option<int> {
    let rest = line.skip(indent_of(line) as int);
    if indent_of(line) > 3 || is_blank(rest) {
        None
    } else if only_of(rest, '=') {
        Some(1)
    } else if only_of(rest, '-') {
        Some(2)
    } else {
        None
    }
}

/// Whether `v[lo..]` holds only `c` and blanks.
fn holds_only(v: &Vec<char>, lo: usize, c: char) -> (r: bool)
    requires
        lo <= v@.len(),
    ensures
        r == only_of(v@.skip(lo as int), c),
{
    let ghost rest = v@.skip(lo as int);
    let mut i: usize = lo;
    while i < v.len()
        invariant
            lo <= i <= v@.len(),
            rest == v@.skip(lo as int),
            forall|k: int|
                0 <= k < i - lo ==> #[trigger] rest[k] == c || Class::Blank.holds(rest[k]),
        decreases v@.len() - i,
    {
        assert(rest[i - lo] == v@[i as int]);
        if v[i] != c && !Class::Blank.test(v[i]) {
            return false;
        }
        i += 1;
    }
    true
}

/// How often `c` occurs in `v[lo..]`.
fn tally_from(v: &Vec<char>, lo: usize, c: char) -> (n: usize)
    requires
        lo <= v@.len(),
    ensures
        n == tally(v@.skip(lo as int), c),
{
    let ghost rest = v@.skip(lo as int);
    let mut i: usize = lo;
    let mut n: usize = 0;
    assert(rest.take(0) =~= Seq::empty());
    while i < v.len()
        invariant
            lo <= i <= v@.len(),
            rest == v@.skip(lo as int),
            n <= i - lo,
            n == tally(rest.take(i - lo), c),
        decreases v@.len() - i,
    {
        proof {
            assert(rest.take(i + 1 - lo).drop_last() =~= rest.take(i - lo));
            assert(rest.take(i + 1 - lo).last() == v@[i as int]);
        }
        if v[i] == c {
            n += 1;
        }
        i += 1;
    }
    assert(rest.take(rest.len() as int) =~= rest);
    n
}

/// Heading level, where `line` is a setext underline.
pub fn parse_setext_underline(line: &str) -> (r: Option<usize>)
    ensures
        match r {
            Some(level) => setext_level(line@) == Some(level as int),
            None => setext_level(line@) is None,
        },
{
    let v = chars_of(line);
    let n: usize = v.len();
    assert(v@.subrange(0, n as int) =~= line@);
    let indent: usize = run_in(&v, 0, n, Class::Only(' '));
    if indent > 3 {
        return None;
    }
    let ghost rest = line@.skip(indent as int);
    assert(v@.subrange(indent as int, n as int) =~= rest);
    let (a, b) = trim_window(&v, indent, n);
    proof {
        lemma_blank(rest);
    }
    if a == b {
        return None;
    }
    if holds_only(&v, indent, '=') {
        Some(1)
    } else if holds_only(&v, indent, '-') {
        Some(2)
    } else {
        None
    }
}

/// Whether `line` is a thematic break of the character `c`.
pub open spec fn break_of(rest: Seq<char>, c: char) -> bool {
    only_of(rest, c) && tally(rest, c) >= 3
}

/// Whether `line` is a thematic break.
pub open spec fn thematic_break(line: Seq<char>) -> bool {
    let rest = line.skip(indent_of(line) as int);
    &&& indent_of(line) <= 3
    &&& break_of(rest, '*') || break_of(rest, '-') || break_of(rest, '_')
}

/// Whether `line` is a thematic break: three or more of one of `*`, `-` and `_`, and blanks.
pub fn is_thematic_break(line: &str) -> (r: bool)
    ensures
        r == thematic_break(line@),
{
    let v = chars_of(line);
    let n: usize = v.len();
    assert(v@.subrange(0, n as int) =~= line@);
    let indent: usize = run_in(&v, 0, n, Class::Only(' '));
    if indent > 3 {
        return false;
    }
    (holds_only(&v, indent, '*') && tally_from(&v, indent, '*') >= 3) || (holds_only(
        &v,
        indent,
        '-',
    ) && tally_from(&v, indent, '-') >= 3) || (holds_only(&v, indent, '_') && tally_from(
        &v,
        indent,
        '_',
    ) >= 3)
}

/// A level-two heading.
#[derive(Debug)]
pub struct ScannedHeading {
    /// Line on which the heading starts, counted from zero.
    pub line: usize,
    pub key: String,
}

/// What a [`ScannedHeading`] stands for.
pub struct HeadingV {
    pub line: int,
    pub key: Seq<char>,
}

impl View for ScannedHeading {
    type V = HeadingV;

    open spec fn view(&self) -> HeadingV {
        HeadingV { line: self.line as int, key: self.key@ }
    }
}

/// A fenced code block.
#[derive(Debug)]
pub struct ScannedFence {
    /// Line of the opening fence, counted from zero.
    pub open: usize,
    /// Line after the closing fence.
    pub end: usize,
    pub info: String,
    pub content: String,
}

/// What a [`ScannedFence`] stands for.
pub struct FenceV {
    pub open: int,
    pub end: int,
    pub info: Seq<char>,
    pub content: Seq<char>,
}

impl View for ScannedFence {
    type V = FenceV;

    open spec fn view(&self) -> FenceV {
        FenceV {
            open: self.open as int,
            end: self.end as int,
            info: self.info@,
            content: self.content@,
        }
    }
}

/// The headings and code blocks of a text.
#[derive(Debug)]
pub struct Scan {
    pub headings: Vec<ScannedHeading>,
    pub fences: Vec<ScannedFence>,
}

/// The views of a list of headings.
pub open spec fn headings_view(list: Seq<ScannedHeading>) -> Seq<HeadingV> {
    list.map_values(|h: ScannedHeading| h@)
}

/// The views of a list of code blocks.
pub open spec fn fences_view(list: Seq<ScannedFence>) -> Seq<FenceV> {
    list.map_values(|f: ScannedFence| f@)
}

/// How far a scan has come.
pub struct ScanV {
    pub headings: Seq<HeadingV>,
    pub fences: Seq<FenceV>,
    /// Character, length and line of a fence that is open.
    pub fence: Option<(char, nat, int)>,
    /// First line of a paragraph that is open, and its trimmed lines.
    pub para: Option<(int, Seq<Seq<char>>)>,
}

/// `line` with at most `indent` leading spaces taken off.
pub open spec fn dedented(line: Seq<char>, indent: nat) -> Seq<char> {
    line.skip(
        if indent_of(line) < indent {
            indent_of(line) as int
        } else {
            indent as int
        },
    )
}

/// The lines `lo..hi`, each with at most `indent` leading spaces taken off.
pub open spec fn dedented_range(
    lines: Seq<Seq<char>>,
    lo: int,
    hi: int,
    indent: nat,
) -> Seq<Seq<char>> {
    lines.subrange(lo, hi).map_values(|line: Seq<char>| dedented(line, indent))
}

/// The code block that opens on line `open` and holds the lines up to `close`.
pub open spec fn fence_between(lines: Seq<Seq<char>>, open: int, close: int, end: int) -> FenceV {
    FenceV {
        open,
        end,
        info: match fence_opening(lines[open]) {
            Some((_, _, info)) => info,
            None => Seq::empty(),
        },
        content: joined(
            dedented_range(lines, open + 1, close, indent_of(lines[open])),
            "\n"@,
        ),
    }
}

/// The scan after one more line.
pub open spec fn scan_line(lines: Seq<Seq<char>>, st: ScanV, i: int) -> ScanV {
    let line = lines[i];
    if let Some((c, length, open)) = st.fence {
        if closes_fence(line, c, length) {
            ScanV {
                fences: st.fences.push(fence_between(lines, open, i, i + 1)),
                fence: None,
                para: None,
                ..st
            }
        } else {
            st
        }
    } else if let Some((c, length, _)) = fence_opening(line) {
        ScanV { fence: Some((c, length, i)), para: None, ..st }
    } else if let Some((level, key)) = atx(line) {
        ScanV {
            headings: if level == 2 {
                st.headings.push(HeadingV { line: i, key })
            } else {
                st.headings
            },
            para: None,
            ..st
        }
    } else if is_blank(line) {
        ScanV { para: None, ..st }
    } else if let Some((start, words)) = st.para {
        if let Some(level) = setext_level(line) {
            ScanV {
                headings: if level == 2 {
                    st.headings.push(HeadingV { line: start, key: trimmed(joined(words, " "@)) })
                } else {
                    st.headings
                },
                para: None,
                ..st
            }
        } else if thematic_break(line) {
            ScanV { para: None, ..st }
        } else {
            ScanV { para: Some((start, words.push(trimmed(line)))), ..st }
        }
    } else if thematic_break(line) {
        st
    } else {
        ScanV { para: Some((i, seq![trimmed(line)])), ..st }
    }
}

/// The scan after the first `n` lines.
pub open spec fn scan_upto(lines: Seq<Seq<char>>, n: int) -> ScanV
    decreases n,
{
    if n <= 0 {
        ScanV { headings: Seq::empty(), fences: Seq::empty(), fence: None, para: None }
    } else {
        scan_line(lines, scan_upto(lines, n - 1), n - 1)
    }
}

/// The level-two headings of a text.
pub open spec fn headings_of(lines: Seq<Seq<char>>) -> Seq<HeadingV> {
    scan_upto(lines, lines.len() as int).headings
}

/// The code blocks of a text; one that is not closed runs to the end.
pub open spec fn fences_of(lines: Seq<Seq<char>>) -> Seq<FenceV> {
    let n = lines.len() as int;
    let st = scan_upto(lines, n);
    match st.fence {
        Some((_, _, open)) => st.fences.push(fence_between(lines, open, n, n)),
        None => st.fences,
    }
}

/// The running state of a scan.
struct Scanner {
    headings: Vec<ScannedHeading>,
    fences: Vec<ScannedFence>,
    fence: Option<(char, usize, usize)>,
    para: Option<(usize, Vec<String>)>,
}

impl View for Scanner {
    type V = ScanV;

    closed spec fn view(&self) -> ScanV {
        ScanV {
            headings: headings_view(self.headings@),
            fences: fences_view(self.fences@),
            fence: match self.fence {
                Some((c, length, open)) => Some((c, length as nat, open as int)),
                None => None,
            },
            para: match self.para {
                Some((start, words)) => Some((start as int, strings(words@))),
                None => None,
            },
        }
    }
}

/// Reads the code block that opens on line `open` and holds the lines up to `close`.
fn read_fence(lines: &Vec<String>, open: usize, close: usize, end: usize) -> (r: ScannedFence)
    requires
        open < close <= lines@.len(),
    ensures
        r@ == fence_between(strings(lines@), open as int, close as int, end as int),
{
    let ghost all = strings(lines@);
    let indent: usize = leading_spaces(lines[open].as_str());
    let mut parts: Vec<String> = Vec::new();
    let mut i: usize = open + 1;
    while i < close
        invariant
            open < i <= close <= lines@.len(),
            parts@.len() == i - open - 1,
            forall|k: int|
                0 <= k < parts@.len() ==> (#[trigger] parts@[k])@ == dedented(
                    lines@[open + 1 + k]@,
                    indent as nat,
                ),
        decreases close - i,
    {
        let own: usize = leading_spaces(lines[i].as_str());
        let v = chars_of(lines[i].as_str());
        let strip: usize = if own < indent {
            own
        } else {
            indent
        };
        proof {
            lemma_run(lines@[i as int]@, Class::Only(' '));
            assert(v@.subrange(strip as int, v@.len() as int) =~= v@.skip(strip as int));
        }
        parts.push(text_of(&v, strip, v.len()));
        i += 1;
    }
    proof {
        assert(all[open as int] == lines@[open as int]@);
        assert(strings(parts@) =~= dedented_range(
            all,
            open + 1,
            close as int,
            indent_of(all[open as int]),
        ));
        reveal_strlit("");
        assert(Seq::<char>::empty() =~= ""@);
    }
    let content = join(&parts, "\n");
    let info = match parse_fence_open(lines[open].as_str()) {
        Some((_, _, info)) => info,
        None => "".to_string(),
    };
    ScannedFence { open, end, info, content }
}

impl Scanner {
    /// Takes line `i` in.
    fn take(&mut self, lines: &Vec<String>, i: usize)
        requires
            i < lines@.len(),
            old(self)@.fence matches Some((_, _, open)) ==> open < i,
        ensures
            final(self)@ == scan_line(strings(lines@), old(self)@, i as int),
    {
        let line = lines[i].as_str();
        let count: usize = lines.len();
        assert(i < count);
        let ghost before = *self;
        let ghost all = strings(lines@);
        assert(all[i as int] == line@);
        if let Some((c, length, open)) = self.fence {
            if is_closing_fence(line, c, length) {
                let f = read_fence(lines, open, i, i + 1);
                self.fences.push(f);
                self.fence = None;
                self.para = None;
                assert(fences_view(self.fences@) =~= fences_view(before.fences@).push(f@));
            }
            return;
        }
        if let Some((c, length, _info)) = parse_fence_open(line) {
            self.fence = Some((c, length, i));
            self.para = None;
            return;
        }
        if let Some((level, key)) = parse_atx(line) {
            if level == 2 {
                let h = ScannedHeading { line: i, key };
                let ghost hv = h@;
                self.headings.push(h);
                assert(headings_view(self.headings@) =~= headings_view(before.headings@).push(hv));
            }
            self.para = None;
            return;
        }
        if blank(line) {
            self.para = None;
            return;
        }
        let mut para: Option<(usize, Vec<String>)> = None;
        std::mem::swap(&mut para, &mut self.para);
        match para {
            Some((start, words)) => {
                if let Some(level) = parse_setext_underline(line) {
                    if level == 2 {
                        let key = trim(join(&words, " ").as_str());
                        let h = ScannedHeading { line: start, key };
                        let ghost hv = h@;
                        self.headings.push(h);
                        assert(headings_view(self.headings@) =~= headings_view(
                            before.headings@,
                        ).push(hv));
                    }
                } else if !is_thematic_break(line) {
                    let mut words = words;
                    let ghost old_words = words@;
                    let word = trim(line);
                    let ghost wv = word@;
                    words.push(word);
                    assert(strings(words@) =~= strings(old_words).push(wv));
                    self.para = Some((start, words));
                }
            },
            None => {
                if !is_thematic_break(line) {
                    let mut words: Vec<String> = Vec::new();
                    let word = trim(line);
                    let ghost wv = word@;
                    words.push(word);
                    assert(strings(words@) =~= seq![wv]);
                    self.para = Some((i, words));
                }
            },
        }
    }
}

/// What every scan keeps: headings rise, no heading lies inside a code block, and what is still
/// open lies behind all that is closed.
pub open spec fn scan_inv(st: ScanV, n: int) -> bool {
    &&& forall|a: int, b: int|
        0 <= a < b < st.headings.len() ==> (#[trigger] st.headings[a]).line < (
        #[trigger] st.headings[b]).line
    &&& forall|a: int| 0 <= a < st.headings.len() ==> 0 <= (#[trigger] st.headings[a]).line < n
    &&& forall|k: int|
        0 <= k < st.fences.len() ==> 0 <= (#[trigger] st.fences[k]).open < st.fences[k].end <= n
    &&& forall|a: int, k: int|
        0 <= a < st.headings.len() && 0 <= k < st.fences.len() ==> (#[trigger] st.headings[a]).line
            < (#[trigger] st.fences[k]).open || st.headings[a].line >= st.fences[k].end
    &&& st.fence matches Some((_, _, open)) ==> {
        &&& 0 <= open < n
        &&& forall|a: int| 0 <= a < st.headings.len() ==> (#[trigger] st.headings[a]).line < open
        &&& forall|k: int| 0 <= k < st.fences.len() ==> (#[trigger] st.fences[k]).end <= open
    }
    &&& st.para matches Some((start, _)) ==> {
        &&& 0 <= start < n
        &&& st.fence is None
        &&& forall|a: int| 0 <= a < st.headings.len() ==> (#[trigger] st.headings[a]).line < start
        &&& forall|k: int| 0 <= k < st.fences.len() ==> (#[trigger] st.fences[k]).end <= start
    }
}

proof fn lemma_scan(lines: Seq<Seq<char>>, n: int)
    requires
        0 <= n <= lines.len(),
    ensures
        scan_inv(scan_upto(lines, n), n),
    decreases n,
{
    if n > 0 {
        lemma_scan(lines, n - 1);
    }
}

/// Headings rise and their keys are trimmed; code blocks follow one another without overlapping,
/// and no heading lies inside one.
pub proof fn headings_lie_outside_fences(lines: Seq<Seq<char>>)
    ensures
        forall|a: int, b: int|
            0 <= a < b < headings_of(lines).len() ==> (#[trigger] headings_of(lines)[a]).line < (
            #[trigger] headings_of(lines)[b]).line,
        forall|a: int|
            0 <= a < headings_of(lines).len() ==> 0 <= (#[trigger] headings_of(lines)[a]).line
                < lines.len(),
        forall|k: int|
            0 <= k < fences_of(lines).len() ==> 0 <= (#[trigger] fences_of(lines)[k]).open
                < fences_of(lines)[k].end <= lines.len(),
        forall|a: int, k: int|
            0 <= a < headings_of(lines).len() && 0 <= k < fences_of(lines).len() ==> (
            #[trigger] headings_of(lines)[a]).line < (#[trigger] fences_of(lines)[k]).open
                || headings_of(lines)[a].line >= fences_of(lines)[k].end,
        forall|k: int, l: int|
            0 <= k < l < fences_of(lines).len() ==> (#[trigger] fences_of(lines)[k]).end <= (
            #[trigger] fences_of(lines)[l]).open,
        forall|a: int|
            0 <= a < headings_of(lines).len() ==> trimmed(
                (#[trigger] headings_of(lines)[a]).key,
            ) == headings_of(lines)[a].key,
{
    lemma_scan(lines, lines.len() as int);
    lemma_scan_order(lines, lines.len() as int);
}

proof fn lemma_scan_order(lines: Seq<Seq<char>>, n: int)
    requires
        0 <= n <= lines.len(),
    ensures
        ({
            let st = scan_upto(lines, n);
            &&& forall|k: int| 0 <= k < st.fences.len() ==> (#[trigger] st.fences[k]).end <= n
            &&& st.fence matches Some((_, _, open)) ==> open < n && forall|k: int|
                0 <= k < st.fences.len() ==> (#[trigger] st.fences[k]).end <= open
            &&& forall|k: int, l: int|
                0 <= k < l < st.fences.len() ==> (#[trigger] st.fences[k]).end <= (
                #[trigger] st.fences[l]).open
            &&& forall|a: int|
                0 <= a < st.headings.len() ==> trimmed((#[trigger] st.headings[a]).key)
                    == st.headings[a].key
        }),
    decreases n,
{
    if n > 0 {
        lemma_scan_order(lines, n - 1);
        let st = scan_upto(lines, n - 1);
        let line = lines[n - 1];
        let rest = line.skip(indent_of(line) as int);
        let after = rest.skip(run(rest, Class::Only('#')) as int);
        trimming_settles(unclosed(trim_back(trim_front(after, Class::Blank), Class::Blank)));
        if let Some((start, words)) = st.para {
            trimming_settles(joined(words, " "@));
        }
    }
}

/// Collects the level-two headings and the code blocks.
pub fn scan_markdown(lines: &Vec<String>) -> (r: Scan)
    ensures
        headings_view(r.headings@) == headings_of(strings(lines@)),
        fences_view(r.fences@) == fences_of(strings(lines@)),
{
    let ghost all = strings(lines@);
    let mut scanner = Scanner {
        headings: Vec::new(),
        fences: Vec::new(),
        fence: None,
        para: None,
    };
    proof {
        assert(headings_view(scanner.headings@) =~= Seq::empty());
        assert(fences_view(scanner.fences@) =~= Seq::empty());
    }
    let n: usize = lines.len();
    let mut i: usize = 0;
    while i < n
        invariant
            i <= n == lines@.len(),
            all == strings(lines@),
            scanner@ == scan_upto(all, i as int),
        decreases n - i,
    {
        proof {
            lemma_scan(all, i as int);
        }
        scanner.take(lines, i);
        i += 1;
    }
    proof {
        lemma_scan(all, n as int);
    }
    let Scanner { headings, fences, fence, para: _ } = scanner;
    let mut fences = fences;
    if let Some((_, _, open)) = fence {
        let ghost before = fences@;
        let f = read_fence(lines, open, n, n);
        let ghost fv = f@;
        fences.push(f);
        assert(fences_view(fences@) =~= fences_view(before).push(fv));
    }
    Scan { headings, fences }
}

} // verus!
