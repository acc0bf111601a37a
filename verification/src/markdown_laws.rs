//! Which lines of a text are fences and which are headings, in terms of the lines themselves.

use vstd::prelude::*;

use crate::markdown::{
    atx, break_length, break_of, closes_fence, dedented, dedented_range, fence_between,
    fence_opening, fences_of, headings_of, indent_of, is_break, lemma_line_length, lines_of,
    only_of, scan_line, scan_upto, setext_level, tally, thematic_break, unclosed, FenceV, HeadingV,
    ScanV,
};
use crate::text::{
    back_run, is_blank, is_white, joined, lemma_back_run, lemma_run, run, trim_back, trim_front,
    trimmed, Class,
};

verus! {

// ---- lines ----

/// `n` times the same character.
pub open spec fn repeated(c: char, n: int) -> Seq<char> {
    Seq::new(n as nat, |i: int| c)
}

/// Whether a line opens a fence: at most three spaces, at least three backticks or tildes, and the
/// text behind them, which has no backtick where the fence is one of backticks.
pub open spec fn opens(line: Seq<char>, indent: int, c: char, n: int, rest: Seq<char>) -> bool {
    &&& 0 <= indent <= 3
    &&& c == '`' || c == '~'
    &&& n >= 3
    &&& line == repeated(' ', indent) + repeated(c, n) + rest
    &&& rest.len() > 0 ==> rest[0] != c
    &&& c == '`' ==> !rest.contains('`')
}

/// Whether a line closes a fence of at least `length` characters `c`: at most three spaces, as many
/// of the characters, and white space behind them.
pub open spec fn closes(line: Seq<char>, indent: int, c: char, n: int, rest: Seq<char>) -> bool {
    &&& 0 <= indent <= 3
    &&& n >= 1
    &&& line == repeated(' ', indent) + repeated(c, n) + rest
    &&& is_blank(rest)
}

proof fn lemma_split(line: Seq<char>, c: char)
    requires
        c != ' ',
    ensures
        ({
            let k = indent_of(line) as int;
            let rest = line.skip(k);
            let n = run(rest, Class::Only(c)) as int;
            &&& 0 <= k <= line.len()
            &&& 0 <= n <= rest.len()
            &&& line == repeated(' ', k) + repeated(c, n) + rest.skip(n)
            &&& rest.skip(n).len() > 0 ==> rest.skip(n)[0] != c
            &&& n == 0 && rest.len() > 0 ==> rest[0] != c && rest[0] != ' '
            &&& rest.len() > 0 ==> rest[0] != ' '
        }),
{
    let k = indent_of(line) as int;
    lemma_run(line, Class::Only(' '));
    let rest = line.skip(k);
    lemma_run(rest, Class::Only(c));
    let n = run(rest, Class::Only(c)) as int;
    let made = repeated(' ', k) + repeated(c, n) + rest.skip(n);
    assert(made.len() == line.len());
    assert forall|i: int| 0 <= i < line.len() implies made[i] == line[i] by {
        if i < k {
            assert(Class::Only(' ').holds(line[i]));
        } else if i < k + n {
            assert(Class::Only(c).holds(rest[i - k]));
            assert(rest[i - k] == line[i]);
        } else {
            assert(rest.skip(n)[i - k - n] == line[i]);
        }
    }
    assert(made =~= line);
    if n < rest.len() {
        assert(rest.skip(n)[0] == rest[n]);
    }
    if k < line.len() {
        assert(rest[0] == line[k]);
    }
}

/// Where a line is made of spaces, a run of another character and a rest, that is how it is split.
proof fn lemma_split_is(line: Seq<char>, indent: int, c: char, n: int, rest: Seq<char>)
    requires
        c != ' ',
        indent >= 0,
        n >= 1,
        line == repeated(' ', indent) + repeated(c, n) + rest,
        rest.len() > 0 ==> rest[0] != c,
    ensures
        indent_of(line) == indent,
        run(line.skip(indent), Class::Only(c)) == n,
        line.skip(indent).skip(n) == rest,
        line.skip(indent).len() > 0 && line.skip(indent)[0] == c,
{
    lemma_run(line, Class::Only(' '));
    let k = indent_of(line) as int;
    assert(line[indent] == c);
    if k < indent {
        assert(line[k] == ' ');
    }
    if k > indent {
        assert(Class::Only(' ').holds(line[indent]));
    }
    let after = line.skip(indent);
    lemma_run(after, Class::Only(c));
    let m = run(after, Class::Only(c)) as int;
    if m < n {
        assert(after[m] == line[indent + m]);
        assert(line[indent + m] == c);
    }
    if m > n {
        assert(Class::Only(c).holds(after[n]));
        assert(after[n] == line[indent + n]);
        assert(line[indent + n] == rest[0]);
    }
    assert(after.skip(n) =~= rest);
}

/// A line opens a fence exactly where it has the form of an opening line; the fence then has the
/// character, the length and the info text of the line.
pub proof fn a_fence_opens_with_its_line(
    line: Seq<char>,
    indent: int,
    c: char,
    n: int,
    rest: Seq<char>,
)
    ensures
        fence_opening(line) matches Some((c, n, info)) ==> {
            let k = indent_of(line) as int;
            let behind = line.skip(k).skip(n as int);
            opens(line, k, c, n as int, behind) && info == trimmed(behind)
        },
        opens(line, indent, c, n, rest) ==> fence_opening(line) == Some(
            (c, n as nat, trimmed(rest)),
        ) && indent_of(line) == indent,
{
    let k = indent_of(line) as int;
    let after = line.skip(k);
    if let Some((d, m, info)) = fence_opening(line) {
        lemma_split(line, d);
    }
    if opens(line, indent, c, n, rest) {
        lemma_split_is(line, indent, c, n, rest);
    }
}

/// A line closes a fence exactly where it has the form of a closing line that is long enough.
pub proof fn a_fence_closes_with_a_line(
    line: Seq<char>,
    c: char,
    length: nat,
    indent: int,
    n: int,
    rest: Seq<char>,
)
    requires
        c == '`' || c == '~',
    ensures
        closes_fence(line, c, length) ==> {
            let k = indent_of(line) as int;
            let m = run(line.skip(k), Class::Only(c)) as int;
            closes(line, k, c, m, line.skip(k).skip(m)) && m >= length
        },
        closes(line, indent, c, n, rest) && n >= length ==> closes_fence(line, c, length),
{
    let k = indent_of(line) as int;
    if closes_fence(line, c, length) {
        lemma_split(line, c);
        let after = line.skip(k);
        lemma_run(after, Class::Only(c));
        let m = run(after, Class::Only(c)) as int;
        if m == 0 {
            assert(after[0] != c);
        }
    }
    if closes(line, indent, c, n, rest) && n >= length {
        if rest.len() > 0 {
            assert(is_white(rest[0]));
        }
        lemma_split_is(line, indent, c, n, rest);
    }
}

/// Whether a line is a heading of number signs: at most three spaces, one to six of the signs, and
/// nothing or a space or tab behind them.
pub open spec fn hashes(line: Seq<char>, indent: int, level: int, rest: Seq<char>) -> bool {
    &&& 0 <= indent <= 3
    &&& 1 <= level <= 6
    &&& line == repeated(' ', indent) + repeated('#', level) + rest
    &&& rest.len() > 0 ==> rest[0] == ' ' || rest[0] == '\t'
}

/// Whether every character is a space or a tab.
pub open spec fn only_blanks(s: Seq<char>) -> bool {
    forall|i: int| 0 <= i < s.len() ==> #[trigger] s[i] == ' ' || s[i] == '\t'
}

/// Whether `text` is what stands in a heading behind its signs: spaces and tabs around it are taken
/// away, and so is a run of signs at the end that a space or tab parts from it.
pub open spec fn heading_text(rest: Seq<char>, text: Seq<char>) -> bool {
    exists|a: Seq<char>, b: Seq<char>, n: int, d: Seq<char>|
        {
            &&& rest == #[trigger] parted(a, text, b, n, d)
            &&& n >= 0
            &&& only_blanks(a) && only_blanks(b) && only_blanks(d)
            &&& text.len() > 0 ==> !only_blanks(seq![text[0]]) && !only_blanks(seq![text.last()])
            &&& n == 0 ==> b.len() == 0
            &&& n > 0 ==> b.len() > 0 || text.len() == 0
            &&& n == 0 && text.len() > 0 && text.last() == '#' ==> exists|k: int|
                {
                    &&& 0 <= k < text.len()
                    &&& #[trigger] text[k] != '#' && text[k] != ' ' && text[k] != '\t'
                    &&& forall|j: int| k < j < text.len() ==> text[j] == '#'
                }
        }
}

/// A text between blanks, with signs behind it.
pub open spec fn parted(a: Seq<char>, text: Seq<char>, b: Seq<char>, n: int, d: Seq<char>) -> Seq<
    char,
> {
    a + text + b + repeated('#', n) + d
}

proof fn lemma_blank_char(c: char)
    ensures
        only_blanks(seq![c]) <==> Class::Blank.holds(c),
{
    assert(seq![c][0] == c);
    if Class::Blank.holds(c) {
        assert forall|i: int| 0 <= i < seq![c].len() implies #[trigger] seq![c][i] == ' ' || seq![
            c,
        ][i] == '\t' by {}
    }
}

proof fn lemma_heading_text(rest: Seq<char>)
    ensures
        heading_text(
            rest,
            unclosed(trim_back(trim_front(rest, Class::Blank), Class::Blank)),
        ),
{
    let k = Class::Blank;
    let front = trim_front(rest, k);
    lemma_run(rest, k);
    lemma_back_run(front, k);
    let content = trim_back(front, k);
    let a = rest.take(run(rest, k) as int);
    let d = front.skip(front.len() - back_run(front, k));
    assert(only_blanks(a)) by {
        assert forall|i: int| 0 <= i < a.len() implies #[trigger] a[i] == ' ' || a[i] == '\t' by {
            assert(k.holds(rest[i]));
        }
    }
    assert(only_blanks(d)) by {
        assert forall|i: int| 0 <= i < d.len() implies #[trigger] d[i] == ' ' || d[i] == '\t' by {
            assert(k.holds(front[front.len() - back_run(front, k) + i]));
        }
    }
    assert(rest =~= a + content + d);
    if content.len() > 0 {
        assert(content[0] == front[0] && front[0] == rest[run(rest, k) as int]);
        assert(content.last() == front[front.len() - back_run(front, k) - 1]);
        lemma_blank_char(content[0]);
        lemma_blank_char(content.last());
    }
    let signs = Class::Only('#');
    lemma_back_run(content, signs);
    let n = back_run(content, signs) as int;
    let cut = content.len() - n;
    let none = Seq::<char>::empty();
    let text = unclosed(content);
    if cut < content.len() && (cut == 0 || k.holds(content[cut - 1])) {
        let head = content.take(cut);
        lemma_back_run(head, k);
        let b = head.skip(head.len() - back_run(head, k));
        assert(text == trim_back(head, k));
        assert(content =~= text + b + repeated('#', n)) by {
            assert forall|i: int| 0 <= i < content.len() implies content[i] == (text + b + repeated(
                '#',
                n,
            ))[i] by {
                if i >= cut {
                    assert(signs.holds(content[i]));
                }
            }
        }
        assert(rest =~= parted(a, text, b, n, d));
        assert(only_blanks(b)) by {
            assert forall|i: int| 0 <= i < b.len() implies #[trigger] b[i] == ' ' || b[i]
                == '\t' by {
                assert(k.holds(head[head.len() - back_run(head, k) + i]));
            }
        }
        if text.len() > 0 {
            assert(text[0] == content[0]);
            assert(text.last() == head[head.len() - back_run(head, k) - 1]);
            lemma_blank_char(text.last());
            assert(k.holds(content[cut - 1]));
            assert(head.last() == content[cut - 1]);
            assert(back_run(head, k) > 0);
            assert(b.len() > 0);
        }
        assert(parted(a, text, b, n, d) == rest);
    } else {
        assert(text == content);
        assert(repeated('#', 0) =~= none);
        assert(rest =~= parted(a, text, none, 0, d));
        assert(only_blanks(none));
        if text.len() > 0 && text.last() == '#' {
            assert(n > 0);
            assert(cut > 0);
            assert(!signs.holds(content[cut - 1]));
            assert forall|j: int| cut - 1 < j < text.len() implies text[j] == '#' by {
                assert(signs.holds(content[j]));
            }
            assert(text[cut - 1] != '#');
        }
        assert(parted(a, text, none, 0, d) == rest);
    }
}

/// A line is a heading of number signs exactly where it has the form of one; its level is the number
/// of the signs, and its text what stands behind them.
pub proof fn a_heading_has_its_signs(line: Seq<char>, indent: int, level: int, rest: Seq<char>)
    ensures
        atx(line) matches Some((n, text)) ==> {
            let k = indent_of(line) as int;
            let behind = line.skip(k).skip(n);
            &&& hashes(line, k, n, behind)
            &&& exists|inner: Seq<char>| #[trigger]
                heading_text(behind, inner) && text == trimmed(inner)
        },
        hashes(line, indent, level, rest) ==> (atx(line) matches Some((n, _)) && n == level),
{
    let k = indent_of(line) as int;
    lemma_split(line, '#');
    if let Some((n, text)) = atx(line) {
        let behind = line.skip(k).skip(n);
        lemma_heading_text(behind);
    }
    if hashes(line, indent, level, rest) {
        lemma_split_is(line, indent, '#', level, rest);
    }
}

/// Whether a line underlines a heading: at most three spaces, then nothing but the character and
/// spaces or tabs, and more than white space.
pub open spec fn underlines(line: Seq<char>, c: char) -> bool {
    &&& indent_of(line) <= 3
    &&& !is_blank(line)
    &&& forall|i: int| 0 <= i < line.len() ==> #[trigger] line[i] == c || line[i] == ' ' || line[i]
        == '\t'
}

/// A line underlines a heading of the first level with equals signs, one of the second level with
/// hyphens, and none otherwise.
pub proof fn an_underline_tells_the_level(line: Seq<char>)
    ensures
        setext_level(line) == (if underlines(line, '=') {
            Some(1int)
        } else if underlines(line, '-') {
            Some(2int)
        } else {
            None
        }),
{
    let k = indent_of(line) as int;
    lemma_run(line, Class::Only(' '));
    let rest = line.skip(k);
    assert forall|i: int| 0 <= i < k implies #[trigger] line[i] == ' ' by {
        assert(Class::Only(' ').holds(line[i]));
    }
    assert(is_blank(rest) <==> is_blank(line)) by {
        if is_blank(rest) {
            assert forall|i: int| 0 <= i < line.len() implies is_white(#[trigger] line[i]) by {
                if i >= k {
                    assert(rest[i - k] == line[i]);
                }
            }
        }
        if is_blank(line) {
            assert forall|i: int| 0 <= i < rest.len() implies is_white(#[trigger] rest[i]) by {
                assert(rest[i] == line[i + k]);
            }
        }
    }
    lemma_only(line, k, '=');
    lemma_only(line, k, '-');
}

proof fn lemma_only(line: Seq<char>, k: int, c: char)
    requires
        0 <= k <= line.len(),
        forall|i: int| 0 <= i < k ==> #[trigger] line[i] == ' ',
    ensures
        only_of(line.skip(k), c) <==> (forall|i: int|
            0 <= i < line.len() ==> #[trigger] line[i] == c || line[i] == ' ' || line[i] == '\t'),
{
    let rest = line.skip(k);
    if only_of(rest, c) {
        assert forall|i: int| 0 <= i < line.len() implies #[trigger] line[i] == c || line[i] == ' '
            || line[i] == '\t' by {
            if i >= k {
                assert(rest[i - k] == line[i]);
            }
        }
    }
    if forall|i: int| 0 <= i < line.len() ==> #[trigger] line[i] == c || line[i] == ' ' || line[i]
        == '\t' {
        assert forall|i: int| 0 <= i < rest.len() implies #[trigger] rest[i] == c
            || Class::Blank.holds(rest[i]) by {
            assert(rest[i] == line[i + k]);
        }
    }
}

// ---- fences ----

/// Whether a line of a fence is another one without as many of its leading spaces as the fence is
/// indented, or as it has.
pub open spec fn outdented(line: Seq<char>, indent: int, made: Seq<char>) -> bool {
    exists|d: int|
        {
            &&& 0 <= d <= indent
            &&& line == #[trigger] repeated(' ', d) + made
            &&& d == indent || made.len() == 0 || made[0] != ' '
        }
}

/// Whether the content of a fence is that of the lines between `lo` and `hi`.
pub open spec fn content_of(
    lines: Seq<Seq<char>>,
    lo: int,
    hi: int,
    indent: int,
    content: Seq<char>,
) -> bool {
    exists|body: Seq<Seq<char>>|
        {
            &&& content == #[trigger] joined(body, "\n"@)
            &&& body.len() == hi - lo
            &&& forall|i: int|
                0 <= i < body.len() ==> outdented(lines[lo + i], indent, #[trigger] body[i])
        }
}

/// Whether no line between `lo` and `hi` closes a fence.
pub open spec fn unclosed_between(
    lines: Seq<Seq<char>>,
    lo: int,
    hi: int,
    c: char,
    length: nat,
) -> bool {
    forall|j: int| lo <= j < hi ==> !closes_fence(#[trigger] lines[j], c, length)
}

/// Whether a fence is one of the text: it begins with a line that opens one, and ends with the first
/// line that closes it, or with the text where there is none.
#[verifier::opaque]
pub open spec fn is_fence(lines: Seq<Seq<char>>, f: FenceV) -> bool {
    &&& 0 <= f.open < f.end <= lines.len()
    &&& fence_opening(lines[f.open]) matches Some((c, length, info)) && {
        let indent = indent_of(lines[f.open]) as int;
        &&& f.info == info
        &&& ({
            ||| {
                &&& f.open < f.end - 1
                &&& closes_fence(lines[f.end - 1], c, length)
                &&& unclosed_between(lines, f.open + 1, f.end - 1, c, length)
                &&& content_of(lines, f.open + 1, f.end - 1, indent, f.content)
            }
            ||| {
                &&& f.end == lines.len()
                &&& unclosed_between(lines, f.open + 1, f.end, c, length)
                &&& content_of(lines, f.open + 1, f.end, indent, f.content)
            }
        })
    }
}

/// Whether a line lies in one of the fences.
pub open spec fn in_fence(fences: Seq<FenceV>, i: int) -> bool {
    exists|k: int| 0 <= k < fences.len() && (#[trigger] fences[k]).open <= i < fences[k].end
}

proof fn lemma_outdented(line: Seq<char>, indent: nat)
    ensures
        outdented(line, indent as int, dedented(line, indent)),
{
    let own = indent_of(line) as int;
    lemma_run(line, Class::Only(' '));
    let d: int = if own < indent {
        own
    } else {
        indent as int
    };
    let made = dedented(line, indent);
    assert(made == line.skip(d));
    assert forall|i: int| 0 <= i < d implies line[i] == ' ' by {
        assert(Class::Only(' ').holds(line[i]));
    }
    assert(line =~= repeated(' ', d) + made);
    if d < indent && made.len() > 0 {
        assert(made[0] == line[d]);
        assert(!Class::Only(' ').holds(line[d]));
    }
}

proof fn lemma_content(lines: Seq<Seq<char>>, open: int, close: int, end: int)
    requires
        0 <= open < close <= lines.len(),
    ensures
        content_of(
            lines,
            open + 1,
            close,
            indent_of(lines[open]) as int,
            fence_between(lines, open, close, end).content,
        ),
{
    let indent = indent_of(lines[open]);
    let body = dedented_range(lines, open + 1, close, indent);
    assert forall|i: int| 0 <= i < body.len() implies outdented(
        lines[open + 1 + i],
        indent as int,
        #[trigger] body[i],
    ) by {
        lemma_outdented(lines[open + 1 + i], indent);
    }
    assert(fence_between(lines, open, close, end).content == joined(body, "\n"@));
}

/// Whether a heading is one of the text: a line of number signs of the second level, or a paragraph
/// that is underlined as one.
#[verifier::opaque]
pub open spec fn is_heading(lines: Seq<Seq<char>>, h: HeadingV) -> bool {
    &&& 0 <= h.line < lines.len()
    &&& fence_opening(lines[h.line]) is None
    &&& ({
        ||| atx(lines[h.line]) == Some((2int, h.key))
        ||| exists|end: int|
            {
                &&& h.line < end < lines.len()
                &&& #[trigger] is_paragraph(lines, h.line, end)
                &&& setext_level(lines[end]) == Some(2int)
                &&& h.key == paragraph_text(lines, h.line, end)
            }
    })
}

/// Whether a line can be one of a paragraph.
pub open spec fn is_text(line: Seq<char>) -> bool {
    &&& fence_opening(line) is None
    &&& atx(line) is None
    &&& !is_blank(line)
}

/// Whether the lines from `lo` to `hi` make a paragraph: all of them are text, none is a break, and
/// none but the first could underline the lines before it.
pub open spec fn is_paragraph(lines: Seq<Seq<char>>, lo: int, hi: int) -> bool {
    &&& 0 <= lo < hi <= lines.len()
    &&& forall|j: int|
        lo <= j < hi ==> is_text(#[trigger] lines[j]) && !thematic_break(lines[j]) && (j > lo
            ==> setext_level(lines[j]) is None)
}

/// The text of a paragraph: its lines without the white space around them, a space between each.
pub open spec fn paragraph_text(lines: Seq<Seq<char>>, lo: int, hi: int) -> Seq<char> {
    trimmed(joined(Seq::new((hi - lo) as nat, |i: int| trimmed(lines[lo + i])), " "@))
}

/// What holds of the first `n` lines after they have been scanned.
spec fn scanned(lines: Seq<Seq<char>>, st: ScanV, n: int) -> bool {
    &&& forall|k: int|
        0 <= k < st.fences.len() ==> is_fence(lines, #[trigger] st.fences[k]) && st.fences[k].end
            <= n
    &&& st.fence matches Some((c, length, open)) ==> {
        &&& 0 <= open < n
        &&& fence_opening(lines[open]) matches Some((d, m, _)) && d == c && m == length
        &&& unclosed_between(lines, open + 1, n, c, length)
        &&& st.para is None
    }
    &&& forall|i: int|
        0 <= i < n && !in_fence(st.fences, i) && !(st.fence matches Some((_, _, open)) && open <= i)
            ==> fence_opening(#[trigger] lines[i]) is None && (atx(lines[i]) matches Some((level, key))
            ==> level == 2 ==> st.headings.contains(HeadingV { line: i, key }))
    &&& forall|k: int| 0 <= k < st.headings.len() ==> is_heading(lines, #[trigger] st.headings[k])
    &&& st.para matches Some((start, words)) ==> {
        &&& is_paragraph(lines, start, n)
        &&& words == Seq::new((n - start) as nat, |i: int| trimmed(lines[start + i]))
    }
}

proof fn lemma_more_fences(fences: Seq<FenceV>, f: FenceV, i: int)
    ensures
        in_fence(fences.push(f), i) <==> in_fence(fences, i) || f.open <= i < f.end,
{
    let more = fences.push(f);
    if in_fence(fences, i) {
        let k = choose|k: int|
            0 <= k < fences.len() && (#[trigger] fences[k]).open <= i < fences[k].end;
        assert(more[k] == fences[k]);
    }
    if f.open <= i < f.end {
        assert(more[fences.len() as int] == f);
    }
    if in_fence(more, i) {
        let k = choose|k: int| 0 <= k < more.len() && (#[trigger] more[k]).open <= i < more[k].end;
        if k < fences.len() {
            assert(fences[k] == more[k]);
        }
    }
}

proof fn lemma_more_headings(headings: Seq<HeadingV>, h: HeadingV, other: HeadingV)
    ensures
        headings.push(h).contains(h),
        headings.contains(other) ==> headings.push(h).contains(other),
{
    assert(headings.push(h)[headings.len() as int] == h);
    if headings.contains(other) {
        let k = headings.index_of(other);
        assert(headings.push(h)[k] == other);
    }
}

proof fn lemma_closed_fence(lines: Seq<Seq<char>>, open: int, i: int, c: char, length: nat)
    requires
        0 <= open < i < lines.len(),
        fence_opening(lines[open]) matches Some((d, m, _)) && d == c && m == length,
        closes_fence(lines[i], c, length),
        unclosed_between(lines, open + 1, i, c, length),
    ensures
        is_fence(lines, fence_between(lines, open, i, i + 1)),
{
    let f = fence_between(lines, open, i, i + 1);
    lemma_content(lines, open, i, i + 1);
    assert(f.open == open && f.end == i + 1 && f.end - 1 == i);
    assert(content_of(lines, f.open + 1, f.end - 1, indent_of(lines[f.open]) as int, f.content));
    reveal(is_fence);
}

proof fn lemma_scanned_closing(lines: Seq<Seq<char>>, st: ScanV, i: int)
    requires
        0 <= i < lines.len(),
        scanned(lines, st, i),
        st.fence matches Some((c, length, _)) && closes_fence(lines[i], c, length),
    ensures
        scanned(lines, scan_line(lines, st, i), i + 1),
{
    let (c, length, open) = st.fence->0;
    let next = scan_line(lines, st, i);
    let f = fence_between(lines, open, i, i + 1);
    lemma_closed_fence(lines, open, i, c, length);
    assert(next.fences == st.fences.push(f));
    assert(next.headings == st.headings && next.fence is None && next.para is None);
    assert forall|j: int| 0 <= j < i + 1 && !in_fence(next.fences, j) implies fence_opening(
        #[trigger] lines[j],
    ) is None && (atx(lines[j]) matches Some((level, key)) ==> level == 2
        ==> next.headings.contains(HeadingV { line: j, key })) by {
        lemma_more_fences(st.fences, f, j);
        assert(f.open == open && f.end == i + 1);
        assert(j < open);
    }
    assert forall|k: int| 0 <= k < next.fences.len() implies is_fence(
        lines,
        #[trigger] next.fences[k],
    ) && next.fences[k].end <= i + 1 by {
        if k < st.fences.len() {
            assert(next.fences[k] == st.fences[k]);
        } else {
            assert(next.fences[k] == f);
        }
    }
}

proof fn lemma_scanned_inside(lines: Seq<Seq<char>>, st: ScanV, i: int)
    requires
        0 <= i < lines.len(),
        scanned(lines, st, i),
        st.fence matches Some((c, length, _)) && !closes_fence(lines[i], c, length),
    ensures
        scanned(lines, st, i + 1),
{
    let (c, length, open) = st.fence->0;
    assert(unclosed_between(lines, open + 1, i + 1, c, length)) by {
        assert forall|j: int| open + 1 <= j < i + 1 implies !closes_fence(
            #[trigger] lines[j],
            c,
            length,
        ) by {}
    }
    assert forall|k: int| 0 <= k < st.fences.len() implies is_fence(
        lines,
        #[trigger] st.fences[k],
    ) && st.fences[k].end <= i + 1 by {}
}

proof fn lemma_scanned_outside(lines: Seq<Seq<char>>, st: ScanV, i: int)
    requires
        0 <= i < lines.len(),
        scanned(lines, st, i),
        st.fence is None,
    ensures
        scanned(lines, scan_line(lines, st, i), i + 1),
{
    let line = lines[i];
    let next = scan_line(lines, st, i);
    assert(next.fences == st.fences);
    assert(!in_fence(st.fences, i)) by {
        if in_fence(st.fences, i) {
            let k = choose|k: int|
                0 <= k < st.fences.len() && (#[trigger] st.fences[k]).open <= i < st.fences[k].end;
            assert(st.fences[k].end <= i);
        }
    }
    if fence_opening(line) is None {
        if let Some((level, key)) = atx(line) {
            if level == 2 {
                let h = HeadingV { line: i, key };
                assert(is_heading(lines, h)) by {
                    reveal(is_heading);
                }
                assert forall|j: int| 0 <= j < i + 1 && !in_fence(next.fences, j) implies fence_opening(
                    #[trigger] lines[j],
                ) is None && (atx(lines[j]) matches Some((level, key)) ==> level == 2 ==> next.headings.contains(
                    HeadingV { line: j, key },
                )) by {
                    if let Some((n, other)) = atx(lines[j]) {
                        lemma_more_headings(st.headings, h, HeadingV { line: j, key: other });
                    }
                }
            }
        } else if !is_blank(line) {
            if let Some((start, words)) = st.para {
                if let Some(level) = setext_level(line) {
                    if level == 2 {
                        let h = HeadingV { line: start, key: trimmed(joined(words, " "@)) };
                        assert(is_paragraph(lines, start, i));
                        assert(is_text(lines[start]));
                        assert(h.key == paragraph_text(lines, start, i));
                        assert(is_heading(lines, h)) by {
                            reveal(is_heading);
                        }
                        assert forall|j: int|
                            0 <= j < i + 1 && !in_fence(next.fences, j) implies fence_opening(
                            #[trigger] lines[j],
                        ) is None && (atx(lines[j]) matches Some((level, key))
                            ==> level == 2 ==> next.headings.contains(HeadingV { line: j, key })) by {
                            if let Some((n, other)) = atx(lines[j]) {
                                lemma_more_headings(
                                    st.headings,
                                    h,
                                    HeadingV { line: j, key: other },
                                );
                            }
                        }
                    }
                } else if !thematic_break(line) {
                    let more = Seq::new((i + 1 - start) as nat, |k: int| trimmed(lines[start + k]));
                    assert(words.push(trimmed(line)) =~= more);
                    assert(is_paragraph(lines, start, i + 1));
                }
            } else if !thematic_break(line) {
                let one = Seq::new(1, |k: int| trimmed(lines[i + k]));
                assert(seq![trimmed(line)] =~= one);
                assert(is_paragraph(lines, i, i + 1));
            }
        }
    }
}

proof fn lemma_scanned(lines: Seq<Seq<char>>, n: int)
    requires
        0 <= n <= lines.len(),
    ensures
        scanned(lines, scan_upto(lines, n), n),
    decreases n,
{
    if n > 0 {
        lemma_scanned(lines, n - 1);
        let st = scan_upto(lines, n - 1);
        if st.fence is Some {
            let (c, length, _) = st.fence->0;
            if closes_fence(lines[n - 1], c, length) {
                lemma_scanned_closing(lines, st, n - 1);
            } else {
                lemma_scanned_inside(lines, st, n - 1);
                assert(scan_line(lines, st, n - 1) == st);
            }
        } else {
            lemma_scanned_outside(lines, st, n - 1);
        }
    }
}

/// The fences of a text are fences of its lines, and no line outside them opens one. The headings
/// are headings of its lines, and every line outside the fences that is one of number signs of the
/// second level is among them.
#[verifier::spinoff_prover]
#[verifier::rlimit(50)]
pub proof fn fences_and_headings_are_those_of_the_lines(lines: Seq<Seq<char>>)
    ensures
        forall|k: int|
            0 <= k < fences_of(lines).len() ==> is_fence(lines, #[trigger] fences_of(lines)[k]),
        forall|k: int|
            0 <= k < headings_of(lines).len() ==> is_heading(lines, #[trigger] headings_of(lines)[k]),
        forall|i: int|
            0 <= i < lines.len() && !in_fence(fences_of(lines), i) ==> fence_opening(
                #[trigger] lines[i],
            ) is None && (atx(lines[i]) matches Some((level, key)) ==> level == 2 ==> headings_of(lines).contains(
                HeadingV { line: i, key },
            )),
{
    let n = lines.len() as int;
    lemma_scanned(lines, n);
    let st = scan_upto(lines, n);
    if let Some((c, length, open)) = st.fence {
        let f = fence_between(lines, open, n, n);
        assert(is_fence(lines, f)) by {
            reveal(is_fence);
            lemma_content(lines, open, n, n);
        }
        assert forall|i: int| 0 <= i < lines.len() && !in_fence(fences_of(lines), i) implies fence_opening(
            #[trigger] lines[i],
        ) is None && (atx(lines[i]) matches Some((level, key)) ==> level == 2 ==> headings_of(lines).contains(
            HeadingV { line: i, key },
        )) by {
            lemma_more_fences(st.fences, f, i);
        }
    }
}

// ---- underlined headings ----

proof fn lemma_headings_grow(lines: Seq<Seq<char>>, m: int, n: int, h: HeadingV)
    requires
        0 <= m <= n,
        scan_upto(lines, m).headings.contains(h),
    ensures
        scan_upto(lines, n).headings.contains(h),
    decreases n,
{
    if m < n {
        lemma_headings_grow(lines, m, n - 1, h);
        let st = scan_upto(lines, n - 1);
        let next = scan_line(lines, st, n - 1);
        if next.headings != st.headings {
            lemma_more_headings(st.headings, next.headings.last(), h);
            assert(next.headings =~= st.headings.push(next.headings.last()));
        }
    }
}

proof fn lemma_paragraph(lines: Seq<Seq<char>>, lo: int, hi: int)
    requires
        is_paragraph(lines, lo, hi),
        scan_upto(lines, lo).fence is None,
        scan_upto(lines, lo).para is None,
    ensures
        scan_upto(lines, hi).fence is None,
        scan_upto(lines, hi).para == Some(
            (lo, Seq::new((hi - lo) as nat, |i: int| trimmed(lines[lo + i]))),
        ),
    decreases hi,
{
    let st = scan_upto(lines, hi - 1);
    assert(is_text(lines[hi - 1]));
    let words = Seq::new((hi - lo) as nat, |i: int| trimmed(lines[lo + i]));
    if hi - 1 > lo {
        assert(is_paragraph(lines, lo, hi - 1));
        lemma_paragraph(lines, lo, hi - 1);
        let before = Seq::new((hi - 1 - lo) as nat, |i: int| trimmed(lines[lo + i]));
        assert(before.push(trimmed(lines[hi - 1])) =~= words);
    } else {
        assert(seq![trimmed(lines[lo])] =~= words);
    }
}

/// Whether nothing before a line goes on in it: it is the first, or the one before it lies in no
/// fence and is no text.
pub open spec fn starts_anew(lines: Seq<Seq<char>>, i: int) -> bool {
    i == 0 || (!in_fence(fences_of(lines), i - 1) && !is_text(lines[i - 1]))
}

proof fn lemma_fences_grow(lines: Seq<Seq<char>>, m: int, n: int, i: int)
    requires
        0 <= i < m <= n <= lines.len(),
        scan_upto(lines, m).fence is None,
        !in_fence(scan_upto(lines, m).fences, i),
    ensures
        !in_fence(scan_upto(lines, n).fences, i),
        scan_upto(lines, n).fence matches Some((_, _, open)) ==> open > i,
    decreases n,
{
    if m < n {
        lemma_fences_grow(lines, m, n - 1, i);
        let st = scan_upto(lines, n - 1);
        if let Some((c, length, open)) = st.fence {
            let f = fence_between(lines, open, n - 1, n);
            lemma_more_fences(st.fences, f, i);
        }
    }
}

proof fn lemma_fence_kept(lines: Seq<Seq<char>>, m: int, n: int, i: int)
    requires
        0 <= i < m <= n <= lines.len(),
        in_fence(scan_upto(lines, m).fences, i) || (scan_upto(lines, m).fence matches Some(
            (_, _, open),
        ) && open <= i),
    ensures
        in_fence(scan_upto(lines, n).fences, i) || (scan_upto(lines, n).fence matches Some(
            (_, _, open),
        ) && open <= i),
    decreases n,
{
    if m < n {
        lemma_fence_kept(lines, m, n - 1, i);
        let st = scan_upto(lines, n - 1);
        if let Some((c, length, open)) = st.fence {
            let f = fence_between(lines, open, n - 1, n);
            lemma_more_fences(st.fences, f, i);
        }
    }
}

proof fn lemma_starts(lines: Seq<Seq<char>>, i: int)
    requires
        0 <= i <= lines.len(),
        starts_anew(lines, i),
    ensures
        scan_upto(lines, i).fence is None,
        scan_upto(lines, i).para is None,
{
    if i > 0 {
        let n = lines.len() as int;
        let st = scan_upto(lines, i);
        let last = scan_upto(lines, n);
        if in_fence(st.fences, i - 1) || (st.fence matches Some((_, _, open)) && open <= i - 1) {
            lemma_fence_kept(lines, i, n, i - 1);
            if let Some((c, length, open)) = last.fence {
                let f = fence_between(lines, open, n, n);
                lemma_scanned(lines, n);
                lemma_more_fences(last.fences, f, i - 1);
            }
            assert(in_fence(fences_of(lines), i - 1));
        }
        lemma_scanned(lines, i);
        lemma_scanned(lines, i - 1);
        let before = scan_upto(lines, i - 1);
        assert(st == scan_line(lines, before, i - 1));
        if let Some((c, length, open)) = st.fence {
            assert(open <= i - 1);
        }
        if before.fence is Some {
            assert(st.fence is None);
        }
    }
}

/// A paragraph that starts anew and is underlined with hyphens is a heading of the second level.
pub proof fn an_underlined_paragraph_is_a_heading(lines: Seq<Seq<char>>, lo: int, hi: int)
    requires
        is_paragraph(lines, lo, hi),
        starts_anew(lines, lo),
        hi < lines.len(),
        is_text(lines[hi]),
        setext_level(lines[hi]) == Some(2int),
    ensures
        headings_of(lines).contains(
            HeadingV { line: lo, key: paragraph_text(lines, lo, hi) },
        ),
{
    lemma_starts(lines, lo);
    lemma_paragraph(lines, lo, hi);
    let st = scan_upto(lines, hi);
    let h = HeadingV { line: lo, key: paragraph_text(lines, lo, hi) };
    let next = scan_upto(lines, hi + 1);
    assert(next == scan_line(lines, st, hi));
    assert(next.headings == st.headings.push(h));
    lemma_more_headings(st.headings, h, h);
    lemma_headings_grow(lines, hi + 1, lines.len() as int, h);
}

// ---- breaks ----

/// A line ends at a line feed, a vertical tab, a form feed, a carriage return, one of the three
/// separators of files, groups and records, or a next-line, line or paragraph separator.
pub proof fn lines_end_at_these(c: char)
    ensures
        is_break(c) <==> c == '\n' || c == '\u{b}' || c == '\u{c}' || c == '\r' || c == '\u{1c}' || c
            == '\u{1d}' || c == '\u{1e}' || c == '\u{85}' || c == '\u{2028}' || c == '\u{2029}',
{
}

/// White space is what Unicode takes for it.
pub proof fn white_space_is_this(c: char)
    ensures
        is_white(c) <==> '\t' <= c <= '\r' || c == ' ' || c == '\u{85}' || c == '\u{a0}' || c
            == '\u{1680}' || '\u{2000}' <= c <= '\u{200a}' || c == '\u{2028}' || c == '\u{2029}' || c
            == '\u{202f}' || c == '\u{205f}' || c == '\u{3000}',
{
}

/// The lines of a text are split one by one: what stands before the first line end is a line, and
/// behind it come the lines of the rest. A carriage return and a line feed behind it are one line
/// end. A text without a line end is one line, an empty text none.
pub proof fn lines_are_split_one_by_one(line: Seq<char>, c: char, rest: Seq<char>)
    requires
        forall|i: int| 0 <= i < line.len() ==> !is_break(#[trigger] line[i]),
        is_break(c),
    ensures
        lines_of(Seq::empty()) == Seq::<Seq<char>>::empty(),
        line.len() > 0 ==> lines_of(line) == seq![line],
        !(c == '\r' && rest.len() > 0 && rest[0] == '\n') ==> lines_of(line + seq![c] + rest) == seq![
            line,
        ] + lines_of(rest),
        lines_of(line + seq!['\r', '\n'] + rest) == seq![line] + lines_of(rest),
{
    let n = line.len() as int;
    if n > 0 {
        lemma_line_length(line, n);
    }
    let a = line + seq![c] + rest;
    assert(a[n] == c);
    assert forall|i: int| 0 <= i < n implies !is_break(#[trigger] a[i]) by {
        assert(a[i] == line[i]);
    }
    lemma_line_length(a, n);
    assert(a.take(n) =~= line);
    if !(c == '\r' && rest.len() > 0 && rest[0] == '\n') {
        let tail = a.skip(n);
        assert(tail[0] == c);
        if tail.len() > 1 {
            assert(tail[1] == rest[0]);
        }
        assert(break_length(tail) == 1);
        assert(a.skip(n + 1) =~= rest);
    }
    let b = line + seq!['\r', '\n'] + rest;
    assert(b[n] == '\r' && b[n + 1] == '\n');
    assert forall|i: int| 0 <= i < n implies !is_break(#[trigger] b[i]) by {
        assert(b[i] == line[i]);
    }
    lemma_line_length(b, n);
    assert(b.take(n) =~= line);
    assert(break_length(b.skip(n)) == 2);
    assert(b.skip(n + 2) =~= rest);
}

/// Whether a line is a break of some character: at most three spaces, at least three of the
/// characters, and nothing else but spaces and tabs.
pub open spec fn breaks_with(line: Seq<char>, c: char) -> bool {
    &&& indent_of(line) <= 3
    &&& forall|i: int| 0 <= i < line.len() ==> #[trigger] line[i] == c || line[i] == ' ' || line[i]
        == '\t'
    &&& exists|i: int, j: int, k: int|
        0 <= i < j < k < line.len() && #[trigger] line[i] == c && #[trigger] line[j] == c
            && #[trigger] line[k] == c
}

proof fn lemma_tally(s: Seq<char>, c: char)
    ensures
        tally(s, c) >= 1 <==> (exists|i: int| 0 <= i < s.len() && #[trigger] s[i] == c),
        tally(s, c) >= 2 <==> (exists|i: int, j: int|
            0 <= i < j < s.len() && #[trigger] s[i] == c && #[trigger] s[j] == c),
        tally(s, c) >= 3 <==> (exists|i: int, j: int, k: int|
            0 <= i < j < k < s.len() && #[trigger] s[i] == c && #[trigger] s[j] == c
                && #[trigger] s[k] == c),
    decreases s.len(),
{
    if s.len() > 0 {
        let front = s.drop_last();
        let n = s.len() - 1;
        lemma_tally(front, c);
        assert forall|i: int| 0 <= i < n implies #[trigger] front[i] == s[i] by {}
        if tally(front, c) >= 1 {
            let i = choose|i: int| 0 <= i < front.len() && #[trigger] front[i] == c;
            assert(s[i] == c);
        }
        if tally(front, c) >= 2 {
            let (i, j) = choose|i: int, j: int|
                0 <= i < j < front.len() && #[trigger] front[i] == c && #[trigger] front[j] == c;
            assert(s[i] == c && s[j] == c);
        }
        if tally(front, c) >= 3 {
            let (i, j, k) = choose|i: int, j: int, k: int|
                0 <= i < j < k < front.len() && #[trigger] front[i] == c && #[trigger] front[j] == c
                    && #[trigger] front[k] == c;
            assert(s[i] == c && s[j] == c && s[k] == c);
        }
        if s.last() == c {
            assert(s[n as int] == c);
        }
        if exists|i: int| 0 <= i < s.len() && #[trigger] s[i] == c {
            let i = choose|i: int| 0 <= i < s.len() && #[trigger] s[i] == c;
            if i < n {
                assert(front[i] == c);
            }
        }
        if exists|i: int, j: int| 0 <= i < j < s.len() && #[trigger] s[i] == c && #[trigger] s[j] == c {
            let (i, j) = choose|i: int, j: int|
                0 <= i < j < s.len() && #[trigger] s[i] == c && #[trigger] s[j] == c;
            assert(front[i] == c);
            if j < n {
                assert(front[j] == c);
            }
        }
        if exists|i: int, j: int, k: int|
            0 <= i < j < k < s.len() && #[trigger] s[i] == c && #[trigger] s[j] == c
                && #[trigger] s[k] == c {
            let (i, j, k) = choose|i: int, j: int, k: int|
                0 <= i < j < k < s.len() && #[trigger] s[i] == c && #[trigger] s[j] == c
                    && #[trigger] s[k] == c;
            assert(front[i] == c && front[j] == c);
            if k < n {
                assert(front[k] == c);
            }
        }
    }
}

proof fn lemma_breaks_with(line: Seq<char>, c: char)
    requires
        c != ' ',
    ensures
        indent_of(line) <= 3 && break_of(line.skip(indent_of(line) as int), c) <==> breaks_with(
            line,
            c,
        ),
{
    let k = indent_of(line) as int;
    lemma_run(line, Class::Only(' '));
    let rest = line.skip(k);
    assert forall|i: int| 0 <= i < k implies #[trigger] line[i] == ' ' by {
        assert(Class::Only(' ').holds(line[i]));
    }
    lemma_only(line, k, c);
    lemma_tally(rest, c);
    assert forall|i: int| 0 <= i < rest.len() implies #[trigger] rest[i] == line[i + k] by {}
    if tally(rest, c) >= 3 {
        let (x, y, z) = choose|x: int, y: int, z: int|
            0 <= x < y < z < rest.len() && #[trigger] rest[x] == c && #[trigger] rest[y] == c
                && #[trigger] rest[z] == c;
        assert(line[x + k] == c && line[y + k] == c && line[z + k] == c);
    }
    if breaks_with(line, c) {
        let (x, y, z) = choose|x: int, y: int, z: int|
            0 <= x < y < z < line.len() && #[trigger] line[x] == c && #[trigger] line[y] == c
                && #[trigger] line[z] == c;
        assert(x >= k);
        assert(rest[x - k] == c && rest[y - k] == c && rest[z - k] == c);
    }
}

/// A line is a break exactly where it is one of asterisks, of hyphens or of underscores.
pub proof fn a_break_has_three_marks(line: Seq<char>)
    ensures
        thematic_break(line) <==> breaks_with(line, '*') || breaks_with(line, '-') || breaks_with(
            line,
            '_',
        ),
{
    lemma_breaks_with(line, '*');
    lemma_breaks_with(line, '-');
    lemma_breaks_with(line, '_');
}

} // verus!
