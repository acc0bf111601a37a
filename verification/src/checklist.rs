//! The checklist format: front matter, level-two rule headings and their metadata blocks.

use vstd::prelude::*;

use crate::description::{rule_fields, source_hash};
use crate::errors::{and_detail, detail, ErrorCode, ErrorV, ReviewKBError};
use crate::json::{entries_view, find, lookup, Entries, Json, JsonV};
use crate::json_util::{
    canonical_hash, digest_text, digit, digit_of, place, place_entry, sha256_hex,
};
use crate::markdown::{
    fences_of, fences_view, headings_lie_outside_fences, headings_of, headings_view, lines_of,
    py_splitlines, scan_markdown, FenceV, HeadingV, Scan, ScannedFence,
};
use crate::models::{rules_view, Checklist, ChecklistV, Rule, RuleV};
use crate::text::{
    begins, blank, chars_of, has_char, is_blank, is_member, join, join_range, joined, lemma_blank,
    lowercase, same, strings, text_of, trim, trimmed, trimming_adds_nothing, trimming_settles,
};
use crate::yaml::{bridged, read_yaml, yaml_document, yml_to_json};

verus! {

broadcast use crate::json::group_json;

/// The error for a checklist that breaks a rule of the format.
pub open spec fn invalid_error(message: Seq<char>, path: Seq<char>) -> ErrorV {
    ErrorV {
        code: ErrorCode::ChecklistInvalid,
        message,
        details: detail("path"@, JsonV::Text(path)),
    }
}

/// The same, with the line where it shows, counted from one.
pub open spec fn invalid_line_error(message: Seq<char>, path: Seq<char>, line: int) -> ErrorV {
    ErrorV {
        code: ErrorCode::ChecklistInvalid,
        message,
        details: and_detail(detail("path"@, JsonV::Text(path)), "line"@, JsonV::Int(line)),
    }
}

/// The error for a checklist that is not there.
pub open spec fn not_found_error(path: Seq<char>) -> ErrorV {
    ErrorV {
        code: ErrorCode::ChecklistNotFound,
        message: "checklist not found: "@ + path,
        details: detail("path"@, JsonV::Text(path)),
    }
}

fn invalid(message: String, path: &str) -> (r: ReviewKBError)
    ensures
        r@ == invalid_error(message@, path@),
{
    ReviewKBError::new(
        ErrorCode::ChecklistInvalid,
        message,
        Json::object().with("path", Json::text(path)),
    )
}

fn invalid_line(message: String, path: &str, line: usize) -> (r: ReviewKBError)
    requires
        line < usize::MAX,
    ensures
        r@ == invalid_line_error(message@, path@, line + 1),
{
    ReviewKBError::new(
        ErrorCode::ChecklistInvalid,
        message,
        Json::object().with("path", Json::text(path)).with(
            "line",
            crate::models::index_value(line + 1),
        ),
    )
}

/// `a` and `b`, one after the other.
fn glue(a: &str, b: &str) -> (r: String)
    ensures
        r@ == a@ + b@,
{
    let mut r = a.to_string();
    r.push_str(b);
    r
}

/// `a`, `b` and `c`, one after the other.
fn glue3(a: &str, b: &str, c: &str) -> (r: String)
    ensures
        r@ == a@ + b@ + c@,
{
    let mut r = a.to_string();
    r.push_str(b);
    r.push_str(c);
    r
}

/// Where the text after an opening `---` line starts.
pub open spec fn matter_start(s: Seq<char>) -> Option<int> {
    if begins(s, "---\n"@) {
        Some(4)
    } else if begins(s, "---\r\n"@) {
        Some(5)
    } else {
        None
    }
}

/// Where the text after a line end that `s` begins with starts; the end of `s` counts as one.
pub open spec fn line_end(s: Seq<char>) -> Option<int> {
    if begins(s, "\n"@) {
        Some(1)
    } else if begins(s, "\r\n"@) {
        Some(2)
    } else if s.len() == 0 {
        Some(0)
    } else {
        None
    }
}

/// Length of a line end and a closing `---` line that `s` begins with.
pub open spec fn matter_close(s: Seq<char>) -> Option<int> {
    let dashes: int = if begins(s, "\n---"@) {
        4
    } else if begins(s, "\r\n---"@) {
        5
    } else {
        -1
    };
    if dashes < 0 {
        None
    } else {
        match line_end(s.skip(dashes)) {
            Some(n) => Some(dashes + n),
            None => None,
        }
    }
}

/// The first place from `at` on where the front matter closes.
pub open spec fn first_close(s: Seq<char>, at: int) -> Option<int>
    decreases s.len() + 1 - at,
{
    if at > s.len() {
        None
    } else if matter_close(s.skip(at)) is Some {
        Some(at)
    } else {
        first_close(s, at + 1)
    }
}

/// The front matter and the text behind it.
pub open spec fn front_matter(s: Seq<char>) -> Option<(Seq<char>, Seq<char>)> {
    match matter_start(s) {
        None => None,
        Some(start) => match first_close(s, start) {
            None => None,
            Some(at) => Some(
                (s.subrange(start, at), s.skip(at + matter_close(s.skip(at))->0)),
            ),
        },
    }
}

/// Whether `v` holds `lit` from `at` on.
fn found_at(v: &Vec<char>, at: usize, lit: &str) -> (r: bool)
    requires
        at <= v@.len(),
    ensures
        r == begins(v@.skip(at as int), lit@),
{
    crate::text::holds_at(v, at, &chars_of(lit))
}

fn close_at(v: &Vec<char>, at: usize) -> (r: Option<usize>)
    requires
        at <= v@.len(),
    ensures
        match r {
            Some(n) => matter_close(v@.skip(at as int)) == Some(n as int) && at + n <= v@.len(),
            None => matter_close(v@.skip(at as int)) is None,
        },
{
    let ghost rest = v@.skip(at as int);
    let count: usize = v.len();
    proof {
        reveal_strlit("\n---");
        reveal_strlit("\r\n---");
        reveal_strlit("\n");
        reveal_strlit("\r\n");
    }
    let dashes: usize = if found_at(v, at, "\n---") {
        4
    } else if found_at(v, at, "\r\n---") {
        5
    } else {
        return None;
    };
    assert(at + dashes <= count);
    let end: usize = at + dashes;
    assert(v@.skip(end as int) =~= rest.skip(dashes as int));
    if found_at(v, end, "\n") {
        Some(dashes + 1)
    } else if found_at(v, end, "\r\n") {
        Some(dashes + 2)
    } else if end == v.len() {
        Some(dashes)
    } else {
        None
    }
}

/// Splits a text into its front matter and the text behind it.
pub fn split_front_matter(source: &str) -> (r: Option<(String, String)>)
    ensures
        match r {
            Some((matter, rest)) => front_matter(source@) == Some((matter@, rest@)),
            None => front_matter(source@) is None,
        },
{
    let v = chars_of(source);
    proof {
        reveal_strlit("---\n");
        reveal_strlit("---\r\n");
        assert(v@.skip(0) =~= v@);
    }
    let start: usize = if found_at(&v, 0, "---\n") {
        4
    } else if found_at(&v, 0, "---\r\n") {
        5
    } else {
        return None;
    };
    let mut at: usize = start;
    while at < v.len()
        invariant
            start <= at <= v@.len(),
            v@ == source@,
            matter_start(v@) == Some(start as int),
            first_close(v@, start as int) == first_close(v@, at as int),
        decreases v@.len() - at,
    {
        if let Some(n) = close_at(&v, at) {
            let matter = text_of(&v, start, at);
            let rest = text_of(&v, at + n, v.len());
            assert(v@.subrange(at + n, v@.len() as int) =~= v@.skip(at + n));
            return Some((matter, rest));
        }
        at += 1;
    }
    proof {
        let rest = v@.skip(at as int);
        reveal_strlit("\n---");
        reveal_strlit("\r\n---");
        assert(rest.len() == 0);
        assert(matter_close(rest) is None);
        reveal_with_fuel(first_close, 2);
    }
    None
}

/// Characters that a rule key may hold.
pub open spec fn is_key_char(c: char) -> bool {
    is_alnum(c) || c == '.' || c == '_' || c == '-'
}

/// ASCII letters and digits.
pub open spec fn is_alnum(c: char) -> bool {
    ('a' <= c && c <= 'z') || ('A' <= c && c <= 'Z') || ('0' <= c && c <= '9')
}

/// A rule key: up to 128 letters, digits, dots, underscores and hyphens, a letter or digit first.
pub open spec fn is_key(s: Seq<char>) -> bool {
    &&& 1 <= s.len() <= 128
    &&& is_alnum(s[0])
    &&& forall|i: int| 0 <= i < s.len() ==> is_key_char(#[trigger] s[i])
}

fn alnum(c: char) -> (r: bool)
    ensures
        r == is_alnum(c),
{
    ('a' <= c && c <= 'z') || ('A' <= c && c <= 'Z') || ('0' <= c && c <= '9')
}

/// Whether `s` is a rule key.
pub fn valid_key(s: &str) -> (r: bool)
    ensures
        r == is_key(s@),
{
    let v = chars_of(s);
    if v.len() < 1 || v.len() > 128 || !alnum(v[0]) {
        return false;
    }
    let mut i: usize = 0;
    while i < v.len()
        invariant
            i <= v@.len(),
            v@ == s@,
            forall|k: int| 0 <= k < i ==> is_key_char(#[trigger] v@[k]),
        decreases v@.len() - i,
    {
        let c: char = v[i];
        if !alnum(c) && c != '.' && c != '_' && c != '-' {
            return false;
        }
        i += 1;
    }
    true
}

/// How a character shows in a quoted key.
pub open spec fn repr_char(c: char) -> Seq<char> {
    if c == '\\' {
        "\\\\"@
    } else if c == '\'' {
        "\\'"@
    } else if c == '\n' {
        "\\n"@
    } else if c == '\r' {
        "\\r"@
    } else if c == '\t' {
        "\\t"@
    } else if (c as u32) < 0x20 {
        "\\x"@ + seq![digit(c as u32 as int / 16), digit(c as u32 as int % 16)]
    } else {
        seq![c]
    }
}

/// The characters of `s` as they show in a quoted key.
pub open spec fn repr_body(s: Seq<char>) -> Seq<char>
    decreases s.len(),
{
    if s.len() == 0 {
        Seq::empty()
    } else {
        repr_body(s.drop_last()) + repr_char(s.last())
    }
}

/// `s` in single quotes, with its control characters and quotes escaped.
pub open spec fn repr(s: Seq<char>) -> Seq<char> {
    "'"@ + repr_body(s) + "'"@
}

/// `s` in single quotes, with its control characters and quotes escaped.
pub fn py_repr(s: &str) -> (r: String)
    ensures
        r@ == repr(s@),
{
    let v = chars_of(s);
    let mut out = "'".to_string();
    let mut i: usize = 0;
    assert(v@.take(0) =~= Seq::empty());
    assert(out@ =~= "'"@ + repr_body(v@.take(0)));
    while i < v.len()
        invariant
            i <= v@.len(),
            out@ == "'"@ + repr_body(v@.take(i as int)),
        decreases v@.len() - i,
    {
        let c: char = v[i];
        let code: u32 = c as u32;
        let ghost before = out@;
        if c == '\\' {
            out.push_str("\\\\");
        } else if c == '\'' {
            out.push_str("\\'");
        } else if c == '\n' {
            out.push_str("\\n");
        } else if c == '\r' {
            out.push_str("\\r");
        } else if c == '\t' {
            out.push_str("\\t");
        } else if code < 0x20 {
            let n: u8 = code as u8;
            out.push_str("\\x");
            out.push(digit_of(n / 16));
            out.push(digit_of(n % 16));
        } else {
            out.push(c);
        }
        assert(out@ =~= before + repr_char(c));
        i += 1;
        proof {
            assert(v@.take(i as int).drop_last() =~= v@.take(i - 1));
            assert(out@ =~= "'"@ + repr_body(v@.take(i as int)));
        }
    }
    assert(v@.take(i as int) =~= s@);
    out.push_str("'");
    out
}

/// The entries of a YAML mapping, or why `source` holds none.
pub open spec fn mapping_of(source: Seq<char>, label: Seq<char>, path: Seq<char>) -> Result<
    Entries,
    ErrorV,
> {
    match yaml_document(source) {
        Err(e) => Err(invalid_error("invalid YAML in "@ + label + ": "@ + e, path)),
        Ok(y) => match bridged(y) {
            JsonV::Object(entries) => Ok(entries),
            _ => Err(invalid_error(label + " must contain a YAML mapping"@, path)),
        },
    }
}

/// Reads a YAML mapping.
fn yaml_mapping(source: &str, label: &str, path: &str) -> (r: Result<
    Vec<(String, Json)>,
    ReviewKBError,
>)
    ensures
        match r {
            Ok(entries) => mapping_of(source@, label@, path@) == Ok::<Entries, ErrorV>(
                entries_view(entries@),
            ),
            Err(e) => mapping_of(source@, label@, path@) == Err::<Entries, ErrorV>(e@),
        },
{
    match read_yaml(source) {
        Err(e) => {
            let mut message = "invalid YAML in ".to_string();
            message.push_str(label);
            message.push_str(": ");
            message.push_str(e.as_str());
            Err(invalid(message, path))
        },
        Ok(document) => {
            let value = yml_to_json(&document);
            match value {
                Json::Object(entries) => Ok(entries),
                _ => Err(invalid(glue(label, " must contain a YAML mapping"), path)),
            }
        },
    }
}

/// The entries of `entries` whose names are not among `allowed`, in ascending order.
pub open spec fn extra_entries(entries: Entries, allowed: Seq<Seq<char>>) -> Entries
    decreases entries.len(),
{
    if entries.len() == 0 {
        Seq::empty()
    } else {
        let front = extra_entries(entries.drop_last(), allowed);
        if allowed.contains(entries.last().0) {
            front
        } else {
            place(front, entries.last().0, JsonV::Null)
        }
    }
}

/// The names in `entries`.
pub open spec fn names_of(entries: Entries) -> Seq<Seq<char>> {
    entries.map_values(|e: (Seq<char>, JsonV)| e.0)
}

/// The names of `entries` that are not among `allowed`, in ascending order.
fn unknown_fields(entries: &Vec<(String, Json)>, allowed: &Vec<String>) -> (r: Vec<String>)
    ensures
        strings(r@) == names_of(extra_entries(entries_view(entries@), strings(allowed@))),
{
    let ghost all = entries_view(entries@);
    let ghost known = strings(allowed@);
    let mut extra: Vec<(String, Json)> = Vec::new();
    let mut i: usize = 0;
    proof {
        assert(all.take(0) =~= Seq::empty());
        assert(entries_view(extra@) =~= Seq::empty());
    }
    while i < entries.len()
        invariant
            i <= entries@.len(),
            all == entries_view(entries@),
            known == strings(allowed@),
            entries_view(extra@) == extra_entries(all.take(i as int), known),
        decreases entries@.len() - i,
    {
        proof {
            assert(all.take(i + 1).drop_last() =~= all.take(i as int));
            assert(all.take(i + 1).last() == all[i as int]);
        }
        if !is_member(allowed, entries[i].0.as_str()) {
            place_entry(&mut extra, entries[i].0.as_str(), Json::Null);
        }
        i += 1;
    }
    assert(all.take(i as int) =~= all);
    let mut out: Vec<String> = Vec::new();
    i = 0;
    while i < extra.len()
        invariant
            i <= extra@.len(),
            out@.len() == i,
            forall|k: int| 0 <= k < i ==> (#[trigger] out@[k])@ == extra@[k].0@,
        decreases extra@.len() - i,
    {
        out.push(extra[i].0.clone());
        i += 1;
    }
    assert(strings(out@) =~= names_of(entries_view(extra@)));
    out
}

/// The fields of the front matter.
pub open spec fn file_fields() -> Seq<Seq<char>> {
    seq!["schema_version"@, "checklist_version"@, "global_description"@]
}

/// The fields of a rule's metadata block.
pub open spec fn rule_meta_fields() -> Seq<Seq<char>> {
    seq!["summary"@, "tags"@, "paths"@, "languages"@]
}

fn file_field_names() -> (r: Vec<String>)
    ensures
        strings(r@) == file_fields(),
{
    let mut r: Vec<String> = Vec::new();
    r.push("schema_version".to_string());
    r.push("checklist_version".to_string());
    r.push("global_description".to_string());
    assert(strings(r@) =~= file_fields());
    r
}

fn rule_field_names() -> (r: Vec<String>)
    ensures
        strings(r@) == rule_meta_fields(),
{
    let mut r: Vec<String> = Vec::new();
    r.push("summary".to_string());
    r.push("tags".to_string());
    r.push("paths".to_string());
    r.push("languages".to_string());
    assert(strings(r@) =~= rule_meta_fields());
    r
}

/// The first `n` items as texts, each once, or what is wrong with the first one that is no text
/// or is blank.
pub open spec fn list_prefix(items: Seq<JsonV>, n: int, name: Seq<char>, path: Seq<char>) -> Result<
    Seq<Seq<char>>,
    ErrorV,
>
    decreases n,
{
    if n <= 0 {
        Ok(Seq::empty())
    } else {
        match list_prefix(items, n - 1, name, path) {
            Err(e) => Err(e),
            Ok(list) => match items[n - 1] {
                JsonV::Text(s) => if is_blank(s) {
                    Err(invalid_error(name + " entries must not be empty"@, path))
                } else if list.contains(s) {
                    Ok(list)
                } else {
                    Ok(list.push(s))
                },
                _ => Err(invalid_error(name + " must be an array of strings"@, path)),
            },
        }
    }
}

/// The list under `name`: none where the field is absent, else its texts, each once.
pub open spec fn list_field(value: Option<JsonV>, name: Seq<char>, path: Seq<char>) -> Result<
    Seq<Seq<char>>,
    ErrorV,
> {
    match value {
        None => Ok(Seq::empty()),
        Some(JsonV::Array(items)) => list_prefix(items, items.len() as int, name, path),
        Some(_) => Err(invalid_error(name + " must be an array of strings"@, path)),
    }
}

/// A list as a value of views.
pub open spec fn list_view(r: Result<Vec<String>, ReviewKBError>) -> Result<
    Seq<Seq<char>>,
    ErrorV,
> {
    match r {
        Ok(list) => Ok(strings(list@)),
        Err(e) => Err(e@),
    }
}

proof fn lemma_list_prefix_fails(
    items: Seq<JsonV>,
    lo: int,
    hi: int,
    name: Seq<char>,
    path: Seq<char>,
)
    requires
        0 <= lo <= hi,
        list_prefix(items, lo, name, path) is Err,
    ensures
        list_prefix(items, hi, name, path) == list_prefix(items, lo, name, path),
    decreases hi,
{
    if lo < hi {
        lemma_list_prefix_fails(items, lo, hi - 1, name, path);
    }
}

/// Reads a list of texts, each once.
pub fn string_list(value: Option<&Json>, name: &str, path: &str) -> (r: Result<
    Vec<String>,
    ReviewKBError,
>)
    ensures
        list_view(r) == list_field(
            match value {
                Some(v) => Some(v@),
                None => None,
            },
            name@,
            path@,
        ),
{
    let mut list: Vec<String> = Vec::new();
    assert(strings(list@) =~= Seq::empty());
    match value {
        None => Ok(list),
        Some(v) => match v {
            Json::Array(items) => {
                let ghost all = crate::json::items_view(items@);
                let mut i: usize = 0;
                while i < items.len()
                    invariant
                        i <= items@.len(),
                        all == crate::json::items_view(items@),
                        value matches Some(Json::Array(own)) && own@ == items@,
                        list_prefix(all, i as int, name@, path@) == Ok::<Seq<Seq<char>>, ErrorV>(
                            strings(list@),
                        ),
                    decreases items@.len() - i,
                {
                    let ghost before = list@;
                    match &items[i] {
                        Json::Text(s) => {
                            if blank(s.as_str()) {
                                proof {
                                    lemma_list_prefix_fails(
                                        all,
                                        i + 1,
                                        all.len() as int,
                                        name@,
                                        path@,
                                    );
                                }
                                return Err(
                                    invalid(glue(name, " entries must not be empty"), path),
                                );
                            }
                            if !is_member(&list, s.as_str()) {
                                list.push(s.clone());
                                assert(strings(list@) =~= strings(before).push(s@));
                            }
                        },
                        _ => {
                            proof {
                                lemma_list_prefix_fails(
                                    all,
                                    i + 1,
                                    all.len() as int,
                                    name@,
                                    path@,
                                );
                            }
                            return Err(invalid(glue(name, " must be an array of strings"), path));
                        },
                    }
                    i += 1;
                }
                Ok(list)
            },
            _ => Err(invalid(glue(name, " must be an array of strings"), path)),
        },
    }
}

/// Whether every text is its own lowercase form.
pub open spec fn all_lowercase(list: Seq<Seq<char>>) -> bool {
    forall|i: int| 0 <= i < list.len() ==> lowercase(#[trigger] list[i]) == list[i]
}

fn lowercase_only(list: &Vec<String>) -> (r: bool)
    ensures
        r == all_lowercase(strings(list@)),
{
    let mut i: usize = 0;
    while i < list.len()
        invariant
            i <= list@.len(),
            forall|k: int|
                0 <= k < i ==> lowercase(#[trigger] strings(list@)[k]) == strings(list@)[k],
        decreases list@.len() - i,
    {
        assert(strings(list@)[i as int] == list@[i as int]@);
        if !same(list[i].to_lowercase().as_str(), list[i].as_str()) {
            return false;
        }
        i += 1;
    }
    true
}

/// The rule that a metadata block and the text behind it make.
pub open spec fn rule_from(
    key: Seq<char>,
    meta: Entries,
    fence_line: int,
    content: Seq<char>,
    path: Seq<char>,
) -> Result<RuleV, ErrorV> {
    let unknown = names_of(extra_entries(meta, rule_meta_fields()));
    let tags = list_field(lookup(meta, "tags"@), "tags"@, path);
    let paths = list_field(lookup(meta, "paths"@), "paths"@, path);
    let languages = list_field(lookup(meta, "languages"@), "languages"@, path);
    if unknown.len() > 0 {
        Err(
            invalid_line_error(
                "unknown fields for rule "@ + key + ": "@ + joined(unknown, ", "@),
                path,
                fence_line + 1,
            ),
        )
    } else if !(lookup(meta, "summary"@) matches Some(JsonV::Text(s)) && !is_blank(s)
        && !s.contains('\n')) {
        Err(
            invalid_error(
                "rule "@ + key + " summary must be a non-empty single line"@,
                path,
            ),
        )
    } else if tags is Err {
        Err(tags->Err_0)
    } else if paths is Err {
        Err(paths->Err_0)
    } else if languages is Err {
        Err(languages->Err_0)
    } else if !all_lowercase(languages->Ok_0) {
        Err(invalid_error("rule "@ + key + " languages must be lowercase"@, path))
    } else if content.len() == 0 {
        Err(invalid_error("rule "@ + key + " content must not be empty"@, path))
    } else {
        let rule = RuleV {
            key,
            summary: trimmed(lookup(meta, "summary"@)->0->Text_0),
            content,
            tags: tags->Ok_0,
            paths: paths->Ok_0,
            languages: languages->Ok_0,
            source_rule_hash: Seq::empty(),
        };
        Ok(RuleV { source_rule_hash: source_hash(rule), ..rule })
    }
}

/// A rule as a value of views.
pub open spec fn rule_view(r: Result<Rule, ReviewKBError>) -> Result<RuleV, ErrorV> {
    match r {
        Ok(rule) => Ok(rule@),
        Err(e) => Err(e@),
    }
}

/// The value under `name`.
fn value_of<'a>(entries: &'a Vec<(String, Json)>, name: &str) -> (r: Option<&'a Json>)
    ensures
        match r {
            Some(v) => lookup(entries_view(entries@), name@) == Some(v@),
            None => lookup(entries_view(entries@), name@) is None,
        },
{
    let at: usize = find(entries, name);
    if at < entries.len() {
        Some(&entries[at].1)
    } else {
        None
    }
}

/// Makes a rule of its metadata block and the text behind it.
fn make_rule(
    key: &str,
    meta: &Vec<(String, Json)>,
    fence_line: usize,
    content: String,
    path: &str,
) -> (r: Result<Rule, ReviewKBError>)
    requires
        fence_line < usize::MAX,
    ensures
        rule_view(r) == rule_from(
            key@,
            entries_view(meta@),
            fence_line as int,
            content@,
            path@,
        ),
{
    let unknown = unknown_fields(meta, &rule_field_names());
    assert(strings(unknown@).len() == unknown@.len());
    if unknown.len() > 0 {
        let mut message = "unknown fields for rule ".to_string();
        message.push_str(key);
        message.push_str(": ");
        message.push_str(join(&unknown, ", ").as_str());
        return Err(invalid_line(message, path, fence_line));
    }
    let summary = match value_of(meta, "summary") {
        Some(Json::Text(s)) => {
            if blank(s.as_str()) || has_char(s.as_str(), '\n') {
                return Err(
                    invalid(
                        glue3("rule ", key, " summary must be a non-empty single line"),
                        path,
                    ),
                );
            }
            trim(s.as_str())
        },
        _ => {
            return Err(
                invalid(glue3("rule ", key, " summary must be a non-empty single line"), path),
            );
        },
    };
    let tags = match string_list(value_of(meta, "tags"), "tags", path) {
        Ok(list) => list,
        Err(e) => return Err(e),
    };
    let paths = match string_list(value_of(meta, "paths"), "paths", path) {
        Ok(list) => list,
        Err(e) => return Err(e),
    };
    let languages = match string_list(value_of(meta, "languages"), "languages", path) {
        Ok(list) => list,
        Err(e) => return Err(e),
    };
    if !lowercase_only(&languages) {
        return Err(invalid(glue3("rule ", key, " languages must be lowercase"), path));
    }
    proof {
        reveal_strlit("");
        assert(content@.len() == 0 ==> content@ =~= ""@);
    }
    if same(content.as_str(), "") {
        return Err(invalid(glue3("rule ", key, " content must not be empty"), path));
    }
    let mut rule = Rule {
        key: key.to_string(),
        summary,
        content,
        tags,
        paths,
        languages,
        source_rule_hash: "".to_string(),
    };
    assert(""@ =~= Seq::<char>::empty());
    let hash = canonical_hash(&rule_fields(&rule));
    rule.source_rule_hash = hash;
    Ok(rule)
}

/// The metadata blocks that open between the lines `lo` and `hi`.
pub open spec fn section_fences(fences: Seq<FenceV>, lo: int, hi: int) -> Seq<FenceV>
    decreases fences.len(),
{
    if fences.len() == 0 {
        Seq::empty()
    } else {
        let front = section_fences(fences.drop_last(), lo, hi);
        let f = fences.last();
        if lo < f.open && f.open < hi && f.info == "yaml review-rule"@ {
            front.push(f)
        } else {
            front
        }
    }
}

proof fn lemma_section_fences(fences: Seq<FenceV>, lo: int, hi: int)
    ensures
        forall|k: int|
            0 <= k < section_fences(fences, lo, hi).len() ==> {
                let f = #[trigger] section_fences(fences, lo, hi)[k];
                fences.contains(f) && lo < f.open && f.open < hi
            },
    decreases fences.len(),
{
    if fences.len() > 0 {
        lemma_section_fences(fences.drop_last(), lo, hi);
        let found = section_fences(fences, lo, hi);
        let front = section_fences(fences.drop_last(), lo, hi);
        assert forall|k: int| 0 <= k < found.len() implies {
            let f = #[trigger] found[k];
            fences.contains(f) && lo < f.open && f.open < hi
        } by {
            if k < front.len() {
                let at = fences.drop_last().index_of(front[k]);
                assert(fences[at] == front[k]);
            } else {
                assert(fences[fences.len() - 1] == found[k]);
            }
        }
    }
}

/// Where the section of the heading at `p` ends.
pub open spec fn section_end(headings: Seq<HeadingV>, p: int, count: int) -> int {
    if p + 1 < headings.len() {
        headings[p + 1].line
    } else {
        count
    }
}

/// The key of an earlier heading that differs from that at `p` in case only, or not at all.
pub open spec fn clash(headings: Seq<HeadingV>, p: int, upto: int) -> Option<Seq<char>>
    decreases upto,
{
    if upto <= 0 {
        None
    } else {
        match clash(headings, p, upto - 1) {
            Some(k) => Some(k),
            None => if lowercase(headings[upto - 1].key) == lowercase(headings[p].key) {
                Some(headings[upto - 1].key)
            } else {
                None
            },
        }
    }
}

/// Whether the lines `lo..hi` are all blank.
pub open spec fn blank_between(lines: Seq<Seq<char>>, lo: int, hi: int) -> bool {
    forall|i: int| lo <= i < hi ==> is_blank(#[trigger] lines[i])
}

/// The rule of the heading at `p`, or what is wrong with its section.
pub open spec fn rule_at(path: Seq<char>, lines: Seq<Seq<char>>, p: int) -> Result<RuleV, ErrorV> {
    let headings = headings_of(lines);
    let at = headings[p].line;
    let key = headings[p].key;
    let end = section_end(headings, p, lines.len() as int);
    let blocks = section_fences(fences_of(lines), at, end);
    if !is_key(key) {
        Err(invalid_line_error("invalid rule key: "@ + repr(key), path, at + 1))
    } else if let Some(other) = clash(headings, p, p) {
        Err(
            invalid_line_error(
                "duplicate rule key: "@ + key + " conflicts with "@ + other,
                path,
                at + 1,
            ),
        )
    } else if blocks.len() != 1 {
        Err(
            invalid_line_error(
                "rule "@ + key
                    + " must contain exactly one `yaml review-rule` metadata block"@,
                path,
                at + 1,
            ),
        )
    } else if !blank_between(lines, at + 1, blocks[0].open) {
        Err(
            invalid_line_error(
                "rule "@ + key + " metadata block must appear before rule content"@,
                path,
                at + 1,
            ),
        )
    } else {
        match mapping_of(blocks[0].content, "rule "@ + key + " metadata"@, path) {
            Err(e) => Err(e),
            Ok(meta) => rule_from(
                key,
                meta,
                blocks[0].open,
                trimmed(joined(lines.subrange(blocks[0].end, end), "\n"@)),
                path,
            ),
        }
    }
}

/// The rules of the first `n` headings, or what is wrong with the first section that is wrong.
pub open spec fn rules_upto(path: Seq<char>, lines: Seq<Seq<char>>, n: int) -> Result<
    Seq<RuleV>,
    ErrorV,
>
    decreases n,
{
    if n <= 0 {
        Ok(Seq::empty())
    } else {
        match rules_upto(path, lines, n - 1) {
            Err(e) => Err(e),
            Ok(rules) => match rule_at(path, lines, n - 1) {
                Err(e) => Err(e),
                Ok(rule) => Ok(rules.push(rule)),
            },
        }
    }
}

/// Whether `name` is bound to a text with more than white space in it.
pub open spec fn has_text(meta: Entries, name: Seq<char>) -> bool {
    lookup(meta, name) matches Some(JsonV::Text(s)) && !is_blank(s)
}

/// The checklist that a text makes, or the first thing that is wrong with it.
pub open spec fn checklist_of_text(
    path: Seq<char>,
    source: Seq<char>,
    content_hash: Seq<char>,
) -> Result<ChecklistV, ErrorV> {
    match front_matter(source) {
        None => Err(invalid_error("checklist must start with YAML Front Matter"@, path)),
        Some((matter, body)) => match mapping_of(matter, "Front Matter"@, path) {
            Err(e) => Err(e),
            Ok(meta) => {
                let unknown = names_of(extra_entries(meta, file_fields()));
                let lines = lines_of(body);
                let count = headings_of(lines).len() as int;
                if unknown.len() > 0 {
                    Err(
                        invalid_error(
                            "unknown Front Matter fields: "@ + joined(unknown, ", "@),
                            path,
                        ),
                    )
                } else if lookup(meta, "schema_version"@) != Some(JsonV::Int(1)) {
                    Err(invalid_error("schema_version must be 1"@, path))
                } else if !has_text(meta, "checklist_version"@) {
                    Err(
                        invalid_error("checklist_version must be a non-empty string"@, path),
                    )
                } else if !has_text(meta, "global_description"@) {
                    Err(
                        invalid_error("global_description must be a non-empty string"@, path),
                    )
                } else if count == 0 {
                    Err(
                        invalid_error(
                            "checklist must contain at least one level-two rule"@,
                            path,
                        ),
                    )
                } else {
                    match rules_upto(path, lines, count) {
                        Err(e) => Err(e),
                        Ok(rules) => Ok(
                            ChecklistV {
                                schema_version: 1,
                                checklist_version: trimmed(
                                    lookup(meta, "checklist_version"@)->0->Text_0,
                                ),
                                global_description: trimmed(
                                    lookup(meta, "global_description"@)->0->Text_0,
                                ),
                                content_hash,
                                rules,
                            },
                        ),
                    }
                }
            },
        },
    }
}

/// The checklist that a file makes; `None` stands for a file that cannot be read.
pub open spec fn checklist_of(path: Seq<char>, file: Option<Seq<u8>>) -> Result<
    ChecklistV,
    ErrorV,
> {
    match file {
        None => Err(not_found_error(path)),
        Some(raw) => if !vstd::utf8::valid_utf8(raw) {
            Err(invalid_error("checklist must be valid UTF-8"@, path))
        } else {
            checklist_of_text(path, vstd::utf8::decode_utf8(raw), digest_text(raw))
        },
    }
}

/// A checklist as a value of views.
pub open spec fn checklist_view(r: Result<Checklist, ReviewKBError>) -> Result<
    ChecklistV,
    ErrorV,
> {
    match r {
        Ok(c) => Ok(c@),
        Err(e) => Err(e@),
    }
}

/// `std::str::from_utf8`: the text that the bytes encode, where they are valid UTF-8.
#[verifier::external_body]
fn text_from_utf8(raw: &[u8]) -> (r: Option<String>)
    ensures
        r is Some == vstd::utf8::valid_utf8(raw@),
        r is Some ==> r->0@ == vstd::utf8::decode_utf8(raw@),
{
    std::str::from_utf8(raw).ok().map(|s| s.to_string())
}

/// The metadata blocks that open between the lines `lo` and `hi`: how many, and the first one.
fn find_blocks(fences: &Vec<ScannedFence>, lo: usize, hi: usize) -> (r: (usize, usize))
    ensures
        r.0 == section_fences(fences_view(fences@), lo as int, hi as int).len(),
        r.0 > 0 ==> r.1 < fences@.len() && fences@[r.1 as int]@ == section_fences(
            fences_view(fences@),
            lo as int,
            hi as int,
        )[0],
{
    let ghost all = fences_view(fences@);
    let mut count: usize = 0;
    let mut first: usize = 0;
    let n: usize = fences.len();
    let mut i: usize = 0;
    assert(all.take(0) =~= Seq::empty());
    while i < n
        invariant
            i <= n == fences@.len(),
            all == fences_view(fences@),
            count <= i,
            count == section_fences(all.take(i as int), lo as int, hi as int).len(),
            count > 0 ==> first < n && fences@[first as int]@ == section_fences(
                all.take(i as int),
                lo as int,
                hi as int,
            )[0],
        decreases n - i,
    {
        proof {
            assert(all.take(i + 1).drop_last() =~= all.take(i as int));
            assert(all.take(i + 1).last() == fences@[i as int]@);
        }
        let f = &fences[i];
        if lo < f.open && f.open < hi && same(f.info.as_str(), "yaml review-rule") {
            if count == 0 {
                first = i;
            }
            count += 1;
        }
        i += 1;
    }
    assert(all.take(n as int) =~= all);
    (count, first)
}

/// The key of an earlier heading that differs from that at `p` in case only, or not at all.
fn find_clash(scan: &Scan, p: usize) -> (r: Option<String>)
    requires
        p < scan.headings@.len(),
    ensures
        crate::path_util::optional_text(r) == clash(
            headings_view(scan.headings@),
            p as int,
            p as int,
        ),
{
    let ghost all = headings_view(scan.headings@);
    let folded = scan.headings[p].key.to_lowercase();
    let mut i: usize = 0;
    while i < p
        invariant
            i <= p < scan.headings@.len(),
            all == headings_view(scan.headings@),
            folded@ == lowercase(all[p as int].key),
            clash(all, p as int, i as int) is None,
        decreases p - i,
    {
        assert(all[i as int] == scan.headings@[i as int]@);
        if same(scan.headings[i].key.to_lowercase().as_str(), folded.as_str()) {
            proof {
                lemma_clash_found(all, p as int, i + 1, p as int);
            }
            return Some(scan.headings[i].key.clone());
        }
        i += 1;
    }
    None
}

proof fn lemma_clash_found(headings: Seq<HeadingV>, p: int, lo: int, hi: int)
    requires
        0 <= lo <= hi,
        clash(headings, p, lo) is Some,
    ensures
        clash(headings, p, hi) == clash(headings, p, lo),
    decreases hi,
{
    if lo < hi {
        lemma_clash_found(headings, p, lo, hi - 1);
    }
}

fn all_blank(lines: &Vec<String>, lo: usize, hi: usize) -> (r: bool)
    requires
        lo <= hi <= lines@.len(),
    ensures
        r == blank_between(strings(lines@), lo as int, hi as int),
{
    let mut i: usize = lo;
    while i < hi
        invariant
            lo <= i <= hi <= lines@.len(),
            forall|k: int| lo <= k < i ==> is_blank(#[trigger] strings(lines@)[k]),
        decreases hi - i,
    {
        assert(strings(lines@)[i as int] == lines@[i as int]@);
        if !blank(lines[i].as_str()) {
            return false;
        }
        i += 1;
    }
    true
}

/// The rule of the heading at `p`.
fn read_rule(path: &str, lines: &Vec<String>, scan: &Scan, p: usize) -> (r: Result<
    Rule,
    ReviewKBError,
>)
    requires
        headings_view(scan.headings@) == headings_of(strings(lines@)),
        fences_view(scan.fences@) == fences_of(strings(lines@)),
        p < scan.headings@.len(),
    ensures
        rule_view(r) == rule_at(path@, strings(lines@), p as int),
{
    let ghost all = strings(lines@);
    let ghost headings = headings_of(all);
    let ghost fences = fences_of(all);
    let count: usize = lines.len();
    let total: usize = scan.headings.len();
    proof {
        headings_lie_outside_fences(all);
        assert(headings[p as int] == scan.headings@[p as int]@);
        assert(p + 1 < total ==> headings[p + 1] == scan.headings@[p + 1]@);
    }
    let at: usize = scan.headings[p].line;
    let key = scan.headings[p].key.as_str();
    if !valid_key(key) {
        return Err(invalid_line(glue("invalid rule key: ", py_repr(key).as_str()), path, at));
    }
    if let Some(other) = find_clash(scan, p) {
        let mut message = "duplicate rule key: ".to_string();
        message.push_str(key);
        message.push_str(" conflicts with ");
        message.push_str(other.as_str());
        return Err(invalid_line(message, path, at));
    }
    let end: usize = if p < total - 1 {
        scan.headings[p + 1].line
    } else {
        count
    };
    assert(end == section_end(headings, p as int, count as int));
    let (found, first) = find_blocks(&scan.fences, at, end);
    if found != 1 {
        return Err(
            invalid_line(
                glue3(
                    "rule ",
                    key,
                    " must contain exactly one `yaml review-rule` metadata block",
                ),
                path,
                at,
            ),
        );
    }
    let fence = &scan.fences[first];
    proof {
        lemma_section_fences(fences, at as int, end as int);
        let f = section_fences(fences, at as int, end as int)[0];
        assert(fences[first as int] == fence@);
        assert(fence@ == f);
        assert(at < fence.open < end);
        if p + 1 < total {
            assert(headings[p + 1].line < fences[first as int].open || headings[p + 1].line
                >= fences[first as int].end);
        }
        assert(fence.end <= end <= count);
    }
    if !all_blank(lines, at + 1, fence.open) {
        return Err(
            invalid_line(
                glue3("rule ", key, " metadata block must appear before rule content"),
                path,
                at,
            ),
        );
    }
    let label = glue3("rule ", key, " metadata");
    let meta = match yaml_mapping(fence.content.as_str(), label.as_str(), path) {
        Ok(m) => m,
        Err(e) => return Err(e),
    };
    let content = trim(join_range(lines, fence.end, end, "\n").as_str());
    make_rule(key, &meta, fence.open, content, path)
}

proof fn lemma_rules_fail(path: Seq<char>, lines: Seq<Seq<char>>, lo: int, hi: int)
    requires
        0 <= lo <= hi,
        rules_upto(path, lines, lo) is Err,
    ensures
        rules_upto(path, lines, hi) == rules_upto(path, lines, lo),
    decreases hi,
{
    if lo < hi {
        lemma_rules_fail(path, lines, lo, hi - 1);
    }
}

/// The text under `name`, where it has more than white space in it.
fn text_value<'a>(meta: &'a Vec<(String, Json)>, name: &str) -> (r: Option<&'a str>)
    ensures
        r is Some == has_text(entries_view(meta@), name@),
        r matches Some(t) ==> lookup(entries_view(meta@), name@) == Some(JsonV::Text(t@)),
{
    match value_of(meta, name) {
        Some(Json::Text(s)) => if blank(s.as_str()) {
            None
        } else {
            Some(s.as_str())
        },
        _ => None,
    }
}

/// Parses a checklist; `file` holds the bytes at `path`, where they could be read.
pub fn parse_checklist(path: &str, file: Option<&[u8]>) -> (r: Result<Checklist, ReviewKBError>)
    ensures
        checklist_view(r) == checklist_of(
            path@,
            match file {
                Some(raw) => Some(raw@),
                None => None,
            },
        ),
{
    let raw = match file {
        Some(raw) => raw,
        None => return Err(
            ReviewKBError::new(
                ErrorCode::ChecklistNotFound,
                glue("checklist not found: ", path),
                Json::object().with("path", Json::text(path)),
            ),
        ),
    };
    let source = match text_from_utf8(raw) {
        Some(s) => s,
        None => return Err(invalid("checklist must be valid UTF-8".to_string(), path)),
    };
    let (matter, body) = match split_front_matter(source.as_str()) {
        Some(parts) => parts,
        None => return Err(
            invalid("checklist must start with YAML Front Matter".to_string(), path),
        ),
    };
    let meta = match yaml_mapping(matter.as_str(), "Front Matter", path) {
        Ok(m) => m,
        Err(e) => return Err(e),
    };
    let unknown = unknown_fields(&meta, &file_field_names());
    assert(strings(unknown@).len() == unknown@.len());
    if unknown.len() > 0 {
        let list = join(&unknown, ", ");
        return Err(invalid(glue("unknown Front Matter fields: ", list.as_str()), path));
    }
    let schema_ok = match value_of(&meta, "schema_version") {
        Some(v) => v.as_i64() == Some(1i64),
        None => false,
    };
    if !schema_ok {
        return Err(invalid("schema_version must be 1".to_string(), path));
    }
    let checklist_version = match text_value(&meta, "checklist_version") {
        Some(s) => trim(s),
        None => return Err(
            invalid("checklist_version must be a non-empty string".to_string(), path),
        ),
    };
    let global_description = match text_value(&meta, "global_description") {
        Some(s) => trim(s),
        None => return Err(
            invalid("global_description must be a non-empty string".to_string(), path),
        ),
    };
    let lines = py_splitlines(body.as_str());
    let scan = scan_markdown(&lines);
    let ghost all = strings(lines@);
    let total: usize = scan.headings.len();
    assert(headings_of(all).len() == total);
    if total == 0 {
        return Err(
            invalid("checklist must contain at least one level-two rule".to_string(), path),
        );
    }
    let mut rules: Vec<Rule> = Vec::new();
    let mut p: usize = 0;
    assert(rules_view(rules@) =~= Seq::empty());
    while p < total
        invariant
            p <= total == scan.headings@.len(),
            all == strings(lines@),
            headings_view(scan.headings@) == headings_of(all),
            fences_view(scan.fences@) == fences_of(all),
            rules_upto(path@, all, p as int) == Ok::<Seq<RuleV>, ErrorV>(rules_view(rules@)),
            all == lines_of(body@),
            front_matter(source@) == Some((matter@, body@)),
            checklist_of_text(path@, source@, digest_text(raw@)) == (match rules_upto(
                path@,
                all,
                total as int,
            ) {
                Err(e) => Err::<ChecklistV, ErrorV>(e),
                Ok(rs) => Ok::<ChecklistV, ErrorV>(
                    ChecklistV {
                        schema_version: 1,
                        checklist_version: checklist_version@,
                        global_description: global_description@,
                        content_hash: digest_text(raw@),
                        rules: rs,
                    },
                ),
            }),
            checklist_of(
                path@,
                match file {
                    Some(raw) => Some(raw@),
                    None => None,
                },
            ) == checklist_of_text(path@, source@, digest_text(raw@)),
        decreases total - p,
    {
        match read_rule(path, &lines, &scan, p) {
            Ok(rule) => {
                let ghost before = rules@;
                let ghost rv = rule@;
                rules.push(rule);
                assert(rules_view(rules@) =~= rules_view(before).push(rv));
            },
            Err(e) => {
                proof {
                    lemma_rules_fail(path@, all, p + 1, total as int);
                }
                return Err(e);
            },
        }
        p += 1;
    }
    Ok(
        Checklist {
            schema_version: 1,
            checklist_version,
            global_description,
            content_hash: sha256_hex(raw),
            rules,
        },
    )
}

// ---- what a checklist promises ----

/// A list without repetitions and without blank texts.
pub open spec fn proper_list(list: Seq<Seq<char>>) -> bool {
    &&& list.no_duplicates()
    &&& forall|i: int| 0 <= i < list.len() ==> !is_blank(#[trigger] list[i])
}

/// A rule as the format asks for it, with the digest of its own fields.
pub open spec fn proper_rule(r: RuleV) -> bool {
    &&& is_key(r.key)
    &&& !is_blank(r.summary)
    &&& trimmed(r.summary) == r.summary
    &&& !r.summary.contains('\n')
    &&& !is_blank(r.content)
    &&& trimmed(r.content) == r.content
    &&& proper_list(r.tags)
    &&& proper_list(r.paths)
    &&& proper_list(r.languages)
    &&& all_lowercase(r.languages)
    &&& r.source_rule_hash == source_hash(r)
}

/// A checklist as the format asks for it: at least one rule, and no two keys that differ in case
/// only.
pub open spec fn proper_checklist(c: ChecklistV) -> bool {
    &&& c.schema_version == 1
    &&& !is_blank(c.checklist_version)
    &&& trimmed(c.checklist_version) == c.checklist_version
    &&& !is_blank(c.global_description)
    &&& trimmed(c.global_description) == c.global_description
    &&& c.rules.len() > 0
    &&& forall|i: int| 0 <= i < c.rules.len() ==> proper_rule(#[trigger] c.rules[i])
    &&& forall|i: int, j: int|
        0 <= i < j < c.rules.len() ==> lowercase((#[trigger] c.rules[i]).key) != lowercase(
            (#[trigger] c.rules[j]).key,
        )
}

proof fn lemma_list_proper(items: Seq<JsonV>, n: int, name: Seq<char>, path: Seq<char>)
    requires
        list_prefix(items, n, name, path) is Ok,
    ensures
        proper_list(list_prefix(items, n, name, path)->Ok_0),
    decreases n,
{
    if n > 0 {
        lemma_list_proper(items, n - 1, name, path);
    }
}

proof fn lemma_field_proper(value: Option<JsonV>, name: Seq<char>, path: Seq<char>)
    requires
        list_field(value, name, path) is Ok,
    ensures
        proper_list(list_field(value, name, path)->Ok_0),
{
    if let Some(JsonV::Array(items)) = value {
        lemma_list_proper(items, items.len() as int, name, path);
    }
}

proof fn lemma_rule_proper(
    key: Seq<char>,
    meta: Entries,
    fence_line: int,
    text: Seq<char>,
    path: Seq<char>,
)
    requires
        is_key(key),
        rule_from(key, meta, fence_line, trimmed(text), path) is Ok,
    ensures
        proper_rule(rule_from(key, meta, fence_line, trimmed(text), path)->Ok_0),
        rule_from(key, meta, fence_line, trimmed(text), path)->Ok_0.key == key,
{
    let summary = lookup(meta, "summary"@)->0->Text_0;
    trimming_settles(summary);
    trimming_settles(text);
    lemma_blank(text);
    if trimmed(summary).contains('\n') {
        trimming_adds_nothing(summary, '\n');
    }
    lemma_field_proper(lookup(meta, "tags"@), "tags"@, path);
    lemma_field_proper(lookup(meta, "paths"@), "paths"@, path);
    lemma_field_proper(lookup(meta, "languages"@), "languages"@, path);
}

proof fn lemma_no_clash(headings: Seq<HeadingV>, p: int, upto: int, i: int)
    requires
        0 <= i < upto,
        clash(headings, p, upto) is None,
    ensures
        lowercase(headings[i].key) != lowercase(headings[p].key),
    decreases upto,
{
    if i < upto - 1 {
        lemma_no_clash(headings, p, upto - 1, i);
    }
}

proof fn lemma_rules_proper(path: Seq<char>, lines: Seq<Seq<char>>, n: int)
    requires
        n >= 0,
        rules_upto(path, lines, n) is Ok,
    ensures
        ({
            let rules = rules_upto(path, lines, n)->Ok_0;
            &&& rules.len() == n
            &&& forall|i: int|
                0 <= i < n ==> proper_rule(#[trigger] rules[i]) && rules[i].key == headings_of(
                    lines,
                )[i].key
            &&& forall|i: int, j: int|
                0 <= i < j < n ==> lowercase((#[trigger] rules[i]).key) != lowercase(
                    (#[trigger] rules[j]).key,
                )
        }),
    decreases n,
{
    if n > 0 {
        lemma_rules_proper(path, lines, n - 1);
        let headings = headings_of(lines);
        let p = n - 1;
        let key = headings[p].key;
        let end = section_end(headings, p, lines.len() as int);
        let block = section_fences(fences_of(lines), headings[p].line, end)[0];
        let meta = mapping_of(block.content, "rule "@ + key + " metadata"@, path)->Ok_0;
        lemma_rule_proper(
            key,
            meta,
            block.open,
            joined(lines.subrange(block.end, end), "\n"@),
            path,
        );
        let before = rules_upto(path, lines, n - 1)->Ok_0;
        let rules = rules_upto(path, lines, n)->Ok_0;
        assert(rules =~= before.push(rule_at(path, lines, p)->Ok_0));
        assert forall|i: int, j: int| 0 <= i < j < n implies lowercase((#[trigger] rules[i]).key)
            != lowercase((#[trigger] rules[j]).key) by {
            if j == p {
                lemma_no_clash(headings, p, p, i);
                assert(rules[i] == before[i]);
            } else {
                assert(rules[i] == before[i] && rules[j] == before[j]);
            }
        }
        assert forall|i: int| 0 <= i < n implies proper_rule(#[trigger] rules[i]) && rules[i].key
            == headings[i].key by {
            if i < p {
                assert(rules[i] == before[i]);
            }
        }
    }
}

/// Whatever is accepted as a checklist has the form that the format asks for, and carries the
/// digest of the file.
pub proof fn an_accepted_checklist_is_proper(path: Seq<char>, raw: Seq<u8>)
    requires
        checklist_of(path, Some(raw)) is Ok,
    ensures
        proper_checklist(checklist_of(path, Some(raw))->Ok_0),
        checklist_of(path, Some(raw))->Ok_0.content_hash == digest_text(raw),
{
    let source = vstd::utf8::decode_utf8(raw);
    let (matter, body) = front_matter(source)->0;
    let meta = mapping_of(matter, "Front Matter"@, path)->Ok_0;
    let lines = lines_of(body);
    trimming_settles(lookup(meta, "checklist_version"@)->0->Text_0);
    trimming_settles(lookup(meta, "global_description"@)->0->Text_0);
    lemma_rules_proper(path, lines, headings_of(lines).len() as int);
}

/// The rules of a checklist stand in the order of their headings.
pub proof fn rules_keep_their_order(path: Seq<char>, raw: Seq<u8>)
    requires
        checklist_of(path, Some(raw)) is Ok,
    ensures
        ({
            let rules = checklist_of(path, Some(raw))->Ok_0.rules;
            let (matter, body) = front_matter(vstd::utf8::decode_utf8(raw))->0;
            let headings = headings_of(lines_of(body));
            &&& rules.len() == headings.len()
            &&& forall|i: int| 0 <= i < rules.len() ==> (#[trigger] rules[i]).key == headings[i].key
        }),
{
    let (matter, body) = front_matter(vstd::utf8::decode_utf8(raw))->0;
    let lines = lines_of(body);
    lemma_rules_proper(path, lines, headings_of(lines).len() as int);
}

} // verus!
