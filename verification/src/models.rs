//! The domain models: rules, checklists and rule selections.

use vstd::prelude::*;

use crate::json::{field, texts, Entries, Json, JsonV};
use crate::text::{blank, is_blank, is_member, same, strings, trim, trimmed};

verus! {

broadcast use crate::json::group_json;

/// A review rule. `source_rule_hash` is that of the rule as the checklist states it.
#[derive(Debug)]
pub struct Rule {
    pub key: String,
    pub summary: String,
    pub content: String,
    pub tags: Vec<String>,
    pub paths: Vec<String>,
    pub languages: Vec<String>,
    pub source_rule_hash: String,
}

/// What a [`Rule`] stands for.
pub struct RuleV {
    pub key: Seq<char>,
    pub summary: Seq<char>,
    pub content: Seq<char>,
    pub tags: Seq<Seq<char>>,
    pub paths: Seq<Seq<char>>,
    pub languages: Seq<Seq<char>>,
    pub source_rule_hash: Seq<char>,
}

impl View for Rule {
    type V = RuleV;

    open spec fn view(&self) -> RuleV {
        RuleV {
            key: self.key@,
            summary: self.summary@,
            content: self.content@,
            tags: strings(self.tags@),
            paths: strings(self.paths@),
            languages: strings(self.languages@),
            source_rule_hash: self.source_rule_hash@,
        }
    }
}

/// The views of a list of rules.
pub open spec fn rules_view(rules: Seq<Rule>) -> Seq<RuleV> {
    rules.map_values(|r: Rule| r@)
}

/// A copy of a list of texts.
pub fn copy_texts(list: &Vec<String>) -> (r: Vec<String>)
    ensures
        strings(r@) == strings(list@),
{
    let mut out: Vec<String> = Vec::new();
    let mut i: usize = 0;
    while i < list.len()
        invariant
            i <= list@.len(),
            out@.len() == i,
            forall|k: int| 0 <= k < i ==> (#[trigger] out@[k])@ == list@[k]@,
        decreases list@.len() - i,
    {
        out.push(list[i].clone());
        i += 1;
    }
    assert(strings(out@) =~= strings(list@));
    out
}

impl Clone for Rule {
    fn clone(&self) -> (r: Rule)
        ensures
            r@ == self@,
    {
        Rule {
            key: self.key.clone(),
            summary: self.summary.clone(),
            content: self.content.clone(),
            tags: copy_texts(&self.tags),
            paths: copy_texts(&self.paths),
            languages: copy_texts(&self.languages),
            source_rule_hash: self.source_rule_hash.clone(),
        }
    }
}

/// A parsed checklist. `content_hash` is the digest of the file's bytes.
#[derive(Debug)]
pub struct Checklist {
    pub schema_version: i64,
    pub checklist_version: String,
    pub global_description: String,
    pub content_hash: String,
    pub rules: Vec<Rule>,
}

/// What a [`Checklist`] stands for.
pub struct ChecklistV {
    pub schema_version: int,
    pub checklist_version: Seq<char>,
    pub global_description: Seq<char>,
    pub content_hash: Seq<char>,
    pub rules: Seq<RuleV>,
}

impl View for Checklist {
    type V = ChecklistV;

    open spec fn view(&self) -> ChecklistV {
        ChecklistV {
            schema_version: self.schema_version as int,
            checklist_version: self.checklist_version@,
            global_description: self.global_description@,
            content_hash: self.content_hash@,
            rules: rules_view(self.rules@),
        }
    }
}

/// A request for the rules under some keys, bound to one knowledge revision.
#[derive(Debug)]
pub struct Selection {
    pub project_id: String,
    pub knowledge_revision: String,
    pub keys: Vec<String>,
}

/// What a [`Selection`] stands for.
pub struct SelectionV {
    pub project_id: Seq<char>,
    pub knowledge_revision: Seq<char>,
    pub keys: Seq<Seq<char>>,
}

impl View for Selection {
    type V = SelectionV;

    open spec fn view(&self) -> SelectionV {
        SelectionV {
            project_id: self.project_id@,
            knowledge_revision: self.knowledge_revision@,
            keys: strings(self.keys@),
        }
    }
}

/// Why a payload is no selection.
#[derive(Debug)]
pub enum SelectionError {
    /// Fields that are missing, of the wrong type or unknown, one error object each.
    Envelope(Vec<Json>),
    /// A field of the right type whose value is not acceptable.
    Raw,
}

/// What a [`SelectionError`] stands for.
pub enum SelectionErrorV {
    Envelope(Seq<JsonV>),
    Raw,
}

impl View for SelectionError {
    type V = SelectionErrorV;

    open spec fn view(&self) -> SelectionErrorV {
        match *self {
            SelectionError::Envelope(errors) => SelectionErrorV::Envelope(
                crate::json::items_view(errors@),
            ),
            SelectionError::Raw => SelectionErrorV::Raw,
        }
    }
}

/// An error object: what is wrong, where, in words, and with which input.
pub open spec fn fault(
    kind: Seq<char>,
    loc: Seq<JsonV>,
    msg: Seq<char>,
    input: JsonV,
) -> JsonV {
    crate::errors::and_detail(
        crate::errors::and_detail(
            crate::errors::and_detail(
                crate::errors::detail("type"@, JsonV::Text(kind)),
                "loc"@,
                JsonV::Array(loc),
            ),
            "msg"@,
            JsonV::Text(msg),
        ),
        "input"@,
        input,
    )
}

/// The faults of a field that must be a string.
pub open spec fn string_faults(payload: JsonV, name: Seq<char>) -> Seq<JsonV> {
    match field(payload, name) {
        None => seq![fault("missing"@, seq![JsonV::Text(name)], "Field required"@, payload)],
        Some(JsonV::Text(_)) => Seq::empty(),
        Some(other) => seq![
            fault(
                "string_type"@,
                seq![JsonV::Text(name)],
                "Input should be a valid string"@,
                other,
            ),
        ],
    }
}

/// The faults of the first `n` items of a list that must hold strings.
pub open spec fn item_faults(items: Seq<JsonV>, n: int) -> Seq<JsonV>
    decreases n,
{
    if n <= 0 {
        Seq::empty()
    } else if items[n - 1] is Text {
        item_faults(items, n - 1)
    } else {
        item_faults(items, n - 1).push(
            fault(
                "string_type"@,
                seq![JsonV::Text("keys"@), JsonV::Int(n - 1)],
                "Input should be a valid string"@,
                items[n - 1],
            ),
        )
    }
}

/// The faults of the field `keys`.
pub open spec fn keys_faults(payload: JsonV) -> Seq<JsonV> {
    match field(payload, "keys"@) {
        None => seq![fault("missing"@, seq![JsonV::Text("keys"@)], "Field required"@, payload)],
        Some(JsonV::Array(items)) => item_faults(items, items.len() as int),
        Some(other) => seq![
            fault(
                "list_type"@,
                seq![JsonV::Text("keys"@)],
                "Input should be a valid list"@,
                other,
            ),
        ],
    }
}

/// Whether a selection has a field of this name.
pub open spec fn is_selection_field(name: Seq<char>) -> bool {
    name == "project_id"@ || name == "knowledge_revision"@ || name == "keys"@
}

/// The faults of the first `n` entries: one for each whose name is that of no field.
pub open spec fn extra_faults_upto(entries: Entries, n: int) -> Seq<JsonV>
    decreases n,
{
    if n <= 0 {
        Seq::empty()
    } else if is_selection_field(entries[n - 1].0) {
        extra_faults_upto(entries, n - 1)
    } else {
        extra_faults_upto(entries, n - 1).push(
            fault(
                "extra_forbidden"@,
                seq![JsonV::Text(entries[n - 1].0)],
                "Extra inputs are not permitted"@,
                entries[n - 1].1,
            ),
        )
    }
}

/// The faults of the entries that are no fields of a selection.
pub open spec fn extra_faults(payload: JsonV) -> Seq<JsonV> {
    match payload {
        JsonV::Object(entries) => extra_faults_upto(entries, entries.len() as int),
        _ => Seq::empty(),
    }
}

/// All faults of a payload: those of the fields in their order, then unknown entries.
pub open spec fn faults(payload: JsonV) -> Seq<JsonV> {
    string_faults(payload, "project_id"@) + string_faults(payload, "knowledge_revision"@)
        + keys_faults(payload) + extra_faults(payload)
}

/// Whether a field is a string with nothing in it but white space.
pub open spec fn blank_field(payload: JsonV, name: Seq<char>) -> bool {
    crate::json::text_field(payload, name) matches Some(t) && is_blank(t)
}

/// Whether every item is a string.
pub open spec fn all_text(items: Seq<JsonV>) -> bool {
    forall|i: int| 0 <= i < items.len() ==> (#[trigger] items[i]) is Text
}

/// The texts of a list of strings.
pub open spec fn texts_of(items: Seq<JsonV>) -> Seq<Seq<char>> {
    items.map_values(
        |v: JsonV|
            match v {
                JsonV::Text(t) => t,
                _ => Seq::empty(),
            },
    )
}

/// Keys that can be selected: at least one, none twice, none with white space around it.
pub open spec fn proper_keys(keys: Seq<Seq<char>>) -> bool {
    &&& keys.len() > 0
    &&& forall|i: int| 0 <= i < keys.len() ==> trimmed(#[trigger] keys[i]) == keys[i]
    &&& keys.no_duplicates()
}

/// Whether the field `keys` is a list of strings that are no proper keys.
pub open spec fn improper_keys(payload: JsonV) -> bool {
    field(payload, "keys"@) matches Some(JsonV::Array(items)) && all_text(items) && !proper_keys(
        texts_of(items),
    )
}

/// Whether a field of the right type has a value that is not acceptable.
pub open spec fn has_value_error(payload: JsonV) -> bool {
    blank_field(payload, "project_id"@) || blank_field(payload, "knowledge_revision"@)
        || improper_keys(payload)
}

/// What validating a payload gives.
pub open spec fn validated_selection(payload: JsonV) -> Result<SelectionV, SelectionErrorV> {
    if has_value_error(payload) {
        Err(SelectionErrorV::Raw)
    } else if faults(payload).len() > 0 {
        Err(SelectionErrorV::Envelope(faults(payload)))
    } else {
        Ok(
            SelectionV {
                project_id: field(payload, "project_id"@)->0->Text_0,
                knowledge_revision: field(payload, "knowledge_revision"@)->0->Text_0,
                keys: texts_of(field(payload, "keys"@)->0->Array_0),
            },
        )
    }
}

fn error_obj(kind: &str, loc: Vec<Json>, msg: &str, input: &Json) -> (r: Json)
    ensures
        r@ == fault(kind@, crate::json::items_view(loc@), msg@, input@),
{
    Json::object().with("type", Json::text(kind)).with("loc", Json::Array(loc)).with(
        "msg",
        Json::text(msg),
    ).with("input", input.duplicate())
}

fn push_error(errors: &mut Vec<Json>, error: Json)
    ensures
        crate::json::items_view(final(errors)@) == crate::json::items_view(old(errors)@).push(
            error@,
        ),
{
    let ghost before = errors@;
    let ghost ev = error@;
    errors.push(error);
    assert(crate::json::items_view(errors@) =~= crate::json::items_view(before).push(ev));
}

fn at_field(name: &str) -> (r: Vec<Json>)
    ensures
        crate::json::items_view(r@) == seq![JsonV::Text(name@)],
{
    let mut loc: Vec<Json> = Vec::new();
    loc.push(Json::text(name));
    assert(crate::json::items_view(loc@) =~= seq![JsonV::Text(name@)]);
    loc
}

/// Checks a field that must be a string with something in it.
fn string_field(payload: &Json, name: &str, errors: &mut Vec<Json>, value_error: &mut bool) -> (r:
    Option<String>)
    ensures
        crate::json::items_view(final(errors)@) == crate::json::items_view(old(errors)@)
            + string_faults(payload@, name@),
        *final(value_error) == (*old(value_error) || blank_field(payload@, name@)),
        crate::path_util::optional_text(r) == crate::json::text_field(payload@, name@),
{
    let ghost before = crate::json::items_view(errors@);
    match payload.get(name) {
        None => {
            push_error(errors, error_obj("missing", at_field(name), "Field required", payload));
            assert(crate::json::items_view(errors@) =~= before + string_faults(payload@, name@));
            None
        },
        Some(value) => match value {
            Json::Text(s) => {
                if blank(s.as_str()) {
                    *value_error = true;
                }
                assert(crate::json::items_view(errors@) =~= before + string_faults(payload@, name@));
                Some(s.clone())
            },
            other => {
                push_error(
                    errors,
                    error_obj(
                        "string_type",
                        at_field(name),
                        "Input should be a valid string",
                        other,
                    ),
                );
                assert(crate::json::items_view(errors@) =~= before + string_faults(payload@, name@));
                None
            },
        },
    }
}

/// Whether some text has white space around it.
fn any_untrimmed(keys: &Vec<String>) -> (r: bool)
    ensures
        !r == (forall|i: int|
            0 <= i < keys@.len() ==> trimmed(#[trigger] strings(keys@)[i]) == strings(keys@)[i]),
{
    let mut i: usize = 0;
    while i < keys.len()
        invariant
            i <= keys@.len(),
            forall|k: int|
                0 <= k < i ==> trimmed(#[trigger] strings(keys@)[k]) == strings(keys@)[k],
        decreases keys@.len() - i,
    {
        assert(strings(keys@)[i as int] == keys@[i as int]@);
        if !same(trim(keys[i].as_str()).as_str(), keys[i].as_str()) {
            return true;
        }
        i += 1;
    }
    false
}

/// Whether some text occurs twice.
pub fn any_repeated(keys: &Vec<String>) -> (r: bool)
    ensures
        r == !strings(keys@).no_duplicates(),
{
    let ghost all = strings(keys@);
    let mut seen: Vec<String> = Vec::new();
    let mut i: usize = 0;
    while i < keys.len()
        invariant
            i <= keys@.len(),
            all == strings(keys@),
            strings(seen@) == all.take(i as int),
            all.take(i as int).no_duplicates(),
        decreases keys@.len() - i,
    {
        assert(all[i as int] == keys@[i as int]@);
        if is_member(&seen, keys[i].as_str()) {
            proof {
                let k = all.take(i as int).index_of(all[i as int]);
                assert(all[k] == all[i as int]);
            }
            return true;
        }
        let ghost before = seen@;
        seen.push(keys[i].clone());
        proof {
            assert(strings(seen@) =~= strings(before).push(all[i as int]));
            assert(strings(seen@) =~= all.take(i + 1));
            assert forall|a: int, b: int|
                0 <= a < i + 1 && 0 <= b < i + 1 && a != b implies #[trigger] all.take(i + 1)[a]
                != #[trigger] all.take(i + 1)[b] by {
                assert(a < i ==> all.take(i as int)[a] == all[a]);
                assert(b < i ==> all.take(i as int)[b] == all[b]);
            }
        }
        i += 1;
    }
    assert(all.take(i as int) =~= all);
    false
}

/// Checks the field `keys`.
fn keys_field(payload: &Json, errors: &mut Vec<Json>, value_error: &mut bool) -> (r: Option<
    Vec<String>,
>)
    ensures
        crate::json::items_view(final(errors)@) == crate::json::items_view(old(errors)@)
            + keys_faults(payload@),
        *final(value_error) == (*old(value_error) || improper_keys(payload@)),
        match r {
            Some(keys) => field(payload@, "keys"@) matches Some(JsonV::Array(items)) && all_text(
                items,
            ) && strings(keys@) == texts_of(items),
            None => keys_faults(payload@).len() > 0,
        },
{
    let ghost before = crate::json::items_view(errors@);
    match payload.get("keys") {
        None => {
            push_error(errors, error_obj("missing", at_field("keys"), "Field required", payload));
            assert(crate::json::items_view(errors@) =~= before + keys_faults(payload@));
            None
        },
        Some(value) => match value {
            Json::Array(items) => {
                let ghost all = crate::json::items_view(items@);
                let mut keys: Vec<String> = Vec::new();
                let mut all_strings = true;
                let n: usize = items.len();
                let mut i: usize = 0;
                assert(crate::json::items_view(errors@) =~= before + item_faults(all, 0));
                while i < n
                    invariant
                        i <= n == items@.len(),
                        n <= usize::MAX,
                        all == crate::json::items_view(items@),
                        crate::json::items_view(errors@) == before + item_faults(all, i as int),
                        all_strings == (item_faults(all, i as int).len() == 0),
                        all_strings ==> keys@.len() == i && forall|k: int|
                            0 <= k < i ==> (#[trigger] all[k]) is Text && keys@[k]@
                                == all[k]->Text_0,
                    decreases n - i,
                {
                    match &items[i] {
                        Json::Text(s) => {
                            keys.push(s.clone());
                        },
                        other => {
                            all_strings = false;
                            let mut loc = at_field("keys");
                            let ghost head = loc@;
                            loc.push(index_value(i));
                            proof {
                                assert(crate::json::items_view(loc@) =~= crate::json::items_view(
                                    head,
                                ).push(JsonV::Int(i as int)));
                                assert(crate::json::items_view(loc@) =~= seq![
                                    JsonV::Text("keys"@),
                                    JsonV::Int(i as int),
                                ]);
                            }
                            push_error(
                                errors,
                                error_obj(
                                    "string_type",
                                    loc,
                                    "Input should be a valid string",
                                    other,
                                ),
                            );
                        },
                    }
                    i += 1;
                    assert(crate::json::items_view(errors@) =~= before + item_faults(
                        all,
                        i as int,
                    ));
                }
                if !all_strings {
                    proof {
                        lemma_item_faults(all, n as int);
                    }
                    return None;
                }
                proof {
                    lemma_item_faults(all, n as int);
                    assert(strings(keys@) =~= texts_of(all));
                }
                if keys.len() == 0 || any_untrimmed(&keys) || any_repeated(&keys) {
                    *value_error = true;
                }
                Some(keys)
            },
            other => {
                push_error(
                    errors,
                    error_obj(
                        "list_type",
                        at_field("keys"),
                        "Input should be a valid list",
                        other,
                    ),
                );
                assert(crate::json::items_view(errors@) =~= before + keys_faults(payload@));
                None
            },
        },
    }
}

proof fn lemma_item_faults(items: Seq<JsonV>, n: int)
    requires
        0 <= n <= items.len(),
    ensures
        item_faults(items, n).len() == 0 <==> forall|i: int|
            0 <= i < n ==> (#[trigger] items[i]) is Text,
    decreases n,
{
    if n > 0 {
        lemma_item_faults(items, n - 1);
    }
}

/// An index as a JSON number.
pub fn index_value(i: usize) -> (r: Json)
    ensures
        r@ == JsonV::Int(i as int),
{
    Json::UInt(i as u64)
}

/// Checks that there is no entry but the fields.
fn extra_fields(payload: &Json, errors: &mut Vec<Json>)
    ensures
        crate::json::items_view(final(errors)@) == crate::json::items_view(old(errors)@)
            + extra_faults(payload@),
{
    let ghost before = crate::json::items_view(errors@);
    match payload {
        Json::Object(entries) => {
            let ghost all = crate::json::entries_view(entries@);
            let mut i: usize = 0;
            assert(crate::json::items_view(errors@) =~= before + extra_faults_upto(all, 0));
            while i < entries.len()
                invariant
                    i <= entries@.len(),
                    all == crate::json::entries_view(entries@),
                    crate::json::items_view(errors@) == before + extra_faults_upto(all, i as int),
                decreases entries@.len() - i,
            {
                let name = entries[i].0.as_str();
                assert(all[i as int] == (name@, entries@[i as int].1@));
                if !(same(name, "project_id") || same(name, "knowledge_revision") || same(
                    name,
                    "keys",
                )) {
                    push_error(
                        errors,
                        error_obj(
                            "extra_forbidden",
                            at_field(name),
                            "Extra inputs are not permitted",
                            &entries[i].1,
                        ),
                    );
                }
                i += 1;
                assert(crate::json::items_view(errors@) =~= before + extra_faults_upto(
                    all,
                    i as int,
                ));
            }
        },
        _ => {
            assert(crate::json::items_view(errors@) =~= before + extra_faults(payload@));
        },
    }
}

/// Whatever is accepted as a selection has its three fields and no other entry.
pub proof fn a_selection_has_no_other_entry(payload: JsonV, name: Seq<char>)
    requires
        validated_selection(payload) is Ok,
        field(payload, name) is Some,
    ensures
        is_selection_field(name),
{
    if let JsonV::Object(entries) = payload {
        crate::json::lemma_position(entries, name);
        lemma_extra(entries, entries.len() as int, crate::json::position(entries, name) as int);
    }
}

proof fn lemma_extra(entries: Entries, n: int, i: int)
    requires
        0 <= i < n <= entries.len(),
        extra_faults_upto(entries, n).len() == 0,
    ensures
        is_selection_field(entries[i].0),
    decreases n,
{
    if i < n - 1 {
        lemma_extra(entries, n - 1, i);
    }
}

/// Validates a selection payload. Every fault is collected; a value that is not acceptable
/// overrides them all.
pub fn validate_selection(payload: &Json) -> (r: Result<Selection, SelectionError>)
    ensures
        match r {
            Ok(s) => validated_selection(payload@) == Ok::<SelectionV, SelectionErrorV>(s@),
            Err(e) => validated_selection(payload@) == Err::<SelectionV, SelectionErrorV>(e@),
        },
{
    let mut errors: Vec<Json> = Vec::new();
    let mut value_error = false;
    assert(crate::json::items_view(errors@) =~= Seq::empty());
    let project_id = string_field(payload, "project_id", &mut errors, &mut value_error);
    let knowledge_revision = string_field(
        payload,
        "knowledge_revision",
        &mut errors,
        &mut value_error,
    );
    let keys = keys_field(payload, &mut errors, &mut value_error);
    extra_fields(payload, &mut errors);
    assert(crate::json::items_view(errors@) =~= faults(payload@));
    if value_error {
        return Err(SelectionError::Raw);
    }
    match (project_id, knowledge_revision, keys) {
        (Some(project_id), Some(knowledge_revision), Some(keys)) => {
            proof {
                let items = field(payload@, "keys"@)->0->Array_0;
                lemma_item_faults(items, items.len() as int);
            }
            if errors.len() > 0 {
                return Err(SelectionError::Envelope(errors));
            }
            Ok(Selection { project_id, knowledge_revision, keys })
        },
        _ => Err(SelectionError::Envelope(errors)),
    }
}

} // verus!
