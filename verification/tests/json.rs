use review_kb::description::{build_description, knowledge_revision_of, rule_fields};
use review_kb::errors::{ErrorCode, ReviewKBError};
use review_kb::json::Json;
use review_kb::json_parse::parse_json;
use review_kb::json_util::{canonical_hash, canonical_json, sha256_hex};
use review_kb::models::{validate_selection, Checklist, Rule, Selection, SelectionError};

fn json(source: &str) -> Json {
    parse_json(source).unwrap()
}

fn canonical(source: &str) -> String {
    canonical_json(&json(source))
}

#[test]
fn sorts_keys_and_is_compact() {
    assert_eq!(canonical(r#"{"b": 1, "a": 2}"#), r#"{"a":2,"b":1}"#);
}

#[test]
fn does_not_escape_non_ascii() {
    assert_eq!(canonical(r#"{"key": "café"}"#), r#"{"key":"café"}"#);
    assert_eq!(
        canonical(r#"{"b": 1, "a": ["x", "y"], "c": "中文"}"#),
        r#"{"a":["x","y"],"b":1,"c":"中文"}"#
    );
}

#[test]
fn sorts_nested_recursively() {
    assert_eq!(canonical(r#"{"a": {"z": 1, "a": 2}}"#), r#"{"a":{"a":2,"z":1}}"#);
    assert_eq!(canonical(r#"{"z": [{"b": 1, "a": 2}]}"#), r#"{"z":[{"a":2,"b":1}]}"#);
}

#[test]
fn no_trailing_newline() {
    assert!(!canonical(r#"{"a": 1}"#).ends_with('\n'));
}

#[test]
fn content_hash_matches_python() {
    assert_eq!(
        sha256_hex(b"---\nhello\n"),
        "sha256:336c813069a0b4997ca8eeb57e10997407ae282981f2d40aa84dd1968cafe264"
    );
}

#[test]
fn digest_of_nothing() {
    assert_eq!(
        sha256_hex(b""),
        "sha256:e3b0c44298fc1c149afbf4c8996fb92427ae41e4649b934ca495991b7852b855"
    );
}

#[test]
fn canonical_form_of_every_kind() {
    assert_eq!(
        canonical(r#" {"n": null, "t": true, "f": false, "i": -5, "u": 18446744073709551615} "#),
        r#"{"f":false,"i":-5,"n":null,"t":true,"u":18446744073709551615}"#
    );
    assert_eq!(canonical("1.50"), "1.5");
    assert_eq!(canonical("[]"), "[]");
    assert_eq!(canonical("{}"), "{}");
    assert_eq!(canonical(r#""a\"b\\c\n\u0001""#), r#""a\"b\\c\n\u0001""#);
}

#[test]
fn order_of_names_does_not_matter() {
    assert_eq!(
        canonical_hash(&json(r#"{"b": [1, 2], "a": {"d": 1, "c": 2}}"#)),
        canonical_hash(&json(r#"{"a": {"c": 2, "d": 1}, "b": [1, 2]}"#))
    );
    assert_ne!(canonical_hash(&json("[1, 2]")), canonical_hash(&json("[2, 1]")));
}

#[test]
fn the_last_of_two_equal_names_counts() {
    assert_eq!(canonical(r#"{"a": 1, "b": 2, "a": 3}"#), r#"{"a":3,"b":2}"#);
}

#[test]
fn text_that_is_no_document() {
    assert!(parse_json("{").is_err());
    assert!(parse_json("").is_err());
    assert!(parse_json("1 2").is_err());
}

#[test]
fn as_value_shape() {
    let err = ReviewKBError::new(
        ErrorCode::RuleNotFound,
        "missing".to_string(),
        Json::object().with("key", Json::text("X")),
    );
    let v = err.as_value();
    assert_eq!(
        canonical_json(&v),
        r#"{"code":"RULE_NOT_FOUND","details":{"key":"X"},"message":"missing"}"#
    );
    assert_eq!(err.exit_code(), 3);
}

#[test]
fn plain_error_has_empty_details() {
    let err = ReviewKBError::plain(ErrorCode::InternalError, "boom");
    assert!(matches!(&err.details, Json::Object(entries) if entries.is_empty()));
    assert_eq!(err.exit_code(), 1);
    assert_eq!(err.text(), "INTERNAL_ERROR: boom");
}

fn texts(list: &[&str]) -> Vec<String> {
    list.iter().map(|t| t.to_string()).collect()
}

fn sample_rule() -> Rule {
    Rule {
        key: "SEC-001".into(),
        summary: "检查 SQL".into(),
        content: "禁止拼接 SQL".into(),
        tags: texts(&["security", "database"]),
        paths: texts(&["src/**/*.py"]),
        languages: texts(&["python"]),
        source_rule_hash: String::new(),
    }
}

#[test]
fn source_rule_hash_matches_python() {
    assert_eq!(
        canonical_hash(&rule_fields(&sample_rule())),
        "sha256:a052f6cba87025803aeccb9ad0a6efb8d5cf867568ed8149d7577990c0aa9877"
    );
}

fn sample_checklist() -> Checklist {
    Checklist {
        schema_version: 1,
        checklist_version: "2026.07.1".into(),
        global_description: "gd".into(),
        content_hash: "sha256:abc".into(),
        rules: vec![Rule {
            key: "SEC-001".into(),
            summary: "检查 SQL".into(),
            content: "禁止拼接 SQL".into(),
            tags: texts(&["security"]),
            paths: texts(&["src/**/*.py"]),
            languages: texts(&["python"]),
            source_rule_hash: String::new(),
        }],
    }
}

#[test]
fn build_description_matches_python() {
    let desc = build_description("codehub-1", "payments", &sample_checklist());
    assert_eq!(
        knowledge_revision_of(&desc),
        Some("sha256:b2a43980e716c6da801cb64fae552adb9461f161128121dbca0edb0f5c2f1bea")
    );
    let expected = [
        r#"{"checklist":{"content_hash":"sha256:abc","#,
        r#""knowledge_revision":"sha256:b2a43980e716c6da801cb64fae552adb9461f161128121dbca0edb0f5c2f1bea","#,
        r#""schema_version":1,"version":"2026.07.1"},"#,
        r#""global_description":"gd","#,
        r#""project":{"id":"codehub-1","name":"payments"},"#,
        r#""rules":[{"key":"SEC-001","languages":["python"],"#,
        r#""paths":["src/**/*.py"],"summary":"检查 SQL","tags":["security"]}]}"#,
    ]
    .concat();
    assert_eq!(canonical_json(&desc), expected);
}

#[test]
fn revision_does_not_depend_on_the_project_or_the_version() {
    let base = build_description("codehub-1", "payments", &sample_checklist());
    let mut other = sample_checklist();
    other.checklist_version = "2027.01.1".into();
    other.content_hash = "sha256:other".into();
    let renamed = build_description("codehub-2", "billing", &other);
    assert_eq!(knowledge_revision_of(&base), knowledge_revision_of(&renamed));
    other.rules[0].content = "禁止拼接".into();
    let changed = build_description("codehub-2", "billing", &other);
    assert_ne!(knowledge_revision_of(&base), knowledge_revision_of(&changed));
}

#[test]
fn no_revision_in_something_else() {
    assert_eq!(knowledge_revision_of(&json("{}")), None);
    assert_eq!(knowledge_revision_of(&json(r#"{"checklist": {"knowledge_revision": 1}}"#)), None);
}

fn check(source: &str) -> Result<Selection, SelectionError> {
    validate_selection(&json(source))
}

fn envelope_json(res: Result<Selection, SelectionError>) -> String {
    match res {
        Err(SelectionError::Envelope(errors)) => canonical_json(&Json::Array(errors)),
        other => panic!("expected Envelope, got {other:?}"),
    }
}

#[test]
fn missing_fields_match_pydantic() {
    let expected = [
        r#"[{"input":{},"loc":["project_id"],"msg":"Field required","type":"missing"},"#,
        r#"{"input":{},"loc":["knowledge_revision"],"msg":"Field required","type":"missing"},"#,
        r#"{"input":{},"loc":["keys"],"msg":"Field required","type":"missing"}]"#,
    ]
    .concat();
    assert_eq!(envelope_json(check("{}")), expected);
}

#[test]
fn project_id_wrong_type_is_string_type() {
    assert_eq!(
        envelope_json(check(r#"{"project_id": 123, "knowledge_revision": "r", "keys": ["A"]}"#)),
        r#"[{"input":123,"loc":["project_id"],"msg":"Input should be a valid string","type":"string_type"}]"#
    );
}

#[test]
fn keys_wrong_type_is_list_type() {
    assert_eq!(
        envelope_json(check(r#"{"project_id": "p", "knowledge_revision": "r", "keys": "A"}"#)),
        r#"[{"input":"A","loc":["keys"],"msg":"Input should be a valid list","type":"list_type"}]"#
    );
}

#[test]
fn keys_non_string_elements_emit_per_index_errors() {
    let expected = [
        r#"[{"input":1,"loc":["keys",0],"msg":"Input should be a valid string","type":"string_type"},"#,
        r#"{"input":2,"loc":["keys",1],"msg":"Input should be a valid string","type":"string_type"}]"#,
    ]
    .concat();
    assert_eq!(
        envelope_json(check(r#"{"project_id": "p", "knowledge_revision": "r", "keys": [1, 2]}"#)),
        expected
    );
}

#[test]
fn value_errors_become_raw() {
    for case in [
        r#"{"project_id": "", "knowledge_revision": "r", "keys": ["A"]}"#,
        r#"{"project_id": "p", "knowledge_revision": "  ", "keys": ["A"]}"#,
        r#"{"project_id": "p", "knowledge_revision": "r", "keys": []}"#,
        r#"{"project_id": "p", "knowledge_revision": "r", "keys": ["A", "A"]}"#,
        r#"{"project_id": "p", "knowledge_revision": "r", "keys": [" A"]}"#,
    ] {
        assert!(matches!(check(case), Err(SelectionError::Raw)), "expected Raw for {case}");
    }
}

#[test]
fn valid_payload_builds_selection() {
    let sel =
        check(r#"{"project_id": "p", "knowledge_revision": "r", "keys": ["A", "B"]}"#).unwrap();
    assert_eq!(sel.project_id, "p");
    assert_eq!(sel.knowledge_revision, "r");
    assert_eq!(sel.keys, vec!["A".to_string(), "B".to_string()]);
}

#[test]
fn validate_selection_helper_still_builds_selection() {
    let sel = validate_selection(&json(
        r#"{"project_id": "p", "knowledge_revision": "r", "keys": ["A", "B"]}"#,
    ))
    .expect("valid");
    assert_eq!(sel.project_id, "p");
    let Selection { project_id: _, knowledge_revision: _, keys: _ } = sel;
}

#[test]
fn a_selection_with_another_field_is_refused() {
    assert_eq!(
        envelope_json(check(
            r#"{"project_id": "p", "knowledge_revision": "r", "keys": ["A"], "note": {"b": 1}}"#
        )),
        r#"[{"input":{"b":1},"loc":["note"],"msg":"Extra inputs are not permitted","type":"extra_forbidden"}]"#
    );
    let expected = [
        r#"[{"input":1,"loc":["keys"],"msg":"Input should be a valid list","type":"list_type"},"#,
        r#"{"input":2,"loc":["z"],"msg":"Extra inputs are not permitted","type":"extra_forbidden"},"#,
        r#"{"input":3,"loc":["a"],"msg":"Extra inputs are not permitted","type":"extra_forbidden"}]"#,
    ]
    .concat();
    assert_eq!(
        envelope_json(check(
            r#"{"z": 2, "project_id": "p", "a": 3, "knowledge_revision": "r", "keys": 1}"#
        )),
        expected
    );
}

#[test]
fn the_order_of_names_matters_at_no_depth() {
    let a = json(r#"{"a": [{"c": 1, "b": {"y": [], "x": null}}], "Z": "s"}"#);
    let b = json(r#"{"Z": "s", "a": [{"b": {"x": null, "y": []}, "c": 1}]}"#);
    let shown = r#"{"Z":"s","a":[{"b":{"x":null,"y":[]},"c":1}]}"#;
    assert_eq!(canonical_json(&a), shown);
    assert_eq!(canonical_json(&b), shown);
    assert_eq!(canonical_json(&json(shown)), shown);
    let turned = json(r#"{"Z": "s", "a": [{"b": {"x": [], "y": null}, "c": 1}]}"#);
    assert_ne!(canonical_json(&turned), shown);
}
