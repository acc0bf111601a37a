use review_kb::cli::{
    failure_envelope, finish, override_input, read_selection, split_warnings, success_envelope,
};
use review_kb::errors::{ErrorCode, ReviewKBError};
use review_kb::json::Json;
use review_kb::json_parse::parse_json;
use review_kb::json_util::canonical_json;
use review_kb::service::ServiceError;

fn json(source: &str) -> Json {
    parse_json(source).unwrap()
}

#[test]
fn success_envelope_shape_is_canonical() {
    let v = success_envelope("prepare", json(r#"{"a": 1}"#), json(r#"["w"]"#));
    let expected = [
        r#"{"data":{"a":1},"meta":{"command":"prepare","schema_version":1},"#,
        r#""ok":true,"warnings":["w"]}"#,
    ]
    .concat();
    assert_eq!(canonical_json(&v), expected);
    assert_eq!(v.get("meta").unwrap().get("schema_version").unwrap().as_i64(), Some(1));
}

#[test]
fn failure_envelope_shape_is_canonical() {
    let error = ReviewKBError::plain(ErrorCode::RuleNotFound, "missing rule");
    let v = failure_envelope("rules get", &error);
    let expected = [
        r#"{"error":{"code":"RULE_NOT_FOUND","details":{},"message":"missing rule"},"#,
        r#""meta":{"command":"rules get","schema_version":1},"ok":false,"warnings":[]}"#,
    ]
    .concat();
    assert_eq!(canonical_json(&v), expected);
}

#[test]
fn split_warnings_pops_from_object() {
    let (data, warnings) = split_warnings(json(r#"{"a": 1, "warnings": ["x"]}"#));
    assert_eq!(canonical_json(&data), r#"{"a":1}"#);
    assert_eq!(canonical_json(&warnings), r#"["x"]"#);
}

#[test]
fn split_warnings_defaults_when_absent_or_non_object() {
    let (data, warnings) = split_warnings(json(r#"{"a": 1}"#));
    assert_eq!(canonical_json(&data), r#"{"a":1}"#);
    assert_eq!(canonical_json(&warnings), "[]");

    let (data, warnings) = split_warnings(json("[1, 2, 3]"));
    assert_eq!(canonical_json(&data), "[1,2,3]");
    assert_eq!(canonical_json(&warnings), "[]");
}

#[test]
fn override_input_reports_missing_fields_in_order() {
    let error = override_input(&json(r#"{"project_id": "p"}"#)).unwrap_err();
    assert_eq!(error.code, ErrorCode::InvalidArgument);
    assert_eq!(canonical_json(error.details.get("fields").unwrap()), r#"["key","reason"]"#);
}

#[test]
fn override_input_keeps_extra_fields_as_override_fields() {
    let (pid, key, reason, fields) = override_input(&json(
        r#"{"project_id": "p", "key": "K", "reason": "r", "summary": "s", "tags": ["a", "b"]}"#,
    ))
    .unwrap();
    assert_eq!(pid, "p");
    assert_eq!(key, "K");
    assert_eq!(reason, "r");
    let fields = Json::Object(fields);
    assert_eq!(fields.get("summary").unwrap().as_str(), Some("s"));
    assert_eq!(canonical_json(fields.get("tags").unwrap()), r#"["a","b"]"#);
    assert!(fields.get("project_id").is_none());
}

#[test]
fn outcomes() {
    let ok = finish("prepare", Ok(json(r#"{"b": 1, "warnings": ["W"]}"#)));
    assert_eq!(ok.code, 0);
    assert_eq!(
        ok.stdout.unwrap(),
        "{\"data\":{\"b\":1},\"meta\":{\"command\":\"prepare\",\"schema_version\":1},\"ok\":true,\"warnings\":[\"W\"]}\n"
    );
    assert!(ok.stderr.is_none());
    let kb = finish(
        "status",
        Err(ServiceError::Kb(ReviewKBError::plain(ErrorCode::DbLocked, "busy"))),
    );
    assert_eq!(kb.code, 5);
    assert!(kb.stdout.unwrap().contains(r#""ok":false"#));
    let raw = finish("status", Err(ServiceError::Raw("diagnostic".to_string())));
    assert_eq!((raw.code, raw.stdout, raw.stderr.as_deref()), (1, None, Some("diagnostic")));
}

#[test]
fn payloads() {
    assert_eq!(canonical_json(&read_selection("-", r#"{"a": 1}"#).unwrap()), r#"{"a":1}"#);
    assert_eq!(read_selection("f.json", "[]").unwrap_err().code, ErrorCode::InvalidSelection);
    assert_eq!(read_selection("f.json", "").unwrap_err().exit_code(), 2);
}
