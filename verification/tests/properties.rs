use review_kb::checklist::parse_checklist;
use review_kb::description::rule_fields;
use review_kb::errors::ErrorCode;
use review_kb::json_util::{canonical_hash, sha256_hex};
use review_kb::maintenance::file_uri;
use review_kb::markdown::py_splitlines;
use review_kb::path_util::{file_name_of, lexpath_resolve, normalize_lexical, parent_of};
use review_kb::protocol::{Cell, Handle, Reply, Request, Row, Step};
use review_kb::repository::{Repository, RepositoryError};
use review_kb::rows::{matching_records, mentioning_rules, read_records, Shape};
use review_kb::suggestions::levenshtein;
use review_kb::text::trim;
use std::path::Path;

const PATHS: &[&str] = &[
    "", "/", "//", ".", "..", "./", "../", "/.", "/..", "/./", "a", "a/", "a//", "a/.", "a/./", "a/..",
    "a/../", "/a", "/a/", "//a", "/./a", "./a", ".//a", "././a", "a/b", "a//b", "a/./b", "a/../b",
    "/a/b/c.db", "/a/b/../c", "a/b/", "a/b/.", "a/b/./.", ".a", "..a", "a.", "a..", "/.a/.", "a/.b",
    "é/ü.db", "~/x", " / ", "/a/ ",
];

#[test]
fn names_and_directories_of_paths() {
    for p in PATHS {
        let parent = Path::new(p).parent().map(|q| q.to_str().unwrap().to_string());
        let name = Path::new(p).file_name().map(|n| n.to_str().unwrap().to_string());
        assert_eq!(parent_of(p), parent, "parent of {p:?}");
        assert_eq!(file_name_of(p), name, "name of {p:?}");
    }
    assert_eq!(parent_of("/data/kb.db").as_deref(), Some("/data"));
    assert_eq!(file_name_of("/data/kb.db").as_deref(), Some("kb.db"));
}

#[test]
fn a_normal_path_stays_as_it_is() {
    for p in PATHS {
        let once = normalize_lexical(p);
        assert_eq!(normalize_lexical(&once), once, "{p:?}");
        let full = lexpath_resolve(p, Some("/home/me"), "/work");
        assert!(full.starts_with('/'), "{p:?}");
        assert_eq!(lexpath_resolve(&full, None, "/elsewhere"), full, "{p:?}");
    }
    assert_eq!(lexpath_resolve("../x", None, "/work/dir"), "/work/x");
}

#[test]
fn distances_are_symmetric_and_separate() {
    let words = ["", "a", "SEC-001", "SEC-010", "DB-004", "kitten", "sitting"];
    for a in words {
        for b in words {
            assert_eq!(levenshtein(a, b), levenshtein(b, a));
            assert_eq!(levenshtein(a, b) == 0, a == b);
        }
    }
}

#[test]
fn lines_that_are_joined_split_again() {
    let lines = vec!["## SEC-001", "", "text", "last"];
    assert_eq!(py_splitlines(&lines.join("\n")), lines);
    for line in py_splitlines("a\r\nb\u{2028}c\u{b}d") {
        assert_eq!(line.len(), 1);
    }
}

#[test]
fn trimming_twice_is_trimming_once() {
    for s in ["", " ", "  a b\t", "\u{3000}x\u{85}", "x"] {
        assert_eq!(trim(&trim(s)), trim(s));
    }
    assert_eq!(trim("\u{3000}x\u{85}"), "x");
}

#[test]
fn what_is_accepted_has_the_form() {
    let source = "---\nschema_version: 1\nchecklist_version: ' v1 '\nglobal_description: ' all '\n---\n\
                  ## B-2\n\n```yaml review-rule\nsummary: ' two '\nlanguages: [python, rust]\n```\n\n  body  \n\n\
                  ## A-1\n\n```yaml review-rule\nsummary: one\ntags: [x, x, y]\n```\n\nbody\n";
    let c = parse_checklist("c.md", Some(source.as_bytes())).unwrap();
    assert_eq!(c.schema_version, 1);
    assert_eq!(c.checklist_version, "v1");
    assert_eq!(c.global_description, "all");
    assert_eq!(c.content_hash, sha256_hex(source.as_bytes()));
    let keys: Vec<&str> = c.rules.iter().map(|r| r.key.as_str()).collect();
    assert_eq!(keys, vec!["B-2", "A-1"]);
    assert_eq!(c.rules[0].summary, "two");
    assert_eq!(c.rules[0].content, "body");
    assert_eq!(c.rules[1].tags, vec!["x", "y"]);
    for r in &c.rules {
        assert_eq!(r.source_rule_hash, canonical_hash(&rule_fields(r)));
        assert!(r.languages.iter().all(|l| *l == l.to_lowercase()));
    }
}

#[test]
fn a_search_stops_at_its_limit() {
    let row = |n: i64, name: &str| -> Row {
        vec![
            ("project_id".to_string(), Cell::Text(format!("p{n}"))),
            ("project_name".to_string(), Cell::Text(name.to_string())),
        ]
    };
    let rows = vec![row(1, "Alpha"), row(2, "beta"), row(3, "ALPHA"), row(4, "alpha")];
    let found = matching_records("audit_log", &rows, &Some("aLPHa".to_string()), 2).unwrap();
    let ids: Vec<String> = found.iter().map(|v| format!("{:?}", v.get("project_id"))).collect();
    assert_eq!(ids, vec!["Some(Text(\"p1\"))", "Some(Text(\"p3\"))"]);
    assert_eq!(matching_records("audit_log", &rows, &None, 10).unwrap().len(), 4);
}

fn version_row(n: i64) -> Row {
    vec![("version".to_string(), Cell::Integer(n))]
}

/// What a migration does where the versions `applied` are recorded.
fn after_versions(applied: &[i64]) -> Step<review_kb::maintenance::Migration, RepositoryError> {
    let repository = Repository { path: "/kb.db".to_string() };
    let state = match repository.migrate() {
        Step::Ask(Request::Script(Handle::Main, _), state) => state,
        other => panic!("{other:?}"),
    };
    let state = match state.resume(Reply::Done, "now") {
        Step::Ask(Request::Query(Handle::Main, _), state) => state,
        other => panic!("{other:?}"),
    };
    let rows = applied.iter().map(|n| version_row(*n)).collect();
    state.resume(Reply::Rows(rows), "now")
}

#[test]
fn a_migration_applies_what_is_missing() {
    assert!(matches!(after_versions(&[2, 1]), Step::Done(Ok(_))));
    match after_versions(&[]) {
        Step::Ask(Request::Script(Handle::Main, sql), _) => assert!(sql.contains("CREATE TABLE projects")),
        other => panic!("{other:?}"),
    }
    match after_versions(&[1]) {
        Step::Ask(Request::Script(Handle::Main, sql), _) => {
            assert!(sql.contains("CREATE TABLE rule_overrides"))
        }
        other => panic!("{other:?}"),
    }
    match after_versions(&[1, 3]) {
        Step::Done(Err(RepositoryError::Kb(e))) => assert_eq!(e.code, ErrorCode::DbSchemaUnsupported),
        other => panic!("{other:?}"),
    }
}

#[test]
fn a_backup_asks_first_whether_its_target_exists() {
    let repository = Repository { path: "/kb.db".to_string() };
    let asked = |output: &str, exists: bool| {
        match repository.backup(Handle::Main, output, Some("/home/me"), "/work") {
            Step::Ask(Request::Exists(_), state) => state.resume(Reply::Flag(exists)),
            other => panic!("{other:?}"),
        }
    };
    match asked("~/out.db", true) {
        Step::Done(Err(RepositoryError::Kb(e))) => {
            assert_eq!(e.message, "backup output already exists: /home/me/out.db")
        }
        other => panic!("{other:?}"),
    }
    match asked("/x/../kb.db", false) {
        Step::Done(Err(RepositoryError::Kb(e))) => {
            assert_eq!(e.message, "backup output must differ from the active database")
        }
        other => panic!("{other:?}"),
    }
    match asked("dir/out.db", false) {
        Step::Ask(Request::CreateDirs(p), _) => assert_eq!(p, "dir"),
        other => panic!("{other:?}"),
    }
}

fn decoded(uri: &str) -> String {
    let rest = uri.strip_prefix("file://").unwrap().as_bytes();
    let mut bytes: Vec<u8> = Vec::new();
    let mut i = 0;
    while i < rest.len() {
        if rest[i] == b'%' {
            let digits = std::str::from_utf8(&rest[i + 1..i + 3]).unwrap();
            bytes.push(u8::from_str_radix(digits, 16).unwrap());
            i += 3;
        } else {
            bytes.push(rest[i]);
            i += 1;
        }
    }
    String::from_utf8(bytes).unwrap()
}

#[test]
fn a_uri_stands_for_its_path() {
    let paths = ["/a b", "/a%20b", "/é?mode=rw#x", "/a%b", "/~a/-_.db", "/\u{1f600}", "/"];
    for p in paths {
        assert_eq!(decoded(&file_uri(p)), p);
        for q in paths {
            assert_eq!(file_uri(p) == file_uri(q), p == q);
        }
    }
    assert_eq!(file_uri("/é?"), "file:///%C3%A9%3F");
}

fn rule_row(key: Cell, tags: &str) -> Row {
    vec![
        ("project_id".to_string(), Cell::Text("p".to_string())),
        ("rule_key".to_string(), key),
        ("ordinal".to_string(), Cell::Integer(0)),
        ("summary".to_string(), Cell::Text("Check Names".to_string())),
        ("content".to_string(), Cell::Text("body".to_string())),
        ("tags_json".to_string(), Cell::Text(tags.to_string())),
        ("paths_json".to_string(), Cell::Text("[]".to_string())),
        ("languages_json".to_string(), Cell::Text(r#"["rust"]"#.to_string())),
        ("source_rule_hash".to_string(), Cell::Text("sha256:x".to_string())),
    ]
}

#[test]
fn rows_that_cannot_be_read() {
    let fault = |row: Row| -> String { read_records(Shape::Rule, &vec![row]).unwrap_err() };
    assert_eq!(
        fault(rule_row(Cell::Integer(7), "[]")),
        "Invalid column type Integer at index: 1, name: rule_key"
    );
    assert_eq!(
        fault(rule_row(Cell::Null, "[]")),
        "Invalid column type Null at index: 1, name: rule_key"
    );
    let mut row = rule_row(Cell::Text("K".to_string()), "[]");
    row.remove(3);
    assert_eq!(fault(row), "Invalid column name: summary");
}

#[test]
fn a_search_looks_at_entries_not_at_their_notation() {
    let rows = vec![
        rule_row(Cell::Text("A-1".to_string()), r#"["say \"hi\"","b\\c"]"#),
        rule_row(Cell::Text("B-2".to_string()), r#"["x","y"]"#),
    ];
    let hits = |query: &str| -> Vec<String> {
        mentioning_rules(read_records(Shape::Rule, &rows).unwrap(), query)
            .iter()
            .map(|r| format!("{:?}", r.get("key")))
            .collect()
    };
    let a = "Some(Text(\"A-1\"))".to_string();
    let b = "Some(Text(\"B-2\"))".to_string();
    assert_eq!(hits("\"HI\""), vec![a.clone()]);
    assert_eq!(hits("b\\C"), vec![a.clone()]);
    assert_eq!(hits("check NAMES"), vec![a.clone(), b.clone()]);
    assert_eq!(hits("rust"), vec![a, b]);
    for query in ["[", "]", "\",\"", "b\\\\c", "\\\"", "tags"] {
        assert!(hits(query).is_empty(), "{query}");
    }
}
