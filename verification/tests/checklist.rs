use review_kb::checklist::{parse_checklist, py_repr, split_front_matter, valid_key};
use review_kb::errors::{ErrorCode, ReviewKBError};
use review_kb::json_util::canonical_json;
use review_kb::markdown::{py_splitlines, scan_markdown};
use review_kb::models::Checklist;

const EXAMPLE: &str = r####"---
schema_version: 1
checklist_version: "2026.07.1"
global_description: |-
  检查本项目的输入安全、事务边界和错误处理。先根据 MR 变更选择相关规则 key，
  再加载完整规则；不要仅依据概要直接给出检视结论。
---

## SEC-001

```yaml review-rule
summary: 检查外部输入是否在进入 SQL 前完成参数化处理
tags:
  - security
  - database
paths:
  - "src/**/*.py"
languages:
  - python
```

### 检视要求

禁止使用字符串拼接构造 SQL。确认查询通过数据库驱动提供的参数绑定接口执行。
动态表名、排序字段等无法直接绑定的位置必须使用服务端白名单限制。

## DB-004

```yaml review-rule
summary: 检查事务边界是否覆盖完整业务操作
tags:
  - database
  - consistency
paths:
  - "src/**/services/*.py"
languages:
  - python
```

### 检视要求

确认同一业务操作中的相关写入处于同一事务，失败路径能够完整回滚。
网络调用和其他不可控的长耗时操作不应被包含在数据库长事务中。

"####;

const FIXTURE: &str = r####"---
schema_version: 1
checklist_version: "2026.07.1"
global_description: |-
  检查本项目的安全性、事务边界、兼容性和可观测性。
---

## SEC-001

```yaml review-rule
summary: 检查外部输入是否在进入 SQL 前完成参数化处理
tags:
  - security
  - database
paths:
  - "src/**/*.py"
languages:
  - python
```

### 检视要求

禁止使用字符串拼接构造 SQL。确认查询使用参数绑定。

## DB-004

```yaml review-rule
summary: 检查事务边界是否覆盖完整业务操作
tags:
  - database
paths: []
languages:
  - python
```

确认失败路径会回滚事务，且外部调用不会被包含在长事务中。

"####;

fn parse(source: &str) -> Result<Checklist, ReviewKBError> {
    parse_checklist("cl.md", Some(source.as_bytes()))
}

fn message(source: &str) -> String {
    let err = parse(source).unwrap_err();
    assert_eq!(err.code, ErrorCode::ChecklistInvalid);
    err.message
}

#[test]
fn example_checklist_matches_python_hashes() {
    let cl = parse(EXAMPLE).expect("example parses");
    assert_eq!(cl.schema_version, 1);
    assert_eq!(cl.checklist_version, "2026.07.1");
    assert_eq!(
        cl.content_hash,
        "sha256:3771e811688140df1bcc45a6cfe213a3c1f4b255ea6292fadb6b96f87b4857df"
    );
    assert_eq!(cl.rules.len(), 2);
    assert_eq!(cl.rules[0].key, "SEC-001");
    assert_eq!(
        cl.rules[0].source_rule_hash,
        "sha256:741c3dd771b85a3c185192e40c01506a79be54f83a6fe8aa572615541524e06f"
    );
    assert_eq!(cl.rules[1].key, "DB-004");
    assert_eq!(
        cl.rules[1].source_rule_hash,
        "sha256:5cd3b7bd02ede797a07658022e090207e8fccbc9f3c80e165be4f080a5ff2a29"
    );
}

#[test]
fn valid_fixture_matches_python_hashes() {
    let cl = parse(FIXTURE).expect("fixture parses");
    assert_eq!(
        cl.content_hash,
        "sha256:47c9a24f5dc7f0a76aa56319d304f488e47d36c49af6983f697a78dfa02384d1"
    );
    assert_eq!(cl.rules.len(), 2);
    assert_eq!(
        cl.rules[0].source_rule_hash,
        "sha256:350d095551551337b6e53c8d6e4dcb1f5c7c775855e6eeac620996e292d403c9"
    );
    assert_eq!(cl.rules[1].paths, Vec::<String>::new());
    assert_eq!(
        cl.rules[1].source_rule_hash,
        "sha256:b41b01455da655a112bca9cf6364eb121cf38a527a0629730e299504d81b0d04"
    );
}

const FRONT: &str = "---\nschema_version: 1\nchecklist_version: v1\nglobal_description: gd\n---\n";

fn with_body(body: &str) -> String {
    format!("{FRONT}{body}")
}

fn rule(key: &str, meta: &str, content: &str) -> String {
    format!("## {key}\n\n```yaml review-rule\n{meta}\n```\n\n{content}\n\n")
}

#[test]
fn a_rule_in_full() {
    let meta = "summary: '  short  '\ntags: [b, a, b]\npaths: ['x/**']\nlanguages: [rust]";
    let cl = parse(&with_body(&rule("K.1_a-B", meta, "first\n\n### more\n\nlast"))).unwrap();
    let r = &cl.rules[0];
    assert_eq!(r.key, "K.1_a-B");
    assert_eq!(r.summary, "short");
    assert_eq!(r.content, "first\n\n### more\n\nlast");
    assert_eq!(r.tags, vec!["b".to_string(), "a".to_string()]);
    assert_eq!(r.paths, vec!["x/**".to_string()]);
    assert_eq!(r.languages, vec!["rust".to_string()]);
    assert_eq!(cl.global_description, "gd");
}

#[test]
fn a_missing_file() {
    let err = parse_checklist("no/where.md", None).unwrap_err();
    assert_eq!(err.code, ErrorCode::ChecklistNotFound);
    assert_eq!(err.message, "checklist not found: no/where.md");
    assert_eq!(canonical_json(&err.details), r#"{"path":"no/where.md"}"#);
}

#[test]
fn faults_of_the_file() {
    let bad = parse_checklist("cl.md", Some(&[0xff, 0xfe])).unwrap_err();
    assert_eq!(bad.message, "checklist must be valid UTF-8");
    assert_eq!(message("## A\n"), "checklist must start with YAML Front Matter");
    let front = |lines: &str| -> String { message(&format!("---\n{lines}\n---\n")) };
    assert_eq!(
        front("schema_version: 1\nzeta: 1\nalpha: 2"),
        "unknown Front Matter fields: alpha, zeta"
    );
    assert_eq!(
        front("schema_version: 2\nchecklist_version: v\nglobal_description: g"),
        "schema_version must be 1"
    );
    assert_eq!(
        front("schema_version: 1\nchecklist_version: 7\nglobal_description: g"),
        "checklist_version must be a non-empty string"
    );
    assert_eq!(
        front("schema_version: 1\nchecklist_version: v\nglobal_description: ' '"),
        "global_description must be a non-empty string"
    );
    assert_eq!(message(&with_body("text\n")), "checklist must contain at least one level-two rule");
}

#[test]
fn faults_of_a_rule() {
    let one = |key: &str, meta: &str, content: &str| -> String {
        message(&with_body(&rule(key, meta, content)))
    };
    assert_eq!(one("a b", "summary: s", "c"), "invalid rule key: 'a b'");
    assert_eq!(one("K", "summary: s\nfoo: 1", "c"), "unknown fields for rule K: foo");
    assert_eq!(one("K", "tags: [a]", "c"), "rule K summary must be a non-empty single line");
    assert_eq!(
        one("K", "summary: \"a\\nb\"", "c"),
        "rule K summary must be a non-empty single line"
    );
    assert_eq!(
        one("K", "summary: s\nlanguages: [Rust]", "c"),
        "rule K languages must be lowercase"
    );
    assert_eq!(one("K", "summary: s", ""), "rule K content must not be empty");
    let two = rule("Key", "summary: s", "c") + &rule("KEY", "summary: s", "c");
    assert_eq!(message(&with_body(&two)), "duplicate rule key: KEY conflicts with Key");
    assert_eq!(
        message(&with_body("## K\n\ntext\n")),
        "rule K must contain exactly one `yaml review-rule` metadata block"
    );
    let late = "## K\n\ntext\n\n```yaml review-rule\nsummary: s\n```\n\nmore\n";
    assert_eq!(
        message(&with_body(late)),
        "rule K metadata block must appear before rule content"
    );
}

#[test]
fn a_fault_names_its_line() {
    let err = parse(&with_body(&rule("a b", "summary: s", "c"))).unwrap_err();
    assert_eq!(canonical_json(&err.details), r#"{"line":1,"path":"cl.md"}"#);
}

#[test]
fn headings_in_every_form() {
    let source = "A-1\n---\n\n ##   B-2   ##\n\n```\n## not\n```\n\n### deeper\n\n    ## code\n";
    let lines = py_splitlines(source);
    let scan = scan_markdown(&lines);
    let keys: Vec<&str> = scan.headings.iter().map(|h| h.key.as_str()).collect();
    assert_eq!(keys, vec!["A-1", "B-2"]);
    assert_eq!(scan.fences.len(), 1);
}

#[test]
fn lines_end_in_many_ways() {
    let lines = py_splitlines("a\r\nb\rc\nd\u{2028}e\u{b}f");
    assert_eq!(lines, vec!["a", "b", "c", "d", "e", "f"]);
    assert_eq!(py_splitlines(""), Vec::<String>::new());
    assert_eq!(py_splitlines("a\n"), vec!["a".to_string()]);
}

#[test]
fn keys_that_may_be_used() {
    let long = "a".repeat(128);
    for key in ["A", "0", "a.b_c-D", long.as_str()] {
        assert!(valid_key(key), "{key}");
    }
    let longer = "a".repeat(129);
    for key in ["", "-a", ".a", "a b", "é", longer.as_str()] {
        assert!(!valid_key(key), "{key}");
    }
}

#[test]
fn quoting_of_odd_keys() {
    assert_eq!(py_repr("a b"), "'a b'");
    assert_eq!(py_repr("it's"), "'it\\'s'");
    assert_eq!(py_repr("tab\t"), "'tab\\t'");
}

#[test]
fn front_matter_and_the_rest() {
    assert!(split_front_matter("no front").is_none());
    assert!(split_front_matter("---\na: 1\n---\nrest").is_some());
}

#[test]
fn fences_follow_one_another() {
    let source = "## A\n```x\n## in\n```\n~~~\n~~~\n## B\n```\nlast\n";
    let lines = py_splitlines(source);
    let scan = scan_markdown(&lines);
    let fences: Vec<(usize, usize)> = scan.fences.iter().map(|f| (f.open, f.end)).collect();
    assert_eq!(fences, vec![(1, 4), (4, 6), (7, 9)]);
    let headings: Vec<(usize, &str)> =
        scan.headings.iter().map(|h| (h.line, h.key.as_str())).collect();
    assert_eq!(headings, vec![(0, "A"), (6, "B")]);
}

/// A checklist with `value` as its global description.
fn described(value: &str) -> String {
    format!(
        "---\nschema_version: 1\nchecklist_version: v1\nglobal_description: {value}\n---\n{}",
        "## A-1\n\n```yaml review-rule\nsummary: one\n```\n\nbody\n"
    )
}

#[test]
fn scalars_with_long_runs_of_blanks() {
    for n in [1, 15, 16, 17, 40, 200, 5000] {
        let wide = format!("a{}b", " ".repeat(n));
        assert_eq!(parse(&described(&wide)).unwrap().global_description, wide);
        let quoted = format!("'{wide}'");
        assert_eq!(parse(&described(&quoted)).unwrap().global_description, wide);
        let folded = format!("\"a{} b\"", "\n".repeat(n + 1));
        let tall = format!("a{}b", "\n".repeat(n));
        assert_eq!(parse(&described(&folded)).unwrap().global_description, tall);
        let block = format!("|-\n  a{}  b", "\n".repeat(n));
        assert_eq!(parse(&described(&block)).unwrap().global_description, tall);
    }
}
