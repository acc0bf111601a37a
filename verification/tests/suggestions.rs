use review_kb::suggestions::{levenshtein, suggest_keys};

fn keys(list: &[&str]) -> Vec<String> {
    list.iter().map(|s| s.to_string()).collect()
}

#[test]
fn levenshtein_basics() {
    assert_eq!(levenshtein("", ""), 0);
    assert_eq!(levenshtein("abc", "abc"), 0);
    assert_eq!(levenshtein("kitten", "sitting"), 3);
    assert_eq!(levenshtein("flaw", "lawn"), 2);
}

#[test]
fn suggest_matches_python_order() {
    let available = keys(&["SEC-001", "SEC-002", "DB-004", "SEC-010"]);
    assert_eq!(
        suggest_keys("SEC-01", &available, 3),
        vec!["SEC-010", "SEC-001", "SEC-002"]
    );
}

#[test]
fn suggest_exact_then_prefix() {
    let available = keys(&["SEC-001", "SEC-010", "DB-004"]);
    assert_eq!(suggest_keys("SEC-001", &available, 3)[0], "SEC-001");
}

#[test]
fn suggest_respects_limit() {
    let available: Vec<String> = (0..5).map(|i| format!("K-00{i}")).collect();
    assert_eq!(suggest_keys("K", &available, 2).len(), 2);
}
