use envguard::{sort_findings, Finding};

fn finding(path: &str, line: usize, rule: &'static str, message: &'static str) -> Finding {
    Finding { path: path.to_string(), line, rule, message }
}

#[test]
fn sorts_by_path_then_line_then_rule() {
    let input = vec![
        finding("b", 1, "x", "m"),
        finding("a", 2, "x", "m"),
        finding("a", 1, "y", "m"),
        finding("a", 1, "x", "m"),
        finding("B", 9, "x", "m"),
        finding("a/b", 0, "x", "m"),
        finding("é", 0, "x", "m"),
    ];
    let sorted = sort_findings(input);
    let keys: Vec<(&str, usize, &str)> =
        sorted.iter().map(|f| (f.path.as_str(), f.line, f.rule)).collect();
    assert_eq!(
        keys,
        vec![
            ("B", 9, "x"),
            ("a", 1, "x"),
            ("a", 1, "y"),
            ("a", 2, "x"),
            ("a/b", 0, "x"),
            ("b", 1, "x"),
            ("é", 0, "x"),
        ]
    );
}

#[test]
fn equal_keys_keep_their_order() {
    let input = vec![
        finding("p", 1, "r", "second"),
        finding("a", 1, "r", "m"),
        finding("p", 1, "r", "first"),
    ];
    let sorted = sort_findings(input);
    let messages: Vec<&str> = sorted.iter().map(|f| f.message).collect();
    assert_eq!(messages, vec!["m", "second", "first"]);
    assert!(sort_findings(Vec::new()).is_empty());
}
