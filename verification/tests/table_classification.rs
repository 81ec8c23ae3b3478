use edgequake::table_classification::parse_classification_response;

#[test]
fn parse_strict_json_response() {
    let raw = r#"{"table_type":"performance","rationale":"Reports throughput in tok/s."}"#;
    let (label, why) = parse_classification_response(raw);
    assert_eq!(label, "performance");
    assert!(why.starts_with("Reports throughput"));
}

#[test]
fn parse_code_fenced_response() {
    let raw = "```json\n{\"table_type\":\"quality\",\"rationale\":\"Accuracy across benchmarks.\"}\n```";
    let (label, _) = parse_classification_response(raw);
    assert_eq!(label, "quality");
}

#[test]
fn parse_with_trailing_prose() {
    let raw = "Sure! {\"table_type\":\"complexity\",\"rationale\":\"Round complexity O(log n).\"} Hope that helps.";
    let (label, why) = parse_classification_response(raw);
    assert_eq!(label, "complexity");
    assert!(why.contains("Round complexity"));
}

#[test]
fn parse_unknown_label_falls_back_to_other() {
    let raw = r#"{"table_type":"performance-vs-quality","rationale":"…"}"#;
    let (label, _) = parse_classification_response(raw);
    assert_eq!(label, "other");
}

#[test]
fn parse_unparseable_returns_other_with_raw_in_rationale() {
    let raw = "I think this is a performance table.";
    let (label, why) = parse_classification_response(raw);
    assert_eq!(label, "other");
    assert!(why.contains("unparseable") || why.contains("performance"));
}
