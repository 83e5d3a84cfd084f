//! Scenario tests for the loader, the scan orchestrator, the rule tester
//! and the field-suggestion helper.

use offline_siem::json::get_field_value;
use offline_siem::loader::{detect_format, load_events};
use offline_siem::models::{DetectionLogic, LogSource, LogType, RuleYaml, SiemError};
use offline_siem::rules::list_active_rules;
use offline_siem::scan::{scan, scan_all, severity_order, sort_alerts};
use offline_siem::test_rule::{get_field_suggestions, test_rule};

fn rule(id: &str, severity: &str, condition: &str) -> RuleYaml {
    RuleYaml {
        id: id.to_string(),
        title: format!("rule {}", id),
        description: String::new(),
        author: String::new(),
        status: "active".to_string(),
        date: String::new(),
        tags: Vec::new(),
        detection: DetectionLogic {
            severity: severity.to_string(),
            condition: condition.to_string(),
            aggregation: None,
        },
        output: None,
    }
}

#[test]
fn wrapped_source_loads_records_in_order() {
    let source = r#"{"Records":[{"eventName":"X"}]}"#;
    assert!(matches!(detect_format(source), LogType::CloudTrail));
    let events = load_events(source, LogType::CloudTrail).unwrap();
    assert_eq!(events.len(), 1);
    assert_eq!(get_field_value(&events[0], "eventName"), Some("X".to_string()));
}

#[test]
fn wrapped_source_without_records_fails() {
    let source = r#"{"eventName":"X"}"#;
    assert!(matches!(detect_format(source), LogType::FlatJson));
    let err = load_events(source, LogType::CloudTrail).unwrap_err();
    assert!(matches!(err, SiemError::Query(_)));
    assert_eq!(err.message().as_str(), "CloudTrail file must have 'Records' array");
    let unparsable = load_events("not json {", LogType::CloudTrail).unwrap_err();
    assert_eq!(unparsable.message().as_str(), "Failed to parse JSON");
}

#[test]
fn error_variants_carry_their_message() {
    assert_eq!(SiemError::Database("d".to_string()).message().as_str(), "d");
    assert_eq!(SiemError::Rule("r".to_string()).message().as_str(), "r");
    assert_eq!(SiemError::FileIO("f".to_string()).message().as_str(), "f");
    assert_eq!(SiemError::Query("q".to_string()).message().as_str(), "q");
    assert_eq!(SiemError::Serialization("s".to_string()).message().as_str(), "s");
}

#[test]
fn ndjson_source_yields_lines_in_order() {
    let source = "{\"n\":\"1\"}\n{\"n\":\"2\"}\n{\"n\":\"3\"}";
    let events = load_events(source, LogType::FlatJson).unwrap();
    assert_eq!(events.len(), 3);
    assert_eq!(get_field_value(&events[0], "n"), Some("1".to_string()));
    assert_eq!(get_field_value(&events[1], "n"), Some("2".to_string()));
    assert_eq!(get_field_value(&events[2], "n"), Some("3".to_string()));
}

#[test]
fn single_object_source_is_one_event() {
    let events = load_events(r#"{"eventName":"X"}"#, LogType::FlatJson).unwrap();
    assert_eq!(events.len(), 1);
}

#[test]
fn unparsable_line_is_dropped_not_fatal() {
    let source = "{\"n\":\"1\"}\nnot json at all {\n{\"n\":\"3\"}";
    let events = load_events(source, LogType::FlatJson).unwrap();
    assert_eq!(events.len(), 2);
    assert_eq!(get_field_value(&events[1], "n"), Some("3".to_string()));
}

#[test]
fn load_fails_when_no_event_survives() {
    let err = load_events("not json at all {", LogType::FlatJson).unwrap_err();
    assert!(matches!(err, SiemError::Query(_)));
    assert_eq!(err.message().as_str(), "No events found in log file");
    assert!(load_events("", LogType::FlatJson).is_err());
}

#[test]
fn blank_lines_are_skipped() {
    let source = "{\"n\":\"1\"}\n   \n\r\n{\"n\":\"2\"}\n";
    let events = load_events(source, LogType::FlatJson).unwrap();
    assert_eq!(events.len(), 2);
}

#[test]
fn severity_order_ranking() {
    assert_eq!(severity_order("critical"), 5);
    assert_eq!(severity_order("high"), 4);
    assert_eq!(severity_order("medium"), 3);
    assert_eq!(severity_order("low"), 2);
    assert_eq!(severity_order("info"), 1);
    assert_eq!(severity_order("odd"), 0);
    assert_eq!(severity_order("CRITICAL"), 5);
}

#[test]
fn alerts_come_out_severity_descending() {
    let rules = vec![
        rule("r-low", "low", "kind = 'x'"),
        rule("r-crit", "critical", "kind = 'x'"),
        rule("r-med", "medium", "kind = 'x'"),
    ];
    let source = r#"{"kind":"x"}"#;
    let resp = scan(&rules, source, LogType::FlatJson, "2024-01-01T00:00:00Z").unwrap();
    assert_eq!(resp.rules_evaluated, 3);
    let severities: Vec<&str> = resp.alerts.iter().map(|a| a.severity.as_str()).collect();
    assert_eq!(severities, vec!["critical", "medium", "low"]);
}

#[test]
fn ties_keep_rule_order() {
    let rules = vec![
        rule("first", "high", "kind = 'x'"),
        rule("second", "high", "kind = 'x'"),
    ];
    let resp = scan(&rules, r#"{"kind":"x"}"#, LogType::FlatJson, "t").unwrap();
    assert_eq!(resp.alerts.len(), 2);
    assert_eq!(resp.alerts[0].rule_id, "first");
    assert_eq!(resp.alerts[1].rule_id, "second");
}

#[test]
fn scan_counts_matches_and_caps_evidence() {
    let mut source = String::new();
    for i in 0..1001 {
        source.push_str(&format!("{{\"n\":\"{}\",\"kind\":\"x\"}}\n", i));
    }
    let rules = vec![rule("r1", "high", "kind = 'x'")];
    let resp = scan(&rules, &source, LogType::FlatJson, "t").unwrap();
    assert_eq!(resp.alerts.len(), 1);
    assert_eq!(resp.alerts[0].match_count, 1001);
    assert_eq!(resp.alerts[0].evidence.len(), 1000);
}

#[test]
fn scan_with_no_matches_returns_empty_alerts() {
    let rules = vec![rule("r1", "high", "kind = 'y'")];
    let resp = scan(&rules, r#"{"kind":"x"}"#, LogType::FlatJson, "t").unwrap();
    assert_eq!(resp.alerts.len(), 0);
    assert_eq!(resp.rules_evaluated, 1);
}

#[test]
fn scan_load_failure_is_fatal_to_the_call() {
    let rules = vec![rule("r1", "high", "kind = 'x'")];
    let err = scan(&rules, "not json {", LogType::CloudTrail, "t").unwrap_err();
    assert!(matches!(err, SiemError::Query(_)));
}

#[test]
fn bulk_scan_isolates_one_failure() {
    let rules = vec![rule("r1", "high", "kind = 'x'")];
    let sources = vec![
        LogSource {
            name: "a.json".to_string(),
            content: r#"{"kind":"x"}"#.to_string(),
            format: None,
        },
        LogSource {
            name: "broken.json".to_string(),
            content: "not json {".to_string(),
            format: None,
        },
        LogSource {
            name: "c.json".to_string(),
            content: r#"{"Records":[{"kind":"x"},{"kind":"y"}]}"#.to_string(),
            format: Some(LogType::CloudTrail),
        },
    ];
    let result = scan_all(&rules, &sources, "t");
    assert_eq!(result.file_results.len(), 2);
    assert_eq!(result.failed_files.len(), 1);
    assert_eq!(result.failed_files[0].source_file, "broken.json");
    assert_eq!(result.failed_files[0].error, "No events found in log file");
    assert_eq!(result.total_files_scanned, 2);
    assert_eq!(result.total_alerts, 2);
    assert_eq!(result.rules_evaluated, 1);
    assert_eq!(result.file_results[0].source_file, "a.json");
    assert_eq!(result.file_results[1].source_file, "c.json");
    assert_eq!(result.file_results[1].response.alerts[0].match_count, 1);
    assert_eq!(
        result.file_results[0].response.alerts[0].source_file.as_deref(),
        Some("a.json")
    );
}

#[test]
fn sort_alerts_orders_a_prebuilt_list() {
    let rules = vec![
        rule("r-info", "info", "kind = 'x'"),
        rule("r-high", "high", "kind = 'x'"),
    ];
    let resp = scan(&rules, r#"{"kind":"x"}"#, LogType::FlatJson, "t").unwrap();
    let again = sort_alerts(resp.alerts);
    assert_eq!(again[0].severity, "high");
    assert_eq!(again[1].severity, "info");
}

#[test]
fn list_active_rules_filters_by_status() {
    let mut r1 = rule("a", "low", "x = '1'");
    r1.status = "disabled".to_string();
    let r2 = rule("b", "low", "x = '1'");
    let active = list_active_rules(vec![r1, r2]);
    assert_eq!(active.len(), 1);
    assert_eq!(active[0].id, "b");
}

#[test]
fn test_rule_reports_counts_and_samples() {
    let mut source = String::new();
    for i in 0..10 {
        let kind = if i < 3 { "hit" } else { "miss" };
        source.push_str(&format!("{{\"n\":\"{}\",\"kind\":\"{}\"}}\n", i, kind));
    }
    let result = test_rule(&source, "kind = 'hit'", LogType::FlatJson).unwrap();
    assert!(result.syntax_valid);
    assert_eq!(result.total_count, 10);
    assert_eq!(result.matched_count, 3);
    assert_eq!(result.matched_events.len(), 3);
    assert_eq!(result.sample_non_matched.len(), 5);
}

#[test]
fn test_rule_rejects_invalid_syntax_without_loading() {
    let result = test_rule("ignored", "eventName 'AssumeRole", LogType::FlatJson).unwrap();
    assert!(!result.syntax_valid);
    assert!(result.syntax_error.is_some());
    assert_eq!(result.total_count, 0);
}

#[test]
fn suggestions_flatten_count_and_rank() {
    let mut source = String::new();
    source.push_str("{\"eventName\":\"A\",\"user\":{\"name\":\"u1\",\"admin\":true},\"n\":1}\n");
    source.push_str("{\"eventName\":\"B\",\"user\":{\"name\":\"u2\"}}\n");
    source.push_str("{\"eventName\":\"C\"}\n");
    let sug = get_field_suggestions(&source, LogType::FlatJson, "").unwrap();
    let top = &sug[0];
    assert_eq!(top.field_path, "eventName");
    assert_eq!(top.frequency, 3);
    assert_eq!(top.field_type, "string");
    assert_eq!(top.sample_value, "A");
    let name = sug.iter().find(|s| s.field_path == "user.name").unwrap();
    assert_eq!(name.frequency, 2);
    let admin = sug.iter().find(|s| s.field_path == "user.admin").unwrap();
    assert_eq!(admin.field_type, "boolean");
    assert_eq!(admin.sample_value, "true");
    let n = sug.iter().find(|s| s.field_path == "n").unwrap();
    assert_eq!(n.field_type, "number");
    assert_eq!(n.sample_value, "1");
}

#[test]
fn suggestions_filter_by_prefix_case_insensitively() {
    let source = "{\"eventName\":\"A\",\"awsRegion\":\"r\"}";
    let sug = get_field_suggestions(source, LogType::FlatJson, "EVENT").unwrap();
    assert_eq!(sug.len(), 1);
    assert_eq!(sug[0].field_path, "eventName");
}

#[test]
fn suggestions_descend_into_first_array_element_and_truncate_samples() {
    let long: String = "x".repeat(60);
    let source = format!(
        "{{\"items\":[{{\"kind\":\"{}\"}},{{\"other\":\"y\"}}],\"empty\":[]}}",
        long
    );
    let sug = get_field_suggestions(&source, LogType::FlatJson, "items").unwrap();
    assert_eq!(sug.len(), 1);
    assert_eq!(sug[0].field_path, "items.kind");
    assert_eq!(sug[0].sample_value.len(), 50);
}
