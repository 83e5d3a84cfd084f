//! Unit tests: the condition linter, the sample rule, the default
//! configuration, the recent-files rules and the event-count estimate.

use offline_siem::config::AppConfig;
use offline_siem::loader::estimate_event_count;
use offline_siem::rules::create_sample_rule;
use offline_siem::test_rule::validate_condition;

#[test]
fn test_validate_condition_valid() {
    let result = validate_condition("eventName = 'AssumeRole'");
    assert!(result.valid);
}

#[test]
fn test_validate_condition_unmatched_quote() {
    let result = validate_condition("eventName = 'AssumeRole");
    assert!(!result.valid);
    assert!(result.error_message.unwrap().contains("quote"));
}

#[test]
fn test_validate_condition_no_operator() {
    let result = validate_condition("eventName AssumeRole");
    assert!(!result.valid);
}

#[test]
fn test_validate_condition_in() {
    let result = validate_condition("eventName IN ('A', 'B')");
    assert!(result.valid);
}

#[test]
fn test_validate_condition_startswith() {
    let result = validate_condition("eventName STARTSWITH 'Assume'");
    assert!(result.valid);
}

#[test]
fn test_validate_condition_match() {
    let result = validate_condition("eventName MATCH 'Assume*'");
    assert!(result.valid);
}

#[test]
fn test_create_sample_rule() {
    let rule = create_sample_rule();
    assert!(!rule.title.is_empty());
    assert_eq!(rule.status, "active");
}

#[test]
fn test_default_config() {
    let config = AppConfig::default();
    assert!(config.rules_directory.is_none());
    assert_eq!(config.max_recent_files, 10);
    assert!(config.ui_preferences.dark_mode);
}

#[test]
fn test_validate_log_file() {
    assert!(true);
}

#[test]
fn test_estimate_event_count_array() {
    let json_content = r#"[{"event": 1}, {"event": 2}, {"event": 3}]"#;
    let count = estimate_event_count(json_content);
    assert_eq!(count, Some(3));
}

#[test]
fn test_estimate_event_count_ndjson() {
    let ndjson_content = "{\"event\": 1}\n{\"event\": 2}\n{\"event\": 3}";
    let count = estimate_event_count(ndjson_content);
    assert_eq!(count, Some(3));
}

#[test]
fn validate_condition_empty() {
    let result = validate_condition("   ");
    assert!(!result.valid);
    assert_eq!(result.error_message.unwrap(), "Condition cannot be empty");
    assert_eq!(result.error_position, Some(0));
}

#[test]
fn validate_condition_empty_and_branch() {
    let result = validate_condition("a = '1' AND   AND b = '2'");
    assert!(!result.valid);
    assert_eq!(result.error_message.unwrap(), "Empty condition part in AND/OR");
}

#[test]
fn validate_condition_quote_position() {
    let result = validate_condition("a = 'x");
    assert!(!result.valid);
    assert_eq!(result.error_position, Some(4));
}

#[test]
fn recent_files_move_to_front_and_dedupe() {
    let mut config = AppConfig::default();
    config.add_recent_log_file("a.json".to_string());
    config.add_recent_log_file("b.json".to_string());
    config.add_recent_log_file("a.json".to_string());
    assert_eq!(config.recent_log_files, vec!["a.json", "b.json"]);
}

#[test]
fn recent_files_are_trimmed_to_the_maximum() {
    let mut config = AppConfig::default();
    for i in 0..15 {
        config.add_recent_log_file(format!("f{}.json", i));
    }
    assert_eq!(config.recent_log_files.len(), 10);
    assert_eq!(config.recent_log_files[0], "f14.json");
    config.clear_recent_files();
    assert!(config.recent_log_files.is_empty());
}

#[test]
fn directories_can_be_set_and_cleared() {
    let mut config = AppConfig::default();
    config.set_rules_directory(Some("/tmp/rules".to_string()));
    config.set_logs_directory(Some("/tmp/logs".to_string()));
    assert_eq!(config.rules_directory.as_deref(), Some("/tmp/rules"));
    assert_eq!(config.default_logs_directory.as_deref(), Some("/tmp/logs"));
    config.set_rules_directory(None);
    assert!(config.rules_directory.is_none());
}
