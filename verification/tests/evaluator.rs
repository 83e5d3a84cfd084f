//! Scenario tests for the condition evaluator and the wildcard matcher.

use offline_siem::eval::{matches_condition, parse_in_list, split_by_keyword};
use offline_siem::json::{get_field_value, JsonValue};
use offline_siem::loader::load_events;
use offline_siem::models::LogType;
use offline_siem::wildcard::wildcard_match;

fn event(json: &str) -> JsonValue {
    let mut events = load_events(json, LogType::FlatJson).unwrap();
    assert_eq!(events.len(), 1);
    events.remove(0)
}

#[test]
fn evaluator_is_deterministic() {
    let e = event(r#"{"eventName":"DeleteTrail","awsRegion":"us-east-1"}"#);
    let cond = "eventName = 'DeleteTrail' AND awsRegion CONTAINS 'east'";
    let first = matches_condition(&e, cond);
    let second = matches_condition(&e, cond);
    assert!(first);
    assert_eq!(first, second);
}

#[test]
fn absent_field_is_false_for_every_operator() {
    let e = event(r#"{"eventName":"ConsoleLogin"}"#);
    let conditions = [
        "missing = 'x'",
        "missing != 'x'",
        "missing <> 'x'",
        "missing CONTAINS 'x'",
        "missing NOT CONTAINS 'x'",
        "missing IN ('x','y')",
        "missing NOT IN ('x','y')",
        "missing STARTSWITH 'x'",
        "missing ENDSWITH 'x'",
        "missing MATCH 'x*'",
    ];
    for cond in conditions.iter() {
        assert!(!matches_condition(&e, cond), "expected false for {}", cond);
    }
}

#[test]
fn precedence_or_binds_weaker_than_and() {
    let cond = "a = '1' OR b = '1' AND c = '1'";
    let only_a = event(r#"{"a":"1","b":"0","c":"0"}"#);
    assert!(matches_condition(&only_a, cond));
    let only_b = event(r#"{"a":"0","b":"1","c":"0"}"#);
    assert!(!matches_condition(&only_b, cond));
    let b_and_c = event(r#"{"a":"0","b":"1","c":"1"}"#);
    assert!(matches_condition(&b_and_c, cond));
}

#[test]
fn grouping_evaluates_parentheses_first() {
    let cond = "(a = '1' OR b = '1') AND c = '1'";
    let a_no_c = event(r#"{"a":"1","b":"0","c":"0"}"#);
    assert!(!matches_condition(&a_no_c, cond));
    let a_and_c = event(r#"{"a":"1","b":"0","c":"1"}"#);
    assert!(matches_condition(&a_and_c, cond));
    let b_and_c = event(r#"{"a":"0","b":"1","c":"1"}"#);
    assert!(matches_condition(&b_and_c, cond));
    let only_c = event(r#"{"a":"0","b":"0","c":"1"}"#);
    assert!(!matches_condition(&only_c, cond));
}

#[test]
fn in_list_matches_membership() {
    let cond = "eventName IN ('StopLogging','DeleteTrail')";
    let hit = event(r#"{"eventName":"DeleteTrail"}"#);
    assert!(matches_condition(&hit, cond));
    let miss = event(r#"{"eventName":"CreateUser"}"#);
    assert!(!matches_condition(&miss, cond));
}

#[test]
fn not_in_list_rejects_membership() {
    let cond = "eventName NOT IN ('StopLogging','DeleteTrail')";
    let listed = event(r#"{"eventName":"DeleteTrail"}"#);
    assert!(!matches_condition(&listed, cond));
    let other = event(r#"{"eventName":"CreateUser"}"#);
    assert!(matches_condition(&other, cond));
}

#[test]
fn wildcard_match_cases() {
    assert!(wildcard_match("AssumeRoleWithSAML", "Assume*"));
    assert!(!wildcard_match("ConsoleLogin", "Assume*"));
    assert!(wildcard_match("ABC", "A?C"));
    assert!(!wildcard_match("ABBC", "A?C"));
}

#[test]
fn wildcard_match_is_case_insensitive() {
    assert!(wildcard_match("assumeRoleWithSAML", "ASSUME*"));
    assert!(wildcard_match("AssumeRole", "assume?ole"));
}

#[test]
fn match_operator_single_and_list() {
    let e = event(r#"{"eventName":"AssumeRoleWithSAML"}"#);
    assert!(matches_condition(&e, "eventName MATCH 'Assume*'"));
    assert!(!matches_condition(&e, "eventName MATCH 'Console*'"));
    assert!(matches_condition(&e, "eventName MATCH ['Console*','Assume*']"));
    assert!(!matches_condition(&e, "eventName MATCH ['Console*','Delete*']"));
}

#[test]
fn contains_is_case_insensitive() {
    let e = event(r#"{"eventName":"AssumeRole"}"#);
    assert!(matches_condition(&e, "eventName CONTAINS 'assume'"));
    assert!(matches_condition(&e, "eventName CONTAINS 'SUME'"));
    assert!(!matches_condition(&e, "eventName CONTAINS 'console'"));
    assert!(!matches_condition(&e, "eventName NOT CONTAINS 'assume'"));
}

#[test]
fn equality_is_case_sensitive() {
    let e = event(r#"{"eventName":"AssumeRole"}"#);
    assert!(matches_condition(&e, "eventName = 'AssumeRole'"));
    assert!(!matches_condition(&e, "eventName = 'assumerole'"));
    assert!(matches_condition(&e, "eventName != 'assumerole'"));
    assert!(matches_condition(&e, "eventName <> 'Other'"));
    assert!(!matches_condition(&e, "eventName <> 'AssumeRole'"));
}

#[test]
fn starts_and_ends_with() {
    let e = event(r#"{"eventName":"AssumeRoleWithSAML"}"#);
    assert!(matches_condition(&e, "eventName STARTSWITH 'assume'"));
    assert!(!matches_condition(&e, "eventName STARTSWITH 'saml'"));
    assert!(matches_condition(&e, "eventName ENDSWITH 'saml'"));
    assert!(!matches_condition(&e, "eventName ENDSWITH 'assume'"));
    assert!(matches_condition(&e, "eventName NOT STARTSWITH 'saml'"));
    assert!(matches_condition(&e, "eventName NOT ENDSWITH 'assume'"));
}

#[test]
fn nested_fields_resolve_through_objects_only() {
    let e = event(r#"{"userIdentity":{"type":"Root","arn":"arn:aws:iam::1:root"},"n":5,"b":true,"list":[1,2]}"#);
    assert!(matches_condition(&e, "userIdentity.type = 'Root'"));
    assert!(!matches_condition(&e, "userIdentity.missing = 'Root'"));
    assert_eq!(get_field_value(&e, "userIdentity.type"), Some("Root".to_string()));
    assert_eq!(get_field_value(&e, "n"), Some("5".to_string()));
    assert_eq!(get_field_value(&e, "b"), Some("true".to_string()));
    assert_eq!(get_field_value(&e, "list"), None);
    assert_eq!(get_field_value(&e, "userIdentity"), None);
    assert_eq!(get_field_value(&e, "list.0"), None);
}

#[test]
fn numbers_compare_by_canonical_text() {
    let e = event(r#"{"count":42,"ratio":1.5}"#);
    assert!(matches_condition(&e, "count = 42"));
    assert!(matches_condition(&e, "count = '42'"));
    assert!(matches_condition(&e, "ratio = '1.5'"));
    assert!(!matches_condition(&e, "count = 43"));
}

#[test]
fn condition_without_operator_is_false() {
    let e = event(r#"{"eventName":"AssumeRole"}"#);
    assert!(!matches_condition(&e, "eventName AssumeRole"));
    assert!(!matches_condition(&e, ""));
}

#[test]
fn and_requires_all_branches() {
    let e = event(r#"{"a":"1","b":"2"}"#);
    assert!(matches_condition(&e, "a = '1' AND b = '2'"));
    assert!(!matches_condition(&e, "a = '1' AND b = '3'"));
    assert!(matches_condition(&e, "a = '9' OR b = '2'"));
    assert!(!matches_condition(&e, "a = '9' OR b = '3'"));
}

#[test]
fn in_with_logic_around_is_one_atomic_predicate() {
    // A condition holding an `IN (` token is taken as one atomic predicate,
    // so the trailing AND is part of the malformed list text.
    let e = event(r#"{"a":"x","b":"1"}"#);
    assert!(!matches_condition(&e, "a IN ('x') AND b = '1'"));
}

#[test]
fn split_by_keyword_splits_case_insensitively() {
    let parts = split_by_keyword("a = '1' or b = '2' OR c = '3'", "OR");
    assert_eq!(parts, vec!["a = '1'", "b = '2'", "c = '3'"]);
    let whole = split_by_keyword("a = '1'", "AND");
    assert_eq!(whole, vec!["a = '1'"]);
}

#[test]
fn parse_in_list_accepts_wrapped_lists_only() {
    assert_eq!(
        parse_in_list("('a', 'b', \"c\")"),
        Some(vec!["a".to_string(), "b".to_string(), "c".to_string()])
    );
    assert_eq!(parse_in_list("('a', , 'b')"), Some(vec!["a".to_string(), "b".to_string()]));
    assert_eq!(parse_in_list("'a', 'b'"), None);
    assert_eq!(parse_in_list("()"), None);
}

#[test]
fn quotes_unwrap_one_matching_layer() {
    let e = event(r#"{"a":"'x'"}"#);
    // The literal ''x'' loses its outer quotes only; the value keeps its own.
    assert!(matches_condition(&e, "a = \"'x'\""));
    let plain = event(r#"{"a":"x"}"#);
    assert!(matches_condition(&plain, "a = 'x'"));
    assert!(matches_condition(&plain, "a = \"x\""));
    assert!(matches_condition(&plain, "a = x"));
}
