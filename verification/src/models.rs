//! Data models: rules, alerts, scan aggregates, validation results and the
//! error taxonomy.

use vstd::prelude::*;
use crate::json::JsonValue;

verus! {

/// Log file format.
#[derive(Debug, Clone, Copy, PartialEq, Eq, Structural)]
pub enum LogType {
    /// Wrapped-array style: the root object holds a `Records` array.
    CloudTrail,
    /// One JSON object per file, or newline-delimited JSON values.
    FlatJson,
}

/// A detection rule, as read from a rule file.
#[derive(Debug)]
pub struct RuleYaml {
    pub id: String,
    pub title: String,
    pub description: String,
    pub author: String,
    /// `active`, `disabled`, `experimental` or `deprecated`.
    pub status: String,
    pub date: String,
    pub tags: Vec<String>,
    pub detection: DetectionLogic,
    pub output: Option<OutputConfig>,
}

/// The detection logic of a rule.
#[derive(Debug)]
pub struct DetectionLogic {
    /// `info`, `low`, `medium`, `high` or `critical`.
    pub severity: String,
    /// The condition expression evaluated against each event.
    pub condition: String,
    pub aggregation: Option<Aggregation>,
}

/// Threshold configuration for time-window detection.
#[derive(Debug)]
pub struct Aggregation {
    pub enabled: bool,
    pub window: String,
    pub threshold: String,
}

/// Output configuration for alert formatting.
#[derive(Debug)]
pub struct OutputConfig {
    pub alert_title: String,
}

impl Default for OutputConfig {
    fn default() -> (r: OutputConfig)
        ensures
            r.alert_title@ == Seq::<char>::empty(),
    {
        OutputConfig { alert_title: String::new() }
    }
}

/// One alert: a rule that matched at least one event of a source.
#[derive(Debug)]
pub struct AlertEvent {
    pub rule_id: String,
    pub rule_title: String,
    pub severity: String,
    /// When the scan ran, as text supplied by the caller.
    pub timestamp: String,
    /// How many events matched; independent of the capped evidence.
    pub match_count: usize,
    /// The matching events, capped at `EVIDENCE_CAP`.
    pub evidence: Vec<JsonValue>,
    /// The source the alert came from, where a bulk scan names one.
    pub source_file: Option<String>,
}

/// The errors this library reports.
#[derive(Debug)]
pub enum SiemError {
    Database(String),
    Rule(String),
    FileIO(String),
    Query(String),
    Serialization(String),
}

impl SiemError {
    /// The message carried by the error.
    pub fn message(&self) -> (m: &String)
        ensures
            m@ == self.text(),
    {
        match self {
            SiemError::Database(t) => t,
            SiemError::Rule(t) => t,
            SiemError::FileIO(t) => t,
            SiemError::Query(t) => t,
            SiemError::Serialization(t) => t,
        }
    }

    /// The message carried by the error.
    pub open spec fn text(&self) -> Seq<char> {
        match self {
            SiemError::Database(t) => t@,
            SiemError::Rule(t) => t@,
            SiemError::FileIO(t) => t@,
            SiemError::Query(t) => t@,
            SiemError::Serialization(t) => t@,
        }
    }
}

/// Information about a log file in the monitored folder.
#[derive(Debug)]
pub struct LogFileInfo {
    pub filename: String,
    pub path: String,
    pub size_bytes: u64,
    pub modified: String,
    pub event_count: Option<usize>,
}

/// Request to scan a log source with all active rules.
#[derive(Debug)]
pub struct ScanRequest {
    pub log_path: String,
}

/// Outcome of a single-source scan.
#[derive(Debug)]
pub struct ScanResponse {
    pub alerts: Vec<AlertEvent>,
    pub rules_evaluated: usize,
    /// Elapsed wall-clock time; measured and filled in by the caller.
    pub scan_time_ms: u64,
}

/// Request to test one condition against a log source.
#[derive(Debug)]
pub struct TestRuleRequest {
    pub condition: String,
    pub log_path: String,
    pub log_type: LogType,
}

/// Outcome of testing one condition against a log source.
#[derive(Debug)]
pub struct TestRuleResult {
    pub matched_count: usize,
    pub total_count: usize,
    pub matched_events: Vec<JsonValue>,
    pub sample_non_matched: Vec<JsonValue>,
    pub syntax_valid: bool,
    pub syntax_error: Option<String>,
    /// Elapsed wall-clock time; measured and filled in by the caller.
    pub execution_time_ms: u64,
}

/// One field path suggested for autocompletion.
#[derive(Debug)]
pub struct FieldSuggestion {
    pub field_path: String,
    pub field_type: String,
    pub sample_value: String,
    pub frequency: usize,
}

/// Outcome of linting a condition.
#[derive(Debug)]
pub struct ValidationResult {
    pub valid: bool,
    pub error_message: Option<String>,
    pub error_position: Option<usize>,
    pub suggestions: Vec<String>,
}

/// One log source handed to a bulk scan: a name, the text read from it, and
/// its declared format, if any.
#[derive(Debug)]
pub struct LogSource {
    pub name: String,
    pub content: String,
    /// `None` asks for auto-detection.
    pub format: Option<LogType>,
}

/// The per-source outcome of a bulk scan.
#[derive(Debug)]
pub struct FileScanResult {
    pub source_file: String,
    pub response: ScanResponse,
}

/// One source that failed during a bulk scan.
#[derive(Debug)]
pub struct FailedFile {
    pub source_file: String,
    pub error: String,
}

/// Outcome of a bulk scan.
#[derive(Debug)]
pub struct BulkScanResult {
    pub total_alerts: usize,
    pub total_files_scanned: usize,
    /// Elapsed wall-clock time; measured and filled in by the caller.
    pub total_scan_time_ms: u64,
    pub rules_evaluated: usize,
    pub file_results: Vec<FileScanResult>,
    pub failed_files: Vec<FailedFile>,
}

} // verus!
