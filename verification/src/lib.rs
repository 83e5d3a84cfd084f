//! Offline SIEM core: a verified condition-evaluation engine for JSON event
//! logs, together with a log loader, a wildcard matcher, a scan orchestrator,
//! a condition linter and a field-suggestion helper.

pub mod config;
pub mod eval;
pub mod json;
pub mod loader;
pub mod models;
pub mod rules;
pub mod scan;
pub mod test_rule;
pub mod text;
pub mod wildcard;
