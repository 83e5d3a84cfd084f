//! The scan orchestrator: runs a set of active rules against the events of
//! one log source or of many, collects alerts, orders them by severity and
//! isolates per-source failures.

use vstd::prelude::*;
use crate::eval::{eval_condition, matches_condition};
use crate::json::{JsonValue, Jv, jv, jv_seq, json_doc, clone_json};
use crate::loader::{detect_format, detect_format_spec, load_error_text, load_events, load_events_spec};
use crate::models::{
    AlertEvent, BulkScanResult, FailedFile, FileScanResult, LogSource, LogType, RuleYaml,
    ScanResponse, SiemError,
};
use crate::text::{chars_of, ci_eq, eq_ci_vec};

verus! {

/// How many matching events an alert may carry as evidence.
pub const EVIDENCE_CAP: usize = 1000;

/// The fixed severity ranking: critical 5, high 4, medium 3, low 2, info 1,
/// anything else 0.  Severity names are compared case-insensitively.
pub open spec fn severity_rank(s: Seq<char>) -> u8 {
    if ci_eq(s, "critical"@) {
        5
    } else if ci_eq(s, "high"@) {
        4
    } else if ci_eq(s, "medium"@) {
        3
    } else if ci_eq(s, "low"@) {
        2
    } else if ci_eq(s, "info"@) {
        1
    } else {
        0
    }
}

/// The numeric rank of a severity name, for ordering alerts.
pub fn severity_order(severity: &str) -> (r: u8)
    ensures
        r == severity_rank(severity@),
{
    let s = chars_of(severity);
    let c = chars_of("critical");
    if eq_ci_vec(&s, &c) {
        return 5;
    }
    let h = chars_of("high");
    if eq_ci_vec(&s, &h) {
        return 4;
    }
    let m = chars_of("medium");
    if eq_ci_vec(&s, &m) {
        return 3;
    }
    let l = chars_of("low");
    if eq_ci_vec(&s, &l) {
        return 2;
    }
    let i = chars_of("info");
    if eq_ci_vec(&s, &i) {
        return 1;
    }
    0
}

/// The events of a source that satisfy a condition, in source order.
pub open spec fn matched_events(events: Seq<Jv>, cond: Seq<char>) -> Seq<Jv> {
    events.filter(|e: Jv| eval_condition(e, cond))
}

/// The matches kept as evidence: all of them up to the cap.
pub open spec fn capped(m: Seq<Jv>) -> Seq<Jv> {
    if m.len() <= EVIDENCE_CAP {
        m
    } else {
        m.take(EVIDENCE_CAP as int)
    }
}

/// The ghost content of an alert.
pub struct AlertData {
    pub rule_id: Seq<char>,
    pub rule_title: Seq<char>,
    pub severity: Seq<char>,
    pub timestamp: Seq<char>,
    pub match_count: nat,
    pub evidence: Seq<Jv>,
    pub source_file: Option<Seq<char>>,
}

/// The ghost content of an alert value.
pub open spec fn alert_view(a: AlertEvent) -> AlertData {
    AlertData {
        rule_id: a.rule_id@,
        rule_title: a.rule_title@,
        severity: a.severity@,
        timestamp: a.timestamp@,
        match_count: a.match_count as nat,
        evidence: a.evidence@.map_values(|v: JsonValue| jv(v)),
        source_file: match a.source_file {
            Some(s) => Some(s@),
            None => None,
        },
    }
}

/// The alert one rule raises on a set of events.
pub open spec fn alert_of(rule: RuleYaml, events: Seq<Jv>, ts: Seq<char>, src: Option<Seq<char>>)
    -> AlertData {
    let matched = matched_events(events, rule.detection.condition@);
    AlertData {
        rule_id: rule.id@,
        rule_title: rule.title@,
        severity: rule.detection.severity@,
        timestamp: ts,
        match_count: matched.len(),
        evidence: capped(matched),
        source_file: src,
    }
}

/// The alerts a rule list raises, one per rule with at least one match, in
/// rule order.
pub open spec fn alerts_spec(
    rules: Seq<RuleYaml>,
    events: Seq<Jv>,
    ts: Seq<char>,
    src: Option<Seq<char>>,
) -> Seq<AlertData>
    decreases rules.len(),
{
    if rules.len() == 0 {
        Seq::empty()
    } else {
        let rest = alerts_spec(rules.drop_first(), events, ts, src);
        if matched_events(events, rules[0].detection.condition@).len() > 0 {
            seq![alert_of(rules[0], events, ts, src)] + rest
        } else {
            rest
        }
    }
}

/// The alerts of one severity rank, kept in their original order.
pub open spec fn rank_filter(s: Seq<AlertData>, k: u8) -> Seq<AlertData> {
    s.filter(|a: AlertData| severity_rank(a.severity) == k)
}

/// Alerts ordered by severity descending; alerts of equal rank keep their
/// original relative order.
pub open spec fn sort_by_severity(s: Seq<AlertData>) -> Seq<AlertData> {
    rank_filter(s, 5) + rank_filter(s, 4) + rank_filter(s, 3) + rank_filter(s, 2) + rank_filter(
        s,
        1,
    ) + rank_filter(s, 0)
}

/// Counting matches and collecting the capped evidence for one condition.
#[verifier::loop_isolation(false)]
fn rule_matches(events: &Vec<JsonValue>, condition: &str) -> (r: (usize, Vec<JsonValue>))
    ensures
        r.0 == matched_events(jv_seq(events@), condition@).len(),
        jv_seq(r.1@) == capped(matched_events(jv_seq(events@), condition@)),
{
    let ghost evs = jv_seq(events@);
    let mut count: usize = 0;
    let mut evidence: Vec<JsonValue> = Vec::new();
    proof {
        reveal(Seq::filter);
        assert(evs.take(0) =~= Seq::<Jv>::empty());
        assert(jv_seq(evidence@) =~= Seq::<Jv>::empty());
        assert(matched_events(Seq::<Jv>::empty(), condition@) =~= Seq::<Jv>::empty());
    }
    let mut i: usize = 0;
    while i < events.len()
        invariant
            0 <= i <= events@.len(),
            count == matched_events(evs.take(i as int), condition@).len(),
            count <= i,
            jv_seq(evidence@) == capped(matched_events(evs.take(i as int), condition@)),
            evidence@.len() <= count,
        decreases events@.len() - i,
    {
        let ghost before = matched_events(evs.take(i as int), condition@);
        proof {
            reveal(Seq::filter);
            assert(evs.take(i + 1).drop_last() =~= evs.take(i as int));
            assert(evs.take(i + 1).last() == evs[i as int]);
            assert(evs[i as int] == jv(events@[i as int]));
        }
        let m = matches_condition(&events[i], condition);
        let ghost after = matched_events(evs.take(i + 1), condition@);
        if m {
            proof {
                assert(after == before.push(evs[i as int]));
            }
            count += 1;
            if evidence.len() < EVIDENCE_CAP {
                evidence.push(clone_json(&events[i]));
                proof {
                    assert(jv_seq(evidence@) =~= capped(after));
                }
            } else {
                proof {
                    assert(before.len() >= EVIDENCE_CAP);
                    assert(after.take(EVIDENCE_CAP as int) =~= before.take(EVIDENCE_CAP as int));
                    assert(jv_seq(evidence@) =~= capped(after));
                }
            }
        } else {
            proof {
                assert(after == before);
            }
        }
        i += 1;
    }
    proof {
        assert(evs.take(events@.len() as int) =~= evs);
    }
    (count, evidence)
}

/// The model of an optional source name.
pub open spec fn opt_name(o: Option<&String>) -> Option<Seq<char>> {
    match o {
        Some(s) => Some(s@),
        None => None,
    }
}

/// One unsorted alert per matching rule, in rule order.
#[verifier::loop_isolation(false)]
fn build_alerts_from(
    rules: &Vec<RuleYaml>,
    k: usize,
    events: &Vec<JsonValue>,
    timestamp: &str,
    source_file: Option<&String>,
) -> (alerts: Vec<AlertEvent>)
    requires
        k <= rules@.len(),
    ensures
        alerts@.map_values(|a: AlertEvent| alert_view(a)) == alerts_spec(
            rules@.skip(k as int),
            jv_seq(events@),
            timestamp@,
            opt_name(source_file),
        ),
    decreases rules@.len() - k,
{
    if k == rules.len() {
        let r: Vec<AlertEvent> = Vec::new();
        proof {
            assert(rules@.skip(k as int) =~= Seq::<RuleYaml>::empty());
            assert(r@.map_values(|a: AlertEvent| alert_view(a)) =~= alerts_spec(
                rules@.skip(k as int),
                jv_seq(events@),
                timestamp@,
                opt_name(source_file),
            ));
        }
        return r;
    }
    proof {
        assert(rules@.skip(k as int)[0] == rules@[k as int]);
        assert(rules@.skip(k as int).drop_first() =~= rules@.skip(k + 1));
    }
    let rule = &rules[k];
    let rm = rule_matches(events, rule.detection.condition.as_str());
    let count = rm.0;
    let evidence = rm.1;
    let mut rest = build_alerts_from(rules, k + 1, events, timestamp, source_file);
    if count > 0 {
        let named: Option<String> = match source_file {
            Some(s) => Some(s.clone()),
            None => None,
        };
        let alert = AlertEvent {
            rule_id: rule.id.clone(),
            rule_title: rule.title.clone(),
            severity: rule.detection.severity.clone(),
            timestamp: String::from_str(timestamp),
            match_count: count,
            evidence,
            source_file: named,
        };
        proof {
            assert(alert_view(alert) == alert_of(
                rules@[k as int],
                jv_seq(events@),
                timestamp@,
                opt_name(source_file),
            ));
        }
        let mut out: Vec<AlertEvent> = Vec::new();
        out.push(alert);
        out.append(&mut rest);
        proof {
            assert(out@.map_values(|a: AlertEvent| alert_view(a)) =~= alerts_spec(
                rules@.skip(k as int),
                jv_seq(events@),
                timestamp@,
                opt_name(source_file),
            ));
        }
        out
    } else {
        rest
    }
}

proof fn lemma_rank_filter_push(s: Seq<AlertData>, a: AlertData, k: u8)
    ensures
        rank_filter(s.push(a), k) == if severity_rank(a.severity) == k {
            rank_filter(s, k).push(a)
        } else {
            rank_filter(s, k)
        },
{
    reveal(Seq::filter);
    assert(s.push(a).drop_last() =~= s);
    assert(s.push(a).last() == a);
}

/// Alerts sorted by severity descending, critical first; alerts of equal
/// severity keep their original relative order.
#[verifier::loop_isolation(false)]
pub fn sort_alerts(alerts: Vec<AlertEvent>) -> (r: Vec<AlertEvent>)
    ensures
        r@.map_values(|a: AlertEvent| alert_view(a)) == sort_by_severity(
            alerts@.map_values(|a: AlertEvent| alert_view(a)),
        ),
{
    let ghost orig = alerts@.map_values(|a: AlertEvent| alert_view(a));
    let ghost f = |a: AlertEvent| alert_view(a);
    let mut rest = alerts;
    let ghost mut done = Seq::<AlertData>::empty();
    let mut b5: Vec<AlertEvent> = Vec::new();
    let mut b4: Vec<AlertEvent> = Vec::new();
    let mut b3: Vec<AlertEvent> = Vec::new();
    let mut b2: Vec<AlertEvent> = Vec::new();
    let mut b1: Vec<AlertEvent> = Vec::new();
    let mut b0: Vec<AlertEvent> = Vec::new();
    proof {
        assert(done + rest@.map_values(f) =~= orig);
        assert(rank_filter(done, 5) =~= Seq::<AlertData>::empty());
        assert(rank_filter(done, 4) =~= Seq::<AlertData>::empty());
        assert(rank_filter(done, 3) =~= Seq::<AlertData>::empty());
        assert(rank_filter(done, 2) =~= Seq::<AlertData>::empty());
        assert(rank_filter(done, 1) =~= Seq::<AlertData>::empty());
        assert(rank_filter(done, 0) =~= Seq::<AlertData>::empty());
    }
    while rest.len() > 0
        invariant
            done + rest@.map_values(f) == orig,
            f == (|a: AlertEvent| alert_view(a)),
            b5@.map_values(f) == rank_filter(done, 5),
            b4@.map_values(f) == rank_filter(done, 4),
            b3@.map_values(f) == rank_filter(done, 3),
            b2@.map_values(f) == rank_filter(done, 2),
            b1@.map_values(f) == rank_filter(done, 1),
            b0@.map_values(f) == rank_filter(done, 0),
        decreases rest@.len(),
    {
        let a = rest.remove(0);
        let ghost av = alert_view(a);
        proof {
            assert(orig == done + (rest@.map_values(f).insert(0, av)));
            assert(done.push(av) + rest@.map_values(f) =~= orig);
            lemma_rank_filter_push(done, av, 5);
            lemma_rank_filter_push(done, av, 4);
            lemma_rank_filter_push(done, av, 3);
            lemma_rank_filter_push(done, av, 2);
            lemma_rank_filter_push(done, av, 1);
            lemma_rank_filter_push(done, av, 0);
        }
        let k = severity_order(a.severity.as_str());
        if k == 5 {
            b5.push(a);
        } else if k == 4 {
            b4.push(a);
        } else if k == 3 {
            b3.push(a);
        } else if k == 2 {
            b2.push(a);
        } else if k == 1 {
            b1.push(a);
        } else {
            b0.push(a);
        }
        proof {
            done = done.push(av);
            assert(b5@.map_values(f) =~= rank_filter(done, 5));
            assert(b4@.map_values(f) =~= rank_filter(done, 4));
            assert(b3@.map_values(f) =~= rank_filter(done, 3));
            assert(b2@.map_values(f) =~= rank_filter(done, 2));
            assert(b1@.map_values(f) =~= rank_filter(done, 1));
            assert(b0@.map_values(f) =~= rank_filter(done, 0));
        }
    }
    proof {
        assert(rest@.map_values(f) =~= Seq::<AlertData>::empty());
        assert(done =~= orig);
    }
    let mut out = b5;
    out.append(&mut b4);
    out.append(&mut b3);
    out.append(&mut b2);
    out.append(&mut b1);
    out.append(&mut b0);
    proof {
        assert(out@.map_values(f) =~= sort_by_severity(orig));
    }
    out
}

/// An earlier alert never ranks below a later one.
pub open spec fn sorted_by_rank(s: Seq<AlertData>) -> bool {
    forall|i: int, j: int|
        0 <= i <= j < s.len() ==> severity_rank(#[trigger] s[i].severity) >= severity_rank(
            #[trigger] s[j].severity,
        )
}

proof fn lemma_rank_filter_pred(s: Seq<AlertData>, k: u8)
    ensures
        forall|i: int|
            0 <= i < rank_filter(s, k).len() ==> severity_rank(
                (#[trigger] rank_filter(s, k)[i]).severity,
            ) == k,
    decreases s.len(),
{
    reveal(Seq::filter);
    if s.len() > 0 {
        lemma_rank_filter_pred(s.drop_last(), k);
        lemma_rank_filter_push(s.drop_last(), s.last(), k);
        assert(s.drop_last().push(s.last()) =~= s);
    }
}

proof fn lemma_rank_filter_multiset(s: Seq<AlertData>)
    ensures
        sort_by_severity(s).to_multiset() == s.to_multiset(),
    decreases s.len(),
{
    broadcast use vstd::seq_lib::group_seq_properties;

    reveal(Seq::filter);
    if s.len() == 0 {
        assert(sort_by_severity(s) =~= Seq::<AlertData>::empty());
        assert(sort_by_severity(s).to_multiset() =~= s.to_multiset());
    } else {
        let t = s.drop_last();
        let a = s.last();
        lemma_rank_filter_multiset(t);
        assert(t.push(a) =~= s);
        lemma_rank_filter_push(t, a, 5);
        lemma_rank_filter_push(t, a, 4);
        lemma_rank_filter_push(t, a, 3);
        lemma_rank_filter_push(t, a, 2);
        lemma_rank_filter_push(t, a, 1);
        lemma_rank_filter_push(t, a, 0);
        let f5 = rank_filter(t, 5);
        let f4 = rank_filter(t, 4);
        let f3 = rank_filter(t, 3);
        let f2 = rank_filter(t, 2);
        let f1 = rank_filter(t, 1);
        let f0 = rank_filter(t, 0);
        let k = severity_rank(a.severity);
        vstd::seq_lib::lemma_multiset_commutative(rank_filter(s, 5), rank_filter(s, 4));
        vstd::seq_lib::lemma_multiset_commutative(
            rank_filter(s, 5) + rank_filter(s, 4),
            rank_filter(s, 3),
        );
        vstd::seq_lib::lemma_multiset_commutative(
            rank_filter(s, 5) + rank_filter(s, 4) + rank_filter(s, 3),
            rank_filter(s, 2),
        );
        vstd::seq_lib::lemma_multiset_commutative(
            rank_filter(s, 5) + rank_filter(s, 4) + rank_filter(s, 3) + rank_filter(s, 2),
            rank_filter(s, 1),
        );
        vstd::seq_lib::lemma_multiset_commutative(
            rank_filter(s, 5) + rank_filter(s, 4) + rank_filter(s, 3) + rank_filter(s, 2)
                + rank_filter(s, 1),
            rank_filter(s, 0),
        );
        vstd::seq_lib::lemma_multiset_commutative(f5, f4);
        vstd::seq_lib::lemma_multiset_commutative(f5 + f4, f3);
        vstd::seq_lib::lemma_multiset_commutative(f5 + f4 + f3, f2);
        vstd::seq_lib::lemma_multiset_commutative(f5 + f4 + f3 + f2, f1);
        vstd::seq_lib::lemma_multiset_commutative(f5 + f4 + f3 + f2 + f1, f0);
        assert(sort_by_severity(s).to_multiset() =~= sort_by_severity(t).to_multiset().insert(a));
        assert(s.to_multiset() =~= t.to_multiset().insert(a));
    }
}

/// What severity ordering means: the sorted alert list is a permutation of
/// the alerts given, an earlier alert never ranks below a later one, and
/// alerts of equal rank keep their original relative order (the order is
/// the concatenation of the per-rank subsequences, critical first).
pub proof fn lemma_sort_by_severity(s: Seq<AlertData>)
    ensures
        sorted_by_rank(sort_by_severity(s)),
        sort_by_severity(s).to_multiset() == s.to_multiset(),
{
    lemma_rank_filter_pred(s, 5);
    lemma_rank_filter_pred(s, 4);
    lemma_rank_filter_pred(s, 3);
    lemma_rank_filter_pred(s, 2);
    lemma_rank_filter_pred(s, 1);
    lemma_rank_filter_pred(s, 0);
    lemma_rank_filter_multiset(s);
    let t = sort_by_severity(s);
    let l5 = rank_filter(s, 5).len() as int;
    let l4 = l5 + rank_filter(s, 4).len();
    let l3 = l4 + rank_filter(s, 3).len();
    let l2 = l3 + rank_filter(s, 2).len();
    let l1 = l2 + rank_filter(s, 1).len();
    assert forall|i: int| 0 <= i < t.len() implies severity_rank(#[trigger] t[i].severity) == (
    if i < l5 {
        5u8
    } else if i < l4 {
        4u8
    } else if i < l3 {
        3u8
    } else if i < l2 {
        2u8
    } else if i < l1 {
        1u8
    } else {
        0u8
    }) by {
        if i < l5 {
            assert(t[i] == rank_filter(s, 5)[i]);
        } else if i < l4 {
            assert(t[i] == rank_filter(s, 4)[i - l5]);
        } else if i < l3 {
            assert(t[i] == rank_filter(s, 3)[i - l4]);
        } else if i < l2 {
            assert(t[i] == rank_filter(s, 2)[i - l3]);
        } else if i < l1 {
            assert(t[i] == rank_filter(s, 1)[i - l2]);
        } else {
            assert(t[i] == rank_filter(s, 0)[i - l1]);
        }
    }
}

/// A single-source scan: load the events once, run every rule over them,
/// and return the alerts sorted by severity, critical first.
///
/// A load failure is fatal to the call; the alert list is empty exactly
/// when no rule matched.  Condition evaluation is total, so no rule is
/// ever skipped.  The caller measures elapsed time and fills
/// `scan_time_ms`; the library sets it to zero.
pub fn scan(rules: &Vec<RuleYaml>, source: &str, log_type: LogType, timestamp: &str) -> (r:
    Result<ScanResponse, SiemError>)
    ensures
        match r {
            Ok(resp) => {
                &&& load_events_spec(source@, log_type) is Some
                &&& resp.alerts@.map_values(|a: AlertEvent| alert_view(a)) == sort_by_severity(
                    alerts_spec(rules@, load_events_spec(source@, log_type)->0, timestamp@, None),
                )
                &&& resp.rules_evaluated == rules@.len()
                &&& resp.scan_time_ms == 0
            },
            Err(e) => load_events_spec(source@, log_type) is None && e is Query,
        },
{
    match load_events(source, log_type) {
        Err(e) => Err(e),
        Ok(events) => {
            proof {
                assert(rules@.skip(0) =~= rules@);
            }
            let alerts = build_alerts_from(rules, 0, &events, timestamp, None);
            let sorted = sort_alerts(alerts);
            Ok(ScanResponse { alerts: sorted, rules_evaluated: rules.len(), scan_time_ms: 0 })
        },
    }
}

/// The ghost content of one per-source result.
pub struct FileData {
    pub source_file: Seq<char>,
    pub alerts: Seq<AlertData>,
    pub rules_evaluated: nat,
}

/// The ghost content of a per-source result value.
pub open spec fn file_view(f: FileScanResult) -> FileData {
    FileData {
        source_file: f.source_file@,
        alerts: f.response.alerts@.map_values(|a: AlertEvent| alert_view(a)),
        rules_evaluated: f.response.rules_evaluated as nat,
    }
}

/// The format a bulk-scan source is read under: the declared one, or the
/// auto-detected one.
pub open spec fn source_format(s: LogSource) -> LogType {
    match s.format {
        Some(t) => t,
        None => detect_format_spec(json_doc(s.content@)),
    }
}

/// What loading a bulk-scan source yields.
pub open spec fn source_load(s: LogSource) -> Option<Seq<Jv>> {
    load_events_spec(s.content@, source_format(s))
}

/// The per-source results of the sources that load, in source order.
pub open spec fn ok_results_spec(rules: Seq<RuleYaml>, sources: Seq<LogSource>, ts: Seq<char>)
    -> Seq<FileData>
    decreases sources.len(),
{
    if sources.len() == 0 {
        Seq::empty()
    } else {
        let rest = ok_results_spec(rules, sources.drop_first(), ts);
        match source_load(sources[0]) {
            Some(evs) => seq![
                FileData {
                    source_file: sources[0].name@,
                    alerts: sort_by_severity(
                        alerts_spec(rules, evs, ts, Some(sources[0].name@)),
                    ),
                    rules_evaluated: rules.len(),
                },
            ] + rest,
            None => rest,
        }
    }
}

/// The sources that fail to load, in source order: each with its name and
/// the message its load error carries.
pub open spec fn failed_spec(sources: Seq<LogSource>) -> Seq<(Seq<char>, Seq<char>)>
    decreases sources.len(),
{
    if sources.len() == 0 {
        Seq::empty()
    } else {
        let rest = failed_spec(sources.drop_first());
        match source_load(sources[0]) {
            Some(_) => rest,
            None => seq![
                (
                    sources[0].name@,
                    load_error_text(sources[0].content@, source_format(sources[0])),
                ),
            ] + rest,
        }
    }
}

/// In a bulk scan every source lands in exactly one of the two lists: the
/// per-file results, or the failed files.  No failure aborts the batch.
pub proof fn lemma_bulk_partition(rules: Seq<RuleYaml>, sources: Seq<LogSource>, ts: Seq<char>)
    ensures
        ok_results_spec(rules, sources, ts).len() + failed_spec(sources).len() == sources.len(),
    decreases sources.len(),
{
    if sources.len() > 0 {
        lemma_bulk_partition(rules, sources.drop_first(), ts);
    }
}

/// Addition held at the machine limit.
pub open spec fn sat_add(a: nat, b: nat) -> nat {
    if a + b <= usize::MAX {
        a + b
    } else {
        usize::MAX as nat
    }
}

/// The total alert count of a bulk scan, held at the machine limit.
pub open spec fn sum_alerts(fd: Seq<FileData>) -> nat
    decreases fd.len(),
{
    if fd.len() == 0 {
        0
    } else {
        sat_add(sum_alerts(fd.drop_last()), fd.last().alerts.len())
    }
}

#[verifier::loop_isolation(false)]
fn scan_sources(rules: &Vec<RuleYaml>, sources: &Vec<LogSource>, k: usize, timestamp: &str) -> (r:
    (Vec<FileScanResult>, Vec<FailedFile>))
    requires
        k <= sources@.len(),
    ensures
        r.0@.map_values(|f: FileScanResult| file_view(f)) == ok_results_spec(
            rules@,
            sources@.skip(k as int),
            timestamp@,
        ),
        r.1@.map_values(|f: FailedFile| (f.source_file@, f.error@)) == failed_spec(
            sources@.skip(k as int),
        ),
    decreases sources@.len() - k,
{
    if k == sources.len() {
        let a: Vec<FileScanResult> = Vec::new();
        let b: Vec<FailedFile> = Vec::new();
        proof {
            assert(sources@.skip(k as int) =~= Seq::<LogSource>::empty());
            assert(a@.map_values(|f: FileScanResult| file_view(f)) =~= ok_results_spec(
                rules@,
                sources@.skip(k as int),
                timestamp@,
            ));
            assert(b@.map_values(|f: FailedFile| (f.source_file@, f.error@)) =~= failed_spec(
                sources@.skip(k as int),
            ));
        }
        return (a, b);
    }
    proof {
        assert(sources@.skip(k as int)[0] == sources@[k as int]);
        assert(sources@.skip(k as int).drop_first() =~= sources@.skip(k + 1));
    }
    let src = &sources[k];
    let fmt: LogType = match &src.format {
        Some(t) => *t,
        None => detect_format(src.content.as_str()),
    };
    let rec = scan_sources(rules, sources, k + 1, timestamp);
    let mut oks = rec.0;
    let mut fails = rec.1;
    match load_events(src.content.as_str(), fmt) {
        Ok(events) => {
            proof {
                assert(rules@.skip(0) =~= rules@);
            }
            let alerts = build_alerts_from(rules, 0, &events, timestamp, Some(&src.name));
            let sorted = sort_alerts(alerts);
            let resp = ScanResponse {
                alerts: sorted,
                rules_evaluated: rules.len(),
                scan_time_ms: 0,
            };
            let fr = FileScanResult { source_file: src.name.clone(), response: resp };
            let mut out: Vec<FileScanResult> = Vec::new();
            out.push(fr);
            out.append(&mut oks);
            proof {
                assert(out@.map_values(|f: FileScanResult| file_view(f)) =~= ok_results_spec(
                    rules@,
                    sources@.skip(k as int),
                    timestamp@,
                ));
            }
            (out, fails)
        },
        Err(e) => {
            let ff = FailedFile { source_file: src.name.clone(), error: e.message().clone() };
            let mut out: Vec<FailedFile> = Vec::new();
            out.push(ff);
            out.append(&mut fails);
            proof {
                assert(out@.map_values(|f: FailedFile| (f.source_file@, f.error@)) =~= failed_spec(
                    sources@.skip(k as int),
                ));
            }
            (oks, out)
        },
    }
}

/// A bulk scan: every source is scanned with the same rules.  A source
/// with no declared format is auto-detected; a source that fails to load
/// becomes a failed-files entry and the batch continues.  Every source
/// lands in exactly one of the two lists, so no single failure aborts the
/// batch.  The caller measures elapsed time; the library reports zero.
#[verifier::loop_isolation(false)]
pub fn scan_all(rules: &Vec<RuleYaml>, sources: &Vec<LogSource>, timestamp: &str) -> (r:
    BulkScanResult)
    ensures
        r.file_results@.map_values(|f: FileScanResult| file_view(f)) == ok_results_spec(
            rules@,
            sources@,
            timestamp@,
        ),
        r.failed_files@.map_values(|f: FailedFile| (f.source_file@, f.error@)) == failed_spec(
            sources@,
        ),
        r.file_results@.len() + r.failed_files@.len() == sources@.len(),
        r.total_files_scanned == r.file_results@.len(),
        r.rules_evaluated == rules@.len(),
        r.total_alerts == sum_alerts(ok_results_spec(rules@, sources@, timestamp@)),
        r.total_scan_time_ms == 0,
{
    proof {
        assert(sources@.skip(0) =~= sources@);
    }
    let pair = scan_sources(rules, sources, 0, timestamp);
    let file_results = pair.0;
    let failed_files = pair.1;
    proof {
        lemma_bulk_partition(rules@, sources@, timestamp@);
    }
    let ghost fd = file_results@.map_values(|f: FileScanResult| file_view(f));
    let mut total: usize = 0;
    let mut i: usize = 0;
    proof {
        assert(fd.take(0) =~= Seq::<FileData>::empty());
    }
    while i < file_results.len()
        invariant
            0 <= i <= file_results@.len(),
            fd == file_results@.map_values(|f: FileScanResult| file_view(f)),
            total == sum_alerts(fd.take(i as int)),
        decreases file_results@.len() - i,
    {
        proof {
            assert(fd.take(i + 1).drop_last() =~= fd.take(i as int));
            assert(fd.take(i + 1).last() == fd[i as int]);
        }
        let fr = &file_results[i];
        let n = fr.response.alerts.len();
        proof {
            assert(fd[i as int].alerts.len() == n);
        }
        total = if total <= usize::MAX - n {
            total + n
        } else {
            usize::MAX
        };
        i += 1;
    }
    proof {
        assert(fd.take(file_results@.len() as int) =~= fd);
    }
    BulkScanResult {
        total_alerts: total,
        total_files_scanned: file_results.len(),
        total_scan_time_ms: 0,
        rules_evaluated: rules.len(),
        file_results,
        failed_files,
    }
}

} // verus!
