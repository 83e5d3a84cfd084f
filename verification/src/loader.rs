//! The log loader: turns the text of a log source into an ordered sequence
//! of JSON events.
//!
//! Wrapped-array sources hold a root object with a `Records` array; flat
//! sources hold either one JSON object or newline-delimited JSON values.

use vstd::prelude::*;
use crate::json::{
    JsonValue, Jv, jv, jv_elems, jv_entries, jv_seq, json_doc, lemma_jv_elems, lemma_jv_entries,
    lookup_field, parse_json, clone_json,
};
use crate::models::{LogType, SiemError};
use crate::text::{
    chars_eq, chars_of, count_ch, count_ch_vec, exec_is_space, is_space_char, lemma_count_ch_le,
    split_kw, split_kw_vec, string_from_chars, sub_chars, clone_chars,
};

verus! {

/// The key that marks a wrapped-array source.
pub open spec fn records_chars() -> Seq<char> {
    seq!['R', 'e', 'c', 'o', 'r', 'd', 's']
}

/// The format a source is taken to have: wrapped-array where the whole text
/// is an object whose `Records` key holds an array, flat otherwise.
pub open spec fn detect_format_spec(doc: Option<Jv>) -> LogType {
    match doc {
        Some(v) => match v {
            Jv::Obj(fs) => match lookup_field(fs, records_chars()) {
                Some(w) => if w is Arr {
                    LogType::CloudTrail
                } else {
                    LogType::FlatJson
                },
                None => LogType::FlatJson,
            },
            _ => LogType::FlatJson,
        },
        None => LogType::FlatJson,
    }
}

/// The events of a wrapped-array source: the elements of the `Records`
/// array, in order; none where the text is not an object holding one.
pub open spec fn load_wrapped(doc: Option<Jv>) -> Option<Seq<Jv>> {
    match doc {
        Some(v) => match v {
            Jv::Obj(fs) => match lookup_field(fs, records_chars()) {
                Some(w) => match w {
                    Jv::Arr(items) => Some(items),
                    _ => None,
                },
                None => None,
            },
            _ => None,
        },
        None => None,
    }
}

/// A line with one trailing carriage return removed.
pub open spec fn strip_cr(l: Seq<char>) -> Seq<char> {
    if l.len() > 0 && l[l.len() - 1] == '\r' {
        l.take(l.len() - 1)
    } else {
        l
    }
}

/// A line holding nothing but whitespace.
pub open spec fn is_blank(l: Seq<char>) -> bool {
    forall|i: int| 0 <= i < l.len() ==> is_space_char(#[trigger] l[i])
}

/// The events of newline-delimited text: each line parsed on its own, blank
/// lines skipped, unparsable lines dropped, file order kept.
pub open spec fn ndjson_events(lines: Seq<Seq<char>>) -> Seq<Jv>
    decreases lines.len(),
{
    if lines.len() == 0 {
        Seq::empty()
    } else {
        let l = strip_cr(lines[0]);
        let rest = ndjson_events(lines.drop_first());
        if is_blank(l) {
            rest
        } else {
            match json_doc(l) {
                Some(v) => seq![v] + rest,
                None => rest,
            }
        }
    }
}

/// The lines of a source, split at every newline.
pub open spec fn raw_lines(s: Seq<char>) -> Seq<Seq<char>> {
    split_kw(s, seq!['\n'], false)
}

/// What loading yields: the ordered events, or nothing where the load
/// fails.
///
/// A wrapped-array source must parse and hold a `Records` array.  A flat
/// source that parses as one JSON object is that single event; otherwise
/// its lines are read as newline-delimited JSON, and the load fails only
/// when no event survives.
pub open spec fn load_events_spec(s: Seq<char>, t: LogType) -> Option<Seq<Jv>> {
    match t {
        LogType::CloudTrail => load_wrapped(json_doc(s)),
        LogType::FlatJson => match json_doc(s) {
            Some(v) => match v {
                Jv::Obj(fs) => Some(seq![Jv::Obj(fs)]),
                _ => flat_lines_events(s),
            },
            None => flat_lines_events(s),
        },
    }
}

/// The newline-delimited reading of a flat source.
pub open spec fn flat_lines_events(s: Seq<char>) -> Option<Seq<Jv>> {
    let evs = ndjson_events(raw_lines(s));
    if evs.len() == 0 {
        None
    } else {
        Some(evs)
    }
}

/// The message a failing load carries: a wrapped-array source either does
/// not parse or lacks its `Records` array; a flat source fails only with no
/// surviving event.
pub open spec fn load_error_text(s: Seq<char>, t: LogType) -> Seq<char> {
    match t {
        LogType::CloudTrail => if json_doc(s) is None {
            "Failed to parse JSON"@
        } else {
            "CloudTrail file must have 'Records' array"@
        },
        LogType::FlatJson => "No events found in log file"@,
    }
}

fn records_vec() -> (r: Vec<char>)
    ensures
        r@ == records_chars(),
{
    let r: Vec<char> = vec!['R', 'e', 'c', 'o', 'r', 'd', 's'];
    proof {
        assert(r@ =~= records_chars());
    }
    r
}

#[verifier::loop_isolation(false)]
fn find_records<'a>(fields: &'a Vec<(String, JsonValue)>) -> (r: Option<&'a JsonValue>)
    ensures
        match r {
            Some(w) => lookup_field(jv_entries(fields@), records_chars()) == Some(jv(*w)),
            None => lookup_field(jv_entries(fields@), records_chars()) is None,
        },
{
    let ghost fs = jv_entries(fields@);
    proof {
        lemma_jv_entries(fields@);
        assert(fs.skip(0) =~= fs);
    }
    let key = records_vec();
    let mut f: usize = 0;
    while f < fields.len()
        invariant
            0 <= f <= fields@.len(),
            lookup_field(fs, records_chars()) == lookup_field(fs.skip(f as int), records_chars()),
        decreases fields@.len() - f,
    {
        let pair = &fields[f];
        let kc = chars_of(pair.0.as_str());
        if chars_eq(&kc, &key) {
            proof {
                assert(fs.skip(f as int)[0] == fs[f as int]);
            }
            return Some(&pair.1);
        }
        proof {
            assert(fs.skip(f as int)[0] == fs[f as int]);
            assert(fs.skip(f as int).drop_first() =~= fs.skip(f + 1));
        }
        f += 1;
    }
    proof {
        assert(fs.skip(fields@.len() as int) =~= Seq::<(Seq<char>, Jv)>::empty());
    }
    None
}

/// The format of a source: wrapped-array where the whole text is a JSON
/// object whose `Records` key holds an array, flat otherwise.
pub fn detect_format(source: &str) -> (r: LogType)
    ensures
        r == detect_format_spec(json_doc(source@)),
{
    match parse_json(source) {
        Some(doc) => match doc {
            JsonValue::Obj(fields) => match find_records(&fields) {
                Some(w) => match w {
                    JsonValue::Arr(_) => LogType::CloudTrail,
                    _ => LogType::FlatJson,
                },
                None => LogType::FlatJson,
            },
            _ => LogType::FlatJson,
        },
        None => LogType::FlatJson,
    }
}

#[verifier::loop_isolation(false)]
fn clone_events(items: &Vec<JsonValue>) -> (r: Vec<JsonValue>)
    ensures
        jv_seq(r@) == jv_elems(items@),
{
    let mut out: Vec<JsonValue> = Vec::new();
    let mut i: usize = 0;
    while i < items.len()
        invariant
            out@.len() == i,
            i <= items@.len(),
            forall|k: int| 0 <= k < i ==> jv(#[trigger] out@[k]) == jv(items@[k]),
        decreases items@.len() - i,
    {
        out.push(clone_json(&items[i]));
        i += 1;
    }
    proof {
        lemma_jv_elems(items@);
        assert(jv_seq(out@) =~= jv_elems(items@));
    }
    out
}

fn strip_cr_vec(l: &Vec<char>) -> (r: Vec<char>)
    ensures
        r@ == strip_cr(l@),
{
    let n = l.len();
    if n > 0 && l[n - 1] == '\r' {
        sub_chars(l, 0, n - 1)
    } else {
        clone_chars(l)
    }
}

fn is_blank_vec(l: &Vec<char>) -> (r: bool)
    ensures
        r == is_blank(l@),
{
    let mut i: usize = 0;
    while i < l.len()
        invariant
            0 <= i <= l@.len(),
            forall|m: int| 0 <= m < i ==> is_space_char(#[trigger] l@[m]),
        decreases l@.len() - i,
    {
        if !exec_is_space(l[i]) {
            return false;
        }
        i += 1;
    }
    true
}

#[verifier::loop_isolation(false)]
fn ndjson_collect(lines: &Vec<Vec<char>>, k: usize) -> (r: Vec<JsonValue>)
    requires
        k <= lines@.len(),
    ensures
        jv_seq(r@) == ndjson_events(lines@.map_values(|q: Vec<char>| q@).skip(k as int)),
    decreases lines@.len() - k,
{
    let ghost all = lines@.map_values(|q: Vec<char>| q@);
    if k == lines.len() {
        let r: Vec<JsonValue> = Vec::new();
        proof {
            assert(all.skip(k as int) =~= Seq::<Seq<char>>::empty());
            assert(jv_seq(r@) =~= ndjson_events(all.skip(k as int)));
        }
        return r;
    }
    proof {
        assert(all.skip(k as int)[0] == all[k as int]);
        assert(all.skip(k as int).drop_first() =~= all.skip(k + 1));
    }
    let l = strip_cr_vec(&lines[k]);
    let mut rest = ndjson_collect(lines, k + 1);
    if is_blank_vec(&l) {
        rest
    } else {
        let ls = string_from_chars(&l);
        match parse_json(ls.as_str()) {
            Some(v) => {
                let mut out: Vec<JsonValue> = Vec::new();
                out.push(v);
                out.append(&mut rest);
                proof {
                    assert(jv_seq(out@) =~= ndjson_events(all.skip(k as int)));
                }
                out
            },
            None => rest,
        }
    }
}

/// Loads the events of a source under the given format, in file order,
/// without mutating the source text.
///
/// A wrapped-array source must be one JSON object holding a `Records`
/// array, else the load fails.  A flat source that parses as one JSON
/// object yields that single event; any other flat source is read line by
/// line as newline-delimited JSON, blank lines skipped and unparsable lines
/// dropped, and the load fails only when no event survives.
pub fn load_events(source: &str, log_type: LogType) -> (r: Result<Vec<JsonValue>, SiemError>)
    ensures
        match r {
            Ok(events) => load_events_spec(source@, log_type) == Some(jv_seq(events@)),
            Err(e) => {
                &&& load_events_spec(source@, log_type) is None
                &&& e is Query
                &&& e.text() == load_error_text(source@, log_type)
            },
        },
{
    match log_type {
        LogType::CloudTrail => match parse_json(source) {
            Some(doc) => match doc {
                JsonValue::Obj(fields) => match find_records(&fields) {
                    Some(w) => match w {
                        JsonValue::Arr(items) => Ok(clone_events(items)),
                        _ => Err(
                            SiemError::Query(
                                String::from_str("CloudTrail file must have 'Records' array"),
                            ),
                        ),
                    },
                    None => Err(
                        SiemError::Query(
                            String::from_str("CloudTrail file must have 'Records' array"),
                        ),
                    ),
                },
                _ => Err(
                    SiemError::Query(
                        String::from_str("CloudTrail file must have 'Records' array"),
                    ),
                ),
            },
            None => Err(SiemError::Query(String::from_str("Failed to parse JSON"))),
        },
        LogType::FlatJson => {
            let single = parse_json(source);
            let mut is_obj: bool = false;
            match &single {
                Some(v) => match v {
                    JsonValue::Obj(_) => {
                        is_obj = true;
                    },
                    _ => {},
                },
                None => {},
            }
            if is_obj {
                match single {
                    Some(v) => {
                        let mut out: Vec<JsonValue> = Vec::new();
                        out.push(v);
                        proof {
                            assert(jv_seq(out@) =~= seq![jv(out@[0])]);
                        }
                        Ok(out)
                    },
                    None => Err(SiemError::Query(String::from_str("Failed to parse JSON"))),
                }
            } else {
                let c = chars_of(source);
                let mut nl: Vec<char> = Vec::new();
                nl.push('\n');
                proof {
                    assert(nl@ =~= seq!['\n']);
                }
                let lines = split_kw_vec(&c, &nl, false);
                proof {
                    assert(lines@.map_values(|q: Vec<char>| q@) =~= raw_lines(source@));
                    assert(lines@.map_values(|q: Vec<char>| q@).skip(0) =~= lines@.map_values(
                        |q: Vec<char>| q@,
                    ));
                }
                let events = ndjson_collect(&lines, 0);
                if events.len() == 0 {
                    proof {
                        assert(jv_seq(events@) =~= Seq::<Jv>::empty());
                    }
                    Err(SiemError::Query(String::from_str("No events found in log file")))
                } else {
                    Ok(events)
                }
            }
        },
    }
}

/// How many lines a text holds, a trailing newline closing the last line.
pub open spec fn lines_count(s: Seq<char>) -> nat {
    if s.len() == 0 {
        0
    } else {
        count_ch(s, '\n') + if s[s.len() - 1] == '\n' {
            0nat
        } else {
            1nat
        }
    }
}

/// What the event-count estimate yields: the element count where the text
/// is one JSON array, else the line count, and nothing for an empty text.
pub open spec fn estimate_spec(s: Seq<char>) -> Option<nat> {
    match json_doc(s) {
        Some(v) => match v {
            Jv::Arr(items) => Some(items.len()),
            _ => lines_estimate(s),
        },
        None => lines_estimate(s),
    }
}

/// The line-count fallback of the estimate.
pub open spec fn lines_estimate(s: Seq<char>) -> Option<nat> {
    if lines_count(s) > 0 {
        Some(lines_count(s))
    } else {
        None
    }
}

/// A best-effort estimate of how many events a log text holds: the length
/// of a JSON array, or the number of lines.
pub fn estimate_event_count(content: &str) -> (r: Option<usize>)
    ensures
        match r {
            Some(n) => estimate_spec(content@) == Some(n as nat),
            None => estimate_spec(content@) is None,
        },
{
    match parse_json(content) {
        Some(doc) => match doc {
            JsonValue::Arr(items) => {
                proof {
                    lemma_jv_elems(items@);
                }
                Some(items.len())
            },
            _ => lines_estimate_exec(content),
        },
        None => lines_estimate_exec(content),
    }
}

fn lines_estimate_exec(content: &str) -> (r: Option<usize>)
    ensures
        match r {
            Some(n) => lines_estimate(content@) == Some(n as nat),
            None => lines_estimate(content@) is None,
        },
{
    let c = chars_of(content);
    let n = c.len();
    if n == 0 {
        return None;
    }
    let breaks = count_ch_vec(&c, '\n');
    let total = if c[n - 1] == '\n' {
        breaks
    } else {
        proof {
            lemma_count_ch_le(c@.drop_last(), '\n');
            assert(count_ch(c@, '\n') == count_ch(c@.drop_last(), '\n'));
        }
        breaks + 1
    };
    if total > 0 {
        Some(total)
    } else {
        None
    }
}

} // verus!
