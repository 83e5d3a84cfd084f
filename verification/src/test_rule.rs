//! Condition testing support: a best-effort syntax linter, a tester that
//! runs one condition over a whole source, and a schema-sampling helper
//! that suggests field paths for autocompletion.

use vstd::prelude::*;
use crate::eval::{
    bool_chars, eval_condition, kw_and, kw_or, matches_condition, prefix_at,
};
use crate::json::{JsonValue, Jv, jv, jv_entries, jv_seq, lemma_jv_entries, lemma_jv_elems, clone_json};
use crate::loader::{load_events, load_events_spec};
use crate::models::{FieldSuggestion, LogType, SiemError, TestRuleResult, ValidationResult};
use crate::scan::matched_events;
use crate::text::{
    chars_eq, chars_of, clone_chars, count_ch, count_ch_vec, find_token_vec, has_token,
    lower_chars, lower_of, rfind_before, rfind_before_vec, split_kw, split_kw_vec,
    string_from_chars, sub_chars, token_at, trim_chars, trim_spec,
};

verus! {

/// The ghost content of a validation outcome.
pub struct ValData {
    pub valid: bool,
    pub error_message: Option<Seq<char>>,
    pub error_position: Option<int>,
    pub suggestions: Seq<Seq<char>>,
}

/// The ghost content of a validation outcome value.
pub open spec fn val_view(v: ValidationResult) -> ValData {
    ValData {
        valid: v.valid,
        error_message: match v.error_message {
            Some(m) => Some(m@),
            None => None,
        },
        error_position: match v.error_position {
            Some(p) => Some(p as int),
            None => None,
        },
        suggestions: v.suggestions@.map_values(|s: String| s@),
    }
}

/// The condition holds some recognized operator text.
pub open spec fn has_operator(c: Seq<char>) -> bool {
    ||| has_token(c, seq!['='], false)
    ||| has_token(c, seq!['!', '='], false)
    ||| has_token(c, seq!['<', '>'], false)
    ||| has_token(c, seq![' ', 'C', 'O', 'N', 'T', 'A', 'I', 'N', 'S', ' '], true)
    ||| has_token(c, seq![' ', 'I', 'N', ' '], true)
    ||| has_token(c, seq![' ', 'S', 'T', 'A', 'R', 'T', 'S', 'W', 'I', 'T', 'H', ' '], true)
    ||| has_token(c, seq![' ', 'E', 'N', 'D', 'S', 'W', 'I', 'T', 'H', ' '], true)
    ||| has_token(c, seq![' ', 'M', 'A', 'T', 'C', 'H', ' '], true)
}

/// A connective split leaves some branch empty after trimming.
pub open spec fn has_empty_part(c: Seq<char>) -> bool {
    if has_token(c, kw_and(), true) {
        exists|i: int|
            0 <= i < split_kw(c, kw_and(), true).len() && trim_spec(
                #[trigger] split_kw(c, kw_and(), true)[i],
            ).len() == 0
    } else if has_token(c, kw_or(), true) {
        exists|i: int|
            0 <= i < split_kw(c, kw_or(), true).len() && trim_spec(
                #[trigger] split_kw(c, kw_or(), true)[i],
            ).len() == 0
    } else {
        false
    }
}

/// What the linter says of a condition text.  Positions are counted in
/// characters of the trimmed condition.
pub open spec fn validate_spec(c0: Seq<char>) -> ValData {
    let c = trim_spec(c0);
    if c.len() == 0 {
        ValData {
            valid: false,
            error_message: Some("Condition cannot be empty"@),
            error_position: Some(0),
            suggestions: seq!["Example: eventName = 'AssumeRole'"@],
        }
    } else if count_ch(c, '\'') % 2 != 0 {
        ValData {
            valid: false,
            error_message: Some("Unmatched single quote (')"@),
            error_position: rfind_before(c, '\'', c.len() as int),
            suggestions: seq!["Add closing single quote"@],
        }
    } else if count_ch(c, '"') % 2 != 0 {
        ValData {
            valid: false,
            error_message: Some("Unmatched double quote (\")"@),
            error_position: rfind_before(c, '"', c.len() as int),
            suggestions: seq!["Add closing double quote"@],
        }
    } else if !has_operator(c) {
        ValData {
            valid: false,
            error_message: Some("No operator found. Use =, IN, CONTAINS, STARTSWITH, etc."@),
            error_position: None,
            suggestions: seq![
                "Example: field = 'value'"@,
                "Example: field CONTAINS 'text'"@,
                "Example: field IN ('a', 'b')"@,
            ],
        }
    } else if has_empty_part(c) {
        ValData {
            valid: false,
            error_message: Some("Empty condition part in AND/OR"@),
            error_position: None,
            suggestions: seq!["Each part of AND/OR must have a condition"@],
        }
    } else {
        ValData { valid: true, error_message: None, error_position: None, suggestions: Seq::empty() }
    }
}

#[verifier::loop_isolation(false)]
fn find_empty_part(parts: &Vec<Vec<char>>) -> (r: bool)
    ensures
        r == exists|i: int|
            0 <= i < parts@.len() && trim_spec((#[trigger] parts@[i])@).len() == 0,
{
    let mut i: usize = 0;
    while i < parts.len()
        invariant
            0 <= i <= parts@.len(),
            forall|m: int| 0 <= m < i ==> trim_spec((#[trigger] parts@[m])@).len() != 0,
        decreases parts@.len() - i,
    {
        let t = trim_chars(&parts[i]);
        if t.len() == 0 {
            return true;
        }
        i += 1;
    }
    false
}

/// Lints a condition: an empty text, unbalanced quotes, a missing operator
/// and an empty `AND`/`OR` branch are rejected.  This is a lint, not a
/// guarantee that an accepted condition evaluates to anything but false.
#[verifier::loop_isolation(false)]
pub fn validate_condition(condition: &str) -> (r: ValidationResult)
    ensures
        val_view(r) == validate_spec(condition@),
{
    let c0 = chars_of(condition);
    let c = trim_chars(&c0);
    if c.len() == 0 {
        let mut sug: Vec<String> = Vec::new();
        sug.push(String::from_str("Example: eventName = 'AssumeRole'"));
        let r = ValidationResult {
            valid: false,
            error_message: Some(String::from_str("Condition cannot be empty")),
            error_position: Some(0),
            suggestions: sug,
        };
        proof {
            assert(val_view(r).suggestions =~= validate_spec(condition@).suggestions);
        }
        return r;
    }
    let singles = count_ch_vec(&c, '\'');
    if singles % 2 != 0 {
        let pos = rfind_before_vec(&c, '\'', c.len());
        let mut sug: Vec<String> = Vec::new();
        sug.push(String::from_str("Add closing single quote"));
        let r = ValidationResult {
            valid: false,
            error_message: Some(String::from_str("Unmatched single quote (')")),
            error_position: pos,
            suggestions: sug,
        };
        proof {
            assert(val_view(r).suggestions =~= validate_spec(condition@).suggestions);
            assert(val_view(r).error_position == validate_spec(condition@).error_position);
        }
        return r;
    }
    let doubles = count_ch_vec(&c, '"');
    if doubles % 2 != 0 {
        let pos = rfind_before_vec(&c, '"', c.len());
        let mut sug: Vec<String> = Vec::new();
        sug.push(String::from_str("Add closing double quote"));
        let r = ValidationResult {
            valid: false,
            error_message: Some(String::from_str("Unmatched double quote (\")")),
            error_position: pos,
            suggestions: sug,
        };
        proof {
            assert(val_view(r).suggestions =~= validate_spec(condition@).suggestions);
            assert(val_view(r).error_position == validate_spec(condition@).error_position);
        }
        return r;
    }
    let eq: Vec<char> = vec!['='];
    let bang: Vec<char> = vec!['!', '='];
    let sqlne: Vec<char> = vec!['<', '>'];
    let contains: Vec<char> = vec![' ', 'C', 'O', 'N', 'T', 'A', 'I', 'N', 'S', ' '];
    let inkw: Vec<char> = vec![' ', 'I', 'N', ' '];
    let starts: Vec<char> = vec![' ', 'S', 'T', 'A', 'R', 'T', 'S', 'W', 'I', 'T', 'H', ' '];
    let ends: Vec<char> = vec![' ', 'E', 'N', 'D', 'S', 'W', 'I', 'T', 'H', ' '];
    let matchkw: Vec<char> = vec![' ', 'M', 'A', 'T', 'C', 'H', ' '];
    proof {
        assert(eq@ =~= seq!['=']);
        assert(bang@ =~= seq!['!', '=']);
        assert(sqlne@ =~= seq!['<', '>']);
        assert(contains@ =~= seq![' ', 'C', 'O', 'N', 'T', 'A', 'I', 'N', 'S', ' ']);
        assert(inkw@ =~= seq![' ', 'I', 'N', ' ']);
        assert(starts@ =~= seq![' ', 'S', 'T', 'A', 'R', 'T', 'S', 'W', 'I', 'T', 'H', ' ']);
        assert(ends@ =~= seq![' ', 'E', 'N', 'D', 'S', 'W', 'I', 'T', 'H', ' ']);
        assert(matchkw@ =~= seq![' ', 'M', 'A', 'T', 'C', 'H', ' ']);
    }
    let found = find_token_vec(&c, &eq, false).is_some() || find_token_vec(&c, &bang, false)
        .is_some() || find_token_vec(&c, &sqlne, false).is_some() || find_token_vec(
        &c,
        &contains,
        true,
    ).is_some() || find_token_vec(&c, &inkw, true).is_some() || find_token_vec(&c, &starts, true)
        .is_some() || find_token_vec(&c, &ends, true).is_some() || find_token_vec(
        &c,
        &matchkw,
        true,
    ).is_some();
    if !found {
        let mut sug: Vec<String> = Vec::new();
        sug.push(String::from_str("Example: field = 'value'"));
        sug.push(String::from_str("Example: field CONTAINS 'text'"));
        sug.push(String::from_str("Example: field IN ('a', 'b')"));
        let r = ValidationResult {
            valid: false,
            error_message: Some(
                String::from_str("No operator found. Use =, IN, CONTAINS, STARTSWITH, etc."),
            ),
            error_position: None,
            suggestions: sug,
        };
        proof {
            assert(val_view(r).suggestions =~= validate_spec(condition@).suggestions);
        }
        return r;
    }
    let andv: Vec<char> = vec![' ', 'A', 'N', 'D', ' '];
    let orv: Vec<char> = vec![' ', 'O', 'R', ' '];
    proof {
        assert(andv@ =~= kw_and());
        assert(orv@ =~= kw_or());
    }
    let empty_part: bool = if find_token_vec(&c, &andv, true).is_some() {
        let parts = split_kw_vec(&c, &andv, true);
        let ghost ps = split_kw(c@, kw_and(), true);
        let bad = find_empty_part(&parts);
        proof {
            if bad {
                let i = choose|i: int|
                    0 <= i < parts@.len() && trim_spec((#[trigger] parts@[i])@).len() == 0;
                assert(ps[i] == parts@[i]@);
            } else {
                assert forall|i: int| 0 <= i < ps.len() implies trim_spec(
                    #[trigger] ps[i],
                ).len() != 0 by {
                    assert(ps[i] == parts@[i]@);
                }
            }
            assert(bad == has_empty_part(c@));
        }
        bad
    } else if find_token_vec(&c, &orv, true).is_some() {
        let parts = split_kw_vec(&c, &orv, true);
        let ghost ps = split_kw(c@, kw_or(), true);
        let bad = find_empty_part(&parts);
        proof {
            if bad {
                let i = choose|i: int|
                    0 <= i < parts@.len() && trim_spec((#[trigger] parts@[i])@).len() == 0;
                assert(ps[i] == parts@[i]@);
            } else {
                assert forall|i: int| 0 <= i < ps.len() implies trim_spec(
                    #[trigger] ps[i],
                ).len() != 0 by {
                    assert(ps[i] == parts@[i]@);
                }
            }
            assert(bad == has_empty_part(c@));
        }
        bad
    } else {
        false
    };
    proof {
        assert(empty_part == has_empty_part(c@));
    }
    if empty_part {
        let mut sug: Vec<String> = Vec::new();
        sug.push(String::from_str("Each part of AND/OR must have a condition"));
        let r = ValidationResult {
            valid: false,
            error_message: Some(String::from_str("Empty condition part in AND/OR")),
            error_position: None,
            suggestions: sug,
        };
        proof {
            assert(val_view(r).suggestions =~= validate_spec(condition@).suggestions);
        }
        return r;
    }
    let r = ValidationResult {
        valid: true,
        error_message: None,
        error_position: None,
        suggestions: Vec::new(),
    };
    proof {
        assert(val_view(r).suggestions =~= validate_spec(condition@).suggestions);
    }
    r
}

/// The events that do not satisfy a condition, in source order.
pub open spec fn non_matched_events(events: Seq<Jv>, cond: Seq<char>) -> Seq<Jv> {
    events.filter(|e: Jv| !eval_condition(e, cond))
}

/// At most the first five of a sequence.
pub open spec fn sample5(m: Seq<Jv>) -> Seq<Jv> {
    if m.len() <= 5 {
        m
    } else {
        m.take(5)
    }
}

/// Tests one condition against a whole source.
///
/// An invalid condition yields a result that carries the linter's message
/// and no events; a load failure is fatal; otherwise every event is
/// evaluated, all matches are returned, and at most five non-matching
/// events are kept as a sample.  The caller measures elapsed time.
#[verifier::loop_isolation(false)]
#[verifier::rlimit(60)]
pub fn test_rule(source: &str, condition: &str, log_type: LogType) -> (r: Result<
    TestRuleResult,
    SiemError,
>)
    ensures
        match r {
            Ok(t) => {
                if !validate_spec(condition@).valid {
                    &&& !t.syntax_valid
                    &&& t.matched_count == 0
                    &&& t.total_count == 0
                    &&& t.matched_events@.len() == 0
                    &&& t.sample_non_matched@.len() == 0
                    &&& (match t.syntax_error {
                        Some(m) => validate_spec(condition@).error_message == Some(m@),
                        None => validate_spec(condition@).error_message is None,
                    })
                    &&& t.execution_time_ms == 0
                } else {
                    &&& load_events_spec(source@, log_type) is Some
                    &&& t.syntax_valid
                    &&& t.syntax_error is None
                    &&& jv_seq(t.matched_events@) == matched_events(
                        load_events_spec(source@, log_type)->0,
                        condition@,
                    )
                    &&& t.matched_count == matched_events(
                        load_events_spec(source@, log_type)->0,
                        condition@,
                    ).len()
                    &&& t.total_count == load_events_spec(source@, log_type)->0.len()
                    &&& jv_seq(t.sample_non_matched@) == sample5(
                        non_matched_events(load_events_spec(source@, log_type)->0, condition@),
                    )
                    &&& t.execution_time_ms == 0
                }
            },
            Err(e) => {
                &&& validate_spec(condition@).valid
                &&& load_events_spec(source@, log_type) is None
                &&& e is Query
            },
        },
{
    let validation = validate_condition(condition);
    if !validation.valid {
        return Ok(
            TestRuleResult {
                matched_count: 0,
                total_count: 0,
                matched_events: Vec::new(),
                sample_non_matched: Vec::new(),
                syntax_valid: false,
                syntax_error: validation.error_message,
                execution_time_ms: 0,
            },
        );
    }
    let events = match load_events(source, log_type) {
        Ok(evs) => evs,
        Err(e) => {
            return Err(e);
        },
    };
    let ghost evs = jv_seq(events@);
    let mut matched: Vec<JsonValue> = Vec::new();
    let mut non_matched: Vec<JsonValue> = Vec::new();
    proof {
        reveal(Seq::filter);
        assert(evs.take(0) =~= Seq::<Jv>::empty());
        assert(jv_seq(matched@) =~= matched_events(evs.take(0), condition@));
        assert(jv_seq(non_matched@) =~= sample5(non_matched_events(evs.take(0), condition@)));
    }
    let mut i: usize = 0;
    while i < events.len()
        invariant
            0 <= i <= events@.len(),
            jv_seq(matched@) == matched_events(evs.take(i as int), condition@),
            matched@.len() == matched_events(evs.take(i as int), condition@).len(),
            jv_seq(non_matched@) == sample5(non_matched_events(evs.take(i as int), condition@)),
            non_matched@.len() <= non_matched_events(evs.take(i as int), condition@).len(),
        decreases events@.len() - i,
    {
        let ghost mb = matched_events(evs.take(i as int), condition@);
        let ghost nb = non_matched_events(evs.take(i as int), condition@);
        proof {
            reveal(Seq::filter);
            assert(evs.take(i + 1).drop_last() =~= evs.take(i as int));
            assert(evs.take(i + 1).last() == evs[i as int]);
            assert(evs[i as int] == jv(events@[i as int]));
        }
        if matches_condition(&events[i], condition) {
            matched.push(clone_json(&events[i]));
            proof {
                assert(jv_seq(matched@) =~= matched_events(evs.take(i + 1), condition@));
            }
        } else {
            let ghost na = non_matched_events(evs.take(i + 1), condition@);
            proof {
                assert(na == nb.push(evs[i as int]));
            }
            if non_matched.len() < 5 {
                non_matched.push(clone_json(&events[i]));
                proof {
                    assert(jv_seq(non_matched@) =~= sample5(na));
                }
            } else {
                proof {
                    assert(nb.len() >= 5);
                    assert(na.take(5) =~= nb.take(5));
                    assert(jv_seq(non_matched@) =~= sample5(na));
                }
            }
        }
        i += 1;
    }
    proof {
        assert(evs.take(events@.len() as int) =~= evs);
    }
    let matched_count = matched.len();
    let total_count = events.len();
    Ok(
        TestRuleResult {
            matched_count,
            total_count,
            matched_events: matched,
            sample_non_matched: non_matched,
            syntax_valid: true,
            syntax_error: None,
            execution_time_ms: 0,
        },
    )
}

/// One working entry of the field map.
struct SugEntry {
    path: Vec<char>,
    ftype: Vec<char>,
    sample: Vec<char>,
    freq: usize,
}

/// The ghost content of a field suggestion.
pub struct SugData {
    pub path: Seq<char>,
    pub ftype: Seq<char>,
    pub sample: Seq<char>,
    pub freq: nat,
}

spec fn entry_view(e: SugEntry) -> SugData {
    SugData { path: e.path@, ftype: e.ftype@, sample: e.sample@, freq: e.freq as nat }
}

/// The ghost content of a field suggestion value.
pub open spec fn sug_view(f: FieldSuggestion) -> SugData {
    SugData {
        path: f.field_path@,
        ftype: f.field_type@,
        sample: f.sample_value@,
        freq: f.frequency as nat,
    }
}

/// The first entry holding this path.
pub open spec fn find_path_from(m: Seq<SugData>, path: Seq<char>, i: int) -> Option<int>
    decreases m.len() - i,
{
    if i < 0 || i >= m.len() {
        None
    } else if m[i].path == path {
        Some(i)
    } else {
        find_path_from(m, path, i + 1)
    }
}

/// An entry with its occurrence counter advanced, held at the machine
/// limit; type and sample keep their first-seen values.
pub open spec fn bump(e: SugData) -> SugData {
    SugData {
        freq: if e.freq < usize::MAX {
            (e.freq + 1) as nat
        } else {
            e.freq
        },
        ..e
    }
}

/// Recording one occurrence of a field path: an existing entry counts one
/// more, a new path enters with its inferred type and sample value.
pub open spec fn upsert(m: Seq<SugData>, path: Seq<char>, ftype: Seq<char>, sample: Seq<char>)
    -> Seq<SugData> {
    match find_path_from(m, path, 0) {
        Some(i) => m.update(i, bump(m[i])),
        None => m.push(SugData { path, ftype, sample, freq: 1 }),
    }
}

/// A dot-path extended by one key.
pub open spec fn path_of(prefix: Seq<char>, key: Seq<char>) -> Seq<char> {
    if prefix.len() == 0 {
        key
    } else {
        prefix + seq!['.'] + key
    }
}

/// A sample value truncated to fifty characters.
pub open spec fn trunc50(s: Seq<char>) -> Seq<char> {
    if s.len() <= 50 {
        s
    } else {
        s.take(50)
    }
}

/// Collecting the field paths of one value: only objects contribute.
pub open spec fn collect_obj(m: Seq<SugData>, prefix: Seq<char>, v: Jv) -> Seq<SugData>
    decreases v, 1int,
{
    match v {
        Jv::Obj(fs) => collect_entries(m, prefix, fs),
        _ => m,
    }
}

/// Collecting an object's fields in order.
pub open spec fn collect_entries(m: Seq<SugData>, prefix: Seq<char>, fs: Seq<(Seq<char>, Jv)>)
    -> Seq<SugData>
    decreases fs, 0int,
{
    if fs.len() == 0 {
        m
    } else {
        collect_entries(collect_entry(m, prefix, fs[0].0, fs[0].1), prefix, fs.drop_first())
    }
}

/// Collecting one field: a string, number or boolean is recorded under its
/// dot-path; a nested object is descended into; of an array only the first
/// element is taken as representative; null is skipped.
pub open spec fn collect_entry(m: Seq<SugData>, prefix: Seq<char>, key: Seq<char>, v: Jv)
    -> Seq<SugData>
    decreases v, 2int,
{
    let path = path_of(prefix, key);
    match v {
        Jv::Str(s) => upsert(m, path, "string"@, trunc50(s)),
        Jv::Num(t) => upsert(m, path, "number"@, t),
        Jv::Bool(b) => upsert(m, path, "boolean"@, bool_chars(b)),
        Jv::Obj(fs) => collect_entries(m, path, fs),
        Jv::Arr(items) => if items.len() > 0 {
            collect_obj(m, path, items[0])
        } else {
            m
        },
        Jv::Null => m,
    }
}

/// Collecting over a sampled event sequence, in order.
pub open spec fn collect_events(m: Seq<SugData>, evs: Seq<Jv>) -> Seq<SugData>
    decreases evs.len(),
{
    if evs.len() == 0 {
        m
    } else {
        collect_events(collect_obj(m, Seq::empty(), evs[0]), evs.drop_first())
    }
}

/// At most the first hundred events are sampled.
pub open spec fn sample100(evs: Seq<Jv>) -> Seq<Jv> {
    if evs.len() <= 100 {
        evs
    } else {
        evs.take(100)
    }
}

/// The entry's path starts with the caller's prefix, case-insensitively.
pub open spec fn prefix_matches(e: SugData, pfx: Seq<char>) -> bool {
    token_at(lower_of(e.path), lower_of(pfx), 0, false)
}

/// The entries whose paths match the prefix, in first-seen order.
pub open spec fn filter_prefix(m: Seq<SugData>, pfx: Seq<char>) -> Seq<SugData> {
    m.filter(|e: SugData| prefix_matches(e, pfx))
}

/// Inserting into a frequency-descending list, after every entry that ties
/// or beats the newcomer: the sort that uses this is stable.
pub open spec fn insert_desc(s: Seq<SugData>, x: SugData) -> Seq<SugData>
    decreases s.len(),
{
    if s.len() == 0 {
        seq![x]
    } else if s[0].freq >= x.freq {
        seq![s[0]] + insert_desc(s.drop_first(), x)
    } else {
        seq![x] + s
    }
}

/// Sorting by descending frequency, stably.
pub open spec fn sort_desc(s: Seq<SugData>) -> Seq<SugData>
    decreases s.len(),
{
    if s.len() == 0 {
        Seq::empty()
    } else {
        insert_desc(sort_desc(s.drop_last()), s.last())
    }
}

/// Frequencies never increase along the list.
pub open spec fn sorted_desc_freq(s: Seq<SugData>) -> bool {
    forall|i: int, j: int|
        0 <= i <= j < s.len() ==> (#[trigger] s[i]).freq >= (#[trigger] s[j]).freq
}

proof fn lemma_insert_desc_elems(s: Seq<SugData>, x: SugData)
    ensures
        insert_desc(s, x).len() == s.len() + 1,
        forall|i: int|
            0 <= i < insert_desc(s, x).len() ==> #[trigger] insert_desc(s, x)[i] == x
                || s.contains(insert_desc(s, x)[i]),
    decreases s.len(),
{
    if s.len() > 0 && s[0].freq >= x.freq {
        lemma_insert_desc_elems(s.drop_first(), x);
        assert forall|i: int| 0 <= i < insert_desc(s, x).len() implies #[trigger] insert_desc(
            s,
            x,
        )[i] == x || s.contains(insert_desc(s, x)[i]) by {
            if i == 0 {
                assert(s.contains(s[0]));
            } else {
                let rest = insert_desc(s.drop_first(), x);
                assert(insert_desc(s, x)[i] == rest[i - 1]);
                if rest[i - 1] != x {
                    let j = choose|j: int| 0 <= j < s.drop_first().len() && s.drop_first()[j]
                        == rest[i - 1];
                    assert(s[j + 1] == rest[i - 1]);
                }
            }
        }
    }
}

proof fn lemma_insert_desc_sorted(s: Seq<SugData>, x: SugData)
    requires
        sorted_desc_freq(s),
    ensures
        sorted_desc_freq(insert_desc(s, x)),
    decreases s.len(),
{
    if s.len() == 0 {
    } else if s[0].freq >= x.freq {
        assert(sorted_desc_freq(s.drop_first()));
        lemma_insert_desc_sorted(s.drop_first(), x);
        lemma_insert_desc_elems(s.drop_first(), x);
        let out = insert_desc(s, x);
        let rest = insert_desc(s.drop_first(), x);
        assert forall|i: int, j: int| 0 <= i <= j < out.len() implies (#[trigger] out[i]).freq
            >= (#[trigger] out[j]).freq by {
            if i == 0 && j > 0 {
                assert(out[j] == rest[j - 1]);
                if rest[j - 1] != x {
                    let k = choose|k: int| 0 <= k < s.drop_first().len() && s.drop_first()[k]
                        == rest[j - 1];
                    assert(s[k + 1] == rest[j - 1]);
                }
            } else if i > 0 {
                assert(out[i] == rest[i - 1]);
                assert(out[j] == rest[j - 1]);
            }
        }
    } else {
        let out = insert_desc(s, x);
        assert forall|i: int, j: int| 0 <= i <= j < out.len() implies (#[trigger] out[i]).freq
            >= (#[trigger] out[j]).freq by {
            if i == 0 && j > 0 {
                assert(out[j] == s[j - 1]);
                assert(x.freq > s[0].freq);
                assert(s[0].freq >= s[j - 1].freq);
            } else if i > 0 {
                assert(out[i] == s[i - 1]);
                assert(out[j] == s[j - 1]);
            }
        }
    }
}

proof fn lemma_insert_desc_multiset(s: Seq<SugData>, x: SugData)
    ensures
        insert_desc(s, x).to_multiset() == s.to_multiset().insert(x),
    decreases s.len(),
{
    broadcast use vstd::seq_lib::group_seq_properties;

    if s.len() == 0 {
        assert(insert_desc(s, x) =~= Seq::empty().push(x));
        assert(Seq::<SugData>::empty().push(x).to_multiset() =~= s.to_multiset().insert(x));
    } else if s[0].freq >= x.freq {
        lemma_insert_desc_multiset(s.drop_first(), x);
        vstd::seq_lib::lemma_multiset_commutative(seq![s[0]], insert_desc(s.drop_first(), x));
        vstd::seq_lib::lemma_multiset_commutative(seq![s[0]], s.drop_first());
        assert(seq![s[0]] + s.drop_first() =~= s);
        assert(insert_desc(s, x).to_multiset() =~= s.to_multiset().insert(x));
    } else {
        vstd::seq_lib::lemma_multiset_commutative(seq![x], s);
        assert(insert_desc(s, x).to_multiset() =~= s.to_multiset().insert(x));
    }
}

/// What the suggestion ordering means: the sorted list is a permutation of
/// the entries given, and frequencies never increase along it; entries of
/// equal frequency keep their first-seen order by construction.
pub proof fn lemma_sort_desc(s: Seq<SugData>)
    ensures
        sorted_desc_freq(sort_desc(s)),
        sort_desc(s).to_multiset() == s.to_multiset(),
    decreases s.len(),
{
    broadcast use vstd::seq_lib::group_seq_properties;

    if s.len() == 0 {
        assert(sort_desc(s).to_multiset() =~= s.to_multiset());
    } else {
        lemma_sort_desc(s.drop_last());
        lemma_insert_desc_sorted(sort_desc(s.drop_last()), s.last());
        lemma_insert_desc_multiset(sort_desc(s.drop_last()), s.last());
        assert(s.drop_last().push(s.last()) =~= s);
        assert(s.drop_last().to_multiset().insert(s.last()) =~= s.to_multiset());
    }
}

/// At most the first twenty suggestions are returned.
pub open spec fn take20(s: Seq<SugData>) -> Seq<SugData> {
    if s.len() <= 20 {
        s
    } else {
        s.take(20)
    }
}

/// What the suggestion helper yields on loaded events: the first hundred
/// events sampled, their dot-paths collected, filtered by the caller's
/// prefix, ordered by descending frequency and capped at twenty.
pub open spec fn suggestions_spec(evs: Seq<Jv>, pfx: Seq<char>) -> Seq<SugData> {
    take20(sort_desc(filter_prefix(collect_events(Seq::empty(), sample100(evs)), pfx)))
}

#[verifier::loop_isolation(false)]
fn upsert_entry(m: &mut Vec<SugEntry>, path: Vec<char>, ftype: Vec<char>, sample: Vec<char>)
    ensures
        final(m)@.map_values(|e: SugEntry| entry_view(e)) == upsert(
            old(m)@.map_values(|e: SugEntry| entry_view(e)),
            path@,
            ftype@,
            sample@,
        ),
{
    let ghost mv = old(m)@.map_values(|e: SugEntry| entry_view(e));
    let mut i: usize = 0;
    while i < m.len()
        invariant
            0 <= i <= m@.len(),
            m@ == old(m)@,
            find_path_from(mv, path@, 0) == find_path_from(mv, path@, i as int),
        decreases m@.len() - i,
    {
        if chars_eq(&m[i].path, &path) {
            let cur = m[i].freq;
            let nf = if cur < usize::MAX {
                cur + 1
            } else {
                cur
            };
            let e = &mut m[i];
            e.freq = nf;
            proof {
                assert(find_path_from(mv, path@, 0) == Some(i as int));
                assert(m@.map_values(|e: SugEntry| entry_view(e)) =~= mv.update(
                    i as int,
                    bump(mv[i as int]),
                ));
            }
            return ;
        }
        i += 1;
    }
    proof {
        assert(find_path_from(mv, path@, 0) is None);
    }
    m.push(SugEntry { path, ftype, sample, freq: 1 });
    proof {
        assert(m@.map_values(|e: SugEntry| entry_view(e)) =~= upsert(mv, path@, ftype@, sample@));
    }
}

fn path_join(prefix: &Vec<char>, key: &Vec<char>) -> (r: Vec<char>)
    ensures
        r@ == path_of(prefix@, key@),
{
    if prefix.len() == 0 {
        clone_chars(key)
    } else {
        let mut r = clone_chars(prefix);
        r.push('.');
        let mut kc = clone_chars(key);
        r.append(&mut kc);
        proof {
            assert(r@ =~= prefix@ + seq!['.'] + key@);
        }
        r
    }
}

/// Recursively collects the field paths of one event into the field map.
#[verifier::loop_isolation(false)]
fn collect_fields(v: &JsonValue, prefix: &Vec<char>, m: &mut Vec<SugEntry>)
    ensures
        final(m)@.map_values(|e: SugEntry| entry_view(e)) == collect_obj(
            old(m)@.map_values(|e: SugEntry| entry_view(e)),
            prefix@,
            jv(*v),
        ),
    decreases *v,
{
    match v {
        JsonValue::Obj(fields) => {
            let ghost fsg = jv_entries(fields@);
            let ghost m0 = old(m)@.map_values(|e: SugEntry| entry_view(e));
            proof {
                lemma_jv_entries(fields@);
                assert(fsg.skip(0) =~= fsg);
            }
            let mut i: usize = 0;
            while i < fields.len()
                invariant
                    0 <= i <= fields@.len(),
                    collect_entries(
                        m@.map_values(|e: SugEntry| entry_view(e)),
                        prefix@,
                        fsg.skip(i as int),
                    ) == collect_entries(m0, prefix@, fsg),
                decreases fields@.len() - i,
            {
                let ghost cur = m@.map_values(|e: SugEntry| entry_view(e));
                proof {
                    assert(fsg.skip(i as int)[0] == fsg[i as int]);
                    assert(fsg.skip(i as int).drop_first() =~= fsg.skip(i + 1));
                }
                let pair = &fields[i];
                let key = chars_of(pair.0.as_str());
                let path = path_join(prefix, &key);
                proof {
                    let vv = *v;
                    assert(vv->Obj_0 == *fields);
                    assert(decreases_to!(vv => vv->Obj_0));
                    assert(decreases_to!(vv->Obj_0 => vv->Obj_0@));
                    assert(decreases_to!(vv->Obj_0@ => vv->Obj_0@[i as int]));
                    assert(decreases_to!(vv->Obj_0@[i as int] => vv->Obj_0@[i as int].1));
                    assert(decreases_to!(vv => vv->Obj_0@[i as int].1));
                }
                match &pair.1 {
                    JsonValue::Str(t) => {
                        let tc = chars_of(t.as_str());
                        let sample = if tc.len() <= 50 {
                            tc
                        } else {
                            sub_chars(&tc, 0, 50)
                        };
                        upsert_entry(m, path, chars_of("string"), sample);
                    },
                    JsonValue::Num(t) => {
                        upsert_entry(m, path, chars_of("number"), chars_of(t.as_str()));
                    },
                    JsonValue::Bool(b) => {
                        let sample: Vec<char> = if *b {
                            vec!['t', 'r', 'u', 'e']
                        } else {
                            vec!['f', 'a', 'l', 's', 'e']
                        };
                        proof {
                            assert(sample@ =~= bool_chars(*b));
                        }
                        upsert_entry(m, path, chars_of("boolean"), sample);
                    },
                    JsonValue::Obj(_) => {
                        collect_fields(&pair.1, &path, m);
                    },
                    JsonValue::Arr(items) => {
                        if items.len() > 0 {
                            proof {
                                let w = pair.1;
                                assert(decreases_to!(w => w->Arr_0));
                                assert(decreases_to!(w->Arr_0 => w->Arr_0@));
                                assert(decreases_to!(w->Arr_0@ => w->Arr_0@[0]));
                                assert(decreases_to!(w => w->Arr_0@[0]));
                                lemma_jv_elems(items@);
                            }
                            collect_fields(&items[0], &path, m);
                        }
                    },
                    JsonValue::Null => {},
                }
                proof {
                    let now = m@.map_values(|e: SugEntry| entry_view(e));
                    assert(now == collect_entry(cur, prefix@, fsg[i as int].0, fsg[i as int].1));
                }
                i += 1;
            }
            proof {
                assert(fsg.skip(fields@.len() as int) =~= Seq::<(Seq<char>, Jv)>::empty());
            }
        },
        _ => {},
    }
}

#[verifier::loop_isolation(false)]
fn filter_entries(entries: Vec<SugEntry>, pfx: &Vec<char>) -> (r: Vec<SugEntry>)
    ensures
        r@.map_values(|e: SugEntry| entry_view(e)) == filter_prefix(
            entries@.map_values(|e: SugEntry| entry_view(e)),
            pfx@,
        ),
{
    let ghost f = |e: SugEntry| entry_view(e);
    let ghost orig = entries@.map_values(f);
    let lp = lower_chars(pfx);
    let mut rest = entries;
    let ghost mut done = Seq::<SugData>::empty();
    let mut out: Vec<SugEntry> = Vec::new();
    proof {
        reveal(Seq::filter);
        assert(done + rest@.map_values(f) =~= orig);
        assert(out@.map_values(f) =~= filter_prefix(done, pfx@));
    }
    while rest.len() > 0
        invariant
            done + rest@.map_values(f) == orig,
            f == (|e: SugEntry| entry_view(e)),
            lp@ == lower_of(pfx@),
            out@.map_values(f) == filter_prefix(done, pfx@),
        decreases rest@.len(),
    {
        let a = rest.remove(0);
        let ghost av = entry_view(a);
        proof {
            reveal(Seq::filter);
            assert(done.push(av) + rest@.map_values(f) =~= orig);
            assert(done.push(av).drop_last() =~= done);
            assert(done.push(av).last() == av);
        }
        let la = lower_chars(&a.path);
        if prefix_at(&la, &lp) {
            out.push(a);
        }
        proof {
            done = done.push(av);
            assert(out@.map_values(f) =~= filter_prefix(done, pfx@));
        }
    }
    proof {
        assert(rest@.map_values(f) =~= Seq::<SugData>::empty());
        assert(done =~= orig);
    }
    out
}

proof fn lemma_insert_desc_at(s: Seq<SugData>, x: SugData, p: int)
    requires
        0 <= p <= s.len(),
        forall|m: int| 0 <= m < p ==> (#[trigger] s[m]).freq >= x.freq,
        p < s.len() ==> s[p].freq < x.freq,
    ensures
        insert_desc(s, x) == s.take(p) + seq![x] + s.skip(p),
    decreases p,
{
    if p == 0 {
        if s.len() == 0 {
            assert(insert_desc(s, x) =~= s.take(0) + seq![x] + s.skip(0));
        } else {
            assert(insert_desc(s, x) =~= s.take(0) + seq![x] + s.skip(0));
        }
    } else {
        assert(s[0].freq >= x.freq);
        lemma_insert_desc_at(s.drop_first(), x, p - 1);
        assert(s.drop_first().take(p - 1) =~= s.take(p).drop_first());
        assert(insert_desc(s, x) == seq![s[0]] + insert_desc(s.drop_first(), x));
        assert(seq![s[0]] + (s.drop_first().take(p - 1) + seq![x] + s.drop_first().skip(p - 1))
            =~= s.take(p) + seq![x] + s.skip(p));
    }
}

#[verifier::loop_isolation(false)]
fn insert_sorted(out: &mut Vec<SugEntry>, x: SugEntry)
    ensures
        final(out)@.map_values(|e: SugEntry| entry_view(e)) == insert_desc(
            old(out)@.map_values(|e: SugEntry| entry_view(e)),
            entry_view(x),
        ),
{
    let ghost sv = old(out)@.map_values(|e: SugEntry| entry_view(e));
    let mut p: usize = 0;
    while p < out.len() && out[p].freq >= x.freq
        invariant
            0 <= p <= out@.len(),
            out@ == old(out)@,
            forall|m: int| 0 <= m < p ==> (#[trigger] sv[m]).freq >= entry_view(x).freq,
        decreases out@.len() - p,
    {
        p += 1;
    }
    proof {
        lemma_insert_desc_at(sv, entry_view(x), p as int);
    }
    out.insert(p, x);
    proof {
        assert(out@.map_values(|e: SugEntry| entry_view(e)) =~= sv.take(p as int) + seq![
            entry_view(x),
        ] + sv.skip(p as int));
    }
}

#[verifier::loop_isolation(false)]
fn sort_entries(entries: Vec<SugEntry>) -> (r: Vec<SugEntry>)
    ensures
        r@.map_values(|e: SugEntry| entry_view(e)) == sort_desc(
            entries@.map_values(|e: SugEntry| entry_view(e)),
        ),
{
    let ghost f = |e: SugEntry| entry_view(e);
    let ghost orig = entries@.map_values(f);
    let mut rest = entries;
    let ghost mut done = Seq::<SugData>::empty();
    let mut out: Vec<SugEntry> = Vec::new();
    proof {
        assert(done + rest@.map_values(f) =~= orig);
        assert(out@.map_values(f) =~= sort_desc(done));
    }
    while rest.len() > 0
        invariant
            done + rest@.map_values(f) == orig,
            f == (|e: SugEntry| entry_view(e)),
            out@.map_values(f) == sort_desc(done),
        decreases rest@.len(),
    {
        let a = rest.remove(0);
        let ghost av = entry_view(a);
        proof {
            assert(done.push(av) + rest@.map_values(f) =~= orig);
            assert(done.push(av).drop_last() =~= done);
            assert(done.push(av).last() == av);
        }
        insert_sorted(&mut out, a);
        proof {
            done = done.push(av);
        }
    }
    proof {
        assert(rest@.map_values(f) =~= Seq::<SugData>::empty());
        assert(done =~= orig);
    }
    out
}

/// Suggests field paths for autocompletion, sampled from the source's
/// events.
///
/// The first hundred events are flattened into dot-paths, nested objects
/// descended, arrays represented by their first element; each path carries
/// its inferred type, a sample value truncated to fifty characters, and an
/// occurrence counter.  Paths are filtered by the caller's prefix,
/// case-insensitively, ordered by descending frequency and capped at
/// twenty.
#[verifier::loop_isolation(false)]
pub fn get_field_suggestions(source: &str, log_type: LogType, prefix: &str) -> (r: Result<
    Vec<FieldSuggestion>,
    SiemError,
>)
    ensures
        match r {
            Ok(sug) => load_events_spec(source@, log_type) is Some && sug@.map_values(
                |s: FieldSuggestion| sug_view(s),
            ) == suggestions_spec(load_events_spec(source@, log_type)->0, prefix@),
            Err(e) => load_events_spec(source@, log_type) is None && e is Query,
        },
{
    let events = match load_events(source, log_type) {
        Ok(evs) => evs,
        Err(e) => {
            return Err(e);
        },
    };
    let ghost evs = jv_seq(events@);
    let ghost sample = sample100(evs);
    let limit = if events.len() > 100 {
        100
    } else {
        events.len()
    };
    proof {
        assert(sample.len() == limit);
        assert forall|k: int| 0 <= k < limit implies sample[k] == jv(events@[k]) by {}
        assert(sample.skip(0) =~= sample);
    }
    let empty_prefix: Vec<char> = Vec::new();
    let mut field_map: Vec<SugEntry> = Vec::new();
    proof {
        assert(field_map@.map_values(|e: SugEntry| entry_view(e)) =~= Seq::<SugData>::empty());
    }
    let mut i: usize = 0;
    while i < limit
        invariant
            0 <= i <= limit,
            limit <= events@.len(),
            sample == sample100(evs),
            evs == jv_seq(events@),
            sample.len() == limit,
            forall|k: int| 0 <= k < limit ==> sample[k] == jv(#[trigger] events@[k]),
            empty_prefix@ == Seq::<char>::empty(),
            collect_events(
                field_map@.map_values(|e: SugEntry| entry_view(e)),
                sample.skip(i as int),
            ) == collect_events(Seq::empty(), sample),
        decreases limit - i,
    {
        let ghost cur = field_map@.map_values(|e: SugEntry| entry_view(e));
        proof {
            assert(sample.skip(i as int)[0] == sample[i as int]);
            assert(sample.skip(i as int).drop_first() =~= sample.skip(i + 1));
        }
        collect_fields(&events[i], &empty_prefix, &mut field_map);
        i += 1;
    }
    proof {
        assert(sample.skip(limit as int) =~= Seq::<Jv>::empty());
    }
    let pfx = chars_of(prefix);
    let filtered = filter_entries(field_map, &pfx);
    let mut sorted = sort_entries(filtered);
    let ghost sortedv = sorted@.map_values(|e: SugEntry| entry_view(e));
    if sorted.len() > 20 {
        sorted.truncate(20);
        proof {
            assert(sorted@.map_values(|e: SugEntry| entry_view(e)) =~= take20(sortedv));
        }
    }
    let mut out: Vec<FieldSuggestion> = Vec::new();
    let ghost finalv = sorted@.map_values(|e: SugEntry| entry_view(e));
    let mut rest = sorted;
    proof {
        assert(out@.map_values(|s: FieldSuggestion| sug_view(s)) + rest@.map_values(
            |e: SugEntry| entry_view(e),
        ) =~= finalv);
    }
    while rest.len() > 0
        invariant
            out@.map_values(|s: FieldSuggestion| sug_view(s)) + rest@.map_values(
                |e: SugEntry| entry_view(e),
            ) == finalv,
        decreases rest@.len(),
    {
        let e = rest.remove(0);
        let fs = FieldSuggestion {
            field_path: string_from_chars(&e.path),
            field_type: string_from_chars(&e.ftype),
            sample_value: string_from_chars(&e.sample),
            frequency: e.freq,
        };
        out.push(fs);
        proof {
            assert(out@.map_values(|s: FieldSuggestion| sug_view(s)) + rest@.map_values(
                |e: SugEntry| entry_view(e),
            ) =~= finalv);
        }
    }
    proof {
        assert(rest@.map_values(|e: SugEntry| entry_view(e)) =~= Seq::<SugData>::empty());
        assert(out@.map_values(|s: FieldSuggestion| sug_view(s)) =~= finalv);
    }
    Ok(out)
}

} // verus!
