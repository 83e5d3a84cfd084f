//! The library's JSON event model.
//!
//! An event is an arbitrary JSON value tree.  Numbers are kept as their
//! canonical decimal text, which is all the engine ever compares.  The ghost
//! view `Jv` mirrors the tree over `Seq<char>`, and every contract speaks of
//! events through it.

use vstd::prelude::*;
use crate::text::{chars_of, split_kw, split_kw_vec, string_from_chars, chars_eq};

verus! {

/// One JSON value: an event, or a piece of one.
#[derive(Debug)]
pub enum JsonValue {
    Null,
    Bool(bool),
    /// A number, held as its canonical decimal text.
    Num(String),
    Str(String),
    Arr(Vec<JsonValue>),
    Obj(Vec<(String, JsonValue)>),
}

/// The ghost view of a JSON value.
pub enum Jv {
    Null,
    Bool(bool),
    Num(Seq<char>),
    Str(Seq<char>),
    Arr(Seq<Jv>),
    Obj(Seq<(Seq<char>, Jv)>),
}

/// The view of a value: the same tree over sequences.
pub open spec fn jv(v: JsonValue) -> Jv
    decreases v,
{
    match v {
        JsonValue::Null => Jv::Null,
        JsonValue::Bool(b) => Jv::Bool(b),
        JsonValue::Num(t) => Jv::Num(t@),
        JsonValue::Str(t) => Jv::Str(t@),
        JsonValue::Arr(items) => Jv::Arr(jv_elems(items@)),
        JsonValue::Obj(fields) => Jv::Obj(jv_entries(fields@)),
    }
}

/// The views of the elements of an array.
pub open spec fn jv_elems(s: Seq<JsonValue>) -> Seq<Jv>
    decreases s,
{
    if s.len() == 0 {
        Seq::empty()
    } else {
        seq![jv(s[0])] + jv_elems(s.drop_first())
    }
}

/// The views of the fields of an object.
pub open spec fn jv_entries(s: Seq<(String, JsonValue)>) -> Seq<(Seq<char>, Jv)>
    decreases s,
{
    if s.len() == 0 {
        Seq::empty()
    } else {
        seq![(s[0].0@, jv(s[0].1))] + jv_entries(s.drop_first())
    }
}

/// `jv_elems` is the element-wise view.
pub proof fn lemma_jv_elems(s: Seq<JsonValue>)
    ensures
        jv_elems(s).len() == s.len(),
        forall|i: int| 0 <= i < s.len() ==> jv_elems(s)[i] == jv(#[trigger] s[i]),
    decreases s.len(),
{
    if s.len() > 0 {
        lemma_jv_elems(s.drop_first());
        assert forall|i: int| 0 <= i < s.len() implies jv_elems(s)[i] == jv(#[trigger] s[i]) by {
            if i > 0 {
                assert(jv_elems(s)[i] == jv_elems(s.drop_first())[i - 1]);
                assert(s.drop_first()[i - 1] == s[i]);
            }
        }
    }
}

/// `jv_entries` is the entry-wise view.
pub proof fn lemma_jv_entries(s: Seq<(String, JsonValue)>)
    ensures
        jv_entries(s).len() == s.len(),
        forall|i: int| 0 <= i < s.len() ==> jv_entries(s)[i] == ((#[trigger] s[i]).0@, jv(
            s[i].1,
        )),
    decreases s.len(),
{
    if s.len() > 0 {
        lemma_jv_entries(s.drop_first());
        assert forall|i: int| 0 <= i < s.len() implies jv_entries(s)[i] == ((#[trigger] s[i]).0@, jv(
            s[i].1,
        )) by {
            if i > 0 {
                assert(jv_entries(s)[i] == jv_entries(s.drop_first())[i - 1]);
                assert(s.drop_first()[i - 1] == s[i]);
            }
        }
    }
}

/// The views of a sequence of values.
pub open spec fn jv_seq(s: Seq<JsonValue>) -> Seq<Jv> {
    s.map_values(|v: JsonValue| jv(v))
}

/// A deep copy, equal under the view.
#[verifier::loop_isolation(false)]
pub fn clone_json(v: &JsonValue) -> (r: JsonValue)
    ensures
        jv(r) == jv(*v),
    decreases *v,
{
    match v {
        JsonValue::Null => JsonValue::Null,
        JsonValue::Bool(b) => JsonValue::Bool(*b),
        JsonValue::Num(t) => JsonValue::Num(t.clone()),
        JsonValue::Str(t) => JsonValue::Str(t.clone()),
        JsonValue::Arr(items) => {
            let mut out: Vec<JsonValue> = Vec::new();
            let mut i: usize = 0;
            while i < items.len()
                invariant
                    out@.len() == i,
                    i <= items@.len(),
                    forall|k: int| 0 <= k < i ==> jv(#[trigger] out@[k]) == jv(items@[k]),
                decreases items@.len() - i,
            {
                proof {
                    let vv = *v;
                    assert(vv->Arr_0 == *items);
                    assert(decreases_to!(vv => vv->Arr_0));
                    assert(decreases_to!(vv->Arr_0 => vv->Arr_0@));
                    assert(decreases_to!(vv->Arr_0@ => vv->Arr_0@[i as int]));
                    assert(decreases_to!(vv => vv->Arr_0@[i as int]));
                }
                out.push(clone_json(&items[i]));
                i += 1;
            }
            proof {
                lemma_jv_elems(out@);
                lemma_jv_elems(items@);
                assert forall|k: int| 0 <= k < jv_elems(out@).len() implies jv_elems(out@)[k]
                    == jv_elems(items@)[k] by {
                    assert(jv_elems(out@)[k] == jv(out@[k]));
                    assert(jv_elems(items@)[k] == jv(items@[k]));
                }
                assert(jv_elems(out@) =~= jv_elems(items@));
            }
            JsonValue::Arr(out)
        },
        JsonValue::Obj(fields) => {
            let mut out: Vec<(String, JsonValue)> = Vec::new();
            let mut i: usize = 0;
            while i < fields.len()
                invariant
                    out@.len() == i,
                    i <= fields@.len(),
                    forall|k: int| 0 <= k < i ==> (#[trigger] out@[k]).0@ == fields@[k].0@ && jv(
                        out@[k].1,
                    ) == jv(fields@[k].1),
                decreases fields@.len() - i,
            {
                let pair = &fields[i];
                proof {
                    let vv = *v;
                    assert(vv->Obj_0 == *fields);
                    assert(decreases_to!(vv => vv->Obj_0));
                    assert(decreases_to!(vv->Obj_0 => vv->Obj_0@));
                    assert(decreases_to!(vv->Obj_0@ => vv->Obj_0@[i as int]));
                    assert(decreases_to!(vv->Obj_0@[i as int] => vv->Obj_0@[i as int].1));
                    assert(decreases_to!(vv => vv->Obj_0@[i as int].1));
                }
                out.push((pair.0.clone(), clone_json(&pair.1)));
                i += 1;
            }
            proof {
                lemma_jv_entries(out@);
                lemma_jv_entries(fields@);
                assert forall|k: int| 0 <= k < jv_entries(out@).len() implies jv_entries(out@)[k]
                    == jv_entries(fields@)[k] by {
                    assert(jv_entries(out@)[k] == (out@[k].0@, jv(out@[k].1)));
                    assert(jv_entries(fields@)[k] == (fields@[k].0@, jv(fields@[k].1)));
                }
                assert(jv_entries(out@) =~= jv_entries(fields@));
            }
            JsonValue::Obj(out)
        },
    }
}

/// The value of the first object field named `key`.
pub open spec fn lookup_field(fs: Seq<(Seq<char>, Jv)>, key: Seq<char>) -> Option<Jv>
    decreases fs.len(),
{
    if fs.len() == 0 {
        None
    } else if fs[0].0 == key {
        Some(fs[0].1)
    } else {
        lookup_field(fs.drop_first(), key)
    }
}

/// Walks the path segments through nested objects only.
pub open spec fn resolve_parts(v: Jv, parts: Seq<Seq<char>>) -> Option<Jv>
    decreases parts.len(),
{
    if parts.len() == 0 {
        Some(v)
    } else {
        match v {
            Jv::Obj(fs) => match lookup_field(fs, parts[0]) {
                Some(w) => resolve_parts(w, parts.drop_first()),
                None => None,
            },
            _ => None,
        }
    }
}

pub open spec fn true_chars() -> Seq<char> {
    seq!['t', 'r', 'u', 'e']
}

pub open spec fn false_chars() -> Seq<char> {
    seq!['f', 'a', 'l', 's', 'e']
}

/// The comparable text of a resolved value: a string is itself, a number its
/// canonical decimal text, a boolean `true`/`false`; anything else has none.
pub open spec fn coerce_text(v: Jv) -> Option<Seq<char>> {
    match v {
        Jv::Str(s) => Some(s),
        Jv::Num(t) => Some(t),
        Jv::Bool(b) => Some(if b { true_chars() } else { false_chars() }),
        _ => None,
    }
}

/// The comparable text of the field at a dot-separated path, if the path
/// resolves and the value coerces.
pub open spec fn field_value(e: Jv, path: Seq<char>) -> Option<Seq<char>> {
    match resolve_parts(e, split_kw(path, seq!['.'], false)) {
        Some(v) => coerce_text(v),
        None => None,
    }
}

#[verifier::loop_isolation(false)]
fn resolve_value<'a>(v: &'a JsonValue, parts: &Vec<Vec<char>>, p: usize) -> (r: Option<
    &'a JsonValue,
>)
    requires
        p <= parts@.len(),
    ensures
        match r {
            Some(w) => resolve_parts(jv(*v), parts@.map_values(|q: Vec<char>| q@).skip(p as int))
                == Some(jv(*w)),
            None => resolve_parts(jv(*v), parts@.map_values(|q: Vec<char>| q@).skip(p as int))
                is None,
        },
    decreases parts@.len() - p,
{
    let ghost all = parts@.map_values(|q: Vec<char>| q@);
    if p == parts.len() {
        proof {
            assert(all.skip(p as int) =~= Seq::<Seq<char>>::empty());
        }
        return Some(v);
    }
    proof {
        assert(all.skip(p as int).len() > 0);
        assert(all.skip(p as int)[0] == all[p as int]);
    }
    match v {
        JsonValue::Obj(fields) => {
            let ghost fs = jv_entries(fields@);
            proof {
                lemma_jv_entries(fields@);
            }
            let key = &parts[p];
            proof {
                assert(fs.skip(0) =~= fs);
            }
            let mut f: usize = 0;
            while f < fields.len()
                invariant
                    0 <= f <= fields@.len(),
                    fs == jv_entries(fields@),
                    fs.len() == fields@.len(),
                    forall|i: int| 0 <= i < fields@.len() ==> fs[i] == ((
                    #[trigger] fields@[i]).0@, jv(fields@[i].1)),
                    p < parts@.len(),
                    key@ == parts@[p as int]@,
                    lookup_field(fs, key@) == lookup_field(fs.skip(f as int), key@),
                decreases fields@.len() - f,
            {
                let pair = &fields[f];
                let kc = chars_of(pair.0.as_str());
                if chars_eq(&kc, key) {
                    proof {
                        assert(fs.skip(f as int)[0] == fs[f as int]);
                        assert(lookup_field(fs, key@) == Some(jv(fields@[f as int].1)));
                        assert(all.skip(p as int)[0] == key@);
                        assert(all.skip(p as int).drop_first() =~= all.skip(p + 1));
                    }
                    return resolve_value(&pair.1, parts, p + 1);
                }
                proof {
                    assert(fs.skip(f as int)[0] == fs[f as int]);
                    assert(fs.skip(f as int).drop_first() =~= fs.skip(f + 1));
                }
                f += 1;
            }
            proof {
                assert(fs.skip(fields@.len() as int) =~= Seq::<(Seq<char>, Jv)>::empty());
                assert(all.skip(p as int)[0] == key@);
            }
            None
        },
        _ => None,
    }
}

#[verifier::external_type_specification]
#[verifier::external_body]
pub struct ExValue(serde_json::Value);

/// What `serde_json::from_str::<serde_json::Value>` yields on a source text,
/// seen through the library's JSON model: `None` where the text is not one
/// valid JSON document.
pub uninterp spec fn json_doc(s: Seq<char>) -> Option<Jv>;

/// The model of an optional parsed value.
pub open spec fn opt_jv(r: Option<JsonValue>) -> Option<Jv> {
    match r {
        Some(v) => Some(jv(v)),
        None => None,
    }
}

/// Relies on `serde_json::Value`'s variants and accessors only: rebuilds the
/// parsed tree in the library's own value type, one node for one node, with a
/// number carried as its canonical decimal text.  This is the conversion
/// half of `parse_json`, and is called nowhere else.
#[verifier::external_body]
fn convert_json(v: &serde_json::Value) -> JsonValue {
    match v {
        serde_json::Value::Null => JsonValue::Null,
        serde_json::Value::Bool(b) => JsonValue::Bool(*b),
        serde_json::Value::Number(n) => JsonValue::Num(n.to_string()),
        serde_json::Value::String(s) => JsonValue::Str(s.clone()),
        serde_json::Value::Array(a) => JsonValue::Arr(a.iter().map(convert_json).collect()),
        serde_json::Value::Object(m) => JsonValue::Obj(
            m.iter().map(|p| (p.0.clone(), convert_json(p.1))).collect(),
        ),
    }
}

/// Relies on `serde_json::from_str::<serde_json::Value>`: parses the whole
/// text as one JSON document and fails on anything else; the outcome depends
/// on the text alone.
#[verifier::external_body]
pub fn parse_json(s: &str) -> (r: Option<JsonValue>)
    ensures
        opt_jv(r) == json_doc(s@),
{
    match serde_json::from_str::<serde_json::Value>(s) {
        Ok(v) => Some(convert_json(&v)),
        Err(_) => None,
    }
}

/// The field value at a dot-separated path, over character vectors.
pub(crate) fn field_value_vec(event: &JsonValue, path: &Vec<char>) -> (r: Option<Vec<char>>)
    ensures
        match r {
            Some(t) => field_value(jv(*event), path@) == Some(t@),
            None => field_value(jv(*event), path@) is None,
        },
{
    let mut dot: Vec<char> = Vec::new();
    dot.push('.');
    proof {
        assert(dot@ =~= seq!['.']);
    }
    let parts = split_kw_vec(&path, &dot, false);
    let ghost all = parts@.map_values(|q: Vec<char>| q@);
    proof {
        assert(all =~= split_kw(path@, seq!['.'], false));
        assert(all.skip(0) =~= all);
    }
    match resolve_value(event, &parts, 0) {
        None => None,
        Some(w) => match w {
            JsonValue::Str(t) => Some(chars_of(t.as_str())),
            JsonValue::Num(t) => Some(chars_of(t.as_str())),
            JsonValue::Bool(b) => {
                let t: Vec<char> = if *b {
                    vec!['t', 'r', 'u', 'e']
                } else {
                    vec!['f', 'a', 'l', 's', 'e']
                };
                proof {
                    if *b {
                        assert(t@ =~= true_chars());
                    } else {
                        assert(t@ =~= false_chars());
                    }
                }
                Some(t)
            },
            _ => None,
        },
    }
}

/// The field value at a dot-separated path, as comparable text.
///
/// Nested objects are walked segment by segment; arrays are not indexable, an
/// absent key leaves the field unresolved, and only strings, numbers and
/// booleans coerce to text.
pub fn get_field_value(event: &JsonValue, field_path: &str) -> (r: Option<String>)
    ensures
        match r {
            Some(s) => field_value(jv(*event), field_path@) == Some(s@),
            None => field_value(jv(*event), field_path@) is None,
        },
{
    let path = chars_of(field_path);
    match field_value_vec(event, &path) {
        Some(t) => Some(string_from_chars(&t)),
        None => None,
    }
}

} // verus!
