//! The condition evaluator: a small boolean expression language over JSON
//! events.
//!
//! Grammar, low to high precedence: `OR`, then `AND`, then a parenthesized
//! group, then an atomic predicate `field <operator> literal`.  A condition
//! holding an `IN (` token is taken as one atomic predicate, so that its
//! literal list is not mistaken for grouping.  Keywords are found purely by
//! text, so an operator word inside a quoted literal is indistinguishable
//! from a real operator; that is a known limitation of the condition
//! language.

use vstd::prelude::*;
use crate::json::{JsonValue, Jv, jv, field_value, field_value_vec, true_chars, false_chars};
use crate::text::{
    char_match, chars_eq, chars_of, clone_chars, count_ch, find_token,
    find_token_from, find_token_vec, has_token, lemma_count_ch_absent, lemma_count_ch_add,
    lemma_find_token_from, lemma_rfind_before, lower_chars, lower_of, rfind_before,
    rfind_before_vec, split_kw, split_kw_vec, string_from_chars, sub_chars, token_at, trim_chars,
    trim_spec,
};
use crate::wildcard::{glob, glob_vec};

verus! {

/// The comparison operators, in the fixed priority in which a predicate is
/// searched for one: a lower position wins, so that no operator's text is
/// mistaken for a prefix of another's.
#[derive(Clone, Copy, Debug, PartialEq, Eq, Structural)]
pub enum CmpOp {
    NotIn,
    In,
    NotContains,
    Contains,
    /// `!=`
    NeqBang,
    /// `<>`
    NeqSql,
    Eq,
    NotStartsWith,
    StartsWith,
    NotEndsWith,
    EndsWith,
    Match,
}

/// The text of an operator, space-delimited where it is a keyword.
pub open spec fn op_token(op: CmpOp) -> Seq<char> {
    match op {
        CmpOp::NotIn => seq![' ', 'N', 'O', 'T', ' ', 'I', 'N', ' '],
        CmpOp::In => seq![' ', 'I', 'N', ' '],
        CmpOp::NotContains => seq![
            ' ', 'N', 'O', 'T', ' ', 'C', 'O', 'N', 'T', 'A', 'I', 'N', 'S', ' ',
        ],
        CmpOp::Contains => seq![' ', 'C', 'O', 'N', 'T', 'A', 'I', 'N', 'S', ' '],
        CmpOp::NeqBang => seq!['!', '='],
        CmpOp::NeqSql => seq!['<', '>'],
        CmpOp::Eq => seq!['='],
        CmpOp::NotStartsWith => seq![
            ' ', 'N', 'O', 'T', ' ', 'S', 'T', 'A', 'R', 'T', 'S', 'W', 'I', 'T', 'H', ' ',
        ],
        CmpOp::StartsWith => seq![' ', 'S', 'T', 'A', 'R', 'T', 'S', 'W', 'I', 'T', 'H', ' '],
        CmpOp::NotEndsWith => seq![
            ' ', 'N', 'O', 'T', ' ', 'E', 'N', 'D', 'S', 'W', 'I', 'T', 'H', ' ',
        ],
        CmpOp::EndsWith => seq![' ', 'E', 'N', 'D', 'S', 'W', 'I', 'T', 'H', ' '],
        CmpOp::Match => seq![' ', 'M', 'A', 'T', 'C', 'H', ' '],
    }
}

/// The operators in search priority order.
pub open spec fn op_order() -> Seq<CmpOp> {
    seq![
        CmpOp::NotIn,
        CmpOp::In,
        CmpOp::NotContains,
        CmpOp::Contains,
        CmpOp::NeqBang,
        CmpOp::NeqSql,
        CmpOp::Eq,
        CmpOp::NotStartsWith,
        CmpOp::StartsWith,
        CmpOp::NotEndsWith,
        CmpOp::EndsWith,
        CmpOp::Match,
    ]
}

/// The first operator of the priority list, from position `k` on, that
/// occurs in `s`, with the position of its first occurrence.
pub open spec fn find_op_from(s: Seq<char>, k: int) -> Option<(CmpOp, int)>
    decreases op_order().len() - k,
{
    if k < 0 || k >= op_order().len() {
        None
    } else {
        match find_token(s, op_token(op_order()[k]), true) {
            Some(i) => Some((op_order()[k], i)),
            None => find_op_from(s, k + 1),
        }
    }
}

/// The operator an atomic predicate uses, and where it stands.
pub open spec fn find_op(s: Seq<char>) -> Option<(CmpOp, int)> {
    find_op_from(s, 0)
}

/// What `find_op_from` returns: the token of the found operator occurs at
/// the returned position.
pub proof fn lemma_find_op_from(s: Seq<char>, k: int)
    ensures
        match find_op_from(s, k) {
            Some(oi) => find_token(s, op_token(oi.0), true) == Some(oi.1),
            None => true,
        },
    decreases op_order().len() - k,
{
    if 0 <= k < op_order().len() {
        if find_token(s, op_token(op_order()[k]), true) is None {
            lemma_find_op_from(s, k + 1);
        }
    }
}

/// `s` with one layer of matching single or double quotes removed.
pub open spec fn unquote(s: Seq<char>) -> Seq<char> {
    if s.len() >= 2 && ((s[0] == '\'' && s[s.len() - 1] == '\'') || (s[0] == '"' && s[s.len()
        - 1] == '"')) {
        s.subrange(1, s.len() - 1)
    } else {
        s
    }
}

/// `s` with one layer of matching single or double quotes removed.
pub fn unquote_vec(s: &Vec<char>) -> (r: Vec<char>)
    ensures
        r@ == unquote(s@),
{
    let n = s.len();
    if n >= 2 && ((s[0] == '\'' && s[n - 1] == '\'') || (s[0] == '"' && s[n - 1] == '"')) {
        sub_chars(s, 1, n - 1)
    } else {
        clone_chars(s)
    }
}

/// Comma-separated items, each trimmed and unquoted, the empty ones dropped.
pub open spec fn clean_items(parts: Seq<Seq<char>>) -> Seq<Seq<char>>
    decreases parts.len(),
{
    if parts.len() == 0 {
        Seq::empty()
    } else {
        let x = unquote(trim_spec(parts[0]));
        let rest = clean_items(parts.drop_first());
        if x.len() == 0 {
            rest
        } else {
            seq![x] + rest
        }
    }
}

/// The items of an `IN`/`NOT IN` literal list: the text must be wrapped in
/// parentheses, the items are comma-separated, trimmed and unquoted, empty
/// items are dropped, and an empty or unwrapped list is malformed.
pub open spec fn parse_list(rhs: Seq<char>) -> Option<Seq<Seq<char>>> {
    let t = trim_spec(rhs);
    if t.len() >= 2 && t[0] == '(' && t[t.len() - 1] == ')' {
        let items = clean_items(split_kw(t.subrange(1, t.len() - 1), seq![','], false));
        if items.len() == 0 {
            None
        } else {
            Some(items)
        }
    } else {
        None
    }
}

/// The patterns of a `MATCH` literal: either a bracketed comma-separated
/// list, or one quoted pattern.
pub open spec fn match_patterns(rhs: Seq<char>) -> Seq<Seq<char>> {
    let t = trim_spec(rhs);
    if t.len() >= 2 && t[0] == '[' && t[t.len() - 1] == ']' {
        clean_items(split_kw(t.subrange(1, t.len() - 1), seq![','], false))
    } else {
        seq![unquote(t)]
    }
}

/// Case-insensitive substring test, by case folding both sides.
pub open spec fn has_sub_ci(v: Seq<char>, n: Seq<char>) -> bool {
    has_token(lower_of(v), lower_of(n), false)
}

/// Case-insensitive prefix test.
pub open spec fn starts_ci(v: Seq<char>, n: Seq<char>) -> bool {
    token_at(lower_of(v), lower_of(n), 0, false)
}

/// Case-insensitive suffix test.
pub open spec fn ends_ci(v: Seq<char>, n: Seq<char>) -> bool {
    &&& lower_of(n).len() <= lower_of(v).len()
    &&& token_at(lower_of(v), lower_of(n), lower_of(v).len() - lower_of(n).len(), false)
}

/// What one operator says of a resolved field value `v` and the literal text
/// `rhs` to its right.
pub open spec fn eval_op(op: CmpOp, v: Seq<char>, rhs: Seq<char>) -> bool {
    match op {
        CmpOp::NotIn => match parse_list(rhs) {
            Some(items) => !items.contains(v),
            None => false,
        },
        CmpOp::In => match parse_list(rhs) {
            Some(items) => items.contains(v),
            None => false,
        },
        CmpOp::NotContains => !has_sub_ci(v, unquote(rhs)),
        CmpOp::Contains => has_sub_ci(v, unquote(rhs)),
        CmpOp::NeqBang => v != unquote(rhs),
        CmpOp::NeqSql => v != unquote(rhs),
        CmpOp::Eq => v == unquote(rhs),
        CmpOp::NotStartsWith => !starts_ci(v, unquote(rhs)),
        CmpOp::StartsWith => starts_ci(v, unquote(rhs)),
        CmpOp::NotEndsWith => !ends_ci(v, unquote(rhs)),
        CmpOp::EndsWith => ends_ci(v, unquote(rhs)),
        CmpOp::Match => exists|k: int|
            0 <= k < match_patterns(rhs).len() && glob(
                lower_of(v),
                lower_of(#[trigger] match_patterns(rhs)[k]),
            ),
    }
}

/// One predicate: a field, an operator, a literal.  An absent field makes
/// every predicate false.
pub open spec fn eval_pred(e: Jv, op: CmpOp, field: Seq<char>, rhs: Seq<char>) -> bool {
    match field_value(e, field) {
        None => false,
        Some(v) => eval_op(op, v, rhs),
    }
}

/// An atomic predicate: found by the first operator of the priority order
/// that occurs in the text; a text with no operator is false.
pub open spec fn eval_atomic(e: Jv, s0: Seq<char>) -> bool {
    let s = trim_spec(s0);
    match find_op(s) {
        None => false,
        Some(oi) => eval_pred(
            e,
            oi.0,
            trim_spec(s.take(oi.1)),
            trim_spec(s.skip(oi.1 + op_token(oi.0).len())),
        ),
    }
}

fn op_token_vec(op: CmpOp) -> (r: Vec<char>)
    ensures
        r@ == op_token(op),
{
    let r: Vec<char> = match op {
        CmpOp::NotIn => vec![' ', 'N', 'O', 'T', ' ', 'I', 'N', ' '],
        CmpOp::In => vec![' ', 'I', 'N', ' '],
        CmpOp::NotContains => vec![
            ' ', 'N', 'O', 'T', ' ', 'C', 'O', 'N', 'T', 'A', 'I', 'N', 'S', ' ',
        ],
        CmpOp::Contains => vec![' ', 'C', 'O', 'N', 'T', 'A', 'I', 'N', 'S', ' '],
        CmpOp::NeqBang => vec!['!', '='],
        CmpOp::NeqSql => vec!['<', '>'],
        CmpOp::Eq => vec!['='],
        CmpOp::NotStartsWith => vec![
            ' ', 'N', 'O', 'T', ' ', 'S', 'T', 'A', 'R', 'T', 'S', 'W', 'I', 'T', 'H', ' ',
        ],
        CmpOp::StartsWith => vec![' ', 'S', 'T', 'A', 'R', 'T', 'S', 'W', 'I', 'T', 'H', ' '],
        CmpOp::NotEndsWith => vec![
            ' ', 'N', 'O', 'T', ' ', 'E', 'N', 'D', 'S', 'W', 'I', 'T', 'H', ' ',
        ],
        CmpOp::EndsWith => vec![' ', 'E', 'N', 'D', 'S', 'W', 'I', 'T', 'H', ' '],
        CmpOp::Match => vec![' ', 'M', 'A', 'T', 'C', 'H', ' '],
    };
    proof {
        assert(r@ =~= op_token(op));
    }
    r
}

fn op_order_vec() -> (r: Vec<CmpOp>)
    ensures
        r@ == op_order(),
{
    let r: Vec<CmpOp> = vec![
        CmpOp::NotIn,
        CmpOp::In,
        CmpOp::NotContains,
        CmpOp::Contains,
        CmpOp::NeqBang,
        CmpOp::NeqSql,
        CmpOp::Eq,
        CmpOp::NotStartsWith,
        CmpOp::StartsWith,
        CmpOp::NotEndsWith,
        CmpOp::EndsWith,
        CmpOp::Match,
    ];
    proof {
        assert(r@ =~= op_order());
    }
    r
}

#[verifier::loop_isolation(false)]
fn find_op_vec(s: &Vec<char>) -> (r: Option<(CmpOp, usize)>)
    ensures
        match r {
            Some(oi) => find_op(s@) == Some((oi.0, oi.1 as int)),
            None => find_op(s@) is None,
        },
{
    let ops = op_order_vec();
    let mut k: usize = 0;
    while k < ops.len()
        invariant
            0 <= k <= ops@.len(),
            find_op(s@) == find_op_from(s@, k as int),
        decreases ops@.len() - k,
    {
        let tok = op_token_vec(ops[k]);
        match find_token_vec(s, &tok, true) {
            Some(i) => {
                return Some((ops[k], i));
            },
            None => {},
        }
        k += 1;
    }
    None
}

#[verifier::loop_isolation(false)]
fn clean_items_vec(parts: &Vec<Vec<char>>, k: usize) -> (r: Vec<Vec<char>>)
    requires
        k <= parts@.len(),
    ensures
        r@.map_values(|q: Vec<char>| q@) == clean_items(
            parts@.map_values(|q: Vec<char>| q@).skip(k as int),
        ),
    decreases parts@.len() - k,
{
    let ghost all = parts@.map_values(|q: Vec<char>| q@);
    if k == parts.len() {
        let r: Vec<Vec<char>> = Vec::new();
        proof {
            assert(all.skip(k as int) =~= Seq::<Seq<char>>::empty());
            assert(r@.map_values(|q: Vec<char>| q@) =~= clean_items(all.skip(k as int)));
        }
        return r;
    }
    proof {
        assert(all.skip(k as int)[0] == all[k as int]);
        assert(all.skip(k as int).drop_first() =~= all.skip(k + 1));
    }
    let t = trim_chars(&parts[k]);
    let x = unquote_vec(&t);
    let mut rest = clean_items_vec(parts, k + 1);
    if x.len() == 0 {
        rest
    } else {
        let mut out: Vec<Vec<char>> = Vec::new();
        out.push(x);
        out.append(&mut rest);
        proof {
            assert(out@.map_values(|q: Vec<char>| q@) =~= clean_items(all.skip(k as int)));
        }
        out
    }
}

/// The items of an `IN`/`NOT IN` literal list, or `None` where the list is
/// malformed.
pub fn parse_in_list(list_str: &str) -> (r: Option<Vec<String>>)
    ensures
        match r {
            Some(items) => parse_list(list_str@) == Some(
                items@.map_values(|q: String| q@),
            ),
            None => parse_list(list_str@) is None,
        },
{
    let rhs = chars_of(list_str);
    match parse_list_vec(&rhs) {
        None => None,
        Some(items) => {
            let mut out: Vec<String> = Vec::new();
            let mut i: usize = 0;
            while i < items.len()
                invariant
                    0 <= i <= items@.len(),
                    out@.len() == i,
                    forall|m: int| 0 <= m < i ==> (#[trigger] out@[m])@ == items@[m]@,
                decreases items@.len() - i,
            {
                out.push(string_from_chars(&items[i]));
                i += 1;
            }
            proof {
                assert(out@.map_values(|q: String| q@) =~= items@.map_values(
                    |q: Vec<char>| q@,
                ));
            }
            Some(out)
        },
    }
}

#[verifier::loop_isolation(false)]
fn parse_list_vec(rhs: &Vec<char>) -> (r: Option<Vec<Vec<char>>>)
    ensures
        match r {
            Some(items) => parse_list(rhs@) == Some(items@.map_values(|q: Vec<char>| q@)),
            None => parse_list(rhs@) is None,
        },
{
    let t = trim_chars(rhs);
    let n = t.len();
    if n >= 2 && t[0] == '(' && t[n - 1] == ')' {
        let inner = sub_chars(&t, 1, n - 1);
        let mut comma: Vec<char> = Vec::new();
        comma.push(',');
        proof {
            assert(comma@ =~= seq![',']);
        }
        let parts = split_kw_vec(&inner, &comma, false);
        proof {
            assert(parts@.map_values(|q: Vec<char>| q@) =~= split_kw(inner@, seq![','], false));
            assert(parts@.map_values(|q: Vec<char>| q@).skip(0) =~= parts@.map_values(
                |q: Vec<char>| q@,
            ));
        }
        let items = clean_items_vec(&parts, 0);
        if items.len() == 0 {
            None
        } else {
            Some(items)
        }
    } else {
        None
    }
}

#[verifier::loop_isolation(false)]
fn match_patterns_vec(rhs: &Vec<char>) -> (r: Vec<Vec<char>>)
    ensures
        r@.map_values(|q: Vec<char>| q@) == match_patterns(rhs@),
{
    let t = trim_chars(rhs);
    let n = t.len();
    if n >= 2 && t[0] == '[' && t[n - 1] == ']' {
        let inner = sub_chars(&t, 1, n - 1);
        let mut comma: Vec<char> = Vec::new();
        comma.push(',');
        proof {
            assert(comma@ =~= seq![',']);
        }
        let parts = split_kw_vec(&inner, &comma, false);
        proof {
            assert(parts@.map_values(|q: Vec<char>| q@) =~= split_kw(inner@, seq![','], false));
            assert(parts@.map_values(|q: Vec<char>| q@).skip(0) =~= parts@.map_values(
                |q: Vec<char>| q@,
            ));
        }
        clean_items_vec(&parts, 0)
    } else {
        let mut out: Vec<Vec<char>> = Vec::new();
        out.push(unquote_vec(&t));
        proof {
            assert(out@.map_values(|q: Vec<char>| q@) =~= match_patterns(rhs@));
        }
        out
    }
}

#[verifier::loop_isolation(false)]
fn contains_item(items: &Vec<Vec<char>>, v: &Vec<char>) -> (r: bool)
    ensures
        r == items@.map_values(|q: Vec<char>| q@).contains(v@),
{
    let ghost all = items@.map_values(|q: Vec<char>| q@);
    let mut i: usize = 0;
    while i < items.len()
        invariant
            0 <= i <= items@.len(),
            forall|m: int| 0 <= m < i ==> all[m] != v@,
        decreases items@.len() - i,
    {
        if chars_eq(&items[i], v) {
            proof {
                assert(all[i as int] == v@);
            }
            return true;
        }
        i += 1;
    }
    false
}

#[verifier::loop_isolation(false)]
fn eval_op_vec(op: CmpOp, v: &Vec<char>, rhs: &Vec<char>) -> (r: bool)
    ensures
        r == eval_op(op, v@, rhs@),
{
    match op {
        CmpOp::NotIn => match parse_list_vec(rhs) {
            Some(items) => !contains_item(&items, v),
            None => false,
        },
        CmpOp::In => match parse_list_vec(rhs) {
            Some(items) => contains_item(&items, v),
            None => false,
        },
        CmpOp::NotContains => {
            let lv = lower_chars(v);
            let uq = unquote_vec(rhs);
            let ln = lower_chars(&uq);
            find_token_vec(&lv, &ln, false).is_none()
        },
        CmpOp::Contains => {
            let lv = lower_chars(v);
            let uq = unquote_vec(rhs);
            let ln = lower_chars(&uq);
            find_token_vec(&lv, &ln, false).is_some()
        },
        CmpOp::NeqBang => {
            let uq = unquote_vec(rhs);
            !chars_eq(v, &uq)
        },
        CmpOp::NeqSql => {
            let uq = unquote_vec(rhs);
            !chars_eq(v, &uq)
        },
        CmpOp::Eq => {
            let uq = unquote_vec(rhs);
            chars_eq(v, &uq)
        },
        CmpOp::NotStartsWith => {
            let lv = lower_chars(v);
            let uq = unquote_vec(rhs);
            let ln = lower_chars(&uq);
            !prefix_at(&lv, &ln)
        },
        CmpOp::StartsWith => {
            let lv = lower_chars(v);
            let uq = unquote_vec(rhs);
            let ln = lower_chars(&uq);
            prefix_at(&lv, &ln)
        },
        CmpOp::NotEndsWith => {
            let lv = lower_chars(v);
            let uq = unquote_vec(rhs);
            let ln = lower_chars(&uq);
            !suffix_at(&lv, &ln)
        },
        CmpOp::EndsWith => {
            let lv = lower_chars(v);
            let uq = unquote_vec(rhs);
            let ln = lower_chars(&uq);
            suffix_at(&lv, &ln)
        },
        CmpOp::Match => {
            let pats = match_patterns_vec(rhs);
            let lv = lower_chars(v);
            let ghost all = pats@.map_values(|q: Vec<char>| q@);
            let mut k: usize = 0;
            while k < pats.len()
                invariant
                    0 <= k <= pats@.len(),
                    lv@ == lower_of(v@),
                    all == match_patterns(rhs@),
                    forall|m: int| 0 <= m < k ==> !glob(lower_of(v@), lower_of(#[trigger] all[m])),
                decreases pats@.len() - k,
            {
                let lp = lower_chars(&pats[k]);
                if glob_vec(&lv, &lp) {
                    proof {
                        assert(glob(lower_of(v@), lower_of(all[k as int])));
                    }
                    return true;
                }
                k += 1;
            }
            false
        },
    }
}

/// The pattern `n` stands at the front of `v`.
pub(crate) fn prefix_at(v: &Vec<char>, n: &Vec<char>) -> (r: bool)
    ensures
        r == token_at(v@, n@, 0, false),
{
    if n.len() > v.len() {
        return false;
    }
    let mut k: usize = 0;
    let ghost vn = v@.len();
    while k < n.len()
        invariant
            0 <= k <= n@.len(),
            n@.len() <= v@.len(),
            vn == v@.len(),
            forall|m: int| 0 <= m < k ==> #[trigger] char_match(v@[0 + m], n@[m], false),
        decreases n@.len() - k,
    {
        if v[k] != n[k] {
            proof {
                if token_at(v@, n@, 0, false) {
                    assert(char_match(v@[0 + k as int], n@[k as int], false));
                }
            }
            return false;
        }
        k += 1;
    }
    true
}

/// The pattern `n` stands at the end of `v`.
fn suffix_at(v: &Vec<char>, n: &Vec<char>) -> (r: bool)
    ensures
        r == (n@.len() <= v@.len() && token_at(v@, n@, v@.len() - n@.len(), false)),
{
    if n.len() > v.len() {
        return false;
    }
    let vn = v.len();
    let off = vn - n.len();
    let mut k: usize = 0;
    while k < n.len()
        invariant
            0 <= k <= n@.len(),
            n@.len() <= v@.len(),
            vn == v@.len(),
            off == v@.len() - n@.len(),
            forall|m: int| 0 <= m < k ==> #[trigger] char_match(v@[off + m], n@[m], false),
        decreases n@.len() - k,
    {
        if v[off + k] != n[k] {
            proof {
                if token_at(v@, n@, off as int, false) {
                    assert(char_match(v@[off + k as int], n@[k as int], false));
                }
            }
            return false;
        }
        k += 1;
    }
    true
}

#[verifier::loop_isolation(false)]
fn eval_atomic_vec(event: &JsonValue, s0: &Vec<char>) -> (r: bool)
    ensures
        r == eval_atomic(jv(*event), s0@),
{
    let s = trim_chars(s0);
    match find_op_vec(&s) {
        None => false,
        Some(oi) => {
            let (op, i) = oi;
            proof {
                lemma_find_op_from(s@, 0);
                lemma_find_token_from(s@, op_token(op), 0, true);
            }
            let tok = op_token_vec(op);
            let sn = s.len();
            let head = sub_chars(&s, 0, i);
            let field = trim_chars(&head);
            let tail = sub_chars(&s, i + tok.len(), sn);
            let rhs = trim_chars(&tail);
            proof {
                assert(head@ =~= s@.take(i as int));
                assert(tail@ =~= s@.skip(i + op_token(op).len()));
            }
            match field_value_vec(event, &field) {
                None => false,
                Some(val) => eval_op_vec(op, &val, &rhs),
            }
        },
    }
}

/// The `AND` connective, space-delimited.
pub open spec fn kw_and() -> Seq<char> {
    seq![' ', 'A', 'N', 'D', ' ']
}

/// The `OR` connective, space-delimited.
pub open spec fn kw_or() -> Seq<char> {
    seq![' ', 'O', 'R', ' ']
}

/// The token that marks a literal list: an `IN` keyword followed by an
/// opening parenthesis.
pub open spec fn kw_in_paren() -> Seq<char> {
    seq![' ', 'I', 'N', ' ', '(']
}

/// The text substituted for an evaluated group.
pub open spec fn bool_chars(b: bool) -> Seq<char> {
    if b {
        true_chars()
    } else {
        false_chars()
    }
}

/// A leaf of the connective structure: the text `true` or `false` left by an
/// evaluated group, or an atomic predicate.
pub open spec fn eval_leaf(e: Jv, s0: Seq<char>) -> bool {
    let s = trim_spec(s0);
    if s == true_chars() {
        true
    } else if s == false_chars() {
        false
    } else {
        eval_atomic(e, s)
    }
}

/// An `AND` chain: every branch must hold.
pub open spec fn eval_and(e: Jv, part: Seq<char>) -> bool {
    let ps = split_kw(part, kw_and(), true);
    forall|i: int| 0 <= i < ps.len() ==> eval_leaf(e, #[trigger] ps[i])
}

/// An `OR` chain over `AND` chains: some branch must hold.
pub open spec fn eval_or_parts(e: Jv, s: Seq<char>) -> bool {
    let ps = split_kw(s, kw_or(), true);
    exists|i: int| 0 <= i < ps.len() && eval_and(e, #[trigger] ps[i])
}

/// How many parenthesis characters `s` holds.
pub open spec fn paren_count(s: Seq<char>) -> nat {
    count_ch(s, '(') + count_ch(s, ')')
}

proof fn lemma_count_single(x: char, c: char)
    ensures
        count_ch(seq![x], c) == if x == c {
            1nat
        } else {
            0nat
        },
{
    assert(seq![x].drop_last() =~= Seq::<char>::empty());
    assert(count_ch(Seq::<char>::empty(), c) == 0);
    assert(seq![x].last() == x);
}

proof fn lemma_pc_bool(b: bool)
    ensures
        paren_count(bool_chars(b)) == 0,
{
    lemma_count_ch_absent(bool_chars(b), '(');
    lemma_count_ch_absent(bool_chars(b), ')');
}

/// Replacing a parenthesized group, parentheses included, by text free of
/// parentheses brings the parenthesis count down; so does taking the
/// group's inside alone.
proof fn lemma_paren_split(s: Seq<char>, open: int, close: int, mid: Seq<char>)
    requires
        0 <= open < close < s.len(),
        s[open] == '(',
        s[close] == ')',
        paren_count(mid) == 0,
    ensures
        paren_count(s.subrange(open + 1, close)) < paren_count(s),
        paren_count(s.take(open) + mid + s.skip(close + 1)) < paren_count(s),
{
    let a = s.take(open);
    let po = seq![s[open]];
    let inner = s.subrange(open + 1, close);
    let pcl = seq![s[close]];
    let z = s.skip(close + 1);
    assert(s =~= a + po + inner + pcl + z);
    lemma_count_ch_add(a, po, '(');
    lemma_count_ch_add(a + po, inner, '(');
    lemma_count_ch_add(a + po + inner, pcl, '(');
    lemma_count_ch_add(a + po + inner + pcl, z, '(');
    lemma_count_ch_add(a, po, ')');
    lemma_count_ch_add(a + po, inner, ')');
    lemma_count_ch_add(a + po + inner, pcl, ')');
    lemma_count_ch_add(a + po + inner + pcl, z, ')');
    lemma_count_single(s[open], '(');
    lemma_count_single(s[open], ')');
    lemma_count_single(s[close], '(');
    lemma_count_single(s[close], ')');
    lemma_count_ch_add(a, mid, '(');
    lemma_count_ch_add(a + mid, z, '(');
    lemma_count_ch_add(a, mid, ')');
    lemma_count_ch_add(a + mid, z, ')');
}

/// The whole condition language.
///
/// A condition holding an `IN (` token is one atomic predicate.  Otherwise
/// the innermost parenthesized group is evaluated recursively and replaced
/// by the literal text `true` or `false`, until no group remains; the
/// parenthesis-free text is an `OR` chain of `AND` chains of leaves.
pub open spec fn eval_condition(e: Jv, s: Seq<char>) -> bool
    decreases paren_count(s),
    via eval_condition_decreases
{
    if has_token(s, kw_in_paren(), true) {
        eval_atomic(e, s)
    } else {
        match find_token(s, seq![')'], false) {
            Some(close) => match rfind_before(s, '(', close) {
                Some(open) => {
                    let inner = s.subrange(open + 1, close);
                    let b = eval_condition(e, inner);
                    eval_condition(e, s.take(open) + bool_chars(b) + s.skip(close + 1))
                },
                None => eval_or_parts(e, s),
            },
            None => eval_or_parts(e, s),
        }
    }
}

#[via_fn]
proof fn eval_condition_decreases(e: Jv, s: Seq<char>) {
    if !has_token(s, kw_in_paren(), true) {
        match find_token(s, seq![')'], false) {
            Some(close) => {
                lemma_find_token_from(s, seq![')'], 0, false);
                assert(char_match(s[close + 0], seq![')'][0], false));
                match rfind_before(s, '(', close) {
                    Some(open) => {
                        lemma_rfind_before(s, '(', close);
                        lemma_pc_bool(true);
                        lemma_pc_bool(false);
                        lemma_paren_split(s, open, close, bool_chars(true));
                        lemma_paren_split(s, open, close, bool_chars(false));
                    },
                    None => {},
                }
            },
            None => {},
        }
    }
}

fn bool_chars_vec(b: bool) -> (r: Vec<char>)
    ensures
        r@ == bool_chars(b),
{
    let r: Vec<char> = if b {
        vec!['t', 'r', 'u', 'e']
    } else {
        vec!['f', 'a', 'l', 's', 'e']
    };
    proof {
        if b {
            assert(r@ =~= true_chars());
        } else {
            assert(r@ =~= false_chars());
        }
    }
    r
}

fn kw_and_vec() -> (r: Vec<char>)
    ensures
        r@ == kw_and(),
{
    let r: Vec<char> = vec![' ', 'A', 'N', 'D', ' '];
    proof {
        assert(r@ =~= kw_and());
    }
    r
}

fn kw_or_vec() -> (r: Vec<char>)
    ensures
        r@ == kw_or(),
{
    let r: Vec<char> = vec![' ', 'O', 'R', ' '];
    proof {
        assert(r@ =~= kw_or());
    }
    r
}

fn kw_in_paren_vec() -> (r: Vec<char>)
    ensures
        r@ == kw_in_paren(),
{
    let r: Vec<char> = vec![' ', 'I', 'N', ' ', '('];
    proof {
        assert(r@ =~= kw_in_paren());
    }
    r
}

#[verifier::loop_isolation(false)]
fn eval_leaf_vec(event: &JsonValue, s0: &Vec<char>) -> (r: bool)
    ensures
        r == eval_leaf(jv(*event), s0@),
{
    let s = trim_chars(s0);
    let tv = bool_chars_vec(true);
    let fv = bool_chars_vec(false);
    if chars_eq(&s, &tv) {
        true
    } else if chars_eq(&s, &fv) {
        false
    } else {
        eval_atomic_vec(event, &s)
    }
}

#[verifier::loop_isolation(false)]
fn eval_and_vec(event: &JsonValue, part: &Vec<char>) -> (r: bool)
    ensures
        r == eval_and(jv(*event), part@),
{
    let kw = kw_and_vec();
    let parts = split_kw_vec(part, &kw, true);
    let ghost ps = split_kw(part@, kw_and(), true);
    let mut i: usize = 0;
    while i < parts.len()
        invariant
            0 <= i <= parts@.len(),
            forall|m: int| 0 <= m < i ==> eval_leaf(jv(*event), #[trigger] ps[m]),
        decreases parts@.len() - i,
    {
        if !eval_leaf_vec(event, &parts[i]) {
            proof {
                assert(parts@[i as int]@ == ps[i as int]);
            }
            return false;
        }
        i += 1;
    }
    true
}

#[verifier::loop_isolation(false)]
fn eval_or_vec(event: &JsonValue, s: &Vec<char>) -> (r: bool)
    ensures
        r == eval_or_parts(jv(*event), s@),
{
    let kw = kw_or_vec();
    let parts = split_kw_vec(s, &kw, true);
    let ghost ps = split_kw(s@, kw_or(), true);
    let mut i: usize = 0;
    while i < parts.len()
        invariant
            0 <= i <= parts@.len(),
            forall|m: int| 0 <= m < i ==> !eval_and(jv(*event), #[trigger] ps[m]),
        decreases parts@.len() - i,
    {
        if eval_and_vec(event, &parts[i]) {
            proof {
                assert(eval_and(jv(*event), ps[i as int]));
            }
            return true;
        }
        i += 1;
    }
    false
}

#[verifier::loop_isolation(false)]
fn eval_condition_vec(event: &JsonValue, s: &Vec<char>) -> (r: bool)
    ensures
        r == eval_condition(jv(*event), s@),
    decreases paren_count(s@),
{
    let inkw = kw_in_paren_vec();
    if find_token_vec(s, &inkw, true).is_some() {
        return eval_atomic_vec(event, s);
    }
    let mut closekw: Vec<char> = Vec::new();
    closekw.push(')');
    proof {
        assert(closekw@ =~= seq![')']);
    }
    match find_token_vec(s, &closekw, false) {
        None => eval_or_vec(event, s),
        Some(close) => {
            proof {
                lemma_find_token_from(s@, seq![')'], 0, false);
                assert(char_match(s@[close + 0], seq![')'][0], false));
            }
            match rfind_before_vec(s, '(', close) {
                None => eval_or_vec(event, s),
                Some(open) => {
                    proof {
                        lemma_rfind_before(s@, '(', close as int);
                        lemma_pc_bool(true);
                        lemma_pc_bool(false);
                        lemma_paren_split(s@, open as int, close as int, bool_chars(true));
                        lemma_paren_split(s@, open as int, close as int, bool_chars(false));
                    }
                    let sn = s.len();
                    let inner = sub_chars(s, open + 1, close);
                    let b = eval_condition_vec(event, &inner);
                    let mut replaced = sub_chars(s, 0, open);
                    let mut midv = bool_chars_vec(b);
                    replaced.append(&mut midv);
                    let mut tailv = sub_chars(s, close + 1, sn);
                    replaced.append(&mut tailv);
                    proof {
                        assert(replaced@ =~= s@.take(open as int) + bool_chars(b) + s@.skip(
                            close + 1,
                        ));
                    }
                    eval_condition_vec(event, &replaced)
                },
            }
        },
    }
}

/// Whether the event satisfies the condition.
///
/// The result is a pure function of the event's view and the condition text:
/// evaluating twice with the same inputs yields the same boolean.
pub fn matches_condition(event: &JsonValue, condition: &str) -> (r: bool)
    ensures
        r == eval_condition(jv(*event), condition@),
{
    let c = chars_of(condition);
    eval_condition_vec(event, &c)
}

/// A connective keyword padded with single spaces, as the splitter finds it.
pub open spec fn padded_kw(kw: Seq<char>) -> Seq<char> {
    seq![' '] + kw + seq![' ']
}

/// `condition` split at every space-delimited occurrence of `keyword`,
/// case-insensitively.
pub fn split_by_keyword(condition: &str, keyword: &str) -> (r: Vec<String>)
    ensures
        r@.map_values(|q: String| q@) == split_kw(condition@, padded_kw(keyword@), true),
{
    let c = chars_of(condition);
    let mut kw: Vec<char> = Vec::new();
    kw.push(' ');
    let mut kc = chars_of(keyword);
    kw.append(&mut kc);
    kw.push(' ');
    proof {
        assert(kw@ =~= padded_kw(keyword@));
    }
    let parts = split_kw_vec(&c, &kw, true);
    let mut out: Vec<String> = Vec::new();
    let mut i: usize = 0;
    while i < parts.len()
        invariant
            0 <= i <= parts@.len(),
            out@.len() == i,
            forall|m: int| 0 <= m < i ==> (#[trigger] out@[m])@ == parts@[m]@,
        decreases parts@.len() - i,
    {
        out.push(string_from_chars(&parts[i]));
        i += 1;
    }
    proof {
        assert(out@.map_values(|q: String| q@) =~= split_kw(
            condition@,
            padded_kw(keyword@),
            true,
        ));
    }
    out
}

/// Precedence: a condition without parentheses to reduce and without an
/// `IN (` token is an `OR` chain of `AND` chains — `OR` binds weakest,
/// `AND` next, so `a OR b AND c` is `a OR (b AND c)`.
pub proof fn lemma_precedence(e: Jv, s: Seq<char>)
    requires
        !has_token(s, kw_in_paren(), true),
        find_token(s, seq![')'], false) is None || rfind_before(
            s,
            '(',
            find_token(s, seq![')'], false)->0,
        ) is None,
    ensures
        eval_condition(e, s) == eval_or_parts(e, s),
{
}

/// Grouping: where a parenthesized group can be reduced, the innermost one
/// is evaluated first and replaced by its boolean before the rest of the
/// condition is considered.
pub proof fn lemma_grouping(e: Jv, s: Seq<char>)
    requires
        !has_token(s, kw_in_paren(), true),
        find_token(s, seq![')'], false) is Some,
        rfind_before(s, '(', find_token(s, seq![')'], false)->0) is Some,
    ensures
        ({
            let close = find_token(s, seq![')'], false)->0;
            let open = rfind_before(s, '(', close)->0;
            let b = eval_condition(e, s.subrange(open + 1, close));
            eval_condition(e, s) == eval_condition(
                e,
                s.take(open) + bool_chars(b) + s.skip(close + 1),
            )
        }),
{
}

/// The evaluator is deterministic and side-effect-free: one boolean for one
/// `(event, condition)` pair, however often it is computed.
pub proof fn lemma_evaluator_deterministic(e: Jv, cond: Seq<char>, r1: bool, r2: bool)
    requires
        r1 == eval_condition(e, cond),
        r2 == eval_condition(e, cond),
    ensures
        r1 == r2,
{
}

/// The absent-field policy holds uniformly: whatever the operator and
/// whatever literal stands to its right, a predicate whose field path does
/// not resolve on the event is false.
pub proof fn lemma_absent_field_false(e: Jv, op: CmpOp, field: Seq<char>, rhs: Seq<char>)
    requires
        field_value(e, field) is None,
    ensures
        !eval_pred(e, op, field, rhs),
{
}

/// Lifted to whole atomic predicates: wherever the operator search puts the
/// split, an unresolved field makes the atomic predicate false.
pub proof fn lemma_absent_field_atomic_false(e: Jv, s: Seq<char>)
    requires
        match find_op(trim_spec(s)) {
            Some(oi) => field_value(e, trim_spec(trim_spec(s).take(oi.1))) is None,
            None => true,
        },
    ensures
        !eval_atomic(e, s),
{
}

} // verus!
