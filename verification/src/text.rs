//! Character-level text utilities shared by the condition evaluator, the
//! validator and the loader.  Conditions are handled as vectors of `char`,
//! modelled by `Seq<char>`.

use vstd::prelude::*;

verus! {

/// The whitespace characters that trimming removes.
pub open spec fn is_space_char(c: char) -> bool {
    c == ' ' || c == '\t' || c == '\r' || c == '\n'
}

/// ASCII case folding: the code point of `c`, with ASCII capitals mapped to
/// their lowercase forms.  Keywords and operators are ASCII, so this is all
/// that keyword matching needs.
pub open spec fn fold_u(c: char) -> u32 {
    if 'A' as u32 <= c as u32 && c as u32 <= 'Z' as u32 {
        (c as u32 + 32) as u32
    } else {
        c as u32
    }
}

/// ASCII-case-insensitive character equality.
pub open spec fn eq_ci_char(a: char, b: char) -> bool {
    fold_u(a) == fold_u(b)
}

/// Character comparison, case-insensitive when `ci` holds.
pub open spec fn char_match(a: char, b: char, ci: bool) -> bool {
    if ci {
        eq_ci_char(a, b)
    } else {
        a == b
    }
}

pub fn exec_is_space(c: char) -> (r: bool)
    ensures
        r == is_space_char(c),
{
    c == ' ' || c == '\t' || c == '\r' || c == '\n'
}

pub fn exec_char_match(a: char, b: char, ci: bool) -> (r: bool)
    ensures
        r == char_match(a, b, ci),
{
    if ci {
        let ua: u32 = if 'A' as u32 <= a as u32 && a as u32 <= 'Z' as u32 {
            a as u32 + 32
        } else {
            a as u32
        };
        let ub: u32 = if 'A' as u32 <= b as u32 && b as u32 <= 'Z' as u32 {
            b as u32 + 32
        } else {
            b as u32
        };
        ua == ub
    } else {
        a == b
    }
}

/// The keyword `kw` occurs in `s` at position `i`.
pub open spec fn token_at(s: Seq<char>, kw: Seq<char>, i: int, ci: bool) -> bool {
    &&& 0 <= i
    &&& i + kw.len() <= s.len()
    &&& forall|k: int| 0 <= k < kw.len() ==> #[trigger] char_match(s[i + k], kw[k], ci)
}

/// The first position at or after `i` where `kw` occurs in `s`.
pub open spec fn find_token_from(s: Seq<char>, kw: Seq<char>, i: int, ci: bool) -> Option<int>
    decreases s.len() - i,
{
    if i < 0 || i + kw.len() > s.len() {
        None
    } else if token_at(s, kw, i, ci) {
        Some(i)
    } else {
        find_token_from(s, kw, i + 1, ci)
    }
}

/// The first position where `kw` occurs in `s`.
pub open spec fn find_token(s: Seq<char>, kw: Seq<char>, ci: bool) -> Option<int> {
    find_token_from(s, kw, 0, ci)
}

/// `kw` occurs somewhere in `s`.
pub open spec fn has_token(s: Seq<char>, kw: Seq<char>, ci: bool) -> bool {
    find_token(s, kw, ci) is Some
}

/// What `find_token_from` returns: the first match position, within bounds,
/// with no earlier match.
pub proof fn lemma_find_token_from(s: Seq<char>, kw: Seq<char>, i: int, ci: bool)
    requires
        0 <= i,
    ensures
        match find_token_from(s, kw, i, ci) {
            Some(j) => {
                &&& i <= j
                &&& j + kw.len() <= s.len()
                &&& token_at(s, kw, j, ci)
                &&& forall|m: int| i <= m < j ==> !token_at(s, kw, m, ci)
            },
            None => forall|m: int| i <= m ==> !token_at(s, kw, m, ci),
        },
    decreases s.len() - i,
{
    if i + kw.len() > s.len() {
        assert forall|m: int| i <= m implies !token_at(s, kw, m, ci) by {}
    } else if token_at(s, kw, i, ci) {
    } else {
        lemma_find_token_from(s, kw, i + 1, ci);
    }
}

pub fn token_at_exec(s: &Vec<char>, kw: &Vec<char>, i: usize, ci: bool) -> (r: bool)
    requires
        i + kw@.len() <= s@.len(),
    ensures
        r == token_at(s@, kw@, i as int, ci),
{
    let n = s.len();
    let mut k: usize = 0;
    while k < kw.len()
        invariant
            0 <= k <= kw@.len(),
            i + kw@.len() <= s@.len(),
            n == s@.len(),
            forall|m: int| 0 <= m < k ==> #[trigger] char_match(s@[i + m], kw@[m], ci),
        decreases kw@.len() - k,
    {
        if !exec_char_match(s[i + k], kw[k], ci) {
            return false;
        }
        k += 1;
    }
    true
}

/// The first position where `kw` occurs in `s`, or `None`.
pub fn find_token_vec(s: &Vec<char>, kw: &Vec<char>, ci: bool) -> (r: Option<usize>)
    ensures
        match r {
            Some(j) => find_token(s@, kw@, ci) == Some(j as int),
            None => find_token(s@, kw@, ci) is None,
        },
{
    if kw.len() > s.len() {
        return None;
    }
    let mut i: usize = 0;
    while i <= s.len() - kw.len()
        invariant
            0 <= i <= s@.len(),
            kw@.len() <= s@.len(),
            find_token(s@, kw@, ci) == find_token_from(s@, kw@, i as int, ci),
        decreases s@.len() - i,
    {
        if token_at_exec(s, kw, i, ci) {
            return Some(i);
        }
        i += 1;
    }
    None
}

/// Copy of `s[a..b]`.
pub fn sub_chars(s: &Vec<char>, a: usize, b: usize) -> (r: Vec<char>)
    requires
        a <= b <= s@.len(),
    ensures
        r@ == s@.subrange(a as int, b as int),
{
    let mut r: Vec<char> = Vec::new();
    let mut i: usize = a;
    while i < b
        invariant
            a <= i <= b <= s@.len(),
            r@ == s@.subrange(a as int, i as int),
        decreases b - i,
    {
        r.push(s[i]);
        proof {
            assert(r@ =~= s@.subrange(a as int, i + 1 as int));
        }
        i += 1;
    }
    r
}

/// Copy of the whole of `s`.
pub fn clone_chars(s: &Vec<char>) -> (r: Vec<char>)
    ensures
        r@ == s@,
{
    let r = sub_chars(s, 0, s.len());
    proof {
        assert(s@.subrange(0, s@.len() as int) =~= s@);
    }
    r
}

/// Character-for-character equality.
pub fn chars_eq(a: &Vec<char>, b: &Vec<char>) -> (r: bool)
    ensures
        r == (a@ == b@),
{
    if a.len() != b.len() {
        return false;
    }
    let mut i: usize = 0;
    while i < a.len()
        invariant
            0 <= i <= a@.len(),
            a@.len() == b@.len(),
            forall|m: int| 0 <= m < i ==> a@[m] == b@[m],
        decreases a@.len() - i,
    {
        if a[i] != b[i] {
            return false;
        }
        i += 1;
    }
    proof {
        assert(a@ =~= b@);
    }
    true
}

/// ASCII-case-insensitive equality of two texts.
pub open spec fn ci_eq(a: Seq<char>, b: Seq<char>) -> bool {
    a.len() == b.len() && token_at(a, b, 0, true)
}

/// ASCII-case-insensitive equality of two texts.
pub fn eq_ci_vec(a: &Vec<char>, b: &Vec<char>) -> (r: bool)
    ensures
        r == ci_eq(a@, b@),
{
    if a.len() != b.len() {
        return false;
    }
    token_at_exec(a, b, 0, true)
}

/// `s` with leading whitespace removed.
pub open spec fn trim_front(s: Seq<char>) -> Seq<char>
    decreases s.len(),
{
    if s.len() > 0 && is_space_char(s[0]) {
        trim_front(s.skip(1))
    } else {
        s
    }
}

/// `s` with trailing whitespace removed.
pub open spec fn trim_back(s: Seq<char>) -> Seq<char>
    decreases s.len(),
{
    if s.len() > 0 && is_space_char(s[s.len() - 1]) {
        trim_back(s.take(s.len() - 1))
    } else {
        s
    }
}

/// `s` with whitespace removed from both ends.
pub open spec fn trim_spec(s: Seq<char>) -> Seq<char> {
    trim_back(trim_front(s))
}

/// Copy of `s` with whitespace removed from both ends.
pub fn trim_chars(s: &Vec<char>) -> (r: Vec<char>)
    ensures
        r@ == trim_spec(s@),
{
    proof {
        assert(s@.skip(0) =~= s@);
    }
    let mut a: usize = 0;
    while a < s.len() && exec_is_space(s[a])
        invariant
            0 <= a <= s@.len(),
            trim_front(s@) == trim_front(s@.skip(a as int)),
        decreases s@.len() - a,
    {
        proof {
            assert(s@.skip(a as int).skip(1) =~= s@.skip(a + 1));
        }
        a += 1;
    }
    proof {
        assert(trim_front(s@) == s@.skip(a as int));
        assert(s@.skip(a as int) =~= s@.subrange(a as int, s@.len() as int));
    }
    let mut b: usize = s.len();
    while b > a && exec_is_space(s[b - 1])
        invariant
            0 <= a <= b <= s@.len(),
            trim_back(s@.skip(a as int)) == trim_back(s@.subrange(a as int, b as int)),
        decreases b,
    {
        proof {
            let t = s@.subrange(a as int, b as int);
            assert(t[t.len() - 1] == s@[b - 1]);
            assert(t.take(t.len() - 1) =~= s@.subrange(a as int, b - 1));
        }
        b -= 1;
    }
    proof {
        assert(trim_back(s@.subrange(a as int, b as int)) == s@.subrange(a as int, b as int));
    }
    sub_chars(s, a, b)
}

/// How many times `c` occurs in `s`.
pub open spec fn count_ch(s: Seq<char>, c: char) -> nat
    decreases s.len(),
{
    if s.len() == 0 {
        0
    } else {
        count_ch(s.drop_last(), c) + if s.last() == c {
            1nat
        } else {
            0nat
        }
    }
}

pub proof fn lemma_count_ch_add(a: Seq<char>, b: Seq<char>, c: char)
    ensures
        count_ch(a + b, c) == count_ch(a, c) + count_ch(b, c),
    decreases b.len(),
{
    if b.len() == 0 {
        assert(a + b =~= a);
    } else {
        assert((a + b).drop_last() =~= a + b.drop_last());
        assert((a + b).last() == b.last());
        lemma_count_ch_add(a, b.drop_last(), c);
    }
}

pub proof fn lemma_count_ch_le(s: Seq<char>, c: char)
    ensures
        count_ch(s, c) <= s.len(),
    decreases s.len(),
{
    if s.len() > 0 {
        lemma_count_ch_le(s.drop_last(), c);
    }
}

pub proof fn lemma_count_ch_absent(s: Seq<char>, c: char)
    requires
        forall|i: int| 0 <= i < s.len() ==> s[i] != c,
    ensures
        count_ch(s, c) == 0,
    decreases s.len(),
{
    if s.len() > 0 {
        lemma_count_ch_absent(s.drop_last(), c);
    }
}

/// Number of occurrences of `c` in `s`, counted front to back.
pub fn count_ch_vec(s: &Vec<char>, c: char) -> (r: usize)
    ensures
        r == count_ch(s@, c),
{
    let mut cnt: usize = 0;
    let mut i: usize = 0;
    while i < s.len()
        invariant
            0 <= i <= s@.len(),
            cnt == count_ch(s@.take(i as int), c),
            cnt <= i,
        decreases s@.len() - i,
    {
        proof {
            let t = s@.take(i + 1);
            assert(t.drop_last() =~= s@.take(i as int));
            assert(t.last() == s@[i as int]);
        }
        if s[i] == c {
            cnt += 1;
        }
        i += 1;
    }
    proof {
        assert(s@.take(s@.len() as int) =~= s@);
    }
    cnt
}

/// `s` split at every occurrence of `kw`, the keyword itself removed.
pub open spec fn split_kw(s: Seq<char>, kw: Seq<char>, ci: bool) -> Seq<Seq<char>>
    decreases s.len(),
    when kw.len() >= 1
    via split_kw_decreases
{
    match find_token(s, kw, ci) {
        None => seq![s],
        Some(i) => seq![s.take(i)] + split_kw(s.skip(i + kw.len()), kw, ci),
    }
}

#[via_fn]
proof fn split_kw_decreases(s: Seq<char>, kw: Seq<char>, ci: bool) {
    lemma_find_token_from(s, kw, 0, ci);
}

/// `s` split at every occurrence of `kw`, the keyword itself removed.
pub fn split_kw_vec(s: &Vec<char>, kw: &Vec<char>, ci: bool) -> (r: Vec<Vec<char>>)
    requires
        kw@.len() >= 1,
    ensures
        r@.len() == split_kw(s@, kw@, ci).len(),
        forall|j: int| 0 <= j < r@.len() ==> #[trigger] r@[j]@ == split_kw(s@, kw@, ci)[j],
    decreases s@.len(),
{
    let n = s.len();
    match find_token_vec(s, kw, ci) {
        None => {
            let mut r: Vec<Vec<char>> = Vec::new();
            r.push(clone_chars(s));
            r
        },
        Some(i) => {
            proof {
                lemma_find_token_from(s@, kw@, 0, ci);
            }
            let head = sub_chars(s, 0, i);
            let rest = sub_chars(s, i + kw.len(), n);
            proof {
                assert(head@ =~= s@.take(i as int));
                assert(rest@ =~= s@.skip(i + kw@.len()));
            }
            let mut tail = split_kw_vec(&rest, kw, ci);
            let mut r: Vec<Vec<char>> = Vec::new();
            r.push(head);
            r.append(&mut tail);
            r
        },
    }
}

/// What `str::to_lowercase` returns: a function of the characters alone.
pub uninterp spec fn lower_of(s: Seq<char>) -> Seq<char>;

/// Relies on `str::chars`: yields the characters of `s` in order.
#[verifier::external_body]
pub fn chars_of(s: &str) -> (r: Vec<char>)
    ensures
        r@ == s@,
{
    s.chars().collect()
}

/// Relies on `String`'s `FromIterator<char>`: collects the characters in order.
#[verifier::external_body]
pub fn string_from_chars(v: &Vec<char>) -> (r: String)
    ensures
        r@ == v@,
{
    v.iter().collect()
}

/// Relies on `str::to_lowercase`: the result depends on the characters alone.
#[verifier::external_body]
pub fn lowercase(s: &str) -> (r: String)
    ensures
        r@ == lower_of(s@),
{
    s.to_lowercase()
}

/// Case folding on a character vector, through `lowercase`.
pub fn lower_chars(v: &Vec<char>) -> (r: Vec<char>)
    ensures
        r@ == lower_of(v@),
{
    let s = string_from_chars(v);
    let low = lowercase(s.as_str());
    chars_of(low.as_str())
}

/// The last position strictly before `n` where `c` occurs in `s`.
pub open spec fn rfind_before(s: Seq<char>, c: char, n: int) -> Option<int>
    decreases n,
{
    if n <= 0 || n > s.len() {
        None
    } else if s[n - 1] == c {
        Some(n - 1)
    } else {
        rfind_before(s, c, n - 1)
    }
}

/// What `rfind_before` returns: a position below `n` holding `c`.
pub proof fn lemma_rfind_before(s: Seq<char>, c: char, n: int)
    requires
        n <= s.len(),
    ensures
        match rfind_before(s, c, n) {
            Some(j) => 0 <= j < n && s[j] == c,
            None => true,
        },
    decreases n,
{
    if 0 < n <= s.len() && s[n - 1] != c {
        lemma_rfind_before(s, c, n - 1);
    }
}

/// The last position strictly before `n` where `c` occurs in `s`.
pub fn rfind_before_vec(s: &Vec<char>, c: char, n: usize) -> (r: Option<usize>)
    requires
        n <= s@.len(),
    ensures
        match r {
            Some(j) => rfind_before(s@, c, n as int) == Some(j as int),
            None => rfind_before(s@, c, n as int) is None,
        },
{
    let mut m: usize = n;
    while m > 0
        invariant
            0 <= m <= n <= s@.len(),
            rfind_before(s@, c, n as int) == rfind_before(s@, c, m as int),
        decreases m,
    {
        if s[m - 1] == c {
            return Some(m - 1);
        }
        m -= 1;
    }
    None
}

} // verus!
