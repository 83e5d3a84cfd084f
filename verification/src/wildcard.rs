//! Glob-style wildcard matching: `*` matches any run of characters, `?`
//! exactly one.  The matcher is the classic two-pointer backtracking scan:
//! on a mismatch it returns to just past the most recent star and advances
//! the text restart by one; a trailing run of stars consumes nothing.  The
//! `MATCH` operator applies it case-insensitively by folding both sides.

use vstd::prelude::*;
use crate::text::{chars_of, lower_of, lowercase};

verus! {

/// Case-sensitive glob semantics: `*` matches zero or more characters, `?`
/// exactly one, any other pattern character itself.
pub open spec fn glob(t: Seq<char>, p: Seq<char>) -> bool
    decreases t.len() + p.len(),
{
    if p.len() == 0 {
        t.len() == 0
    } else if p[0] == '*' {
        glob(t, p.skip(1)) || (t.len() > 0 && glob(t.skip(1), p))
    } else {
        t.len() > 0 && (p[0] == '?' || p[0] == t[0]) && glob(t.skip(1), p.skip(1))
    }
}

/// Case-insensitive glob semantics: both sides are case folded first.
pub open spec fn glob_ci(t: Seq<char>, p: Seq<char>) -> bool {
    glob(lower_of(t), lower_of(p))
}

/// One pattern character against one text character, stars aside.
pub open spec fn cmatch(pc: char, tc: char) -> bool {
    pc == '?' || pc == tc
}

/// Starting at a star, the texts that match are exactly the suffixes that
/// match past the star.
proof fn lemma_star_absorb(t: Seq<char>, p: Seq<char>, a: int, sp: int)
    requires
        0 <= a <= t.len(),
        0 <= sp < p.len(),
        p[sp] == '*',
    ensures
        glob(t.skip(a), p.skip(sp)) <==> exists|k: int|
            a <= k <= t.len() && #[trigger] glob(t.skip(k), p.skip(sp + 1)),
    decreases t.len() - a,
{
    assert(p.skip(sp)[0] == p[sp]);
    assert(p.skip(sp).skip(1) =~= p.skip(sp + 1));
    if a < t.len() {
        assert(t.skip(a).skip(1) =~= t.skip(a + 1));
        lemma_star_absorb(t, p, a + 1, sp);
    }
    if glob(t.skip(a), p.skip(sp)) {
        if glob(t.skip(a), p.skip(sp + 1)) {
            assert(a <= a <= t.len() && glob(t.skip(a), p.skip(sp + 1)));
        } else {
            assert(t.skip(a).len() > 0 && glob(t.skip(a + 1), p.skip(sp)));
        }
    }
    if exists|k: int| a <= k <= t.len() && #[trigger] glob(t.skip(k), p.skip(sp + 1)) {
        let k = choose|k: int| a <= k <= t.len() && #[trigger] glob(t.skip(k), p.skip(sp + 1));
        if k == a {
            assert(glob(t.skip(a), p.skip(sp)));
        } else {
            assert(a + 1 <= k <= t.len() && glob(t.skip(k), p.skip(sp + 1)));
            assert(glob(t.skip(a + 1), p.skip(sp)));
            assert(glob(t.skip(a), p.skip(sp)));
        }
    }
}

/// A star-free pattern segment matches exactly character for character.
proof fn lemma_seg_decompose(t: Seq<char>, p: Seq<char>, a: int, b: int, e: int)
    requires
        0 <= a <= t.len(),
        0 <= b <= e <= p.len(),
        forall|i: int| b <= i < e ==> p[i] != '*',
    ensures
        glob(t.skip(a), p.skip(b)) <==> {
            &&& t.len() - a >= e - b
            &&& (forall|i: int| 0 <= i < e - b ==> cmatch(p[b + i], #[trigger] t[a + i]))
            &&& glob(t.skip(a + (e - b)), p.skip(e))
        },
    decreases e - b,
{
    if b == e {
    } else {
        assert(p.skip(b)[0] == p[b]);
        assert(p[b] != '*');
        assert(p.skip(b).skip(1) =~= p.skip(b + 1));
        if a < t.len() {
            assert(t.skip(a)[0] == t[a]);
            assert(t.skip(a).skip(1) =~= t.skip(a + 1));
            lemma_seg_decompose(t, p, a + 1, b + 1, e);
            assert forall|i: int| 0 <= i < e - b && glob(t.skip(a), p.skip(b)) implies cmatch(
                p[b + i],
                #[trigger] t[a + i],
            ) by {
                if i > 0 {
                    assert(cmatch(p[b + 1 + (i - 1)], t[a + 1 + (i - 1)]));
                }
            }
            if t.len() - a >= e - b && (forall|i: int|
                0 <= i < e - b ==> cmatch(p[b + i], #[trigger] t[a + i])) && glob(
                t.skip(a + (e - b)),
                p.skip(e),
            ) {
                assert(cmatch(p[b + 0], t[a + 0]));
                assert forall|i: int| 0 <= i < e - (b + 1) implies cmatch(
                    p[b + 1 + i],
                    #[trigger] t[a + 1 + i],
                ) by {
                    assert(cmatch(p[b + (i + 1)], t[a + (i + 1)]));
                }
            }
        }
    }
}

/// Against an exhausted text only a run of stars can match.
proof fn lemma_tail_stars(t: Seq<char>, p: Seq<char>, b: int)
    requires
        0 <= b <= p.len(),
    ensures
        glob(t.skip(t.len() as int), p.skip(b)) <==> (forall|i: int|
            b <= i < p.len() ==> p[i] == '*'),
    decreases p.len() - b,
{
    assert(t.skip(t.len() as int).len() == 0);
    if b < p.len() {
        assert(p.skip(b)[0] == p[b]);
        assert(p.skip(b).skip(1) =~= p.skip(b + 1));
        lemma_tail_stars(t, p, b + 1);
    }
}

/// The two-pointer backtracking scan.
#[verifier::loop_isolation(false)]
#[verifier::rlimit(60)]
fn glob_iter(t: &Vec<char>, p: &Vec<char>) -> (r: bool)
    ensures
        r == glob(t@, p@),
{
    let tn = t.len();
    let pn = p.len();
    let mut ti: usize = 0;
    let mut pi: usize = 0;
    let mut sp: usize = 0;
    let mut st: usize = 0;
    let mut has_star: bool = false;
    proof {
        assert(t@.skip(0) =~= t@);
        assert(p@.skip(0) =~= p@);
    }
    while ti < tn
        invariant
            0 <= ti <= tn,
            0 <= pi <= pn,
            has_star ==> {
                &&& sp < pi <= pn
                &&& p@[sp as int] == '*'
                &&& st <= ti
                &&& ti - st == pi - sp - 1
                &&& (forall|i: int| sp < i < pi ==> p@[i] != '*')
                &&& (forall|i: int|
                    0 <= i < pi - sp - 1 ==> cmatch(p@[sp + 1 + i], #[trigger] t@[st + i]))
            },
            glob(t@, p@) <==> (glob(t@.skip(ti as int), p@.skip(pi as int)) || (has_star
                && exists|k: int|
                st + 1 <= k <= tn && #[trigger] glob(t@.skip(k), p@.skip(sp + 1)))),
        decreases
                tn - (if has_star {
                    st as int
                } else {
                    0
                }),
                tn + pn - ti - pi,
    {
        proof {
            assert(t@.skip(ti as int)[0] == t@[ti as int]);
            assert(t@.skip(ti as int).skip(1) =~= t@.skip(ti + 1));
            if pi < pn {
                assert(p@.skip(pi as int)[0] == p@[pi as int]);
                assert(p@.skip(pi as int).skip(1) =~= p@.skip(pi + 1));
            }
        }
        if pi < pn && p[pi] == '*' {
            proof {
                if has_star && exists|k: int|
                    st + 1 <= k <= tn && #[trigger] glob(t@.skip(k), p@.skip(sp + 1)) {
                    let k = choose|k: int|
                        st + 1 <= k <= tn && #[trigger] glob(t@.skip(k), p@.skip(sp + 1));
                    lemma_seg_decompose(t@, p@, k, sp + 1, pi as int);
                    let kk = k + (pi - sp - 1);
                    assert(glob(t@.skip(kk), p@.skip(pi as int)));
                    lemma_star_absorb(t@, p@, kk, pi as int);
                    let m = choose|m: int|
                        kk <= m <= tn && #[trigger] glob(t@.skip(m), p@.skip(pi + 1));
                    lemma_star_absorb(t@, p@, ti as int, pi as int);
                    assert(ti <= m <= tn && glob(t@.skip(m), p@.skip(pi + 1)));
                    assert(glob(t@.skip(ti as int), p@.skip(pi as int)));
                }
                lemma_star_absorb(t@, p@, ti as int, pi as int);
            }
            sp = pi;
            st = ti;
            has_star = true;
            pi = pi + 1;
            proof {
                if glob(t@, p@) {
                    let k = choose|k: int|
                        st <= k <= tn && #[trigger] glob(t@.skip(k), p@.skip(pi as int));
                    if k == st {
                        assert(glob(t@.skip(ti as int), p@.skip(pi as int)));
                    }
                }
            }
        } else if pi < pn && (p[pi] == '?' || p[pi] == t[ti]) {
            ti += 1;
            pi += 1;
        } else if has_star {
            proof {
                assert(!glob(t@.skip(ti as int), p@.skip(pi as int)));
                if glob(t@, p@) {
                    let k = choose|k: int|
                        st + 1 <= k <= tn && #[trigger] glob(t@.skip(k), p@.skip(sp + 1));
                    if k > st + 1 {
                        assert(st + 2 <= k <= tn && glob(t@.skip(k), p@.skip(sp + 1)));
                    }
                }
            }
            pi = sp + 1;
            ti = st + 1;
            st = st + 1;
        } else {
            proof {
                assert(!glob(t@.skip(ti as int), p@.skip(pi as int)));
            }
            return false;
        }
    }
    proof {
        if has_star {
            assert forall|k: int| st + 1 <= k <= tn implies !glob(
                t@.skip(k),
                #[trigger] p@.skip(sp + 1),
            ) by {
                lemma_seg_decompose(t@, p@, k, sp + 1, pi as int);
            }
        }
        assert(glob(t@, p@) <==> glob(t@.skip(tn as int), p@.skip(pi as int)));
    }
    while pi < pn && p[pi] == '*'
        invariant
            0 <= pi <= pn,
            glob(t@, p@) <==> glob(t@.skip(tn as int), p@.skip(pi as int)),
        decreases pn - pi,
    {
        proof {
            assert(p@.skip(pi as int)[0] == p@[pi as int]);
            assert(p@.skip(pi as int).skip(1) =~= p@.skip(pi + 1));
            assert(t@.skip(tn as int).len() == 0);
        }
        pi += 1;
    }
    proof {
        assert(t@.skip(tn as int).len() == 0);
        if pi < pn {
            assert(p@.skip(pi as int)[0] == p@[pi as int]);
            assert(!glob(t@.skip(tn as int), p@.skip(pi as int)));
        } else {
            assert(p@.skip(pi as int).len() == 0);
        }
    }
    pi == pn
}

/// Case-sensitive glob match on character vectors.
pub fn glob_vec(t: &Vec<char>, p: &Vec<char>) -> (r: bool)
    ensures
        r == glob(t@, p@),
{
    glob_iter(t, p)
}

/// Case-insensitive wildcard match of `text` against `pattern`.
pub fn wildcard_match(text: &str, pattern: &str) -> (r: bool)
    ensures
        r == glob_ci(text@, pattern@),
{
    let lt = lowercase(text);
    let lp = lowercase(pattern);
    let tv = chars_of(lt.as_str());
    let pv = chars_of(lp.as_str());
    glob_vec(&tv, &pv)
}

} // verus!
