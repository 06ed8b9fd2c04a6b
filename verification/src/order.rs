//! The order of strings, and sorting with duplicates removed.
//!
//! Strings are ordered as `String`'s `Ord` orders them: lexicographically by
//! their UTF-8 bytes, which is the lexicographic order of their characters'
//! code points.

use vstd::prelude::*;
use crate::text::{chars_of, char_vecs, eq_chars, strs};

verus! {

/// Lexicographic order of texts by code point.
pub open spec fn text_lt(a: Seq<char>, b: Seq<char>) -> bool
    decreases a.len(),
{
    if a.len() == 0 {
        b.len() > 0
    } else if b.len() == 0 {
        false
    } else if a[0] != b[0] {
        a[0] < b[0]
    } else {
        text_lt(a.drop_first(), b.drop_first())
    }
}

/// No text is below itself.
pub proof fn lemma_text_lt_irreflexive(a: Seq<char>)
    ensures
        !text_lt(a, a),
    decreases a.len(),
{
    if a.len() > 0 {
        lemma_text_lt_irreflexive(a.drop_first());
    }
}

/// Of two different texts, one is below the other, and not both.
pub proof fn lemma_text_lt_total(a: Seq<char>, b: Seq<char>)
    ensures
        a != b ==> text_lt(a, b) || text_lt(b, a),
        !(text_lt(a, b) && text_lt(b, a)),
    decreases a.len(),
{
    if a.len() > 0 && b.len() > 0 {
        if a[0] == b[0] {
            lemma_text_lt_total(a.drop_first(), b.drop_first());
            if a != b {
                assert(a.drop_first() != b.drop_first()) by {
                    if a.drop_first() == b.drop_first() {
                        assert(a =~= seq![a[0]] + a.drop_first());
                        assert(b =~= seq![b[0]] + b.drop_first());
                    }
                }
            }
        }
    } else if a.len() == 0 && b.len() == 0 {
        assert(a =~= b);
    }
}

/// The order is transitive.
pub proof fn lemma_text_lt_transitive(a: Seq<char>, b: Seq<char>, c: Seq<char>)
    requires
        text_lt(a, b),
        text_lt(b, c),
    ensures
        text_lt(a, c),
    decreases a.len(),
{
    if a.len() > 0 && b.len() > 0 && c.len() > 0 {
        if a[0] == b[0] && b[0] == c[0] {
            lemma_text_lt_transitive(a.drop_first(), b.drop_first(), c.drop_first());
        }
    }
}

/// Each text of `s` is below every later one.
pub open spec fn increasing(s: Seq<Seq<char>>) -> bool {
    forall|i: int, j: int| 0 <= i < j < s.len() ==> text_lt(#[trigger] s[i], #[trigger] s[j])
}

/// `a` and `b` hold the same texts.
pub open spec fn same_elements(a: Seq<Seq<char>>, b: Seq<Seq<char>>) -> bool {
    forall|x: Seq<char>| a.contains(x) <==> b.contains(x)
}

/// The texts of `s` in increasing order, each once.
pub open spec fn sorted_set(s: Seq<Seq<char>>) -> Seq<Seq<char>> {
    choose|r: Seq<Seq<char>>| increasing(r) && same_elements(r, s)
}

/// Two increasing sequences of the same texts are equal.
pub proof fn lemma_increasing_unique(r1: Seq<Seq<char>>, r2: Seq<Seq<char>>)
    requires
        increasing(r1),
        increasing(r2),
        same_elements(r1, r2),
    ensures
        r1 == r2,
    decreases r1.len(),
{
    if r1.len() == 0 {
        if r2.len() > 0 {
            assert(r2.contains(r2[0]));
        }
        assert(r1 =~= r2);
    } else {
        assert(r1.contains(r1[0]));
        assert(r2.len() > 0);
        assert(r2.contains(r2[0]));
        let k = choose|k: int| 0 <= k < r2.len() && r2[k] == r1[0];
        let m = choose|m: int| 0 <= m < r1.len() && r1[m] == r2[0];
        assert(r1[0] == r2[0]) by {
            if k > 0 {
                assert(text_lt(r2[0], r2[k]));
                if m > 0 {
                    assert(text_lt(r1[0], r1[m]));
                    lemma_text_lt_total(r1[0], r2[0]);
                } else {
                    lemma_text_lt_irreflexive(r2[0]);
                }
            }
        }
        let t1 = r1.drop_first();
        let t2 = r2.drop_first();
        assert forall|i: int, j: int| 0 <= i < j < t1.len() implies text_lt(#[trigger] t1[i], #[trigger] t1[j]) by {
            assert(t1[i] == r1[i + 1] && t1[j] == r1[j + 1]);
        }
        assert forall|i: int, j: int| 0 <= i < j < t2.len() implies text_lt(#[trigger] t2[i], #[trigger] t2[j]) by {
            assert(t2[i] == r2[i + 1] && t2[j] == r2[j + 1]);
        }
        assert forall|x: Seq<char>| t1.contains(x) <==> t2.contains(x) by {
            if t1.contains(x) {
                let j = choose|j: int| 0 <= j < t1.len() && t1[j] == x;
                assert(r1[j + 1] == x);
                assert(r1.contains(x));
                assert(text_lt(r1[0], r1[j + 1]));
                lemma_text_lt_irreflexive(x);
                let q = choose|q: int| 0 <= q < r2.len() && r2[q] == x;
                assert(q != 0);
                assert(t2[q - 1] == x);
            }
            if t2.contains(x) {
                let j = choose|j: int| 0 <= j < t2.len() && t2[j] == x;
                assert(r2[j + 1] == x);
                assert(r2.contains(x));
                assert(text_lt(r2[0], r2[j + 1]));
                lemma_text_lt_irreflexive(x);
                let q = choose|q: int| 0 <= q < r1.len() && r1[q] == x;
                assert(q != 0);
                assert(t1[q - 1] == x);
            }
        }
        lemma_increasing_unique(t1, t2);
        assert(r1 =~= seq![r1[0]] + t1);
        assert(r2 =~= seq![r2[0]] + t2);
    }
}

/// The sorted set of `s` is the one increasing sequence of its texts.
pub proof fn lemma_sorted_set(s: Seq<Seq<char>>, r: Seq<Seq<char>>)
    requires
        increasing(r),
        same_elements(r, s),
    ensures
        sorted_set(s) == r,
{
    let c = sorted_set(s);
    assert(increasing(c) && same_elements(c, s));
    assert(same_elements(c, r));
    lemma_increasing_unique(c, r);
}

/// Whether `a` comes before `b` in the order of strings.
pub fn str_lt(a: &[char], b: &[char]) -> (r: bool)
    ensures
        r == text_lt(a@, b@),
{
    let mut i: usize = 0;
    assert(a@.skip(0) == a@ && b@.skip(0) == b@);
    while i < a.len() && i < b.len() && a[i] == b[i]
        invariant
            i <= a@.len(),
            i <= b@.len(),
            text_lt(a@, b@) == text_lt(a@.skip(i as int), b@.skip(i as int)),
        decreases a@.len() - i,
    {
        assert(a@.skip(i as int).drop_first() == a@.skip(i + 1));
        assert(b@.skip(i as int).drop_first() == b@.skip(i + 1));
        i = i + 1;
    }
    if i == a.len() {
        i < b.len()
    } else if i == b.len() {
        false
    } else {
        assert(a@.skip(i as int)[0] == a@[i as int]);
        assert(b@.skip(i as int)[0] == b@[i as int]);
        a[i] < b[i]
    }
}

/// `v` sorted, with duplicates removed.
pub fn sort_dedup(v: &[String]) -> (r: Vec<String>)
    ensures
        strs(r@) == sorted_set(strs(v@)),
{
    let mut r: Vec<String> = Vec::new();
    let mut rc: Vec<Vec<char>> = Vec::new();
    let ghost sv = strs(v@);
    let mut i: usize = 0;
    while i < v.len()
        invariant
            i <= v@.len(),
            sv == strs(v@),
            strs(r@) == char_vecs(rc@),
            increasing(strs(r@)),
            same_elements(strs(r@), sv.take(i as int)),
        decreases v@.len() - i,
    {
        let x = chars_of(v[i].as_str());
        let ghost xs = x@;
        assert(xs == sv[i as int]);
        let ghost cur = strs(r@);
        let mut p: usize = 0;
        let mut found = false;
        while !found && p < rc.len()
            invariant
                p <= rc@.len(),
                cur == char_vecs(rc@),
                xs == x@,
                forall|q: int| 0 <= q < p ==> text_lt(#[trigger] cur[q], xs),
                found ==> p < rc@.len() && !text_lt(cur[p as int], xs),
            decreases rc@.len() - p, if found { 0int } else { 1int },
        {
            assert(rc@[p as int]@ == cur[p as int]);
            if str_lt(rc[p].as_slice(), x.as_slice()) {
                p = p + 1;
            } else {
                found = true;
            }
        }
        let ghost nxt = sv.take(i + 1);
        let ghost prv = sv.take(i as int);
        assert(nxt == prv.push(xs));
        if p < rc.len() && eq_chars(rc[p].as_slice(), x.as_slice()) {
            assert(rc@[p as int]@ == cur[p as int]);
            assert(cur.contains(xs));
            assert forall|y: Seq<char>| cur.contains(y) <==> nxt.contains(y) by {
                if nxt.contains(y) {
                    let j = choose|j: int| 0 <= j < nxt.len() && nxt[j] == y;
                    if j < i {
                        assert(prv[j] == y);
                    }
                }
                if cur.contains(y) {
                    assert(prv.contains(y));
                    let j = choose|j: int| 0 <= j < prv.len() && prv[j] == y;
                    assert(nxt[j] == y);
                }
            }
        } else {
            proof {
                if p < cur.len() {
                    assert(rc@[p as int]@ == cur[p as int]);
                    lemma_text_lt_total(cur[p as int], xs);
                }
            }
            let s = v[i].clone();
            r.insert(p, s);
            rc.insert(p, x);
            let ghost nw = strs(r@);
            assert(nw =~= cur.insert(p as int, xs));
            assert(strs(r@) =~= char_vecs(rc@));
            assert forall|a: int, b: int| 0 <= a < b < nw.len() implies text_lt(#[trigger] nw[a], #[trigger] nw[b]) by {
                if b < p {
                } else if b == p {
                } else if a < p {
                    assert(text_lt(cur[a], xs));
                    assert(text_lt(xs, cur[p as int]));
                    assert(nw[b] == cur[b - 1]);
                    if b - 1 > p {
                        lemma_text_lt_transitive(xs, cur[p as int], cur[b - 1]);
                    }
                    lemma_text_lt_transitive(cur[a], xs, cur[b - 1]);
                } else if a == p {
                    assert(nw[b] == cur[b - 1]);
                    if b - 1 > p {
                        lemma_text_lt_transitive(xs, cur[p as int], cur[b - 1]);
                    }
                } else {
                    assert(nw[a] == cur[a - 1] && nw[b] == cur[b - 1]);
                }
            }
            assert forall|y: Seq<char>| nw.contains(y) <==> nxt.contains(y) by {
                if nxt.contains(y) {
                    let j = choose|j: int| 0 <= j < nxt.len() && nxt[j] == y;
                    if j < i {
                        assert(prv[j] == y);
                        assert(cur.contains(y));
                        let q = choose|q: int| 0 <= q < cur.len() && cur[q] == y;
                        if q < p {
                            assert(nw[q] == y);
                        } else {
                            assert(nw[q + 1] == y);
                        }
                    } else {
                        assert(nw[p as int] == y);
                    }
                }
                if nw.contains(y) {
                    let q = choose|q: int| 0 <= q < nw.len() && nw[q] == y;
                    if q == p {
                        assert(nxt[i as int] == y);
                    } else {
                        let q2 = if q < p { q } else { q - 1 };
                        assert(cur[q2] == y);
                        assert(cur.contains(y));
                        assert(prv.contains(y));
                        let j = choose|j: int| 0 <= j < prv.len() && prv[j] == y;
                        assert(nxt[j] == y);
                    }
                }
            }
        }
        i = i + 1;
    }
    assert(sv.take(sv.len() as int) == sv);
    proof {
        lemma_sorted_set(sv, strs(r@));
    }
    r
}

} // verus!
