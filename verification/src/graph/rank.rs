//! Stable ordering by descending score.
//!
//! An item's place in a stable descending sort is its rank: the number of
//! items with a higher score, plus the number of earlier items with the same
//! score. Ranks are distinct and below the number of items, so placing every
//! item at its rank sorts the items.

use vstd::prelude::*;
use vstd::set_lib::{set_int_range, lemma_int_range, lemma_map_size, lemma_subset_equality};
use vstd::relations::injective_on;

verus! {

/// Number of `k` in `0..n` that satisfy `p`.
pub open spec fn count(n: int, p: spec_fn(int) -> bool) -> nat
    decreases n,
{
    if n <= 0 {
        0
    } else {
        count(n - 1, p) + if p(n - 1) {
            1nat
        } else {
            0nat
        }
    }
}

/// Items with a higher score than item `i`.
pub open spec fn above(ds: Seq<usize>, i: int) -> spec_fn(int) -> bool {
    |k: int| ds[k] > ds[i]
}

/// Earlier items with the same score as item `i`.
pub open spec fn tied_before(ds: Seq<usize>, i: int) -> spec_fn(int) -> bool {
    |k: int| k < i && ds[k] == ds[i]
}

/// The place of item `i` in the stable sort of `ds` by descending score.
pub open spec fn rank(ds: Seq<usize>, i: int) -> nat {
    count(ds.len() as int, above(ds, i)) + count(ds.len() as int, tied_before(ds, i))
}

/// Counting is monotone in the predicate.
pub proof fn lemma_count_mono(n: int, p: spec_fn(int) -> bool, q: spec_fn(int) -> bool)
    requires
        forall|k: int| 0 <= k < n && #[trigger] p(k) ==> q(k),
    ensures
        count(n, p) <= count(n, q),
    decreases n,
{
    if n > 0 {
        lemma_count_mono(n - 1, p, q);
    }
}

/// Counting is strictly monotone when one more item satisfies the larger predicate.
pub proof fn lemma_count_strict(n: int, p: spec_fn(int) -> bool, q: spec_fn(int) -> bool, w: int)
    requires
        forall|k: int| 0 <= k < n && #[trigger] p(k) ==> q(k),
        0 <= w < n,
        q(w),
        !p(w),
    ensures
        count(n, p) < count(n, q),
    decreases n,
{
    if w == n - 1 {
        lemma_count_mono(n - 1, p, q);
    } else {
        lemma_count_strict(n - 1, p, q, w);
    }
}

/// Counts of disjoint predicates add up.
pub proof fn lemma_count_disjoint(n: int, p: spec_fn(int) -> bool, q: spec_fn(int) -> bool)
    requires
        forall|k: int| 0 <= k < n ==> !(#[trigger] p(k) && q(k)),
    ensures
        count(n, |k: int| p(k) || q(k)) == count(n, p) + count(n, q),
    decreases n,
{
    if n > 0 {
        lemma_count_disjoint(n - 1, p, q);
    }
}

/// Nothing counts more than all.
pub proof fn lemma_count_bound(n: int, p: spec_fn(int) -> bool)
    requires
        n >= 0,
    ensures
        count(n, p) <= n,
    decreases n,
{
    if n > 0 {
        lemma_count_bound(n - 1, p);
    }
}

/// Every rank is below the number of items.
pub proof fn lemma_rank_bound(ds: Seq<usize>, i: int)
    requires
        0 <= i < ds.len(),
    ensures
        rank(ds, i) < ds.len(),
{
    let n = ds.len() as int;
    let a = above(ds, i);
    let t = tied_before(ds, i);
    lemma_count_disjoint(n, a, t);
    let u = |k: int| a(k) || t(k);
    lemma_count_strict(n, u, |k: int| true, i);
    lemma_count_bound(n, |k: int| true);
    assert(count(n, u) == count(n, |k: int| a(k) || t(k)));
}

/// Items ordered before `j` have a smaller rank.
pub proof fn lemma_rank_before(ds: Seq<usize>, i: int, j: int)
    requires
        0 <= i < ds.len(),
        0 <= j < ds.len(),
        ds[i] > ds[j] || (ds[i] == ds[j] && i < j),
    ensures
        rank(ds, i) < rank(ds, j),
{
    let n = ds.len() as int;
    let ai = above(ds, i);
    let ti = tied_before(ds, i);
    let aj = above(ds, j);
    let tj = tied_before(ds, j);
    lemma_count_disjoint(n, ai, ti);
    lemma_count_disjoint(n, aj, tj);
    let ui = |k: int| ai(k) || ti(k);
    let uj = |k: int| aj(k) || tj(k);
    assert forall|k: int| 0 <= k < n && #[trigger] ui(k) implies uj(k) by {
        if ds[i] > ds[j] {
            assert(ds[k] >= ds[i]);
        }
    }
    lemma_count_strict(n, ui, uj, i);
    assert(count(n, ui) == count(n, |k: int| ai(k) || ti(k)));
    assert(count(n, uj) == count(n, |k: int| aj(k) || tj(k)));
}

/// Distinct items have distinct ranks.
pub proof fn lemma_rank_injective(ds: Seq<usize>, i: int, j: int)
    requires
        0 <= i < ds.len(),
        0 <= j < ds.len(),
        i != j,
    ensures
        rank(ds, i) != rank(ds, j),
{
    if ds[i] > ds[j] || (ds[i] == ds[j] && i < j) {
        lemma_rank_before(ds, i, j);
    } else {
        lemma_rank_before(ds, j, i);
    }
}

/// Every place below the number of items is the rank of some item.
pub proof fn lemma_rank_onto(ds: Seq<usize>, p: int)
    requires
        0 <= p < ds.len(),
    ensures
        exists|i: int| 0 <= i < ds.len() && #[trigger] rank(ds, i) == p,
{
    let n = ds.len() as int;
    let x = set_int_range(0, n);
    let f = |i: int| rank(ds, i) as int;
    let y = x.map(f);
    lemma_int_range(0, n);
    assert forall|a: int, b: int| x.contains(a) && x.contains(b) && #[trigger] f(a) == #[trigger] f(b) implies a == b by {
        if a != b {
            lemma_rank_injective(ds, a, b);
        }
    }
    assert(injective_on(f, x));
    lemma_map_size(x, y, f);
    assert forall|q: int| y.contains(q) implies x.contains(q) by {
        let i = choose|i: int| x.contains(i) && f(i) == q;
        lemma_rank_bound(ds, i);
    }
    lemma_subset_equality(y, x);
    assert(x.contains(p));
    assert(y.contains(p));
    let i = choose|i: int| x.contains(i) && f(i) == p;
    assert(rank(ds, i) == p);
}

/// The item at place `p` of the stable descending order of `ds`.
pub open spec fn ranked(ds: Seq<usize>, p: int) -> int {
    choose|i: int| 0 <= i < ds.len() && rank(ds, i) == p
}

/// The item at place `p` has rank `p`, and it is the only such item.
pub proof fn lemma_ranked(ds: Seq<usize>, p: int)
    requires
        0 <= p < ds.len(),
    ensures
        0 <= ranked(ds, p) < ds.len(),
        rank(ds, ranked(ds, p)) == p,
        forall|i: int| 0 <= i < ds.len() && #[trigger] rank(ds, i) == p ==> i == ranked(ds, p),
{
    lemma_rank_onto(ds, p);
    let r = ranked(ds, p);
    assert forall|i: int| 0 <= i < ds.len() && #[trigger] rank(ds, i) == p implies i == r by {
        if i != r {
            lemma_rank_injective(ds, i, r);
        }
    }
}

/// The rank of item `i` in `ds`.
fn rank_of(ds: &Vec<usize>, i: usize) -> (r: usize)
    requires
        i < ds@.len(),
    ensures
        r == rank(ds@, i as int),
{
    let n = ds.len();
    let di = ds[i];
    let mut above_n: usize = 0;
    let mut tied_n: usize = 0;
    let mut k: usize = 0;
    while k < n
        invariant
            n == ds@.len(),
            i < n,
            di == ds@[i as int],
            k <= n,
            above_n == count(k as int, above(ds@, i as int)),
            tied_n == count(k as int, tied_before(ds@, i as int)),
            above_n <= k,
            tied_n <= k,
        decreases n - k,
    {
        if ds[k] > di {
            above_n = above_n + 1;
        } else if k < i && ds[k] == di {
            tied_n = tied_n + 1;
        }
        k = k + 1;
    }
    proof {
        lemma_rank_bound(ds@, i as int);
    }
    above_n + tied_n
}

/// The stable descending order of `ds`: the item at each place, so that item
/// `i` stands at place `rank(ds, i)`.
pub fn stable_order_desc(ds: &Vec<usize>) -> (order: Vec<usize>)
    ensures
        order@.len() == ds@.len(),
        forall|i: int| 0 <= i < ds@.len() ==> order@[#[trigger] rank(ds@, i) as int] == i,
        forall|p: int| 0 <= p < ds@.len() ==> order@[p] == #[trigger] ranked(ds@, p),
{
    let n = ds.len();
    let mut order: Vec<usize> = Vec::new();
    let mut p: usize = 0;
    while p < n
        invariant
            p <= n,
            order@.len() == p,
        decreases n - p,
    {
        order.push(0);
        p = p + 1;
    }
    let mut i: usize = 0;
    while i < n
        invariant
            n == ds@.len(),
            i <= n,
            order@.len() == n,
            forall|j: int| 0 <= j < i ==> order@[#[trigger] rank(ds@, j) as int] == j,
        decreases n - i,
    {
        let r = rank_of(ds, i);
        proof {
            lemma_rank_bound(ds@, i as int);
        }
        let ghost before = order@;
        order.set(r, i);
        assert forall|j: int| 0 <= j < i + 1 implies order@[#[trigger] rank(ds@, j) as int] == j by {
            if j < i {
                lemma_rank_injective(ds@, i as int, j);
                lemma_rank_bound(ds@, j);
                assert(before[rank(ds@, j) as int] == j);
            }
        }
        i = i + 1;
    }
    assert forall|p: int| 0 <= p < ds@.len() implies order@[p] == #[trigger] ranked(ds@, p) by {
        lemma_ranked(ds@, p);
        assert(order@[rank(ds@, ranked(ds@, p)) as int] == ranked(ds@, p));
    }
    order
}

} // verus!
