//! The median by counting: what lies below it and above it, and that the order of
//! the ring does not matter.

use vstd::prelude::*;
use vstd::relations::total_ordering;
use vstd::seq_lib::to_multiset_remove;
use crate::oracle::state::{median_is_an_observation, median_of, observations};
use crate::sorting::{ascending_u64, le_u64};

verus! {

/// How many entries satisfy a condition.
pub open spec fn count_where(s: Seq<u64>, p: spec_fn(u64) -> bool) -> nat
    decreases s.len(),
{
    if s.len() == 0 {
        0
    } else {
        count_where(s.drop_last(), p) + if p(s.last()) {
            1nat
        } else {
            0nat
        }
    }
}

/// How many prices a ring holds: entries that are not zero.
pub open spec fn price_count(ring: Seq<u64>) -> nat {
    count_where(ring, |v: u64| v != 0)
}

/// How many of the prices in a ring are below `m`.
pub open spec fn prices_below(ring: Seq<u64>, m: u64) -> nat {
    count_where(ring, |v: u64| v != 0 && v < m)
}

/// How many of the prices in a ring are at most `m`.
pub open spec fn prices_up_to(ring: Seq<u64>, m: u64) -> nat {
    count_where(ring, |v: u64| v != 0 && v <= m)
}

proof fn lemma_count_without(s: Seq<u64>, i: int, p: spec_fn(u64) -> bool)
    requires
        0 <= i < s.len(),
    ensures
        count_where(s, p) == count_where(s.remove(i), p) + if p(s[i]) {
            1nat
        } else {
            0nat
        },
    decreases s.len(),
{
    if i == s.len() - 1 {
        assert(s.remove(i) =~= s.drop_last());
    } else {
        lemma_count_without(s.drop_last(), i, p);
        assert(s.remove(i).drop_last() =~= s.drop_last().remove(i));
        assert(s.remove(i).last() == s.last());
    }
}

/// The same entries in another order are counted the same.
proof fn lemma_count_reordered(s: Seq<u64>, t: Seq<u64>, p: spec_fn(u64) -> bool)
    requires
        s.to_multiset() == t.to_multiset(),
    ensures
        count_where(s, p) == count_where(t, p),
    decreases s.len(),
{
    s.to_multiset_ensures();
    t.to_multiset_ensures();
    if s.len() > 0 {
        let x = s.last();
        assert(s[s.len() - 1] == x);
        assert(s.contains(x));
        assert(s.to_multiset().count(x) > 0);
        assert(t.contains(x));
        let k = choose|k: int| 0 <= k < t.len() && t[k] == x;
        to_multiset_remove(s, s.len() - 1);
        to_multiset_remove(t, k);
        assert(s.remove(s.len() - 1) =~= s.drop_last());
        lemma_count_reordered(s.drop_last(), t.remove(k), p);
        lemma_count_without(t, k, p);
    }
}

/// Only prices are observed, and all of them.
proof fn lemma_count_observed(ring: Seq<u64>, p: spec_fn(u64) -> bool)
    ensures
        count_where(observations(ring), p) == count_where(ring, |v: u64| v != 0 && p(v)),
    decreases ring.len(),
{
    let f = |v: u64| v != 0;
    reveal(Seq::filter);
    if ring.len() > 0 {
        lemma_count_observed(ring.drop_last(), p);
        let o = ring.drop_last().filter(f);
        if ring.last() != 0 {
            assert(ring.filter(f) == o.push(ring.last()));
            assert(o.push(ring.last()).drop_last() =~= o);
        }
    }
}

proof fn lemma_count_all(s: Seq<u64>, p: spec_fn(u64) -> bool)
    requires
        forall|i: int| 0 <= i < s.len() ==> p(#[trigger] s[i]),
    ensures
        count_where(s, p) == s.len(),
    decreases s.len(),
{
    if s.len() > 0 {
        assert forall|i: int| 0 <= i < s.drop_last().len() implies p(#[trigger] s.drop_last()[i]) by {
            assert(p(s[i]));
        }
        lemma_count_all(s.drop_last(), p);
        assert(p(s[s.len() - 1]));
    }
}

/// A condition that the first `k` entries satisfy is satisfied at least `k` times;
/// one that only they can satisfy, at most so often.
proof fn lemma_count_prefix(s: Seq<u64>, p: spec_fn(u64) -> bool, k: int)
    requires
        0 <= k <= s.len(),
    ensures
        (forall|i: int| 0 <= i < k ==> p(#[trigger] s[i])) ==> count_where(s, p) >= k,
        (forall|i: int| k <= i < s.len() ==> !p(#[trigger] s[i])) ==> count_where(s, p) <= k,
    decreases s.len(),
{
    if s.len() > 0 {
        let d = s.drop_last();
        let m = if k == s.len() {
            k - 1
        } else {
            k
        };
        lemma_count_prefix(d, p, m);
        if forall|i: int| 0 <= i < k ==> p(#[trigger] s[i]) {
            assert forall|i: int| 0 <= i < m implies p(#[trigger] d[i]) by {
                assert(p(s[i]));
            }
            if k == s.len() {
                assert(p(s[k - 1]));
            }
        }
        if forall|i: int| k <= i < s.len() ==> !p(#[trigger] s[i]) {
            assert forall|i: int| m <= i < d.len() implies !p(#[trigger] d[i]) by {
                assert(!p(s[i]));
            }
            if k < s.len() {
                assert(!p(s[s.len() - 1]));
            }
        }
    }
}

/// The median stands in the middle: of `n` prices, at most `(n - 1) / 2` are below
/// it, and more than that are at most as large. There is none exactly where the
/// ring holds no price.
pub proof fn median_is_in_the_middle(ring: Seq<u64>)
    ensures
        match median_of(ring) {
            Some(m) => {
                &&& m != 0
                &&& ring.contains(m)
                &&& price_count(ring) > 0
                &&& prices_below(ring, m) <= (price_count(ring) - 1) / 2 < prices_up_to(ring, m)
            },
            None => price_count(ring) == 0,
        },
{
    median_is_an_observation(ring);
    let o = observations(ring);
    let s = ascending_u64(o);
    assert(total_ordering(le_u64()));
    o.lemma_sort_by_ensures(le_u64());
    let all = |v: u64| true;
    lemma_count_observed(ring, all);
    lemma_count_all(o, all);
    assert((|v: u64| v != 0 && all(v)) =~= (|v: u64| v != 0));
    assert(o.len() == s.len()) by {
        o.to_multiset_ensures();
        s.to_multiset_ensures();
    }
    if let Some(m) = median_of(ring) {
        let k = (s.len() - 1) / 2;
        let below = |v: u64| v < m;
        let up_to = |v: u64| v <= m;
        lemma_count_observed(ring, below);
        lemma_count_observed(ring, up_to);
        lemma_count_reordered(o, s, below);
        lemma_count_reordered(o, s, up_to);
        assert((|v: u64| v != 0 && below(v)) =~= (|v: u64| v != 0 && v < m));
        assert((|v: u64| v != 0 && up_to(v)) =~= (|v: u64| v != 0 && v <= m));
        assert forall|i: int| k <= i < s.len() implies !below(#[trigger] s[i]) by {
            if k < i {
                assert((le_u64())(s[k], s[i]));
            }
        }
        assert forall|i: int| 0 <= i < k + 1 implies up_to(#[trigger] s[i]) by {
            if i < k {
                assert((le_u64())(s[i], s[k]));
            }
        }
        lemma_count_prefix(s, below, k);
        lemma_count_prefix(s, up_to, k + 1);
    }
}

/// A larger bound is met by no fewer prices.
proof fn lemma_more(ring: Seq<u64>, m: u64, n: u64)
    requires
        m < n,
    ensures
        prices_up_to(ring, m) <= prices_below(ring, n),
    decreases ring.len(),
{
    if ring.len() > 0 {
        lemma_more(ring.drop_last(), m, n);
    }
}

/// The order of the ring does not matter: the same entries in another order have
/// the same median.
pub proof fn median_does_not_depend_on_order(a: Seq<u64>, b: Seq<u64>)
    requires
        a.to_multiset() == b.to_multiset(),
    ensures
        median_of(a) == median_of(b),
{
    median_is_in_the_middle(a);
    median_is_in_the_middle(b);
    lemma_count_reordered(a, b, |v: u64| v != 0);
    if median_of(a) is Some {
        let m = median_of(a)->0;
        let n = median_of(b)->0;
        lemma_count_reordered(a, b, |v: u64| v != 0 && v < m);
        lemma_count_reordered(a, b, |v: u64| v != 0 && v <= m);
        lemma_count_reordered(a, b, |v: u64| v != 0 && v < n);
        lemma_count_reordered(a, b, |v: u64| v != 0 && v <= n);
        if m < n {
            lemma_more(a, m, n);
        } else if n < m {
            lemma_more(a, n, m);
        }
    }
}

} // verus!
