//! Ascending order of integer lists.

use vstd::prelude::*;
use vstd::relations::{sorted_by, total_ordering};
use vstd::seq_lib::{lemma_sorted_unique, to_multiset_build, to_multiset_insert};

verus! {

/// The order of `u64`.
pub open spec fn le_u64() -> spec_fn(u64, u64) -> bool {
    |a: u64, b: u64| a <= b
}

/// The same items in ascending order.
pub open spec fn ascending_u64(s: Seq<u64>) -> Seq<u64> {
    s.sort_by(le_u64())
}

fn insert_u64(v: &mut Vec<u64>, x: u64)
    requires
        sorted_by(old(v)@, le_u64()),
    ensures
        sorted_by(final(v)@, le_u64()),
        final(v)@.to_multiset() == old(v)@.to_multiset().insert(x),
{
    let mut i: usize = v.len();
    while i > 0 && v[i - 1] > x
        invariant
            i <= v@.len(),
            v@ == old(v)@,
            sorted_by(v@, le_u64()),
            forall|j: int| i <= j < v@.len() ==> v@[j] > x,
        decreases i,
    {
        i -= 1;
    }
    proof {
        to_multiset_insert(v@, i as int, x);
        let s = v@;
        let t = s.insert(i as int, x);
        assert forall|a: int, b: int| 0 <= a < b < t.len() implies (le_u64())(t[a], t[b]) by {
            let a0 = if a < i {
                a
            } else {
                a - 1
            };
            let b0 = if b < i {
                b
            } else {
                b - 1
            };
            if a != i && b != i {
                assert((le_u64())(s[a0], s[b0]));
            } else if b == i && i > 0 && a < i - 1 {
                assert((le_u64())(s[a], s[i - 1]));
            }
        }
    }
    v.insert(i, x);
}

/// The items of a list, in ascending order.
pub fn sort_u64(src: &Vec<u64>) -> (r: Vec<u64>)
    ensures
        r@ == ascending_u64(src@),
{
    let mut v: Vec<u64> = Vec::new();
    let mut i: usize = 0;
    proof {
        assert(src@.take(0) =~= v@);
    }
    while i < src.len()
        invariant
            i <= src@.len(),
            sorted_by(v@, le_u64()),
            v@.to_multiset() == src@.take(i as int).to_multiset(),
        decreases src@.len() - i,
    {
        proof {
            assert(src@.take(i + 1) =~= src@.take(i as int).push(src@[i as int]));
            to_multiset_build(src@.take(i as int), src@[i as int]);
        }
        insert_u64(&mut v, src[i]);
        i += 1;
    }
    proof {
        assert(src@.take(src@.len() as int) =~= src@);
        assert(total_ordering(le_u64()));
        src@.lemma_sort_by_ensures(le_u64());
        lemma_sorted_unique(v@, src@.sort_by(le_u64()), le_u64());
    }
    v
}

} // verus!
