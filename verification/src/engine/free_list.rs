//! The free list: a doubly linked list through exactly the slots that are not
//! used.

use vstd::prelude::*;
use crate::constants::{MAX_ACCOUNTS, MAX_MATERIALIZED_ACCOUNTS, NIL_SLOT};
use crate::model::EngineState;

verus! {

/// Entry `k` of a list of slots, or the end marker outside of it.
pub open spec fn entry(l: Seq<int>, k: int) -> u16 {
    if 0 <= k < l.len() {
        l[k] as u16
    } else {
        NIL_SLOT
    }
}

/// `l` lists the unused slots, and the links lead through it in both directions.
pub open spec fn is_free_list(l: Seq<int>, used: Seq<bool>, next: Seq<u16>, prev: Seq<u16>, head: u16) -> bool {
    &&& l.no_duplicates()
    &&& forall|k: int| 0 <= k < l.len() ==> 0 <= #[trigger] l[k] < MAX_ACCOUNTS && !used[l[k]]
    &&& forall|i: int| 0 <= i < MAX_ACCOUNTS && !(#[trigger] used[i]) ==> l.contains(i)
    &&& head == entry(l, 0)
    &&& forall|k: int| 0 <= k < l.len() ==> #[trigger] next[l[k]] == entry(l, k + 1)
    &&& forall|k: int| 0 <= k < l.len() ==> #[trigger] prev[l[k]] == entry(l, k - 1)
}

/// The slots are in order: the free list runs through the unused ones, and both
/// counters count the others.
#[verifier::opaque]
pub open spec fn slots_in_order(
    used: Seq<bool>,
    next: Seq<u16>,
    prev: Seq<u16>,
    head: u16,
    count: u16,
    materialized: u64,
) -> bool {
    &&& used.len() == MAX_ACCOUNTS
    &&& next.len() == MAX_ACCOUNTS
    &&& prev.len() == MAX_ACCOUNTS
    &&& materialized == count
    &&& exists|l: Seq<int>| #[trigger] is_free_list(l, used, next, prev, head) && count + l.len() == MAX_ACCOUNTS
}

impl EngineState {
    /// The slots of the engine are in order.
    pub open spec fn slots_ok(self) -> bool {
        slots_in_order(
            self.used,
            self.next_free,
            self.prev_free,
            self.free_head,
            self.num_used_accounts,
            self.materialized_account_count,
        )
    }
}

/// A new market's slots are in order.
pub proof fn fresh_slots_are_in_order(s: EngineState)
    requires
        s.slots_fresh(),
        s.free_head == 0,
        s.num_used_accounts == 0,
        s.materialized_account_count == 0,
    ensures
        s.slots_ok(),
{
    reveal(slots_in_order);
    let l = Seq::new(MAX_ACCOUNTS as nat, |k: int| k);
    assert forall|i: int| 0 <= i < MAX_ACCOUNTS && !(#[trigger] s.used[i]) implies l.contains(i) by {
        assert(l[i] == i);
    }
    assert(is_free_list(l, s.used, s.next_free, s.prev_free, s.free_head));
}

/// Where the slots are in order, the neighbours of every unused slot agree with
/// it, so it can be taken; and the list has a head unless every slot is used.
pub proof fn unused_slots_can_be_taken(s: EngineState)
    requires
        s.slots_ok(),
    ensures
        forall|i: int| 0 <= i < MAX_ACCOUNTS && !(#[trigger] s.used[i]) ==> s.links_agree(i),
        s.free_head != NIL_SLOT ==> s.free_head < MAX_ACCOUNTS && !s.used[s.free_head as int],
        s.free_head == NIL_SLOT ==> forall|i: int| 0 <= i < MAX_ACCOUNTS ==> #[trigger] s.used[i],
{
    reveal(slots_in_order);
    let l = choose|l: Seq<int>|
    #[trigger] is_free_list(l, s.used, s.next_free, s.prev_free, s.free_head) && s.num_used_accounts + l.len()
        == MAX_ACCOUNTS;
    assert forall|i: int| 0 <= i < MAX_ACCOUNTS && !(#[trigger] s.used[i]) implies s.links_agree(i) by {
        assert(l.contains(i));
        let k = choose|k: int| 0 <= k < l.len() && l[k] == i;
        assert(s.next_free[l[k]] == entry(l, k + 1));
        assert(s.prev_free[l[k]] == entry(l, k - 1));
        if k > 0 {
            assert(!s.used[l[k - 1]]);
            assert(s.next_free[l[k - 1]] == entry(l, k));
        }
        if k + 1 < l.len() {
            assert(!s.used[l[k + 1]]);
            assert(s.prev_free[l[k + 1]] == entry(l, k));
        }
    }
    if l.len() > 0 {
        assert(!s.used[l[0]]);
    } else {
        assert forall|i: int| 0 <= i < MAX_ACCOUNTS implies #[trigger] s.used[i] by {
            if !s.used[i] {
                assert(l.contains(i));
            }
        }
    }
}

/// A slot can be taken wherever it is free and there is room for one more
/// account: the list is never in the way.
pub proof fn free_slot_is_available(s: EngineState, idx: u16, anchor: u64)
    requires
        s.slots_ok(),
        idx < MAX_ACCOUNTS,
    ensures
        s.materialize_at(idx, anchor) is Ok <==> {
            &&& !s.used[idx as int]
            &&& s.num_used_accounts < s.params.max_accounts
            &&& s.materialized_account_count < MAX_MATERIALIZED_ACCOUNTS
        },
{
    unused_slots_can_be_taken(s);
}

/// A free list without its entry `k`, with the neighbours linked to each other.
proof fn lemma_unlink(
    l: Seq<int>,
    k: int,
    used: Seq<bool>,
    next: Seq<u16>,
    prev: Seq<u16>,
    head: u16,
    nf: Seq<u16>,
    pf: Seq<u16>,
)
    requires
        used.len() == MAX_ACCOUNTS,
        next.len() == MAX_ACCOUNTS,
        prev.len() == MAX_ACCOUNTS,
        is_free_list(l, used, next, prev, head),
        0 <= k < l.len(),
        nf == (if k > 0 {
                next.update(l[k - 1], entry(l, k + 1))
            } else {
                next
        }).update(l[k], NIL_SLOT),
        pf == (if k + 1 < l.len() {
                prev.update(l[k + 1], entry(l, k - 1))
            } else {
                prev
        }).update(l[k], NIL_SLOT),
    ensures
        is_free_list(
            l.remove(k),
            used.update(l[k], true),
            nf,
            pf,
            if k > 0 {
                head
            } else {
                entry(l, 1)
            },
        ),
{
    let m = l.remove(k);
    let i = l[k];
    let u = used.update(i, true);
    assert(!used[i]);
    assert forall|j: int| 0 <= j < m.len() implies 0 <= #[trigger] m[j] < MAX_ACCOUNTS && !u[m[j]] by {
        let j0 = if j < k {
            j
        } else {
            j + 1
        };
        assert(m[j] == l[j0]);
        assert(!used[l[j0]]);
        assert(l[j0] != i);
    }
    assert forall|a: int, b: int| 0 <= a < m.len() && 0 <= b < m.len() && a != b implies m[a] != m[b] by {
        let a0 = if a < k {
            a
        } else {
            a + 1
        };
        let b0 = if b < k {
            b
        } else {
            b + 1
        };
        assert(l[a0] != l[b0]);
    }
    assert forall|j: int| 0 <= j < MAX_ACCOUNTS && !(#[trigger] u[j]) implies m.contains(j) by {
        assert(j != i);
        assert(!used[j]);
        assert(l.contains(j));
        let p = choose|p: int| 0 <= p < l.len() && l[p] == j;
        if p < k {
            assert(m[p] == j);
        } else {
            assert(m[p - 1] == j);
        }
    }
    assert forall|j: int| 0 <= j < m.len() implies #[trigger] nf[m[j]] == entry(m, j + 1) by {
        let j0 = if j < k {
            j
        } else {
            j + 1
        };
        assert(!used[l[j0]]);
        assert(next[l[j0]] == entry(l, j0 + 1));
        assert(l[j0] != i);
        if k > 0 {
            assert(!used[l[k - 1]]);
            if j0 != k - 1 {
                assert(l[j0] != l[k - 1]);
            }
        }
    }
    assert forall|j: int| 0 <= j < m.len() implies #[trigger] pf[m[j]] == entry(m, j - 1) by {
        let j0 = if j < k {
            j
        } else {
            j + 1
        };
        assert(!used[l[j0]]);
        assert(prev[l[j0]] == entry(l, j0 - 1));
        assert(l[j0] != i);
        if k + 1 < l.len() {
            assert(!used[l[k + 1]]);
            if j0 != k + 1 {
                assert(l[j0] != l[k + 1]);
            }
        }
    }
}

/// A free list with the slot `i` put in front.
proof fn lemma_push_front(l: Seq<int>, i: int, used: Seq<bool>, next: Seq<u16>, prev: Seq<u16>, head: u16)
    requires
        used.len() == MAX_ACCOUNTS,
        next.len() == MAX_ACCOUNTS,
        prev.len() == MAX_ACCOUNTS,
        is_free_list(l, used, next, prev, head),
        0 <= i < MAX_ACCOUNTS,
        used[i],
    ensures
        is_free_list(
            seq![i] + l,
            used.update(i, false),
            next.update(i, head),
            (if head != NIL_SLOT {
                    prev.update(i, NIL_SLOT).update(head as int, i as u16)
                } else {
                    prev.update(i, NIL_SLOT)
            }),
            i as u16,
        ),
        l.len() < MAX_ACCOUNTS,
{
    let m = seq![i] + l;
    let u = used.update(i, false);
    let nf = next.update(i, head);
    let p0 = prev.update(i, NIL_SLOT);
    let pf = if head != NIL_SLOT {
        p0.update(head as int, i as u16)
    } else {
        p0
    };
    if l.len() > 0 {
        assert(!used[l[0]]);
    }
    lemma_list_leaves_out(l, used, i);
    assert forall|j: int| 0 <= j < m.len() implies 0 <= #[trigger] m[j] < MAX_ACCOUNTS && !u[m[j]] by {
        if j > 0 {
            assert(m[j] == l[j - 1]);
            assert(!used[l[j - 1]]);
        }
    }
    assert forall|a: int, b: int| 0 <= a < m.len() && 0 <= b < m.len() && a != b implies m[a] != m[b] by {
        if a > 0 {
            assert(m[a] == l[a - 1]);
            assert(!used[l[a - 1]]);
        }
        if b > 0 {
            assert(m[b] == l[b - 1]);
            assert(!used[l[b - 1]]);
        }
    }
    assert forall|j: int| 0 <= j < MAX_ACCOUNTS && !(#[trigger] u[j]) implies m.contains(j) by {
        if j == i {
            assert(m[0] == j);
        } else {
            assert(!used[j]);
            assert(l.contains(j));
            let p = choose|p: int| 0 <= p < l.len() && l[p] == j;
            assert(m[p + 1] == j);
        }
    }
    assert forall|j: int| 0 <= j < m.len() implies #[trigger] nf[m[j]] == entry(m, j + 1) by {
        if j > 0 {
            assert(m[j] == l[j - 1]);
            assert(!used[l[j - 1]]);
            assert(next[l[j - 1]] == entry(l, j));
        }
    }
    assert forall|j: int| 0 <= j < m.len() implies #[trigger] pf[m[j]] == entry(m, j - 1) by {
        if j > 0 {
            assert(m[j] == l[j - 1]);
            assert(!used[l[j - 1]]);
            assert(prev[l[j - 1]] == entry(l, j - 2));
            if j > 1 {
                assert(l[0] != l[j - 1]);
            }
        }
    }
}

/// Taking a slot keeps the slots in order.
pub proof fn taking_keeps_slots(s: EngineState, idx: u16, anchor: u64)
    requires
        s.slots_ok(),
    ensures
        s.materialize_at(idx, anchor) matches Ok(t) ==> t.slots_ok(),
{
    reveal(slots_in_order);
    if let Ok(t) = s.materialize_at(idx, anchor) {
        let i = idx as int;
        let l = choose|l: Seq<int>|
        #[trigger] is_free_list(l, s.used, s.next_free, s.prev_free, s.free_head) && s.num_used_accounts + l.len()
            == MAX_ACCOUNTS;
        assert(l.contains(i));
        let k = choose|k: int| 0 <= k < l.len() && l[k] == i;
        assert(s.next_free[l[k]] == entry(l, k + 1));
        assert(s.prev_free[l[k]] == entry(l, k - 1));
        if k > 0 {
            assert(!s.used[l[k - 1]]);
        }
        if k + 1 < l.len() {
            assert(!s.used[l[k + 1]]);
        }
        lemma_unlink(l, k, s.used, s.next_free, s.prev_free, s.free_head, t.next_free, t.prev_free);
        assert(is_free_list(l.remove(k), t.used, t.next_free, t.prev_free, t.free_head));
    }
}

/// Freeing a slot keeps the slots in order. The counters never stand in its way.
pub proof fn freeing_keeps_slots(s: EngineState, idx: u16)
    requires
        s.slots_ok(),
    ensures
        s.free_slot(idx).0.slots_ok(),
        idx < MAX_ACCOUNTS && s.freeable(idx as int) ==> s.free_slot(idx).1 is Ok,
{
    reveal(slots_in_order);
    if idx < MAX_ACCOUNTS && s.freeable(idx as int) {
        let i = idx as int;
        let t = s.free_slot(idx).0;
        let l = choose|l: Seq<int>|
        #[trigger] is_free_list(l, s.used, s.next_free, s.prev_free, s.free_head) && s.num_used_accounts + l.len()
            == MAX_ACCOUNTS;
        lemma_push_front(l, i, s.used, s.next_free, s.prev_free, s.free_head);
        assert(is_free_list(seq![i] + l, t.used, t.next_free, t.prev_free, t.free_head));
    }
}

/// A list of unused slots without repetition leaves room for a used one.
proof fn lemma_list_leaves_out(l: Seq<int>, used: Seq<bool>, i: int)
    requires
        l.no_duplicates(),
        forall|k: int| 0 <= k < l.len() ==> 0 <= #[trigger] l[k] < MAX_ACCOUNTS && !used[l[k]],
        0 <= i < MAX_ACCOUNTS,
        used[i],
    ensures
        l.len() < MAX_ACCOUNTS,
{
    let m = l.push(i);
    assert(m.no_duplicates()) by {
        assert forall|a: int, b: int| 0 <= a < m.len() && 0 <= b < m.len() && a != b implies m[a] != m[b] by {
            if a < l.len() {
                assert(!used[l[a]]);
            }
            if b < l.len() {
                assert(!used[l[b]]);
            }
        }
    }
    let all = vstd::set_lib::set_int_range(0, MAX_ACCOUNTS as int);
    vstd::set_lib::lemma_int_range(0, MAX_ACCOUNTS as int);
    assert(m.to_set().subset_of(all)) by {
        assert forall|x: int| m.to_set().contains(x) implies all.contains(x) by {
            let k = choose|k: int| 0 <= k < m.len() && m[k] == x;
            if k < l.len() {
                assert(m[k] == l[k]);
                assert(!used[l[k]]);
            }
        }
    }
    vstd::set_lib::lemma_len_subset(m.to_set(), all);
    m.unique_seq_to_set();
}

} // verus!
