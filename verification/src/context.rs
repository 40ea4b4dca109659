//! The per-instruction context: what it records and how it is filled.

use vstd::prelude::*;
use crate::constants::{MAX_ACCOUNTS, MAX_TOUCHED_PER_INSTRUCTION};
use crate::types::{InstructionContext, Side};

verus! {

/// The list is in ascending order, without repetition.
pub open spec fn is_ascending(l: Seq<u16>) -> bool {
    forall|i: int, j: int| 0 <= i < j < l.len() ==> #[trigger] l[i] < #[trigger] l[j]
}

/// How many entries of the list are smaller than `x`.
pub open spec fn count_below(l: Seq<u16>, x: u16) -> nat
    decreases l.len(),
{
    if l.len() == 0 {
        0
    } else {
        count_below(l.drop_last(), x) + if l.last() < x {
            1nat
        } else {
            0nat
        }
    }
}

/// The entries smaller than `x` are the first `n`.
proof fn lemma_count_below(l: Seq<u16>, x: u16, n: int)
    requires
        0 <= n <= l.len(),
        forall|j: int| 0 <= j < n ==> l[j] < x,
        forall|j: int| n <= j < l.len() ==> l[j] >= x,
    ensures
        count_below(l, x) == n,
    decreases l.len(),
{
    if l.len() > 0 {
        let m = if n == l.len() {
            n - 1
        } else {
            n
        };
        lemma_count_below(l.drop_last(), x, m);
    }
}

/// No more entries are smaller than `x` than there are.
pub proof fn count_below_is_a_place(l: Seq<u16>, x: u16)
    ensures
        count_below(l, x) <= l.len(),
    decreases l.len(),
{
    if l.len() > 0 {
        count_below_is_a_place(l.drop_last(), x);
    }
}

/// Touching an account adds it to the touched ones and nothing else.
pub proof fn touch_adds_one(c: CtxState, idx: u16)
    ensures
        c.touch(idx) matches Some(d) ==> {
            &&& d.touched.contains(idx)
            &&& forall|k: int| 0 <= k < d.touched.len() ==> #[trigger] d.touched[k] == idx || c.touched.contains(d.touched[k])
            &&& forall|x: u16| c.touched.contains(x) ==> d.touched.contains(x)
        },
{
    if let Some(d) = c.touch(idx) {
        count_below_is_a_place(c.touched, idx);
        if !c.touched.contains(idx) {
            let p = count_below(c.touched, idx) as int;
            assert(d.touched[p] == idx);
            assert forall|k: int| 0 <= k < d.touched.len() implies #[trigger] d.touched[k] == idx || c.touched.contains(
                d.touched[k],
            ) by {
                if k < p {
                    assert(d.touched[k] == c.touched[k]);
                } else if k > p {
                    assert(d.touched[k] == c.touched[k - 1]);
                }
            }
            assert forall|x: u16| c.touched.contains(x) implies d.touched.contains(x) by {
                let k = choose|k: int| 0 <= k < c.touched.len() && c.touched[k] == x;
                if k < p {
                    assert(d.touched[k] == x);
                } else {
                    assert(d.touched[k + 1] == x);
                }
            }
        }
    }
}

/// The first account that is touched is the only one.
pub proof fn first_touch(c: CtxState, idx: u16)
    requires
        c.touched.len() == 0,
    ensures
        c.touch(idx) == Some(CtxState { touched: seq![idx], ..c }),
{
    assert(count_below(c.touched, idx) == 0);
    assert(c.touched.insert(0, idx) =~= seq![idx]);
}

/// Touching keeps the ascending order.
pub proof fn touch_keeps_order(c: CtxState, idx: u16)
    requires
        is_ascending(c.touched),
    ensures
        c.touch(idx) matches Some(d) ==> is_ascending(d.touched),
{
    if let Some(d) = c.touch(idx) {
        if !c.touched.contains(idx) {
            let l = c.touched;
            let p = lemma_place(l, idx);
            let t = d.touched;
            assert forall|i: int, j: int| 0 <= i < j < t.len() implies #[trigger] t[i] < #[trigger] t[j] by {
                let i0 = if i < p {
                    i
                } else {
                    i - 1
                };
                let j0 = if j < p {
                    j
                } else {
                    j - 1
                };
                if i != p && j != p {
                    assert(l[i0] < l[j0]);
                }
            }
        }
    }
}

/// Where an entry goes in an ascending list: after the smaller ones, and before
/// the larger.
proof fn lemma_place(l: Seq<u16>, x: u16) -> (p: int)
    requires
        is_ascending(l),
        !l.contains(x),
    ensures
        p == count_below(l, x),
        0 <= p <= l.len(),
        forall|j: int| 0 <= j < p ==> l[j] < x,
        forall|j: int| p <= j < l.len() ==> l[j] > x,
    decreases l.len(),
{
    if l.len() == 0 {
        0
    } else {
        let m = l.drop_last();
        assert(l[l.len() - 1] == l.last());
        assert(!m.contains(x)) by {
            if m.contains(x) {
                let k = choose|k: int| 0 <= k < m.len() && m[k] == x;
                assert(l[k] == x);
            }
        }
        assert(l.contains(l.last()));
        let q = lemma_place(m, x);
        if l.last() < x {
            assert forall|j: int| 0 <= j < l.len() implies l[j] < x by {
                if j < l.len() - 1 {
                    assert(l[j] < l[l.len() - 1]);
                }
            }
            lemma_count_below(l, x, l.len() as int);
            l.len() as int
        } else {
            assert forall|j: int| q <= j < l.len() implies l[j] > x by {
                if j < l.len() - 1 {
                    assert(m[j] > x);
                }
            }
            assert forall|j: int| 0 <= j < q implies l[j] < x by {
                assert(m[j] < x);
            }
            q
        }
    }
}

/// What an [`InstructionContext`] holds.
#[verifier::ext_equal]
pub struct CtxState {
    pub pending_reset_long: bool,
    pub pending_reset_short: bool,
    pub admit_h_min: u64,
    pub admit_h_max: u64,
    pub touched: Seq<u16>,
    pub sticky: Seq<u16>,
}

impl CtxState {
    /// A context in which nothing has happened.
    pub open spec fn fresh(admit_h_min: u64, admit_h_max: u64) -> CtxState {
        CtxState {
            pending_reset_long: false,
            pending_reset_short: false,
            admit_h_min,
            admit_h_max,
            touched: Seq::empty(),
            sticky: Seq::empty(),
        }
    }

    /// Schedule a reset of one side.
    pub open spec fn with_reset(self, s: Side) -> CtxState {
        match s {
            Side::Long => CtxState { pending_reset_long: true, ..self },
            Side::Short => CtxState { pending_reset_short: true, ..self },
        }
    }

    /// Whether a reset of either side is scheduled.
    pub open spec fn any_reset(self) -> bool {
        self.pending_reset_long || self.pending_reset_short
    }

    /// Record an account as touched, once and at its place in ascending order; there
    /// is room for `MAX_TOUCHED_PER_INSTRUCTION`.
    pub open spec fn touch(self, idx: u16) -> Option<CtxState> {
        if self.touched.contains(idx) {
            Some(self)
        } else if self.touched.len() < MAX_TOUCHED_PER_INSTRUCTION {
            Some(CtxState { touched: self.touched.insert(count_below(self.touched, idx) as int, idx), ..self })
        } else {
            None
        }
    }

    /// Record an account as admitted at the longer horizon, once.
    pub open spec fn stick(self, idx: u16) -> Option<CtxState> {
        if self.sticky.contains(idx) {
            Some(self)
        } else if self.sticky.len() < MAX_TOUCHED_PER_INSTRUCTION {
            Some(CtxState { sticky: self.sticky.push(idx), ..self })
        } else {
            None
        }
    }

    /// Every touched account is a slot of the engine.
    pub open spec fn slots_ok(self) -> bool {
        forall|i: int| 0 <= i < self.touched.len() ==> (#[trigger] self.touched[i]) < MAX_ACCOUNTS
    }
}

impl View for InstructionContext {
    type V = CtxState;

    open spec fn view(&self) -> CtxState {
        CtxState {
            pending_reset_long: self.pending_reset_long,
            pending_reset_short: self.pending_reset_short,
            admit_h_min: self.admit_h_min_shared,
            admit_h_max: self.admit_h_max_shared,
            touched: self.touched_accounts@.take(self.touched_count as int),
            sticky: self.h_max_sticky_accounts@.take(self.h_max_sticky_count as int),
        }
    }
}

impl InstructionContext {
    /// Both counts are within their arrays, and the touched accounts are in ascending
    /// order, without repetition.
    pub open spec fn wf(&self) -> bool {
        &&& self.touched_count <= MAX_TOUCHED_PER_INSTRUCTION
        &&& self.h_max_sticky_count <= MAX_TOUCHED_PER_INSTRUCTION
        &&& is_ascending(self@.touched)
    }

    /// Both arrays hold nothing but zeros.
    pub open spec fn slots_are_zero(&self) -> bool {
        &&& forall|i: int| 0 <= i < self.touched_accounts@.len() ==> #[trigger] self.touched_accounts@[i] == 0
        &&& forall|i: int| 0 <= i < self.h_max_sticky_accounts@.len() ==> #[trigger] self.h_max_sticky_accounts@[i] == 0
    }

    pub fn new() -> (r: InstructionContext)
        ensures
            r.wf(),
            r@ == CtxState::fresh(0, 0),
            r.slots_are_zero(),
    {
        InstructionContext::new_with_admission(0, 0)
    }

    pub fn new_with_admission(admit_h_min: u64, admit_h_max: u64) -> (r: InstructionContext)
        ensures
            r.wf(),
            r@ == CtxState::fresh(admit_h_min, admit_h_max),
            r.slots_are_zero(),
    {
        InstructionContext {
            pending_reset_long: false,
            pending_reset_short: false,
            admit_h_min_shared: admit_h_min,
            admit_h_max_shared: admit_h_max,
            touched_accounts: [0; 64],
            touched_count: 0,
            h_max_sticky_accounts: [0; 64],
            h_max_sticky_count: 0,
        }
    }

    /// Whether the account was admitted at the longer horizon.
    pub fn is_h_max_sticky(&self, idx: u16) -> (r: bool)
        requires
            self.wf(),
        ensures
            r == self@.sticky.contains(idx),
    {
        let count: usize = self.h_max_sticky_count as usize;
        let mut i: usize = 0;
        while i < count
            invariant
                i <= count,
                count == self.h_max_sticky_count,
                count <= MAX_TOUCHED_PER_INSTRUCTION,
                forall|j: int| 0 <= j < i ==> self@.sticky[j] != idx,
            decreases count - i,
        {
            assert(self@.sticky[i as int] == self.h_max_sticky_accounts@[i as int]);
            if self.h_max_sticky_accounts[i] == idx {
                return true;
            }
            i += 1;
        }
        false
    }

    /// Record the account as admitted at the longer horizon. False where there is
    /// no room for it.
    pub fn mark_h_max_sticky(&mut self, idx: u16) -> (r: bool)
        requires
            old(self).wf(),
        ensures
            final(self).wf(),
            match old(self)@.stick(idx) {
                Some(c) => r && final(self)@ == c,
                None => !r && final(self)@ == old(self)@,
            },
    {
        if self.is_h_max_sticky(idx) {
            return true;
        }
        let count: usize = self.h_max_sticky_count as usize;
        if count < MAX_TOUCHED_PER_INSTRUCTION {
            self.h_max_sticky_accounts[count] = idx;
            self.h_max_sticky_count = self.h_max_sticky_count + 1;
            assert(self@.sticky =~= old(self)@.sticky.push(idx));
            true
        } else {
            false
        }
    }

    /// Record the account as touched, at its place in ascending order. False where
    /// there is no room for it.
    pub fn add_touched(&mut self, idx: u16) -> (r: bool)
        requires
            old(self).wf(),
        ensures
            final(self).wf(),
            match old(self)@.touch(idx) {
                Some(c) => r && final(self)@ == c,
                None => !r && final(self)@ == old(self)@,
            },
            r ==> final(self)@.touched.contains(idx),
            r && !old(self)@.touched.contains(idx) ==> final(self)@.touched.len() == old(self)@.touched.len() + 1,
            r ==> forall|x: u16| #[trigger]
            final(self)@.touched.contains(x) <==> old(self)@.touched.contains(x) || x == idx,
    {
        let count: usize = self.touched_count as usize;
        let ghost before = self@.touched;
        let mut place: usize = 0;
        while place < count && self.touched_accounts[place] < idx
            invariant
                place <= count,
                *self == *old(self),
                self.wf(),
                before == self@.touched,
                count == self.touched_count,
                count <= MAX_TOUCHED_PER_INSTRUCTION,
                forall|j: int| 0 <= j < place ==> before[j] < idx,
            decreases count - place,
        {
            assert(before[place as int] == self.touched_accounts@[place as int]);
            place += 1;
        }
        if place < count && self.touched_accounts[place] == idx {
            assert(before[place as int] == idx);
            return true;
        }
        proof {
            assert forall|j: int| place <= j < count implies before[j] > idx by {
                assert(before[place as int] == self.touched_accounts@[place as int]);
                if j > place {
                    assert(before[place as int] < before[j]);
                }
            }
            lemma_count_below(before, idx, place as int);
            assert(!before.contains(idx));
        }
        if count == MAX_TOUCHED_PER_INSTRUCTION {
            return false;
        }
        let mut k: usize = count;
        while k > place
            invariant
                place <= k <= count,
                count < MAX_TOUCHED_PER_INSTRUCTION,
                before.len() == count,
                forall|j: int| 0 <= j < k ==> self.touched_accounts@[j] == before[j],
                forall|j: int| k < j <= count ==> self.touched_accounts@[j] == before[j - 1],
                *self == (InstructionContext { touched_accounts: self.touched_accounts, ..*old(self) }),
            decreases k - place,
        {
            self.touched_accounts[k] = self.touched_accounts[k - 1];
            k -= 1;
        }
        self.touched_accounts[place] = idx;
        self.touched_count = self.touched_count + 1;
        proof {
            touch_keeps_order(old(self)@, idx);
            touch_adds_one(old(self)@, idx);
            assert(self@.touched =~= before.insert(place as int, idx));
            assert(self@.sticky =~= old(self)@.sticky);
        }
        true
    }

    /// Schedule a reset of one side.
    pub(crate) fn set_pending_reset(&mut self, side: Side)
        requires
            old(self).wf(),
        ensures
            final(self).wf(),
            final(self)@ == old(self)@.with_reset(side),
    {
        match side {
            Side::Long => {
                self.pending_reset_long = true;
            },
            Side::Short => {
                self.pending_reset_short = true;
            },
        }
    }
}

/// Touching a slot of the engine keeps the touched list good.
pub proof fn touch_keeps_slots_ok(c: CtxState, idx: u16)
    requires
        c.slots_ok(),
        idx < MAX_ACCOUNTS,
    ensures
        c.touch(idx) is Some ==> c.touch(idx)->0.slots_ok(),
{
    touch_adds_one(c, idx);
}

} // verus!
