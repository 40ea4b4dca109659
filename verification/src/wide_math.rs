//! Exact 256-bit integers for transient intermediates, and the rounded
//! multiply-then-divide helpers built on them.

use vstd::prelude::*;
use vstd::arithmetic::div_mod::lemma_fundamental_div_mod_converse;

verus! {

/// Two to the 128th power.
#[verifier::inline]
pub open spec fn pow128() -> int {
    0x1_0000_0000_0000_0000_0000_0000_0000_0000int
}

/// Two to the 255th power.
#[verifier::inline]
pub open spec fn pow255() -> int {
    0x8000_0000_0000_0000_0000_0000_0000_0000_0000_0000_0000_0000_0000_0000_0000_0000int
}

/// Two to the 256th power.
#[verifier::inline]
pub open spec fn pow256() -> int {
    0x1_0000_0000_0000_0000_0000_0000_0000_0000_0000_0000_0000_0000_0000_0000_0000_0000int
}

/// Ceiling division.
pub open spec fn ceil_div(n: int, d: int) -> int
    recommends
        d > 0,
{
    if n % d == 0 {
        n / d
    } else {
        n / d + 1
    }
}

/// An unsigned 256-bit integer.
#[derive(Clone, Copy, Debug, PartialEq, Eq, Structural)]
pub struct U256 {
    pub hi: u128,
    pub lo: u128,
}

impl View for U256 {
    type V = int;

    open spec fn view(&self) -> int {
        self.hi * pow128() + self.lo
    }
}

impl U256 {
    pub fn from_u128(v: u128) -> (r: U256)
        ensures
            r@ == v,
    {
        U256 { hi: 0, lo: v }
    }

    pub fn is_zero(&self) -> (r: bool)
        ensures
            r == (self@ == 0),
    {
        self.hi == 0 && self.lo == 0
    }

    pub fn try_into_u128(&self) -> (r: Option<u128>)
        ensures
            r == (if self@ <= u128::MAX {
                Some(self@ as u128)
            } else {
                None::<u128>
            }),
    {
        if self.hi == 0 {
            Some(self.lo)
        } else {
            None
        }
    }

    pub fn is_less_than(&self, rhs: &U256) -> (r: bool)
        ensures
            r == (self@ < rhs@),
    {
        self.hi < rhs.hi || (self.hi == rhs.hi && self.lo < rhs.lo)
    }

    pub fn checked_add(&self, rhs: &U256) -> (r: Option<U256>)
        ensures
            match r {
                Some(s) => s@ == self@ + rhs@,
                None => self@ + rhs@ >= pow256(),
            },
    {
        let room: u128 = u128::MAX - self.lo;
        let carry: bool = rhs.lo > room;
        let lo: u128 = if carry {
            rhs.lo - room - 1
        } else {
            self.lo + rhs.lo
        };
        match self.hi.checked_add(rhs.hi) {
            None => None,
            Some(h) => {
                if carry {
                    if h == u128::MAX {
                        None
                    } else {
                        Some(U256 { hi: h + 1, lo })
                    }
                } else {
                    Some(U256 { hi: h, lo })
                }
            },
        }
    }

    pub fn checked_sub(&self, rhs: &U256) -> (r: Option<U256>)
        ensures
            match r {
                Some(s) => s@ == self@ - rhs@,
                None => self@ < rhs@,
            },
    {
        if self.is_less_than(rhs) {
            return None;
        }
        if self.lo >= rhs.lo {
            Some(U256 { hi: self.hi - rhs.hi, lo: self.lo - rhs.lo })
        } else {
            Some(U256 { hi: self.hi - rhs.hi - 1, lo: u128::MAX - rhs.lo + 1 + self.lo })
        }
    }

    pub fn checked_mul(&self, rhs: &U256) -> (r: Option<U256>)
        ensures
            match r {
                Some(p) => p@ == self@ * rhs@,
                None => self@ * rhs@ >= pow256(),
            },
    {
        if self.hi != 0 && rhs.hi != 0 {
            proof {
                lemma_product_at_least(self@, pow128(), rhs@, pow128());
            }
            return None;
        }
        // At least one high half is zero, so the cross terms are one product.
        let (wide, narrow): (U256, u128) = if self.hi != 0 {
            (*self, rhs.lo)
        } else {
            (*rhs, self.lo)
        };
        proof {
            lemma_commute(self@, rhs@);
        }
        assert(self@ * rhs@ == wide@ * narrow);
        let cross: U256 = widening_mul(wide.hi, narrow);
        let low: U256 = widening_mul(wide.lo, narrow);
        proof {
            lemma_distribute(wide.hi as int, pow128(), wide.lo as int, narrow as int);
        }
        assert(wide@ * narrow == cross@ * pow128() + low@);
        if cross.hi != 0 {
            return None;
        }
        match low.hi.checked_add(cross.lo) {
            Some(h) => Some(U256 { hi: h, lo: low.lo }),
            None => None,
        }
    }
}

proof fn lemma_product_at_least(a: int, x: int, b: int, y: int)
    by (nonlinear_arith)
    requires
        a >= x >= 0,
        b >= y >= 0,
    ensures
        a * b >= x * y,
{
}

proof fn lemma_commute(a: int, b: int)
    by (nonlinear_arith)
    ensures
        a * b == b * a,
{
}

proof fn lemma_distribute(h: int, p: int, l: int, n: int)
    by (nonlinear_arith)
    ensures
        (h * p + l) * n == (h * n) * p + l * n,
{
}

proof fn lemma_limbs(a1: int, a0: int, b1: int, b0: int, w: int)
    ensures
        (a1 * w + a0) * (b1 * w + b0) == (a1 * b1) * (w * w) + (a0 * b1 + a1 * b0) * w + a0 * b0,
{
    let b = b1 * w + b0;
    lemma_distribute(a1, w, a0, b);
    assert(a1 * b == (a1 * b1) * w + a1 * b0) by (nonlinear_arith)
        requires
            b == b1 * w + b0,
    ;
    assert(a0 * b == (a0 * b1) * w + a0 * b0) by (nonlinear_arith)
        requires
            b == b1 * w + b0,
    ;
    let p = a1 * b1;
    let q = a1 * b0;
    let r = a0 * b1;
    assert((p * w + q) * w == p * (w * w) + q * w) by (nonlinear_arith);
    assert((r + q) * w == r * w + q * w) by (nonlinear_arith);
}

proof fn lemma_limb_product(x: int, y: int)
    by (nonlinear_arith)
    requires
        0 <= x <= 0xffff_ffff_ffff_ffff,
        0 <= y <= 0xffff_ffff_ffff_ffff,
    ensures
        0 <= x * y <= 0xffff_ffff_ffff_ffff * 0xffff_ffff_ffff_ffff,
{
}

/// The full 256-bit product of two 128-bit integers.
pub fn widening_mul(a: u128, b: u128) -> (r: U256)
    ensures
        r@ == a * b,
{
    let w: u128 = 0x1_0000_0000_0000_0000;
    let a1: u128 = a / w;
    let a0: u128 = a % w;
    let b1: u128 = b / w;
    let b0: u128 = b % w;
    proof {
        lemma_limb_product(a0 as int, b0 as int);
        lemma_limb_product(a0 as int, b1 as int);
        lemma_limb_product(a1 as int, b0 as int);
        lemma_limb_product(a1 as int, b1 as int);
        lemma_limbs(a1 as int, a0 as int, b1 as int, b0 as int, w as int);
    }
    let p00: u128 = a0 * b0;
    let p01: u128 = a0 * b1;
    let p10: u128 = a1 * b0;
    let p11: u128 = a1 * b1;
    let mid: u128 = p00 / w + p01 % w + p10 % w;
    let lo: u128 = p00 % w + (mid % w) * w;
    let hi: u128 = p11 + p01 / w + p10 / w + mid / w;
    U256 { hi, lo }
}

proof fn lemma_div_step(n: int, d: int, q: int, r: int)
    requires
        d > 0,
        0 <= r < d,
        n == q * d + r,
    ensures
        q == n / d,
        r == n % d,
{
    lemma_fundamental_div_mod_converse(n, d, q, r);
}

/// Quotient and remainder of 256-bit integers, by restoring long division.
pub fn div_rem_u256(n: U256, d: U256) -> (r: (U256, U256))
    requires
        d@ > 0,
    ensures
        r.0@ == n@ / d@,
        r.1@ == n@ % d@,
{
    if n.hi == 0 && d.hi == 0 {
        let q: u128 = n.lo / d.lo;
        let m: u128 = n.lo % d.lo;
        return (U256 { hi: 0, lo: q }, U256 { hi: 0, lo: m });
    }
    let half: u128 = 0x8000_0000_0000_0000_0000_0000_0000_0000;
    let mut rest: U256 = n;
    let mut q: U256 = U256 { hi: 0, lo: 0 };
    let mut r: U256 = U256 { hi: 0, lo: 0 };
    let mut i: u32 = 0;
    let ghost mut head: int = 0;
    let ghost mut done: int = 1;
    // `done` is 2^i, `head` the i leading bits of `n`, and `rest` the remaining
    // bits shifted to the top.
    while i < 256
        invariant
            i <= 256,
            half == 0x8000_0000_0000_0000_0000_0000_0000_0000u128,
            d@ > 0,
            done == pow2_of(i as int),
            0 <= head < done,
            n@ * done == head * pow256() + rest@,
            head == q@ * d@ + r@,
            0 <= r@ < d@,
            0 <= q@ <= head,
        decreases 256 - i,
    {
        let ghost head0 = head;
        let ghost rest0 = rest@;
        let ghost q0 = q@;
        let ghost r0 = r@;
        let ghost done0 = done;
        let bit: u128 = if rest.hi >= half {
            1
        } else {
            0
        };
        rest = double_wrapping(&rest);
        let overflow: bool = r.hi >= half;
        let doubled: U256 = double_wrapping(&r);
        // The low bit of a doubled number is free.
        let r2: U256 = U256 { hi: doubled.hi, lo: doubled.lo + bit };
        proof {
            lemma_pow2_step(i as int);
            head = 2 * head0 + bit;
            done = 2 * done0;
            lemma_head_step(n@, done0, head0, rest0, rest@, bit as int);
            assert(q0 * d@ + r0 == head0);
            lemma_pow2_bound(i + 1);
            assert(2 * head0 + bit < 2 * done0);
        }
        let q2: U256 = double_wrapping(&q);
        if overflow || !r2.is_less_than(&d) {
            r = wrapping_diff(&r2, &d);
            q = U256 { hi: q2.hi, lo: q2.lo + 1 };
            proof {
                lemma_quotient_step(q0, d@, r0, bit as int, 1);
                lemma_nonneg_product(q@, d@);
            }
        } else {
            r = r2;
            q = q2;
            proof {
                lemma_quotient_step(q0, d@, r0, bit as int, 0);
                lemma_nonneg_product(q@, d@);
            }
        }
        i += 1;
    }
    proof {
        lemma_pow2_values();
        assert(n@ * done == n@ * pow256());
        assert(head == n@) by {
            lemma_head_is_all(n@, head, rest@);
        }
        lemma_div_step(n@, d@, q@, r@);
    }
    (q, r)
}

/// Two to the power `k`.
pub open spec fn pow2_of(k: int) -> int
    decreases k,
{
    if k <= 0 {
        1
    } else {
        2 * pow2_of(k - 1)
    }
}

proof fn lemma_pow2_step(k: int)
    requires
        k >= 0,
    ensures
        pow2_of(k + 1) == 2 * pow2_of(k),
        pow2_of(k) >= 1,
    decreases k,
{
    if k > 0 {
        lemma_pow2_step(k - 1);
    }
}

proof fn lemma_pow2_values()
    ensures
        pow2_of(256) == pow256(),
        pow2_of(0) == 1,
{
    assert(pow2_of(32) == 0x1_0000_0000int) by {
        reveal_with_fuel(pow2_of, 33);
    }
    lemma_pow2_sum(32, 32);
    lemma_square(pow2_of(32), 0x1_0000_0000int);
    lemma_pow2_sum(64, 64);
    lemma_square(pow2_of(64), 0x1_0000_0000_0000_0000int);
    lemma_pow2_sum(128, 128);
    lemma_square(pow2_of(128), pow128());
}

proof fn lemma_square(x: int, c: int)
    by (nonlinear_arith)
    requires
        x == c,
    ensures
        x * x == c * c,
{
}

proof fn lemma_pow2_sum(a: int, b: int)
    requires
        a >= 0,
        b >= 0,
    ensures
        pow2_of(a + b) == pow2_of(a) * pow2_of(b),
    decreases a,
{
    if a > 0 {
        lemma_pow2_sum(a - 1, b);
        assert(pow2_of(a + b) == 2 * pow2_of(a - 1 + b));
        assert(2 * (pow2_of(a - 1) * pow2_of(b)) == (2 * pow2_of(a - 1)) * pow2_of(b))
            by (nonlinear_arith);
    }
}

proof fn lemma_pow2_bound(k: int)
    requires
        0 <= k <= 256,
    ensures
        1 <= pow2_of(k) <= pow256(),
{
    lemma_pow2_values();
    lemma_pow2_sum(k, 256 - k);
    lemma_pow2_step(k);
    lemma_pow2_step(256 - k);
    let x = pow2_of(k);
    let y = pow2_of(256 - k);
    assert(x <= x * y) by (nonlinear_arith)
        requires
            x >= 1,
            y >= 1,
    ;
}

proof fn lemma_head_step(n: int, done: int, head: int, rest: int, rest2: int, bit: int)
    requires
        n * done == head * pow256() + rest,
        rest2 == 2 * rest - bit * pow256(),
    ensures
        n * (2 * done) == (2 * head + bit) * pow256() + rest2,
{
    assert(n * (2 * done) == 2 * (n * done)) by (nonlinear_arith);
}

proof fn lemma_head_is_all(n: int, head: int, rest: int)
    requires
        n * pow256() == head * pow256() + rest,
        0 <= rest < pow256(),
    ensures
        head == n,
{
}

proof fn lemma_quotient_step(q: int, d: int, r: int, bit: int, take: int)
    ensures
        2 * (q * d + r) + bit == (2 * q + take) * d + (2 * r + bit - take * d),
{
    assert(2 * (q * d + r) + bit == (2 * q + take) * d + (2 * r + bit - take * d))
        by (nonlinear_arith);
}

proof fn lemma_nonneg_product(q: int, d: int)
    requires
        q >= 0,
        d >= 1,
    ensures
        q * d >= q,
{
    assert(q * d >= q) by (nonlinear_arith)
        requires
            q >= 0,
            d >= 1,
    ;
}

/// Twice `v`, without the bit that leaves at the top.
fn double_wrapping(v: &U256) -> (r: U256)
    ensures
        v.hi < 0x8000_0000_0000_0000_0000_0000_0000_0000u128 ==> r@ == 2 * v@,
        v.hi >= 0x8000_0000_0000_0000_0000_0000_0000_0000u128 ==> r@ == 2 * v@ - pow256(),
        r.lo % 2 == 0,
        r.lo < u128::MAX,
{
    let half: u128 = 0x8000_0000_0000_0000_0000_0000_0000_0000;
    let carry: u128 = if v.lo >= half {
        1
    } else {
        0
    };
    let lo: u128 = if v.lo >= half {
        2 * (v.lo - half)
    } else {
        2 * v.lo
    };
    let hi: u128 = if v.hi >= half {
        2 * (v.hi - half)
    } else {
        2 * v.hi
    };
    U256 { hi: hi + carry, lo }
}

/// `a - b` modulo 2^256.
fn wrapping_diff(a: &U256, b: &U256) -> (r: U256)
    ensures
        a@ >= b@ ==> r@ == a@ - b@,
        a@ < b@ ==> r@ == a@ - b@ + pow256(),
{
    let borrow: bool = a.lo < b.lo;
    let lo: u128 = if borrow {
        u128::MAX - b.lo + 1 + a.lo
    } else {
        a.lo - b.lo
    };
    let hi: u128 = if borrow {
        if a.hi > b.hi {
            a.hi - b.hi - 1
        } else {
            u128::MAX - b.hi + a.hi
        }
    } else {
        if a.hi >= b.hi {
            a.hi - b.hi
        } else {
            u128::MAX - b.hi + 1 + a.hi
        }
    };
    U256 { hi, lo }
}

/// A signed 256-bit integer, as a sign and a magnitude.
#[derive(Clone, Copy, Debug, PartialEq, Eq, Structural)]
pub struct I256 {
    pub neg: bool,
    pub mag: U256,
}

impl View for I256 {
    type V = int;

    open spec fn view(&self) -> int {
        if self.neg {
            -self.mag@
        } else {
            self.mag@
        }
    }
}

/// Whether `v` is in the range of [`I256`].
pub open spec fn fits_i256(v: int) -> bool {
    -pow255() <= v < pow255()
}

impl I256 {
    /// In range, and zero has one form.
    pub open spec fn wf(&self) -> bool {
        &&& fits_i256(self@)
        &&& self.neg ==> self.mag@ > 0
    }

    fn from_parts(neg: bool, mag: U256) -> (r: Option<I256>)
        ensures
            ({
                let v = if neg {
                    -mag@
                } else {
                    mag@
                };
                match r {
                    Some(x) => x.wf() && x@ == v,
                    None => !fits_i256(v),
                }
            }),
    {
        let half: u128 = 0x8000_0000_0000_0000_0000_0000_0000_0000;
        if mag.is_zero() {
            return Some(I256 { neg: false, mag });
        }
        if mag.hi < half || (neg && mag.hi == half && mag.lo == 0) {
            Some(I256 { neg, mag })
        } else {
            None
        }
    }

    pub fn zero() -> (r: I256)
        ensures
            r.wf(),
            r@ == 0,
    {
        I256 { neg: false, mag: U256 { hi: 0, lo: 0 } }
    }

    pub fn from_u128(v: u128) -> (r: I256)
        ensures
            r.wf(),
            r@ == v,
    {
        I256 { neg: false, mag: U256 { hi: 0, lo: v } }
    }

    pub fn from_i128(v: i128) -> (r: I256)
        ensures
            r.wf(),
            r@ == v,
    {
        I256 { neg: v < 0, mag: U256 { hi: 0, lo: abs_i128(v) } }
    }

    pub fn is_zero(&self) -> (r: bool)
        requires
            self.wf(),
        ensures
            r == (self@ == 0),
    {
        self.mag.is_zero()
    }

    pub fn is_negative(&self) -> (r: bool)
        requires
            self.wf(),
        ensures
            r == (self@ < 0),
    {
        self.neg
    }

    pub fn abs_u256(&self) -> (r: U256)
        requires
            self.wf(),
        ensures
            r@ == (if self@ < 0 {
                -self@
            } else {
                self@
            }),
    {
        self.mag
    }

    pub fn is_less_than(&self, rhs: &I256) -> (r: bool)
        requires
            self.wf(),
            rhs.wf(),
        ensures
            r == (self@ < rhs@),
    {
        if self.neg != rhs.neg {
            self.neg
        } else if self.neg {
            rhs.mag.is_less_than(&self.mag)
        } else {
            self.mag.is_less_than(&rhs.mag)
        }
    }

    fn sum_of(a_neg: bool, a: &U256, b_neg: bool, b: &U256) -> (r: Option<I256>)
        ensures
            ({
                let v = (if a_neg {
                    -a@
                } else {
                    a@
                }) + (if b_neg {
                    -b@
                } else {
                    b@
                });
                match r {
                    Some(x) => x.wf() && x@ == v,
                    None => !fits_i256(v),
                }
            }),
    {
        if a_neg == b_neg {
            match a.checked_add(b) {
                Some(m) => I256::from_parts(a_neg, m),
                None => None,
            }
        } else {
            match a.checked_sub(b) {
                Some(m) => I256::from_parts(a_neg, m),
                None => match b.checked_sub(a) {
                    Some(m) => I256::from_parts(b_neg, m),
                    None => None,
                },
            }
        }
    }

    pub fn checked_add(&self, rhs: &I256) -> (r: Option<I256>)
        requires
            self.wf(),
            rhs.wf(),
        ensures
            match r {
                Some(x) => x.wf() && x@ == self@ + rhs@,
                None => !fits_i256(self@ + rhs@),
            },
    {
        I256::sum_of(self.neg, &self.mag, rhs.neg, &rhs.mag)
    }

    pub fn checked_sub(&self, rhs: &I256) -> (r: Option<I256>)
        requires
            self.wf(),
            rhs.wf(),
        ensures
            match r {
                Some(x) => x.wf() && x@ == self@ - rhs@,
                None => !fits_i256(self@ - rhs@),
            },
    {
        I256::sum_of(self.neg, &self.mag, !rhs.neg, &rhs.mag)
    }

    pub fn checked_mul_i256(&self, rhs: &I256) -> (r: Option<I256>)
        requires
            self.wf(),
            rhs.wf(),
        ensures
            match r {
                Some(x) => x.wf() && x@ == self@ * rhs@,
                None => !fits_i256(self@ * rhs@),
            },
    {
        proof {
            lemma_signed_product(self.mag@, rhs.mag@);
        }
        match self.mag.checked_mul(&rhs.mag) {
            Some(m) => I256::from_parts(self.neg != rhs.neg, m),
            None => None,
        }
    }

    pub fn try_into_i128(&self) -> (r: Option<i128>)
        requires
            self.wf(),
        ensures
            r == (if i128::MIN <= self@ <= i128::MAX {
                Some(self@ as i128)
            } else {
                None::<i128>
            }),
    {
        let half: u128 = 0x8000_0000_0000_0000_0000_0000_0000_0000;
        if self.mag.hi != 0 {
            return None;
        }
        if self.neg {
            if self.mag.lo == half {
                Some(i128::MIN)
            } else if self.mag.lo < half {
                Some(-(self.mag.lo as i128))
            } else {
                None
            }
        } else if self.mag.lo < half {
            Some(self.mag.lo as i128)
        } else {
            None
        }
    }
}

proof fn lemma_signed_product(a: int, b: int)
    ensures
        (-a) * b == -(a * b),
        a * (-b) == -(a * b),
        (-a) * (-b) == a * b,
{
    assert((-a) * b == -(a * b)) by (nonlinear_arith);
    assert(a * (-b) == -(a * b)) by (nonlinear_arith);
    assert((-a) * (-b) == a * b) by (nonlinear_arith);
}

/// The absolute value of an integer.
pub open spec fn abs_of(v: int) -> int {
    if v < 0 {
        -v
    } else {
        v
    }
}

/// The positive part of an integer.
pub open spec fn pos_of(v: int) -> int {
    if v > 0 {
        v
    } else {
        0
    }
}

/// The negative part of an integer.
pub open spec fn neg_of(v: int) -> int {
    if v < 0 {
        v
    } else {
        0
    }
}

/// The lesser of two integers.
pub open spec fn min_of(a: int, b: int) -> int {
    if a <= b {
        a
    } else {
        b
    }
}

/// The greater of two integers.
pub open spec fn max_of(a: int, b: int) -> int {
    if a >= b {
        a
    } else {
        b
    }
}

/// `a * b / d`, rounded down.
pub open spec fn muldiv(a: int, b: int, d: int) -> int
    recommends
        d > 0,
{
    (a * b) / d
}

/// `a * b / d`, rounded up.
pub open spec fn muldiv_up(a: int, b: int, d: int) -> int
    recommends
        d > 0,
{
    ceil_div(a * b, d)
}

/// The product, or the largest value where it does not fit.
pub fn saturating_mul_u128(a: u128, b: u128) -> (r: u128)
    ensures
        r == min_of(a * b, u128::MAX as int),
{
    match a.checked_mul(b) {
        Some(v) => v,
        None => u128::MAX,
    }
}

pub fn abs_i128(v: i128) -> (r: u128)
    ensures
        r == abs_of(v as int),
{
    if v >= 0 {
        v as u128
    } else if v == i128::MIN {
        0x8000_0000_0000_0000_0000_0000_0000_0000
    } else {
        (-v) as u128
    }
}

/// `max(v, 0)`.
pub fn i128_clamp_pos(v: i128) -> (r: u128)
    ensures
        r == pos_of(v as int),
{
    if v > 0 {
        v as u128
    } else {
        0
    }
}

pub fn min_u128(a: u128, b: u128) -> (r: u128)
    ensures
        r == min_of(a as int, b as int),
{
    if a <= b {
        a
    } else {
        b
    }
}

pub fn max_u128(a: u128, b: u128) -> (r: u128)
    ensures
        r == max_of(a as int, b as int),
{
    if a >= b {
        a
    } else {
        b
    }
}

/// Bounds on a rounded product, for arguments below given limits.
pub proof fn lemma_muldiv_bound(a: int, x: int, b: int, y: int, d: int)
    requires
        0 <= a <= x,
        0 <= b <= y,
        d > 0,
    ensures
        0 <= a * b <= x * y,
        0 <= muldiv(a, b, d) <= a * b,
        0 <= muldiv(a, b, d) <= (x * y) / d,
        muldiv(a, b, d) <= muldiv_up(a, b, d) <= muldiv(a, b, d) + 1,
        d == 10_000 && b <= 10_000 ==> muldiv(a, b, d) <= a && muldiv_up(a, b, d) <= a,
{
    assert(0 <= a * b <= x * y) by (nonlinear_arith)
        requires
            0 <= a <= x,
            0 <= b <= y,
    ;
    let p = a * b;
    vstd::arithmetic::div_mod::lemma_div_is_ordered(0, p, d);
    vstd::arithmetic::div_mod::lemma_div_is_ordered(p, x * y, d);
    assert(p / d <= p) by (nonlinear_arith)
        requires
            p >= 0,
            d > 0,
    ;
    assert(0int / d == 0) by (nonlinear_arith)
        requires
            d > 0,
    ;
    if d == 10_000 && b <= 10_000 {
        assert(p <= a * 10_000) by (nonlinear_arith)
            requires
                p == a * b,
                0 <= b <= 10_000,
                a >= 0,
        ;
        assert(p / d == p / 10_000 && p % d == p % 10_000);
    }
}

/// `floor(a * b / d)`.
pub fn mul_div_floor_u128(a: u128, b: u128, d: u128) -> (r: u128)
    requires
        d > 0,
        muldiv(a as int, b as int, d as int) <= u128::MAX,
    ensures
        r == muldiv(a as int, b as int, d as int),
{
    let (q, _m): (U256, U256) = mul_div_floor_u256_with_rem(a, b, d);
    q.lo
}

/// `ceil(a * b / d)`.
pub fn mul_div_ceil_u128(a: u128, b: u128, d: u128) -> (r: u128)
    requires
        d > 0,
        muldiv_up(a as int, b as int, d as int) <= u128::MAX,
    ensures
        r == muldiv_up(a as int, b as int, d as int),
{
    let (q, m): (U256, U256) = mul_div_floor_u256_with_rem(a, b, d);
    if m.is_zero() {
        q.lo
    } else {
        q.lo + 1
    }
}

/// Quotient and remainder of `a * b` by `d`.
pub fn mul_div_floor_u256_with_rem(a: u128, b: u128, d: u128) -> (r: (U256, U256))
    requires
        d > 0,
    ensures
        r.0@ == muldiv(a as int, b as int, d as int),
        r.1@ == (a * b) % (d as int),
        r.0@ >= 0,
{
    let p: U256 = widening_mul(a, b);
    div_rem_u256(p, U256::from_u128(d))
}

/// The quotient of a rounded-up division exceeds `i128::MAX`.
#[derive(Clone, Copy, Debug, PartialEq, Eq, Structural)]
pub struct OverI128Magnitude;

/// `ceil(a * b / d)`, where it is at most `i128::MAX`.
pub fn wide_mul_div_ceil_u128_or_over_i128max(a: u128, b: u128, d: u128) -> (r: Result<
    u128,
    OverI128Magnitude,
>)
    requires
        d > 0,
    ensures
        r == (if muldiv_up(a as int, b as int, d as int) <= i128::MAX {
            Ok::<u128, OverI128Magnitude>(muldiv_up(a as int, b as int, d as int) as u128)
        } else {
            Err::<u128, OverI128Magnitude>(OverI128Magnitude)
        }),
{
    let limit: u128 = 0x7fff_ffff_ffff_ffff_ffff_ffff_ffff_ffff;
    let (q, m): (U256, U256) = mul_div_floor_u256_with_rem(a, b, d);
    if q.hi != 0 || q.lo > limit {
        return Err(OverI128Magnitude);
    }
    if m.is_zero() {
        Ok(q.lo)
    } else if q.lo < limit {
        Ok(q.lo + 1)
    } else {
        Err(OverI128Magnitude)
    }
}

/// `ceil(n / d)` for a positive divisor.
pub fn ceil_div_positive_checked(n: U256, d: U256) -> (r: U256)
    requires
        d@ > 0,
        ceil_div(n@, d@) < pow256(),
    ensures
        r@ == ceil_div(n@, d@),
{
    let (q, m): (U256, U256) = div_rem_u256(n, d);
    if m.is_zero() {
        q
    } else {
        match q.checked_add(&U256::from_u128(1)) {
            Some(s) => s,
            None => q,
        }
    }
}

/// The fee debt that a fee-credit balance stands for.
pub fn fee_debt_u128_checked(fee_credits: i128) -> (r: u128)
    ensures
        r == pos_of(-(fee_credits as int)),
{
    if fee_credits < 0 {
        abs_i128(fee_credits)
    } else {
        0
    }
}

} // verus!
