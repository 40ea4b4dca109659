//! What a source's price means, in plain numbers.

use vstd::prelude::*;
use vstd::arithmetic::power::pow;
use crate::bytes::{byte_ranges, field_at, le_value_in_range};
use crate::oracle::error::OracleError;
use crate::oracle::processor::{over_bins, source_price};
use crate::oracle::state::SourceKind;

verus! {

/// The price of a pool with these reserves: quote per base in millionths, rounded
/// down, and the largest price where it is larger.
pub open spec fn is_pool_price(p: u64, quote: int, base: int) -> bool {
    if quote * 1_000_000 >= base * 0x1_0000_0000_0000_0000 {
        p == u64::MAX
    } else {
        p * base <= quote * 1_000_000 < (p + 1) * base
    }
}

/// A bonding curve keeps its quote reserve first and its base reserve second; the
/// two pool programs keep base first. Each price is quote per base. A pool that is
/// too short or has an empty reserve has no price.
pub proof fn pool_price_is_quote_per_base(data: Seq<u8>)
    ensures
        ({
                let first = field_at(data, 8, 8);
                let second = field_at(data, 16, 8);
                let stale = data.len() < 24 || first == 0 || second == 0;
                &&& match source_price(SourceKind::PumpBonding, data) {
                    Ok(p) => !stale && is_pool_price(p, first, second),
                    Err(e) => stale && e == OracleError::StaleSource,
                }
                &&& match source_price(SourceKind::PumpSwap, data) {
                    Ok(p) => !stale && is_pool_price(p, second, first),
                    Err(e) => stale && e == OracleError::StaleSource,
                }
                &&& match source_price(SourceKind::RaydiumCpmm, data) {
                    Ok(p) => !stale && is_pool_price(p, second, first),
                    Err(e) => stale && e == OracleError::StaleSource,
                }
        }),
{
    if data.len() >= 24 {
        le_value_in_range(data.subrange(8, 16));
        le_value_in_range(data.subrange(16, 24));
        byte_ranges();
        let first = field_at(data, 8, 8);
        let second = field_at(data, 16, 8);
        if first != 0 && second != 0 {
            lemma_quotient(first, second);
            lemma_quotient(second, first);
        }
    }
}

proof fn lemma_quotient(quote: int, base: int)
    requires
        0 < quote <= u64::MAX,
        0 < base <= u64::MAX,
    ensures
        is_pool_price(
            (if quote * 1_000_000 / base <= u64::MAX {
                    quote * 1_000_000 / base
                } else {
                    u64::MAX as int
            }) as u64,
            quote,
            base,
        ),
{
    let n = quote * 1_000_000;
    let p = n / base;
    vstd::arithmetic::div_mod::lemma_fundamental_div_mod(n, base);
    assert(p * base <= n < (p + 1) * base) by (nonlinear_arith)
        requires
            n == base * p + n % base,
            0 <= n % base < base,
        ;
    assert(0 <= p) by (nonlinear_arith)
        requires
            0 < n < (p + 1) * base,
            0 < base,
        ;
    let top = 0x1_0000_0000_0000_0000int;
    if n >= base * top {
        assert(p >= top) by (nonlinear_arith)
            requires
                base * top <= n < (p + 1) * base,
                0 < base,
            ;
    } else {
        assert(p < top) by (nonlinear_arith)
            requires
                p * base <= n < base * top,
                0 < base,
            ;
    }
}

/// The bin pool in `data` is at bin `bin`, with this step and this price at bin 0.
pub open spec fn is_bin_pool(data: Seq<u8>, bin: int, step: int, base: int) -> bool {
    &&& data.len() >= 22
    &&& field_at(data, 8, 4) == if bin < 0 {
        bin + 0x1_0000_0000
    } else {
        bin
    }
    &&& -0x8000_0000 <= bin < 0x8000_0000
    &&& field_at(data, 12, 2) == step
    &&& field_at(data, 14, 8) == base
}

proof fn lemma_bin_fields(data: Seq<u8>)
    requires
        data.len() >= 22,
    ensures
        0 <= field_at(data, 8, 4) < 0x1_0000_0000,
        0 <= field_at(data, 12, 2) < 0x1_0000,
        0 <= field_at(data, 14, 8) <= u64::MAX,
{
    le_value_in_range(data.subrange(8, 12));
    le_value_in_range(data.subrange(12, 14));
    le_value_in_range(data.subrange(14, 22));
    byte_ranges();
}

/// One more step multiplies by `num / den` and rounds down.
proof fn lemma_one_more(price: int, steps: nat, num: int, den: int)
    requires
        0 <= price,
        0 < num,
        0 < den,
    ensures
        match over_bins(price, steps, num, den) {
            Ok(p) => 0 <= p && over_bins(price, steps + 1, num, den) == if p * num > u128::MAX {
                Err(OracleError::Overflow)
            } else {
                Ok::<int, OracleError>(p * num / den)
            },
            Err(e) => e == OracleError::Overflow && over_bins(price, steps + 1, num, den) == Err::<int, OracleError>(e),
        },
    decreases steps,
{
    assert(0 <= price * num) by (nonlinear_arith)
        requires
            0 <= price,
            0 < num,
        ;
    vstd::arithmetic::div_mod::lemma_div_pos_is_pos(price * num, den);
    if price == 0 {
        assert(0 * num == 0);
        assert(0int / den == 0) by (nonlinear_arith)
            requires
                0 < den,
            ;
    } else if steps == 0 {
        reveal_with_fuel(over_bins, 2);
    } else if price * num <= u128::MAX {
        lemma_one_more(price * num / den, (steps - 1) as nat, num, den);
    }
}

/// A price that is multiplied by no less than one does not fall.
proof fn lemma_does_not_fall(p: int, num: int, den: int)
    requires
        0 <= p,
        0 < den <= num,
    ensures
        p <= p * num / den,
{
    assert(p * den <= p * num) by (nonlinear_arith)
        requires
            0 <= p,
            den <= num,
        ;
    vstd::arithmetic::div_mod::lemma_div_is_ordered(p * den, p * num, den);
    vstd::arithmetic::div_mod::lemma_div_multiples_vanish(p, den);
    assert(p * den == den * p) by (nonlinear_arith);
}

proof fn lemma_over_bins_up(price: int, steps: nat, num: int, den: int)
    requires
        0 < price,
        0 < den <= num,
    ensures
        over_bins(price, steps, num, den) matches Ok(p) ==> price <= p,
    decreases steps,
{
    if steps > 0 && price * num <= u128::MAX {
        lemma_does_not_fall(price, num, den);
        lemma_over_bins_up(price * num / den, (steps - 1) as nat, num, den);
    }
}

proof fn lemma_over_bins_down(price: int, steps: nat, num: int, den: int)
    requires
        0 <= price <= u64::MAX,
        0 < num <= den,
        num <= 10_000,
    ensures
        over_bins(price, steps, num, den) matches Ok(p) && 0 <= p <= price,
    decreases steps,
{
    if steps > 0 && price > 0 {
        assert(0 <= price * num <= price * den && price * num <= u64::MAX * 10_000) by (nonlinear_arith)
            requires
                0 <= price <= u64::MAX,
                0 < num <= den,
                num <= 10_000,
            ;
        vstd::arithmetic::div_mod::lemma_div_pos_is_pos(price * num, den);
        vstd::arithmetic::div_mod::lemma_div_is_ordered(price * num, price * den, den);
        vstd::arithmetic::div_mod::lemma_div_multiples_vanish(price, den);
        assert(price * den == den * price) by (nonlinear_arith);
        lemma_over_bins_down(price * num / den, (steps - 1) as nat, num, den);
    }
}

/// At bin 0 a bin pool shows its base price. A pool without a base price or without
/// a proper step shows none.
pub proof fn bin_zero_is_the_base(data: Seq<u8>, step: int, base: int)
    requires
        is_bin_pool(data, 0, step, base),
    ensures
        source_price(SourceKind::MeteoraDlmm, data) == if base == 0 || step == 0 || step > 10_000 {
            Err(OracleError::StaleSource)
        } else {
            Ok::<u64, OracleError>(base as u64)
        },
{
    lemma_bin_fields(data);
}

/// One bin up multiplies the price by one and the step, in ten thousandths, and
/// rounds down. A price that does not fit is an error, and stays one further up.
pub proof fn one_bin_up_adds_a_step(low: Seq<u8>, high: Seq<u8>, bin: int, step: int, base: int)
    requires
        is_bin_pool(low, bin, step, base),
        is_bin_pool(high, bin + 1, step, base),
        0 <= bin < 10_000,
    ensures
        match source_price(SourceKind::MeteoraDlmm, low) {
            Ok(q) => source_price(SourceKind::MeteoraDlmm, high) == if q * (10_000 + step) / 10_000 > u64::MAX {
                Err(OracleError::Overflow)
            } else {
                Ok::<u64, OracleError>((q * (10_000 + step) / 10_000) as u64)
            },
            Err(e) => source_price(SourceKind::MeteoraDlmm, high) == Err::<u64, OracleError>(e),
        },
{
    lemma_bin_fields(low);
    lemma_bin_fields(high);
    if base != 0 && 0 < step <= 10_000 {
        lemma_one_more(base, bin as nat, 10_000 + step, 10_000);
        lemma_over_bins_up(base, bin as nat, 10_000 + step, 10_000);
        if let Ok(q) = over_bins(base, bin as nat, 10_000 + step, 10_000) {
            lemma_does_not_fall(q, 10_000 + step, 10_000);
            if q <= u64::MAX {
                assert(q * (10_000 + step) <= u64::MAX * 20_000) by (nonlinear_arith)
                    requires
                        0 <= q <= u64::MAX,
                        0 < step <= 10_000,
                    ;
            }
        }
    }
}

/// One bin down divides the price by one and the step, and rounds down: so one bin
/// down from the base price is `base * 10_000 / (10_000 + step)`.
pub proof fn one_bin_down_takes_a_step(high: Seq<u8>, low: Seq<u8>, bin: int, step: int, base: int)
    requires
        is_bin_pool(high, bin, step, base),
        is_bin_pool(low, bin - 1, step, base),
        -10_000 < bin <= 0,
        base != 0,
        0 < step <= 10_000,
    ensures
        source_price(SourceKind::MeteoraDlmm, high) matches Ok(q) && (source_price(SourceKind::MeteoraDlmm, low) matches Ok(p)
                && p == q * 10_000 / (10_000 + step)),
{
    lemma_bin_fields(low);
    lemma_bin_fields(high);
    let n = (-bin) as nat;
    lemma_one_more(base, n, 10_000, 10_000 + step);
    lemma_over_bins_down(base, n, 10_000, 10_000 + step);
    lemma_over_bins_down(base, n + 1, 10_000, 10_000 + step);
    if bin == 0 {
        assert(over_bins(base, 0, 10_000 + step, 10_000) == Ok::<int, OracleError>(base));
    }
}

/// Bins beyond ten thousand show the price of the ten thousandth.
pub proof fn far_bins_saturate(near: Seq<u8>, far: Seq<u8>, bin: int, step: int, base: int)
    requires
        is_bin_pool(far, bin, step, base),
        bin > 10_000 ==> is_bin_pool(near, 10_000, step, base),
        bin < -10_000 ==> is_bin_pool(near, -10_000, step, base),
        bin > 10_000 || bin < -10_000,
    ensures
        source_price(SourceKind::MeteoraDlmm, far) == source_price(SourceKind::MeteoraDlmm, near),
{
    lemma_bin_fields(near);
    lemma_bin_fields(far);
}

/// `n` bins down and `n` up again is the base price, but for what rounding takes:
/// the price at bin `-n`, multiplied by one and the step `n` times, never exceeds
/// the base price, and falls short of it by less than `n` units so multiplied.
pub proof fn bins_down_and_up_give_the_base(data: Seq<u8>, n: nat, step: int, base: int)
    requires
        is_bin_pool(data, -(n as int), step, base),
        0 < n <= 10_000,
        base != 0,
        0 < step <= 10_000,
    ensures
        source_price(SourceKind::MeteoraDlmm, data) matches Ok(p) && p * pow(10_000 + step, n) <= base * pow(10_000, n) < (p + n)
            * pow(10_000 + step, n),
{
    lemma_bin_fields(data);
    lemma_over_bins_down(base, n, 10_000, 10_000 + step);
    lemma_rounded(base, n, 10_000, 10_000 + step);
}

proof fn lemma_rounded(price: int, n: nat, num: int, den: int)
    requires
        0 <= price <= u64::MAX,
        0 < num <= den,
        num <= 10_000,
    ensures
        over_bins(price, n, num, den) matches Ok(p) && p * pow(den, n) <= price * pow(num, n) && (n > 0 ==> price * pow(num, n) < (
                p + n) * pow(den, n)),
    decreases n,
{
    vstd::arithmetic::power::lemma_pow0(den);
    vstd::arithmetic::power::lemma_pow0(num);
    lemma_over_bins_down(price, n, num, den);
    if n > 0 {
        let m = (n - 1) as nat;
        lemma_rounded(price, m, num, den);
        lemma_over_bins_down(price, m, num, den);
        lemma_one_more(price, m, num, den);
        let q = over_bins(price, m, num, den)->Ok_0;
        let p = over_bins(price, n, num, den)->Ok_0;
        assert(q * num <= u128::MAX) by (nonlinear_arith)
            requires
                0 <= q <= u64::MAX,
                0 < num <= 10_000,
            ;
        assert(p == q * num / den);
        vstd::arithmetic::div_mod::lemma_fundamental_div_mod(q * num, den);
        let r = (q * num) % den;
        let dm = pow(den, m);
        let nm = pow(num, m);
        vstd::arithmetic::power::lemma_pow_positive(den, m);
        vstd::arithmetic::power::lemma_pow_positive(num, m);
        assert(pow(den, n) == den * dm) by {
            reveal(pow);
        }
        assert(pow(num, n) == num * nm) by {
            reveal(pow);
        }
        // q * dm <= price * nm, and p * den <= q * num < (p + 1) * den.
        assert(p * (den * dm) <= price * (num * nm)) by {
            assert((p * den) * dm <= (q * num) * dm) by (nonlinear_arith)
                requires
                    p * den <= q * num,
                    0 < dm,
                ;
            assert((q * dm) * num <= (price * nm) * num) by (nonlinear_arith)
                requires
                    q * dm <= price * nm,
                    0 < num,
                ;
            assert(p * (den * dm) == (p * den) * dm) by (nonlinear_arith);
            assert((q * num) * dm == (q * dm) * num) by (nonlinear_arith);
            assert(price * (num * nm) == (price * nm) * num) by (nonlinear_arith);
        }
        assert(price * (num * nm) < (p + n) * (den * dm)) by {
            // price * nm <= (q + m) * dm, and strictly where m > 0.
            assert(price * nm <= (q + m) * dm) by {
                if m == 0 {
                    assert(price * 1 <= (q + 0) * 1);
                }
            }
            assert((price * nm) * num <= ((q + m) * dm) * num) by (nonlinear_arith)
                requires
                    price * nm <= (q + m) * dm,
                    0 < num,
                ;
            assert(q * num + m * num < (p + n) * den) by (nonlinear_arith)
                requires
                    q * num == den * p + r,
                    r < den,
                    0 < num <= den,
                    n == m + 1,
                    0 <= m,
                ;
            assert(((q * num) + m * num) * dm < ((p + n) * den) * dm) by (nonlinear_arith)
                requires
                    q * num + m * num < (p + n) * den,
                    0 < dm,
                ;
            assert(((q + m) * dm) * num == ((q * num) + m * num) * dm) by (nonlinear_arith);
            assert((p + n) * (den * dm) == ((p + n) * den) * dm) by (nonlinear_arith);
            assert(price * (num * nm) == (price * nm) * num) by (nonlinear_arith);
        }
    } else {
        assert(price * 1 <= price * 1);
    }
}

} // verus!
