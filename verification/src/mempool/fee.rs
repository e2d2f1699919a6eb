//! Fee rates and mempool pressure.
use crate::params::{DYNAMIC_MARKET_FEE_MAX_MULTIPLIER, FEE_RATE_UNIT_BYTES};
use vstd::prelude::*;

verus! {

/// A sum capped at the largest `u64`.
pub open spec fn capped(n: int) -> int {
    if n <= u64::MAX {
        n
    } else {
        u64::MAX as int
    }
}

/// The larger of two numbers.
pub open spec fn larger(a: int, b: int) -> int {
    if a >= b {
        a
    } else {
        b
    }
}

/// Multiplies without exceeding the largest `u64`.
pub fn saturating_product(a: u64, b: u64) -> (r: u64)
    ensures
        r == capped(a * b),
{
    match a.checked_mul(b) {
        Some(product) => product,
        None => u64::MAX,
    }
}

/// The fee that a transaction of `size` bytes owes at `rate`, rounded up to a whole unit.
pub open spec fn fee_at_rate(rate: int, size: int) -> int {
    if rate == 0 || size == 0 {
        0
    } else {
        capped(capped(size * rate) + FEE_RATE_UNIT_BYTES - 1) / (FEE_RATE_UNIT_BYTES as int)
    }
}

/// The fee that a transaction of a given size owes at a given rate.
pub fn required_fee_for_rate(rate: u64, transaction_size: usize) -> (r: u64)
    ensures
        r == fee_at_rate(rate as int, transaction_size as int),
{
    if rate == 0 || transaction_size == 0 {
        return 0;
    }
    let size: u64 = transaction_size as u64;
    saturating_product(size, rate).saturating_add(FEE_RATE_UNIT_BYTES - 1) / FEE_RATE_UNIT_BYTES
}

/// The rate that a fee amounts to over a size, rounded down; nothing outranks an empty transaction.
pub open spec fn rate_of_fee(fee: int, size: int) -> int {
    if size == 0 {
        u64::MAX as int
    } else {
        capped(fee * FEE_RATE_UNIT_BYTES) / size
    }
}

/// The rate by which transactions compete for a block.
pub fn fee_rate_key(fee: u64, transaction_size: usize) -> (r: u64)
    ensures
        r == rate_of_fee(fee as int, transaction_size as int),
{
    if transaction_size == 0 {
        return u64::MAX;
    }
    saturating_product(fee, FEE_RATE_UNIT_BYTES) / transaction_size as u64
}

/// How full something is, in hundredths of a percent, at most ten thousand.
pub open spec fn fullness(used: int, capacity: int) -> int {
    if capacity == 0 || used * 10_000 / capacity > 10_000 {
        10_000
    } else {
        used * 10_000 / capacity
    }
}

/// The share of a capacity that is in use, in hundredths of a percent.
pub fn occupancy_bps(used: usize, capacity: usize) -> (r: u64)
    ensures
        r == fullness(used as int, capacity as int),
{
    if capacity == 0 {
        return 10_000;
    }
    let share: u128 = (used as u128) * 10_000 / (capacity as u128);
    if share > 10_000 {
        10_000
    } else {
        share as u64
    }
}

/// The market rate at a base rate and a pressure in hundredths of a percent.
pub open spec fn market_rate(base: int, pressure: int) -> int {
    capped(
        base + capped(
            capped(capped(base * DYNAMIC_MARKET_FEE_MAX_MULTIPLIER) * pressure) + 9_999,
        ) / 10_000,
    )
}

/// The base rate raised by a premium in proportion to the pressure.
pub fn pressured_rate(base_rate: u64, pressure_bps: u64) -> (r: u64)
    ensures
        r == market_rate(base_rate as int, pressure_bps as int),
{
    let premium: u64 = saturating_product(
        saturating_product(base_rate, DYNAMIC_MARKET_FEE_MAX_MULTIPLIER),
        pressure_bps,
    ).saturating_add(9_999) / 10_000;
    base_rate.saturating_add(premium)
}

/// The share in use never falls when more is used and never exceeds ten thousand.
pub proof fn fullness_is_monotone(less: int, more: int, capacity: int)
    requires
        0 <= less <= more,
        0 <= capacity,
    ensures
        0 <= fullness(less, capacity) <= fullness(more, capacity) <= 10_000,
{
    if capacity > 0 {
        vstd::arithmetic::div_mod::lemma_div_is_ordered(less * 10_000, more * 10_000, capacity);
        vstd::arithmetic::div_mod::lemma_div_pos_is_pos(less * 10_000, capacity);
    }
}

/// The market rate never falls below the base rate, and rises with the pressure.
pub proof fn market_rate_is_monotone(base: int, less: int, more: int)
    requires
        0 <= base <= u64::MAX,
        0 <= less <= more,
    ensures
        base <= market_rate(base, less) <= market_rate(base, more),
        market_rate(base, 0) == base,
{
    let scaled = capped(base * DYNAMIC_MARKET_FEE_MAX_MULTIPLIER);
    vstd::arithmetic::mul::lemma_mul_inequality(less, more, scaled);
    vstd::arithmetic::mul::lemma_mul_nonnegative(less, scaled);
    assert(scaled * less == less * scaled && scaled * more == more * scaled) by (nonlinear_arith);
    assert(scaled * 0 == 0) by (nonlinear_arith);
}

/// A fee that meets the owed fee of a rate also meets it as a competing rate, as long as nothing was
/// capped.
pub proof fn owed_fee_reaches_its_rate(rate: int, size: int)
    requires
        0 <= rate <= u64::MAX,
        0 < size,
        size * rate <= u64::MAX,
    ensures
        rate_of_fee(fee_at_rate(rate, size), size) == rate,
{
    if rate == 0 {
        assert(0int / size == 0) by (nonlinear_arith)
            requires
                size > 0,
        ;
    } else {
        assert((size * rate) / size == rate) by (nonlinear_arith)
            requires
                size > 0,
        ;
    }
}

} // verus!
