//! Single-precision rounding in whole numbers: where a percentile falls
//! among a number of measurements when the product of the number and the
//! percentile is formed in single precision and cut to a whole number.

use vstd::prelude::*;

verus! {

/// One more than the largest number of 24 binary digits: the digits that a
/// single-precision number holds.
pub const DIGITS_LIMIT: u128 = 0x100_0000;

/// The 95th percentile as a fraction in single precision, in units of 2^-24.
pub const LOW_PERCENTILE: u128 = 15_938_355;

/// The 99th percentile as a fraction in single precision, in units of 2^-24.
pub const HIGH_PERCENTILE: u128 = 16_609_444;

/// The smallest of `unit`, `2 * unit`, `4 * unit`, ... in which `n` has at
/// most 24 binary digits, looking at most `steps` doublings ahead.
pub open spec fn unit_of(n: nat, unit: nat, steps: nat) -> nat
    decreases steps,
{
    if steps == 0 || n / unit < DIGITS_LIMIT {
        unit
    } else {
        unit_of(n, 2 * unit, (steps - 1) as nat)
    }
}

/// `n` rounded to the nearest multiple of `unit`; halfway between two, to
/// the even one.
pub open spec fn nearest_even(n: nat, unit: nat) -> nat {
    let q = n / unit;
    let r = n % unit;
    if 2 * r > unit || (2 * r == unit && q % 2 == 1) {
        (q + 1) * unit
    } else {
        q * unit
    }
}

/// `n` as single precision holds it: rounded to 24 binary digits, halfway
/// cases to the even neighbour.
pub open spec fn single(n: nat) -> nat {
    nearest_even(n, unit_of(n, 1, 128))
}

/// The position of a percentile among `count` measurements: `count` in
/// single precision, times the percentile in single precision (given as
/// `multiplier` units of 2^-24), rounded to single precision and cut to a
/// whole number.
pub open spec fn percentile_position(count: nat, multiplier: nat) -> nat {
    single(single(count) * multiplier) / (DIGITS_LIMIT as nat)
}

/// The unit in which `n` has at most 24 binary digits.
fn find_unit(n: u128) -> (unit: u128)
    requires
        n < 0x10_0000_0000_0000_0000_0000_0000,
    ensures
        unit == unit_of(n as nat, 1, 128),
        1 <= unit <= n + 1,
{
    let mut unit: u128 = 1;
    let mut steps: u32 = 128;
    while steps > 0 && n / unit >= DIGITS_LIMIT
        invariant
            n < 0x10_0000_0000_0000_0000_0000_0000,
            1 <= unit <= n + 1,
            unit_of(n as nat, unit as nat, steps as nat) == unit_of(n as nat, 1, 128),
        decreases steps,
    {
        assert(2 * unit <= n) by (nonlinear_arith)
            requires
                n / unit >= 0x100_0000,
                unit >= 1,
        ;
        unit = 2 * unit;
        steps = steps - 1;
    }
    unit
}

/// `n` rounded to the nearest multiple of `unit`, halfway cases to the even one.
fn round_to(n: u128, unit: u128) -> (res: u128)
    requires
        n < 0x10_0000_0000_0000_0000_0000_0000,
        1 <= unit <= n + 1,
    ensures
        res == nearest_even(n as nat, unit as nat),
        res <= 2 * n + 1,
{
    let q = n / unit;
    let r = n % unit;
    assert(q * unit + r == n && q * unit <= n) by (nonlinear_arith)
        requires
            q == n / unit,
            r == n % unit,
            unit >= 1,
    ;
    assert((q + 1) * unit == q * unit + unit) by (nonlinear_arith);
    if 2 * r > unit || (2 * r == unit && q % 2 == 1) {
        (q + 1) * unit
    } else {
        q * unit
    }
}

/// `n` as single precision holds it.
fn to_single(n: u128) -> (res: u128)
    requires
        n < 0x10_0000_0000_0000_0000_0000_0000,
    ensures
        res == single(n as nat),
        res <= 2 * n + 1,
{
    let unit = find_unit(n);
    round_to(n, unit)
}

/// The position of the percentile with the given multiplier among `count`
/// measurements.
pub fn percentile_index(count: usize, multiplier: u128) -> (res: u128)
    requires
        multiplier < DIGITS_LIMIT,
    ensures
        res == percentile_position(count as nat, multiplier as nat),
{
    let held = to_single(count as u128);
    assert(held * multiplier < 0x10_0000_0000_0000_0000_0000_0000) by (nonlinear_arith)
        requires
            held <= 0x2_0000_0000_0000_0000,
            multiplier < 0x100_0000,
    ;
    let product = to_single(held * multiplier);
    product / DIGITS_LIMIT
}

} // verus!
