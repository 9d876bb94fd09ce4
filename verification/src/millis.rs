//! Saturating fixed-point arithmetic on milli-unit quantities.
//!
//! A milli-unit value of `1000` stands for one whole unit. Products and
//! quotients of two milli-unit values are rescaled by the factor `1000`;
//! every operation saturates at the ends of its integer range instead of
//! overflowing.

use vstd::prelude::*;

verus! {

pub open spec fn spec_sat_add(a: u32, b: u32) -> u32 {
    if a + b > u32::MAX { u32::MAX } else { (a + b) as u32 }
}

pub open spec fn spec_sat_sub(a: u32, b: u32) -> u32 {
    if a >= b { (a - b) as u32 } else { 0 }
}

/// `a * b / 1000`, saturating at `u32::MAX`.
pub open spec fn spec_mul_milli(a: u32, b: u32) -> u32 {
    if (a as int * b as int) / 1000 > u32::MAX {
        u32::MAX
    } else {
        ((a as int * b as int) / 1000) as u32
    }
}

/// `a * 1000 / b`, saturating at `u32::MAX`.
pub open spec fn spec_div_milli(a: u32, b: u32) -> u32
    recommends b > 0,
{
    if (a as int * 1000) / (b as int) > u32::MAX {
        u32::MAX
    } else {
        ((a as int * 1000) / (b as int)) as u32
    }
}

pub open spec fn spec_sat_add64(a: u64, b: u64) -> u64 {
    if a + b > u64::MAX { u64::MAX } else { (a + b) as u64 }
}

pub fn sat_add64(a: u64, b: u64) -> (r: u64)
    ensures
        r == spec_sat_add64(a, b),
{
    if a > u64::MAX - b {
        u64::MAX
    } else {
        a + b
    }
}

pub fn sat_add(a: u32, b: u32) -> (r: u32)
    ensures
        r == spec_sat_add(a, b),
{
    if a > u32::MAX - b {
        u32::MAX
    } else {
        a + b
    }
}

pub fn sat_sub(a: u32, b: u32) -> (r: u32)
    ensures
        r == spec_sat_sub(a, b),
{
    if a >= b {
        a - b
    } else {
        0
    }
}

pub fn mul_milli(a: u32, b: u32) -> (r: u32)
    ensures
        r == spec_mul_milli(a, b),
{
    proof {
        assert((a as u64) * (b as u64) <= u64::MAX) by (nonlinear_arith)
            requires
                a <= u32::MAX,
                b <= u32::MAX,
        ;
        assert((a as u64) * (b as u64) == a * b) by (nonlinear_arith);
    }
    let p: u64 = (a as u64) * (b as u64) / 1000;
    if p > u32::MAX as u64 {
        u32::MAX
    } else {
        p as u32
    }
}

pub fn div_milli(a: u32, b: u32) -> (r: u32)
    requires
        b > 0,
    ensures
        r == spec_div_milli(a, b),
{
    let p: u64 = (a as u64) * 1000 / (b as u64);
    if p > u32::MAX as u64 {
        u32::MAX
    } else {
        p as u32
    }
}

/// `a * b / 1000` with a 64-bit left operand, saturating at `u64::MAX`.
pub open spec fn spec_mul_milli64(a: u64, b: u32) -> u64 {
    if (a as int * b as int) / 1000 > u64::MAX {
        u64::MAX
    } else {
        ((a as int * b as int) / 1000) as u64
    }
}

pub fn mul_milli64(a: u64, b: u32) -> (r: u64)
    ensures
        r == spec_mul_milli64(a, b),
{
    proof {
        assert((a as u128) * (b as u128) <= u128::MAX) by (nonlinear_arith)
            requires
                a <= u64::MAX,
                b <= u32::MAX,
        ;
        assert((a as u128) * (b as u128) == a * b) by (nonlinear_arith);
    }
    let p: u128 = (a as u128) * (b as u128) / 1000;
    if p > u64::MAX as u128 {
        u64::MAX
    } else {
        p as u64
    }
}

/// `a` truncated into the 32-bit range, saturating at `u32::MAX`.
pub open spec fn spec_cap32(a: u64) -> u32 {
    if a > u32::MAX { u32::MAX } else { a as u32 }
}

pub fn cap32(a: u64) -> (r: u32)
    ensures
        r == spec_cap32(a),
{
    if a > u32::MAX as u64 {
        u32::MAX
    } else {
        a as u32
    }
}


} // verus!
