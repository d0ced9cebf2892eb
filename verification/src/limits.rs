//! Counting and converting within machine limits.

use vstd::prelude::*;

verus! {

/// One more observation on top of `count`, held at `u64::MAX` once that is reached.
pub open spec fn bumped(count: u64) -> u64 {
    if count < u64::MAX {
        (count + 1) as u64
    } else {
        count
    }
}

/// `n` as a count; what does not fit is held at `u64::MAX`.
pub open spec fn held(n: nat) -> u64 {
    if n > u64::MAX {
        u64::MAX
    } else {
        n as u64
    }
}

/// `n` as a 64-bit signed column value; what does not fit is held at the nearest bound.
pub open spec fn clamped(n: int) -> i64 {
    if n > i64::MAX {
        i64::MAX
    } else if n < i64::MIN {
        i64::MIN
    } else {
        n as i64
    }
}

pub fn bump(count: u64) -> (r: u64)
    ensures
        r == bumped(count),
{
    if count < u64::MAX {
        count + 1
    } else {
        count
    }
}

pub fn clamp(n: u64) -> (r: i64)
    ensures
        r == clamped(n as int),
{
    if n > 0x7fff_ffff_ffff_ffff {
        0x7fff_ffff_ffff_ffff
    } else {
        n as i64
    }
}

pub fn clamp_len(n: usize) -> (r: i64)
    ensures
        r == clamped(n as int),
{
    clamp(n as u64)
}

pub fn clamp_wide(n: i128) -> (r: i64)
    ensures
        r == clamped(n as int),
{
    if n > 0x7fff_ffff_ffff_ffff {
        0x7fff_ffff_ffff_ffff
    } else if n < -0x8000_0000_0000_0000 {
        -0x8000_0000_0000_0000
    } else {
        n as i64
    }
}

} // verus!
