//! Time arithmetic that stops at the ends of the `i64` range.

use vstd::prelude::*;

verus! {

/// The `i64` nearest to `x`.
pub open spec fn saturate(x: int) -> i64 {
    if x < i64::MIN {
        i64::MIN
    } else if x > i64::MAX {
        i64::MAX
    } else {
        x as i64
    }
}

/// The `u64` nearest to `x`.
pub open spec fn saturate_count(x: int) -> u64 {
    if x < 0 {
        0
    } else if x > u64::MAX {
        u64::MAX
    } else {
        x as u64
    }
}

/// The larger of two times.
pub open spec fn later(a: i64, b: i64) -> i64 {
    if a < b {
        b
    } else {
        a
    }
}

/// Brings a wide value into the `i64` range.
pub fn to_i64(x: i128) -> (r: i64)
    ensures
        r == saturate(x as int),
{
    if x < i64::MIN as i128 {
        i64::MIN
    } else if x > i64::MAX as i128 {
        i64::MAX
    } else {
        x as i64
    }
}

/// Counts up by `n` and stays at the largest value.
pub fn count_up(x: u64, n: u64) -> (r: u64)
    ensures
        r == saturate_count(x + n),
{
    if x > u64::MAX - n {
        u64::MAX
    } else {
        x + n
    }
}

} // verus!
