//! The time model shared by every component: instants are `u64` milliseconds
//! on a monotonic clock supplied by the caller. Counters saturate instead of
//! wrapping, so no operation ever panics on arithmetic.

use vstd::prelude::*;

verus! {

/// Milliseconds elapsed from `from` to `to`; zero when `to` lies before `from`
/// (a caller whose clock is monotonic never hits that branch).
pub open spec fn spec_elapsed(from: u64, to: u64) -> u64 {
    if to > from {
        (to - from) as u64
    } else {
        0
    }
}

/// Executable counterpart of [`spec_elapsed`].
pub fn elapsed(from: u64, to: u64) -> (r: u64)
    ensures
        r == spec_elapsed(from, to),
{
    if to > from {
        to - from
    } else {
        0
    }
}

/// A counter bumped by one, saturating at the top of `u64`.
pub open spec fn spec_inc(x: u64) -> u64 {
    if x < u64::MAX {
        (x + 1) as u64
    } else {
        x
    }
}

/// Executable counterpart of [`spec_inc`].
pub fn inc(x: u64) -> (r: u64)
    ensures
        r == spec_inc(x),
{
    if x < u64::MAX {
        x + 1
    } else {
        x
    }
}

/// A counter bumped by one, saturating at the top of `u32`.
pub open spec fn spec_inc32(x: u32) -> u32 {
    if x < u32::MAX {
        (x + 1) as u32
    } else {
        x
    }
}

/// Executable counterpart of [`spec_inc32`].
pub fn inc32(x: u32) -> (r: u32)
    ensures
        r == spec_inc32(x),
{
    if x < u32::MAX {
        x + 1
    } else {
        x
    }
}

/// A counter bumped by one, saturating at the top of `usize`.
pub open spec fn spec_inc_usize(x: usize) -> usize {
    if x < usize::MAX {
        (x + 1) as usize
    } else {
        x
    }
}

/// Executable counterpart of [`spec_inc_usize`].
pub fn inc_usize(x: usize) -> (r: usize)
    ensures
        r == spec_inc_usize(x),
{
    if x < usize::MAX {
        x + 1
    } else {
        x
    }
}

} // verus!
