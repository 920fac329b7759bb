//! Checks on the floating-point parameters of transformers.
//!
//! Parameters are `f64` bit patterns; each check says what the comparison it
//! makes means on the real line: NaN fails every comparison, and `-0.0` and
//! `0.0` are the same number.

use vstd::prelude::*;
use crate::frame::{is_nan_bits, ONE_BITS};
use crate::preprocessing::binarizer::order_key;
use crate::preprocessing::log_transformer::is_finite_bits;

verus! {

/// Whether the float is finite and not below `0.0`.
pub open spec fn finite_nonnegative(b: u64) -> bool {
    is_finite_bits(b) && order_key(b) >= 0
}

/// Whether the float is finite and above `0.0`.
pub open spec fn finite_positive(b: u64) -> bool {
    is_finite_bits(b) && order_key(b) > 0
}

/// Whether `0.0 <= t <= 1.0`.
pub open spec fn in_unit_interval(t: u64) -> bool {
    !is_nan_bits(t) && 0 <= order_key(t) <= order_key(ONE_BITS)
}

/// Whether both floats are finite and `0.0 <= lo < hi <= 1.0`.
pub open spec fn quantile_pair(lo: u64, hi: u64) -> bool {
    &&& is_finite_bits(lo)
    &&& is_finite_bits(hi)
    &&& 0 <= order_key(lo)
    &&& order_key(lo) < order_key(hi)
    &&& order_key(hi) <= order_key(ONE_BITS)
}

/// Whether the float is finite.
fn finite(b: u64) -> (r: bool)
    ensures
        r == is_finite_bits(b),
{
    (b / 0x10_0000_0000_0000u64) % 0x800 != 0x7ff
}

/// Whether the float is a NaN.
fn nan(b: u64) -> (r: bool)
    ensures
        r == is_nan_bits(b),
{
    (b / 0x10_0000_0000_0000u64) % 0x800 == 0x7ff && b % 0x10_0000_0000_0000u64 != 0
}

/// The place of the float on the real line.
fn key(b: u64) -> (r: i128)
    ensures
        r == order_key(b),
{
    if b < 0x8000_0000_0000_0000u64 { b as i128 } else { -((b - 0x8000_0000_0000_0000u64) as i128) }
}

/// Whether a smoothing strength can be used: finite and not negative.
pub fn smoothing_ok(alpha: u64) -> (r: bool)
    ensures
        r == finite_nonnegative(alpha),
{
    finite(alpha) && key(alpha) >= 0
}

/// Whether a multiplier can be used: finite and positive.
pub fn multiplier_ok(k: u64) -> (r: bool)
    ensures
        r == finite_positive(k),
{
    finite(k) && key(k) > 0
}

/// Whether a threshold lies in `[0.0, 1.0]`.
pub fn unit_threshold_ok(t: u64) -> (r: bool)
    ensures
        r == in_unit_interval(t),
{
    !nan(t) && 0 <= key(t) && key(t) <= key(ONE_BITS)
}

/// Whether a pair of quantiles can be used: both finite and
/// `0.0 <= lo < hi <= 1.0`.
pub fn quantiles_ok(lo: u64, hi: u64) -> (r: bool)
    ensures
        r == quantile_pair(lo, hi),
{
    finite(lo) && finite(hi) && 0 <= key(lo) && key(lo) < key(hi) && key(hi) <= key(ONE_BITS)
}

} // verus!
