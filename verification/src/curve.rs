//! The fixed brightness curve: percent buckets to hardware panel values,
//! and the translation of a UI-scale reading into a percentage.

use vstd::prelude::*;

verus! {

/// Lowest raw value the panel accepts.
pub const HW_MIN: i32 = 10;

/// Highest raw value the panel accepts.
pub const HW_MAX: i32 = 4095;

/// Largest brightness value the UI layer reports.
pub const SYS_MAX: i32 = 418;

/// The curve, bucket by bucket, first match wins. A percentage that no
/// bucket covers — above 80, and also any negative percentage — falls
/// to the top value: saturation, not an error.
pub open spec fn curve_spec(p: int) -> int {
    if 0 <= p && p <= 5 {
        HW_MIN as int
    } else if 6 <= p && p <= 10 {
        200
    } else if 11 <= p && p <= 20 {
        600
    } else if 21 <= p && p <= 40 {
        1800
    } else if 41 <= p && p <= 60 {
        2800
    } else if 61 <= p && p <= 80 {
        3500
    } else {
        HW_MAX as int
    }
}

/// Map a percentage (which may fall outside [0, 100]) to the hardware
/// value of its bucket.
pub fn map_curve(percent: i32) -> (hw: i32)
    ensures
        hw == curve_spec(percent as int),
{
    if 0 <= percent && percent <= 5 {
        HW_MIN
    } else if 6 <= percent && percent <= 10 {
        200
    } else if 11 <= percent && percent <= 20 {
        600
    } else if 21 <= percent && percent <= 40 {
        1800
    } else if 41 <= percent && percent <= 60 {
        2800
    } else if 61 <= percent && percent <= 80 {
        3500
    } else {
        HW_MAX
    }
}

/// A UI reading as a percentage of the UI scale, by truncating
/// (toward-zero) division, exactly as the hardware loop computes it.
pub open spec fn percent_spec(value: int, sys_max: int) -> int
    recommends
        1 <= sys_max,
{
    let scaled = value * 100;
    if scaled >= 0 {
        scaled / sys_max
    } else {
        -((-scaled) / sys_max)
    }
}

/// The hardware value that a UI reading asks for.
pub open spec fn target_spec(value: int, sys_max: int) -> i32 {
    curve_spec(percent_spec(value, sys_max)) as i32
}

/// On the valid percent domain and above it the curve is monotonically
/// non-decreasing: a higher percentage never asks for a dimmer panel.
pub proof fn lemma_curve_monotone(p1: int, p2: int)
    requires
        0 <= p1 <= p2,
    ensures
        curve_spec(p1) <= curve_spec(p2),
{
}

/// Every mapped value is drawn from the seven fixed table values.
pub proof fn lemma_curve_in_table(p: int)
    ensures
        curve_spec(p) == HW_MIN as int || curve_spec(p) == 200 || curve_spec(p) == 600
            || curve_spec(p) == 1800 || curve_spec(p) == 2800 || curve_spec(p) == 3500
            || curve_spec(p) == HW_MAX as int,
{
}

/// A percentage that no bucket covers saturates to the top hardware
/// value: above 100 by the catch-all bucket, and below 0 because no
/// prior range matches — deliberate saturation, not an error.
pub proof fn lemma_curve_saturates(p: int)
    requires
        p > 100 || p < 0,
    ensures
        curve_spec(p) == HW_MAX as int,
{
}

/// Convert a UI reading to a percentage of the UI scale.
pub fn ui_percent(value: i32, sys_max: i32) -> (p: i64)
    requires
        1 <= sys_max,
    ensures
        p == percent_spec(value as int, sys_max as int),
{
    (value as i64 * 100) / (sys_max as i64)
}

} // verus!
