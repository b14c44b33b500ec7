//! The daemon's tunables, gathered in one structure: the resource path,
//! the UI scale bound, the hardware range, the curve table, and the
//! timing constants. They are fixed at build time; the structure makes
//! them visible in one place to the process around the library.

use vstd::prelude::*;

use crate::control::POLL_INTERVAL_MS;
use crate::curve::{curve_spec, HW_MAX, HW_MIN, SYS_MAX};
use crate::smooth::{SMOOTH_STEPS, STEP_DELAY_MS};

verus! {

/// One bucket of the curve table: an inclusive percent range and the
/// hardware value it yields.
#[derive(Clone, Copy, Debug, PartialEq, Eq, Structural)]
pub struct CurveEntry {
    pub lo: i32,
    pub hi: i32,
    pub hw: i32,
}

/// The recognized tunables of the daemon.
pub struct Config {
    /// Where the readable and writable brightness resource lives.
    pub resource_path: String,
    /// Largest brightness value the UI layer reports.
    pub sys_max: i32,
    /// Lowest raw value the panel accepts.
    pub hw_min: i32,
    /// Highest raw value the panel accepts.
    pub hw_max: i32,
    /// The curve table, in match order; the last bucket is the catch-all.
    pub curve: Vec<CurveEntry>,
    /// Pause between poll cycles, in milliseconds.
    pub poll_interval_ms: u64,
    /// Intermediate writes per smoothing sequence.
    pub step_count: usize,
    /// Pause between intermediate writes, in milliseconds.
    pub step_delay_ms: u64,
}

/// The built-in curve table, bucket by bucket in match order.
pub open spec fn standard_curve() -> Seq<CurveEntry> {
    seq![
        CurveEntry { lo: 0, hi: 5, hw: 10 },
        CurveEntry { lo: 6, hi: 10, hw: 200 },
        CurveEntry { lo: 11, hi: 20, hw: 600 },
        CurveEntry { lo: 21, hi: 40, hw: 1800 },
        CurveEntry { lo: 41, hi: 60, hw: 2800 },
        CurveEntry { lo: 61, hi: 80, hw: 3500 },
        CurveEntry { lo: 81, hi: i32::MAX, hw: 4095 },
    ]
}

/// Every bucket of the built-in table agrees with the curve mapper on
/// every percentage the bucket covers.
pub proof fn lemma_standard_curve_agrees(i: int, p: int)
    requires
        0 <= i < standard_curve().len(),
        standard_curve()[i].lo <= p <= standard_curve()[i].hi,
    ensures
        standard_curve()[i].hw == curve_spec(p),
{
}

impl Config {
    /// The built-in configuration the daemon runs with.
    pub fn standard() -> (c: Config)
        ensures
            c.resource_path@ == "/sys/devices/platform/mtk_leds/leds/lcd-backlight/brightness"@,
            c.sys_max == SYS_MAX,
            c.hw_min == HW_MIN,
            c.hw_max == HW_MAX,
            c.curve@ == standard_curve(),
            c.poll_interval_ms == POLL_INTERVAL_MS,
            c.step_count == SMOOTH_STEPS,
            c.step_delay_ms == STEP_DELAY_MS,
    {
        let mut curve: Vec<CurveEntry> = Vec::new();
        curve.push(CurveEntry { lo: 0, hi: 5, hw: 10 });
        curve.push(CurveEntry { lo: 6, hi: 10, hw: 200 });
        curve.push(CurveEntry { lo: 11, hi: 20, hw: 600 });
        curve.push(CurveEntry { lo: 21, hi: 40, hw: 1800 });
        curve.push(CurveEntry { lo: 41, hi: 60, hw: 2800 });
        curve.push(CurveEntry { lo: 61, hi: 80, hw: 3500 });
        curve.push(CurveEntry { lo: 81, hi: i32::MAX, hw: 4095 });
        proof {
            assert(curve@ =~= standard_curve());
        }
        Config {
            resource_path: "/sys/devices/platform/mtk_leds/leds/lcd-backlight/brightness".to_owned(),
            sys_max: SYS_MAX,
            hw_min: HW_MIN,
            hw_max: HW_MAX,
            curve,
            poll_interval_ms: POLL_INTERVAL_MS,
            step_count: SMOOTH_STEPS,
            step_delay_ms: STEP_DELAY_MS,
        }
    }
}

} // verus!
