//! The polling control loop's state machine: change detection against
//! the last observed UI reading, curve mapping, and the decision whether
//! the hardware must be re-actuated.
//!
//! The loop around this machine reads the resource, hands the reading to
//! [`Controller::step`], and acts on the returned [`Decision`]: on
//! [`Decision::Actuate`] it re-reads the current hardware value and, if
//! that read succeeds, performs the smoothing writes. The state is
//! updated here either way: a failed hardware read is not retried, the
//! next differing UI reading is the next opportunity.

use vstd::prelude::*;

use crate::curve::{curve_spec, map_curve, percent_spec, target_spec, ui_percent};

verus! {

/// Poll interval of the control loop, in milliseconds.
pub const POLL_INTERVAL_MS: u64 = 50;

/// What one poll cycle asks of the surrounding loop.
#[derive(Clone, Copy, Debug, PartialEq, Eq, Structural)]
pub enum Decision {
    /// Nothing to do: no reading, an out-of-range reading, or the same
    /// reading as last time. No state was changed.
    Skip,
    /// The reading is new but maps to the hardware value already
    /// applied: the change-detection baseline moved, the hardware is
    /// left alone.
    Commit { value: i32, target: i32 },
    /// The reading maps to a new hardware value: the loop must re-read
    /// the current hardware value and drive it to `target`.
    Actuate { value: i32, target: i32 },
}

/// The process-wide loop state: the UI scale bound and the last
/// observations. Both observations start absent — no sentinel value, so
/// no reading can collide with "never observed."
pub struct Controller {
    /// Largest UI reading that is accepted; larger ones are ignored.
    pub sys_max: i32,
    /// The last accepted UI reading.
    pub last_ui_value: Option<i32>,
    /// The hardware value the last accepted reading mapped to.
    pub last_mapped: Option<i32>,
}

impl Controller {
    /// The UI scale must have at least one step.
    pub open spec fn wf(self) -> bool {
        1 <= self.sys_max
    }

    /// The decision one poll cycle takes on a reading, given this state.
    pub open spec fn decision_spec(self, ui_read: Option<i32>) -> Decision {
        match ui_read {
            None => Decision::Skip,
            Some(v) => if v > self.sys_max || self.last_ui_value == Some(v) {
                Decision::Skip
            } else {
                let target = target_spec(v as int, self.sys_max as int);
                if self.last_mapped == Some(target) {
                    Decision::Commit { value: v, target }
                } else {
                    Decision::Actuate { value: v, target }
                }
            },
        }
    }

    /// The state after a poll cycle: untouched on a skip; otherwise the
    /// reading becomes the baseline and its target the applied value —
    /// whether or not the actuation itself succeeded.
    pub open spec fn post_spec(self, d: Decision) -> Controller {
        match d {
            Decision::Skip => self,
            Decision::Commit { value, target } => Controller {
                last_ui_value: Some(value),
                last_mapped: Some(target),
                ..self
            },
            Decision::Actuate { value, target } => Controller {
                last_ui_value: Some(value),
                last_mapped: Some(target),
                ..self
            },
        }
    }

    /// A fresh controller that has observed nothing yet.
    pub fn new(sys_max: i32) -> (c: Controller)
        requires
            1 <= sys_max,
        ensures
            c.sys_max == sys_max,
            c.last_ui_value is None,
            c.last_mapped is None,
            c.wf(),
    {
        Controller { sys_max, last_ui_value: None, last_mapped: None }
    }

    /// Decide what a reading asks for, without touching the state.
    pub fn observe(&self, ui_read: Option<i32>) -> (d: Decision)
        requires
            self.wf(),
        ensures
            d == self.decision_spec(ui_read),
    {
        match ui_read {
            None => Decision::Skip,
            Some(v) => {
                if v > self.sys_max {
                    return Decision::Skip;
                }
                if let Some(last) = self.last_ui_value {
                    if last == v {
                        return Decision::Skip;
                    }
                }
                let target = curve_for_reading(v, self.sys_max);
                let same = if let Some(applied) = self.last_mapped {
                    applied == target
                } else {
                    false
                };
                if same {
                    Decision::Commit { value: v, target }
                } else {
                    Decision::Actuate { value: v, target }
                }
            },
        }
    }

    /// One poll cycle: decide, then update the state as the decision
    /// says. The caller performs the actuation that an
    /// [`Decision::Actuate`] asks for.
    pub fn step(&mut self, ui_read: Option<i32>) -> (d: Decision)
        requires
            old(self).wf(),
        ensures
            d == old(self).decision_spec(ui_read),
            *final(self) == old(self).post_spec(d),
            final(self).wf(),
    {
        let d = self.observe(ui_read);
        match d {
            Decision::Skip => {},
            Decision::Commit { value, target } => {
                self.last_ui_value = Some(value);
                self.last_mapped = Some(target);
            },
            Decision::Actuate { value, target } => {
                self.last_ui_value = Some(value);
                self.last_mapped = Some(target);
            },
        }
        d
    }
}

/// The hardware value a UI reading asks for: its percentage of the UI
/// scale, mapped through the curve. The percentage of an accepted
/// reading is at most 100, and every negative percentage falls to the
/// same catch-all bucket, so clamping to one representative of each
/// overflowing side leaves the mapped value unchanged.
pub fn curve_for_reading(value: i32, sys_max: i32) -> (hw: i32)
    requires
        1 <= sys_max,
    ensures
        hw == target_spec(value as int, sys_max as int),
{
    let p = ui_percent(value, sys_max);
    let clamped: i32 = if p > 100 {
        101
    } else if p < -1 {
        -1
    } else {
        p as i32
    };
    proof {
        assert(curve_spec(clamped as int) == curve_spec(
            percent_spec(value as int, sys_max as int),
        ));
    }
    map_curve(clamped)
}

/// A reading equal to the immediately preceding one is skipped outright:
/// no mapping, no hardware read, no writes.
pub proof fn lemma_repeated_reading_skipped(c: Controller, v: i32)
    requires
        c.last_ui_value == Some(v),
    ensures
        c.decision_spec(Some(v)) == Decision::Skip,
        c.post_spec(c.decision_spec(Some(v))) == c,
{
}

/// A new reading whose curve bucket is the one already applied moves the
/// change-detection baseline but asks for no actuation — and it leaves
/// the applied value unchanged, so every later reading of the same
/// bucket is suppressed the same way: after the first actuation of a
/// bucket the hardware receives nothing.
pub proof fn lemma_same_bucket_not_actuated(c: Controller, v: i32)
    requires
        v <= c.sys_max,
        c.last_ui_value != Some(v),
        c.last_mapped == Some(target_spec(v as int, c.sys_max as int)),
    ensures
        c.decision_spec(Some(v)) == (Decision::Commit {
            value: v,
            target: target_spec(v as int, c.sys_max as int),
        }),
        c.post_spec(c.decision_spec(Some(v))).last_mapped == c.last_mapped,
        c.post_spec(c.decision_spec(Some(v))).sys_max == c.sys_max,
{
}

} // verus!
