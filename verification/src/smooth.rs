//! The smoothing step plan: the exact sequence of hardware writes that
//! drives the panel from its current value to a target value.
//!
//! The actuator always performs exactly `SMOOTH_STEPS` intermediate
//! writes and one final write of the target itself, each intermediate
//! write followed by a fixed pause. The final write is the convergence
//! guarantee: the intermediate values may overshoot or undershoot the
//! target by up to `SMOOTH_STEPS - 1` units because the step size is
//! computed by truncating division.

use vstd::prelude::*;

use vstd::arithmetic::div_mod::lemma_fundamental_div_mod;
use vstd::arithmetic::mul::lemma_mul_inequality;

verus! {

/// How many intermediate writes the actuator performs.
pub const SMOOTH_STEPS: usize = 10;

/// Pause between intermediate writes, in milliseconds.
pub const STEP_DELAY_MS: u64 = 10;

/// Truncating (toward-zero) division by the step count, as the hardware
/// loop computes it.
pub open spec fn trunc_div_steps(d: int) -> int {
    if d >= 0 {
        d / (SMOOTH_STEPS as int)
    } else {
        -((-d) / (SMOOTH_STEPS as int))
    }
}

/// The per-step increment: a tenth of the distance, truncated toward
/// zero; where that is zero (the distance is under the step count, or
/// exactly zero), one unit in the direction of the target — minus one
/// when the distance is zero or negative.
pub open spec fn step_size(target: int, current: int) -> int {
    let q = trunc_div_steps(target - current);
    if q == 0 {
        if target - current > 0 {
            1
        } else {
            -1
        }
    } else {
        q
    }
}

/// The value written by the k-th intermediate write, counting from 1.
pub open spec fn smooth_value(target: int, current: int, k: int) -> int {
    current + k * step_size(target, current)
}

/// Every intermediate value stays within `i32`: when the step comes
/// from the division it keeps the value between `current` and `target`,
/// and when it is the one-unit fallback the ten unit steps stay within
/// `i32` as long as the ends leave them room.
proof fn lemma_smooth_value_fits(target: int, current: int, k: int)
    requires
        i32::MIN <= target <= i32::MAX,
        i32::MIN <= current <= i32::MAX,
        0 < target - current <= 9 ==> current <= i32::MAX - 10,
        -9 <= target - current <= 0 ==> i32::MIN + 10 <= current,
        0 <= k <= SMOOTH_STEPS,
    ensures
        i32::MIN <= smooth_value(target, current, k) <= i32::MAX,
{
    let d = target - current;
    let q = trunc_div_steps(d);
    let s = step_size(target, current);
    if q != 0 {
        if d >= 0 {
            lemma_fundamental_div_mod(d, 10);
            assert(0 <= q && 10 * q <= d);
            lemma_mul_inequality(k, 10, q);
            assert(k * q >= 0) by (nonlinear_arith)
                requires
                    k >= 0,
                    q >= 0,
            ;
            assert(current <= current + k * q <= target);
        } else {
            lemma_fundamental_div_mod(-d, 10);
            assert(q <= 0 && d <= 10 * q);
            lemma_mul_inequality(k, 10, -q);
            assert(k * q <= 0) by (nonlinear_arith)
                requires
                    k >= 0,
                    q <= 0,
            ;
            assert(k * q >= 10 * q) by (nonlinear_arith)
                requires
                    k <= 10,
                    q <= 0,
            ;
            assert(target <= current + k * q <= current);
        }
    } else {
        if d >= 0 {
            lemma_fundamental_div_mod(d, 10);
            assert(d <= 9);
        } else {
            lemma_fundamental_div_mod(-d, 10);
            assert(-d <= 9);
        }
        assert(s == 1 || s == -1);
    }
}

/// The plan of writes that drives the panel from `current` to `target`:
/// `SMOOTH_STEPS` accumulated intermediate values followed by the target
/// itself, whatever the sign or magnitude of the distance — including
/// zero. The caller performs the writes in order, pausing
/// `STEP_DELAY_MS` after each intermediate one.
///
/// The two preconditions state only what the machine forces: when the
/// distance is under the step count the plan walks up to ten single
/// units past `current` in the direction of the target (down, when the
/// distance is zero), and each written value must fit in `i32`. Every
/// target the curve produces satisfies both for every current value.
pub fn smooth_writes(target: i32, current: i32) -> (w: Vec<i32>)
    requires
        0 < target - current <= 9 ==> current <= i32::MAX - 10,
        -9 <= target - current <= 0 ==> i32::MIN + 10 <= current,
    ensures
        w@.len() == SMOOTH_STEPS + 1,
        forall|j: int|
            0 <= j < SMOOTH_STEPS ==> w@[j] == smooth_value(
                target as int,
                current as int,
                j + 1,
            ),
        w@[SMOOTH_STEPS as int] == target,
{
    let t = target as i64;
    let c = current as i64;
    let diff = t - c;
    let q = diff / 10;
    let step: i64 = if q == 0 {
        if diff > 0 {
            1
        } else {
            -1
        }
    } else {
        q
    };
    proof {
        if diff >= 0 {
            lemma_fundamental_div_mod(diff as int, 10);
        } else {
            lemma_fundamental_div_mod(-diff as int, 10);
        }
        assert(step == step_size(target as int, current as int));
        assert(-(0x2_0000_0000i64) <= step <= 0x2_0000_0000i64);
    }
    let mut w: Vec<i32> = Vec::new();
    let mut value: i64 = c;
    let mut k: usize = 0;
    proof {
        assert(value == smooth_value(target as int, current as int, 0)) by (nonlinear_arith)
            requires
                value == current,
        ;
    }
    while k < SMOOTH_STEPS
        invariant
            0 <= k <= SMOOTH_STEPS,
            w@.len() == k,
            0 < target - current <= 9 ==> current <= i32::MAX - 10,
            -9 <= target - current <= 0 ==> i32::MIN + 10 <= current,
            step == step_size(target as int, current as int),
            -(0x2_0000_0000i64) <= step <= 0x2_0000_0000i64,
            value == smooth_value(target as int, current as int, k as int),
            forall|j: int|
                0 <= j < k ==> w@[j] == smooth_value(target as int, current as int, j + 1),
        decreases SMOOTH_STEPS - k,
    {
        proof {
            lemma_smooth_value_fits(target as int, current as int, k as int);
            lemma_smooth_value_fits(target as int, current as int, k as int + 1);
            assert((k as int + 1) * step == k as int * step + step) by (nonlinear_arith);
        }
        value = value + step;
        w.push(value as i32);
        k += 1;
    }
    w.push(target);
    w
}

} // verus!
