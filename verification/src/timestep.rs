//! The arithmetic of time steps.
//!
//! All times are whole milliseconds: the clock, the start of the epoch and
//! the length of a step. Half a second is added to the time that has passed
//! since the start of the epoch, which rounds it to the nearest second. The
//! counter is that time divided by the step, rounded down, so that it is
//! negative before the start of the epoch. The remaining time is counted in
//! whole seconds of the time that has passed.

use vstd::prelude::*;
use vstd::arithmetic::div_mod::{
    lemma_div_is_ordered,
    lemma_fundamental_div_mod,
    lemma_fundamental_div_mod_converse,
};
use vstd::arithmetic::mul::{lemma_mul_inequality, lemma_mul_is_commutative};

verus! {

/// The time that has passed at `now` since `epoch_start`, with the half
/// second that rounds it.
pub open spec fn elapsed_millis(now: int, epoch_start: int) -> int {
    now - epoch_start + 500
}

/// `x` where it is in the range of `i64`, and else the bound of that range
/// on its side.
pub open spec fn clamp_to_i64(x: int) -> i64 {
    if x < i64::MIN {
        i64::MIN
    } else if x > i64::MAX {
        i64::MAX
    } else {
        x as i64
    }
}

/// The number of the step that `now` lies in: the time that has passed,
/// divided by the length of a step and rounded down (for a positive
/// `time_step`, `/` on `int` rounds down), held to the range of `i64`.
pub open spec fn step_counter(now: int, epoch_start: int, time_step: int) -> i64 {
    clamp_to_i64(elapsed_millis(now, epoch_start) / time_step)
}

/// The whole seconds of the time that has passed: the part of a second is
/// dropped, before the start of the epoch too.
pub open spec fn elapsed_seconds(now: int, epoch_start: int) -> int {
    let e = elapsed_millis(now, epoch_start);
    if e >= 0 {
        e / 1000
    } else {
        -((-e) / 1000)
    }
}

/// The number of the step that the whole seconds of `now` lie in.
pub open spec fn seconds_step(now: int, epoch_start: int, time_step: int) -> int {
    (elapsed_seconds(now, epoch_start) * 1000) / time_step
}

/// How long the step of `now` still lasts, in milliseconds: the length of a
/// step less what the whole seconds of `now` have used of it.
pub open spec fn remaining_millis(now: int, epoch_start: int, time_step: int) -> int {
    time_step - (elapsed_seconds(now, epoch_start) * 1000) % time_step
}

/// The remaining time is more than nothing and at most a whole step, at
/// every time, before the start of the epoch too.
pub proof fn lemma_remaining_in_range(now: int, epoch_start: int, time_step: int)
    requires
        time_step > 0,
    ensures
        0 < remaining_millis(now, epoch_start, time_step) <= time_step,
{
}

/// Whole seconds never go back when the clock goes on.
pub proof fn lemma_elapsed_seconds_ordered(now1: int, now2: int, epoch_start: int)
    requires
        now1 <= now2,
    ensures
        elapsed_seconds(now1, epoch_start) <= elapsed_seconds(now2, epoch_start),
{
}

/// Within one step the remaining time only falls as the clock goes on, by
/// the whole seconds that have passed.
pub proof fn lemma_remaining_falls_within_step(
    now1: int,
    now2: int,
    epoch_start: int,
    time_step: int,
)
    requires
        time_step > 0,
        now1 <= now2,
        seconds_step(now1, epoch_start, time_step) == seconds_step(now2, epoch_start, time_step),
    ensures
        remaining_millis(now2, epoch_start, time_step) <= remaining_millis(
            now1,
            epoch_start,
            time_step,
        ),
        remaining_millis(now1, epoch_start, time_step) - remaining_millis(
            now2,
            epoch_start,
            time_step,
        ) == (elapsed_seconds(now2, epoch_start) - elapsed_seconds(now1, epoch_start)) * 1000,
{
    let t1 = elapsed_seconds(now1, epoch_start) * 1000;
    let t2 = elapsed_seconds(now2, epoch_start) * 1000;
    lemma_elapsed_seconds_ordered(now1, now2, epoch_start);
    lemma_fundamental_div_mod(t1, time_step);
    lemma_fundamental_div_mod(t2, time_step);
}

/// Past the end of a step the remaining time starts again near a whole
/// step: of two times at most one second apart that lie in different steps,
/// the later has less than a second short of the whole step left.
pub proof fn lemma_remaining_restarts(now1: int, now2: int, epoch_start: int, time_step: int)
    requires
        time_step > 0,
        now1 <= now2,
        elapsed_seconds(now2, epoch_start) <= elapsed_seconds(now1, epoch_start) + 1,
        seconds_step(now1, epoch_start, time_step) != seconds_step(now2, epoch_start, time_step),
    ensures
        time_step - 1000 < remaining_millis(now2, epoch_start, time_step) <= time_step,
{
    let t1 = elapsed_seconds(now1, epoch_start) * 1000;
    let t2 = elapsed_seconds(now2, epoch_start) * 1000;
    let q1 = t1 / time_step;
    let q2 = t2 / time_step;
    lemma_elapsed_seconds_ordered(now1, now2, epoch_start);
    lemma_div_is_ordered(t1, t2, time_step);
    lemma_fundamental_div_mod(t1, time_step);
    lemma_fundamental_div_mod(t2, time_step);
    assert(q1 + 1 <= q2);
    lemma_mul_inequality(q1 + 1, q2, time_step);
    lemma_mul_is_commutative(q1 + 1, time_step);
    lemma_mul_is_commutative(q2, time_step);
    assert(time_step * (q1 + 1) == time_step * q1 + time_step) by (nonlinear_arith);
}

/// The counter does not change before the step of `now1` ends: not for any
/// later time that the rest of that step still covers.
pub proof fn lemma_counter_constant_within_step(
    now1: int,
    now2: int,
    epoch_start: int,
    time_step: int,
)
    requires
        time_step > 0,
        now1 <= now2,
        now2 - now1 < time_step - elapsed_millis(now1, epoch_start) % time_step,
    ensures
        step_counter(now1, epoch_start, time_step) == step_counter(now2, epoch_start, time_step),
{
    let e1 = elapsed_millis(now1, epoch_start);
    let e2 = elapsed_millis(now2, epoch_start);
    let q = e1 / time_step;
    let r = e1 % time_step;
    lemma_fundamental_div_mod(e1, time_step);
    lemma_mul_is_commutative(q, time_step);
    lemma_fundamental_div_mod_converse(e2, time_step, q, r + (now2 - now1));
}

/// The counter never goes back when the clock goes on.
pub proof fn lemma_counter_ordered(now1: int, now2: int, epoch_start: int, time_step: int)
    requires
        time_step > 0,
        now1 <= now2,
    ensures
        step_counter(now1, epoch_start, time_step) <= step_counter(now2, epoch_start, time_step),
{
    lemma_div_is_ordered(
        elapsed_millis(now1, epoch_start),
        elapsed_millis(now2, epoch_start),
        time_step,
    );
}

/// With steps of whole seconds, and from half a second before the start of
/// the epoch on, the remaining time is counted in the step that the counter
/// numbers: the remaining time starts again when the counter changes.
pub proof fn lemma_seconds_step_is_counter(now: int, epoch_start: int, time_step: int)
    requires
        time_step > 0,
        time_step % 1000 == 0,
        elapsed_millis(now, epoch_start) >= 0,
    ensures
        seconds_step(now, epoch_start, time_step) == elapsed_millis(now, epoch_start) / time_step,
        step_counter(now, epoch_start, time_step) == clamp_to_i64(
            seconds_step(now, epoch_start, time_step),
        ),
{
    let e = elapsed_millis(now, epoch_start);
    let s = elapsed_seconds(now, epoch_start);
    let k = time_step / 1000;
    let q = (s * 1000) / time_step;
    let r = (s * 1000) % time_step;
    lemma_fundamental_div_mod(s * 1000, time_step);
    assert(r == 1000 * (s - k * q)) by (nonlinear_arith)
        requires
            time_step == 1000 * k,
            s * 1000 == time_step * q + r,
    ;
    assert(e == q * time_step + (r + e % 1000)) by (nonlinear_arith)
        requires
            s * 1000 == time_step * q + r,
            e == 1000 * s + e % 1000,
    ;
    lemma_fundamental_div_mod_converse(e, time_step, q, r + e % 1000);
}

/// Divides `x` by `d` and rounds down; the remainder is never negative.
fn floor_div_rem(x: i128, d: u64) -> (qr: (i128, u64))
    requires
        d > 0,
        -0x2_0000_0000_0000_0000 <= x <= 0x2_0000_0000_0000_0000,
    ensures
        qr.0 == x as int / d as int,
        qr.1 == x as int % d as int,
{
    let wide: u128 = d as u128;
    if x >= 0 {
        let m: u128 = x as u128;
        ((m / wide) as i128, (m % wide) as u64)
    } else {
        let m: u128 = (-x) as u128;
        let q: u128 = m / wide;
        let r: u128 = m % wide;
        proof {
            lemma_fundamental_div_mod(m as int, d as int);
            lemma_div_is_ordered(0, m as int, d as int);
            assert(0 <= q <= m) by (nonlinear_arith)
                requires
                    m == d * q + r,
                    0 <= r,
                    q >= 0,
                    d >= 1,
            ;
        }
        if r == 0 {
            proof {
                assert(x as int == (-(q as int)) * d + 0) by (nonlinear_arith)
                    requires
                        m == d * q + r,
                        r == 0,
                        x == -m,
                ;
                lemma_fundamental_div_mod_converse(x as int, d as int, -(q as int), 0);
            }
            (-(q as i128), 0)
        } else {
            proof {
                assert(x as int == (-(q as int) - 1) * d + (d - r)) by (nonlinear_arith)
                    requires
                        m == d * q + r,
                        x == -m,
                ;
                lemma_fundamental_div_mod_converse(
                    x as int,
                    d as int,
                    -(q as int) - 1,
                    d as int - r as int,
                );
            }
            (-(q as i128) - 1, (wide - r) as u64)
        }
    }
}

/// Computes the number of the step that `now` lies in.
pub fn counter_at(now: i64, epoch_start: i64, time_step: u64) -> (counter: i64)
    requires
        time_step > 0,
    ensures
        counter == step_counter(now as int, epoch_start as int, time_step as int),
{
    let elapsed: i128 = now as i128 - epoch_start as i128 + 500;
    let (q, _) = floor_div_rem(elapsed, time_step);
    if q < i64::MIN as i128 {
        i64::MIN
    } else if q > i64::MAX as i128 {
        i64::MAX
    } else {
        q as i64
    }
}

/// Computes how long the step of `now` still lasts, in milliseconds.
pub fn remaining_at(now: i64, epoch_start: i64, time_step: u64) -> (left: u64)
    requires
        time_step > 0,
    ensures
        left == remaining_millis(now as int, epoch_start as int, time_step as int),
        0 < left <= time_step,
{
    let elapsed: i128 = now as i128 - epoch_start as i128 + 500;
    let seconds: i128 = if elapsed >= 0 {
        ((elapsed as u128) / 1000) as i128
    } else {
        -((((-elapsed) as u128) / 1000) as i128)
    };
    let (_, used) = floor_div_rem(seconds * 1000, time_step);
    time_step - used
}

} // verus!
