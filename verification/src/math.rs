//! Arithmetic on the clock that playback runs on.
//!
//! Time is counted in whole ticks of a unit that the caller chooses.

use crate::pose::{column, column_of, columns_over, divide_columns, lengths, lengths_of};
use nalgebra_glm::{Mat3, Vec3};
use vstd::prelude::*;

verus! {

/// `t` brought into `min..=max` by whole periods of `max - min`.
///
/// A time inside the range stays; one above it counts its overshoot from
/// `min`, one below it counts its undershoot back from `max`.
pub open spec fn wrapped(t: int, min: int, max: int) -> int {
    let length = max - min;
    if t < min {
        max - ((min - t) % length)
    } else if t > max {
        min + ((t - max) % length)
    } else {
        t
    }
}

/// The wrapped time lies in the range, and differs from `t` by whole periods.
pub proof fn lemma_wrapped_in_range(t: int, min: int, max: int)
    requires
        min < max,
    ensures
        min <= wrapped(t, min, max) <= max,
        (wrapped(t, min, max) - t) % (max - min) == 0,
{
    let length = max - min;
    if t < min {
        let a = min - t;
        assert(0 <= a % length < length) by (nonlinear_arith)
            requires
                length > 0,
        ;
        assert(a == length * (a / length) + (a % length)) by (nonlinear_arith)
            requires
                length > 0,
        ;
        let k = a / length + 1;
        assert(max - (a % length) - t == length * k) by (nonlinear_arith)
            requires
                a == length * (a / length) + (a % length),
                a == min - t,
                length == max - min,
                k == a / length + 1,
        ;
        assert((length * k) % length == 0) by (nonlinear_arith)
            requires
                length > 0,
        ;
    } else if t > max {
        let a = t - max;
        assert(0 <= a % length < length) by (nonlinear_arith)
            requires
                length > 0,
        ;
        assert(a == length * (a / length) + (a % length)) by (nonlinear_arith)
            requires
                length > 0,
        ;
        let k = -(a / length) - 1;
        assert(min + (a % length) - t == length * k) by (nonlinear_arith)
            requires
                a == length * (a / length) + (a % length),
                a == t - max,
                length == max - min,
                k == -(a / length) - 1,
        ;
        assert((length * k) % length == 0) by (nonlinear_arith)
            requires
                length > 0,
        ;
    } else {
        assert(0int % length == 0) by (nonlinear_arith)
            requires
                length > 0,
        ;
    }
}

/// Wraps `time` into `min..=max`.
pub fn time_loop(time: i64, min: i64, max: i64) -> (r: i64)
    requires
        min < max,
    ensures
        r == wrapped(time as int, min as int, max as int),
        min <= r <= max,
{
    proof {
        lemma_wrapped_in_range(time as int, min as int, max as int);
    }
    let length: i128 = max as i128 - min as i128;
    if time < min {
        let amount: i128 = (min as i128 - time as i128) % length;
        (max as i128 - amount) as i64
    } else if time > max {
        let amount: i128 = (time as i128 - max as i128) % length;
        (min as i128 + amount) as i64
    } else {
        time
    }
}

/// Splits a matrix that scales and rotates without shear into the scale and
/// the rotation: the scale along each axis is the length of the column of
/// the axis, and the rotation is what is left of the columns when each is
/// divided by its length.
pub fn separate_rot_scale(m: &Mat3) -> (r: (Vec3, Mat3))
    ensures
        r.0 == lengths_of(column_of(*m, 0), column_of(*m, 1), column_of(*m, 2)),
        r.1 == columns_over(*m, r.0),
{
    let x_axis = column(m, 0);
    let y_axis = column(m, 1);
    let z_axis = column(m, 2);
    let scale = lengths(&x_axis, &y_axis, &z_axis);
    let rot = divide_columns(m, &scale);
    (scale, rot)
}

} // verus!
