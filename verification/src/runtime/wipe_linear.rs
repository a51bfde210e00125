//! Integer interpolation and option access shared by the wipe mask shapes.

use vstd::prelude::*;
use crate::runtime::gray_mask;

verus! {

/// Division that rounds towards zero.
pub open spec fn truncated(n: int, d: int) -> int {
    if n >= 0 {
        n / d
    } else {
        -((-n) / d)
    }
}

/// Linear interpolation: `in_min` is mapped to `out_min` and `in_max` to
/// `out_max`, rounding towards `out_min`. An empty range maps to `out_max`.
pub open spec fn linear(value: int, in_min: int, out_min: int, in_max: int, out_max: int) -> int {
    if in_max == in_min {
        out_max
    } else {
        out_min + truncated((out_max - out_min) * (value - in_min), in_max - in_min)
    }
}

/// Step `i` of `n` steps from 0 to `top`.
pub open spec fn ramp(i: int, n: int, top: int) -> int {
    linear(i, 0, 0, n - 1, top)
}

/// `value` moved into `min..=max`.
pub open spec fn clamped(value: int, min: int, max: int) -> int {
    if value > max {
        max
    } else if value < min {
        min
    } else {
        value
    }
}

/// The option at `index`, or `default` where the list is shorter.
pub open spec fn opt_at(option: Seq<i32>, index: int, default: int) -> int {
    if 0 <= index < option.len() {
        option[index] as int
    } else {
        default
    }
}

/// Whether a frame of this size can be indexed with signed 32-bit arithmetic,
/// with up to 256 pixels to spare at each side.
pub open spec fn frame_fits(width: int, height: int) -> bool {
    &&& gray_mask::size_fits(width, height)
    &&& width <= i32::MAX - 256
    &&& height <= i32::MAX - 256
}

/// Whether strips of up to 256 pixels along a frame can be indexed as well.
pub open spec fn strips_fit(width: int, height: int) -> bool {
    &&& frame_fits(width, height)
    &&& width * 256 <= i32::MAX
    &&& height * 256 <= i32::MAX
}

/// Whether twice the length of a line across a frame stays within signed
/// 32-bit arithmetic.
pub open spec fn lines_fit(width: int, height: int) -> bool {
    &&& frame_fits(width, height)
    &&& width <= 0x3fff_ffff
    &&& height <= 0x3fff_ffff
}

pub proof fn lemma_frame_edges(width: int, height: int)
    requires
        frame_fits(width, height),
    ensures
        frame_fits(width, 1),
        frame_fits(1, height),
        width + height <= i32::MAX - 255,
{
    if width > 1 && height > 1 {
        assert(2 * (width + height) <= width * height + 4) by (nonlinear_arith)
            requires
                2 <= width,
                2 <= height,
        ;
    }
}

/// A strip of up to 256 pixels along a side.
pub proof fn lemma_strip(side: int, strip: int)
    requires
        1 <= side,
        side * 256 <= i32::MAX,
        1 <= strip <= 256,
    ensures
        frame_fits(side, strip),
        frame_fits(strip, side),
{
    assert(side * strip <= side * 256 && strip * side <= side * 256) by (nonlinear_arith)
        requires
            1 <= side,
            1 <= strip <= 256,
    ;
}

pub proof fn lemma_frame_strip(width: int, height: int, strip: int)
    requires
        strips_fit(width, height),
        1 <= strip <= 256,
    ensures
        strips_fit(width, strip),
        strips_fit(strip, height),
{
    assert(width * strip <= width * 256 && strip * height <= height * 256) by (nonlinear_arith)
        requires
            1 <= width,
            1 <= height,
            1 <= strip <= 256,
    ;
}

/// Interpolation inside the input range stays inside the output range.
pub proof fn lemma_linear_between(
    value: int,
    in_min: int,
    out_min: int,
    in_max: int,
    out_max: int,
)
    requires
        in_min <= value <= in_max,
    ensures
        gray_mask::between(out_min, linear(value, in_min, out_min, in_max, out_max), out_max),
{
    if in_max != in_min {
        let k = out_max - out_min;
        let v = value - in_min;
        let d = in_max - in_min;
        if k >= 0 {
            assert(k * v >= 0 && (k * v) / d >= 0 && (k * v) / d <= k) by (nonlinear_arith)
                requires
                    k >= 0,
                    0 <= v <= d,
                    d > 0,
            ;
        } else {
            let m = -k;
            assert(-(k * v) == m * v) by (nonlinear_arith)
                requires
                    m == -k,
            ;
            assert(m * v >= 0 && (m * v) / d >= 0 && (m * v) / d <= m) by (nonlinear_arith)
                requires
                    m >= 0,
                    0 <= v <= d,
                    d > 0,
            ;
            if k * v >= 0 {
                assert(m * v == 0);
                assert(0int / d == 0) by (nonlinear_arith)
                    requires
                        d > 0,
                ;
            }
        }
    }
}

pub fn clamp_i32(value: i32, min: i32, max: i32) -> (r: i32)
    requires
        min <= max,
    ensures
        r == clamped(value as int, min as int, max as int),
{
    if value > max {
        max
    } else if value < min {
        min
    } else {
        value
    }
}

pub fn linear_i32(value: i32, in_min: i32, out_min: i32, in_max: i32, out_max: i32) -> (r: i32)
    requires
        in_min <= in_max,
        -0x7fff_ffff <= out_max - out_min <= 0x7fff_ffff,
        -0x7fff_ffff <= value - in_min <= 0x7fff_ffff,
        i32::MIN <= linear(
            value as int,
            in_min as int,
            out_min as int,
            in_max as int,
            out_max as int,
        ) <= i32::MAX,
    ensures
        r == linear(value as int, in_min as int, out_min as int, in_max as int, out_max as int),
        in_min <= value <= in_max ==> gray_mask::between(out_min as int, r as int, out_max as int),
{
    proof {
        if in_min <= value <= in_max {
            lemma_linear_between(
                value as int,
                in_min as int,
                out_min as int,
                in_max as int,
                out_max as int,
            );
        }
    }
    if in_max == in_min {
        return out_max;
    }
    let k: i64 = out_max as i64 - out_min as i64;
    let v: i64 = value as i64 - in_min as i64;
    proof {
        assert(-0x3fff_ffff_0000_0001 <= k * v <= 0x3fff_ffff_0000_0001) by (nonlinear_arith)
            requires
                -0x7fff_ffff <= k <= 0x7fff_ffff,
                -0x7fff_ffff <= v <= 0x7fff_ffff,
        ;
    }
    let num: i64 = k * v;
    let d: i64 = in_max as i64 - in_min as i64;
    let quotient: i64 = if num >= 0 { num / d } else { -((-num) / d) };
    (out_min as i64 + quotient) as i32
}

/// Step `i` of `n` steps from 0 to `top`, as an exact value.
pub fn ramp_i32(i: i32, n: i32, top: i32) -> (r: i32)
    requires
        0 <= i < n,
        0 <= top,
    ensures
        r == ramp(i as int, n as int, top as int),
        0 <= r <= top,
{
    proof {
        lemma_linear_between(i as int, 0, 0, n - 1, top as int);
    }
    linear_i32(i, 0, 0, n - 1, top)
}

pub fn opt(option: &[i32], index: usize, default: i32) -> (r: i32)
    ensures
        r == opt_at(option@, index as int, default as int),
{
    if index < option.len() {
        option[index]
    } else {
        default
    }
}

/// `dir` modulo `n`, never negative.
pub fn turn(dir: i32, n: i32) -> (r: i32)
    requires
        n == 2 || n == 4,
    ensures
        r == dir as int % (n as int),
        0 <= r < n,
{
    let m: i32 = dir % n;
    if m < 0 {
        m + n
    } else {
        m
    }
}

} // verus!
