//! Wipe masks that run from two or four sides at once: the two halves or the
//! four quarters of the frame each carry a directional wipe of their own.

use vstd::prelude::*;
use crate::runtime::gray_mask;
use crate::runtime::gray_mask::GrayMask;
use crate::runtime::wipe_directions;
use crate::runtime::wipe_directions::{make_direction, make_direction_slice};
use crate::runtime::wipe_linear;
use crate::runtime::wipe_linear::{clamp_i32, ramp_i32, turn};

verus! {

/// Pixels that a half of `len` pixels lacks to a whole number of slices.
pub open spec fn slice_lack(len: int, slice: int) -> int {
    (slice - len % slice) % slice
}

/// Tone of a wipe from two opposite sides. In a frame of one row, the upper
/// half is that row; in a frame of one column, the right half is that column.
pub open spec fn both_direction_tone(
    width: int,
    height: int,
    reverse: bool,
    dir: int,
    x: int,
    y: int,
) -> int {
    if dir % 2 == 0 {
        let upper = gray_mask::larger(height / 2, 1);
        if y < upper {
            wipe_directions::direction_tone(1, upper, reverse, 0, 0, y)
        } else {
            wipe_directions::direction_tone(
                1,
                (height + 1) / 2,
                reverse,
                1,
                0,
                y - height / 2,
            )
        }
    } else {
        let left = width / 2;
        if x < left {
            wipe_directions::direction_tone(left, 1, reverse, 2, x, 0)
        } else {
            wipe_directions::direction_tone((width + 1) / 2, 1, reverse, 3, x - left, 0)
        }
    }
}

/// Tone of a sliced wipe from two opposite sides; the slices of both halves
/// are complete at the middle.
pub open spec fn both_direction_slice_tone(
    width: int,
    height: int,
    reverse: bool,
    dir: int,
    slice_len: int,
    x: int,
    y: int,
) -> int {
    let slice = wipe_linear::clamped(slice_len, 2, 128);
    if dir % 2 == 0 {
        let upper = height / 2;
        let lower = (height + 1) / 2;
        if y < upper {
            let lack = slice_lack(upper, slice);
            wipe_directions::direction_slice_tone(
                1,
                upper + lack,
                reverse,
                0,
                slice,
                0,
                y + lack,
            )
        } else {
            wipe_directions::direction_slice_tone(
                1,
                lower + slice_lack(lower, slice),
                reverse,
                1,
                slice,
                0,
                y - upper,
            )
        }
    } else {
        let left = width / 2;
        let right = (width + 1) / 2;
        if x < left {
            let lack = slice_lack(left, slice);
            wipe_directions::direction_slice_tone(
                left + lack,
                1,
                reverse,
                2,
                slice,
                x + lack,
                0,
            )
        } else {
            wipe_directions::direction_slice_tone(
                right + slice_lack(right, slice),
                1,
                reverse,
                3,
                slice,
                x - left,
                0,
            )
        }
    }
}

/// Tone of a blind whose blades are complete at the far end of the direction:
/// at the bottom for 0, the top for 1, the right for 2, the left for 3.
pub open spec fn anchored_blind_tone(
    width: int,
    height: int,
    reverse: bool,
    dir: int,
    blind_len: int,
    x: int,
    y: int,
) -> int {
    let blind = wipe_linear::clamped(blind_len, 2, 128);
    let d = dir % 4;
    if d == 0 {
        wipe_directions::direction_tone(width, blind, reverse, dir, x, (y - height) % blind)
    } else if d == 1 {
        wipe_directions::direction_tone(width, blind, reverse, dir, x, y % blind)
    } else if d == 2 {
        wipe_directions::direction_tone(blind, height, reverse, dir, (x - width) % blind, y)
    } else {
        wipe_directions::direction_tone(blind, height, reverse, dir, x % blind, y)
    }
}

/// Tone of a blind from two opposite sides.
pub open spec fn both_direction_blind_tone(
    width: int,
    height: int,
    reverse: bool,
    dir: int,
    blind_len: int,
    x: int,
    y: int,
) -> int {
    if dir % 2 == 0 {
        let upper = height / 2;
        if y < upper {
            anchored_blind_tone(1, upper, reverse, 0, blind_len, 0, y)
        } else {
            anchored_blind_tone(1, (height + 1) / 2, reverse, 1, blind_len, 0, y - upper)
        }
    } else {
        let left = width / 2;
        if x < left {
            anchored_blind_tone(left, 1, reverse, 2, blind_len, x, 0)
        } else {
            anchored_blind_tone((width + 1) / 2, 1, reverse, 3, blind_len, x - left, 0)
        }
    }
}

/// Tone of stripes that lie across the direction: every other stripe runs the
/// opposite way through the palette.
pub open spec fn stripe_tone(len: int, reverse: bool, stripe_len: int, pos: int) -> int {
    let stripe = wipe_linear::clamped(stripe_len, 1, 128);
    let pitch = stripe * 2;
    let pal = wipe_linear::ramp(pos / pitch, (len + pitch - 1) / pitch, 255);
    gray_mask::tone(if pos % pitch < stripe { 255 - pal } else { pal }, reverse)
}

pub open spec fn both_direction_stripe_tone(
    width: int,
    height: int,
    reverse: bool,
    dir: int,
    stripe_len: int,
    x: int,
    y: int,
) -> int {
    if dir % 2 == 0 {
        stripe_tone(height, reverse, stripe_len, y)
    } else {
        stripe_tone(width, reverse, stripe_len, x)
    }
}

/// Tone of stripes that lie along the direction: each runs through the whole
/// palette, every other one the opposite way.
pub open spec fn both_direction_stripe2_tone(
    width: int,
    height: int,
    reverse: bool,
    dir: int,
    stripe_len: int,
    x: int,
    y: int,
) -> int {
    let stripe = wipe_linear::clamped(stripe_len, 1, 128);
    let along = if dir % 2 == 0 { y } else { x };
    let across = if dir % 2 == 0 { x } else { y };
    let pal = wipe_linear::ramp(along, if dir % 2 == 0 { height } else { width }, 255);
    gray_mask::tone(if across % (stripe * 2) < stripe { 255 - pal } else { pal }, reverse)
}

/// Which of four tones a pixel takes: `q0` in the upper left quarter, `q1` in
/// the lower right, `q2` in the upper right and `q3` in the lower left. The
/// only row of a frame counts as upper right of its middle.
pub open spec fn quarter(
    width: int,
    height: int,
    x: int,
    y: int,
    q0: int,
    q1: int,
    q2: int,
    q3: int,
) -> int {
    if x < width / 2 {
        if y >= height / 2 {
            q3
        } else {
            q0
        }
    } else {
        if y < gray_mask::larger(height / 2, 1) {
            q2
        } else {
            q1
        }
    }
}

/// Tone of a wipe that turns round the middle: each quarter runs its own way.
pub open spec fn cross_direction_tone(width: int, height: int, reverse: bool, x: int, y: int) -> int {
    let left = width / 2;
    let upper = height / 2;
    quarter(
        width,
        height,
        x,
        y,
        wipe_directions::direction_tone(left, 1, reverse, 2, x, 0),
        wipe_directions::direction_tone((width + 1) / 2, 1, reverse, 3, x - left, 0),
        wipe_directions::direction_tone(1, gray_mask::larger(upper, 1), reverse, 0, 0, y),
        wipe_directions::direction_tone(1, (height + 1) / 2, reverse, 1, 0, y - upper),
    )
}

pub open spec fn cross_direction_slice_tone(
    width: int,
    height: int,
    reverse: bool,
    slice_len: int,
    x: int,
    y: int,
) -> int {
    let slice = wipe_linear::clamped(slice_len, 2, 128);
    let left = width / 2;
    let right = (width + 1) / 2;
    let upper = height / 2;
    let lower = (height + 1) / 2;
    quarter(
        width,
        height,
        x,
        y,
        wipe_directions::direction_slice_tone(
            left + slice_lack(left, slice),
            1,
            reverse,
            2,
            slice,
            x + slice_lack(left, slice),
            0,
        ),
        wipe_directions::direction_slice_tone(
            right + slice_lack(right, slice),
            1,
            reverse,
            3,
            slice,
            x - left,
            0,
        ),
        wipe_directions::direction_slice_tone(
            1,
            gray_mask::larger(upper + slice_lack(upper, slice), 1),
            reverse,
            0,
            slice,
            0,
            y + slice_lack(upper, slice),
        ),
        wipe_directions::direction_slice_tone(
            1,
            lower + slice_lack(lower, slice),
            reverse,
            1,
            slice,
            0,
            y - upper,
        ),
    )
}

pub open spec fn cross_direction_blind_tone(
    width: int,
    height: int,
    reverse: bool,
    blind_len: int,
    x: int,
    y: int,
) -> int {
    let left = width / 2;
    let upper = height / 2;
    quarter(
        width,
        height,
        x,
        y,
        anchored_blind_tone(left, 1, reverse, 2, blind_len, x, 0),
        anchored_blind_tone((width + 1) / 2, 1, reverse, 3, blind_len, x - left, 0),
        anchored_blind_tone(1, gray_mask::larger(upper, 1), reverse, 0, blind_len, 0, y),
        anchored_blind_tone(1, (height + 1) / 2, reverse, 1, blind_len, 0, y - upper),
    )
}

/// Copies a mask of one row into the rows `y0..y1`, its left end at column `x`.
fn copy_rows(out: &mut GrayMask, row: &GrayMask, x: i32, y0: i32, y1: i32)
    requires
        old(out).wf(),
        row.wf(),
        row.height == 1,
    ensures
        final(out).sized(old(out).width as int, old(out).height as int),
        forall|a: int, b: int|
            #![trigger final(out).at(a, b)]
            old(out).contains(a, b) ==> final(out).at(a, b) == (if y0 <= b < y1 && 0 <= a - x
                < row.width {
                row.at(a - x, 0)
            } else {
                old(out).at(a, b)
            }),
{
    let mut y: i32 = y0;
    while y < y1
        invariant
            out.sized(old(out).width as int, old(out).height as int),
            row.wf(),
            row.height == 1,
            y0 <= y,
            y <= y1 || y == y0,
            forall|a: int, b: int|
                #![trigger out.at(a, b)]
                out.contains(a, b) ==> out.at(a, b) == (if y0 <= b < y && 0 <= a - x < row.width {
                    row.at(a - x, 0)
                } else {
                    old(out).at(a, b)
                }),
        decreases y1 - y,
    {
        out.copy_from(row, x, y);
        y = y + 1;
    }
}

/// Copies a mask of one column into the columns `x0..x1`, its top at row `y`.
fn copy_columns(out: &mut GrayMask, column: &GrayMask, x0: i32, x1: i32, y: i32)
    requires
        old(out).wf(),
        column.wf(),
        column.width == 1,
    ensures
        final(out).sized(old(out).width as int, old(out).height as int),
        forall|a: int, b: int|
            #![trigger final(out).at(a, b)]
            old(out).contains(a, b) ==> final(out).at(a, b) == (if x0 <= a < x1 && 0 <= b - y
                < column.height {
                column.at(0, b - y)
            } else {
                old(out).at(a, b)
            }),
{
    let mut x: i32 = x0;
    while x < x1
        invariant
            out.sized(old(out).width as int, old(out).height as int),
            column.wf(),
            column.width == 1,
            x0 <= x,
            x <= x1 || x == x0,
            forall|a: int, b: int|
                #![trigger out.at(a, b)]
                out.contains(a, b) ==> out.at(a, b) == (if x0 <= a < x && 0 <= b - y
                    < column.height {
                    column.at(0, b - y)
                } else {
                    old(out).at(a, b)
                }),
        decreases x1 - x,
    {
        out.copy_from(column, x, y);
        x = x + 1;
    }
}

pub fn make_both_direction(width: u32, height: u32, reverse: bool, dir: i32) -> (out: GrayMask)
    requires
        wipe_linear::frame_fits(width as int, height as int),
    ensures
        out.sized(width as int, height as int),
        out.shows(
            |x: int, y: int|
                both_direction_tone(width as int, height as int, reverse, dir as int, x, y),
        ),
{
    let mut out = GrayMask::new(width, height);
    if turn(dir, 2) == 0 {
        let upper: u32 = height / 2;
        let lower: u32 = (height + 1) / 2;
        let lower_mask = make_direction(1, lower, reverse, 1);
        copy_columns(&mut out, &lower_mask, 0, width as i32, upper as i32);
        let upper_mask = make_direction(1, if upper == 0 { 1 } else { upper }, reverse, 0);
        copy_columns(&mut out, &upper_mask, 0, width as i32, 0);
    } else {
        let left: u32 = width / 2;
        let right: u32 = (width + 1) / 2;
        let left_mask = make_direction(if left == 0 { 1 } else { left }, 1, reverse, 2);
        let right_mask = make_direction(right, 1, reverse, 3);
        copy_rows(&mut out, &left_mask, 0, 0, height as i32);
        copy_rows(&mut out, &right_mask, left as i32, 0, height as i32);
    }
    out
}

/// Pixels that `len` lacks to a whole number of slices.
fn lack(len: i32, slice: i32) -> (r: i32)
    requires
        0 <= len,
        2 <= slice <= 128,
    ensures
        r == slice_lack(len as int, slice as int),
        0 <= r < slice,
        len == 0 ==> r == 0,
{
    let rest: i32 = len % slice;
    proof {
        if rest == 0 {
            vstd::arithmetic::div_mod::lemma_mod_self_0(slice as int);
        } else {
            vstd::arithmetic::div_mod::lemma_small_mod((slice - rest) as nat, slice as nat);
        }
        vstd::arithmetic::div_mod::lemma_small_mod(0, slice as nat);
    }
    if rest == 0 {
        0
    } else {
        slice - rest
    }
}

pub fn make_both_direction_slice(
    width: u32,
    height: u32,
    reverse: bool,
    dir: i32,
    slice_len: i32,
) -> (out: GrayMask)
    requires
        wipe_linear::frame_fits(width as int, height as int),
    ensures
        out.sized(width as int, height as int),
        out.shows(
            |x: int, y: int|
                both_direction_slice_tone(
                    width as int,
                    height as int,
                    reverse,
                    dir as int,
                    slice_len as int,
                    x,
                    y,
                ),
        ),
{
    let slice: i32 = clamp_i32(slice_len, 2, 128);
    let mut out = GrayMask::new(width, height);
    if turn(dir, 2) == 0 {
        let upper: i32 = height as i32 / 2;
        let lower: i32 = (height as i32 + 1) / 2;
        let a: i32 = lack(upper, slice);
        let len: u32 = if upper + a == 0 { 1 } else { (upper + a) as u32 };
        let upper_mask = make_direction_slice(1, len, reverse, 0, slice);
        copy_columns(&mut out, &upper_mask, 0, width as i32, -a);
        let b: i32 = lack(lower, slice);
        let lower_mask = make_direction_slice(1, (lower + b) as u32, reverse, 1, slice);
        copy_columns(&mut out, &lower_mask, 0, width as i32, upper);
    } else {
        let left: i32 = width as i32 / 2;
        let right: i32 = (width as i32 + 1) / 2;
        let a: i32 = lack(left, slice);
        let len: u32 = if left + a == 0 { 1 } else { (left + a) as u32 };
        let left_mask = make_direction_slice(len, 1, reverse, 2, slice);
        copy_rows(&mut out, &left_mask, -a, 0, height as i32);
        let b: i32 = lack(right, slice);
        let right_mask = make_direction_slice((right + b) as u32, 1, reverse, 3, slice);
        copy_rows(&mut out, &right_mask, left, 0, height as i32);
    }
    out
}

/// A multiple of `n` does not change the remainder.
proof fn lemma_shift(v: int, k: int, n: int)
    requires
        n > 0,
        0 <= v < n,
    ensures
        (v + k * n) % n == v,
{
    vstd::arithmetic::div_mod::lemma_mod_multiples_vanish(k, v, n);
    vstd::arithmetic::div_mod::lemma_small_mod(v as nat, n as nat);
    assert(v + k * n == n * k + v) by (nonlinear_arith);
}

pub fn make_both_direction_blind_func(
    width: u32,
    height: u32,
    reverse: bool,
    dir: i32,
    blind_len: i32,
) -> (out: GrayMask)
    requires
        wipe_linear::frame_fits(width as int, height as int),
        (if dir as int % 4 <= 1 { width } else { height }) * 256 <= i32::MAX,
    ensures
        out.sized(width as int, height as int),
        out.shows(
            |x: int, y: int|
                anchored_blind_tone(
                    width as int,
                    height as int,
                    reverse,
                    dir as int,
                    blind_len as int,
                    x,
                    y,
                ),
        ),
{
    let blind: i32 = clamp_i32(blind_len, 2, 128);
    let d: i32 = turn(dir, 4);
    proof {
        wipe_linear::lemma_strip(if d <= 1 { width as int } else { height as int }, blind as int);
    }
    let mut out = GrayMask::new(width, height);
    let (pattern, len) = if d <= 1 {
        (make_direction(width, blind as u32, reverse, dir), height as i32)
    } else {
        (make_direction(blind as u32, height, reverse, dir), width as i32)
    };
    if d == 0 || d == 2 {
        let mut pos: i32 = len - blind;
        let ghost mut k: int = -1;
        while pos + blind > 0
            invariant
                2 <= blind <= 128,
                d == dir as int % 4,
                d == 0 || d == 2,
                len == (if d == 0 { height as int } else { width as int }),
                pos == len + k * blind,
                -2 * blind < pos < len <= i32::MAX - 256,
                out.sized(width as int, height as int),
                pattern.sized(
                    if d == 0 { width as int } else { blind as int },
                    if d == 0 { blind as int } else { height as int },
                ),
                blind == wipe_linear::clamped(blind_len as int, 2, 128),
                pattern.shows(
                    |x: int, y: int|
                        wipe_directions::direction_tone(
                            if d == 0 { width as int } else { blind as int },
                            if d == 0 { blind as int } else { height as int },
                            reverse,
                            dir as int,
                            x,
                            y,
                        ),
                ),
                forall|a: int, b: int|
                    #![trigger out.at(a, b)]
                    out.contains(a, b) && (if d == 0 { b } else { a }) >= pos + blind ==> out.at(
                        a,
                        b,
                    ) == anchored_blind_tone(
                        width as int,
                        height as int,
                        reverse,
                        dir as int,
                        blind_len as int,
                        a,
                        b,
                    ),
            decreases pos + 2 * blind,
        {
            if d == 0 {
                out.copy_from(&pattern, 0, pos);
            } else {
                out.copy_from(&pattern, pos, 0);
            }
            proof {
                assert forall|v: int| pos <= v < pos + blind implies #[trigger] ((v - len) % (
                blind as int)) == v - pos by {
                    lemma_shift(v - pos, k, blind as int);
                }
                assert((k - 1) * blind == k * blind - blind) by (nonlinear_arith);
                k = k - 1;
            }
            pos = pos - blind;
        }
    } else {
        let mut pos: i32 = 0;
        let ghost mut k: int = 0;
        while pos < len
            invariant
                2 <= blind <= 128,
                d == dir as int % 4,
                d == 1 || d == 3,
                len == (if d == 1 { height as int } else { width as int }),
                pos == k * blind,
                0 <= pos < len + blind,
                0 < len <= i32::MAX - 256,
                out.sized(width as int, height as int),
                pattern.sized(
                    if d == 1 { width as int } else { blind as int },
                    if d == 1 { blind as int } else { height as int },
                ),
                blind == wipe_linear::clamped(blind_len as int, 2, 128),
                pattern.shows(
                    |x: int, y: int|
                        wipe_directions::direction_tone(
                            if d == 1 { width as int } else { blind as int },
                            if d == 1 { blind as int } else { height as int },
                            reverse,
                            dir as int,
                            x,
                            y,
                        ),
                ),
                forall|a: int, b: int|
                    #![trigger out.at(a, b)]
                    out.contains(a, b) && (if d == 1 { b } else { a }) < pos ==> out.at(a, b)
                        == anchored_blind_tone(
                        width as int,
                        height as int,
                        reverse,
                        dir as int,
                        blind_len as int,
                        a,
                        b,
                    ),
            decreases len + blind - pos,
        {
            if d == 1 {
                out.copy_from(&pattern, 0, pos);
            } else {
                out.copy_from(&pattern, pos, 0);
            }
            proof {
                assert forall|v: int| pos <= v < pos + blind implies #[trigger] (v % (blind as int))
                    == v - pos by {
                    lemma_shift(v - pos, k, blind as int);
                }
                assert((k + 1) * blind == k * blind + blind) by (nonlinear_arith);
                k = k + 1;
            }
            pos = pos + blind;
        }
    }
    out
}

pub fn make_both_direction_blind(
    width: u32,
    height: u32,
    reverse: bool,
    dir: i32,
    blind_len: i32,
) -> (out: GrayMask)
    requires
        wipe_linear::frame_fits(width as int, height as int),
    ensures
        out.sized(width as int, height as int),
        out.shows(
            |x: int, y: int|
                both_direction_blind_tone(
                    width as int,
                    height as int,
                    reverse,
                    dir as int,
                    blind_len as int,
                    x,
                    y,
                ),
        ),
{
    let mut out = GrayMask::new(width, height);
    if turn(dir, 2) == 0 {
        let upper: u32 = height / 2;
        let lower: u32 = (height + 1) / 2;
        let len: u32 = if upper == 0 { 1 } else { upper };
        let a = make_both_direction_blind_func(1, len, reverse, 0, blind_len);
        let b = make_both_direction_blind_func(1, lower, reverse, 1, blind_len);
        copy_columns(&mut out, &a, 0, width as i32, 0);
        copy_columns(&mut out, &b, 0, width as i32, upper as i32);
    } else {
        let left: u32 = width / 2;
        let right: u32 = (width + 1) / 2;
        let len: u32 = if left == 0 { 1 } else { left };
        let a = make_both_direction_blind_func(len, 1, reverse, 2, blind_len);
        let b = make_both_direction_blind_func(right, 1, reverse, 3, blind_len);
        copy_rows(&mut out, &a, 0, 0, height as i32);
        copy_rows(&mut out, &b, left as i32, 0, height as i32);
    }
    out
}

pub fn make_both_direction_stripe(
    width: u32,
    height: u32,
    reverse: bool,
    dir: i32,
    stripe_len: i32,
) -> (out: GrayMask)
    requires
        wipe_linear::frame_fits(width as int, height as int),
    ensures
        out.sized(width as int, height as int),
        out.shows(
            |x: int, y: int|
                both_direction_stripe_tone(
                    width as int,
                    height as int,
                    reverse,
                    dir as int,
                    stripe_len as int,
                    x,
                    y,
                ),
        ),
{
    let stripe: i32 = clamp_i32(stripe_len, 1, 128);
    let pitch: i32 = stripe * 2;
    let upright: bool = turn(dir, 2) == 0;
    let len: i32 = if upright { height as i32 } else { width as i32 };
    let count: i32 = (len + pitch - 1) / pitch;
    let mut pattern = GrayMask::new(
        if upright { 1 } else { width },
        if upright { height } else { 1 },
    );
    let mut pos: i32 = 0;
    while pos < len
        invariant
            0 <= pos <= len,
            stripe == wipe_linear::clamped(stripe_len as int, 1, 128),
            pitch == 2 * stripe,
            count == (len + pitch - 1) / (pitch as int),
            len == (if upright { height as int } else { width as int }),
            pattern.sized(
                if upright { 1int } else { width as int },
                if upright { height as int } else { 1int },
            ),
            forall|a: int, b: int|
                #![trigger pattern.at(a, b)]
                pattern.contains(a, b) && (if upright { b } else { a }) < pos ==> pattern.at(a, b)
                    == stripe_tone(
                    len as int,
                    reverse,
                    stripe_len as int,
                    if upright { b } else { a },
                ),
        decreases len - pos,
    {
        let band: i32 = pos / pitch;
        proof {
            assert(0 <= band < count) by (nonlinear_arith)
                requires
                    0 <= pos < len,
                    pitch >= 2,
                    band == pos as int / (pitch as int),
                    count == (len + pitch - 1) / (pitch as int),
            ;
        }
        let pal: i32 = ramp_i32(band, count, 255);
        let gray: u8 = if pos % pitch < stripe { (255 - pal) as u8 } else { pal as u8 };
        if upright {
            pattern.set(0, pos, gray, reverse);
        } else {
            pattern.set(pos, 0, gray, reverse);
        }
        pos = pos + 1;
    }
    pattern.tiled_to(width, height)
}

pub fn make_both_direction_stripe2(
    width: u32,
    height: u32,
    reverse: bool,
    dir: i32,
    stripe_len: i32,
) -> (out: GrayMask)
    requires
        wipe_linear::strips_fit(width as int, height as int),
    ensures
        out.sized(width as int, height as int),
        out.shows(
            |x: int, y: int|
                both_direction_stripe2_tone(
                    width as int,
                    height as int,
                    reverse,
                    dir as int,
                    stripe_len as int,
                    x,
                    y,
                ),
        ),
{
    let stripe: i32 = clamp_i32(stripe_len, 1, 128);
    let upright: bool = turn(dir, 2) == 0;
    let len: i32 = if upright { height as i32 } else { width as i32 };
    proof {
        wipe_linear::lemma_frame_strip(width as int, height as int, stripe * 2);
    }
    let mut pattern = GrayMask::new(
        if upright { (stripe * 2) as u32 } else { width },
        if upright { height } else { (stripe * 2) as u32 },
    );
    let mut i: i32 = 0;
    while i < len
        invariant
            0 <= i <= len,
            1 <= stripe <= 128,
            len == (if upright { height as int } else { width as int }),
            pattern.sized(
                if upright { 2 * stripe } else { width as int },
                if upright { height as int } else { 2 * stripe },
            ),
            forall|a: int, b: int|
                #![trigger pattern.at(a, b)]
                pattern.contains(a, b) && (if upright { b } else { a }) < i ==> {
                    let along = if upright { b } else { a };
                    let across = if upright { a } else { b };
                    let pal = wipe_linear::ramp(along, len as int, 255);
                    pattern.at(a, b) == gray_mask::tone(
                        if across < stripe { 255 - pal } else { pal },
                        reverse,
                    )
                },
        decreases len - i,
    {
        let pal: i32 = ramp_i32(i, len, 255);
        if upright {
            pattern.fill_box(0, i, stripe - 1, i, (255 - pal) as u8, reverse);
            pattern.fill_box(stripe, i, stripe * 2 - 1, i, pal as u8, reverse);
        } else {
            pattern.fill_box(i, 0, i, stripe - 1, (255 - pal) as u8, reverse);
            pattern.fill_box(i, stripe, i, stripe * 2 - 1, pal as u8, reverse);
        }
        i = i + 1;
    }
    pattern.tiled_to(width, height)
}

pub fn make_cross_direction(width: u32, height: u32, reverse: bool) -> (out: GrayMask)
    requires
        wipe_linear::frame_fits(width as int, height as int),
    ensures
        out.sized(width as int, height as int),
        out.shows(
            |x: int, y: int| cross_direction_tone(width as int, height as int, reverse, x, y),
        ),
{
    let left: u32 = width / 2;
    let right: u32 = (width + 1) / 2;
    let upper: u32 = height / 2;
    let lower: u32 = (height + 1) / 2;
    let mut out = GrayMask::new(width, height);
    let q0 = make_direction(if left == 0 { 1 } else { left }, 1, reverse, 2);
    copy_rows(&mut out, &q0, 0, 0, upper as i32);
    let q1 = make_direction(right, 1, reverse, 3);
    copy_rows(&mut out, &q1, left as i32, upper as i32, height as i32);
    let q2 = make_direction(1, if upper == 0 { 1 } else { upper }, reverse, 0);
    copy_columns(&mut out, &q2, left as i32, width as i32, 0);
    let q3 = make_direction(1, lower, reverse, 1);
    copy_columns(&mut out, &q3, 0, left as i32, upper as i32);
    out
}

pub fn make_cross_direction_slice(
    width: u32,
    height: u32,
    reverse: bool,
    slice_len: i32,
) -> (out: GrayMask)
    requires
        wipe_linear::frame_fits(width as int, height as int),
    ensures
        out.sized(width as int, height as int),
        out.shows(
            |x: int, y: int|
                cross_direction_slice_tone(
                    width as int,
                    height as int,
                    reverse,
                    slice_len as int,
                    x,
                    y,
                ),
        ),
{
    let slice: i32 = clamp_i32(slice_len, 2, 128);
    let left: i32 = width as i32 / 2;
    let right: i32 = (width as i32 + 1) / 2;
    let upper: i32 = height as i32 / 2;
    let lower: i32 = (height as i32 + 1) / 2;
    let mut out = GrayMask::new(width, height);
    let a: i32 = lack(left, slice);
    let len0: u32 = if left + a == 0 { 1 } else { (left + a) as u32 };
    let q0 = make_direction_slice(len0, 1, reverse, 2, slice);
    copy_rows(&mut out, &q0, -a, 0, upper);
    let b: i32 = lack(right, slice);
    let q1 = make_direction_slice((right + b) as u32, 1, reverse, 3, slice);
    copy_rows(&mut out, &q1, left, upper, height as i32);
    let c: i32 = lack(upper, slice);
    let len2: u32 = if upper + c == 0 { 1 } else { (upper + c) as u32 };
    let q2 = make_direction_slice(1, len2, reverse, 0, slice);
    copy_columns(&mut out, &q2, left, width as i32, -c);
    let d: i32 = lack(lower, slice);
    let q3 = make_direction_slice(1, (lower + d) as u32, reverse, 1, slice);
    copy_columns(&mut out, &q3, 0, left, upper);
    out
}

pub fn make_cross_direction_blind(
    width: u32,
    height: u32,
    reverse: bool,
    blind_len: i32,
) -> (out: GrayMask)
    requires
        wipe_linear::frame_fits(width as int, height as int),
    ensures
        out.sized(width as int, height as int),
        out.shows(
            |x: int, y: int|
                cross_direction_blind_tone(
                    width as int,
                    height as int,
                    reverse,
                    blind_len as int,
                    x,
                    y,
                ),
        ),
{
    let left: u32 = width / 2;
    let right: u32 = (width + 1) / 2;
    let upper: u32 = height / 2;
    let lower: u32 = (height + 1) / 2;
    let mut out = GrayMask::new(width, height);
    let len0: u32 = if left == 0 { 1 } else { left };
    let q0 = make_both_direction_blind_func(len0, 1, reverse, 2, blind_len);
    copy_rows(&mut out, &q0, 0, 0, upper as i32);
    let q1 = make_both_direction_blind_func(right, 1, reverse, 3, blind_len);
    copy_rows(&mut out, &q1, left as i32, upper as i32, height as i32);
    let len2: u32 = if upper == 0 { 1 } else { upper };
    let q2 = make_both_direction_blind_func(1, len2, reverse, 0, blind_len);
    copy_columns(&mut out, &q2, left as i32, width as i32, 0);
    let q3 = make_both_direction_blind_func(1, lower, reverse, 1, blind_len);
    copy_columns(&mut out, &q3, 0, left as i32, upper as i32);
    out
}

} // verus!
