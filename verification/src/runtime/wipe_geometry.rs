//! How the masks of the built-in wipes lie on the frame: along which lines a
//! tone stays the same, where a wipe begins and ends, and how evenly it runs.

use vstd::prelude::*;
use crate::runtime::gray_mask;
use crate::runtime::wipe_both;
use crate::runtime::wipe_directions;
use crate::runtime::wipe_linear;
use crate::runtime::wipe_mask;
use crate::runtime::wipe_random;
use crate::runtime::wipe_rings;

verus! {

/// Whether `v` is what step `i` of `n` has reached on the way from 0 to `top`:
/// `i` of `n - 1` equal parts, rounded down. A single step is at the top.
pub open spec fn reaches(v: int, i: int, n: int, top: int) -> bool {
    if n <= 1 {
        v == top
    } else {
        v * (n - 1) <= top * i < v * (n - 1) + (n - 1)
    }
}

/// `v` kept between `low` and `high`.
pub open spec fn within(low: int, v: int, high: int) -> int {
    if v < low {
        low
    } else if v > high {
        high
    } else {
        v
    }
}

proof fn lemma_ramp(i: int, n: int, top: int)
    requires
        0 <= i < n,
        0 <= top,
    ensures
        reaches(wipe_linear::ramp(i, n, top), i, n, top),
        0 <= wipe_linear::ramp(i, n, top) <= top,
        n > 1 && i == 0 ==> wipe_linear::ramp(i, n, top) == 0,
        i == n - 1 ==> wipe_linear::ramp(i, n, top) == top,
{
    wipe_linear::lemma_linear_between(i, 0, 0, n - 1, top);
    if n > 1 {
        assert(top * i >= 0) by (nonlinear_arith)
            requires
                0 <= top,
                0 <= i,
        ;
        vstd::arithmetic::div_mod::lemma_fundamental_div_mod(top * i, n - 1);
        let v = wipe_linear::ramp(i, n, top);
        assert(v * (n - 1) == (n - 1) * v) by (nonlinear_arith);
        if i == 0 {
            assert(top * i == 0) by (nonlinear_arith)
                requires
                    i == 0,
            ;
            assert(0int / (n - 1) == 0) by (nonlinear_arith)
                requires
                    n > 1,
            ;
        }
        if i == n - 1 {
            vstd::arithmetic::div_mod::lemma_div_multiples_vanish(top, n - 1);
            assert(top * (n - 1) == (n - 1) * top) by (nonlinear_arith);
        }
    }
}

/// What two steps have reached is in the order of the steps.
proof fn lemma_order(a: int, b: int, i: int, j: int, n: int, top: int)
    requires
        reaches(a, i, n, top),
        reaches(b, j, n, top),
        i <= j,
        0 <= top,
    ensures
        a <= b,
{
    if n > 1 && a > b {
        assert(top * i <= top * j) by (nonlinear_arith)
            requires
                0 <= top,
                i <= j,
        ;
        assert(a * (n - 1) >= b * (n - 1) + (n - 1)) by (nonlinear_arith)
            requires
                a >= b + 1,
                n > 1,
        ;
    }
}

/// A step has reached one thing only.
pub proof fn steps_are_exact(a: int, b: int, i: int, n: int, top: int)
    requires
        reaches(a, i, n, top),
        reaches(b, i, n, top),
        0 <= top,
    ensures
        a == b,
{
    lemma_order(a, b, i, i, n, top);
    lemma_order(b, a, i, i, n, top);
}

/// The plain wipe runs from white along its direction: down for 0, up for 1, to
/// the right for 2 and to the left for 3, evenly, and over whole rows or columns
/// at once.
pub proof fn plain_wipes_run_along_their_direction(
    o: Seq<i32>,
    w: int,
    h: int,
    seed: u32,
    angular: spec_fn(int, int) -> int,
    x: int,
    y: int,
)
    requires
        o.len() >= 2,
        0 <= x < w,
        0 <= y < h,
    ensures
        ({
            let t = wipe_mask::wipe_tone(100, o, w, h, seed, angular, x, y);
            let d = o[1] as int % 4;
            &&& 0 <= t <= 255
            &&& d == 0 ==> reaches(255 - t, y, h, 255)
            &&& d == 1 ==> reaches(t, y, h, 255)
            &&& d == 2 ==> reaches(255 - t, x, w, 255)
            &&& d == 3 ==> reaches(t, x, w, 255)
            &&& d == 0 && h > 1 && y == 0 ==> t == 255
            &&& d == 1 && y == h - 1 ==> t == 255
            &&& d == 2 && w > 1 && x == 0 ==> t == 255
            &&& d == 3 && x == w - 1 ==> t == 255
            &&& d == 0 && y == h - 1 ==> t == 0
            &&& d == 2 && x == w - 1 ==> t == 0
        }),
{
    lemma_ramp(y, h, 255);
    lemma_ramp(x, w, 255);
}

/// The diagonal wipe has one tone along each diagonal: where `x + y` is the same
/// for the directions 0 and 3, and where `x - y` is for 1 and 2. It sweeps evenly
/// from white in one corner to black in the opposite one, and each direction
/// begins in its own corner.
pub proof fn diagonal_wipes_run_from_corner_to_corner(
    o: Seq<i32>,
    w: int,
    h: int,
    seed: u32,
    angular: spec_fn(int, int) -> int,
    x: int,
    y: int,
    u: int,
    v: int,
)
    requires
        o.len() >= 2,
        0 <= x < w,
        0 <= y < h,
        0 <= u < w,
        0 <= v < h,
    ensures
        ({
            let t = wipe_mask::wipe_tone(110, o, w, h, seed, angular, x, y);
            let other = wipe_mask::wipe_tone(110, o, w, h, seed, angular, u, v);
            let d = o[1] as int % 4;
            &&& 0 <= t <= 255
            &&& (d == 0 || d == 3) && x + y == u + v ==> t == other
            &&& (d == 1 || d == 2) && x - y == u - v ==> t == other
            &&& d == 0 && x + y <= u + v ==> t >= other
            &&& d == 3 && x + y <= u + v ==> t <= other
            &&& d == 1 && y - x <= v - u ==> t >= other
            &&& d == 2 && y - x <= v - u ==> t <= other
            &&& d == 0 ==> reaches(255 - t, x + y, w + h - 1, 255)
            &&& d == 3 ==> reaches(t, x + y, w + h - 1, 255)
            &&& d == 1 ==> reaches(255 - t, w - 1 - x + y, w + h - 1, 255)
            &&& d == 2 ==> reaches(t, w - 1 - x + y, w + h - 1, 255)
            &&& w + h > 2 ==> {
                &&& d == 0 && x == 0 && y == 0 ==> t == 255
                &&& d == 0 && x == w - 1 && y == h - 1 ==> t == 0
                &&& d == 3 && x == 0 && y == 0 ==> t == 0
                &&& d == 3 && x == w - 1 && y == h - 1 ==> t == 255
                &&& d == 1 && x == w - 1 && y == 0 ==> t == 255
                &&& d == 1 && x == 0 && y == h - 1 ==> t == 0
                &&& d == 2 && x == w - 1 && y == 0 ==> t == 0
                &&& d == 2 && x == 0 && y == h - 1 ==> t == 255
            }
        }),
{
    let n = w + h - 1;
    lemma_ramp(x + y, n, 255);
    lemma_ramp(u + v, n, 255);
    lemma_ramp(w - 1 - x + y, n, 255);
    lemma_ramp(w - 1 - u + v, n, 255);
    let ramp = |i: int| wipe_linear::ramp(i, n, 255);
    if x + y <= u + v {
        lemma_order(ramp(x + y), ramp(u + v), x + y, u + v, n, 255);
    }
    if y - x <= v - u {
        let (i, j) = (w - 1 - x + y, w - 1 - u + v);
        lemma_order(ramp(i), ramp(j), i, j, n, 255);
    }
}

/// A wipe of blinds repeats with its blades, and each blade is a plain wipe of
/// its own.
pub proof fn blinds_repeat_a_plain_wipe(
    o: Seq<i32>,
    w: int,
    h: int,
    seed: u32,
    angular: spec_fn(int, int) -> int,
    x: int,
    y: int,
)
    requires
        o.len() >= 3,
        0 <= x < w,
        0 <= y < h,
    ensures
        ({
            let t = wipe_mask::wipe_tone(102, o, w, h, seed, angular, x, y);
            let blade = within(2, o[2] as int, 128);
            let d = o[1] as int % 4;
            &&& d == 0 ==> reaches(255 - t, y % blade, blade, 255)
            &&& d == 1 ==> reaches(t, y % blade, blade, 255)
            &&& d == 2 ==> reaches(255 - t, x % blade, blade, 255)
            &&& d == 3 ==> reaches(t, x % blade, blade, 255)
        }),
{
    let blade = within(2, o[2] as int, 128);
    lemma_ramp(y % blade, blade, 255);
    lemma_ramp(x % blade, blade, 255);
}


proof fn lemma_sliced(len: int, slice: int, pos: int)
    requires
        2 <= slice,
        0 <= pos < len,
    ensures
        reaches(
            wipe_directions::slice_palette(len, slice, pos - pos % slice),
            pos / slice,
            (len + slice - 1) / slice,
            127,
        ),
        reaches(
            wipe_directions::slice_palette(len, slice, pos)
                - wipe_directions::slice_palette(len, slice, pos - pos % slice),
            pos % slice,
            slice,
            128,
        ),
        0 <= wipe_directions::slice_palette(len, slice, pos) <= 255,
{
    let n = (len + slice - 1) / slice;
    let b = pos / slice;
    let j = pos % slice;
    let first = pos - j;
    assert(0 <= b < n && first / slice == b && first % slice == 0 && 0 <= j < slice)
        by (nonlinear_arith)
        requires
            0 <= pos < len,
            slice >= 2,
            b == pos / slice,
            j == pos % slice,
            first == pos - j,
            n == (len + slice - 1) / slice,
    ;
    lemma_ramp(b, n, 127);
    lemma_ramp(j, slice, 128);
    lemma_ramp(0, slice, 128);
    let start = wipe_linear::ramp(b, n, 127);
    assert(start + 128 - start == 128);
}

/// A sliced wipe cuts the frame into slices: the first line of each begins
/// evenly later than that of the one before, over half of the tones, and within
/// each slice it runs through the other half.
pub proof fn slices_begin_one_after_the_other(
    wipe_type: int,
    o: Seq<i32>,
    w: int,
    h: int,
    seed: u32,
    angular: spec_fn(int, int) -> int,
    x: int,
    y: int,
)
    requires
        wipe_type == 5 || wipe_type == 101,
        o.len() >= 3,
        0 <= x < w,
        0 <= y < h,
    ensures
        ({
            let slice = within(2, o[2] as int, 128);
            let d = o[1] as int % 4;
            let pos = if d <= 1 {
                y
            } else {
                x
            };
            let len = if d <= 1 {
                h
            } else {
                w
            };
            let t = wipe_mask::wipe_tone(wipe_type, o, w, h, seed, angular, x, y);
            let first = if d <= 1 {
                wipe_mask::wipe_tone(wipe_type, o, w, h, seed, angular, x, y - y % slice)
            } else {
                wipe_mask::wipe_tone(wipe_type, o, w, h, seed, angular, x - x % slice, y)
            };
            let count = (len + slice - 1) / slice;
            &&& 0 <= t <= 255
            &&& d == 0 || d == 2 ==> reaches(255 - first, pos / slice, count, 127) && reaches(
                first - t,
                pos % slice,
                slice,
                128,
            )
            &&& d == 1 || d == 3 ==> reaches(first, pos / slice, count, 127) && reaches(
                t - first,
                pos % slice,
                slice,
                128,
            )
        }),
{
    let slice = within(2, o[2] as int, 128);
    lemma_sliced(h, slice, y);
    lemma_sliced(w, slice, x);
}

/// A blind of blocks repeats with its blades along the direction and with two
/// blocks across it; it is a plain wipe in the first block, and in the second it
/// is half a blade apart.
pub proof fn neighbouring_blocks_are_half_a_blade_apart(
    o: Seq<i32>,
    w: int,
    h: int,
    seed: u32,
    angular: spec_fn(int, int) -> int,
    x: int,
    y: int,
)
    requires
        o.len() >= 4,
        0 <= x < w,
        0 <= y < h,
    ensures
        ({
            let t = wipe_mask::wipe_tone(111, o, w, h, seed, angular, x, y);
            let half = within(2, o[2] as int, 128) / 2;
            let block = within(1, o[3] as int, 128);
            let d = o[1] as int % 4;
            let along = if d <= 1 {
                y
            } else {
                x
            };
            let across = if d <= 1 {
                x
            } else {
                y
            };
            let second = across / block % 2 == 1;
            let place = if second {
                (along + half) % (2 * half)
            } else {
                along % (2 * half)
            };
            &&& d == 0 || d == 2 ==> reaches(255 - t, place, 2 * half, 255)
            &&& d == 1 || d == 3 ==> reaches(t, place, 2 * half, 255)
        }),
{
    let half = within(2, o[2] as int, 128) / 2;
    let block = within(1, o[3] as int, 128);
    lemma_ramp(x % (2 * half), 2 * half, 255);
    lemma_ramp(y % (2 * half), 2 * half, 255);
    lemma_ramp((x + half) % (2 * half), 2 * half, 255);
    lemma_ramp((y + half) % (2 * half), 2 * half, 255);
    lemma_second_block(x, block);
    lemma_second_block(y, block);
}

proof fn lemma_second_block(across: int, block: int)
    requires
        0 <= across,
        1 <= block,
    ensures
        across % (2 * block) < block <==> across / block % 2 == 0,
{
    let c = 2 * block;
    let q = across / c;
    let m = across % c;
    vstd::arithmetic::div_mod::lemma_fundamental_div_mod(across, c);
    assert(c * q == block * (2 * q)) by (nonlinear_arith)
        requires
            c == 2 * block,
    ;
    if m < block {
        vstd::arithmetic::div_mod::lemma_fundamental_div_mod_converse(across, block, 2 * q, m);
    } else {
        assert(block * (2 * q + 1) == block * (2 * q) + block) by (nonlinear_arith);
        vstd::arithmetic::div_mod::lemma_fundamental_div_mod_converse(
            across,
            block,
            2 * q + 1,
            m - block,
        );
    }
}

/// A wipe from both sides meets in the middle: each half is a plain wipe that
/// ends there. Where it is reversed, it starts in the middle.
pub proof fn wipes_from_both_sides_meet(
    o: Seq<i32>,
    w: int,
    h: int,
    seed: u32,
    angular: spec_fn(int, int) -> int,
    x: int,
    y: int,
)
    requires
        o.len() >= 3,
        0 <= x < w,
        0 <= y < h,
        2 <= w,
        2 <= h,
    ensures
        ({
            let tone = wipe_mask::wipe_tone(120, o, w, h, seed, angular, x, y);
            let t = if o[2] != 0 {
                255 - tone
            } else {
                tone
            };
            let d = o[1] as int % 2;
            &&& d == 0 && y < h / 2 ==> reaches(255 - t, y, h / 2, 255)
            &&& d == 0 && y >= h / 2 ==> reaches(t, y - h / 2, (h + 1) / 2, 255)
            &&& d == 1 && x < w / 2 ==> reaches(255 - t, x, w / 2, 255)
            &&& d == 1 && x >= w / 2 ==> reaches(t, x - w / 2, (w + 1) / 2, 255)
        }),
{
    if y < h / 2 {
        lemma_ramp(y, h / 2, 255);
    } else {
        lemma_ramp(y - h / 2, (h + 1) / 2, 255);
    }
    if x < w / 2 {
        lemma_ramp(x, w / 2, 255);
    } else {
        lemma_ramp(x - w / 2, (w + 1) / 2, 255);
    }
}

/// A sliced wipe from both sides is a sliced wipe in each half, whose slices are
/// whole at the middle.
pub proof fn slices_from_both_sides_are_whole_at_the_middle(
    o: Seq<i32>,
    w: int,
    h: int,
    seed: u32,
    angular: spec_fn(int, int) -> int,
    x: int,
    y: int,
)
    requires
        o.len() >= 4,
        0 <= x < w,
        0 <= y < h,
        o[3] == 0,
    ensures
        ({
            let t = wipe_mask::wipe_tone(121, o, w, h, seed, angular, x, y);
            let slice = within(2, o[2] as int, 128);
            let d = o[1] as int % 2;
            let upper = h / 2;
            let lower = (h + 1) / 2;
            let left = w / 2;
            let right = (w + 1) / 2;
            let whole = |n: int| (n + slice - 1) / slice * slice;
            let plain = |dir: i32, len_x: int, len_y: int, px: int, py: int|
                wipe_mask::wipe_tone(
                    101,
                    seq![0i32, dir, slice as i32],
                    len_x,
                    len_y,
                    seed,
                    angular,
                    px,
                    py,
                );
            &&& d == 0 && y < upper ==> t == plain(0, 1, whole(upper), 0, y + whole(upper) - upper)
            &&& d == 0 && y >= upper ==> t == plain(1, 1, whole(lower), 0, y - upper)
            &&& d == 1 && x < left ==> t == plain(2, whole(left), 1, x + whole(left) - left, 0)
            &&& d == 1 && x >= left ==> t == plain(3, whole(right), 1, x - left, 0)
        }),
{
    let slice = within(2, o[2] as int, 128);
    lemma_whole(h / 2, slice);
    lemma_whole((h + 1) / 2, slice);
    lemma_whole(w / 2, slice);
    lemma_whole((w + 1) / 2, slice);
}

proof fn lemma_whole(n: int, slice: int)
    requires
        0 <= n,
        2 <= slice,
    ensures
        n + wipe_both::slice_lack(n, slice) == (n + slice - 1) / slice * slice,
{
    let q = n / slice;
    let m = n % slice;
    vstd::arithmetic::div_mod::lemma_fundamental_div_mod(n, slice);
    assert(slice * q == q * slice) by (nonlinear_arith);
    if m == 0 {
        vstd::arithmetic::div_mod::lemma_fundamental_div_mod_converse(
            n + slice - 1,
            slice,
            q,
            slice - 1,
        );
        vstd::arithmetic::div_mod::lemma_mod_self_0(slice);
    } else {
        assert((q + 1) * slice == q * slice + slice) by (nonlinear_arith);
        vstd::arithmetic::div_mod::lemma_fundamental_div_mod_converse(
            n + slice - 1,
            slice,
            q + 1,
            m - 1,
        );
        vstd::arithmetic::div_mod::lemma_small_mod((slice - m) as nat, slice as nat);
    }
}

/// Blinds from both sides are plain wipes in each blade, which are whole at the
/// middle and run towards it.
pub proof fn blinds_from_both_sides_are_whole_at_the_middle(
    o: Seq<i32>,
    w: int,
    h: int,
    seed: u32,
    angular: spec_fn(int, int) -> int,
    x: int,
    y: int,
)
    requires
        o.len() >= 4,
        0 <= x < w,
        0 <= y < h,
        o[3] == 0,
    ensures
        ({
            let t = wipe_mask::wipe_tone(122, o, w, h, seed, angular, x, y);
            let blade = within(2, o[2] as int, 128);
            let d = o[1] as int % 2;
            &&& d == 0 && y < h / 2 ==> reaches(255 - t, (y - h / 2) % blade, blade, 255)
            &&& d == 0 && y >= h / 2 ==> reaches(t, (y - h / 2) % blade, blade, 255)
            &&& d == 1 && x < w / 2 ==> reaches(255 - t, (x - w / 2) % blade, blade, 255)
            &&& d == 1 && x >= w / 2 ==> reaches(t, (x - w / 2) % blade, blade, 255)
        }),
{
    let blade = within(2, o[2] as int, 128);
    lemma_ramp((y - h / 2) % blade, blade, 255);
    lemma_ramp((x - w / 2) % blade, blade, 255);
}

/// Stripes across the direction come in pairs: the first of each pair runs from
/// white to black through the frame, and the second the opposite way.
pub proof fn stripes_come_in_pairs(
    o: Seq<i32>,
    w: int,
    h: int,
    seed: u32,
    angular: spec_fn(int, int) -> int,
    x: int,
    y: int,
)
    requires
        o.len() >= 3,
        0 <= x < w,
        0 <= y < h,
    ensures
        ({
            let t = wipe_mask::wipe_tone(130, o, w, h, seed, angular, x, y);
            let stripe = within(1, o[2] as int, 128);
            let d = o[1] as int % 2;
            let pos = if d == 0 {
                y
            } else {
                x
            };
            let len = if d == 0 {
                h
            } else {
                w
            };
            let pair = pos / (2 * stripe);
            let pairs = (len + 2 * stripe - 1) / (2 * stripe);
            &&& pos / stripe % 2 == 0 ==> reaches(255 - t, pair, pairs, 255)
            &&& pos / stripe % 2 == 1 ==> reaches(t, pair, pairs, 255)
        }),
{
    let stripe = within(1, o[2] as int, 128);
    lemma_second_block(y, stripe);
    lemma_second_block(x, stripe);
    lemma_pair(y, h, 2 * stripe);
    lemma_pair(x, w, 2 * stripe);
    assert(stripe * 2 == 2 * stripe);
}

proof fn lemma_pair(pos: int, len: int, pitch: int)
    requires
        0 <= pos < len,
        1 <= pitch,
    ensures
        reaches(
            wipe_linear::ramp(pos / pitch, (len + pitch - 1) / pitch, 255),
            pos / pitch,
            (len + pitch - 1) / pitch,
            255,
        ),
{
    let b = pos / pitch;
    let n = (len + pitch - 1) / pitch;
    assert(0 <= b < n) by (nonlinear_arith)
        requires
            0 <= pos < len,
            pitch >= 1,
            b == pos / pitch,
            n == (len + pitch - 1) / pitch,
    ;
    lemma_ramp(b, n, 255);
}

/// Stripes along the direction each run through the whole frame, every other one
/// the opposite way; within blinds they do so in every blade.
pub proof fn stripes_run_against_each_other(
    o: Seq<i32>,
    w: int,
    h: int,
    seed: u32,
    angular: spec_fn(int, int) -> int,
    x: int,
    y: int,
)
    requires
        o.len() >= 4,
        0 <= x < w,
        0 <= y < h,
    ensures
        ({
            let t = wipe_mask::wipe_tone(131, o, w, h, seed, angular, x, y);
            let stripe = within(1, o[2] as int, 128);
            let d = o[1] as int % 2;
            &&& d == 0 && x / stripe % 2 == 0 ==> reaches(255 - t, y, h, 255)
            &&& d == 0 && x / stripe % 2 == 1 ==> reaches(t, y, h, 255)
            &&& d == 1 && y / stripe % 2 == 0 ==> reaches(255 - t, x, w, 255)
            &&& d == 1 && y / stripe % 2 == 1 ==> reaches(t, x, w, 255)
        }),
        ({
            let t = wipe_mask::wipe_tone(132, o, w, h, seed, angular, x, y);
            let blade = within(2, o[2] as int, 128);
            let stripe = within(1, o[3] as int, 128);
            &&& o[1] == 0 && x / stripe % 2 == 0 ==> reaches(255 - t, y % blade, blade, 255)
            &&& o[1] == 0 && x / stripe % 2 == 1 ==> reaches(t, y % blade, blade, 255)
            &&& o[1] != 0 && y / stripe % 2 == 0 ==> reaches(255 - t, x % blade, blade, 255)
            &&& o[1] != 0 && y / stripe % 2 == 1 ==> reaches(t, x % blade, blade, 255)
        }),
{
    let a = within(1, o[2] as int, 128);
    let b = within(1, o[3] as int, 128);
    let blade = within(2, o[2] as int, 128);
    lemma_second_block(x, a);
    lemma_second_block(y, a);
    lemma_second_block(x, b);
    lemma_second_block(y, b);
    lemma_ramp(y, h, 255);
    lemma_ramp(x, w, 255);
    lemma_ramp(y % blade, blade, 255);
    lemma_ramp(x % blade, blade, 255);
    assert(a * 2 == 2 * a && b * 2 == 2 * b);
}

/// A cross turns round the middle: the upper left quarter runs to the right, the
/// lower right one to the left, the upper right one down and the lower left one
/// up, each towards the middle.
pub proof fn crosses_turn_round_the_middle(
    o: Seq<i32>,
    w: int,
    h: int,
    seed: u32,
    angular: spec_fn(int, int) -> int,
    x: int,
    y: int,
)
    requires
        o.len() >= 3,
        0 <= x < w,
        0 <= y < h,
        2 <= w,
        2 <= h,
    ensures
        ({
            let tone = wipe_mask::wipe_tone(140, o, w, h, seed, angular, x, y);
            let t = if o[1] != 0 {
                255 - tone
            } else {
                tone
            };
            &&& x < w / 2 && y < h / 2 ==> reaches(255 - t, x, w / 2, 255)
            &&& x >= w / 2 && y >= h / 2 ==> reaches(t, x - w / 2, (w + 1) / 2, 255)
            &&& x >= w / 2 && y < h / 2 ==> reaches(255 - t, y, h / 2, 255)
            &&& x < w / 2 && y >= h / 2 ==> reaches(t, y - h / 2, (h + 1) / 2, 255)
        }),
        o[2] == 0 ==> ({
            let t = wipe_mask::wipe_tone(142, o, w, h, seed, angular, x, y);
            let blade = within(2, o[1] as int, 128);
            &&& x < w / 2 && y < h / 2 ==> reaches(255 - t, (x - w / 2) % blade, blade, 255)
            &&& x >= w / 2 && y >= h / 2 ==> reaches(t, (x - w / 2) % blade, blade, 255)
            &&& x >= w / 2 && y < h / 2 ==> reaches(255 - t, (y - h / 2) % blade, blade, 255)
            &&& x < w / 2 && y >= h / 2 ==> reaches(t, (y - h / 2) % blade, blade, 255)
        }),
        o[2] == 0 ==> ({
            let t = wipe_mask::wipe_tone(141, o, w, h, seed, angular, x, y);
            let halves = |dir: i32|
                wipe_mask::wipe_tone(
                    121,
                    seq![0i32, dir, o[1], 0i32],
                    w,
                    h,
                    seed,
                    angular,
                    x,
                    y,
                );
            t == if (x < w / 2) == (y < h / 2) {
                halves(1)
            } else {
                halves(0)
            }
        }),
{
    let blade = within(2, o[1] as int, 128);
    lemma_ramp((y - h / 2) % blade, blade, 255);
    lemma_ramp((x - w / 2) % blade, blade, 255);
    if y < h / 2 {
        lemma_ramp(y, h / 2, 255);
    } else {
        lemma_ramp(y - h / 2, (h + 1) / 2, 255);
    }
    if x < w / 2 {
        lemma_ramp(x, w / 2, 255);
    } else {
        lemma_ramp(x - w / 2, (w + 1) / 2, 255);
    }
}

/// Small crosses are crosses of the size that the options ask for, repeated over
/// the frame.
pub proof fn small_crosses_repeat_a_cross(
    o: Seq<i32>,
    w: int,
    h: int,
    seed: u32,
    angular: spec_fn(int, int) -> int,
    x: int,
    y: int,
)
    requires
        o.len() >= 5,
        0 <= x < w,
        0 <= y < h,
    ensures
        ({
            let pw = 2 * within(4, o[1] as int, 128);
            let ph = 2 * within(4, o[2] as int, 128);
            let small = |k: int| wipe_mask::wipe_tone(k, o, w, h, seed, angular, x, y);
            let large = |k: int, given: Seq<i32>|
                wipe_mask::wipe_tone(k, given, pw, ph, seed, angular, x % pw, y % ph);
            &&& small(150) == large(140, seq![0i32, o[3]])
            &&& small(151) == large(141, seq![0i32, o[3], o[4]])
            &&& small(152) == large(142, seq![0i32, o[3], o[4]])
        }),
{
}

/// A rhombus closes in from the corners: its tone goes by the steps along the
/// edges from the nearest corner, evenly to the middle of the frame.
pub proof fn rhombuses_close_in_from_the_corners(
    o: Seq<i32>,
    w: int,
    h: int,
    seed: u32,
    angular: spec_fn(int, int) -> int,
    x: int,
    y: int,
)
    requires
        o.len() >= 2,
        0 <= x < w,
        0 <= y < h,
    ensures
        ({
            let tone = wipe_mask::wipe_tone(81, o, w, h, seed, angular, x, y);
            let t = if o[1] != 0 {
                255 - tone
            } else {
                tone
            };
            let mirrored = wipe_mask::wipe_tone(81, o, w, h, seed, angular, w - 1 - x, y);
            let turned = wipe_mask::wipe_tone(81, o, w, h, seed, angular, x, h - 1 - y);
            &&& x < w / 2 && y < h / 2 ==> reaches(255 - t, x + y, w / 2 + h / 2 - 1, 255)
            &&& w % 2 == 0 ==> mirrored == tone
            &&& h % 2 == 0 ==> turned == tone
            &&& x >= w / 2 && y >= h / 2 ==> reaches(
                255 - t,
                (w - 1 - x) + (h - 1 - y),
                (w + 1) / 2 + (h + 1) / 2 - 1,
                255,
            )
            &&& x >= w / 2 && y < h / 2 ==> reaches(
                255 - t,
                (w - 1 - x) + y,
                (w + 1) / 2 + h / 2 - 1,
                255,
            )
            &&& x < w / 2 && y >= h / 2 ==> reaches(
                255 - t,
                x + (h - 1 - y),
                w / 2 + (h + 1) / 2 - 1,
                255,
            )
        }),
{
    let half_w = if x < w / 2 {
        w / 2
    } else {
        (w + 1) / 2
    };
    let half_h = if y < h / 2 {
        h / 2
    } else {
        (h + 1) / 2
    };
    let from_x = if x < w / 2 {
        x
    } else {
        w - 1 - x
    };
    let from_y = if y < h / 2 {
        y
    } else {
        h - 1 - y
    };
    lemma_ramp(from_x + from_y, half_w + half_h - 1, 255);
}

proof fn lemma_top(n: int, covers: spec_fn(int) -> bool, k: int)
    requires
        -1 <= k < n,
        k >= 0 ==> covers(k),
        forall|j: int| k < j < n ==> !#[trigger] covers(j),
    ensures
        wipe_rings::top_layer(n, covers) == k,
    decreases n,
{
    if n > 0 && k < n - 1 {
        assert(!covers(n - 1));
        lemma_top(n - 1, covers, k);
    } else if n > 0 {
    }
}

/// In an even square the squares are nested from the edge to the middle: the
/// tone of a pixel goes evenly by its distance from the nearest edge.
pub proof fn squares_are_nested(
    o: Seq<i32>,
    w: int,
    seed: u32,
    angular: spec_fn(int, int) -> int,
    x: int,
    y: int,
    m: int,
)
    requires
        o.len() >= 2,
        1 <= m,
        w == 2 * m,
        0 <= x < w,
        0 <= y < w,
    ensures
        ({
            let tone = wipe_mask::wipe_tone(80, o, w, w, seed, angular, x, y);
            let t = if o[1] != 0 {
                255 - tone
            } else {
                tone
            };
            let dx = if x < m {
                x
            } else {
                w - 1 - x
            };
            let dy = if y < m {
                y
            } else {
                w - 1 - y
            };
            reaches(
                255 - t,
                if dx < dy {
                    dx
                } else {
                    dy
                },
                m,
                255,
            )
        }),
{
    let dx = if x < m {
        x
    } else {
        w - 1 - x
    };
    let dy = if y < m {
        y
    } else {
        w - 1 - y
    };
    let k = if dx < dy {
        dx
    } else {
        dy
    };
    let covers = |i: int| wipe_rings::square_covers(w, w, i, x, y);
    assert(wipe_rings::square_count(w, w) == m);
    assert forall|i: int| 0 <= i < m implies #[trigger] covers(i) == gray_mask::on_outline(
        i,
        i,
        w - 1 - i,
        w - 1 - i,
        x,
        y,
    ) by {
        lemma_identity(i, m);
    }
    assert(covers(k));
    assert forall|j: int| k < j < m implies !#[trigger] covers(j) by {
        assert(!gray_mask::on_outline(j, j, w - 1 - j, w - 1 - j, x, y));
    }
    lemma_top(m, covers, k);
    lemma_ramp(k, m, 255);
    assert(wipe_rings::square_top(w, w, m, x, y) == k);
}

proof fn lemma_identity(i: int, m: int)
    requires
        0 <= i < m,
    ensures
        wipe_linear::linear(i, 0, 0, m - 1, (2 * m) / 2 - 1) == i,
        wipe_linear::linear(i, 0, 2 * m - 1, m - 1, (2 * m) / 2) == 2 * m - 1 - i,
{
    assert((2 * m) / 2 == m);
    if m > 1 {
        let n = m - 1;
        assert((m - 1) * i == i * n) by (nonlinear_arith)
            requires
                n == m - 1,
        ;
        vstd::arithmetic::div_mod::lemma_div_multiples_vanish(i, n);
        assert(n * i == i * n) by (nonlinear_arith);
        assert((m - (2 * m - 1)) * i == -(i * n)) by (nonlinear_arith)
            requires
                n == m - 1,
        ;
        assert(i * n >= 0) by (nonlinear_arith)
            requires
                i >= 0,
                n >= 0,
        ;
        assert(i > 0 ==> i * n > 0) by (nonlinear_arith)
            requires
                n >= 1,
        ;
    }
}

/// A cross opens from the middle lines: the tone of a pixel goes evenly by its
/// distance from the nearer of both, and the farthest edge is not reached before
/// the end. In the lower half a pixel right beside the diagonal goes by its
/// distance from the upright line.
pub proof fn crosses_open_from_the_middle_lines(
    o: Seq<i32>,
    w: int,
    h: int,
    seed: u32,
    angular: spec_fn(int, int) -> int,
    x: int,
    y: int,
)
    requires
        o.len() >= 2,
        0 <= x < w,
        0 <= y < h,
        2 <= w,
        2 <= h,
    ensures
        ({
            let tone = wipe_mask::wipe_tone(82, o, w, h, seed, angular, x, y);
            let t = if o[1] != 0 {
                255 - tone
            } else {
                tone
            };
            let dx = if x < w / 2 {
                w / 2 - 1 - x
            } else {
                x - w / 2
            };
            let dy = if y < h / 2 {
                h / 2 - 1 - y
            } else {
                y - h / 2
            };
            let n = if w >= h {
                (w + 1) / 2 + 1
            } else {
                (h + 1) / 2 + 1
            };
            let near = if y < h / 2 {
                dx <= dy
            } else {
                dx <= dy + 1
            };
            reaches(
                t,
                if near {
                    dx
                } else {
                    dy
                },
                n,
                255,
            )
        }),
{
    let cx = w / 2 - 1;
    let cy = h / 2 - 1;
    let n = wipe_rings::jyuuji_reach(w, h);
    assert(n == if w >= h {
        (w + 1) / 2 + 1
    } else {
        (h + 1) / 2 + 1
    });
    let dx = if x < w / 2 {
        w / 2 - 1 - x
    } else {
        x - w / 2
    };
    let dy = if y < h / 2 {
        h / 2 - 1 - y
    } else {
        y - h / 2
    };
    let near = if y < h / 2 {
        dx <= dy
    } else {
        dx <= dy + 1
    };
    let k = if near {
        dx
    } else {
        dy
    };
    let c0 = |i: int| gray_mask::on_outline(cx - n, cy - n, cx + i * -1, cy + i * -1, x, y);
    let c1 = |i: int| gray_mask::on_outline(cx + 1 + n, cy - n, cx + 1 + i * 1, cy + i * -1, x, y);
    let c2 = |i: int| gray_mask::on_outline(cx - n, cy + 1 + n, cx + i * -1, cy + 1 + i * 1, x, y);
    let c3 = |i: int|
        gray_mask::on_outline(cx + 1 + n, cy + 1 + n, cx + 1 + i * 1, cy + 1 + i * 1, x, y);
    assert(cx - n < -1 && cy - n < -1 && cx + n >= w && cy + n >= h);
    let (left, upper) = (x < w / 2, y < h / 2);
    let t0 = if left && upper {
        k
    } else {
        -1
    };
    let t1 = if !left && upper {
        k
    } else {
        -1
    };
    let t2 = if left && !upper {
        k
    } else if x == cx && y == cy {
        0
    } else {
        -1
    };
    let t3 = if !left && !upper {
        k
    } else if x == cx + 1 && y == cy {
        0
    } else {
        -1
    };
    assert forall|i: int| t0 < i < n implies !#[trigger] c0(i) by {
        assert(cx + i * -1 == cx - i && cy + i * -1 == cy - i);
    }
    assert forall|i: int| t1 < i < n implies !#[trigger] c1(i) by {
        assert(cx + 1 + i * 1 == cx + 1 + i && cy + i * -1 == cy - i);
    }
    assert forall|i: int| t2 < i < n implies !#[trigger] c2(i) by {
        assert(cx + i * -1 == cx - i && cy + 1 + i * 1 == cy + 1 + i);
    }
    assert forall|i: int| t3 < i < n implies !#[trigger] c3(i) by {
        assert(cx + 1 + i * 1 == cx + 1 + i && cy + 1 + i * 1 == cy + 1 + i);
    }
    lemma_top(n, c0, t0);
    lemma_top(n, c1, t1);
    lemma_top(n, c2, t2);
    lemma_top(n, c3, t3);
    lemma_ramp(k, n, 255);
    assert(wipe_rings::jyuuji_top(cx - n, cy - n, cx, cy, -1, -1, n, x, y)
        == wipe_rings::top_layer(n, c0));
    assert(wipe_rings::jyuuji_top(cx + 1 + n, cy - n, cx + 1, cy, 1, -1, n, x, y)
        == wipe_rings::top_layer(n, c1));
    assert(wipe_rings::jyuuji_top(cx - n, cy + 1 + n, cx, cy + 1, -1, 1, n, x, y)
        == wipe_rings::top_layer(n, c2));
    assert(wipe_rings::jyuuji_top(cx + 1 + n, cy + 1 + n, cx + 1, cy + 1, 1, 1, n, x, y)
        == wipe_rings::top_layer(n, c3));
}

/// Small rings are the large ones in rectangles of the size that the options ask
/// for, repeated over the frame; with a gap, every other row of rectangles is
/// moved by half of one.
pub proof fn small_rings_repeat_a_ring(
    k: int,
    o: Seq<i32>,
    w: int,
    h: int,
    seed: u32,
    angular: spec_fn(int, int) -> int,
    x: int,
    y: int,
)
    requires
        0 <= k <= 3,
        o.len() >= 5,
        0 <= x < w,
        0 <= y < h,
    ensures
        ({
            let small = wipe_mask::wipe_tone(90 + k, o, w, h, seed, angular, x, y);
            let ring = |pw: int, ph: int, px: int, py: int|
                wipe_mask::wipe_tone(80 + k, seq![0i32, o[4]], pw, ph, seed, angular, px, py);
            let sw = within(4, o[1] as int, 128);
            let sh = within(4, o[2] as int, 128);
            if o[3] == 0 {
                small == ring(sw, sh, x % sw, y % sh)
            } else {
                let pw = sw / 2 * 2;
                let ph = sh / 2 * 2;
                let row = y / ph % 2;
                small == ring(pw, ph, (x + row * (pw / 2)) % pw, y % ph)
            }
        }),
{
    let sw = within(4, o[1] as int, 128);
    let sh = within(4, o[2] as int, 128);
    let pw = sw / 2 * 2;
    let ph = sh / 2 * 2;
    assert(sw - sw % 2 == pw && sh - sh % 2 == ph);
    lemma_staggered(x, y, pw, ph);
}

proof fn lemma_staggered(x: int, y: int, pw: int, ph: int)
    requires
        0 <= x,
        0 <= y,
        4 <= pw,
        4 <= ph,
        pw % 2 == 0,
    ensures
        y % (ph * 2) < ph ==> y / ph % 2 == 0 && y % (ph * 2) == y % ph,
        y % (ph * 2) >= ph ==> y / ph % 2 == 1 && y % (ph * 2) - ph == y % ph,
        x % pw >= pw / 2 ==> (x + pw / 2) % pw == x % pw - pw / 2,
        x % pw < pw / 2 ==> (x + pw / 2) % pw == x % pw + pw / 2,
        (x + 0) % pw == x % pw,
{
    lemma_second_block(y, ph);
    assert(ph * 2 == 2 * ph);
    let c = 2 * ph;
    let q = y / c;
    let m = y % c;
    vstd::arithmetic::div_mod::lemma_fundamental_div_mod(y, c);
    assert(c * q == ph * (2 * q) && c * q == (2 * q) * ph) by (nonlinear_arith)
        requires
            c == 2 * ph,
    ;
    if m < ph {
        vstd::arithmetic::div_mod::lemma_fundamental_div_mod_converse(y, ph, 2 * q, m);
    } else {
        assert((2 * q + 1) * ph == (2 * q) * ph + ph) by (nonlinear_arith);
        vstd::arithmetic::div_mod::lemma_fundamental_div_mod_converse(y, ph, 2 * q + 1, m - ph);
    }
    let half = pw / 2;
    let a = x / pw;
    let b = x % pw;
    vstd::arithmetic::div_mod::lemma_fundamental_div_mod(x, pw);
    if b >= half {
        assert((a + 1) * pw == pw * a + pw) by (nonlinear_arith);
        vstd::arithmetic::div_mod::lemma_fundamental_div_mod_converse(
            x + half,
            pw,
            a + 1,
            b - half,
        );
    } else {
        assert(a * pw == pw * a) by (nonlinear_arith);
        vstd::arithmetic::div_mod::lemma_fundamental_div_mod_converse(x + half, pw, a, b + half);
    }
}

/// A wipe by angles shows the mask that was drawn for it; a small one repeats it
/// in rectangles, as the small rings do.
pub proof fn angular_wipes_show_what_was_drawn(
    wipe_type: int,
    o: Seq<i32>,
    w: int,
    h: int,
    seed: u32,
    angular: spec_fn(int, int) -> int,
    x: int,
    y: int,
)
    requires
        60 <= wipe_type <= 79,
        o.len() >= 4,
        0 <= x < w,
        0 <= y < h,
    ensures
        ({
            let t = wipe_mask::wipe_tone(wipe_type, o, w, h, seed, angular, x, y);
            let sw = within(4, o[1] as int, 128);
            let sh = within(4, o[2] as int, 128);
            if wipe_type < 70 {
                t == angular(x, y)
            } else if o[3] == 0 {
                t == angular(x % sw, y % sh)
            } else {
                let pw = sw / 2 * 2;
                let ph = sh / 2 * 2;
                t == angular((x + y / ph % 2 * (pw / 2)) % pw, y % ph)
            }
        }),
{
    let sw = within(4, o[1] as int, 128);
    let sh = within(4, o[2] as int, 128);
    let pw = sw / 2 * 2;
    let ph = sh / 2 * 2;
    assert(sw - sw % 2 == pw && sh - sh % 2 == ph);
    lemma_staggered(x, y, pw, ph);
}

/// In a shuffled wipe the frame is cut into blocks of the size that the options
/// ask for. The tones of all blocks together are spread evenly from black to
/// white, each block has one of them, and no two blocks share a place in the
/// order.
pub proof fn shuffled_blocks_have_even_tones(
    o: Seq<i32>,
    w: int,
    h: int,
    seed: u32,
    angular: spec_fn(int, int) -> int,
    order: Seq<u8>,
    even: Seq<u8>,
    x: int,
    y: int,
)
    requires
        o.len() >= 3,
        0 <= x < w,
        0 <= y < h,
        order == wipe_random::random_values(
            ((w + within(1, o[1] as int, 128) - 1) / within(1, o[1] as int, 128)) * ((h + within(
                1,
                o[2] as int,
                128,
            ) - 1) / within(1, o[2] as int, 128)),
            seed,
        ),
        even.len() == order.len(),
        forall|i: int|
            0 <= i < even.len() ==> reaches(#[trigger] even[i] as int, i, even.len() as int, 255),
    ensures
        ({
            let pw = within(1, o[1] as int, 128);
            let ph = within(1, o[2] as int, 128);
            let cols = (w + pw - 1) / pw;
            let rows = (h + ph - 1) / ph;
            &&& order.len() == cols * rows
            &&& order.to_multiset() == even.to_multiset()
            &&& wipe_mask::wipe_tone(40, o, w, h, seed, angular, x, y) == order[(y / ph) * cols + x
                / pw]
        }),
{
    let pw = within(1, o[1] as int, 128);
    let ph = within(1, o[2] as int, 128);
    let cols = (w + pw - 1) / pw;
    let rows = (h + ph - 1) / ph;
    assert(1 <= cols) by (nonlinear_arith)
        requires
            w >= 1,
            pw >= 1,
            cols == (w + pw - 1) / pw,
    ;
    assert(1 <= rows) by (nonlinear_arith)
        requires
            h >= 1,
            ph >= 1,
            rows == (h + ph - 1) / ph,
    ;
    assert(1 <= cols * rows) by (nonlinear_arith)
        requires
            1 <= cols,
            1 <= rows,
    ;
    let n = cols * rows;
    wipe_random::random_values_are_the_palette(n, seed);
    let spread = wipe_random::palette(n);
    assert forall|i: int| 0 <= i < n implies spread[i] == even[i] by {
        lemma_ramp(i, n, 255);
        steps_are_exact(wipe_linear::ramp(i, n, 255), even[i] as int, i, n, 255);
    }
    assert(spread =~= even);
}

/// Shuffled lines are shuffled blocks of one row or one column, shuffled
/// diagonals are shuffled columns of a frame as wide as there are diagonals, and
/// crossed ones show the later of both.
pub proof fn shuffled_lines_are_shuffled_blocks(
    o: Seq<i32>,
    w: int,
    h: int,
    seed: u32,
    angular: spec_fn(int, int) -> int,
    x: int,
    y: int,
)
    requires
        o.len() >= 3,
        0 <= x < w,
        0 <= y < h,
    ensures
        ({
            let tone = |k: int, given: Seq<i32>, s: u32|
                wipe_mask::wipe_tone(k, given, w, h, s, angular, x, y);
            let blocks = |size_x: i32, size_y: i32, fw: int, fh: int, px: int, py: int|
                wipe_mask::wipe_tone(
                    40,
                    seq![0i32, size_x, size_y],
                    fw,
                    fh,
                    seed,
                    angular,
                    px,
                    py,
                );
            let larger = |a: int, b: int|
                if a >= b {
                    a
                } else {
                    b
                };
            let second = seed ^ 0x9e37_79b9u32;
            &&& o[1] == 0 ==> tone(41, o, seed) == blocks(o[2], 1, w, 1, x, 0)
            &&& o[1] != 0 ==> tone(41, o, seed) == blocks(1, o[2], 1, h, 0, y)
            &&& o[1] == 0 ==> tone(42, o, seed) == blocks(o[2], 1, w + h - 1, 1, x + y, 0)
            &&& o[1] != 0 ==> tone(42, o, seed) == blocks(
                o[2],
                1,
                w + h - 1,
                1,
                x + h - 1 - y,
                0,
            )
            &&& tone(43, o, seed) == larger(
                tone(41, seq![0i32, 1i32, o[2]], seed),
                tone(41, seq![0i32, 0i32, o[1]], second),
            )
            &&& tone(44, o, seed) == larger(
                tone(42, seq![0i32, 0i32, o[1]], seed),
                tone(42, seq![0i32, 1i32, o[1]], second),
            )
        }),
{
}

/// A wipe of cells has one tone in every cell, and repeats with the pattern:
/// moving by whole patterns changes nothing, nor does moving within a cell.
pub proof fn cells_have_one_tone_and_repeat(
    wipe_type: int,
    o: Seq<i32>,
    w: int,
    h: int,
    seed: u32,
    angular: spec_fn(int, int) -> int,
    x: int,
    y: int,
    u: int,
    v: int,
)
    requires
        10 <= wipe_type <= 11 || 20 <= wipe_type <= 22 || 30 <= wipe_type <= 32,
        o.len() >= 5,
        0 <= x,
        0 <= y,
        0 <= u,
        0 <= v,
        ({
            let cells = if wipe_type >= 30 {
                8int
            } else {
                4
            };
            let limit = if wipe_type >= 30 {
                64int
            } else {
                128
            };
            let cw = within(1, o[1] as int, limit);
            let ch = within(1, o[2] as int, limit);
            x / cw % cells == u / cw % cells && y / ch % cells == v / ch % cells
        }),
    ensures
        wipe_mask::wipe_tone(wipe_type, o, w, h, seed, angular, x, y) == wipe_mask::wipe_tone(
            wipe_type,
            o,
            w,
            h,
            seed,
            angular,
            u,
            v,
        ),
{
    let cells = if wipe_type >= 30 {
        8int
    } else {
        4
    };
    let limit = if wipe_type >= 30 {
        64int
    } else {
        128
    };
    let cw = within(1, o[1] as int, limit);
    let ch = within(1, o[2] as int, limit);
    lemma_cell_of(x, cw, cells);
    lemma_cell_of(u, cw, cells);
    lemma_cell_of(y, ch, cells);
    lemma_cell_of(v, ch, cells);
}

proof fn lemma_cell_of(pos: int, size: int, cells: int)
    requires
        0 <= pos,
        1 <= size,
        1 <= cells,
    ensures
        (pos % (size * cells)) / size == pos / size % cells,
{
    vstd::arithmetic::div_mod::lemma_mod_breakdown(pos, size, cells);
    let q = pos / size % cells;
    let m = pos % size;
    assert(size * q + m == q * size + m) by (nonlinear_arith);
    vstd::arithmetic::div_mod::lemma_fundamental_div_mod_converse(
        pos % (size * cells),
        size,
        q,
        m,
    );
}

/// Sides of cells and lines that are not given count as 1, those of rectangles
/// as 64, and flags as 0.
#[verifier::rlimit(40)]
pub proof fn missing_sides_are_usual(
    w: int,
    h: int,
    seed: u32,
    angular: spec_fn(int, int) -> int,
    x: int,
    y: int,
    dir: i32,
)
    ensures
        ({
            let tone = |k: int, o: Seq<i32>| wipe_mask::wipe_tone(k, o, w, h, seed, angular, x, y);
            &&& tone(10, seq![10i32]) == tone(10, seq![10i32, 1i32, 1i32])
            &&& tone(20, seq![20i32]) == tone(20, seq![20i32, 1i32, 1i32, 0i32, 0i32])
            &&& tone(40, seq![40i32]) == tone(40, seq![40i32, 1i32, 1i32])
            &&& tone(41, seq![41i32, dir]) == tone(41, seq![41i32, dir, 1i32])
            &&& tone(42, seq![42i32, dir]) == tone(42, seq![42i32, dir, 1i32])
            &&& tone(44, seq![44i32]) == tone(44, seq![44i32, 1i32])
            &&& tone(80, seq![80i32]) == tone(80, seq![80i32, 0i32])
            &&& tone(90, seq![90i32]) == tone(90, seq![90i32, 64i32, 64i32, 0i32, 0i32])
        }),
{
}

/// A direction that is not given counts as 0, and the length of a slice, a blade
/// or a block as 16.
#[verifier::rlimit(40)]
pub proof fn missing_lengths_of_runs_are_usual(
    w: int,
    h: int,
    seed: u32,
    angular: spec_fn(int, int) -> int,
    x: int,
    y: int,
    dir: i32,
)
    ensures
        ({
            let tone = |k: int, o: Seq<i32>| wipe_mask::wipe_tone(k, o, w, h, seed, angular, x, y);
            &&& tone(5, seq![5i32, dir]) == tone(5, seq![5i32, dir, 16i32])
            &&& tone(5, seq![5i32]) == tone(5, seq![5i32, 0i32, 16i32])
            &&& tone(100, seq![100i32]) == tone(100, seq![100i32, 0i32])
            &&& tone(101, seq![101i32, dir]) == tone(101, seq![101i32, dir, 16i32])
            &&& tone(102, seq![102i32, dir]) == tone(102, seq![102i32, dir, 16i32])
            &&& tone(110, seq![110i32]) == tone(110, seq![110i32, 0i32])
            &&& tone(111, seq![111i32, dir]) == tone(111, seq![111i32, dir, 16i32, 16i32])
        }),
{
}

/// The same holds of the wipes from both sides: lengths count as 16 and flags
/// as 0.
#[verifier::rlimit(40)]
pub proof fn missing_lengths_from_both_sides_are_usual(
    w: int,
    h: int,
    seed: u32,
    angular: spec_fn(int, int) -> int,
    x: int,
    y: int,
    dir: i32,
)
    ensures
        ({
            let tone = |k: int, o: Seq<i32>| wipe_mask::wipe_tone(k, o, w, h, seed, angular, x, y);
            &&& tone(120, seq![120i32, dir]) == tone(120, seq![120i32, dir, 0i32])
            &&& tone(121, seq![121i32, dir]) == tone(121, seq![121i32, dir, 16i32, 0i32])
            &&& tone(122, seq![122i32, dir]) == tone(122, seq![122i32, dir, 16i32, 0i32])
            &&& tone(130, seq![130i32, dir]) == tone(130, seq![130i32, dir, 16i32])
            &&& tone(131, seq![131i32, dir]) == tone(131, seq![131i32, dir, 16i32])
            &&& tone(132, seq![132i32, dir]) == tone(132, seq![132i32, dir, 16i32, 16i32])
        }),
{
}

/// And of crosses, large and small.
#[verifier::rlimit(40)]
pub proof fn missing_options_of_crosses_are_usual(
    w: int,
    h: int,
    seed: u32,
    angular: spec_fn(int, int) -> int,
    x: int,
    y: int,
    dir: i32,
)
    ensures
        ({
            let tone = |k: int, o: Seq<i32>| wipe_mask::wipe_tone(k, o, w, h, seed, angular, x, y);
            &&& tone(140, seq![140i32]) == tone(140, seq![140i32, 0i32])
            &&& tone(141, seq![141i32]) == tone(141, seq![141i32, 16i32, 0i32])
            &&& tone(142, seq![142i32]) == tone(142, seq![142i32, 16i32, 0i32])
            &&& tone(150, seq![150i32]) == tone(150, seq![150i32, 64i32, 64i32, 0i32])
            &&& tone(151, seq![151i32]) == tone(151, seq![151i32, 64i32, 64i32, 16i32, 0i32])
            &&& tone(152, seq![152i32]) == tone(152, seq![152i32, 64i32, 64i32, 16i32, 0i32])
        }),
{
}

proof fn lemma_same_top(n: int, a: spec_fn(int) -> bool, b: spec_fn(int) -> bool)
    requires
        forall|i: int| #[trigger] a(i) == b(i),
    ensures
        wipe_rings::top_layer(n, a) == wipe_rings::top_layer(n, b),
    decreases n,
{
    if n > 0 {
        assert(a(n - 1) == b(n - 1));
        lemma_same_top(n - 1, a, b);
    }
}

proof fn lemma_top_row(h: int, n: int, y: int, row: spec_fn(int) -> bool)
    requires
        forall|i: int| #[trigger] row(i) == (y == i || y == h - 1 - i),
    ensures
        wipe_rings::television_top_row(h, n, y) == wipe_rings::top_layer(n, row),
    decreases n,
{
    if n > 0 {
        assert(row(n - 1) == (y == n - 1 || y == h - 1 - (n - 1)));
        lemma_top_row(h, n - 1, y, row);
    }
}

/// A picture tube lights up alike on the left and on the right, above and below.
pub proof fn picture_tubes_are_even(
    o: Seq<i32>,
    w: int,
    h: int,
    seed: u32,
    angular: spec_fn(int, int) -> int,
    x: int,
    y: int,
)
    ensures
        ({
            let tone = wipe_mask::wipe_tone(83, o, w, h, seed, angular, x, y);
            &&& wipe_mask::wipe_tone(83, o, w, h, seed, angular, w - 1 - x, y) == tone
            &&& wipe_mask::wipe_tone(83, o, w, h, seed, angular, x, h - 1 - y) == tone
        }),
{
    let boxes = wipe_rings::television_boxes(w);
    let rows = wipe_rings::television_rows(h);
    let own = |i: int| wipe_rings::television_box_covers(w, h, i, x, y);
    let mirrored = |i: int| wipe_rings::television_box_covers(w, h, i, w - 1 - x, y);
    let turned = |i: int| wipe_rings::television_box_covers(w, h, i, x, h - 1 - y);
    assert forall|i: int| #[trigger] own(i) == mirrored(i) by {
    }
    assert forall|i: int| #[trigger] own(i) == turned(i) by {
    }
    lemma_same_top(boxes, own, mirrored);
    lemma_same_top(boxes, own, turned);
    let row = |i: int| y == i || y == h - 1 - i;
    let turned_row = |i: int| h - 1 - y == i || h - 1 - y == h - 1 - i;
    assert forall|i: int| #[trigger] row(i) == turned_row(i) by {
    }
    lemma_same_top(rows, row, turned_row);
    assert(wipe_rings::television_top_box(w, h, boxes, x, y) == wipe_rings::top_layer(boxes, own));
    assert(wipe_rings::television_top_box(w, h, boxes, w - 1 - x, y) == wipe_rings::top_layer(
        boxes,
        mirrored,
    ));
    assert(wipe_rings::television_top_box(w, h, boxes, x, h - 1 - y) == wipe_rings::top_layer(
        boxes,
        turned,
    ));
    lemma_top_row(h, rows, y, row);
    lemma_top_row(h, rows, h - 1 - y, turned_row);
}

/// A picture tube goes out from its edges: at the left edge the outermost rows, a sixteenth of
/// the height above and below, go first, one by one, and all rows between them follow at once.
/// Along the middle line the columns go evenly from the edge to the middle.
pub proof fn picture_tubes_go_out_from_their_edges(
    o: Seq<i32>,
    w: int,
    h: int,
    seed: u32,
    angular: spec_fn(int, int) -> int,
    x: int,
    y: int,
)
    requires
        o.len() >= 2,
        3 <= w,
        3 <= h,
        0 <= x < w / 2 - 1 || x == 0,
        0 <= y <= h / 2,
    ensures
        ({
            let tone = wipe_mask::wipe_tone(83, o, w, h, seed, angular, x, y);
            let t = if o[1] != 0 {
                255 - tone
            } else {
                tone
            };
            let rows = if h < 32 {
                1
            } else {
                h / 16
            };
            let columns = if w / 2 % 2 == 0 {
                w / 2
            } else {
                w / 2 + 1
            };
            &&& x == 0 && y < rows ==> reaches(255 - t, y, rows, 15)
            &&& x == 0 && rows <= y <= h - 1 - rows ==> 255 - t == 16
            &&& y == (h - 1) / 2 || y == h / 2 ==> reaches(255 - t - 16, x, columns, 239)
        }),
{
    let boxes = wipe_rings::television_boxes(w);
    let rows = wipe_rings::television_rows(h);
    let covers = |i: int| wipe_rings::television_box_covers(w, h, i, x, y);
    let row = |i: int| y == i || y == h - 1 - i;
    assert(wipe_rings::television_top_box(w, h, boxes, x, y) == wipe_rings::top_layer(
        boxes,
        covers,
    ));
    lemma_top_row(h, rows, y, row);
    assert(boxes == if w / 2 % 2 == 0 {
        w / 2
    } else {
        w / 2 + 1
    });
    assert(rows == if h < 32 {
        1
    } else {
        h / 16
    });
    assert(wipe_rings::television_inset(w, h, 0) == 0) by {
        let m = wipe_linear::truncated(h - rows * 2, 2);
        assert((m - 0) * (0int * 3 - 0) == 0) by (nonlinear_arith);
        assert(0int / (boxes - 1) == 0) by (nonlinear_arith)
            requires
                boxes > 1,
        ;
    }
    lemma_ramp(x, boxes, 239);
    lemma_ramp(0, boxes, 239);
    assert(wipe_linear::linear(x, 0, 16, boxes - 1, 255) == 16 + wipe_linear::ramp(x, boxes, 239));
    if x == 0 {
        assert forall|j: int| 0 < j < boxes implies !#[trigger] covers(j) by {
        }
        if y < rows {
            assert(!covers(0));
            lemma_top(boxes, covers, -1);
            assert forall|j: int| y < j < rows implies !#[trigger] row(j) by {
            }
            assert(row(y));
            lemma_top(rows, row, y);
            lemma_ramp(y, rows, 15);
        } else if y <= h - 1 - rows {
            assert(covers(0));
            lemma_top(boxes, covers, 0);
        }
    }
    if y == (h - 1) / 2 || y == h / 2 {
        assert(covers(x));
        assert forall|j: int| x < j < boxes implies !#[trigger] covers(j) by {
        }
        lemma_top(boxes, covers, x);
    }
}

/// A wipe that is asked for in reverse shows each pixel at the other end of its time.
pub proof fn reversed_wipes_run_backwards(
    o: Seq<i32>,
    w: int,
    h: int,
    seed: u32,
    angular: spec_fn(int, int) -> int,
    x: int,
    y: int,
    backwards: i32,
)
    requires
        o.len() >= 5,
        backwards != 0,
    ensures
        ({
            let there = |wipe: int, at: int|
                wipe_mask::wipe_tone(wipe, o.update(at, 0), w, h, seed, angular, x, y);
            let back = |wipe: int, at: int|
                wipe_mask::wipe_tone(wipe, o.update(at, backwards), w, h, seed, angular, x, y);
            &&& there(20, 4) + back(20, 4) == 255
            &&& there(21, 4) + back(21, 4) == 255
            &&& there(22, 4) + back(22, 4) == 255
            &&& there(30, 4) + back(30, 4) == 255
            &&& there(31, 4) + back(31, 4) == 255
            &&& there(32, 4) + back(32, 4) == 255
            &&& there(81, 1) + back(81, 1) == 255
            &&& there(120, 2) + back(120, 2) == 255
            &&& there(121, 3) + back(121, 3) == 255
            &&& there(122, 3) + back(122, 3) == 255
            &&& there(140, 1) + back(140, 1) == 255
            &&& there(141, 2) + back(141, 2) == 255
            &&& there(142, 2) + back(142, 2) == 255
        }),
{
}

} // verus!
