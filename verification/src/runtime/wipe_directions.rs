//! Wipe masks that run along a direction: plain, sliced, blinds and slants.

use vstd::prelude::*;
use crate::runtime::gray_mask;
use crate::runtime::gray_mask::GrayMask;
use crate::runtime::wipe_linear;
use crate::runtime::wipe_linear::{clamp_i32, ramp_i32, turn};

verus! {

/// Tone of a plain directional wipe: a ramp from white along the direction's
/// axis, reversed for the two opposite directions.
pub open spec fn direction_tone(
    width: int,
    height: int,
    reverse: bool,
    dir: int,
    x: int,
    y: int,
) -> int {
    let d = dir % 4;
    gray_mask::tone(
        255 - (if d <= 1 {
            wipe_linear::ramp(y, height, 255)
        } else {
            wipe_linear::ramp(x, width, 255)
        }),
        reverse != (d == 1 || d == 3),
    )
}

/// Palette of position `pos` on an axis of `len` pixels cut into slices: each
/// slice runs over half of the palette, and each begins a little later.
pub open spec fn slice_palette(len: int, slice: int, pos: int) -> int {
    let start = wipe_linear::ramp(pos / slice, (len + slice - 1) / slice, 127);
    wipe_linear::linear(pos % slice, 0, start, slice - 1, start + 128)
}

/// Tone of a sliced directional wipe.
pub open spec fn direction_slice_tone(
    width: int,
    height: int,
    reverse: bool,
    dir: int,
    slice_len: int,
    x: int,
    y: int,
) -> int {
    let d = dir % 4;
    let slice = wipe_linear::clamped(slice_len, 2, 128);
    gray_mask::tone(
        255 - (if d <= 1 {
            slice_palette(height, slice, y)
        } else {
            slice_palette(width, slice, x)
        }),
        reverse != (d == 1 || d == 3),
    )
}

/// Tone of a venetian blind: the directional wipe of one blade, repeated.
pub open spec fn direction_blind_tone(
    width: int,
    height: int,
    reverse: bool,
    dir: int,
    blind_len: int,
    x: int,
    y: int,
) -> int {
    let blind = wipe_linear::clamped(blind_len, 2, 128);
    if dir % 4 <= 1 {
        direction_tone(width, blind, reverse, dir, x, y % blind)
    } else {
        direction_tone(blind, height, reverse, dir, x % blind, y)
    }
}

/// Tone of a wipe along one of the four diagonals.
pub open spec fn direction_slant_tone(
    width: int,
    height: int,
    reverse: bool,
    dir: int,
    x: int,
    y: int,
) -> int {
    let d = dir % 4;
    let i = if d == 0 || d == 3 { x + y } else { width - 1 - x + y };
    gray_mask::tone(
        255 - wipe_linear::ramp(i, width + height - 1, 255),
        reverse != (d == 2 || d == 3),
    )
}

/// Tone of a blind whose neighbouring blocks are half a blade apart.
pub open spec fn direction_block_blind_tone(
    reverse: bool,
    dir: int,
    blind_len: int,
    block_len: int,
    x: int,
    y: int,
) -> int {
    let d = dir % 4;
    let half = wipe_linear::clamped(blind_len, 2, 128) / 2;
    let block = wipe_linear::clamped(block_len, 1, 128);
    let along = if d <= 1 { y } else { x };
    let across = if d <= 1 { x } else { y };
    let step = if across % (2 * block) < block {
        along % (2 * half)
    } else {
        (along + half) % (2 * half)
    };
    gray_mask::tone(
        255 - wipe_linear::ramp(step, 2 * half, 255),
        reverse != (d == 1 || d == 3),
    )
}

/// Half of the cycle of `2 * half` steps further than `step`.
spec fn half_turned(step: int, half: int) -> int {
    if step < half {
        step + half
    } else {
        step - half
    }
}

proof fn lemma_half_turned(along: int, half: int)
    requires
        0 <= along,
        1 <= half,
    ensures
        half_turned(along % (2 * half), half) == (along + half) % (2 * half),
{
    let c = 2 * half;
    let u = along % c;
    vstd::arithmetic::div_mod::lemma_add_mod_noop(along, half, c);
    vstd::arithmetic::div_mod::lemma_small_mod(half as nat, c as nat);
    if u < half {
        vstd::arithmetic::div_mod::lemma_small_mod((u + half) as nat, c as nat);
    } else {
        vstd::arithmetic::div_mod::lemma_small_mod((u - half) as nat, c as nat);
        vstd::arithmetic::div_mod::lemma_mod_add_multiples_vanish(u - half, c);
    }
}

pub fn make_direction(width: u32, height: u32, reverse: bool, dir: i32) -> (out: GrayMask)
    requires
        wipe_linear::frame_fits(width as int, height as int),
    ensures
        out.sized(width as int, height as int),
        out.shows(
            |x: int, y: int|
                direction_tone(width as int, height as int, reverse, dir as int, x, y),
        ),
{
    proof {
        wipe_linear::lemma_frame_edges(width as int, height as int);
    }
    let d: i32 = turn(dir, 4);
    let reverse: bool = if d == 1 || d == 3 { !reverse } else { reverse };
    let mut strip = GrayMask::new(
        if d <= 1 { 1 } else { width },
        if d <= 1 { height } else { 1 },
    );
    let count: i32 = if d <= 1 { height as i32 } else { width as i32 };
    let mut i: i32 = 0;
    while i < count
        invariant
            0 <= i <= count,
            strip.sized(
                if d <= 1 { 1int } else { width as int },
                if d <= 1 { height as int } else { 1int },
            ),
            count == (if d <= 1 { height as int } else { width as int }),
            forall|a: int, b: int|
                #![trigger strip.at(a, b)]
                strip.contains(a, b) && (if d <= 1 { b } else { a }) < i ==> strip.at(a, b)
                    == gray_mask::tone(
                    255 - wipe_linear::ramp(if d <= 1 { b } else { a }, count as int, 255),
                    reverse,
                ),
        decreases count - i,
    {
        let gray: u8 = (255 - ramp_i32(i, count, 255)) as u8;
        if d <= 1 {
            strip.set(0, i, gray, reverse);
        } else {
            strip.set(i, 0, gray, reverse);
        }
        i = i + 1;
    }
    strip.tiled_to(width, height)
}

pub fn make_direction_slice(
    width: u32,
    height: u32,
    reverse: bool,
    dir: i32,
    slice_len: i32,
) -> (out: GrayMask)
    requires
        wipe_linear::frame_fits(width as int, height as int),
    ensures
        out.sized(width as int, height as int),
        out.shows(
            |x: int, y: int|
                direction_slice_tone(
                    width as int,
                    height as int,
                    reverse,
                    dir as int,
                    slice_len as int,
                    x,
                    y,
                ),
        ),
{
    proof {
        wipe_linear::lemma_frame_edges(width as int, height as int);
    }
    let d: i32 = turn(dir, 4);
    let slice: i32 = clamp_i32(slice_len, 2, 128);
    let len: i32 = if d <= 1 { height as i32 } else { width as i32 };
    let count: i32 = (len + slice - 1) / slice;
    let reverse: bool = if d == 1 || d == 3 { !reverse } else { reverse };
    let mut strip = GrayMask::new(
        if d <= 1 { 1 } else { width },
        if d <= 1 { height } else { 1 },
    );
    let mut pos: i32 = 0;
    while pos < len
        invariant
            0 <= pos <= len,
            2 <= slice <= 128,
            count == (len + slice - 1) / (slice as int),
            strip.sized(
                if d <= 1 { 1int } else { width as int },
                if d <= 1 { height as int } else { 1int },
            ),
            len == (if d <= 1 { height as int } else { width as int }),
            forall|a: int, b: int|
                #![trigger strip.at(a, b)]
                strip.contains(a, b) && (if d <= 1 { b } else { a }) < pos ==> strip.at(a, b)
                    == gray_mask::tone(
                    255 - slice_palette(len as int, slice as int, if d <= 1 { b } else { a }),
                    reverse,
                ),
        decreases len - pos,
    {
        let band: i32 = pos / slice;
        let j: i32 = pos % slice;
        proof {
            assert(0 <= band < count) by (nonlinear_arith)
                requires
                    0 <= pos < len,
                    slice >= 2,
                    band == pos as int / (slice as int),
                    count == (len + slice - 1) / (slice as int),
            ;
        }
        let start: i32 = ramp_i32(band, count, 127);
        proof {
            wipe_linear::lemma_linear_between(
                j as int,
                0,
                start as int,
                slice - 1,
                start + 128,
            );
        }
        let pal: i32 = wipe_linear::linear_i32(j, 0, start, slice - 1, start + 128);
        let gray: u8 = (255 - pal) as u8;
        if d <= 1 {
            strip.set(0, pos, gray, reverse);
        } else {
            strip.set(pos, 0, gray, reverse);
        }
        pos = pos + 1;
    }
    strip.tiled_to(width, height)
}

pub fn make_direction_blind(
    width: u32,
    height: u32,
    reverse: bool,
    dir: i32,
    blind_len: i32,
) -> (out: GrayMask)
    requires
        wipe_linear::strips_fit(width as int, height as int),
    ensures
        out.sized(width as int, height as int),
        out.shows(
            |x: int, y: int|
                direction_blind_tone(
                    width as int,
                    height as int,
                    reverse,
                    dir as int,
                    blind_len as int,
                    x,
                    y,
                ),
        ),
{
    let blind: u32 = clamp_i32(blind_len, 2, 128) as u32;
    proof {
        wipe_linear::lemma_frame_strip(width as int, height as int, blind as int);
    }
    if turn(dir, 4) <= 1 {
        make_direction(width, blind, reverse, dir).tiled_to(width, height)
    } else {
        make_direction(blind, height, reverse, dir).tiled_to(width, height)
    }
}

pub fn make_direction_slant(width: u32, height: u32, reverse: bool, dir: i32) -> (out: GrayMask)
    requires
        wipe_linear::frame_fits(width as int, height as int),
    ensures
        out.sized(width as int, height as int),
        out.shows(
            |x: int, y: int|
                direction_slant_tone(width as int, height as int, reverse, dir as int, x, y),
        ),
{
    let d: i32 = turn(dir, 4);
    let flip: bool = if d == 2 || d == 3 { !reverse } else { reverse };
    let w: i32 = width as i32;
    let h: i32 = height as i32;
    proof {
        wipe_linear::lemma_frame_edges(width as int, height as int);
    }
    let count: i32 = w + h - 1;
    let mut out = GrayMask::new(width, height);
    let mut y: i32 = 0;
    while y < h
        invariant
            wipe_linear::frame_fits(width as int, height as int),
            out.sized(width as int, height as int),
            d == dir as int % 4,
            flip == (reverse != (d == 2 || d == 3)),
            w == width,
            h == height,
            count == w + h - 1,
            0 <= y <= h,
            forall|a: int, b: int|
                #![trigger out.at(a, b)]
                out.contains(a, b) && b < y ==> out.at(a, b) == direction_slant_tone(
                    width as int,
                    height as int,
                    reverse,
                    dir as int,
                    a,
                    b,
                ),
        decreases h - y,
    {
        let mut x: i32 = 0;
        while x < w
            invariant
                wipe_linear::frame_fits(width as int, height as int),
                out.sized(width as int, height as int),
                d == dir as int % 4,
                flip == (reverse != (d == 2 || d == 3)),
                w == width,
                h == height,
                count == w + h - 1,
                0 <= y < h,
                0 <= x <= w,
                forall|a: int, b: int|
                    #![trigger out.at(a, b)]
                    out.contains(a, b) && (b < y || (b == y && a < x)) ==> out.at(a, b)
                        == direction_slant_tone(
                        width as int,
                        height as int,
                        reverse,
                        dir as int,
                        a,
                        b,
                    ),
            decreases w - x,
        {
            let i: i32 = if d == 0 || d == 3 { x + y } else { w - 1 - x + y };
            let pal: i32 = ramp_i32(i, count, 255);
            out.set(x, y, (255 - pal) as u8, flip);
            x = x + 1;
        }
        y = y + 1;
    }
    out
}

pub fn make_direction_block_blind(
    width: u32,
    height: u32,
    reverse: bool,
    dir: i32,
    blind_len: i32,
    block_len: i32,
) -> (out: GrayMask)
    requires
        wipe_linear::frame_fits(width as int, height as int),
    ensures
        out.sized(width as int, height as int),
        out.shows(
            |x: int, y: int|
                direction_block_blind_tone(
                    reverse,
                    dir as int,
                    blind_len as int,
                    block_len as int,
                    x,
                    y,
                ),
        ),
{
    let d: i32 = turn(dir, 4);
    let half: i32 = clamp_i32(blind_len, 2, 128) / 2;
    let block: i32 = clamp_i32(block_len, 1, 128);
    let flip: bool = if d == 1 || d == 3 { !reverse } else { reverse };
    let pattern_w: i32 = if d <= 1 { block * 2 } else { half * 2 };
    let pattern_h: i32 = if d <= 1 { half * 2 } else { block * 2 };
    proof {
        assert(pattern_w * pattern_h <= 256 * 256) by (nonlinear_arith)
            requires
                1 <= pattern_w <= 256,
                1 <= pattern_h <= 256,
        ;
    }
    let mut pattern = GrayMask::new(pattern_w as u32, pattern_h as u32);
    let count: i32 = half * 2;
    let mut shifted: i32 = half;
    let mut i: i32 = 0;
    while i < count
        invariant
            1 <= half <= 64,
            1 <= block <= 128,
            count == 2 * half,
            0 <= i <= count,
            i < count ==> shifted == half_turned(i as int, half as int),
            pattern.sized(
                if d <= 1 { 2 * block } else { count as int },
                if d <= 1 { count as int } else { 2 * block },
            ),
            forall|a: int, b: int|
                #![trigger pattern.at(a, b)]
                pattern.contains(a, b) ==> {
                    let along = if d <= 1 { b } else { a };
                    let across = if d <= 1 { a } else { b };
                    let step = if across < block { along } else { half_turned(along, half as int) };
                    step < i ==> pattern.at(a, b) == gray_mask::tone(
                        255 - wipe_linear::ramp(step, count as int, 255),
                        flip,
                    )
                },
        decreases count - i,
    {
        let gray: u8 = (255 - ramp_i32(i, count, 255)) as u8;
        if d <= 1 {
            pattern.fill_box(0, i, block - 1, i, gray, flip);
            pattern.fill_box(block, shifted, block * 2 - 1, shifted, gray, flip);
        } else {
            pattern.fill_box(i, 0, i, block - 1, gray, flip);
            pattern.fill_box(shifted, block, shifted, block * 2 - 1, gray, flip);
        }
        shifted = if shifted + 1 == count { 0 } else { shifted + 1 };
        i = i + 1;
    }
    proof {
        let p = pattern;
        assert forall|x: int, y: int|
            #![trigger p.at(x % (pattern_w as int), y % (pattern_h as int))]
            0 <= x && 0 <= y implies p.at(x % (pattern_w as int), y % (pattern_h as int))
            == direction_block_blind_tone(
            reverse,
            dir as int,
            blind_len as int,
            block_len as int,
            x,
            y,
        ) by {
            assert(p.contains(x % (pattern_w as int), y % (pattern_h as int)));
            lemma_half_turned(if d <= 1 { y } else { x }, half as int);
        }
    }
    pattern.tiled_to(width, height)
}

/// A wipe that is reversed has the complement of every tone.
pub proof fn reversed_wipes_are_complements(
    width: int,
    height: int,
    reverse: bool,
    dir: int,
    len: int,
    block_len: int,
    x: int,
    y: int,
)
    ensures
        direction_tone(width, height, !reverse, dir, x, y) == 255 - direction_tone(
            width,
            height,
            reverse,
            dir,
            x,
            y,
        ),
        direction_slice_tone(width, height, !reverse, dir, len, x, y) == 255
            - direction_slice_tone(width, height, reverse, dir, len, x, y),
        direction_blind_tone(width, height, !reverse, dir, len, x, y) == 255
            - direction_blind_tone(width, height, reverse, dir, len, x, y),
        direction_slant_tone(width, height, !reverse, dir, x, y) == 255 - direction_slant_tone(
            width,
            height,
            reverse,
            dir,
            x,
            y,
        ),
        direction_block_blind_tone(!reverse, dir, len, block_len, x, y) == 255
            - direction_block_blind_tone(reverse, dir, len, block_len, x, y),
{
}

} // verus!
