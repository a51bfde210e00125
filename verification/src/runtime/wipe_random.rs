//! Wipe masks whose blocks or lines turn over in a shuffled order. The order
//! depends on the seed alone, so a mask is the same every time it is built.

use vstd::prelude::*;
use crate::runtime::gray_mask;
use crate::runtime::gray_mask::GrayMask;
use crate::runtime::wipe_linear;
use crate::runtime::wipe_linear::{clamp_i32, ramp_i32};

verus! {

/// The second seed of masks that combine two shuffles is this far from the
/// first, bit by bit.
pub const SECOND_SEED: u32 = 0x9e37_79b9;

/// The next state of the linear congruential generator.
pub open spec fn next_state(state: u32) -> u32 {
    state.wrapping_mul(1103515245).wrapping_add(12345)
}

/// `values` shuffled from position `i` down to 1: each position swaps with one
/// at or below it.
pub open spec fn shuffled(values: Seq<u8>, state: u32, i: int) -> Seq<u8>
    decreases i,
{
    if i < 1 {
        values
    } else {
        let next = next_state(state);
        let j = (next >> 16) as int % (i + 1);
        shuffled(values.update(i, values[j]).update(j, values[i]), next, i - 1)
    }
}

/// `count` tones spread evenly from black to white.
pub open spec fn palette(count: int) -> Seq<u8> {
    Seq::new(count as nat, |i: int| wipe_linear::ramp(i, count, 255) as u8)
}

/// The shuffled tones of `count` blocks.
pub open spec fn random_values(count: int, seed: u32) -> Seq<u8> {
    shuffled(palette(count), seed | 1, count - 1)
}

/// How many blocks of `block` pixels cover `len` pixels.
pub open spec fn blocks(len: int, block: int) -> int {
    (len + block - 1) / block
}

/// Tone of a frame cut into blocks that turn over in shuffled order.
pub open spec fn random_blocks_tone(
    width: int,
    height: int,
    pat_w: int,
    pat_h: int,
    seed: u32,
    x: int,
    y: int,
) -> int {
    let pw = wipe_linear::clamped(pat_w, 1, 128);
    let ph = wipe_linear::clamped(pat_h, 1, 128);
    let cols = blocks(width, pw);
    let rows = blocks(height, ph);
    random_values(cols * rows, seed)[(y / ph) * cols + x / pw] as int
}

/// Tone of columns (`dir` 0) or rows that turn over in shuffled order.
pub open spec fn random_line_tone(
    width: int,
    height: int,
    dir: int,
    line_len: int,
    seed: u32,
    x: int,
    y: int,
) -> int {
    if dir == 0 {
        random_blocks_tone(width, 1, line_len, 1, seed, x, 0)
    } else {
        random_blocks_tone(1, height, 1, line_len, seed, 0, y)
    }
}

/// Tone of diagonal lines that turn over in shuffled order.
pub open spec fn random_slant_line_tone(
    width: int,
    height: int,
    dir: int,
    line_len: int,
    seed: u32,
    x: int,
    y: int,
) -> int {
    let offset = if dir == 0 { y } else { height - 1 - y };
    random_blocks_tone(width + height - 1, 1, line_len, 1, seed, x + offset, 0)
}

/// Tone of shuffled rows crossed with shuffled columns: the later of the two.
pub open spec fn random_cross_tone(
    width: int,
    height: int,
    pat_w: int,
    pat_h: int,
    seed: u32,
    x: int,
    y: int,
) -> int {
    gray_mask::larger(
        random_blocks_tone(1, height, 1, pat_h, seed, 0, y),
        random_blocks_tone(width, 1, pat_w, 1, seed ^ SECOND_SEED, x, 0),
    )
}

/// Tone of two crossed sets of shuffled diagonals: the later of the two.
pub open spec fn random_slant_cross_tone(
    width: int,
    height: int,
    line_len: int,
    seed: u32,
    x: int,
    y: int,
) -> int {
    gray_mask::larger(
        random_slant_line_tone(width, height, 0, line_len, seed, x, y),
        random_slant_line_tone(width, height, 1, line_len, seed ^ SECOND_SEED, x, y),
    )
}

/// Shuffling keeps the number of tones.
pub proof fn lemma_shuffled_len(values: Seq<u8>, state: u32, i: int)
    requires
        i < values.len(),
    ensures
        shuffled(values, state, i).len() == values.len(),
    decreases i,
{
    if i >= 1 {
        let next = next_state(state);
        let j = (next >> 16) as int % (i + 1);
        lemma_shuffled_len(values.update(i, values[j]).update(j, values[i]), next, i - 1);
    }
}

/// Shuffling loses no tone and adds none: every tone occurs as often after it
/// as before.
pub proof fn shuffle_is_a_permutation(values: Seq<u8>, state: u32, i: int)
    requires
        i < values.len(),
    ensures
        shuffled(values, state, i).to_multiset() =~= values.to_multiset(),
    decreases i,
{
    if i >= 1 {
        let next = next_state(state);
        let j = (next >> 16) as int % (i + 1);
        let once = values.update(i, values[j]);
        let twice = once.update(j, values[i]);
        shuffle_is_a_permutation(twice, next, i - 1);
        vstd::seq_lib::to_multiset_update(values, i, values[j]);
        vstd::seq_lib::to_multiset_update(once, j, values[i]);
        if i != j {
            assert(once[j] == values[j]);
        }
        broadcast use vstd::seq_lib::group_to_multiset_ensures;
        assert(values.contains(values[i]));
        assert(values.contains(values[j]));
    }
}

/// In a shuffled frame every block has a tone of the palette, and the tones of
/// all blocks together are exactly the palette.
pub proof fn random_values_are_the_palette(count: int, seed: u32)
    requires
        1 <= count,
    ensures
        random_values(count, seed).len() == count,
        random_values(count, seed).to_multiset() =~= palette(count).to_multiset(),
{
    lemma_shuffled_len(palette(count), seed | 1, count - 1);
    shuffle_is_a_permutation(palette(count), seed | 1, count - 1);
}

/// Where every block is one pixel, the tones of all pixels together are exactly
/// the palette, whatever the seed is.
pub proof fn single_pixels_are_the_palette(mask: GrayMask, seed: u32)
    requires
        mask.wf(),
        mask.shows(
            |x: int, y: int|
                random_blocks_tone(mask.width as int, mask.height as int, 1, 1, seed, x, y),
        ),
    ensures
        mask.pixels@ == random_values(mask.width * mask.height, seed),
        mask.pixels@.to_multiset() =~= palette(mask.width * mask.height).to_multiset(),
{
    let (w, h) = (mask.width as int, mask.height as int);
    let values = random_values(w * h, seed);
    assert(1 <= w * h) by (nonlinear_arith)
        requires
            1 <= w,
            1 <= h,
    ;
    random_values_are_the_palette(w * h, seed);
    assert forall|p: int| 0 <= p < mask.pixels@.len() implies mask.pixels@[p] == values[p] by {
        let (x, y) = (p % w, p / w);
        assert(p == y * w + x && 0 <= x < w && 0 <= y < h) by (nonlinear_arith)
            requires
                0 <= p < w * h,
                1 <= w,
                x == p % w,
                y == p / w,
        ;
        mask.lemma_cell(x, y);
        assert(mask.contains(x, y));
        assert(mask.at(x, y) == random_blocks_tone(w, h, 1, 1, seed, x, y));
    }
    assert(mask.pixels@ =~= values);
}

fn shuffled_values(count: usize, seed: u32) -> (values: Vec<u8>)
    requires
        1 <= count <= i32::MAX,
    ensures
        values@ == random_values(count as int, seed),
        values@.len() == count,
{
    let mut values: Vec<u8> = Vec::new();
    let mut n: usize = 0;
    while n < count
        invariant
            1 <= count <= i32::MAX,
            n <= count,
            values@ == palette(count as int).subrange(0, n as int),
        decreases count - n,
    {
        let gray: u8 = ramp_i32(n as i32, count as i32, 255) as u8;
        values.push(gray);
        n = n + 1;
        proof {
            assert(values@ =~= palette(count as int).subrange(0, n as int));
        }
    }
    proof {
        assert(values@ =~= palette(count as int));
    }
    let mut state: u32 = seed | 1;
    let mut i: usize = count - 1;
    proof {
        lemma_shuffled_len(values@, state, i as int);
    }
    while i >= 1
        invariant
            values@.len() == count,
            i < count <= i32::MAX,
            shuffled(values@, state, i as int) == random_values(count as int, seed),
        decreases i,
    {
        state = state.wrapping_mul(1103515245).wrapping_add(12345);
        let j: usize = ((state >> 16) as usize) % (i + 1);
        let a: u8 = values[i];
        let b: u8 = values[j];
        values.set(i, b);
        values.set(j, a);
        i = i - 1;
    }
    values
}

proof fn lemma_blocks(len: int, block: int)
    requires
        1 <= len,
        1 <= block,
    ensures
        1 <= blocks(len, block) <= len,
        forall|v: int| 0 <= v < len ==> 0 <= #[trigger] (v / block) < blocks(len, block),
{
    assert(1 <= (len + block - 1) / block <= len) by (nonlinear_arith)
        requires
            1 <= len,
            1 <= block,
    ;
    assert forall|v: int| 0 <= v < len implies 0 <= #[trigger] (v / block) < blocks(len, block) by {
        assert(0 <= v / block < (len + block - 1) / block) by (nonlinear_arith)
            requires
                0 <= v < len,
                1 <= block,
        ;
    }
}

pub fn make_random_blocks(width: u32, height: u32, pat_w: i32, pat_h: i32, seed: u32) -> (out:
    GrayMask)
    requires
        gray_mask::size_fits(width as int, height as int),
        width <= i32::MAX - 256,
        height <= i32::MAX - 256,
    ensures
        out.sized(width as int, height as int),
        out.shows(
            |x: int, y: int|
                random_blocks_tone(
                    width as int,
                    height as int,
                    pat_w as int,
                    pat_h as int,
                    seed,
                    x,
                    y,
                ),
        ),
{
    let pw: u32 = clamp_i32(pat_w, 1, 128) as u32;
    let ph: u32 = clamp_i32(pat_h, 1, 128) as u32;
    let cols: u32 = (width + pw - 1) / pw;
    let rows: u32 = (height + ph - 1) / ph;
    proof {
        lemma_blocks(width as int, pw as int);
        lemma_blocks(height as int, ph as int);
        assert(1 <= cols * rows <= width * height) by (nonlinear_arith)
            requires
                1 <= cols <= width,
                1 <= rows <= height,
        ;
    }
    let values = shuffled_values((cols * rows) as usize, seed);
    let mut out = GrayMask::new(width, height);
    let mut y: u32 = 0;
    while y < height
        invariant
            y <= height <= i32::MAX - 256,
            width <= i32::MAX - 256,
            1 <= width,
            out.sized(width as int, height as int),
            pw == wipe_linear::clamped(pat_w as int, 1, 128),
            ph == wipe_linear::clamped(pat_h as int, 1, 128),
            cols == blocks(width as int, pw as int),
            rows == blocks(height as int, ph as int),
            1 <= cols,
            1 <= rows,
            cols * rows <= i32::MAX,
            values@.len() == cols * rows,
            values@ == random_values(cols * rows, seed),
            forall|a: int, b: int|
                #![trigger out.at(a, b)]
                out.contains(a, b) && b < y ==> out.at(a, b) == random_blocks_tone(
                    width as int,
                    height as int,
                    pat_w as int,
                    pat_h as int,
                    seed,
                    a,
                    b,
                ),
        decreases height - y,
    {
        let row: u32 = y / ph;
        let mut x: u32 = 0;
        while x < width
            invariant
                y < height <= i32::MAX - 256,
                x <= width <= i32::MAX - 256,
                out.sized(width as int, height as int),
                pw == wipe_linear::clamped(pat_w as int, 1, 128),
                ph == wipe_linear::clamped(pat_h as int, 1, 128),
                cols == blocks(width as int, pw as int),
                rows == blocks(height as int, ph as int),
                row == y as int / (ph as int),
                1 <= cols,
                1 <= rows,
                cols * rows <= i32::MAX,
                values@.len() == cols * rows,
                values@ == random_values(cols * rows, seed),
                forall|a: int, b: int|
                    #![trigger out.at(a, b)]
                    out.contains(a, b) && (b < y || (b == y && a < x)) ==> out.at(a, b)
                        == random_blocks_tone(
                        width as int,
                        height as int,
                        pat_w as int,
                        pat_h as int,
                        seed,
                        a,
                        b,
                    ),
            decreases width - x,
        {
            let col: u32 = x / pw;
            proof {
                lemma_blocks(width as int, pw as int);
                lemma_blocks(height as int, ph as int);
                assert(0 <= row * cols + col < cols * rows && row * cols <= cols * rows)
                    by (nonlinear_arith)
                    requires
                        0 <= row < rows,
                        0 <= col < cols,
                ;
            }
            let gray: u8 = values[(row * cols + col) as usize];
            out.set(x as i32, y as i32, gray, false);
            x = x + 1;
        }
        y = y + 1;
    }
    out
}

pub fn make_random_line(width: u32, height: u32, dir: i32, line_len: i32, seed: u32) -> (out:
    GrayMask)
    requires
        wipe_linear::frame_fits(width as int, height as int),
    ensures
        out.sized(width as int, height as int),
        out.shows(
            |x: int, y: int|
                random_line_tone(
                    width as int,
                    height as int,
                    dir as int,
                    line_len as int,
                    seed,
                    x,
                    y,
                ),
        ),
{
    if dir == 0 {
        make_random_blocks(width, 1, line_len, 1, seed).tiled_to(width, height)
    } else {
        make_random_blocks(1, height, 1, line_len, seed).tiled_to(width, height)
    }
}

pub fn make_random_slant_line(
    width: u32,
    height: u32,
    dir: i32,
    line_len: i32,
    seed: u32,
) -> (out: GrayMask)
    requires
        wipe_linear::frame_fits(width as int, height as int),
    ensures
        out.sized(width as int, height as int),
        out.shows(
            |x: int, y: int|
                random_slant_line_tone(
                    width as int,
                    height as int,
                    dir as int,
                    line_len as int,
                    seed,
                    x,
                    y,
                ),
        ),
{
    let w: i32 = width as i32;
    let h: i32 = height as i32;
    proof {
        wipe_linear::lemma_frame_edges(width as int, height as int);
    }
    let line = make_random_blocks(width + height - 1, 1, line_len, 1, seed);
    let mut out = GrayMask::new(width, height);
    let mut y: i32 = 0;
    while y < h
        invariant
            wipe_linear::frame_fits(width as int, height as int),
            w == width,
            h == height,
            0 <= y <= h,
            out.sized(w as int, h as int),
            line.sized(w + h - 1, 1),
            line.shows(
                |a: int, b: int|
                    random_blocks_tone(w + h - 1, 1, line_len as int, 1, seed, a, b),
            ),
            forall|a: int, b: int|
                #![trigger out.at(a, b)]
                out.contains(a, b) && b < y ==> out.at(a, b) == random_slant_line_tone(
                    w as int,
                    h as int,
                    dir as int,
                    line_len as int,
                    seed,
                    a,
                    b,
                ),
        decreases h - y,
    {
        let offset: i32 = if dir == 0 { y } else { h - 1 - y };
        let mut x: i32 = 0;
        while x < w
            invariant
                wipe_linear::frame_fits(width as int, height as int),
                w == width,
                h == height,
                0 <= y < h,
                0 <= x <= w,
                offset == (if dir == 0 { y as int } else { h - 1 - y }),
                out.sized(w as int, h as int),
                line.sized(w + h - 1, 1),
                line.shows(
                    |a: int, b: int|
                        random_blocks_tone(w + h - 1, 1, line_len as int, 1, seed, a, b),
                ),
                forall|a: int, b: int|
                    #![trigger out.at(a, b)]
                    out.contains(a, b) && (b < y || (b == y && a < x)) ==> out.at(a, b)
                        == random_slant_line_tone(
                        w as int,
                        h as int,
                        dir as int,
                        line_len as int,
                        seed,
                        a,
                        b,
                    ),
            decreases w - x,
        {
            if let Some(gray) = line.get(x + offset, 0) {
                out.set(x, y, gray, false);
            }
            x = x + 1;
        }
        y = y + 1;
    }
    out
}

/// The lighter of two masks of one size, pixel by pixel.
fn lighter(a: &GrayMask, b: &GrayMask) -> (out: GrayMask)
    requires
        a.wf(),
        b.wf(),
        a.width == b.width,
        a.height == b.height,
    ensures
        out.sized(a.width as int, a.height as int),
        out.shows(|x: int, y: int| gray_mask::larger(a.at(x, y) as int, b.at(x, y) as int)),
{
    let mut out = GrayMask::new(a.width, a.height);
    let mut i: usize = 0;
    while i < a.pixels.len()
        invariant
            a.wf(),
            b.wf(),
            a.width == b.width,
            a.height == b.height,
            out.sized(a.width as int, a.height as int),
            i <= a.pixels@.len(),
            forall|k: int|
                0 <= k < i ==> #[trigger] out.pixels@[k] == gray_mask::larger(
                    a.pixels@[k] as int,
                    b.pixels@[k] as int,
                ),
        decreases a.pixels@.len() - i,
    {
        let p: u8 = a.pixels[i];
        let q: u8 = b.pixels[i];
        out.pixels.set(i, if p >= q { p } else { q });
        i = i + 1;
    }
    proof {
        assert forall|x: int, y: int| out.contains(x, y) implies out.at(x, y) == gray_mask::larger(
            a.at(x, y) as int,
            b.at(x, y) as int,
        ) by {
            a.lemma_cell(x, y);
            b.lemma_cell(x, y);
            out.lemma_cell(x, y);
        }
    }
    out
}

pub fn make_random_cross(width: u32, height: u32, pat_w: i32, pat_h: i32, seed: u32) -> (out:
    GrayMask)
    requires
        wipe_linear::frame_fits(width as int, height as int),
    ensures
        out.sized(width as int, height as int),
        out.shows(
            |x: int, y: int|
                random_cross_tone(
                    width as int,
                    height as int,
                    pat_w as int,
                    pat_h as int,
                    seed,
                    x,
                    y,
                ),
        ),
{
    let vertical = make_random_blocks(1, height, 1, pat_h, seed).tiled_to(width, height);
    let horizontal = make_random_blocks(width, 1, pat_w, 1, seed ^ SECOND_SEED).tiled_to(
        width,
        height,
    );
    lighter(&vertical, &horizontal)
}

pub fn make_random_slant_cross(width: u32, height: u32, line_len: i32, seed: u32) -> (out: GrayMask)
    requires
        wipe_linear::frame_fits(width as int, height as int),
    ensures
        out.sized(width as int, height as int),
        out.shows(
            |x: int, y: int|
                random_slant_cross_tone(
                    width as int,
                    height as int,
                    line_len as int,
                    seed,
                    x,
                    y,
                ),
        ),
{
    let a = make_random_slant_line(width, height, 0, line_len, seed);
    let b = make_random_slant_line(width, height, 1, line_len, seed ^ SECOND_SEED);
    lighter(&a, &b)
}

} // verus!
