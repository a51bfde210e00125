//! Wipe masks made of a small pattern of cells that repeats over the frame.

use vstd::prelude::*;
use crate::runtime::gray_mask;
use crate::runtime::gray_mask::GrayMask;
use crate::runtime::wipe_linear;
use crate::runtime::wipe_linear::clamp_i32;

verus! {

/// The largest cell that a pattern of `cells` by `cells` cells may have.
pub open spec fn cell_limit(cells: int) -> int {
    if cells == 8 {
        64
    } else {
        128
    }
}

/// Tone of a pixel of one pattern, whose cells are `cell_w` by `cell_h` pixels.
pub open spec fn cell_tone(
    cells: int,
    cell_w: int,
    cell_h: int,
    reverse: bool,
    order: Seq<u8>,
    x: int,
    y: int,
) -> int {
    gray_mask::tone(order[(y / cell_h) * cells + x / cell_w] as int, reverse)
}

/// Tone of a frame covered with the pattern.
pub open spec fn pattern_tone(
    cells: int,
    pat_w: int,
    pat_h: int,
    reverse: bool,
    order: Seq<u8>,
    x: int,
    y: int,
) -> int {
    let cell_w = wipe_linear::clamped(pat_w, 1, cell_limit(cells));
    let cell_h = wipe_linear::clamped(pat_h, 1, cell_limit(cells));
    cell_tone(
        cells,
        cell_w,
        cell_h,
        reverse,
        order,
        x % (cell_w * cells),
        y % (cell_h * cells),
    )
}

/// The pattern that `mode` selects from a table of eight.
pub open spec fn selected(all: Seq<u8>, cells: int, mode: int) -> Seq<u8> {
    let m = wipe_linear::clamped(mode, 0, 7);
    all.subrange(m * (cells * cells), (m + 1) * (cells * cells))
}

pub fn pattern_selection<'a>(all: &'a [u8], cells: usize, mode: i32) -> (r: &'a [u8])
    requires
        cells == 4 || cells == 8,
        all@.len() == 8 * (cells * cells),
    ensures
        r@ == selected(all@, cells as int, mode as int),
        r@.len() == cells * cells,
{
    let m: usize = clamp_i32(mode, 0, 7) as usize;
    let size: usize = if cells == 4 { 16 } else { 64 };
    vstd::slice::slice_subrange(all, m * size, (m + 1) * size)
}

pub fn make_pattern(cells: u32, pat_w: i32, pat_h: i32, reverse: bool, order: &[u8]) -> (out:
    GrayMask)
    requires
        cells == 4 || cells == 8,
        order@.len() == cells * cells,
        pat_w <= 128,
        pat_h <= 128,
    ensures
        out.sized(
            gray_mask::larger(pat_w as int, 1) * cells,
            gray_mask::larger(pat_h as int, 1) * cells,
        ),
        out.shows(
            |x: int, y: int|
                cell_tone(
                    cells as int,
                    gray_mask::larger(pat_w as int, 1),
                    gray_mask::larger(pat_h as int, 1),
                    reverse,
                    order@,
                    x,
                    y,
                ),
        ),
{
    let cell_w: u32 = if pat_w < 1 { 1 } else { pat_w as u32 };
    let cell_h: u32 = if pat_h < 1 { 1 } else { pat_h as u32 };
    let width: u32 = cell_w * cells;
    let height: u32 = cell_h * cells;
    proof {
        assert(1 <= width * height <= 1024 * 1024) by (nonlinear_arith)
            requires
                1 <= width <= 1024,
                1 <= height <= 1024,
        ;
    }
    let mut out = GrayMask::new(width, height);
    let mut y: u32 = 0;
    while y < height
        invariant
            cells == 4 || cells == 8,
            order@.len() == cells * cells,
            1 <= cell_w <= 128,
            1 <= cell_h <= 128,
            width == cell_w * cells,
            height == cell_h * cells,
            y <= height <= 1024,
            width <= 1024,
            out.sized(width as int, height as int),
            forall|a: int, b: int|
                #![trigger out.at(a, b)]
                out.contains(a, b) && b < y ==> out.at(a, b) == cell_tone(
                    cells as int,
                    cell_w as int,
                    cell_h as int,
                    reverse,
                    order@,
                    a,
                    b,
                ),
        decreases height - y,
    {
        let mut x: u32 = 0;
        while x < width
            invariant
                cells == 4 || cells == 8,
                order@.len() == cells * cells,
                1 <= cell_w <= 128,
                1 <= cell_h <= 128,
                width == cell_w * cells,
                height == cell_h * cells,
                y < height <= 1024,
                x <= width <= 1024,
                out.sized(width as int, height as int),
                forall|a: int, b: int|
                    #![trigger out.at(a, b)]
                    out.contains(a, b) && (b < y || (b == y && a < x)) ==> out.at(a, b)
                        == cell_tone(
                        cells as int,
                        cell_w as int,
                        cell_h as int,
                        reverse,
                        order@,
                        a,
                        b,
                    ),
            decreases width - x,
        {
            let row: u32 = y / cell_h;
            let col: u32 = x / cell_w;
            proof {
                assert(0 <= row < cells && 0 <= col < cells) by (nonlinear_arith)
                    requires
                        row == y as int / (cell_h as int),
                        col == x as int / (cell_w as int),
                        0 <= y < cell_h * cells,
                        0 <= x < cell_w * cells,
                        1 <= cell_w,
                        1 <= cell_h,
                ;
            }
            let gray: u8 = order[(row * cells + col) as usize];
            out.set(x as i32, y as i32, gray, reverse);
            x = x + 1;
        }
        y = y + 1;
    }
    out
}

pub fn make_dynamic_pattern(
    width: u32,
    height: u32,
    cells: u32,
    pat_w: i32,
    pat_h: i32,
    reverse: bool,
    order: &[u8],
) -> (out: GrayMask)
    requires
        gray_mask::size_fits(width as int, height as int),
        cells == 4 || cells == 8,
        order@.len() == cells * cells,
    ensures
        out.sized(width as int, height as int),
        out.shows(
            |x: int, y: int|
                pattern_tone(
                    cells as int,
                    pat_w as int,
                    pat_h as int,
                    reverse,
                    order@,
                    x,
                    y,
                ),
        ),
{
    let limit: i32 = if cells == 8 { 64 } else { 128 };
    let cell_w: i32 = clamp_i32(pat_w, 1, limit);
    let cell_h: i32 = clamp_i32(pat_h, 1, limit);
    let pattern = make_pattern(cells, cell_w, cell_h, reverse, order);
    let out = pattern.tiled_to(width, height);
    proof {
        assert forall|x: int, y: int|
            #![trigger out.at(x, y)]
            out.contains(x, y) implies out.at(x, y) == pattern_tone(
            cells as int,
            pat_w as int,
            pat_h as int,
            reverse,
            order@,
            x,
            y,
        ) by {
            let a = x % (pattern.width as int);
            let b = y % (pattern.height as int);
            assert(pattern.contains(a, b));
            assert(pattern.at(a, b) == cell_tone(
                cells as int,
                cell_w as int,
                cell_h as int,
                reverse,
                order@,
                a,
                b,
            ));
        }
    }
    out
}

} // verus!
