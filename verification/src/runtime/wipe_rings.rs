//! Wipe masks that close in on the middle: nested squares, a rhombus, a cross
//! and the picture of a television that is switched off. All but the rhombus
//! are drawn in layers, each over those before it.

use vstd::prelude::*;
use crate::runtime::gray_mask;
use crate::runtime::gray_mask::GrayMask;
use crate::runtime::wipe_linear;
use crate::runtime::wipe_linear::{linear_i32, ramp_i32};

verus! {

/// The last of the layers `0..n` that covers a pixel, or -1 where none does.
pub open spec fn top_layer(n: int, covers: spec_fn(int) -> bool) -> int
    decreases n,
{
    if n <= 0 {
        -1
    } else if covers(n - 1) {
        n - 1
    } else {
        top_layer(n - 1, covers)
    }
}

/// How many squares a square mask nests.
pub open spec fn square_count(width: int, height: int) -> int {
    (gray_mask::larger(width, height) + 1) / 2
}

/// Whether the outline of square `i` covers a pixel: the squares shrink from
/// the frame's edge to the four pixels round its middle.
pub open spec fn square_covers(width: int, height: int, i: int, x: int, y: int) -> bool {
    let last = square_count(width, height) - 1;
    gray_mask::on_outline(
        wipe_linear::linear(i, 0, 0, last, width / 2 - 1),
        wipe_linear::linear(i, 0, 0, last, height / 2 - 1),
        wipe_linear::linear(i, 0, width - 1, last, width / 2),
        wipe_linear::linear(i, 0, height - 1, last, height / 2),
        x,
        y,
    )
}

/// The topmost of the first `n` squares at a pixel.
pub open spec fn square_top(width: int, height: int, n: int, x: int, y: int) -> int {
    top_layer(n, |i: int| square_covers(width, height, i, x, y))
}

pub open spec fn square_tone(width: int, height: int, reverse: bool, x: int, y: int) -> int {
    let n = square_count(width, height);
    let top = square_top(width, height, n, x, y);
    if top < 0 {
        0
    } else {
        gray_mask::tone(255 - wipe_linear::ramp(top, n, 255), reverse)
    }
}

/// Tone of a rhombus that closes in from the corners: in each quarter, a ramp
/// over the distance from the corner, counted along the edges.
pub open spec fn rhombus_tone(width: int, height: int, reverse: bool, x: int, y: int) -> int {
    let half_w = if x < width / 2 { width / 2 } else { (width + 1) / 2 };
    let half_h = if y < height / 2 { height / 2 } else { (height + 1) / 2 };
    let from_x = if x < width / 2 { x } else { width - 1 - x };
    let from_y = if y < height / 2 { y } else { height - 1 - y };
    gray_mask::tone(
        255 - wipe_linear::ramp(from_x + from_y, half_w + half_h - 1, 255),
        reverse,
    )
}

/// How far the arms of the cross reach from the middle of the frame.
pub open spec fn jyuuji_reach(width: int, height: int) -> int {
    let cx = width / 2 - 1;
    let cy = height / 2 - 1;
    gray_mask::larger(
        gray_mask::larger(gray_mask::distance(cx, 0), gray_mask::distance(width, cx)),
        gray_mask::larger(gray_mask::distance(cy, 0), gray_mask::distance(height, cy)),
    )
}

/// One quarter of the cross: boxes with one fixed corner far outside, whose
/// other corner moves away from the middle.
pub open spec fn jyuuji_top(
    x1: int,
    y1: int,
    x2: int,
    y2: int,
    dx: int,
    dy: int,
    n: int,
    x: int,
    y: int,
) -> int {
    top_layer(n, |i: int| gray_mask::on_outline(x1, y1, x2 + i * dx, y2 + i * dy, x, y))
}

/// Tone of a cross that opens from the middle; where quarters meet, the later
/// one is seen.
pub open spec fn jyuuji_tone(width: int, height: int, reverse: bool, x: int, y: int) -> int {
    let n = jyuuji_reach(width, height);
    let cx = width / 2 - 1;
    let cy = height / 2 - 1;
    let q0 = jyuuji_top(cx - n, cy - n, cx, cy, -1, -1, n, x, y);
    let q1 = jyuuji_top(cx + 1 + n, cy - n, cx + 1, cy, 1, -1, n, x, y);
    let q2 = jyuuji_top(cx - n, cy + 1 + n, cx, cy + 1, -1, 1, n, x, y);
    let q3 = jyuuji_top(cx + 1 + n, cy + 1 + n, cx + 1, cy + 1, 1, 1, n, x, y);
    let top = if q3 >= 0 {
        q3
    } else if q2 >= 0 {
        q2
    } else if q1 >= 0 {
        q1
    } else {
        q0
    };
    if top < 0 {
        0
    } else {
        gray_mask::tone(wipe_linear::ramp(top, n, 255), reverse)
    }
}

/// How many rows at the top, and at the bottom, a television mask shades.
pub open spec fn television_rows(height: int) -> int {
    gray_mask::larger(height / 16, 1)
}

/// How many boxes a television mask draws between those rows.
pub open spec fn television_boxes(width: int) -> int {
    gray_mask::larger(width / 2 + (width / 2) % 2, 1)
}

/// How far box `i` of a television mask has moved in from above and below.
pub open spec fn television_inset(width: int, height: int, i: int) -> int {
    wipe_linear::linear(
        i * 3,
        0,
        0,
        television_boxes(width) - 1,
        wipe_linear::truncated(height - television_rows(height) * 2, 2),
    )
}

pub open spec fn television_box_covers(width: int, height: int, i: int, x: int, y: int) -> bool {
    let rows = television_rows(height);
    let inset = television_inset(width, height, i);
    gray_mask::between(i, x, width - 1 - i) && gray_mask::between(
        rows + inset,
        y,
        height - 1 - rows - inset,
    )
}

pub open spec fn television_top_row(height: int, n: int, y: int) -> int {
    top_layer(n, |i: int| y == i || y == height - 1 - i)
}

pub open spec fn television_top_box(width: int, height: int, n: int, x: int, y: int) -> int {
    top_layer(n, |i: int| television_box_covers(width, height, i, x, y))
}

/// Tone of a picture that shrinks to a line and then to a point.
pub open spec fn television_tone(width: int, height: int, reverse: bool, x: int, y: int) -> int {
    let boxes = television_boxes(width);
    let rows = television_rows(height);
    let top_box = television_top_box(width, height, boxes, x, y);
    let top_row = television_top_row(height, rows, y);
    if top_box >= 0 {
        gray_mask::tone(255 - wipe_linear::linear(top_box, 0, 16, boxes - 1, 255), reverse)
    } else if top_row >= 0 {
        gray_mask::tone(255 - wipe_linear::ramp(top_row, rows, 15), reverse)
    } else {
        0
    }
}

pub fn make_square(width: u32, height: u32, reverse: bool) -> (out: GrayMask)
    requires
        wipe_linear::lines_fit(width as int, height as int),
    ensures
        out.sized(width as int, height as int),
        out.shows(|x: int, y: int| square_tone(width as int, height as int, reverse, x, y)),
{
    let mut out = GrayMask::new(width, height);
    let w: i32 = width as i32;
    let h: i32 = height as i32;
    let count: i32 = ((if w >= h { w } else { h }) + 1) / 2;
    let mut i: i32 = 0;
    while i < count
        invariant
            wipe_linear::lines_fit(width as int, height as int),
            w == width,
            h == height,
            count == square_count(w as int, h as int),
            0 <= i <= count,
            out.sized(w as int, h as int),
            forall|a: int, b: int|
                #![trigger out.at(a, b)]
                out.contains(a, b) ==> {
                    let top = square_top(w as int, h as int, i as int, a, b);
                    out.at(a, b) == (if top < 0 {
                        0
                    } else {
                        gray_mask::tone(255 - wipe_linear::ramp(top, count as int, 255), reverse)
                    })
                },
        decreases count - i,
    {
        proof {
            wipe_linear::lemma_linear_between(i as int, 0, 0, count - 1, w / 2 - 1);
            wipe_linear::lemma_linear_between(i as int, 0, 0, count - 1, h / 2 - 1);
            wipe_linear::lemma_linear_between(i as int, 0, w - 1, count - 1, w as int / 2);
            wipe_linear::lemma_linear_between(i as int, 0, h - 1, count - 1, h as int / 2);
        }
        let pal: i32 = ramp_i32(i, count, 255);
        let x1: i32 = linear_i32(i, 0, 0, count - 1, w / 2 - 1);
        let y1: i32 = linear_i32(i, 0, 0, count - 1, h / 2 - 1);
        let x2: i32 = linear_i32(i, 0, w - 1, count - 1, w / 2);
        let y2: i32 = linear_i32(i, 0, h - 1, count - 1, h / 2);
        out.empty_box(x1, y1, x2, y2, (255 - pal) as u8, reverse);
        proof {
            assert forall|a: int, b: int|
                #![trigger out.at(a, b)]
                out.contains(a, b) implies square_top(w as int, h as int, i + 1, a, b) == (
            if square_covers(w as int, h as int, i as int, a, b) {
                i as int
            } else {
                square_top(w as int, h as int, i as int, a, b)
            }) by {}
        }
        i = i + 1;
    }
    out
}

/// A line with equal extents along both axes covers the diagonal between its
/// ends.
proof fn lemma_diagonal_line(x0: int, y0: int, x1: int, y1: int, x: int, y: int)
    requires
        gray_mask::distance(x0, x1) == gray_mask::distance(y0, y1),
    ensures
        gray_mask::on_line(x0, y0, x1, y1, x, y) == (gray_mask::between(x0, x, x1)
            && gray_mask::between(y0, y, y1) && gray_mask::distance(x0, x)
            == gray_mask::distance(y0, y)),
{
    gray_mask::lemma_line_diagonal(
        gray_mask::distance(x0, x1),
        0,
        if x0 < x1 { x - x0 } else { x0 - x },
        if y0 < y1 { y - y0 } else { y0 - y },
    );
}

/// Draws one quarter of a rhombus: diagonals at growing distance from the
/// corner `(start_x, start_y)`, over `x_len` columns and `y_len` rows towards
/// the middle.
fn rhombus_quarter(
    out: &mut GrayMask,
    start_x: i32,
    start_y: i32,
    x_len: i32,
    y_len: i32,
    x_dir: i32,
    y_dir: i32,
    reverse: bool,
)
    requires
        old(out).wf(),
        0 <= start_x <= 0x3fff_ffff,
        0 <= start_y <= 0x3fff_ffff,
        0 <= x_len <= 0x3fff_ffff,
        0 <= y_len <= 0x3fff_ffff,
        x_dir == 1 || x_dir == -1,
        y_dir == 1 || y_dir == -1,
    ensures
        final(out).sized(old(out).width as int, old(out).height as int),
        forall|a: int, b: int|
            #![trigger final(out).at(a, b)]
            old(out).contains(a, b) ==> {
                let p = (a - start_x) * x_dir;
                let q = (b - start_y) * y_dir;
                final(out).at(a, b) == (if 0 <= p < x_len && 0 <= q < y_len {
                    gray_mask::tone(
                        255 - wipe_linear::ramp(p + q, x_len + y_len - 1, 255),
                        reverse,
                    )
                } else {
                    old(out).at(a, b) as int
                })
            },
{
    if x_len <= 0 || y_len <= 0 {
        return ;
    }
    let count: i32 = x_len + y_len - 1;
    let mut x1: i32 = start_x;
    let mut y1: i32 = start_y;
    let mut x2: i32 = start_x;
    let mut y2: i32 = start_y;
    let ghost mut p1: int = 0;
    let ghost mut q1: int = 0;
    let ghost mut p2: int = 0;
    let ghost mut q2: int = 0;
    let mut i: i32 = 0;
    while i < count
        invariant
            0 <= start_x <= 0x3fff_ffff,
            0 <= start_y <= 0x3fff_ffff,
            1 <= x_len <= 0x3fff_ffff,
            1 <= y_len <= 0x3fff_ffff,
            x_dir == 1 || x_dir == -1,
            y_dir == 1 || y_dir == -1,
            count == x_len + y_len - 1,
            0 <= i <= count,
            p1 == gray_mask::smaller(i as int, x_len - 1),
            q1 == i - p1,
            q2 == gray_mask::smaller(i as int, y_len - 1),
            p2 == i - q2,
            x1 == (if x_dir == 1 { start_x + p1 } else { start_x - p1 }),
            y1 == (if y_dir == 1 { start_y + q1 } else { start_y - q1 }),
            x2 == (if x_dir == 1 { start_x + p2 } else { start_x - p2 }),
            y2 == (if y_dir == 1 { start_y + q2 } else { start_y - q2 }),
            out.sized(old(out).width as int, old(out).height as int),
            forall|a: int, b: int|
                #![trigger out.at(a, b)]
                out.contains(a, b) ==> {
                    let p = (a - start_x) * x_dir;
                    let q = (b - start_y) * y_dir;
                    out.at(a, b) == (if 0 <= p < x_len && 0 <= q < y_len && p + q < i {
                        gray_mask::tone(255 - wipe_linear::ramp(p + q, count as int, 255), reverse)
                    } else {
                        old(out).at(a, b) as int
                    })
                },
        decreases count - i,
    {
        let pal: i32 = ramp_i32(i, count, 255);
        let ghost before = *out;
        out.line(x1, y1, x2, y2, (255 - pal) as u8, reverse);
        proof {
            assert forall|a: int, b: int|
                #![trigger out.at(a, b)]
                out.contains(a, b) implies {
                let p = (a - start_x) * x_dir;
                let q = (b - start_y) * y_dir;
                out.at(a, b) == (if 0 <= p < x_len && 0 <= q < y_len && p + q < i + 1 {
                    gray_mask::tone(255 - wipe_linear::ramp(p + q, count as int, 255), reverse)
                } else {
                    old(out).at(a, b) as int
                })
            } by {
                let p = (a - start_x) * x_dir;
                let q = (b - start_y) * y_dir;
                assert(p == if x_dir == 1 { a - start_x } else { start_x - a }) by (nonlinear_arith)
                    requires
                        x_dir == 1 || x_dir == -1,
                        p == (a - start_x) * x_dir,
                ;
                assert(q == if y_dir == 1 { b - start_y } else { start_y - b }) by (nonlinear_arith)
                    requires
                        y_dir == 1 || y_dir == -1,
                        q == (b - start_y) * y_dir,
                ;
                lemma_diagonal_line(x1 as int, y1 as int, x2 as int, y2 as int, a, b);
                assert(before.contains(a, b));
                assert(out.at(a, b) == (if gray_mask::on_line(
                    x1 as int,
                    y1 as int,
                    x2 as int,
                    y2 as int,
                    a,
                    b,
                ) {
                    gray_mask::tone(255 - pal as int, reverse)
                } else {
                    before.at(a, b) as int
                }));
                assert(gray_mask::on_line(x1 as int, y1 as int, x2 as int, y2 as int, a, b) == (0
                    <= p < x_len && 0 <= q < y_len && p + q == i));
            }
        }
        let along_x: i32 = if x1 >= start_x { x1 - start_x } else { start_x - x1 };
        if along_x < x_len - 1 {
            x1 = x1 + x_dir;
            proof {
                p1 = p1 + 1;
            }
        } else {
            y1 = y1 + y_dir;
            proof {
                q1 = q1 + 1;
            }
        }
        let along_y: i32 = if y2 >= start_y { y2 - start_y } else { start_y - y2 };
        if along_y < y_len - 1 {
            y2 = y2 + y_dir;
            proof {
                q2 = q2 + 1;
            }
        } else {
            x2 = x2 + x_dir;
            proof {
                p2 = p2 + 1;
            }
        }
        i = i + 1;
    }
}

pub fn make_rhombus(width: u32, height: u32, reverse: bool) -> (out: GrayMask)
    requires
        wipe_linear::lines_fit(width as int, height as int),
    ensures
        out.sized(width as int, height as int),
        out.shows(|x: int, y: int| rhombus_tone(width as int, height as int, reverse, x, y)),
{
    let mut out = GrayMask::new(width, height);
    let w: i32 = width as i32;
    let h: i32 = height as i32;
    let left: i32 = w / 2;
    let right: i32 = (w + 1) / 2;
    let upper: i32 = h / 2;
    let lower: i32 = (h + 1) / 2;
    rhombus_quarter(&mut out, 0, 0, left, upper, 1, 1, reverse);
    rhombus_quarter(&mut out, w - 1, 0, right, upper, -1, 1, reverse);
    rhombus_quarter(&mut out, 0, h - 1, left, lower, 1, -1, reverse);
    rhombus_quarter(&mut out, w - 1, h - 1, right, lower, -1, -1, reverse);
    out
}

/// Draws one quarter of the cross.
fn jyuuji_quarter(
    out: &mut GrayMask,
    x1: i32,
    y1: i32,
    x2: i32,
    y2: i32,
    dx: i32,
    dy: i32,
    count: i32,
    reverse: bool,
)
    requires
        old(out).wf(),
        -0x3fff_ffff <= x1 <= 0x4fff_ffff,
        -0x3fff_ffff <= y1 <= 0x4fff_ffff,
        -0x3fff_ffff <= x2 <= 0x3fff_ffff,
        -0x3fff_ffff <= y2 <= 0x3fff_ffff,
        dx == 1 || dx == -1,
        dy == 1 || dy == -1,
        1 <= count <= 0x3fff_ffff,
    ensures
        final(out).sized(old(out).width as int, old(out).height as int),
        forall|a: int, b: int|
            #![trigger final(out).at(a, b)]
            old(out).contains(a, b) ==> {
                let top = jyuuji_top(
                    x1 as int,
                    y1 as int,
                    x2 as int,
                    y2 as int,
                    dx as int,
                    dy as int,
                    count as int,
                    a,
                    b,
                );
                final(out).at(a, b) == (if top < 0 {
                    old(out).at(a, b) as int
                } else {
                    gray_mask::tone(wipe_linear::ramp(top, count as int, 255), reverse)
                })
            },
{
    let mut corner_x: i32 = x2;
    let mut corner_y: i32 = y2;
    let mut i: i32 = 0;
    while i < count
        invariant
            -0x3fff_ffff <= x1 <= 0x4fff_ffff,
            -0x3fff_ffff <= y1 <= 0x4fff_ffff,
            -0x3fff_ffff <= x2 <= 0x3fff_ffff,
            -0x3fff_ffff <= y2 <= 0x3fff_ffff,
            dx == 1 || dx == -1,
            dy == 1 || dy == -1,
            1 <= count <= 0x3fff_ffff,
            0 <= i <= count,
            corner_x == x2 + i * dx,
            corner_y == y2 + i * dy,
            -0x7fff_fffe <= corner_x <= 0x7fff_fffe,
            -0x7fff_fffe <= corner_y <= 0x7fff_fffe,
            out.sized(old(out).width as int, old(out).height as int),
            forall|a: int, b: int|
                #![trigger out.at(a, b)]
                out.contains(a, b) ==> {
                    let top = jyuuji_top(
                        x1 as int,
                        y1 as int,
                        x2 as int,
                        y2 as int,
                        dx as int,
                        dy as int,
                        i as int,
                        a,
                        b,
                    );
                    out.at(a, b) == (if top < 0 {
                        old(out).at(a, b) as int
                    } else {
                        gray_mask::tone(wipe_linear::ramp(top, count as int, 255), reverse)
                    })
                },
        decreases count - i,
    {
        let pal: u8 = ramp_i32(i, count, 255) as u8;
        out.empty_box(x1, y1, corner_x, corner_y, pal, reverse);
        proof {
            let (ax, ay, bx, by) = (x1 as int, y1 as int, x2 as int, y2 as int);
            assert forall|a: int, b: int|
                #![trigger out.at(a, b)]
                out.contains(a, b) implies jyuuji_top(
                ax,
                ay,
                bx,
                by,
                dx as int,
                dy as int,
                i + 1,
                a,
                b,
            ) == (if gray_mask::on_outline(ax, ay, bx + i * dx, by + i * dy, a, b) {
                i as int
            } else {
                jyuuji_top(ax, ay, bx, by, dx as int, dy as int, i as int, a, b)
            }) by {}
            assert((i + 1) * dx == i * dx + dx) by (nonlinear_arith);
            assert((i + 1) * dy == i * dy + dy) by (nonlinear_arith);
            assert(-count <= (i + 1) * dx <= count) by (nonlinear_arith)
                requires
                    0 <= i < count,
                    dx == 1 || dx == -1,
            ;
            assert(-count <= (i + 1) * dy <= count) by (nonlinear_arith)
                requires
                    0 <= i < count,
                    dy == 1 || dy == -1,
            ;
        }
        corner_x = corner_x + dx;
        corner_y = corner_y + dy;
        i = i + 1;
    }
}

fn larger_i32(a: i32, b: i32) -> (r: i32)
    ensures
        r == gray_mask::larger(a as int, b as int),
{
    if a >= b {
        a
    } else {
        b
    }
}

fn distance_i32(a: i32, b: i32) -> (r: i32)
    requires
        -0x3fff_ffff <= a <= 0x3fff_ffff,
        -0x3fff_ffff <= b <= 0x3fff_ffff,
    ensures
        r == gray_mask::distance(a as int, b as int),
{
    if a <= b {
        b - a
    } else {
        a - b
    }
}

pub fn make_jyuuji(width: u32, height: u32, reverse: bool) -> (out: GrayMask)
    requires
        wipe_linear::lines_fit(width as int, height as int),
    ensures
        out.sized(width as int, height as int),
        out.shows(|x: int, y: int| jyuuji_tone(width as int, height as int, reverse, x, y)),
{
    let w: i32 = width as i32;
    let h: i32 = height as i32;
    let cx: i32 = w / 2 - 1;
    let cy: i32 = h / 2 - 1;
    let n: i32 = larger_i32(
        larger_i32(distance_i32(cx, 0), distance_i32(w, cx)),
        larger_i32(distance_i32(cy, 0), distance_i32(h, cy)),
    );
    let mut out = GrayMask::new(width, height);
    jyuuji_quarter(&mut out, cx - n, cy - n, cx, cy, -1, -1, n, reverse);
    jyuuji_quarter(&mut out, cx + 1 + n, cy - n, cx + 1, cy, 1, -1, n, reverse);
    jyuuji_quarter(&mut out, cx - n, cy + 1 + n, cx, cy + 1, -1, 1, n, reverse);
    jyuuji_quarter(&mut out, cx + 1 + n, cy + 1 + n, cx + 1, cy + 1, 1, 1, n, reverse);
    out
}

/// A box of a television mask never moves in more than three times as far as
/// half of the height.
proof fn lemma_inset(width: int, height: int, i: int)
    requires
        1 <= width,
        1 <= height,
        0 <= i < television_boxes(width),
    ensures
        0 <= 2 * television_inset(width, height, i) <= 3 * height,
        0 <= 2 * wipe_linear::truncated(height - television_rows(height) * 2, 2) <= height,
{
    let d = television_boxes(width) - 1;
    let k = wipe_linear::truncated(height - television_rows(height) * 2, 2);
    assert(0 <= 2 * k <= height);
    if d > 0 {
        assert(k * (i * 3 - 0) >= 0 && (k * (i * 3 - 0)) / d >= 0 && (k * (i * 3 - 0)) / d <= 3 * k)
            by (nonlinear_arith)
            requires
                k >= 0,
                0 <= i <= d,
                d > 0,
        ;
    }
}

pub fn make_television(width: u32, height: u32, reverse: bool) -> (out: GrayMask)
    requires
        wipe_linear::lines_fit(width as int, height as int),
    ensures
        out.sized(width as int, height as int),
        out.shows(|x: int, y: int| television_tone(width as int, height as int, reverse, x, y)),
{
    let mut out = GrayMask::new(width, height);
    let w: i32 = width as i32;
    let h: i32 = height as i32;
    let rows: i32 = if h / 16 == 0 { 1 } else { h / 16 };
    let mut i: i32 = 0;
    while i < rows
        invariant
            wipe_linear::lines_fit(width as int, height as int),
            w == width,
            h == height,
            rows == television_rows(h as int),
            0 <= i <= rows,
            out.sized(w as int, h as int),
            forall|a: int, b: int|
                #![trigger out.at(a, b)]
                out.contains(a, b) ==> {
                    let top = television_top_row(h as int, i as int, b);
                    out.at(a, b) == (if top < 0 {
                        0
                    } else {
                        gray_mask::tone(255 - wipe_linear::ramp(top, rows as int, 15), reverse)
                    })
                },
        decreases rows - i,
    {
        let gray: u8 = (255 - ramp_i32(i, rows, 15)) as u8;
        let ghost m0 = out;
        out.line(0, i, w - 1, i, gray, reverse);
        let ghost m1 = out;
        out.line(0, h - 1 - i, w - 1, h - 1 - i, gray, reverse);
        proof {
            assert forall|a: int, b: int|
                #![trigger out.at(a, b)]
                out.contains(a, b) implies out.at(a, b) == (if b == i || b == h - 1 - i {
                gray_mask::tone(gray as int, reverse)
            } else {
                m0.at(a, b) as int
            }) by {
                gray_mask::lemma_straight_line(0, i as int, w - 1, i as int, a, b);
                gray_mask::lemma_straight_line(0, h - 1 - i, w - 1, h - 1 - i, a, b);
                assert(m1.contains(a, b));
                assert(m1.at(a, b) == (if b == i {
                    gray_mask::tone(gray as int, reverse)
                } else {
                    m0.at(a, b) as int
                }));
            }
            assert forall|a: int, b: int|
                #![trigger out.at(a, b)]
                out.contains(a, b) implies television_top_row(h as int, i + 1, b) == (if b == i || b
                == h - 1 - i {
                i as int
            } else {
                television_top_row(h as int, i as int, b)
            }) by {}
        }
        i = i + 1;
    }
    let ghost shaded = out;
    let spare: i32 = h - rows * 2;
    let y_alpha: i32 = if spare >= 0 { spare / 2 } else { 0 };
    let half: i32 = w / 2;
    let even: i32 = if half % 2 != 0 { half + 1 } else { half };
    let boxes: i32 = if even == 0 { 1 } else { even };
    i = 0;
    while i < boxes
        invariant
            wipe_linear::lines_fit(width as int, height as int),
            w == width,
            h == height,
            rows == television_rows(h as int),
            boxes == television_boxes(w as int),
            y_alpha == wipe_linear::truncated(h - rows * 2, 2),
            0 <= i <= boxes,
            out.sized(w as int, h as int),
            forall|a: int, b: int|
                #![trigger out.at(a, b)]
                out.contains(a, b) ==> {
                    let top = television_top_box(w as int, h as int, i as int, a, b);
                    out.at(a, b) == (if top < 0 {
                        shaded.at(a, b) as int
                    } else {
                        gray_mask::tone(
                            255 - wipe_linear::linear(top, 0, 16, boxes - 1, 255),
                            reverse,
                        )
                    })
                },
        decreases boxes - i,
    {
        proof {
            lemma_inset(w as int, h as int, i as int);
            wipe_linear::lemma_linear_between(i as int, 0, 16, boxes - 1, 255);
        }
        let pal: i32 = linear_i32(i, 0, 16, boxes - 1, 255);
        let inset: i32 = linear_i32(i * 3, 0, 0, boxes - 1, y_alpha);
        out.fill_box(
            i,
            rows + inset,
            w - 1 - i,
            h - 1 - rows - inset,
            (255 - pal) as u8,
            reverse,
        );
        proof {
            assert forall|a: int, b: int|
                #![trigger out.at(a, b)]
                out.contains(a, b) implies television_top_box(w as int, h as int, i + 1, a, b) == (
            if television_box_covers(w as int, h as int, i as int, a, b) {
                i as int
            } else {
                television_top_box(w as int, h as int, i as int, a, b)
            }) by {}
        }
        i = i + 1;
    }
    out
}

} // verus!
