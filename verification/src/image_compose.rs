//! Drawing one image into another.

use vstd::prelude::*;
use crate::assets::{ImageView, RgbaImage};

verus! {

/// The four bytes of the pixel `p`.
pub open spec fn pixel_at(rgba: Seq<u8>, p: int) -> Seq<u8> {
    rgba.subrange(4 * p, 4 * p + 4)
}

/// The number of the pixel in column `x` and row `y`.
pub open spec fn place(width: int, x: int, y: int) -> int {
    y * width + x
}

/// The opacity of two layers together.
pub open spec fn joint_alpha(sa: int, da: int) -> int {
    sa + da - sa * da / 255
}

/// The color where two layers overlap: added up to white, or multiplied.
pub open spec fn mixed(sc: int, dc: int, blend_type: i32) -> int {
    if blend_type == 1 {
        if sc + dc > 255 {
            255
        } else {
            sc + dc
        }
    } else {
        sc * dc / 255
    }
}

/// Whether the colors of two layers are mixed where they overlap.
pub open spec fn mixes(blend_type: i32) -> bool {
    blend_type == 1 || blend_type == 3
}

pub open spec fn up_to_255(v: int) -> int {
    if v > 255 {
        255
    } else {
        v
    }
}

/// One color of a pixel that is drawn over another.
pub open spec fn joint_color(sc: int, sa: int, dc: int, da: int, blend_type: i32) -> int {
    let ra = joint_alpha(sa, da);
    if mixes(blend_type) {
        (sa * da * mixed(sc, dc, blend_type) + sa * (255 - da) * sc + (255 - sa) * da * dc) / ra
            / 255
    } else {
        (255 * sa * sc + (255 - sa) * da * dc) / 256 / ra
    }
}

/// A pixel that is drawn over another. A transparent one changes nothing. One
/// over a transparent pixel replaces it, and so does an opaque one unless the
/// colors are mixed.
pub open spec fn blended(dst: Seq<u8>, src: Seq<u8>, blend_type: i32) -> Seq<u8> {
    let sa = src[3] as int;
    let da = dst[3] as int;
    if sa == 0 {
        dst
    } else if da == 0 || (sa == 255 && !mixes(blend_type)) {
        src
    } else {
        seq![
            up_to_255(joint_color(src[0] as int, sa, dst[0] as int, da, blend_type)) as u8,
            up_to_255(joint_color(src[1] as int, sa, dst[1] as int, da, blend_type)) as u8,
            up_to_255(joint_color(src[2] as int, sa, dst[2] as int, da, blend_type)) as u8,
            up_to_255(joint_alpha(sa, da)) as u8,
        ]
    }
}

fn mul3(a: u64, b: u64, c: u64) -> (r: u64)
    requires
        a <= 255,
        b <= 255,
        c <= 255,
    ensures
        r == a * b * c,
        r <= 16581375,
{
    proof {
        assert(a * b <= 65025) by (nonlinear_arith)
            requires
                a <= 255,
                b <= 255,
        ;
        assert(a * b * c <= 16581375) by (nonlinear_arith)
            requires
                a * b <= 65025,
                0 <= a * b,
                c <= 255,
        ;
        assert(0 <= a * b) by (nonlinear_arith);
    }
    a * b * c
}

proof fn lemma_joint_alpha(sa: int, da: int)
    requires
        1 <= sa <= 255,
        1 <= da <= 255,
    ensures
        1 <= joint_alpha(sa, da) <= 510,
        0 <= sa * da <= 65025,
{
    assert(0 <= sa * da <= 255 * da) by (nonlinear_arith)
        requires
            1 <= sa <= 255,
            1 <= da <= 255,
    ;
    assert((sa * da) / 255 <= da) by {
        assert((255 * da) / 255 == da);
        vstd::arithmetic::div_mod::lemma_div_is_ordered(sa * da, 255 * da, 255);
    }
}

fn joined_color(sc: u8, sa: u8, dc: u8, da: u8, ra: u64, blend_type: i32) -> (c: u8)
    requires
        sa >= 1,
        da >= 1,
        ra == joint_alpha(sa as int, da as int),
        ra >= 1,
    ensures
        c == up_to_255(joint_color(sc as int, sa as int, dc as int, da as int, blend_type)),
{
    let s: u64 = sc as u64;
    let d: u64 = dc as u64;
    let a: u64 = sa as u64;
    let b: u64 = da as u64;
    let v: u64 = if blend_type == 1 || blend_type == 3 {
        proof {
            assert(0 <= s * d <= 65025) by (nonlinear_arith)
                requires
                    s <= 255,
                    d <= 255,
            ;
        }
        let m: u64 = if blend_type == 1 {
            if s + d > 255 {
                255
            } else {
                s + d
            }
        } else {
            s * d / 255
        };
        let sum: u64 = mul3(a, b, m) + mul3(a, 255 - b, s) + mul3(255 - a, b, d);
        sum / ra / 255
    } else {
        let sum: u64 = mul3(255, a, s) + mul3(255 - a, b, d);
        sum / 256 / ra
    };
    if v > 255 {
        255
    } else {
        v as u8
    }
}

/// Draws one pixel over another.
pub fn compose_g00_pixel(dst: [u8; 4], src: [u8; 4], blend_type: i32) -> (r: [u8; 4])
    ensures
        r@ == blended(dst@, src@, blend_type),
{
    let sa: u8 = src[3];
    let da: u8 = dst[3];
    if sa == 0 {
        return dst;
    }
    if da == 0 || (sa == 255 && !(blend_type == 1 || blend_type == 3)) {
        return src;
    }
    proof {
        lemma_joint_alpha(sa as int, da as int);
    }
    let ra: u64 = sa as u64 + da as u64 - (sa as u64 * da as u64) / 255;
    let alpha: u8 = if ra > 255 {
        255
    } else {
        ra as u8
    };
    let r: [u8; 4] = [
        joined_color(src[0], sa, dst[0], da, ra, blend_type),
        joined_color(src[1], sa, dst[1], da, ra, blend_type),
        joined_color(src[2], sa, dst[2], da, ra, blend_type),
        alpha,
    ];
    proof {
        assert(r@ =~= blended(dst@, src@, blend_type));
    }
    r
}

fn read_pixel(rgba: &Vec<u8>, p: usize) -> (r: [u8; 4])
    requires
        4 * p + 4 <= rgba@.len(),
    ensures
        r@ == pixel_at(rgba@, p as int),
{
    let _len: usize = rgba.len();
    let i: usize = 4 * p;
    let r: [u8; 4] = [rgba[i], rgba[i + 1], rgba[i + 2], rgba[i + 3]];
    proof {
        assert(r@ =~= pixel_at(rgba@, p as int));
    }
    r
}

fn write_pixel(rgba: &mut Vec<u8>, p: usize, v: [u8; 4])
    requires
        4 * p + 4 <= old(rgba)@.len(),
    ensures
        final(rgba)@.len() == old(rgba)@.len(),
        pixel_at(final(rgba)@, p as int) == v@,
        forall|q: int|
            0 <= q && 4 * q + 4 <= old(rgba)@.len() && q != p ==> #[trigger] pixel_at(
                final(rgba)@,
                q,
            ) == pixel_at(old(rgba)@, q),
{
    let _len: usize = rgba.len();
    let i: usize = 4 * p;
    rgba.set(i, v[0]);
    rgba.set(i + 1, v[1]);
    rgba.set(i + 2, v[2]);
    rgba.set(i + 3, v[3]);
    proof {
        assert(pixel_at(rgba@, p as int) =~= v@);
        assert forall|q: int|
            0 <= q && 4 * q + 4 <= old(rgba)@.len() && q != p implies #[trigger] pixel_at(rgba@, q)
            == pixel_at(old(rgba)@, q) by {
            assert(pixel_at(rgba@, q) =~= pixel_at(old(rgba)@, q));
        }
    }
}

/// Whether the pixel of the target in column `px` and row `py` is covered by
/// an image that is drawn at `x` and `y`.
pub open spec fn covered(src: ImageView, x: int, y: int, px: int, py: int) -> bool {
    0 <= px - x < src.width && 0 <= py - y < src.height
}

/// The pixel in column `px` and row `py` after `src` was drawn at `x` and `y`.
pub open spec fn drawn_pixel(
    dst: ImageView,
    src: ImageView,
    x: int,
    y: int,
    blend_type: i32,
    px: int,
    py: int,
) -> Seq<u8> {
    let before = pixel_at(dst.rgba, place(dst.width as int, px, py));
    if covered(src, x, y, px, py) {
        blended(
            before,
            pixel_at(src.rgba, place(src.width as int, px - x, py - y)),
            blend_type,
        )
    } else {
        before
    }
}

/// Whether `after` is `dst` with `src` drawn at `x` and `y`.
pub open spec fn is_drawn(
    dst: ImageView,
    after: ImageView,
    src: ImageView,
    x: int,
    y: int,
    blend_type: i32,
) -> bool {
    &&& after.width == dst.width
    &&& after.height == dst.height
    &&& after.center_x == dst.center_x
    &&& after.center_y == dst.center_y
    &&& after.rgba.len() == after.width * after.height * 4
    &&& forall|px: int, py: int|
        0 <= px < dst.width && 0 <= py < dst.height ==> pixel_at(
            after.rgba,
            #[trigger] place(dst.width as int, px, py),
        ) == drawn_pixel(dst, src, x, y, blend_type, px, py)
}

/// What is drawn over a picture changes neither its size nor the pixels that
/// it does not reach or is transparent over, and what is opaque replaces the
/// pixels unless the colors are mixed.
pub proof fn drawing_changes_what_it_covers(
    dst: ImageView,
    after: ImageView,
    src: ImageView,
    x: int,
    y: int,
    blend_type: i32,
    px: int,
    py: int,
)
    requires
        is_drawn(dst, after, src, x, y, blend_type),
        0 <= px < dst.width,
        0 <= py < dst.height,
    ensures
        after.width == dst.width && after.height == dst.height,
        ({
            let old_pixel = pixel_at(dst.rgba, place(dst.width as int, px, py));
            let new_pixel = pixel_at(after.rgba, place(dst.width as int, px, py));
            let over = pixel_at(src.rgba, place(src.width as int, px - x, py - y));
            &&& !covered(src, x, y, px, py) || over[3] == 0 ==> new_pixel == old_pixel
            &&& covered(src, x, y, px, py) && over[3] == 255 && !mixes(blend_type) ==> new_pixel
                == over
        }),
{
    let p = place(dst.width as int, px, py);
    assert(pixel_at(after.rgba, p) == drawn_pixel(dst, src, x, y, blend_type, px, py));
}

proof fn lemma_place(width: int, height: int, x: int, y: int)
    requires
        0 <= x < width,
        0 <= y < height,
    ensures
        0 <= place(width, x, y) < width * height,
        4 * place(width, x, y) + 4 <= width * height * 4,
{
    assert(0 <= y * width) by (nonlinear_arith)
        requires
            0 <= y,
            0 < width,
    ;
    assert((y + 1) * width <= height * width) by (nonlinear_arith)
        requires
            y + 1 <= height,
            0 < width,
    ;
    assert((y + 1) * width == y * width + width) by (nonlinear_arith);
    assert(height * width == width * height) by (nonlinear_arith);
}

proof fn lemma_place_unique(width: int, x: int, y: int, u: int, v: int)
    requires
        0 <= x < width,
        0 <= u < width,
        place(width, x, y) == place(width, u, v),
    ensures
        x == u,
        y == v,
{
    if y < v {
        assert((y + 1) * width <= v * width) by (nonlinear_arith)
            requires
                y + 1 <= v,
                0 < width,
        ;
        assert((y + 1) * width == y * width + width) by (nonlinear_arith);
    } else if v < y {
        assert((v + 1) * width <= y * width) by (nonlinear_arith)
            requires
                v + 1 <= y,
                0 < width,
        ;
        assert((v + 1) * width == v * width + width) by (nonlinear_arith);
    }
}

/// A coordinate brought to the first pixel of the target.
fn first_inside(v: i32) -> (r: u32)
    ensures
        r == (if v < 0 {
            0
        } else {
            v as int
        }),
{
    if v < 0 {
        0
    } else {
        v as u32
    }
}

/// How many pixels of the drawn image lie before the target.
fn skipped(v: i32) -> (r: u32)
    ensures
        r == (if v < 0 {
            -(v as int)
        } else {
            0
        }),
{
    if v < 0 {
        (-(v as i64)) as u32
    } else {
        0
    }
}

/// Draws `src` into `dst` at `x` and `y`. What lies outside is cut off.
pub fn compose_g00_cut(dst: &mut RgbaImage, src: &RgbaImage, x: i32, y: i32, blend_type: i32)
    requires
        old(dst).wf(),
        src.wf(),
    ensures
        is_drawn(old(dst)@, final(dst)@, src@, x as int, y as int, blend_type),
{
    let dst_left: u32 = first_inside(x);
    let dst_top: u32 = first_inside(y);
    let src_left: u32 = skipped(x);
    let src_top: u32 = skipped(y);
    if dst_left >= dst.width || dst_top >= dst.height || src_left >= src.width || src_top
        >= src.height {
        return;
    }
    let width: u32 = if src.width - src_left < dst.width - dst_left {
        src.width - src_left
    } else {
        dst.width - dst_left
    };
    let height: u32 = if src.height - src_top < dst.height - dst_top {
        src.height - src_top
    } else {
        dst.height - dst_top
    };
    let mut row: u32 = 0;
    while row < height
        invariant
            row <= height,
            dst_left + width <= old(dst).width,
            dst_top + height <= old(dst).height,
            src_left + width <= src.width,
            src_top + height <= src.height,
            width == old(dst).width - dst_left || width == src.width - src_left,
            height == old(dst).height - dst_top || height == src.height - src_top,
            x == dst_left - src_left,
            y == dst_top - src_top,
            dst_left == 0 || src_left == 0,
            dst_top == 0 || src_top == 0,
            old(dst).wf(),
            src.wf(),
            dst.wf(),
            dst.width == old(dst).width,
            dst.height == old(dst).height,
            dst.center_x == old(dst).center_x,
            dst.center_y == old(dst).center_y,
            forall|px: int, py: int|
                0 <= px < dst.width && 0 <= py < dst.height ==> pixel_at(
                    dst.rgba@,
                    #[trigger] place(dst.width as int, px, py),
                ) == if py < dst_top + row {
                    drawn_pixel(old(dst)@, src@, x as int, y as int, blend_type, px, py)
                } else {
                    pixel_at(old(dst).rgba@, place(dst.width as int, px, py))
                },
        decreases height - row,
    {
        draw_row(
            dst,
            src,
            dst_left,
            dst_top + row,
            src_left,
            src_top + row,
            width,
            blend_type,
        );
        proof {
            assert forall|px: int, py: int|
                0 <= px < dst.width && 0 <= py < dst.height implies pixel_at(
                dst.rgba@,
                #[trigger] place(dst.width as int, px, py),
            ) == if py < dst_top + row + 1 {
                drawn_pixel(old(dst)@, src@, x as int, y as int, blend_type, px, py)
            } else {
                pixel_at(old(dst).rgba@, place(dst.width as int, px, py))
            } by {
                if py == dst_top + row {
                    assert(covered(src@, x as int, y as int, px, py) <==> dst_left <= px < dst_left
                        + width);
                }
            }
        }
        row = row + 1;
    }
    proof {
        assert forall|px: int, py: int|
            0 <= px < dst.width && 0 <= py < dst.height implies pixel_at(
            dst.rgba@,
            #[trigger] place(dst.width as int, px, py),
        ) == drawn_pixel(old(dst)@, src@, x as int, y as int, blend_type, px, py) by {
            if py >= dst_top + height {
                assert(!covered(src@, x as int, y as int, px, py));
            }
        }
    }
}

/// Draws `width` pixels of one row of `src` into one row of `dst`.
fn draw_row(
    dst: &mut RgbaImage,
    src: &RgbaImage,
    dst_left: u32,
    dst_row: u32,
    src_left: u32,
    src_row: u32,
    width: u32,
    blend_type: i32,
)
    requires
        old(dst).wf(),
        src.wf(),
        dst_left + width <= old(dst).width,
        dst_row < old(dst).height,
        src_left + width <= src.width,
        src_row < src.height,
    ensures
        final(dst).wf(),
        final(dst).width == old(dst).width,
        final(dst).height == old(dst).height,
        final(dst).center_x == old(dst).center_x,
        final(dst).center_y == old(dst).center_y,
        forall|px: int, py: int|
            0 <= px < final(dst).width && 0 <= py < final(dst).height ==> pixel_at(
                final(dst).rgba@,
                #[trigger] place(final(dst).width as int, px, py),
            ) == if py == dst_row && dst_left <= px < dst_left + width {
                blended(
                    pixel_at(old(dst).rgba@, place(old(dst).width as int, px, py)),
                    pixel_at(
                        src.rgba@,
                        place(src.width as int, px - dst_left + src_left, src_row as int),
                    ),
                    blend_type,
                )
            } else {
                pixel_at(old(dst).rgba@, place(old(dst).width as int, px, py))
            },
{
    let mut col: u32 = 0;
    let dst_len: usize = dst.rgba.len();
    let src_len: usize = src.rgba.len();
    while col < width
        invariant
            col <= width,
            old(dst).wf(),
            src.wf(),
            dst.wf(),
            dst_left + width <= old(dst).width,
            dst_row < old(dst).height,
            src_left + width <= src.width,
            src_row < src.height,
            dst.width == old(dst).width,
            dst.height == old(dst).height,
            dst.center_x == old(dst).center_x,
            dst.center_y == old(dst).center_y,
            dst.rgba@.len() == dst_len,
            src.rgba@.len() == src_len,
            forall|px: int, py: int|
                0 <= px < dst.width && 0 <= py < dst.height ==> pixel_at(
                    dst.rgba@,
                    #[trigger] place(dst.width as int, px, py),
                ) == if py == dst_row && dst_left <= px < dst_left + col {
                    blended(
                        pixel_at(old(dst).rgba@, place(old(dst).width as int, px, py)),
                        pixel_at(
                            src.rgba@,
                            place(src.width as int, px - dst_left + src_left, src_row as int),
                        ),
                        blend_type,
                    )
                } else {
                    pixel_at(old(dst).rgba@, place(old(dst).width as int, px, py))
                },
        decreases width - col,
    {
        let ghost mid = *dst;
        let ghost here = dst_left + col;
        proof {
            lemma_place(dst.width as int, dst.height as int, here, dst_row as int);
            lemma_place(src.width as int, src.height as int, src_left + col, src_row as int);
        }
        let p: usize = pixel_number(dst.width, dst.height, dst_left + col, dst_row, dst_len);
        let q: usize = pixel_number(src.width, src.height, src_left + col, src_row, src_len);
        let v = compose_g00_pixel(
            read_pixel(&dst.rgba, p),
            read_pixel(&src.rgba, q),
            blend_type,
        );
        write_pixel(&mut dst.rgba, p, v);
        proof {
            assert forall|px: int, py: int|
                0 <= px < dst.width && 0 <= py < dst.height implies pixel_at(
                dst.rgba@,
                #[trigger] place(dst.width as int, px, py),
            ) == if py == dst_row && dst_left <= px < dst_left + col + 1 {
                blended(
                    pixel_at(old(dst).rgba@, place(old(dst).width as int, px, py)),
                    pixel_at(
                        src.rgba@,
                        place(src.width as int, px - dst_left + src_left, src_row as int),
                    ),
                    blend_type,
                )
            } else {
                pixel_at(old(dst).rgba@, place(old(dst).width as int, px, py))
            } by {
                lemma_place(dst.width as int, dst.height as int, px, py);
                let k = place(dst.width as int, px, py);
                if k == p {
                    lemma_place_unique(dst.width as int, px, py, here, dst_row as int);
                    assert(px - dst_left + src_left == src_left + col);
                    assert(pixel_at(mid.rgba@, place(dst.width as int, here, dst_row as int))
                        == pixel_at(
                        old(dst).rgba@,
                        place(dst.width as int, here, dst_row as int),
                    ));
                } else {
                    assert(pixel_at(dst.rgba@, k) == pixel_at(mid.rgba@, k));
                }
            }
        }
        col = col + 1;
    }
}

fn pixel_number(width: u32, height: u32, x: u32, y: u32, len: usize) -> (p: usize)
    requires
        x < width,
        y < height,
        len == width * height * 4,
    ensures
        p == place(width as int, x as int, y as int),
        4 * p + 4 <= len,
{
    proof {
        lemma_place(width as int, height as int, x as int, y as int);
        assert(0 <= y * width) by (nonlinear_arith);
        assert(y as usize * width as usize == y * width);
    }
    y as usize * width as usize + x as usize
}

/// An image that is drawn over a base keeps its own center on the base's.
pub open spec fn centered(base_center: i32, own_center: i32, offset: i32) -> int {
    let sum = offset + base_center;
    let clipped = if sum > i32::MAX {
        i32::MAX as int
    } else if sum < i32::MIN {
        i32::MIN as int
    } else {
        sum
    };
    let diff = clipped - own_center;
    if diff > i32::MAX {
        i32::MAX as int
    } else if diff < i32::MIN {
        i32::MIN as int
    } else {
        diff
    }
}

/// Where an image is drawn so that its center comes to lie `offset` from the
/// base's.
pub fn anchored(base_center: i32, own_center: i32, offset: i32) -> (r: i32)
    ensures
        r == centered(base_center, own_center, offset),
{
    let sum: i64 = offset as i64 + base_center as i64;
    let clipped: i64 = if sum > i32::MAX as i64 {
        i32::MAX as i64
    } else if sum < i32::MIN as i64 {
        i32::MIN as i64
    } else {
        sum
    };
    let diff: i64 = clipped - own_center as i64;
    if diff > i32::MAX as i64 {
        i32::MAX
    } else if diff < i32::MIN as i64 {
        i32::MIN
    } else {
        diff as i32
    }
}

/// The base with a difference drawn over it, center on center.
pub fn compose_cg_base_delta_image(base: &RgbaImage, delta: &RgbaImage) -> (r: RgbaImage)
    requires
        base.wf(),
        delta.wf(),
    ensures
        is_drawn(
            base@,
            r@,
            delta@,
            centered(base.center_x, delta.center_x, 0),
            centered(base.center_y, delta.center_y, 0),
            0,
        ),
{
    let mut composed = base.clone();
    proof {
        assert(composed@.rgba == base@.rgba);
    }
    let x: i32 = anchored(base.center_x, delta.center_x, 0);
    let y: i32 = anchored(base.center_y, delta.center_y, 0);
    compose_g00_cut(&mut composed, delta, x, y, 0);
    composed
}

proof fn lemma_floor(n: int, d: int)
    requires
        d > 0,
    ensures
        d * (n / d) <= n < d * (n / d) + d,
{
    vstd::arithmetic::div_mod::lemma_fundamental_div_mod(n, d);
}

proof fn lemma_floor_is(n: int, d: int, q: int)
    requires
        d > 0,
        d * q <= n < d * q + d,
    ensures
        n / d == q,
{
    lemma_floor(n, d);
    let k = n / d;
    if k < q {
        assert(d * (k + 1) <= d * q) by (nonlinear_arith)
            requires
                d > 0,
                k + 1 <= q,
        ;
        assert(d * (k + 1) == d * k + d) by (nonlinear_arith);
    } else if k > q {
        assert(d * (q + 1) <= d * k) by (nonlinear_arith)
            requires
                d > 0,
                q + 1 <= k,
        ;
        assert(d * (q + 1) == d * q + d) by (nonlinear_arith);
    }
}

/// Where an opaque part is drawn over an opaque pixel with blend type 3, every
/// color is multiplied: the result is the product of both as parts of 255,
/// rounded down. It is no brighter than either color, black stays black, and
/// white leaves the other color as it is. The result is opaque.
pub proof fn opaque_colors_are_multiplied(dst: Seq<u8>, src: Seq<u8>, k: int)
    requires
        dst.len() == 4,
        src.len() == 4,
        dst[3] == 255,
        src[3] == 255,
        0 <= k < 3,
    ensures
        ({
            let r = blended(dst, src, 3);
            &&& r.len() == 4
            &&& r[3] == 255
            &&& 255 * r[k] <= src[k] * dst[k] < 255 * r[k] + 255
            &&& r[k] <= src[k] && r[k] <= dst[k]
            &&& src[k] == 0 || dst[k] == 0 ==> r[k] == 0
            &&& src[k] == 255 ==> r[k] == dst[k]
            &&& dst[k] == 255 ==> r[k] == src[k]
            &&& r[k] == blended(src, dst, 3)[k]
        }),
{
    let s = src[k] as int;
    let d = dst[k] as int;
    let m = s * d / 255;
    lemma_floor(s * d, 255);
    assert(0 <= s * d <= 255 * s && s * d <= 255 * d) by (nonlinear_arith)
        requires
            0 <= s <= 255,
            0 <= d <= 255,
    ;
    assert(s * d == d * s) by (nonlinear_arith);
    lemma_opaque(s, d, 3, m);
    lemma_opaque(d, s, 3, m);
}

/// With blend type 1 the colors of opaque pixels are added, up to white.
pub proof fn opaque_colors_are_added(dst: Seq<u8>, src: Seq<u8>, k: int)
    requires
        dst.len() == 4,
        src.len() == 4,
        dst[3] == 255,
        src[3] == 255,
        0 <= k < 3,
    ensures
        ({
            let r = blended(dst, src, 1);
            &&& r.len() == 4
            &&& r[3] == 255
            &&& src[k] + dst[k] <= 255 ==> r[k] == src[k] + dst[k]
            &&& src[k] + dst[k] > 255 ==> r[k] == 255
        }),
{
    let s = src[k] as int;
    let d = dst[k] as int;
    lemma_opaque(
        s,
        d,
        1,
        if s + d > 255 {
            255
        } else {
            s + d
        },
    );
}

proof fn lemma_opaque(s: int, d: int, blend_type: i32, m: int)
    requires
        0 <= m <= 255,
        m == mixed(s, d, blend_type),
        mixes(blend_type),
    ensures
        joint_color(s, 255, d, 255, blend_type) == m,
        joint_alpha(255, 255) == 255,
{
    assert(255 * 255 * m + 255 * (255 - 255) * s + (255 - 255) * 255 * d == 65025 * m)
        by (nonlinear_arith);
    lemma_floor_is(65025 * m, 255, 255 * m);
    lemma_floor_is(255 * m, 255, m);
}

/// A transparent part changes nothing, whatever the blend type is; over a
/// transparent pixel a part stands as it is; and an opaque part replaces the
/// pixel unless the colors are added or multiplied.
pub proof fn clear_and_opaque_parts_are_plain(dst: Seq<u8>, src: Seq<u8>, blend_type: i32)
    requires
        dst.len() == 4,
        src.len() == 4,
    ensures
        src[3] == 0 ==> blended(dst, src, blend_type) == dst,
        src[3] != 0 && dst[3] == 0 ==> blended(dst, src, blend_type) == src,
        src[3] == 255 && blend_type != 1 && blend_type != 3 ==> blended(dst, src, blend_type)
            == src,
{
}

/// Two layers together let through what both let through: as parts of 255, the
/// light that the result lets through is the product of what each lets through,
/// rounded down and with at most one unit more.
pub proof fn layers_hide_together(dst: Seq<u8>, src: Seq<u8>, blend_type: i32)
    requires
        dst.len() == 4,
        src.len() == 4,
        src[3] > 0,
        dst[3] > 0,
        src[3] < 255 || blend_type == 1 || blend_type == 3,
    ensures
        ({
            let a = blended(dst, src, blend_type)[3];
            let sa = src[3];
            let da = dst[3];
            &&& 255 * a - 255 < 255 * sa + 255 * da - sa * da <= 255 * a
            &&& a >= sa && a >= da
            &&& a == 255 <==> (255 - sa) * (255 - da) < 255
        }),
{
    let sa = src[3] as int;
    let da = dst[3] as int;
    lemma_floor(sa * da, 255);
    assert(sa * da <= 255 * da && sa * da <= 255 * sa && sa * da >= 0) by (nonlinear_arith)
        requires
            0 <= sa <= 255,
            0 <= da <= 255,
    ;
    assert((255 - sa) * (255 - da) == 65025 - 255 * sa - 255 * da + sa * da) by (nonlinear_arith);
    assert((255 - sa) * (255 - da) >= 0) by (nonlinear_arith)
        requires
            sa <= 255,
            da <= 255,
    ;
    lemma_joint_alpha(sa, da);
}

/// Over an opaque pixel a part counts by its opacity and the pixel by the rest:
/// the color of the result is this mean, at most a 256th and one unit below it.
/// Where both have the same color, so has the result but for that.
pub proof fn parts_count_by_their_opacity(dst: Seq<u8>, src: Seq<u8>, blend_type: i32, k: int)
    requires
        dst.len() == 4,
        src.len() == 4,
        dst[3] == 255,
        0 < src[3] < 255,
        blend_type != 1,
        blend_type != 3,
        0 <= k < 3,
    ensures
        ({
            let r = blended(dst, src, blend_type);
            let sum = src[3] * src[k] + (255 - src[3]) * dst[k];
            &&& r[3] == 255
            &&& 256 * r[k] <= sum < 256 * (r[k] + 1) + 1
            &&& r[k] <= if src[k] >= dst[k] {
                src[k]
            } else {
                dst[k]
            }
        }),
{
    let sa = src[3] as int;
    let s = src[k] as int;
    let d = dst[k] as int;
    let sum = sa * s + (255 - sa) * d;
    lemma_floor_is(sa * 255, 255, sa);
    assert(joint_alpha(sa, 255) == 255);
    let big = 255 * sa * s + (255 - sa) * 255 * d;
    assert(big == 255 * sum) by (nonlinear_arith)
        requires
            sum == sa * s + (255 - sa) * d,
            big == 255 * sa * s + (255 - sa) * 255 * d,
    ;
    let q = big / 256;
    let c = q / 255;
    lemma_floor(big, 256);
    lemma_floor(q, 255);
    let top = if s >= d {
        s
    } else {
        d
    };
    assert(0 <= sum <= 255 * top) by (nonlinear_arith)
        requires
            0 <= sa <= 255,
            0 <= s <= top,
            0 <= d <= top,
            sum == sa * s + (255 - sa) * d,
    ;
    assert(c <= top);
    assert(joint_color(s, sa, d, 255, blend_type) == c);
}

/// What is drawn comes to lie where it is drawn: in bytes, row by row and four
/// to a pixel, the pixel in column `px` and row `py` of the result is made of the
/// pixel there before and of the part's pixel in column `px - x` and row
/// `py - y`; where the part has none, it is as before.
pub proof fn parts_lie_where_they_are_drawn(
    dst: ImageView,
    after: ImageView,
    src: ImageView,
    x: int,
    y: int,
    blend_type: i32,
    px: int,
    py: int,
    k: int,
)
    requires
        is_drawn(dst, after, src, x, y, blend_type),
        dst.rgba.len() == dst.width * dst.height * 4,
        src.rgba.len() == src.width * src.height * 4,
        0 <= px < dst.width,
        0 <= py < dst.height,
        0 <= k < 4,
    ensures
        after.rgba.len() == dst.rgba.len(),
        ({
            let at = 4 * (py * dst.width + px);
            let from = 4 * ((py - y) * src.width + (px - x));
            let inside = x <= px < x + src.width && y <= py < y + src.height;
            &&& !inside ==> after.rgba[at + k] == dst.rgba[at + k]
            &&& inside && src.rgba[from + 3] == 0 ==> after.rgba[at + k] == dst.rgba[at + k]
            &&& inside && src.rgba[from + 3] == 255 && blend_type != 1 && blend_type != 3
                ==> after.rgba[at + k] == src.rgba[from + k]
            &&& inside && dst.rgba[at + 3] == 0 && src.rgba[from + 3] != 0 ==> after.rgba[at + k]
                == src.rgba[from + k]
            &&& inside && blend_type == 1 && dst.rgba[at + 3] == 255 && src.rgba[from + 3] == 255
                && k < 3 && src.rgba[from + k] + dst.rgba[at + k] <= 255 ==> after.rgba[at + k]
                == src.rgba[from + k] + dst.rgba[at + k]
        }),
{
    let p = place(dst.width as int, px, py);
    lemma_place(dst.width as int, dst.height as int, px, py);
    assert(pixel_at(after.rgba, p) == drawn_pixel(dst, src, x, y, blend_type, px, py));
    let old_pixel = pixel_at(dst.rgba, p);
    let at = 4 * (py * dst.width + px);
    assert(pixel_at(after.rgba, p)[k] == after.rgba[at + k]);
    assert(old_pixel[k] == dst.rgba[at + k] && old_pixel[3] == dst.rgba[at + 3]);
    if x <= px < x + src.width && y <= py < y + src.height {
        lemma_place(src.width as int, src.height as int, px - x, py - y);
        let from = 4 * ((py - y) * src.width + (px - x));
        let over = pixel_at(src.rgba, place(src.width as int, px - x, py - y));
        assert(over[k] == src.rgba[from + k] && over[3] == src.rgba[from + 3]);
        assert(over.len() == 4 && old_pixel.len() == 4);
        clear_and_opaque_parts_are_plain(old_pixel, over, blend_type);
        if k < 3 && blend_type == 1 && over[3] == 255 && old_pixel[3] == 255 {
            opaque_colors_are_added(old_pixel, over, k);
        }
    }
}

/// An image that is drawn over a base keeps its center `offset` from the base's,
/// as long as the machine's numbers reach.
pub proof fn centers_are_kept_apart_by_the_offset(base_center: i32, own_center: i32, offset: i32)
    requires
        i32::MIN <= offset + base_center <= i32::MAX,
        i32::MIN <= offset + base_center - own_center <= i32::MAX,
    ensures
        centered(base_center, own_center, offset) + own_center == base_center + offset,
{
}

} // verus!
