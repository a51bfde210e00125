//! Grayscale masks for the built-in wipes.
//!
//! A mask is built once when a wipe starts; a pixel turns over when the wipe's
//! progress reaches its tone. Keeping the two apart also keeps shuffled masks
//! from changing while the wipe runs.

use vstd::prelude::*;
use crate::runtime::gray_mask;
use crate::runtime::wipe_both;
use crate::runtime::wipe_both::{
    make_both_direction, make_both_direction_blind, make_both_direction_slice,
    make_both_direction_stripe, make_both_direction_stripe2, make_cross_direction,
    make_cross_direction_blind, make_cross_direction_slice,
};
use crate::runtime::wipe_directions;
use crate::runtime::wipe_directions::{
    make_direction, make_direction_blind, make_direction_block_blind, make_direction_slant,
    make_direction_slice,
};
use crate::runtime::wipe_linear;
use crate::runtime::wipe_linear::{clamp_i32, opt};
use crate::runtime::wipe_patterns;
use crate::runtime::wipe_patterns::{make_dynamic_pattern, pattern_selection};
use crate::runtime::wipe_random;
use crate::runtime::wipe_random::{
    make_random_blocks, make_random_cross, make_random_line, make_random_slant_cross,
    make_random_slant_line,
};
use crate::runtime::wipe_rings;
use crate::runtime::wipe_rings::{make_jyuuji, make_rhombus, make_square, make_television};
use crate::runtime::wipe_tables;

pub use crate::runtime::gray_mask::GrayMask;

verus! {

/// The shapes whose tones are angles about a point.
#[derive(Debug, Clone, Copy, PartialEq, Eq, Structural)]
pub enum AngularShape {
    AroundOne,
    AroundHalf,
    AroundDivide,
    FanCenter,
    FanCorner,
    FanEdge,
}

/// What has to be known to draw a mask by angles.
#[derive(Debug, Clone, Copy, PartialEq, Eq, Structural)]
pub struct AngularRequest {
    pub shape: AngularShape,
    pub width: u32,
    pub height: u32,
    pub reverse: bool,
    /// Start direction, or for `AroundDivide` the exponent of the division.
    pub dir: i32,
    /// For `FanEdge`: 0 if the two fans follow each other, 1 if they mirror.
    pub mode: i32,
    /// Whether the fan's centre lies outside the frame.
    pub distant: bool,
}

/// Side of a small rectangle: 4 to 128 pixels, even where rows are staggered.
pub open spec fn srect_side(side: int, gap: bool) -> int {
    let s = wipe_linear::clamped(side, 4, 128);
    if gap {
        s - s % 2
    } else {
        s
    }
}

/// Tone of a frame covered with a small rectangle. With a gap, every other row
/// of rectangles is moved by half a rectangle.
pub open spec fn srect_tone(
    pw: int,
    ph: int,
    gap: bool,
    base: spec_fn(int, int) -> int,
    x: int,
    y: int,
) -> int {
    let px = x % pw;
    if gap {
        let py = y % (ph * 2);
        if py < ph {
            base(px, py)
        } else if px >= pw / 2 {
            base(px - pw / 2, py - ph)
        } else {
            base(px + pw / 2, py - ph)
        }
    } else {
        base(px, y % ph)
    }
}

/// Whether `wipe_type` is one of the built-in wipes that use a mask.
pub open spec fn is_wipe(wipe_type: int) -> bool {
    ||| wipe_type == 5
    ||| 10 <= wipe_type <= 11
    ||| 20 <= wipe_type <= 22
    ||| 30 <= wipe_type <= 32
    ||| 40 <= wipe_type <= 44
    ||| is_angular(wipe_type)
    ||| 80 <= wipe_type <= 83
    ||| 90 <= wipe_type <= 93
    ||| 100 <= wipe_type <= 102
    ||| 110 <= wipe_type <= 111
    ||| 120 <= wipe_type <= 122
    ||| 130 <= wipe_type <= 132
    ||| 140 <= wipe_type <= 142
    ||| 150 <= wipe_type <= 152
}

/// Whether the machine's numbers suffice for the mask of a wipe. Wipes that
/// repeat a rectangle or take an angular mask ask for the pixels alone. Those
/// that draw lines across the frame, or strips along it, ask for more.
pub open spec fn wipe_fits(wipe_type: int, width: int, height: int) -> bool {
    if !is_wipe(wipe_type) {
        true
    } else if 80 <= wipe_type <= 83 {
        wipe_linear::lines_fit(width, height)
    } else if wipe_type == 102 || wipe_type == 131 || wipe_type == 132 {
        wipe_linear::strips_fit(width, height)
    } else if is_angular(wipe_type) || 10 <= wipe_type <= 32 || 90 <= wipe_type <= 93 || 150
        <= wipe_type {
        gray_mask::size_fits(width, height)
    } else {
        wipe_linear::frame_fits(width, height)
    }
}

/// Whether the wipe's mask, or the rectangle it repeats, is drawn by angles.
pub open spec fn is_angular(wipe_type: int) -> bool {
    60 <= wipe_type <= 79
}

/// The angular shape of the ten wipes that begin at 60, and again at 70.
pub open spec fn angular_shape(k: int) -> AngularShape {
    if k == 0 {
        AngularShape::AroundOne
    } else if k == 1 {
        AngularShape::AroundHalf
    } else if k == 2 {
        AngularShape::AroundDivide
    } else if k == 3 {
        AngularShape::FanCenter
    } else if k == 4 || k == 7 {
        AngularShape::FanCorner
    } else {
        AngularShape::FanEdge
    }
}

/// What an angular wipe asks to be drawn.
pub open spec fn angular_spec(
    wipe_type: int,
    o: Seq<i32>,
    width: u32,
    height: u32,
) -> Option<AngularRequest> {
    if !is_angular(wipe_type) {
        None
    } else if wipe_type < 70 {
        let k = wipe_type - 60;
        Some(
            AngularRequest {
                shape: angular_shape(k),
                width: width,
                height: height,
                reverse: wipe_linear::opt_at(o, if k == 3 { 1 } else { 2 }, 0) != 0,
                dir: if k == 3 { 0 } else { wipe_linear::opt_at(o, 1, 0) as i32 },
                mode: if k == 6 || k == 9 { 1 } else { 0 },
                distant: k >= 7,
            },
        )
    } else {
        let k = wipe_type - 70;
        let gap = wipe_linear::opt_at(o, 3, 0) != 0;
        Some(
            AngularRequest {
                shape: angular_shape(k),
                width: srect_side(wipe_linear::opt_at(o, 1, 64), gap) as u32,
                height: srect_side(wipe_linear::opt_at(o, 2, 64), gap) as u32,
                reverse: wipe_linear::opt_at(o, if k == 3 { 4 } else { 5 }, 0) != 0,
                dir: if k == 3 { 0 } else { wipe_linear::opt_at(o, 4, 0) as i32 },
                mode: if k == 6 || k == 9 { 1 } else { 0 },
                distant: k >= 7,
            },
        )
    }
}

/// Tone of the wipes that turn over the cells of a small pattern.
pub open spec fn cells_tone(wipe_type: int, o: Seq<i32>, x: int, y: int) -> int {
    if wipe_type == 10 {
        wipe_patterns::pattern_tone(
            4,
            wipe_linear::opt_at(o, 1, 1),
            wipe_linear::opt_at(o, 2, 1),
            false,
            wipe_tables::jiwa9_4_order(),
            x,
            y,
        )
    } else if wipe_type == 11 {
        wipe_patterns::pattern_tone(
            4,
            wipe_linear::opt_at(o, 1, 1),
            wipe_linear::opt_at(o, 2, 1),
            false,
            wipe_tables::jiwa7_4_order(),
            x,
            y,
        )
    } else if wipe_type == 20 {
        wipe_patterns::pattern_tone(
            4,
            wipe_linear::opt_at(o, 1, 1),
            wipe_linear::opt_at(o, 2, 1),
            wipe_linear::opt_at(o, 4, 0) != 0,
            wipe_patterns::selected(wipe_tables::turn_around_4_order(), 4, wipe_linear::opt_at(o, 3, 0)),
            x,
            y,
        )
    } else if wipe_type == 21 {
        wipe_patterns::pattern_tone(
            4,
            wipe_linear::opt_at(o, 1, 1),
            wipe_linear::opt_at(o, 2, 1),
            wipe_linear::opt_at(o, 4, 0) != 0,
            wipe_patterns::selected(wipe_tables::turn_ret_4_order(), 4, wipe_linear::opt_at(o, 3, 0)),
            x,
            y,
        )
    } else if wipe_type == 22 {
        wipe_patterns::pattern_tone(
            4,
            wipe_linear::opt_at(o, 1, 1),
            wipe_linear::opt_at(o, 2, 1),
            wipe_linear::opt_at(o, 4, 0) != 0,
            wipe_patterns::selected(wipe_tables::turn_down_4_order(), 4, wipe_linear::opt_at(o, 3, 0)),
            x,
            y,
        )
    } else if wipe_type == 30 {
        wipe_patterns::pattern_tone(
            8,
            wipe_linear::opt_at(o, 1, 1),
            wipe_linear::opt_at(o, 2, 1),
            wipe_linear::opt_at(o, 4, 0) != 0,
            wipe_patterns::selected(wipe_tables::turn_around_8_order(), 8, wipe_linear::opt_at(o, 3, 0)),
            x,
            y,
        )
    } else if wipe_type == 31 {
        wipe_patterns::pattern_tone(
            8,
            wipe_linear::opt_at(o, 1, 1),
            wipe_linear::opt_at(o, 2, 1),
            wipe_linear::opt_at(o, 4, 0) != 0,
            wipe_patterns::selected(wipe_tables::turn_ret_8_order(), 8, wipe_linear::opt_at(o, 3, 0)),
            x,
            y,
        )
    } else {
        wipe_patterns::pattern_tone(
            8,
            wipe_linear::opt_at(o, 1, 1),
            wipe_linear::opt_at(o, 2, 1),
            wipe_linear::opt_at(o, 4, 0) != 0,
            wipe_patterns::selected(wipe_tables::turn_down_8_order(), 8, wipe_linear::opt_at(o, 3, 0)),
            x,
            y,
        )
    }
}

/// Tone of stripes inside the blades of a blind.
pub open spec fn striped_blind_tone(
    w: int,
    h: int,
    dir: int,
    blind_len: int,
    block_len: int,
    x: int,
    y: int,
) -> int {
    let blind = wipe_linear::clamped(blind_len, 2, 128);
    if dir == 0 {
        wipe_both::both_direction_stripe2_tone(w, blind, false, 0, block_len, x, y % blind)
    } else {
        wipe_both::both_direction_stripe2_tone(blind, h, false, 1, block_len, x % blind, y)
    }
}

/// Tone of the rectangle that the wipes 90 to 93 repeat.
pub open spec fn ring_tone(k: int, w: int, h: int, reverse: bool, x: int, y: int) -> int {
    if k == 0 {
        wipe_rings::square_tone(w, h, reverse, x, y)
    } else if k == 1 {
        wipe_rings::rhombus_tone(w, h, reverse, x, y)
    } else if k == 2 {
        wipe_rings::jyuuji_tone(w, h, reverse, x, y)
    } else {
        wipe_rings::television_tone(w, h, reverse, x, y)
    }
}

/// Tone of the rectangle that the wipes 150 to 152 repeat.
pub open spec fn small_cross_tone(k: int, w: int, h: int, o: Seq<i32>, x: int, y: int) -> int {
    if k == 0 {
        wipe_both::cross_direction_tone(w, h, wipe_linear::opt_at(o, 3, 0) != 0, x, y)
    } else if k == 1 {
        wipe_both::cross_direction_slice_tone(
            w,
            h,
            wipe_linear::opt_at(o, 4, 0) != 0,
            wipe_linear::opt_at(o, 3, 16),
            x,
            y,
        )
    } else {
        wipe_both::cross_direction_blind_tone(
            w,
            h,
            wipe_linear::opt_at(o, 4, 0) != 0,
            wipe_linear::opt_at(o, 3, 16),
            x,
            y,
        )
    }
}

/// Tone of pixel `(x, y)` in the mask of a wipe with options `o` over a frame
/// of `w` by `h` pixels. `angular` is the mask that an angular wipe asked for.
pub open spec fn wipe_tone(
    wipe_type: int,
    o: Seq<i32>,
    w: int,
    h: int,
    seed: u32,
    angular: spec_fn(int, int) -> int,
    x: int,
    y: int,
) -> int {
    if 60 <= wipe_type <= 69 {
        angular(x, y)
    } else if 70 <= wipe_type <= 79 {
        let gap = wipe_linear::opt_at(o, 3, 0) != 0;
        srect_tone(
            srect_side(wipe_linear::opt_at(o, 1, 64), gap),
            srect_side(wipe_linear::opt_at(o, 2, 64), gap),
            gap,
            angular,
            x,
            y,
        )
    } else if 90 <= wipe_type <= 93 {
        let gap = wipe_linear::opt_at(o, 3, 0) != 0;
        let pw = srect_side(wipe_linear::opt_at(o, 1, 64), gap);
        let ph = srect_side(wipe_linear::opt_at(o, 2, 64), gap);
        srect_tone(
            pw,
            ph,
            gap,
            |a: int, b: int|
                ring_tone(wipe_type - 90, pw, ph, wipe_linear::opt_at(o, 4, 0) != 0, a, b),
            x,
            y,
        )
    } else if 150 <= wipe_type <= 152 {
        let pw = srect_side(wipe_linear::opt_at(o, 1, 64), false) * 2;
        let ph = srect_side(wipe_linear::opt_at(o, 2, 64), false) * 2;
        small_cross_tone(wipe_type - 150, pw, ph, o, x % pw, y % ph)
    } else if wipe_type == 5 || wipe_type == 101 {
        wipe_directions::direction_slice_tone(
            w,
            h,
            false,
            wipe_linear::opt_at(o, 1, 0),
            wipe_linear::opt_at(o, 2, 16),
            x,
            y,
        )
    } else if 10 <= wipe_type <= 11 || 20 <= wipe_type <= 22 || 30 <= wipe_type <= 32 {
        cells_tone(wipe_type, o, x, y)
    } else if wipe_type == 40 {
        wipe_random::random_blocks_tone(
            w,
            h,
            wipe_linear::opt_at(o, 1, 1),
            wipe_linear::opt_at(o, 2, 1),
            seed,
            x,
            y,
        )
    } else if wipe_type == 41 {
        wipe_random::random_line_tone(
            w,
            h,
            wipe_linear::opt_at(o, 1, 0),
            wipe_linear::opt_at(o, 2, 1),
            seed,
            x,
            y,
        )
    } else if wipe_type == 42 {
        wipe_random::random_slant_line_tone(
            w,
            h,
            wipe_linear::opt_at(o, 1, 0),
            wipe_linear::opt_at(o, 2, 1),
            seed,
            x,
            y,
        )
    } else if wipe_type == 43 {
        wipe_random::random_cross_tone(
            w,
            h,
            wipe_linear::opt_at(o, 1, 1),
            wipe_linear::opt_at(o, 2, 1),
            seed,
            x,
            y,
        )
    } else if wipe_type == 44 {
        wipe_random::random_slant_cross_tone(w, h, wipe_linear::opt_at(o, 1, 1), seed, x, y)
    } else if wipe_type == 80 {
        wipe_rings::square_tone(w, h, wipe_linear::opt_at(o, 1, 0) != 0, x, y)
    } else if wipe_type == 81 {
        wipe_rings::rhombus_tone(w, h, wipe_linear::opt_at(o, 1, 0) != 0, x, y)
    } else if wipe_type == 82 {
        wipe_rings::jyuuji_tone(w, h, wipe_linear::opt_at(o, 1, 0) != 0, x, y)
    } else if wipe_type == 83 {
        wipe_rings::television_tone(w, h, wipe_linear::opt_at(o, 1, 0) != 0, x, y)
    } else if wipe_type == 100 {
        wipe_directions::direction_tone(w, h, false, wipe_linear::opt_at(o, 1, 0), x, y)
    } else if wipe_type == 102 {
        wipe_directions::direction_blind_tone(
            w,
            h,
            false,
            wipe_linear::opt_at(o, 1, 0),
            wipe_linear::opt_at(o, 2, 16),
            x,
            y,
        )
    } else if wipe_type == 110 {
        wipe_directions::direction_slant_tone(w, h, false, wipe_linear::opt_at(o, 1, 0), x, y)
    } else if wipe_type == 111 {
        wipe_directions::direction_block_blind_tone(
            false,
            wipe_linear::opt_at(o, 1, 0),
            wipe_linear::opt_at(o, 2, 16),
            wipe_linear::opt_at(o, 3, 16),
            x,
            y,
        )
    } else if wipe_type == 120 {
        wipe_both::both_direction_tone(
            w,
            h,
            wipe_linear::opt_at(o, 2, 0) != 0,
            wipe_linear::opt_at(o, 1, 0),
            x,
            y,
        )
    } else if wipe_type == 121 {
        wipe_both::both_direction_slice_tone(
            w,
            h,
            wipe_linear::opt_at(o, 3, 0) != 0,
            wipe_linear::opt_at(o, 1, 0),
            wipe_linear::opt_at(o, 2, 16),
            x,
            y,
        )
    } else if wipe_type == 122 {
        wipe_both::both_direction_blind_tone(
            w,
            h,
            wipe_linear::opt_at(o, 3, 0) != 0,
            wipe_linear::opt_at(o, 1, 0),
            wipe_linear::opt_at(o, 2, 16),
            x,
            y,
        )
    } else if wipe_type == 130 {
        wipe_both::both_direction_stripe_tone(
            w,
            h,
            false,
            wipe_linear::opt_at(o, 1, 0),
            wipe_linear::opt_at(o, 2, 16),
            x,
            y,
        )
    } else if wipe_type == 131 {
        wipe_both::both_direction_stripe2_tone(
            w,
            h,
            false,
            wipe_linear::opt_at(o, 1, 0),
            wipe_linear::opt_at(o, 2, 16),
            x,
            y,
        )
    } else if wipe_type == 132 {
        striped_blind_tone(
            w,
            h,
            wipe_linear::opt_at(o, 1, 0),
            wipe_linear::opt_at(o, 2, 16),
            wipe_linear::opt_at(o, 3, 16),
            x,
            y,
        )
    } else if wipe_type == 140 {
        wipe_both::cross_direction_tone(w, h, wipe_linear::opt_at(o, 1, 0) != 0, x, y)
    } else if wipe_type == 141 {
        wipe_both::cross_direction_slice_tone(
            w,
            h,
            wipe_linear::opt_at(o, 2, 0) != 0,
            wipe_linear::opt_at(o, 1, 16),
            x,
            y,
        )
    } else if wipe_type == 142 {
        wipe_both::cross_direction_blind_tone(
            w,
            h,
            wipe_linear::opt_at(o, 2, 0) != 0,
            wipe_linear::opt_at(o, 1, 16),
            x,
            y,
        )
    } else {
        0
    }
}

/// A frame covered with a rectangle that shows `image` shows `image` repeated.
proof fn lemma_srect_image(
    out: &GrayMask,
    base: &GrayMask,
    gap: bool,
    image: spec_fn(int, int) -> int,
)
    requires
        base.wf(),
        base.shows(image),
        out.shows(
            |x: int, y: int|
                srect_tone(
                    base.width as int,
                    base.height as int,
                    gap,
                    |a: int, b: int| base.at(a, b) as int,
                    x,
                    y,
                ),
        ),
        gap ==> base.width as int % 2 == 0,
    ensures
        out.shows(
            |x: int, y: int|
                srect_tone(base.width as int, base.height as int, gap, image, x, y),
        ),
{
    let (pw, ph) = (base.width as int, base.height as int);
    let own = |a: int, b: int| base.at(a, b) as int;
    assert forall|x: int, y: int|
        #![trigger out.at(x, y)]
        out.contains(x, y) implies out.at(x, y) == srect_tone(pw, ph, gap, image, x, y) by {
        assert(out.at(x, y) == srect_tone(pw, ph, gap, own, x, y));
        let px = x % pw;
        if gap {
            let py = y % (ph * 2);
            if py < ph {
                assert(base.contains(px, py));
            } else if px >= pw / 2 {
                assert(base.contains(px - pw / 2, py - ph));
            } else {
                assert(base.contains(px + pw / 2, py - ph));
            }
        } else {
            assert(base.contains(px, y % ph));
        }
    }
}

/// The masks that turn over the cells of a small pattern.
fn make_cells(wipe_type: i32, option: &[i32], width: u32, height: u32) -> (out: GrayMask)
    requires
        gray_mask::size_fits(width as int, height as int),
        10 <= wipe_type <= 11 || 20 <= wipe_type <= 22 || 30 <= wipe_type <= 32,
    ensures
        out.sized(width as int, height as int),
        out.shows(|x: int, y: int| cells_tone(wipe_type as int, option@, x, y)),
{
    if wipe_type == 10 {
        make_dynamic_pattern(
            width,
            height,
            4,
            opt(option, 1, 1),
            opt(option, 2, 1),
            false,
            &wipe_tables::jiwa9_4(),
        )
    } else if wipe_type == 11 {
        make_dynamic_pattern(
            width,
            height,
            4,
            opt(option, 1, 1),
            opt(option, 2, 1),
            false,
            &wipe_tables::jiwa7_4(),
        )
    } else if wipe_type == 20 {
        make_dynamic_pattern(
            width,
            height,
            4,
            opt(option, 1, 1),
            opt(option, 2, 1),
            opt(option, 4, 0) != 0,
            pattern_selection(&wipe_tables::turn_around_4(), 4, opt(option, 3, 0)),
        )
    } else if wipe_type == 21 {
        make_dynamic_pattern(
            width,
            height,
            4,
            opt(option, 1, 1),
            opt(option, 2, 1),
            opt(option, 4, 0) != 0,
            pattern_selection(&wipe_tables::turn_ret_4(), 4, opt(option, 3, 0)),
        )
    } else if wipe_type == 22 {
        make_dynamic_pattern(
            width,
            height,
            4,
            opt(option, 1, 1),
            opt(option, 2, 1),
            opt(option, 4, 0) != 0,
            pattern_selection(&wipe_tables::turn_down_4(), 4, opt(option, 3, 0)),
        )
    } else if wipe_type == 30 {
        make_dynamic_pattern(
            width,
            height,
            8,
            opt(option, 1, 1),
            opt(option, 2, 1),
            opt(option, 4, 0) != 0,
            pattern_selection(&wipe_tables::turn_around_8(), 8, opt(option, 3, 0)),
        )
    } else if wipe_type == 31 {
        make_dynamic_pattern(
            width,
            height,
            8,
            opt(option, 1, 1),
            opt(option, 2, 1),
            opt(option, 4, 0) != 0,
            pattern_selection(&wipe_tables::turn_ret_8(), 8, opt(option, 3, 0)),
        )
    } else {
        make_dynamic_pattern(
            width,
            height,
            8,
            opt(option, 1, 1),
            opt(option, 2, 1),
            opt(option, 4, 0) != 0,
            pattern_selection(&wipe_tables::turn_down_8(), 8, opt(option, 3, 0)),
        )
    }
}

pub fn gray_from_palette(index: i32, reverse: bool) -> (gray: u8)
    ensures
        gray == gray_mask::tone(255 - wipe_linear::clamped(index as int, 0, 255), reverse),
{
    let gray: u8 = (255 - clamp_i32(index, 0, 255)) as u8;
    if reverse {
        255 - gray
    } else {
        gray
    }
}

/// The mask with which every other row of rectangles is moved by half of one.
pub fn with_gap(base: &GrayMask) -> (out: GrayMask)
    requires
        base.wf(),
        base.width <= 128,
        base.height <= 128,
    ensures
        out.sized(base.width as int, base.height * 2),
        out.shows(
            |x: int, y: int|
                if y < base.height {
                    base.at(x, y) as int
                } else if x >= base.width as int / 2 {
                    base.at(x - base.width as int / 2, y - base.height) as int
                } else {
                    base.at(x + base.width as int / 2, y - base.height) as int
                },
        ),
{
    let pw: i32 = base.width as i32;
    let ph: i32 = base.height as i32;
    proof {
        let (w, h) = (base.width as int, base.height as int);
        assert(1 <= w * (h * 2) <= 128 * 256) by (nonlinear_arith)
            requires
                1 <= w <= 128,
                1 <= h <= 128,
        ;
    }
    let mut out = GrayMask::new(base.width, base.height * 2);
    out.copy_from(base, 0, 0);
    out.copy_from(base, -(pw / 2), ph);
    out.copy_from(base, pw / 2, ph);
    out
}

pub fn prepare_srect(pat_w: i32, pat_h: i32, gap: bool) -> (r: (u32, u32))
    ensures
        r.0 == srect_side(pat_w as int, gap),
        r.1 == srect_side(pat_h as int, gap),
        4 <= r.0 <= 128,
        4 <= r.1 <= 128,
{
    let w: i32 = clamp_i32(pat_w, 4, 128);
    let h: i32 = clamp_i32(pat_h, 4, 128);
    if gap {
        ((w - w % 2) as u32, (h - h % 2) as u32)
    } else {
        (w as u32, h as u32)
    }
}

/// Covers the frame with a small rectangle.
pub fn make_srect(width: u32, height: u32, base: &GrayMask, gap: bool) -> (out: GrayMask)
    requires
        gray_mask::size_fits(width as int, height as int),
        base.wf(),
        base.width <= 128,
        base.height <= 128,
    ensures
        out.sized(width as int, height as int),
        out.shows(
            |x: int, y: int|
                srect_tone(
                    base.width as int,
                    base.height as int,
                    gap,
                    |a: int, b: int| base.at(a, b) as int,
                    x,
                    y,
                ),
        ),
{
    if gap {
        let pattern = with_gap(base);
        let out = pattern.tiled_to(width, height);
        proof {
            let image = |a: int, b: int| base.at(a, b) as int;
            assert forall|x: int, y: int|
                #![trigger out.at(x, y)]
                out.contains(x, y) implies out.at(x, y) == srect_tone(
                base.width as int,
                base.height as int,
                gap,
                image,
                x,
                y,
            ) by {
                assert(pattern.contains(
                    x % (pattern.width as int),
                    y % (pattern.height as int),
                ));
            }
        }
        out
    } else {
        base.tiled_to(width, height)
    }
}

/// What has to be drawn by angles before the mask of an angular wipe can be
/// generated.
pub fn angular_request(wipe_type: i32, option: &[i32], width: u32, height: u32) -> (r: Option<
    AngularRequest,
>)
    ensures
        r == angular_spec(
            wipe_type as int,
            option@,
            if width == 0 { 1 } else { width },
            if height == 0 { 1 } else { height },
        ),
{
    let width: u32 = if width == 0 { 1 } else { width };
    let height: u32 = if height == 0 { 1 } else { height };
    if wipe_type < 60 || wipe_type > 79 {
        return None;
    }
    let k: i32 = if wipe_type < 70 { wipe_type - 60 } else { wipe_type - 70 };
    let shape = if k == 0 {
        AngularShape::AroundOne
    } else if k == 1 {
        AngularShape::AroundHalf
    } else if k == 2 {
        AngularShape::AroundDivide
    } else if k == 3 {
        AngularShape::FanCenter
    } else if k == 4 || k == 7 {
        AngularShape::FanCorner
    } else {
        AngularShape::FanEdge
    };
    let mode: i32 = if k == 6 || k == 9 { 1 } else { 0 };
    let distant: bool = k >= 7;
    if wipe_type < 70 {
        let reverse: bool = opt(option, if k == 3 { 1 } else { 2 }, 0) != 0;
        let dir: i32 = if k == 3 { 0 } else { opt(option, 1, 0) };
        Some(AngularRequest { shape, width, height, reverse, dir, mode, distant })
    } else {
        let gap: bool = opt(option, 3, 0) != 0;
        let (pw, ph) = prepare_srect(opt(option, 1, 64), opt(option, 2, 64), gap);
        let reverse: bool = opt(option, if k == 3 { 4 } else { 5 }, 0) != 0;
        let dir: i32 = if k == 3 { 0 } else { opt(option, 4, 0) };
        Some(AngularRequest { shape, width: pw, height: ph, reverse, dir, mode, distant })
    }
}

fn make_striped_blind(
    width: u32,
    height: u32,
    dir: i32,
    blind_len: i32,
    block_len: i32,
) -> (out: GrayMask)
    requires
        wipe_linear::strips_fit(width as int, height as int),
    ensures
        out.sized(width as int, height as int),
        out.shows(
            |x: int, y: int|
                striped_blind_tone(
                    width as int,
                    height as int,
                    dir as int,
                    blind_len as int,
                    block_len as int,
                    x,
                    y,
                ),
        ),
{
    let blind: u32 = clamp_i32(blind_len, 2, 128) as u32;
    proof {
        wipe_linear::lemma_frame_strip(width as int, height as int, blind as int);
    }
    if dir == 0 {
        make_both_direction_stripe2(width, blind, false, 0, block_len).tiled_to(width, height)
    } else {
        make_both_direction_stripe2(blind, height, false, 1, block_len).tiled_to(width, height)
    }
}

/// The rectangle that the wipes 90 to 93 repeat.
fn make_ring(k: i32, width: u32, height: u32, reverse: bool) -> (out: GrayMask)
    requires
        wipe_linear::lines_fit(width as int, height as int),
    ensures
        out.sized(width as int, height as int),
        out.shows(|x: int, y: int| ring_tone(k as int, width as int, height as int, reverse, x, y)),
{
    if k == 0 {
        make_square(width, height, reverse)
    } else if k == 1 {
        make_rhombus(width, height, reverse)
    } else if k == 2 {
        make_jyuuji(width, height, reverse)
    } else {
        make_television(width, height, reverse)
    }
}

fn make_small_cross(k: i32, option: &[i32], width: u32, height: u32) -> (out: GrayMask)
    requires
        gray_mask::size_fits(width as int, height as int),
    ensures
        out.sized(width as int, height as int),
        out.shows(
            |x: int, y: int|
                {
                    let pw = srect_side(wipe_linear::opt_at(option@, 1, 64), false) * 2;
                    let ph = srect_side(wipe_linear::opt_at(option@, 2, 64), false) * 2;
                    small_cross_tone(k as int, pw, ph, option@, x % pw, y % ph)
                },
        ),
{
    let (pw, ph) = prepare_srect(opt(option, 1, 64), opt(option, 2, 64), false);
    let w: u32 = pw * 2;
    let h: u32 = ph * 2;
    proof {
        assert(1 <= w * h <= 256 * 256) by (nonlinear_arith)
            requires
                1 <= w <= 256,
                1 <= h <= 256,
        ;
    }
    let pattern = if k == 0 {
        make_cross_direction(w, h, opt(option, 3, 0) != 0)
    } else if k == 1 {
        make_cross_direction_slice(w, h, opt(option, 4, 0) != 0, opt(option, 3, 16))
    } else {
        make_cross_direction_blind(w, h, opt(option, 4, 0) != 0, opt(option, 3, 16))
    };
    let out = pattern.tiled_to(width, height);
    proof {
        assert forall|x: int, y: int|
            #![trigger out.at(x, y)]
            out.contains(x, y) implies pattern.contains(x % (w as int), y % (h as int)) by {}
    }
    out
}

/// Whether the machine's numbers suffice for the mask of a wipe.
pub fn can_generate(wipe_type: i32, width: u32, height: u32) -> (r: bool)
    ensures
        r == wipe_fits(
            wipe_type as int,
            gray_mask::larger(width as int, 1),
            gray_mask::larger(height as int, 1),
        ),
{
    let w: u64 = if width == 0 { 1 } else { width as u64 };
    let h: u64 = if height == 0 { 1 } else { height as u64 };
    if !(wipe_type == 5 || (10 <= wipe_type && wipe_type <= 11) || (20 <= wipe_type && wipe_type
        <= 22) || (30 <= wipe_type && wipe_type <= 32) || (40 <= wipe_type && wipe_type <= 44) || (
    60 <= wipe_type && wipe_type <= 83) || (90 <= wipe_type && wipe_type <= 93) || (100 <= wipe_type
        && wipe_type <= 102) || (110 <= wipe_type && wipe_type <= 111) || (120 <= wipe_type
        && wipe_type <= 122) || (130 <= wipe_type && wipe_type <= 132) || (140 <= wipe_type
        && wipe_type <= 142) || (150 <= wipe_type && wipe_type <= 152)) {
        return true;
    }
    proof {
        assert(w * h <= 0xffff_ffff * 0xffff_ffff) by (nonlinear_arith)
            requires
                0 <= w <= 0xffff_ffff,
                0 <= h <= 0xffff_ffff,
        ;
    }
    if w * h > 0x7fff_ffff {
        return false;
    }
    if 80 <= wipe_type && wipe_type <= 83 {
        w <= 0x3fff_ffff && h <= 0x3fff_ffff
    } else if wipe_type == 102 || wipe_type == 131 || wipe_type == 132 {
        w * 256 <= 0x7fff_ffff && h * 256 <= 0x7fff_ffff
    } else if (60 <= wipe_type && wipe_type <= 79) || (10 <= wipe_type && wipe_type <= 32) || (90
        <= wipe_type && wipe_type <= 93) || 150 <= wipe_type {
        true
    } else {
        w <= 0x7fff_feff && h <= 0x7fff_feff
    }
}

/// The mask of a wipe, or `None` where the wipe uses none.
///
/// `angular` is the mask that `angular_request` asks for, and is not looked at
/// where it asks for none.
pub fn generate(
    wipe_type: i32,
    option: &[i32],
    width: u32,
    height: u32,
    random_seed: u32,
    angular: Option<GrayMask>,
) -> (r: Option<GrayMask>)
    requires
        wipe_fits(
            wipe_type as int,
            gray_mask::larger(width as int, 1),
            gray_mask::larger(height as int, 1),
        ),
        angular_spec(
            wipe_type as int,
            option@,
            if width == 0 { 1 } else { width },
            if height == 0 { 1 } else { height },
        ) matches Some(request) ==> {
            &&& angular is Some
            &&& angular->0.sized(request.width as int, request.height as int)
        },
    ensures
        r is Some <==> is_wipe(wipe_type as int),
        r matches Some(mask) ==> {
            &&& mask.sized(gray_mask::larger(width as int, 1), gray_mask::larger(height as int, 1))
            &&& mask.shows(
                |x: int, y: int|
                    wipe_tone(
                        wipe_type as int,
                        option@,
                        gray_mask::larger(width as int, 1),
                        gray_mask::larger(height as int, 1),
                        random_seed,
                        |a: int, b: int| angular->0.at(a, b) as int,
                        x,
                        y,
                    ),
            )
        },
{
    let width: u32 = if width == 0 { 1 } else { width };
    let height: u32 = if height == 0 { 1 } else { height };
    if 60 <= wipe_type && wipe_type <= 69 {
        return angular;
    }
    if 70 <= wipe_type && wipe_type <= 79 {
        let gap: bool = opt(option, 3, 0) != 0;
        return match angular {
            Some(base) => Some(make_srect(width, height, &base, gap)),
            None => None,
        };
    }
    if 90 <= wipe_type && wipe_type <= 93 {
        let gap: bool = opt(option, 3, 0) != 0;
        let (pw, ph) = prepare_srect(opt(option, 1, 64), opt(option, 2, 64), gap);
        proof {
            assert(1 <= pw * ph <= 128 * 128) by (nonlinear_arith)
                requires
                    1 <= pw <= 128,
                    1 <= ph <= 128,
            ;
        }
        let base = make_ring(wipe_type - 90, pw, ph, opt(option, 4, 0) != 0);
        let out = make_srect(width, height, &base, gap);
        proof {
            lemma_srect_image(
                &out,
                &base,
                gap,
                |a: int, b: int|
                    ring_tone(
                        wipe_type - 90,
                        pw as int,
                        ph as int,
                        wipe_linear::opt_at(option@, 4, 0) != 0,
                        a,
                        b,
                    ),
            );
        }
        return Some(out);
    }
    if 150 <= wipe_type && wipe_type <= 152 {
        return Some(make_small_cross(wipe_type - 150, option, width, height));
    }
    let mask = if wipe_type == 5 || wipe_type == 101 {
        make_direction_slice(width, height, false, opt(option, 1, 0), opt(option, 2, 16))
    } else if (10 <= wipe_type && wipe_type <= 11) || (20 <= wipe_type && wipe_type <= 22) || (30 <= wipe_type && wipe_type <= 32) {
        make_cells(wipe_type, option, width, height)
    } else if wipe_type == 40 {
        make_random_blocks(width, height, opt(option, 1, 1), opt(option, 2, 1), random_seed)
    } else if wipe_type == 41 {
        make_random_line(width, height, opt(option, 1, 0), opt(option, 2, 1), random_seed)
    } else if wipe_type == 42 {
        make_random_slant_line(width, height, opt(option, 1, 0), opt(option, 2, 1), random_seed)
    } else if wipe_type == 43 {
        make_random_cross(width, height, opt(option, 1, 1), opt(option, 2, 1), random_seed)
    } else if wipe_type == 44 {
        make_random_slant_cross(width, height, opt(option, 1, 1), random_seed)
    } else if wipe_type == 80 {
        make_square(width, height, opt(option, 1, 0) != 0)
    } else if wipe_type == 81 {
        make_rhombus(width, height, opt(option, 1, 0) != 0)
    } else if wipe_type == 82 {
        make_jyuuji(width, height, opt(option, 1, 0) != 0)
    } else if wipe_type == 83 {
        make_television(width, height, opt(option, 1, 0) != 0)
    } else if wipe_type == 100 {
        make_direction(width, height, false, opt(option, 1, 0))
    } else if wipe_type == 102 {
        make_direction_blind(width, height, false, opt(option, 1, 0), opt(option, 2, 16))
    } else if wipe_type == 110 {
        make_direction_slant(width, height, false, opt(option, 1, 0))
    } else if wipe_type == 111 {
        make_direction_block_blind(
            width,
            height,
            false,
            opt(option, 1, 0),
            opt(option, 2, 16),
            opt(option, 3, 16),
        )
    } else if wipe_type == 120 {
        make_both_direction(width, height, opt(option, 2, 0) != 0, opt(option, 1, 0))
    } else if wipe_type == 121 {
        make_both_direction_slice(
            width,
            height,
            opt(option, 3, 0) != 0,
            opt(option, 1, 0),
            opt(option, 2, 16),
        )
    } else if wipe_type == 122 {
        make_both_direction_blind(
            width,
            height,
            opt(option, 3, 0) != 0,
            opt(option, 1, 0),
            opt(option, 2, 16),
        )
    } else if wipe_type == 130 {
        make_both_direction_stripe(width, height, false, opt(option, 1, 0), opt(option, 2, 16))
    } else if wipe_type == 131 {
        make_both_direction_stripe2(width, height, false, opt(option, 1, 0), opt(option, 2, 16))
    } else if wipe_type == 132 {
        make_striped_blind(width, height, opt(option, 1, 0), opt(option, 2, 16), opt(option, 3, 16))
    } else if wipe_type == 140 {
        make_cross_direction(width, height, opt(option, 1, 0) != 0)
    } else if wipe_type == 141 {
        make_cross_direction_slice(width, height, opt(option, 2, 0) != 0, opt(option, 1, 16))
    } else if wipe_type == 142 {
        make_cross_direction_blind(width, height, opt(option, 2, 0) != 0, opt(option, 1, 16))
    } else {
        return None;
    };
    Some(mask)
}

} // verus!
