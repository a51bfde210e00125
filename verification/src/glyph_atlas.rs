//! Atlases of ready-drawn characters.
//!
//! Some games draw text from files with one picture per character. A file
//! `_moji_<face><size>_<row>` holds the characters of one row, so the picture
//! `n` of row `r` shows the character `r * row_width + n`. Characters that the
//! face never had are empty pictures. Here the geometry of an atlas is
//! measured, and a character from another face is painted in the same way.

use vstd::prelude::*;
use vstd::slice::slice_subrange;
use crate::assets::{ImageView, RgbaImage};
use crate::number_text;
use crate::number_text::read_digits;
use crate::text;
use crate::text::{chars_of, same_text};
use crate::text_parts;
use crate::text_parts::{find_last_char, same_chars_ignoring_case, trim};

verus! {

/// From this coverage on, a pixel counts as the body of a character.
pub const BODY_COVERAGE: u8 = 8;

/// The outline that is used where an atlas shows none.
pub const DEFAULT_OUTLINE_PX: i32 = 3;

/// The widest outline that is taken from an atlas.
pub const MAX_OUTLINE_PX: i32 = 6;

/// How far from the body an outline is looked for.
pub const OUTLINE_SEARCH_PX: i32 = 8;

/// What the pictures of an atlas have in common.
#[derive(Debug, Clone, Copy, PartialEq, Eq, Structural)]
pub struct AtlasTemplate {
    pub width: u32,
    pub height: u32,
    /// The height of a full-size character, in pixels.
    pub ink_px: i32,
    /// How wide the white outline round a character is.
    pub outline_px: i32,
}

/// A character as a face draws it: how much of each pixel it covers.
#[derive(Debug)]
pub struct RasterGlyph {
    pub width: usize,
    pub height: usize,
    pub bitmap: Vec<u8>,
}

impl RasterGlyph {
    pub open spec fn wf(&self) -> bool {
        &&& self.bitmap@.len() == self.width * self.height
        &&& self.width <= i32::MAX
        &&& self.height <= i32::MAX
    }
}

/// The row that the stem of a file names.
pub open spec fn row_of(stem: Seq<char>) -> Option<int> {
    if stem.len() < 6 || text::lower(stem.take(6)) != text::lower("_moji_"@) {
        None
    } else {
        let rest = stem.skip(6);
        match text_parts::last_of(rest, '_') {
            None => None,
            Some(k) => {
                let row = rest.skip(k + 1);
                if row.len() == 4 && number_text::all_digits(row) {
                    Some(number_text::digits_value(row))
                } else {
                    None
                }
            },
        }
    }
}

/// The row that the stem of a file names.
pub fn row_from_stem(stem: &str) -> (r: Option<u32>)
    ensures
        match r {
            Some(row) => row_of(stem@) == Some(row as int),
            None => row_of(stem@) is None,
        },
{
    let chars = chars_of(stem);
    if chars.len() < 6 {
        return None;
    }
    let prefix = chars_of("_moji_");
    let head = slice_subrange(chars.as_slice(), 0, 6);
    proof {
        assert(head@ =~= stem@.take(6));
    }
    if !same_chars_ignoring_case(head, prefix.as_slice()) {
        return None;
    }
    let rest = slice_subrange(chars.as_slice(), 6, chars.len());
    proof {
        assert(rest@ =~= stem@.skip(6));
    }
    match find_last_char(rest, '_') {
        None => None,
        Some(k) => {
            let row = slice_subrange(rest, k + 1, rest.len());
            proof {
                assert(row@ =~= rest@.skip(k + 1));
            }
            if row.len() != 4 {
                return None;
            }
            proof {
                if number_text::all_digits(row@) {
                    lemma_four_digits(row@);
                }
            }
            match read_digits(row) {
                Some(v) => Some(v as u32),
                None => None,
            }
        },
    }
}

proof fn lemma_four_digits(s: Seq<char>)
    requires
        s.len() == 4,
        number_text::all_digits(s),
    ensures
        0 <= number_text::digits_value(s) <= 9999,
{
    reveal_with_fuel(number_text::digits_value, 5);
    assert(number_text::is_digit(s[0]));
    assert(number_text::is_digit(s[1]));
    assert(number_text::is_digit(s[2]));
    assert(number_text::is_digit(s[3]));
    let a = s.drop_last();
    let b = a.drop_last();
    let c = b.drop_last();
    assert(a.last() == s[2]);
    assert(b.last() == s[1]);
    assert(c.last() == s[0]);
    assert(c.drop_last().len() == 0);
}

/// An empty picture: a single pixel of zeros.
pub open spec fn empty_cut(img: ImageView) -> bool {
    img.width == 1 && img.height == 1 && forall|i: int| 0 <= i < img.rgba.len() ==> img.rgba[i] == 0
}

/// Whether a picture is empty.
pub fn is_empty_cut(img: &RgbaImage) -> (r: bool)
    ensures
        r == empty_cut(img@),
{
    if img.width != 1 || img.height != 1 {
        return false;
    }
    let mut i: usize = 0;
    while i < img.rgba.len()
        invariant
            i <= img.rgba@.len(),
            forall|k: int| 0 <= k < i ==> img.rgba@[k] == 0,
        decreases img.rgba@.len() - i,
    {
        if img.rgba[i] != 0 {
            proof {
                assert(img@.rgba[i as int] != 0);
            }
            return false;
        }
        i = i + 1;
    }
    true
}

/// The control characters.
pub open spec fn is_control(c: char) -> bool {
    c <= '\u{1F}' || '\u{7F}' <= c <= '\u{9F}'
}

/// The character that an atlas keeps at `index` of `row`.
pub open spec fn character_at(row: int, index: int, row_width: int) -> Option<char> {
    let code = row * row_width + index;
    if row_width == 0 || code > u32::MAX || !vstd::utf8::is_scalar(code as u32) || is_control(
        code as u32 as char,
    ) {
        None
    } else {
        Some(code as u32 as char)
    }
}

/// The character that an atlas keeps at `index` of `row`.
pub fn character(row: u32, index: usize, row_width: usize) -> (r: Option<char>)
    ensures
        r == character_at(row as int, index as int, row_width as int),
{
    if row_width == 0 {
        return None;
    }
    proof {
        assert(0 <= row * row_width <= 0xffff_ffff * 0xffff_ffff_ffff_ffff) by (nonlinear_arith)
            requires
                0 <= row <= 0xffff_ffff,
                0 <= row_width <= 0xffff_ffff_ffff_ffff,
        ;
    }
    let code: u128 = row as u128 * row_width as u128 + index as u128;
    if code > 0xffff_ffff {
        return None;
    }
    match char::from_u32(code as u32) {
        None => None,
        Some(c) => if c <= '\u{1F}' || ('\u{7F}' <= c && c <= '\u{9F}') {
            None
        } else {
            Some(c)
        },
    }
}

/// Whether missing characters are painted: always, unless a setting says no.
pub open spec fn is_enabled(setting: Option<Seq<char>>) -> bool {
    match setting {
        None => true,
        Some(raw) => {
            let s = text_parts::trimmed(raw);
            s != "0"@ && s != "false"@ && s != "off"@ && s != "no"@
        },
    }
}

/// Whether missing characters are painted.
pub fn enabled(setting: Option<&str>) -> (r: bool)
    ensures
        r == is_enabled(
            match setting {
                Some(raw) => Some(raw@),
                None => None,
            },
        ),
{
    match setting {
        None => true,
        Some(raw) => {
            let t = trim(raw);
            let s = t.as_str();
            !(same_text(s, "0") || same_text(s, "false") || same_text(s, "off") || same_text(
                s,
                "no",
            ))
        },
    }
}

/// A box of pixels: left, top, right and bottom, the last two outside.
pub type InkBox = (i32, i32, i32, i32);

/// Whether the pixel in column `x` and row `y` is marked.
pub open spec fn marked(mask: Seq<bool>, width: int, x: int, y: int) -> bool {
    mask[y * width + x]
}

/// Whether a pixel lies in an image.
pub open spec fn in_image(width: int, height: int, x: int, y: int) -> bool {
    0 <= x < width && 0 <= y < height
}

/// Whether `b` is the smallest box round the marked pixels.
pub open spec fn is_box(mask: Seq<bool>, width: int, height: int, b: InkBox) -> bool {
    &&& forall|x: int, y: int|
        in_image(width, height, x, y) && #[trigger] marked(mask, width, x, y) ==> b.0 <= x < b.2
            && b.1 <= y < b.3
    &&& exists|x: int, y: int|
        in_image(width, height, x, y) && #[trigger] marked(mask, width, x, y) && x == b.0
    &&& exists|x: int, y: int|
        in_image(width, height, x, y) && #[trigger] marked(mask, width, x, y) && y == b.1
    &&& exists|x: int, y: int|
        in_image(width, height, x, y) && #[trigger] marked(mask, width, x, y) && x + 1 == b.2
    &&& exists|x: int, y: int|
        in_image(width, height, x, y) && #[trigger] marked(mask, width, x, y) && y + 1 == b.3
}

/// Whether no pixel is marked.
pub open spec fn none_marked(mask: Seq<bool>, width: int, height: int) -> bool {
    forall|x: int, y: int|
        in_image(width, height, x, y) ==> !#[trigger] marked(mask, width, x, y)
}

proof fn lemma_index(width: int, height: int, x: int, y: int)
    requires
        in_image(width, height, x, y),
    ensures
        0 <= y * width + x < width * height,
        0 <= y * width <= width * height,
{
    assert(0 <= y * width) by (nonlinear_arith)
        requires
            0 <= y,
            0 < width,
    ;
    assert((y + 1) * width <= height * width) by (nonlinear_arith)
        requires
            y + 1 <= height,
            0 < width,
    ;
    assert((y + 1) * width == y * width + width) by (nonlinear_arith);
    assert(height * width == width * height) by (nonlinear_arith);
}

proof fn lemma_index_inverse(width: int, x: int, y: int)
    requires
        0 <= x < width,
        0 <= y,
    ensures
        (y * width + x) / width == y,
        (y * width + x) % width == x,
{
    vstd::arithmetic::div_mod::lemma_fundamental_div_mod_converse(y * width + x, width, y, x);
}

proof fn lemma_index_split(width: int, height: int, p: int)
    requires
        0 < width,
        0 <= p < width * height,
    ensures
        in_image(width, height, p % width, p / width),
        (p / width) * width + p % width == p,
{
    vstd::arithmetic::div_mod::lemma_fundamental_div_mod(p, width);
    assert(width * (p / width) == (p / width) * width) by (nonlinear_arith);
    assert(0 <= p / width) by {
        vstd::arithmetic::div_mod::lemma_div_pos_is_pos(p, width);
    }
    assert(p / width < height) by {
        if p / width >= height {
            assert((p / width) * width >= height * width) by (nonlinear_arith)
                requires
                    p / width >= height,
                    0 < width,
            ;
            assert(height * width == width * height) by (nonlinear_arith);
        }
    }
}

/// The smallest box round the marked pixels.
fn blit_bbox(mask: &Vec<bool>, width: usize, height: usize) -> (r: Option<InkBox>)
    requires
        mask@.len() == width * height,
        width <= i32::MAX,
        height <= i32::MAX,
    ensures
        match r {
            Some(b) => is_box(mask@, width as int, height as int, b),
            None => none_marked(mask@, width as int, height as int),
        },
{
    let ghost w = width as int;
    let ghost h = height as int;
    let mut found: Option<InkBox> = None;
    let mut p: usize = 0;
    let ghost mut a: (int, int) = (0, 0);
    let ghost mut b: (int, int) = (0, 0);
    let ghost mut c: (int, int) = (0, 0);
    let ghost mut d: (int, int) = (0, 0);
    while p < mask.len()
        invariant
            mask@.len() == width * height,
            width <= i32::MAX,
            height <= i32::MAX,
            w == width,
            h == height,
            p <= mask@.len(),
            match found {
                Some(bx) => {
                    &&& forall|q: int|
                        0 <= q < p && #[trigger] mask@[q] ==> bx.0 <= q % w < bx.2 && bx.1 <= q / w
                            < bx.3
                    &&& in_image(w, h, a.0, a.1) && marked(mask@, w, a.0, a.1) && a.0 == bx.0
                    &&& in_image(w, h, b.0, b.1) && marked(mask@, w, b.0, b.1) && b.1 == bx.1
                    &&& in_image(w, h, c.0, c.1) && marked(mask@, w, c.0, c.1) && c.0 + 1 == bx.2
                    &&& in_image(w, h, d.0, d.1) && marked(mask@, w, d.0, d.1) && d.1 + 1 == bx.3
                },
                None => forall|q: int| 0 <= q < p ==> !#[trigger] mask@[q],
            },
        decreases mask@.len() - p,
    {
        if mask[p] {
            proof {
                assert(w > 0) by {
                    if w == 0 {
                        assert(w * h == 0) by (nonlinear_arith)
                            requires
                                w == 0,
                        ;
                    }
                }
                lemma_index_split(w, h, p as int);
                assert(marked(mask@, w, p as int % w, p as int / w));
            }
            let x: i32 = (p % width) as i32;
            let y: i32 = (p / width) as i32;
            let ghost here = (x as int, y as int);
            match found {
                None => {
                    found = Some((x, y, x + 1, y + 1));
                    proof {
                        a = here;
                        b = here;
                        c = here;
                        d = here;
                    }
                },
                Some((l, t, r, bt)) => {
                    proof {
                        if x < l {
                            a = here;
                        }
                        if y < t {
                            b = here;
                        }
                        if x + 1 > r {
                            c = here;
                        }
                        if y + 1 > bt {
                            d = here;
                        }
                    }
                    found = Some(
                        (
                            if x < l {
                                x
                            } else {
                                l
                            },
                            if y < t {
                                y
                            } else {
                                t
                            },
                            if x + 1 > r {
                                x + 1
                            } else {
                                r
                            },
                            if y + 1 > bt {
                                y + 1
                            } else {
                                bt
                            },
                        ),
                    );
                },
            }
        }
        p = p + 1;
    }
    proof {
        assert forall|x: int, y: int|
            in_image(w, h, x, y) && #[trigger] marked(mask@, w, x, y) implies ({
            let q = y * w + x;
            0 <= q < mask@.len() && mask@[q] && q % w == x && q / w == y
        }) by {
            lemma_index(w, h, x, y);
            lemma_index_inverse(w, x, y);
        }
        match found {
            Some(bx) => {
                assert forall|x: int, y: int|
                    in_image(w, h, x, y) && #[trigger] marked(mask@, w, x, y) implies bx.0 <= x
                    < bx.2 && bx.1 <= y < bx.3 by {
                    let q = y * w + x;
                    assert(mask@[q]);
                }
            },
            None => {
                assert forall|x: int, y: int| in_image(w, h, x, y) implies !#[trigger] marked(
                    mask@,
                    w,
                    x,
                    y,
                ) by {
                    if marked(mask@, w, x, y) {
                        let q = y * w + x;
                        assert(mask@[q]);
                    }
                }
            },
        }
    }
    found
}

/// The dark pixels of a picture: the body of its character.
pub open spec fn is_body(r: u8, g: u8, b: u8, a: u8) -> bool {
    a > 128 && r < 200 && g < 200 && b < 200
}

/// The light pixels of a picture: the outline of its character.
pub open spec fn is_outline(r: u8, g: u8, b: u8, a: u8) -> bool {
    a > 128 && r >= 200 && g >= 200 && b >= 200
}

/// Whether the pixel `p` belongs to the body.
pub open spec fn body_at(rgba: Seq<u8>, p: int) -> bool {
    is_body(rgba[4 * p], rgba[4 * p + 1], rgba[4 * p + 2], rgba[4 * p + 3])
}

/// Whether the pixel `p` belongs to the outline.
pub open spec fn outline_at(rgba: Seq<u8>, p: int) -> bool {
    is_outline(rgba[4 * p], rgba[4 * p + 1], rgba[4 * p + 2], rgba[4 * p + 3])
}

/// The marks of the pixels that belong to the body.
pub open spec fn body_mask(img: ImageView) -> Seq<bool> {
    Seq::new((img.width * img.height) as nat, |p: int| body_at(img.rgba, p))
}

/// The marks of the pixels that belong to the outline.
pub open spec fn outline_mask(img: ImageView) -> Seq<bool> {
    Seq::new((img.width * img.height) as nat, |p: int| outline_at(img.rgba, p))
}

fn mask_of(img: &RgbaImage, outline: bool) -> (mask: Vec<bool>)
    requires
        img.wf(),
    ensures
        mask@ == (if outline {
            outline_mask(img@)
        } else {
            body_mask(img@)
        }),
        mask@.len() == img.width * img.height,
{
    let len: usize = img.rgba.len();
    let n: usize = len / 4;
    let mut mask: Vec<bool> = Vec::new();
    let mut p: usize = 0;
    let ghost whole = if outline {
        outline_mask(img@)
    } else {
        body_mask(img@)
    };
    proof {
        assert(0 <= img.width * img.height) by (nonlinear_arith);
    }
    while p < n
        invariant
            img.wf(),
            len == img.rgba@.len(),
            n == len / 4,
            n == img.width * img.height,
            p <= n,
            mask@.len() == p,
            whole == (if outline {
                outline_mask(img@)
            } else {
                body_mask(img@)
            }),
            forall|q: int| 0 <= q < p ==> #[trigger] mask@[q] == whole[q],
        decreases n - p,
    {
        let i: usize = 4 * p;
        let r: u8 = img.rgba[i];
        let g: u8 = img.rgba[i + 1];
        let b: u8 = img.rgba[i + 2];
        let a: u8 = img.rgba[i + 3];
        let m: bool = if outline {
            a > 128 && r >= 200 && g >= 200 && b >= 200
        } else {
            a > 128 && r < 200 && g < 200 && b < 200
        };
        mask.push(m);
        p = p + 1;
    }
    proof {
        assert(mask@ =~= whole);
    }
    mask
}

/// The smallest box round the body of a picture's character.
pub fn body_bbox_image(img: &RgbaImage) -> (r: Option<InkBox>)
    requires
        img.wf(),
        img.width <= i32::MAX,
        img.height <= i32::MAX,
    ensures
        match r {
            Some(b) => is_box(body_mask(img@), img.width as int, img.height as int, b),
            None => none_marked(body_mask(img@), img.width as int, img.height as int),
        },
{
    let mask = mask_of(img, false);
    blit_bbox(&mask, img.width as usize, img.height as usize)
}

/// The marks of the pixels that a face covers.
pub open spec fn ink_mask(glyph: RasterGlyph) -> Seq<bool> {
    glyph.bitmap@.map_values(|c: u8| c != 0)
}

/// The smallest box round the pixels that a face covers.
pub fn ink_bbox(glyph: &RasterGlyph) -> (r: Option<InkBox>)
    requires
        glyph.wf(),
    ensures
        match r {
            Some(b) => is_box(ink_mask(*glyph), glyph.width as int, glyph.height as int, b),
            None => none_marked(ink_mask(*glyph), glyph.width as int, glyph.height as int),
        },
{
    let mut mask: Vec<bool> = Vec::new();
    let mut p: usize = 0;
    while p < glyph.bitmap.len()
        invariant
            p <= glyph.bitmap@.len(),
            mask@.len() == p,
            forall|q: int| 0 <= q < p ==> #[trigger] mask@[q] == (glyph.bitmap@[q] != 0),
        decreases glyph.bitmap@.len() - p,
    {
        mask.push(glyph.bitmap[p] != 0);
        p = p + 1;
    }
    proof {
        assert(mask@ =~= ink_mask(*glyph));
    }
    blit_bbox(&mask, glyph.width, glyph.height)
}

/// Whether a marked pixel lies within `d` columns and rows of a pixel.
pub open spec fn near(mask: Seq<bool>, width: int, height: int, x: int, y: int, d: int) -> bool {
    exists|u: int, v: int|
        in_image(width, height, u, v) && #[trigger] marked(mask, width, u, v) && x - d <= u <= x + d
            && y - d <= v <= y + d
}

fn is_near(mask: &Vec<bool>, width: usize, height: usize, x: usize, y: usize, d: usize) -> (r: bool)
    requires
        mask@.len() == width * height,
        width <= i32::MAX,
        height <= i32::MAX,
        x < width,
        y < height,
        d <= i32::MAX,
    ensures
        r == near(mask@, width as int, height as int, x as int, y as int, d as int),
{
    let ghost w = width as int;
    let ghost h = height as int;
    let total: usize = mask.len();
    let left: usize = if x < d {
        0
    } else {
        x - d
    };
    let top: usize = if y < d {
        0
    } else {
        y - d
    };
    let right: usize = if x + d >= width {
        width - 1
    } else {
        x + d
    };
    let bottom: usize = if y + d >= height {
        height - 1
    } else {
        y + d
    };
    let mut v: usize = top;
    while v <= bottom
        invariant
            total == mask@.len(),
            mask@.len() == width * height,
            w == width,
            h == height,
            width <= i32::MAX,
            height <= i32::MAX,
            d <= i32::MAX,
            x < width,
            y < height,
            left <= right < width,
            top <= v <= bottom + 1,
            bottom < height,
            left == (if x < d {
                0
            } else {
                x - d
            }),
            top == (if y < d {
                0
            } else {
                y - d
            }),
            right == (if x + d >= width {
                width - 1
            } else {
                x + d
            }),
            bottom == (if y + d >= height {
                height - 1
            } else {
                y + d
            }),
            forall|a: int, b: int|
                left <= a <= right && top <= b < v ==> !#[trigger] marked(mask@, w, a, b),
        decreases bottom + 1 - v,
    {
        let mut u: usize = left;
        while u <= right
            invariant
                total == mask@.len(),
                mask@.len() == width * height,
                w == width,
                h == height,
                width <= i32::MAX,
                height <= i32::MAX,
                d <= i32::MAX,
                x < width,
                y < height,
                left <= u <= right + 1,
                right < width,
                top <= v <= bottom,
                bottom < height,
                x - d <= left,
                y - d <= top,
                right <= x + d,
                bottom <= y + d,
                forall|a: int| left <= a < u ==> !#[trigger] marked(mask@, w, a, v as int),
            decreases right + 1 - u,
        {
            proof {
                lemma_index(w, h, u as int, v as int);
            }
            if mask[v * width + u] {
                proof {
                    assert(marked(mask@, w, u as int, v as int));
                }
                return true;
            }
            u = u + 1;
        }
        v = v + 1;
    }
    proof {
        if near(mask@, w, h, x as int, y as int, d as int) {
            let (a, b) = choose|a: int, b: int|
                in_image(w, h, a, b) && #[trigger] marked(mask@, w, a, b) && x - d <= a <= x + d
                    && y - d <= b <= y + d;
            assert(left <= a <= right && top <= b < v);
            assert(!marked(mask@, w, a, b));
        }
    }
    false
}

/// Whether `d` is the distance of a pixel from the nearest marked one, counted
/// in columns or rows, whichever is more.
pub open spec fn distance_is(
    mask: Seq<bool>,
    width: int,
    height: int,
    x: int,
    y: int,
    d: int,
) -> bool {
    near(mask, width, height, x, y, d) && (d > 0 ==> !near(mask, width, height, x, y, d - 1))
}

/// The distance of a pixel from the nearest marked one, where it is small.
fn small_distance(mask: &Vec<bool>, width: usize, height: usize, x: usize, y: usize) -> (r: Option<
    i32,
>)
    requires
        mask@.len() == width * height,
        width <= i32::MAX,
        height <= i32::MAX,
        x < width,
        y < height,
    ensures
        match r {
            Some(d) => 0 <= d <= OUTLINE_SEARCH_PX && distance_is(
                mask@,
                width as int,
                height as int,
                x as int,
                y as int,
                d as int,
            ),
            None => !near(
                mask@,
                width as int,
                height as int,
                x as int,
                y as int,
                OUTLINE_SEARCH_PX as int,
            ),
        },
{
    let mut d: usize = 0;
    while d <= 8
        invariant
            mask@.len() == width * height,
            width <= i32::MAX,
            height <= i32::MAX,
            x < width,
            y < height,
            d <= 9,
            d > 0 ==> !near(
                mask@,
                width as int,
                height as int,
                x as int,
                y as int,
                d - 1,
            ),
        decreases 9 - d,
    {
        if is_near(mask, width, height, x, y, d) {
            return Some(d as i32);
        }
        d = d + 1;
    }
    None
}

/// Whether an outline pixel lies `d` away from the body.
pub open spec fn outline_reaches(img: ImageView, d: int) -> bool {
    exists|x: int, y: int|
        in_image(img.width as int, img.height as int, x, y) && #[trigger] marked(
            outline_mask(img),
            img.width as int,
            x,
            y,
        ) && distance_is(body_mask(img), img.width as int, img.height as int, x, y, d)
}

/// Whether `d` is how far the outline of a picture reaches from the body, as
/// far as it is looked for.
pub open spec fn is_outline_width(img: ImageView, d: int) -> bool {
    &&& 0 < d <= OUTLINE_SEARCH_PX
    &&& outline_reaches(img, d)
    &&& forall|e: int| d < e <= OUTLINE_SEARCH_PX ==> !#[trigger] outline_reaches(img, e)
}

proof fn lemma_distance_unique(
    mask: Seq<bool>,
    w: int,
    h: int,
    x: int,
    y: int,
    d: int,
    e: int,
)
    requires
        0 <= d,
        0 <= e,
        distance_is(mask, w, h, x, y, d),
        distance_is(mask, w, h, x, y, e),
    ensures
        d == e,
{
    if d < e {
        lemma_near_grows(mask, w, h, x, y, d, e - 1);
    } else if e < d {
        lemma_near_grows(mask, w, h, x, y, e, d - 1);
    }
}

proof fn lemma_near_grows(mask: Seq<bool>, w: int, h: int, x: int, y: int, d: int, e: int)
    requires
        near(mask, w, h, x, y, d),
        d <= e,
    ensures
        near(mask, w, h, x, y, e),
{
    let (u, v) = choose|u: int, v: int|
        in_image(w, h, u, v) && #[trigger] marked(mask, w, u, v) && x - d <= u <= x + d && y - d <= v
            <= y + d;
    assert(marked(mask, w, u, v));
}

/// How far the outline of a picture reaches from the body of its character.
pub fn outline_px_from(img: &RgbaImage) -> (r: Option<i32>)
    requires
        img.wf(),
        img.width <= i32::MAX,
        img.height <= i32::MAX,
    ensures
        match r {
            Some(d) => is_outline_width(img@, d as int),
            None => forall|d: int|
                0 < d <= OUTLINE_SEARCH_PX ==> !#[trigger] outline_reaches(img@, d),
        },
{
    let body = mask_of(img, false);
    let light = mask_of(img, true);
    let width: usize = img.width as usize;
    let height: usize = img.height as usize;
    let ghost w = width as int;
    let ghost h = height as int;
    let mut best: i32 = 0;
    let mut p: usize = 0;
    while p < light.len()
        invariant
            img.wf(),
            body@ == body_mask(img@),
            light@ == outline_mask(img@),
            body@.len() == width * height,
            light@.len() == width * height,
            width == img.width,
            height == img.height,
            width <= i32::MAX,
            height <= i32::MAX,
            w == width,
            h == height,
            p <= light@.len(),
            0 <= best <= OUTLINE_SEARCH_PX,
            best > 0 ==> outline_reaches(img@, best as int),
            forall|q: int, e: int|
                0 <= q < p && best < e <= OUTLINE_SEARCH_PX && #[trigger] light@[q]
                    ==> !#[trigger] distance_is(body@, w, h, q % w, q / w, e),
        decreases light@.len() - p,
    {
        if light[p] {
            proof {
                assert(w > 0) by {
                    if w == 0 {
                        assert(w * h == 0) by (nonlinear_arith)
                            requires
                                w == 0,
                        ;
                    }
                }
                lemma_index_split(w, h, p as int);
            }
            let x: usize = p % width;
            let y: usize = p / width;
            let found: Option<i32> = small_distance(&body, width, height, x, y);
            proof {
                assert(marked(light@, w, x as int, y as int));
                assert forall|e: int|
                    0 <= e <= OUTLINE_SEARCH_PX && #[trigger] distance_is(
                        body@,
                        w,
                        h,
                        x as int,
                        y as int,
                        e,
                    ) implies found == Some(e as i32) by {
                    match found {
                        Some(d) => {
                            lemma_distance_unique(body@, w, h, x as int, y as int, d as int, e);
                        },
                        None => {
                            lemma_near_grows(
                                body@,
                                w,
                                h,
                                x as int,
                                y as int,
                                e,
                                OUTLINE_SEARCH_PX as int,
                            );
                        },
                    }
                }
            }
            if let Some(d) = found {
                if d > best {
                    best = d;
                    proof {
                        assert(outline_reaches(img@, d as int));
                    }
                }
            }
        }
        p = p + 1;
    }
    proof {
        assert forall|e: int| best < e <= OUTLINE_SEARCH_PX implies !#[trigger] outline_reaches(
            img@,
            e,
        ) by {
            if outline_reaches(img@, e) {
                let (x, y) = choose|x: int, y: int|
                    in_image(w, h, x, y) && #[trigger] marked(outline_mask(img@), w, x, y)
                        && distance_is(body_mask(img@), w, h, x, y, e);
                lemma_index(w, h, x, y);
                lemma_index_inverse(w, x, y);
                let q = y * w + x;
                assert(light@[q]);
                assert(distance_is(body@, w, h, q % w, q / w, e));
            }
        }
    }
    if best > 0 {
        Some(best)
    } else {
        None
    }
}

// The measures of an atlas.

/// How many of the first `n` pictures that are not empty have a size.
pub open spec fn size_count(frames: Seq<RgbaImage>, n: int, width: u32, height: u32) -> int
    decreases n,
{
    if n <= 0 {
        0
    } else {
        size_count(frames, n - 1, width, height) + if !empty_cut(frames[n - 1]@) && frames[n
            - 1].width == width && frames[n - 1].height == height {
            1int
        } else {
            0int
        }
    }
}

/// Whether no size is more common among the pictures that are not empty.
pub open spec fn is_common_size(frames: Seq<RgbaImage>, width: u32, height: u32) -> bool {
    let n = frames.len() as int;
    &&& size_count(frames, n, width, height) > 0
    &&& forall|w: u32, h: u32| #[trigger]
        size_count(frames, n, w, h) <= size_count(frames, n, width, height)
}

/// The height of the body of a picture's character.
pub open spec fn body_height(img: ImageView) -> int {
    let w = img.width as int;
    let h = img.height as int;
    if none_marked(body_mask(img), w, h) {
        0
    } else {
        let b = choose|b: InkBox| is_box(body_mask(img), w, h, b);
        b.3 - b.1
    }
}

proof fn lemma_box_unique(mask: Seq<bool>, w: int, h: int, b: InkBox, c: InkBox)
    requires
        is_box(mask, w, h, b),
        is_box(mask, w, h, c),
    ensures
        b == c,
{
    assert(b.0 == c.0);
    assert(b.1 == c.1);
    assert(b.2 == c.2);
    assert(b.3 == c.3);
}

/// The width of the outline of a picture, 0 where there is none.
pub open spec fn outline_width(img: ImageView) -> int {
    if exists|d: int| is_outline_width(img, d) {
        choose|d: int| is_outline_width(img, d)
    } else {
        0
    }
}

pub open spec fn larger(a: int, b: int) -> int {
    if a >= b {
        a
    } else {
        b
    }
}

/// The largest body among the first `n` pictures of a size.
pub open spec fn tallest(frames: Seq<RgbaImage>, n: int, width: u32, height: u32) -> int
    decreases n,
{
    if n <= 0 {
        0
    } else {
        let before = tallest(frames, n - 1, width, height);
        let f = frames[n - 1];
        if f.width == width && f.height == height {
            larger(before, body_height(f@))
        } else {
            before
        }
    }
}

/// The widest outline among the first `n` pictures of a size.
pub open spec fn widest(frames: Seq<RgbaImage>, n: int, width: u32, height: u32) -> int
    decreases n,
{
    if n <= 0 {
        0
    } else {
        let before = widest(frames, n - 1, width, height);
        let f = frames[n - 1];
        if f.width == width && f.height == height {
            larger(before, outline_width(f@))
        } else {
            before
        }
    }
}

/// The template for a size, where a character of the size can be measured.
pub open spec fn template_for(frames: Seq<RgbaImage>, width: u32, height: u32) -> Option<
    AtlasTemplate,
> {
    let n = frames.len() as int;
    let ink = tallest(frames, n, width, height);
    let outline = widest(frames, n, width, height);
    if width == 0 || height == 0 || ink < 1 {
        None
    } else {
        Some(
            AtlasTemplate {
                width,
                height,
                ink_px: ink as i32,
                outline_px: if outline <= 0 {
                    DEFAULT_OUTLINE_PX
                } else if outline > MAX_OUTLINE_PX {
                    MAX_OUTLINE_PX
                } else {
                    outline as i32
                },
            },
        )
    }
}

pub open spec fn frames_ok(frames: Seq<RgbaImage>) -> bool {
    forall|i: int|
        0 <= i < frames.len() ==> (#[trigger] frames[i]).wf() && frames[i].width <= i32::MAX
            && frames[i].height <= i32::MAX
}

fn count_size(frames: &Vec<RgbaImage>, width: u32, height: u32) -> (n: usize)
    ensures
        n == size_count(frames@, frames@.len() as int, width, height),
{
    let mut n: usize = 0;
    let mut i: usize = 0;
    while i < frames.len()
        invariant
            i <= frames@.len(),
            n == size_count(frames@, i as int, width, height),
            n <= i,
        decreases frames@.len() - i,
    {
        if !is_empty_cut(&frames[i]) && frames[i].width == width && frames[i].height == height {
            n = n + 1;
        }
        i = i + 1;
    }
    n
}

proof fn lemma_counted_size(frames: Seq<RgbaImage>, n: int, width: u32, height: u32)
    requires
        0 <= n <= frames.len(),
        size_count(frames, n, width, height) > 0,
    ensures
        exists|i: int|
            0 <= i < n && !empty_cut((#[trigger] frames[i])@) && frames[i].width == width
                && frames[i].height == height,
    decreases n,
{
    if n > 0 {
        let f = frames[n - 1];
        if !(!empty_cut(f@) && f.width == width && f.height == height) {
            lemma_counted_size(frames, n - 1, width, height);
        }
    }
}

proof fn lemma_size_counts(frames: Seq<RgbaImage>, n: int, i: int)
    requires
        0 <= i < n <= frames.len(),
        !empty_cut(frames[i]@),
    ensures
        size_count(frames, n, frames[i].width, frames[i].height) > 0,
    decreases n,
{
    lemma_count_positive(frames, n - 1, frames[i].width, frames[i].height);
    if i < n - 1 {
        lemma_size_counts(frames, n - 1, i);
    }
}

proof fn lemma_count_positive(frames: Seq<RgbaImage>, n: int, width: u32, height: u32)
    ensures
        size_count(frames, n, width, height) >= 0,
    decreases n,
{
    if n > 0 {
        lemma_count_positive(frames, n - 1, width, height);
    }
}

fn common_size(frames: &Vec<RgbaImage>) -> (r: Option<(u32, u32)>)
    ensures
        match r {
            Some((w, h)) => is_common_size(frames@, w, h),
            None => forall|i: int| 0 <= i < frames@.len() ==> empty_cut((#[trigger] frames@[i])@),
        },
{
    let mut best: Option<(u32, u32)> = None;
    let mut most: usize = 0;
    let mut i: usize = 0;
    let ghost n = frames@.len() as int;
    while i < frames.len()
        invariant
            n == frames@.len(),
            i <= frames@.len(),
            match best {
                Some((w, h)) => most > 0 && most == size_count(frames@, n, w, h),
                None => most == 0 && forall|k: int|
                    0 <= k < i ==> empty_cut((#[trigger] frames@[k])@),
            },
            forall|k: int|
                0 <= k < i && !empty_cut((#[trigger] frames@[k])@) ==> size_count(
                    frames@,
                    n,
                    frames@[k].width,
                    frames@[k].height,
                ) <= most,
        decreases frames@.len() - i,
    {
        if !is_empty_cut(&frames[i]) {
            let w: u32 = frames[i].width;
            let h: u32 = frames[i].height;
            let c: usize = count_size(frames, w, h);
            proof {
                lemma_size_counts(frames@, n, i as int);
            }
            if c > most {
                most = c;
                best = Some((w, h));
            }
        }
        i = i + 1;
    }
    proof {
        if let Some((bw, bh)) = best {
            assert forall|w: u32, h: u32| #[trigger] size_count(frames@, n, w, h) <= size_count(
                frames@,
                n,
                bw,
                bh,
            ) by {
                if size_count(frames@, n, w, h) > 0 {
                    lemma_counted_size(frames@, n, w, h);
                    let k = choose|k: int|
                        0 <= k < n && !empty_cut((#[trigger] frames@[k])@) && frames@[k].width == w
                            && frames@[k].height == h;
                    assert(!empty_cut(frames@[k]@));
                }
            }
        }
    }
    best
}

fn measured_height(img: &RgbaImage) -> (n: i32)
    requires
        img.wf(),
        img.width <= i32::MAX,
        img.height <= i32::MAX,
    ensures
        n == body_height(img@),
        n >= 0,
{
    match body_bbox_image(img) {
        Some(b) => {
            proof {
                let w = img.width as int;
                let h = img.height as int;
                let c = choose|c: InkBox| is_box(body_mask(img@), w, h, c);
                lemma_box_unique(body_mask(img@), w, h, b, c);
                let (x, y) = choose|x: int, y: int|
                    in_image(w, h, x, y) && #[trigger] marked(body_mask(img@), w, x, y) && y == b.1;
                assert(marked(body_mask(img@), w, x, y));
                assert(!none_marked(body_mask(img@), w, h));
                assert(b.1 < b.3);
                let (u, v) = choose|u: int, v: int|
                    in_image(w, h, u, v) && #[trigger] marked(body_mask(img@), w, u, v) && v + 1
                        == b.3;
                assert(0 <= b.1 && b.3 <= h);
            }
            b.3 - b.1
        },
        None => 0,
    }
}

fn measured_outline(img: &RgbaImage) -> (n: i32)
    requires
        img.wf(),
        img.width <= i32::MAX,
        img.height <= i32::MAX,
    ensures
        n == outline_width(img@),
        0 <= n <= OUTLINE_SEARCH_PX,
{
    match outline_px_from(img) {
        Some(d) => {
            proof {
                let e = choose|e: int| is_outline_width(img@, e);
                assert(is_outline_width(img@, d as int));
                assert(is_outline_width(img@, e));
                if d < e {
                    assert(!outline_reaches(img@, e));
                } else if e < d {
                    assert(!outline_reaches(img@, d as int));
                }
            }
            d
        },
        None => {
            proof {
                if exists|e: int| is_outline_width(img@, e) {
                    let e = choose|e: int| is_outline_width(img@, e);
                    assert(outline_reaches(img@, e));
                }
            }
            0
        },
    }
}

/// Measures the pictures of one row of an atlas. Where several sizes are the
/// most common, any of them counts.
pub fn template(frames: &Vec<RgbaImage>) -> (r: Option<AtlasTemplate>)
    requires
        frames_ok(frames@),
    ensures
        (forall|i: int| 0 <= i < frames@.len() ==> empty_cut((#[trigger] frames@[i])@)) ==> r is None,
        (exists|i: int| 0 <= i < frames@.len() && !empty_cut((#[trigger] frames@[i])@))
            ==> exists|w: u32, h: u32| #[trigger]
            is_common_size(frames@, w, h) && r == template_for(frames@, w, h),
{
    let (width, height) = match common_size(frames) {
        Some(size) => size,
        None => {
            return None;
        },
    };
    proof {
        lemma_counted_size(frames@, frames@.len() as int, width, height);
        assert(is_common_size(frames@, width, height));
    }
    if width == 0 || height == 0 {
        return None;
    }
    let mut ink: i32 = 0;
    let mut outline: i32 = 0;
    let mut i: usize = 0;
    while i < frames.len()
        invariant
            frames_ok(frames@),
            i <= frames@.len(),
            ink == tallest(frames@, i as int, width, height),
            outline == widest(frames@, i as int, width, height),
            ink >= 0,
            0 <= outline <= OUTLINE_SEARCH_PX,
        decreases frames@.len() - i,
    {
        if frames[i].width == width && frames[i].height == height {
            let a: i32 = measured_height(&frames[i]);
            if a > ink {
                ink = a;
            }
            let b: i32 = measured_outline(&frames[i]);
            if b > outline {
                outline = b;
            }
        }
        i = i + 1;
    }
    if ink < 1 {
        return None;
    }
    Some(
        AtlasTemplate {
            width,
            height,
            ink_px: ink,
            outline_px: if outline <= 0 {
                DEFAULT_OUTLINE_PX
            } else if outline > MAX_OUTLINE_PX {
                MAX_OUTLINE_PX
            } else {
                outline
            },
        },
    )
}

// Painting a character.

/// Half of a number, rounded towards 0.
pub open spec fn half(v: int) -> int {
    if v >= 0 {
        v / 2
    } else {
        -((-v) / 2)
    }
}

/// Where the first column or row of a character lies, so that the part from
/// `from` to `to` is in the middle of `size`.
pub open spec fn centering(size: int, from: int, to: int) -> int {
    half(size - (to - from)) - from
}

/// How much of a pixel of the cell a character covers that is shifted.
pub open spec fn coverage_at(glyph: RasterGlyph, dx: int, dy: int, x: int, y: int) -> u8 {
    if in_image(glyph.width as int, glyph.height as int, x - dx, y - dy) {
        glyph.bitmap@[(y - dy) * glyph.width + (x - dx)]
    } else {
        0
    }
}

/// The marks of the pixels of a cell that belong to the body of a character.
pub open spec fn painted_body(glyph: RasterGlyph, dx: int, dy: int, width: int, height: int) -> Seq<
    bool,
> {
    Seq::new(
        (width * height) as nat,
        |p: int| coverage_at(glyph, dx, dy, p % width, p / width) >= BODY_COVERAGE,
    )
}

/// A pixel of a painted cell: gray where the character covers it, white where
/// the outline reaches, nothing elsewhere.
pub open spec fn painted_pixel(
    glyph: RasterGlyph,
    dx: int,
    dy: int,
    width: int,
    height: int,
    radius: int,
    x: int,
    y: int,
) -> Seq<u8> {
    let c = coverage_at(glyph, dx, dy, x, y);
    if c != 0 {
        seq![(255 - c) as u8, (255 - c) as u8, (255 - c) as u8, 255u8]
    } else if radius > 0 && near(
        painted_body(glyph, dx, dy, width, height),
        width,
        height,
        x,
        y,
        radius,
    ) {
        seq![255u8, 255u8, 255u8, 255u8]
    } else {
        seq![0u8, 0u8, 0u8, 0u8]
    }
}

/// Whether `rgba` is the painted cell.
pub open spec fn is_painted(
    rgba: Seq<u8>,
    glyph: RasterGlyph,
    dx: int,
    dy: int,
    width: int,
    height: int,
    radius: int,
) -> bool {
    &&& rgba.len() == width * height * 4
    &&& forall|p: int|
        0 <= p < width * height ==> #[trigger] rgba.subrange(4 * p, 4 * p + 4) == painted_pixel(
            glyph,
            dx,
            dy,
            width,
            height,
            radius,
            p % width,
            p / width,
        )
}

/// A painted cell is clear or opaque in every pixel. What is opaque without
/// being covered by the character is white, and lies near its body.
pub proof fn cells_are_clear_or_opaque(
    rgba: Seq<u8>,
    glyph: RasterGlyph,
    dx: int,
    dy: int,
    width: int,
    height: int,
    radius: int,
    p: int,
)
    requires
        is_painted(rgba, glyph, dx, dy, width, height, radius),
        0 <= p < width * height,
    ensures
        rgba[4 * p + 3] == 0 || rgba[4 * p + 3] == 255,
        rgba[4 * p + 3] == 0 ==> coverage_at(glyph, dx, dy, p % width, p / width) == 0,
        rgba[4 * p + 3] == 255 && coverage_at(glyph, dx, dy, p % width, p / width) == 0 ==> {
            &&& rgba[4 * p] == 255 && rgba[4 * p + 1] == 255 && rgba[4 * p + 2] == 255
            &&& near(
                painted_body(glyph, dx, dy, width, height),
                width,
                height,
                p % width,
                p / width,
                radius,
            )
        },
{
    let pixel = rgba.subrange(4 * p, 4 * p + 4);
    assert(pixel == painted_pixel(glyph, dx, dy, width, height, radius, p % width, p / width));
    assert(pixel[0] == rgba[4 * p] && pixel[1] == rgba[4 * p + 1]);
    assert(pixel[2] == rgba[4 * p + 2] && pixel[3] == rgba[4 * p + 3]);
}

fn coverage(glyph: &RasterGlyph, dx: i64, dy: i64, x: usize, y: usize) -> (c: u8)
    requires
        glyph.wf(),
        x <= i32::MAX,
        y <= i32::MAX,
        -0x1_0000_0000 <= dx <= 0x1_0000_0000,
        -0x1_0000_0000 <= dy <= 0x1_0000_0000,
    ensures
        c == coverage_at(*glyph, dx as int, dy as int, x as int, y as int),
{
    let gx: i64 = x as i64 - dx;
    let gy: i64 = y as i64 - dy;
    if gx < 0 || gy < 0 || gx >= glyph.width as i64 || gy >= glyph.height as i64 {
        return 0;
    }
    proof {
        lemma_index(glyph.width as int, glyph.height as int, gx as int, gy as int);
    }
    let _len: usize = glyph.bitmap.len();
    glyph.bitmap[gy as usize * glyph.width + gx as usize]
}

fn paint_body(glyph: &RasterGlyph, dx: i64, dy: i64, width: usize, height: usize, total: usize) -> (
body: Vec<bool>)
    requires
        glyph.wf(),
        0 < width <= i32::MAX,
        0 < height <= i32::MAX,
        total == width * height,
        -0x1_0000_0000 <= dx <= 0x1_0000_0000,
        -0x1_0000_0000 <= dy <= 0x1_0000_0000,
    ensures
        body@ == painted_body(*glyph, dx as int, dy as int, width as int, height as int),
{
    let mut body: Vec<bool> = Vec::new();
    let mut p: usize = 0;
    let ghost w = width as int;
    let ghost h = height as int;
    while p < total
        invariant
            glyph.wf(),
            0 < width <= i32::MAX,
            0 < height <= i32::MAX,
            total == width * height,
            w == width,
            h == height,
            -0x1_0000_0000 <= dx <= 0x1_0000_0000,
            -0x1_0000_0000 <= dy <= 0x1_0000_0000,
            p <= total,
            body@.len() == p,
            forall|q: int|
                0 <= q < p ==> #[trigger] body@[q] == (coverage_at(
                    *glyph,
                    dx as int,
                    dy as int,
                    q % w,
                    q / w,
                ) >= BODY_COVERAGE),
        decreases total - p,
    {
        proof {
            lemma_index_split(w, h, p as int);
        }
        let c: u8 = coverage(glyph, dx, dy, p % width, p / width);
        body.push(c >= BODY_COVERAGE);
        p = p + 1;
    }
    proof {
        assert(body@ =~= painted_body(*glyph, dx as int, dy as int, w, h));
    }
    body
}

fn centering_of(size: i64, from: i32, to: i32) -> (r: i64)
    requires
        0 <= size <= i32::MAX,
        0 <= from <= to,
    ensures
        r == centering(size as int, from as int, to as int),
        -0x1_0000_0000 <= r <= 0x1_0000_0000,
{
    let v: i64 = size - (to as i64 - from as i64);
    let h: i64 = if v >= 0 {
        v / 2
    } else {
        -((-v) / 2)
    };
    h - from as i64
}

/// Paints a character into a cell of an atlas: `bbox`, the box round its ink,
/// comes to lie in the middle, and a white outline goes round its body.
pub fn compose(template: &AtlasTemplate, glyph: &RasterGlyph, bbox: InkBox) -> (r: Option<RgbaImage>)
    requires
        glyph.wf(),
        0 <= bbox.0 <= bbox.2,
        0 <= bbox.1 <= bbox.3,
        template.width <= i32::MAX && template.height <= i32::MAX ==> template.width
            * template.height * 4 <= usize::MAX,
    ensures
        r is None <==> template.width == 0 || template.height == 0 || template.width > i32::MAX
            || template.height > i32::MAX || glyph.width == 0 || glyph.height == 0,
        r matches Some(img) ==> {
            &&& img.width == template.width
            &&& img.height == template.height
            &&& img.center_x == 0
            &&& img.center_y == 0
            &&& is_painted(
                img.rgba@,
                *glyph,
                centering(template.width as int, bbox.0 as int, bbox.2 as int),
                centering(template.height as int, bbox.1 as int, bbox.3 as int),
                template.width as int,
                template.height as int,
                template.outline_px as int,
            )
        },
{
    if template.width == 0 || template.height == 0 || template.width > 0x7fff_ffff
        || template.height > 0x7fff_ffff || glyph.width == 0 || glyph.height == 0 {
        return None;
    }
    let width: usize = template.width as usize;
    let height: usize = template.height as usize;
    let dx: i64 = centering_of(template.width as i64, bbox.0, bbox.2);
    let dy: i64 = centering_of(template.height as i64, bbox.1, bbox.3);
    let ghost w = width as int;
    let ghost h = height as int;
    proof {
        assert(0 <= width * height) by (nonlinear_arith);
    }
    let total: usize = width * height;
    let body = paint_body(glyph, dx, dy, width, height, total);
    let radius: i32 = template.outline_px;
    let mut rgba: Vec<u8> = Vec::new();
    let mut p: usize = 0;
    while p < total
        invariant
            glyph.wf(),
            0 < width <= i32::MAX,
            0 < height <= i32::MAX,
            total == width * height,
            w == width,
            h == height,
            radius == template.outline_px,
            -0x1_0000_0000 <= dx <= 0x1_0000_0000,
            -0x1_0000_0000 <= dy <= 0x1_0000_0000,
            body@ == painted_body(*glyph, dx as int, dy as int, w, h),
            body@.len() == total,
            p <= total,
            rgba@.len() == 4 * p,
            forall|q: int|
                0 <= q < p ==> #[trigger] rgba@.subrange(4 * q, 4 * q + 4) == painted_pixel(
                    *glyph,
                    dx as int,
                    dy as int,
                    w,
                    h,
                    radius as int,
                    q % w,
                    q / w,
                ),
        decreases total - p,
    {
        proof {
            lemma_index_split(w, h, p as int);
        }
        let x: usize = p % width;
        let y: usize = p / width;
        let c: u8 = coverage(glyph, dx, dy, x, y);
        let (v, a): (u8, u8) = if c != 0 {
            (255 - c, 255)
        } else if radius > 0 {
            if is_near(&body, width, height, x, y, radius as usize) {
                (255, 255)
            } else {
                (0, 0)
            }
        } else {
            (0, 0)
        };
        let ghost before = rgba@;
        rgba.push(v);
        rgba.push(v);
        rgba.push(v);
        rgba.push(a);
        proof {
            assert forall|q: int| 0 <= q < p + 1 implies #[trigger] rgba@.subrange(
                4 * q,
                4 * q + 4,
            ) == painted_pixel(
                *glyph,
                dx as int,
                dy as int,
                w,
                h,
                radius as int,
                q % w,
                q / w,
            ) by {
                if q < p {
                    assert(rgba@.subrange(4 * q, 4 * q + 4) =~= before.subrange(4 * q, 4 * q + 4));
                } else {
                    assert(rgba@.subrange(4 * q, 4 * q + 4) =~= seq![v, v, v, a]);
                    assert(rgba@.subrange(4 * q, 4 * q + 4) =~= painted_pixel(
                        *glyph,
                        dx as int,
                        dy as int,
                        w,
                        h,
                        radius as int,
                        q % w,
                        q / w,
                    ));
                }
            }
        }
        p = p + 1;
    }
    Some(
        RgbaImage {
            width: template.width,
            height: template.height,
            center_x: 0,
            center_y: 0,
            rgba,
        },
    )
}

/// The character that stands at a place of a sheet is found in the row and at
/// the place where its number belongs: rows of `row_width` characters, one after
/// the other. A control character stands nowhere.
pub proof fn characters_stand_where_their_number_belongs(c: char, row_width: int)
    requires
        1 <= row_width,
    ensures
        ({
            let v = c as u32 as int;
            let found = character_at(v / row_width, v % row_width, row_width);
            &&& v >= 0x20 && !(0x7f <= v <= 0x9f) ==> found == Some(c)
            &&& v < 0x20 || 0x7f <= v <= 0x9f ==> found is None
        }),
{
    let v = c as u32;
    vstd::utf8::char_is_scalar(c);
    vstd::utf8::char_u32_cast(c, v);
    vstd::arithmetic::div_mod::lemma_fundamental_div_mod(v as int, row_width);
    let (q, m) = (v as int / row_width, v as int % row_width);
    assert(q * row_width == row_width * q) by (nonlinear_arith);
}

/// What is drawn stands in the middle: as much room is left on one side as on the
/// other, but for one pixel.
pub proof fn drawings_stand_in_the_middle(size: int, from: int, to: int)
    ensures
        ({
            let at = centering(size, from, to);
            let before = from + at;
            let behind = size - (to + at);
            -1 <= behind - before <= 1
        }),
        from == 0 && to == size ==> centering(size, from, to) == 0,
{
}

/// A painted cell shows the drawing where it was put, black where it is covered
/// in full and white where it is hardly covered, and opaque all over it.
pub proof fn painted_cells_show_the_drawing(
    rgba: Seq<u8>,
    glyph: RasterGlyph,
    dx: int,
    dy: int,
    width: int,
    height: int,
    radius: int,
    u: int,
    v: int,
)
    requires
        is_painted(rgba, glyph, dx, dy, width, height, radius),
        glyph.bitmap@.len() == glyph.width * glyph.height,
        0 <= u < glyph.width,
        0 <= v < glyph.height,
        0 <= u + dx < width,
        0 <= v + dy < height,
        glyph.bitmap@[v * glyph.width + u] > 0,
    ensures
        ({
            let at = 4 * ((v + dy) * width + (u + dx));
            let gray = 255 - glyph.bitmap@[v * glyph.width + u];
            &&& 0 <= at && at + 4 <= rgba.len()
            &&& rgba[at] == gray && rgba[at + 1] == gray && rgba[at + 2] == gray
            &&& rgba[at + 3] == 255
        }),
{
    let (x, y) = (u + dx, v + dy);
    let p = y * width + x;
    lemma_pixel(width, height, x, y);
    let pixel = rgba.subrange(4 * p, 4 * p + 4);
    assert(pixel == painted_pixel(glyph, dx, dy, width, height, radius, x, y));
    assert(pixel[0] == rgba[4 * p] && pixel[1] == rgba[4 * p + 1] && pixel[2] == rgba[4 * p + 2]
        && pixel[3] == rgba[4 * p + 3]);
}

proof fn lemma_pixel(width: int, height: int, x: int, y: int)
    requires
        0 <= x < width,
        0 <= y < height,
    ensures
        0 <= y * width + x < width * height,
        (y * width + x) % width == x,
        (y * width + x) / width == y,
        4 * (y * width + x) + 4 <= width * height * 4,
{
    let p = y * width + x;
    vstd::arithmetic::div_mod::lemma_fundamental_div_mod_converse(p, width, y, x);
    assert(0 <= y * width && (y + 1) * width <= height * width) by (nonlinear_arith)
        requires
            0 <= y,
            y + 1 <= height,
            0 < width,
    ;
    assert((y + 1) * width == y * width + width && height * width == width * height)
        by (nonlinear_arith);
}

/// Around what is covered at least in part, as far as the outline is wide, a cell
/// is white; what is farther from the drawing is clear.
pub proof fn outlines_are_white_and_as_wide_as_asked(
    rgba: Seq<u8>,
    glyph: RasterGlyph,
    dx: int,
    dy: int,
    width: int,
    height: int,
    radius: int,
    u: int,
    v: int,
    x: int,
    y: int,
)
    requires
        is_painted(rgba, glyph, dx, dy, width, height, radius),
        glyph.bitmap@.len() == glyph.width * glyph.height,
        0 <= x < width,
        0 <= y < height,
        !(0 <= x - dx < glyph.width && 0 <= y - dy < glyph.height),
        0 <= u < glyph.width,
        0 <= v < glyph.height,
        0 <= u + dx < width,
        0 <= v + dy < height,
        0 < radius,
    ensures
        ({
            let at = 4 * (y * width + x);
            &&& glyph.bitmap@[v * glyph.width + u] >= BODY_COVERAGE && -radius <= x - (u + dx)
                <= radius && -radius <= y - (v + dy) <= radius ==> rgba[at] == 255 && rgba[at + 1]
                == 255 && rgba[at + 2] == 255 && rgba[at + 3] == 255
            &&& x < dx - radius || x >= dx + glyph.width + radius || y < dy - radius || y >= dy
                + glyph.height + radius ==> rgba[at + 3] == 0
        }),
{
    let p = y * width + x;
    lemma_pixel(width, height, x, y);
    let pixel = rgba.subrange(4 * p, 4 * p + 4);
    assert(pixel == painted_pixel(glyph, dx, dy, width, height, radius, x, y));
    assert(pixel[0] == rgba[4 * p] && pixel[1] == rgba[4 * p + 1] && pixel[2] == rgba[4 * p + 2]
        && pixel[3] == rgba[4 * p + 3]);
    let body = painted_body(glyph, dx, dy, width, height);
    let (bx, by) = (u + dx, v + dy);
    lemma_pixel(width, height, bx, by);
    assert(marked(body, width, bx, by) == (glyph.bitmap@[v * glyph.width + u] >= BODY_COVERAGE));
    if near(body, width, height, x, y, radius) {
        let (a, b) = choose|a: int, b: int|
            in_image(width, height, a, b) && #[trigger] marked(body, width, a, b) && x - radius <= a
                <= x + radius && y - radius <= b <= y + radius;
        lemma_pixel(width, height, a, b);
        assert(coverage_at(glyph, dx, dy, a, b) >= BODY_COVERAGE);
    }
}

/// A pixel is ink or outline only where it is more than half opaque, and never
/// both: outlines are bright, and ink is dark in every color.
pub proof fn ink_is_dark_and_outlines_are_bright(r: u8, g: u8, b: u8, a: u8)
    ensures
        a <= 128 ==> !is_body(r, g, b, a) && !is_outline(r, g, b, a),
        !(is_body(r, g, b, a) && is_outline(r, g, b, a)),
        a > 128 && r == g && g == b ==> is_body(r, g, b, a) != is_outline(r, g, b, a),
        is_body(0, 0, 0, 255) && is_outline(255, 255, 255, 255),
        is_body(199, 199, 199, 129) && is_outline(200, 200, 200, 129),
        is_body(r, g, b, a) ==> is_body(g, b, r, a),
        is_outline(r, g, b, a) ==> is_outline(g, b, r, a),
{
}

} // verus!
